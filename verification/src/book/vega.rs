//! Charts given by a Vega specification.
use vstd::prelude::*;
use crate::book::{emit, emit_path, md, Context, ContextView};

verus! {

/// What `char::escape_debug` writes for `c`.
pub uninterp spec fn spec_escape_debug(c: char) -> Seq<char>;

/// Calls `char::escape_debug` and collects it. Its documentation gives `\t`,
/// `\r`, `\n`, `\\`, `\'` and `\"` for those characters and leaves printable
/// ASCII as it is; what it writes for other characters is left to the name.
#[verifier::external_body]
fn escape_debug(c: char) -> (r: String)
    ensures
        r@ == spec_escape_debug(c),
        c == '\t' ==> r@ == seq!['\\', 't'],
        c == '\r' ==> r@ == seq!['\\', 'r'],
        c == '\n' ==> r@ == seq!['\\', 'n'],
        c == '\\' ==> r@ == seq!['\\', '\\'],
        c == '"' ==> r@ == seq!['\\', '"'],
        c == '\'' ==> r@ == seq!['\\', '\''],
        0x20 <= (c as int) <= 0x7e && c != '\\' && c != '"' && c != '\'' ==> r@ == seq![c],
{
    c.escape_debug().to_string()
}

/// How `Debug` writes a character inside a string: a single quote and
/// printable ASCII other than `\` and `"` stay as they are; tab, carriage
/// return, line feed, `\` and `"` get a backslash; any other character is
/// written as `char::escape_debug` writes it.
pub open spec fn debug_char(c: char) -> Seq<char> {
    if c == '\'' {
        seq!['\'']
    } else if c == '\t' {
        seq!['\\', 't']
    } else if c == '\r' {
        seq!['\\', 'r']
    } else if c == '\n' {
        seq!['\\', 'n']
    } else if c == '\\' || c == '"' {
        seq!['\\', c]
    } else if 0x20 <= (c as int) <= 0x7e {
        seq![c]
    } else {
        spec_escape_debug(c)
    }
}

pub open spec fn debug_chars(s: Seq<char>) -> Seq<char>
    decreases s.len(),
{
    if s.len() == 0 {
        seq![]
    } else {
        debug_chars(s.drop_last()) + debug_char(s.last())
    }
}

/// A character that `Debug` writes as itself inside a string.
pub open spec fn plain_char(c: char) -> bool {
    0x20 <= (c as int) <= 0x7e && c != '\\' && c != '"'
}

/// A string whose characters are all written as themselves is written as
/// itself between quotes.
pub proof fn lemma_debug_chars_plain(s: Seq<char>)
    requires
        forall|i: int| 0 <= i < s.len() ==> plain_char(#[trigger] s[i]),
    ensures
        debug_chars(s) == s,
    decreases s.len(),
{
    if s.len() > 0 {
        lemma_debug_chars_plain(s.drop_last());
        assert(plain_char(s[s.len() - 1]));
        assert(s.drop_last().push(s.last()) =~= s);
    }
}

/// How `Debug` writes a string: quoted, each character escaped.
pub open spec fn debug_quoted(s: Seq<char>) -> Seq<char> {
    seq!['"'] + debug_chars(s) + seq!['"']
}

/// `format!("{:?}", s)`.
pub fn debug_str(s: &str) -> (r: String)
    ensures
        r@ == debug_quoted(s@),
        (forall|i: int| 0 <= i < s@.len() ==> plain_char(#[trigger] s@[i])) ==> r@ == seq!['"'] + s@ + seq!['"'],
{
    proof {
        reveal_strlit("\"");
        reveal_strlit("'");
    }
    let mut r = String::new();
    r.append("\"");
    let n = s.unicode_len();
    let mut i: usize = 0;
    while i < n
        invariant
            n == s@.len(),
            i <= n,
            r@ == seq!['"'] + debug_chars(s@.subrange(0, i as int)),
        decreases n - i,
    {
        let c = s.get_char(i);
        proof {
            reveal_strlit("'");
        }
        let ghost before = r@;
        if c == '\'' {
            r.append("'");
        } else {
            let e = escape_debug(c);
            r.append(e.as_str());
        }
        assert(s@.subrange(0, i + 1).drop_last() =~= s@.subrange(0, i as int));
        assert(s@.subrange(0, i + 1).last() == c);
        assert(r@ =~= before + debug_char(c));
        assert(r@ =~= seq!['"'] + debug_chars(s@.subrange(0, i + 1)));
        i = i + 1;
    }
    r.append("\"");
    assert(s@.subrange(0, n as int) =~= s@);
    assert(r@ =~= debug_quoted(s@));
    proof {
        if forall|i: int| 0 <= i < s@.len() ==> plain_char(#[trigger] s@[i]) {
            lemma_debug_chars_plain(s@);
        }
    }
    r
}

/// The line that shows a chart whose specification is in the file `path`.
pub open spec fn vega_line(path: Seq<char>) -> Seq<char> {
    "\n!VEGA{\"path\":"@ + debug_quoted(path) + "}\n"@
}

/// Asks for a chart's specification `value` to be written as a JSON file and
/// adds the line `\n!VEGA{"path":<path as Debug writes it>}\n` that shows it.
pub fn render(ctx: &mut Context, value: &str)
    ensures
        ({
            let path = emit_path(old(ctx)@.dir, value@, Some(seq!['j', 's', 'o', 'n']));
            final(ctx)@ == (ContextView {
                files: old(ctx)@.files.push((path, value@)),
                out: old(ctx)@.out + vega_line(path) + seq!['\n'],
                ..old(ctx)@
            })
        }),
{
    proof {
        reveal_strlit("json");
    }
    assert("json"@ =~= seq!['j', 's', 'o', 'n']);
    let path = emit(ctx, value, Some("json"));
    let mut line = String::new();
    line.append("\n!VEGA{\"path\":");
    line.append(debug_str(path.as_str()).as_str());
    line.append("}\n");
    md(ctx, line.as_str());
}

} // verus!
