//! Source code shown on a page: the lines between two `capture` calls of a
//! source file, without their common indentation, as a Rust code block.
use vstd::prelude::*;
use vstd::utf8::{encode_scalar, encode_utf8};
use crate::book::{Context, ContextView};
use crate::chapter::{trim_end_char, trim_end_char_str};
use crate::text::{chars_of, lines, lines_of, skip_ws_start, strs_view, trim_start};

verus! {

/// The number of bytes that UTF-8 takes for `c`.
pub open spec fn width(c: char) -> nat {
    encode_scalar(c as u32).len()
}

/// The number of bytes that UTF-8 takes for `s`, as `str::len` gives it.
pub open spec fn byte_len(s: Seq<char>) -> nat {
    encode_utf8(s).len()
}

/// The number of characters at the start of `l` that take exactly `d` bytes;
/// none when `d` bytes end inside a character or past the end of `l`.
pub open spec fn chars_in(l: Seq<char>, d: nat) -> Option<nat>
    decreases l.len(),
{
    if d == 0 {
        Some(0)
    } else if l.len() == 0 || width(l[0]) > d {
        None
    } else {
        match chars_in(l.drop_first(), (d - width(l[0])) as nat) {
            Some(k) => Some(k + 1),
            None => None,
        }
    }
}

/// The number of whitespace characters that `l` starts with.
pub open spec fn leading(l: Seq<char>) -> nat {
    (l.len() - trim_start(l).len()) as nat
}

/// The code block as it is gathered: whether a line with content was seen,
/// the indentation in bytes that every line loses, and the text so far.
pub struct Gathered {
    pub has_content: bool,
    pub dedent: nat,
    pub out: Seq<char>,
}

/// The block after one more line: blank lines before the first line with
/// content are left out; that line sets the indentation; every line after
/// loses as many bytes, unless it is empty. `None` when a line cannot lose
/// them because they end inside a character or past its end.
pub open spec fn gather_step(g: Option<Gathered>, l: Seq<char>) -> Option<Gathered> {
    match g {
        None => None,
        Some(g) => if !g.has_content && leading(l) == l.len() {
            Some(g)
        } else {
            let d = if g.has_content { g.dedent } else { byte_len(l.subrange(0, leading(l) as int)) };
            if l.len() == 0 {
                Some(Gathered { has_content: true, dedent: d, out: g.out + seq!['\n'] })
            } else {
                match chars_in(l, d) {
                    Some(k) => Some(
                        Gathered {
                            has_content: true,
                            dedent: d,
                            out: g.out + l.subrange(k as int, l.len() as int) + seq!['\n'],
                        },
                    ),
                    None => None,
                }
            }
        },
    }
}

pub open spec fn gather(ls: Seq<Seq<char>>) -> Option<Gathered>
    decreases ls.len(),
{
    if ls.len() == 0 {
        Some(Gathered { has_content: false, dedent: 0, out: seq![] })
    } else {
        gather_step(gather(ls.drop_last()), ls.last())
    }
}

/// The lines of `source` strictly between the lines numbered `start` and
/// `finish` (counted from one).
pub open spec fn between(source: Seq<char>, start: u32, finish: u32) -> Seq<Seq<char>> {
    let ls = lines_of(source);
    let from = if start as int <= ls.len() { start as int } else { ls.len() as int };
    let to = if finish - 1 <= ls.len() { finish - 1 } else { ls.len() as int };
    ls.subrange(from, to)
}

/// The markdown that shows the lines: a Rust code block, with blank lines
/// around it and no blank lines at its end.
pub open spec fn code_block(source: Seq<char>, start: u32, finish: u32) -> Seq<char> {
    "\n```rust\n"@ + trim_end_char(gather(between(source, start, finish)).unwrap().out, '\n') + "\n```\n\n"@
}

/// The bytes that UTF-8 takes for `c`.
fn char_width(c: char) -> (r: usize)
    ensures
        r == width(c),
        1 <= r <= 4,
{
    proof {
        vstd::utf8::char_is_scalar(c);
    }
    let v = c as u32;
    if v <= 0x7F {
        1
    } else if v <= 0x7FF {
        2
    } else if v <= 0xFFFF {
        3
    } else {
        4
    }
}

pub proof fn lemma_byte_len_push(s: Seq<char>, c: char)
    ensures
        byte_len(s.push(c)) == byte_len(s) + width(c),
    decreases s.len(),
{
    if s.len() == 0 {
        assert(seq![c].drop_first() =~= Seq::<char>::empty());
        assert(s.push(c) =~= seq![c]);
        assert(encode_utf8(seq![c]) == encode_scalar(c as u32) + encode_utf8(seq![c].drop_first()));
        assert(encode_utf8(Seq::<char>::empty()) == Seq::<u8>::empty());
    } else {
        assert(s.push(c).drop_first() =~= s.drop_first().push(c));
        assert(s.push(c)[0] == s[0]);
        lemma_byte_len_push(s.drop_first(), c);
        assert(encode_utf8(s.push(c)) == encode_scalar(s[0] as u32) + encode_utf8(s.push(c).drop_first()));
        assert(encode_utf8(s) == encode_scalar(s[0] as u32) + encode_utf8(s.drop_first()));
    }
}

pub proof fn lemma_chars_in_bound(l: Seq<char>, d: nat)
    ensures
        chars_in(l, d) matches Some(k) ==> k <= l.len(),
    decreases l.len(),
{
    if d != 0 && l.len() > 0 && width(l[0]) <= d {
        lemma_chars_in_bound(l.drop_first(), (d - width(l[0])) as nat);
    }
}

/// The number of characters at the start of `l` that take exactly `d` bytes.
fn cut_at(l: &Vec<char>, d: usize) -> (r: Option<usize>)
    ensures
        match chars_in(l@, d as nat) {
            Some(k) => r == Some(k as usize),
            None => r is None,
        },
{
    let mut i: usize = 0;
    let mut left: usize = d;
    assert(l@.subrange(0, l@.len() as int) =~= l@);
    while left > 0
        invariant
            i <= l@.len(),
            left <= d,
            chars_in(l@, d as nat) == match chars_in(l@.subrange(i as int, l@.len() as int), left as nat) {
                Some(k) => Some((k + i) as nat),
                None => None,
            },
        decreases left,
    {
        let ghost rest = l@.subrange(i as int, l@.len() as int);
        if i == l.len() {
            return None;
        }
        let w = char_width(l[i]);
        assert(rest[0] == l@[i as int]);
        if w > left {
            return None;
        }
        assert(rest.drop_first() =~= l@.subrange(i + 1, l@.len() as int));
        left = left - w;
        i = i + 1;
    }
    Some(i)
}

/// `l` without its first `d` bytes.
fn gather_line(out: &mut String, l: &str, d: usize) -> (ok: bool)
    ensures
        ok == (l@.len() == 0 || chars_in(l@, d as nat) is Some),
        ok ==> final(out)@ == old(out)@ + (if l@.len() == 0 {
            l@
        } else {
            l@.subrange(chars_in(l@, d as nat).unwrap() as int, l@.len() as int)
        }) + seq!['\n'],
{
    proof {
        reveal_strlit("\n");
    }
    if l.unicode_len() == 0 {
        out.append("\n");
        return true;
    }
    let cs = chars_of(l);
    proof {
        lemma_chars_in_bound(l@, d as nat);
    }
    match cut_at(&cs, d) {
        Some(k) => {
            out.append(l.substring_char(k, l.unicode_len()));
            out.append("\n");
            true
        },
        None => false,
    }
}

} // verus!

verus! {

pub proof fn lemma_byte_len_prefix(l: Seq<char>, k: int, m: int)
    requires
        0 <= k <= m <= l.len(),
    ensures
        byte_len(l.subrange(0, k)) <= byte_len(l.subrange(0, m)),
    decreases m - k,
{
    if k < m {
        lemma_byte_len_prefix(l, k, m - 1);
        assert(l.subrange(0, m) =~= l.subrange(0, m - 1).push(l[m - 1]));
        lemma_byte_len_push(l.subrange(0, m - 1), l[m - 1]);
    }
}

/// Every line fits in memory: its length in bytes is a `usize`.
pub open spec fn lines_fit(ls: Seq<Seq<char>>) -> bool {
    forall|i: int| 0 <= i < ls.len() ==> byte_len(#[trigger] ls[i]) <= usize::MAX
}

/// The bytes of the whitespace that `l` starts with.
fn indent_of(l: &str) -> (r: usize)
    requires
        byte_len(l@) <= usize::MAX,
    ensures
        r == byte_len(l@.subrange(0, leading(l@) as int)),
        leading(l@) == l@.len() <==> trim_start(l@).len() == 0,
{
    let cs = chars_of(l);
    let n = cs.len();
    let t = skip_ws_start(&cs, 0, n);
    proof {
        assert(cs@.subrange(0, n as int) =~= l@);
        crate::text::lemma_trim_start(l@);
        assert(l@.subrange(t as int, n as int) == trim_start(l@));
    }
    let mut bytes: usize = 0;
    let mut j: usize = 0;
    assert(l@.subrange(0, 0) =~= Seq::<char>::empty());
    assert(l@.subrange(0, n as int) =~= l@);
    while j < t
        invariant
            t <= n,
            n == l@.len(),
            cs@ == l@,
            byte_len(l@) <= usize::MAX,
            j <= t,
            bytes == byte_len(l@.subrange(0, j as int)),
        decreases t - j,
    {
        proof {
            assert(l@.subrange(0, n as int) =~= l@);
            lemma_byte_len_prefix(l@, j + 1, n as int);
            assert(l@.subrange(0, j + 1) =~= l@.subrange(0, j as int).push(l@[j as int]));
            lemma_byte_len_push(l@.subrange(0, j as int), l@[j as int]);
        }
        bytes = bytes + char_width(cs[j]);
        j = j + 1;
    }
    bytes
}

/// The code block of the lines `ls[from..to]`, when it can be shown.
fn gather_lines(ls: &Vec<&str>, from: usize, to: usize) -> (r: Option<String>)
    requires
        from <= to <= ls@.len(),
        lines_fit(strs_view(ls@).subrange(from as int, to as int)),
    ensures
        match gather(strs_view(ls@).subrange(from as int, to as int)) {
            Some(g) => r matches Some(o) && o@ == g.out,
            None => r is None,
        },
{
    let ghost lv = strs_view(ls@);
    let mut has_content = false;
    let mut dedent: usize = 0;
    let mut out = String::new();
    let mut i = from;
    assert(lv.subrange(from as int, from as int) =~= Seq::<Seq<char>>::empty());
    while i < to
        invariant
            lv == strs_view(ls@),
            from <= i <= to <= ls@.len(),
            lines_fit(lv.subrange(from as int, to as int)),
            gather(lv.subrange(from as int, i as int)) == Some(
                Gathered { has_content, dedent: dedent as nat, out: out@ },
            ),
        decreases to - i,
    {
        let l = ls[i];
        proof {
            assert(lv[i as int] == l@);
            assert(lv.subrange(from as int, i + 1).drop_last() =~= lv.subrange(from as int, i as int));
            assert(lv.subrange(from as int, to as int)[i - from] == l@);
        }
        let ind = indent_of(l);
        let cs = chars_of(l);
        let n = cs.len();
        assert(cs@.subrange(0, n as int) =~= l@);
        let blank = skip_ws_start(&cs, 0, n) == n;
        proof {
            crate::text::lemma_trim_start(l@);
        }
        if !has_content && blank {
        } else {
            if !has_content {
                dedent = ind;
            }
            has_content = true;
            let ok = gather_line(&mut out, l, dedent);
            if !ok {
                proof {
                    assert(gather(lv.subrange(from as int, i + 1)) is None);
                    assert(lv.subrange(from as int, to as int).subrange(0, i + 1 - from) =~= lv.subrange(from as int, i + 1));
                    lemma_gather_none(lv.subrange(from as int, to as int), i + 1 - from);
                }
                return None;
            }
        }
        i = i + 1;
    }
    Some(out)
}

proof fn lemma_gather_none(ls: Seq<Seq<char>>, k: int)
    requires
        0 <= k <= ls.len(),
        gather(ls.subrange(0, k)) is None,
    ensures
        gather(ls) is None,
    decreases ls.len() - k,
{
    if k < ls.len() {
        assert(ls.subrange(0, k + 1).drop_last() =~= ls.subrange(0, k));
        lemma_gather_none(ls, k + 1);
    } else {
        assert(ls.subrange(0, k) =~= ls);
    }
}

} // verus!

verus! {

/// Whether `l` takes no more than `usize::MAX` bytes.
fn fits(l: &str) -> (r: bool)
    ensures
        r == (byte_len(l@) <= usize::MAX),
{
    let cs = chars_of(l);
    let n = cs.len();
    let mut bytes: usize = 0;
    let mut j: usize = 0;
    assert(l@.subrange(0, 0) =~= Seq::<char>::empty());
    while j < n
        invariant
            n == l@.len(),
            cs@ == l@,
            j <= n,
            bytes == byte_len(l@.subrange(0, j as int)),
        decreases n - j,
    {
        proof {
            assert(l@.subrange(0, j + 1) =~= l@.subrange(0, j as int).push(l@[j as int]));
            lemma_byte_len_push(l@.subrange(0, j as int), l@[j as int]);
            assert(l@.subrange(0, n as int) =~= l@);
            lemma_byte_len_prefix(l@, j + 1, n as int);
        }
        match bytes.checked_add(char_width(cs[j])) {
            Some(b) => {
                bytes = b;
            },
            None => {
                return false;
            },
        }
        j = j + 1;
    }
    assert(l@.subrange(0, n as int) =~= l@);
    true
}

/// Whether the open capture, started in the file `file`, can be closed at
/// the line `line` of that file, whose text is `source`.
pub open spec fn closable(c: ContextView, file: Seq<char>, line: u32, source: Seq<char>) -> bool {
    &&& c.capture matches Some((f, start))
    &&& f == file
    &&& start < line
    &&& lines_fit(between(source, start, line))
    &&& gather(between(source, start, line)) is Some
}

impl Context {
    /// Starts capturing source lines after the line `line` of `file`, unless
    /// a capture is open already.
    pub fn enable_capture(&mut self, file: &str, line: u32)
        ensures
            final(self)@ == if old(self)@.capture is None {
                ContextView { capture: Some((file@, line)), ..old(self)@ }
            } else {
                old(self)@
            },
    {
        if self.capture.is_none() {
            self.capture = Some((file.to_owned(), line));
        }
    }

    /// Where the open capture started, if one is open.
    pub fn capture_start(&self) -> (r: Option<(&str, u32)>)
        ensures
            match self@.capture {
                Some((f, l)) => r matches Some((rf, rl)) && rf@ == f && rl == l,
                None => r is None,
            },
    {
        match &self.capture {
            Some((f, l)) => Some((f.as_str(), *l)),
            None => None,
        }
    }

    /// Whether `disable_capture` can close the capture at the line `line` of
    /// `file`, whose text is `source`: one is open in that file before that
    /// line, and every line between loses the first one's indentation.
    pub fn can_close_capture(&self, file: &str, line: u32, source: &str) -> (r: bool)
        ensures
            r == closable(self@, file@, line, source@),
    {
        match &self.capture {
            None => false,
            Some((f, start)) => {
                let start = *start;
                if !crate::text::str_eq(f.as_str(), file) || start >= line {
                    return false;
                }
                let ls = lines(source);
                let ghost lv = strs_view(ls@);
                let n = ls.len();
                let from = if (start as usize) <= n { start as usize } else { n };
                let to = if ((line - 1) as usize) <= n { (line - 1) as usize } else { n };
                assert(between(source@, start, line) == lv.subrange(from as int, to as int));
                let mut i = from;
                while i < to
                    invariant
                        lv == strs_view(ls@),
                        from <= i <= to <= ls@.len(),
                        between(source@, start, line) == lv.subrange(from as int, to as int),
                        self@.capture is Some,
                        self@.capture.unwrap().1 == start,
                        forall|j: int| from <= j < i ==> byte_len(#[trigger] lv[j]) <= usize::MAX,
                    decreases to - i,
                {
                    assert(lv[i as int] == ls@[i as int]@);
                    if !fits(ls[i]) {
                        assert(lv.subrange(from as int, to as int)[i - from] == lv[i as int]);
                        assert(!(byte_len(lv.subrange(from as int, to as int)[i - from]) <= usize::MAX));
                        assert(!lines_fit(lv.subrange(from as int, to as int)));
                        assert(!lines_fit(between(source@, start, line)));
                        return false;
                    }
                    i = i + 1;
                }
                assert forall|j: int| 0 <= j < to - from implies byte_len(#[trigger] lv.subrange(from as int, to as int)[j]) <= usize::MAX by {
                    assert(lv.subrange(from as int, to as int)[j] == lv[from + j]);
                }
                gather_lines(&ls, from, to).is_some()
            },
        }
    }

    /// Closes the open capture at the line `line` of `file`, whose text is
    /// `source`, and adds the lines between as a Rust code block: blank
    /// lines before the first line with content are left out, every line
    /// loses that line's indentation, and the block has no blank lines at
    /// its end.
    pub fn disable_capture(&mut self, file: &str, line: u32, source: &str)
        requires
            closable(old(self)@, file@, line, source@),
        ensures
            final(self)@ == (ContextView {
                out: old(self)@.out + code_block(source@, old(self)@.capture.unwrap().1, line),
                capture: None,
                ..old(self)@
            }),
    {
        let start = match &self.capture {
            Some((_, s)) => *s,
            None => 0,
        };
        let ls = lines(source);
        let ghost lv = strs_view(ls@);
        let n = ls.len();
        let from = if (start as usize) <= n { start as usize } else { n };
        let to = if ((line - 1) as usize) <= n { (line - 1) as usize } else { n };
        assert(between(source@, start, line) == lv.subrange(from as int, to as int));
        let block = gather_lines(&ls, from, to);
        match block {
            Some(out) => {
                let trimmed = trim_end_char_str(out.as_str(), '\n');
                let ghost o0 = self@.out;
                self.out.append("\n```rust\n");
                self.out.append(trimmed);
                self.out.append("\n```\n\n");
                self.capture = None;
                assert(self@.out =~= o0 + code_block(source@, start, line));
            },
            None => {},
        }
    }
}

/// Starts capturing source lines after the line `line` of `file`, or, when
/// `enabled` is false, closes the open capture there and shows the lines
/// between (see `Context::disable_capture`).
pub fn capture(ctx: &mut Context, enabled: bool, file: &str, line: u32, source: &str)
    requires
        !enabled ==> closable(old(ctx)@, file@, line, source@),
    ensures
        enabled ==> final(ctx)@ == if old(ctx)@.capture is None {
            ContextView { capture: Some((file@, line)), ..old(ctx)@ }
        } else {
            old(ctx)@
        },
        !enabled ==> final(ctx)@ == (ContextView {
            out: old(ctx)@.out + code_block(source@, old(ctx)@.capture.unwrap().1, line),
            capture: None,
            ..old(ctx)@
        }),
{
    if enabled {
        ctx.enable_capture(file, line);
    } else {
        ctx.disable_capture(file, line, source);
    }
}

} // verus!
