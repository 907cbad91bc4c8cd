//! The pages of the book: their markdown, and the files and queries that a
//! page asks for, which the caller writes and runs.
use vstd::prelude::*;

pub mod capture;
pub mod charts;
pub mod cytoscape;
pub mod fifo;
pub mod priority;
pub mod vega;

verus! {

/// The BLAKE3 hash of `data` in lowercase hexadecimal, as
/// `blake3::hash(data).to_hex()` writes it.
pub uninterp spec fn spec_blake3_hex(data: Seq<u8>) -> Seq<char>;

pub open spec fn is_lower_hex(c: char) -> bool {
    ('0' <= c && c <= '9') || ('a' <= c && c <= 'f')
}

/// Calls `blake3::hash` and `Hash::to_hex`. The hash is 32 bytes and `to_hex`
/// is documented to encode it in lowercase hexadecimal, so the text is 64
/// characters of `0-9a-f`; which characters is left to the name.
#[verifier::external_body]
pub(crate) fn blake3_hex(data: &[u8]) -> (r: String)
    ensures
        r@ == spec_blake3_hex(data@),
        r@.len() == 64,
        forall|i: int| 0 <= i < r@.len() ==> is_lower_hex(#[trigger] r@[i]),
{
    blake3::hash(data).to_hex().to_string()
}

/// `dir` joined with the relative name `name`, as `Path::join` joins them.
pub open spec fn path_join(dir: Seq<char>, name: Seq<char>) -> Seq<char> {
    if dir.len() == 0 || dir.last() == '/' {
        dir + name
    } else {
        dir + seq!['/'] + name
    }
}

/// The file named by the hash of `data` in `dir`, with the extension if
/// there is one.
pub open spec fn bytes_path(dir: Seq<char>, data: Seq<u8>, ext: Option<Seq<char>>) -> Seq<char> {
    let name = spec_blake3_hex(data);
    match ext {
        Some(e) => path_join(dir, name + seq!['.'] + e),
        None => path_join(dir, name),
    }
}

/// The file that `emit` writes `contents` to: the hash of the contents, in
/// `dir`, with the extension if there is one.
pub open spec fn emit_path(dir: Seq<char>, contents: Seq<char>, ext: Option<Seq<char>>) -> Seq<char> {
    bytes_path(dir, vstd::utf8::encode_utf8(contents), ext)
}

/// The page being written: its directory, title and markdown, the files it
/// asks to have written and the queries it asks to have run, in order, and
/// where an open capture of source lines started.
pub struct Context {
    dir: String,
    title: String,
    out: String,
    files: Vec<(String, String)>,
    statements: Vec<String>,
    capture: Option<(String, u32)>,
}

/// A page as plain values.
pub struct ContextView {
    pub dir: Seq<char>,
    pub title: Seq<char>,
    pub out: Seq<char>,
    pub files: Seq<(Seq<char>, Seq<char>)>,
    pub statements: Seq<Seq<char>>,
    pub capture: Option<(Seq<char>, u32)>,
}

impl View for Context {
    type V = ContextView;

    closed spec fn view(&self) -> ContextView {
        ContextView {
            dir: self.dir@,
            title: self.title@,
            out: self.out@,
            files: self.files@.map_values(|f: (String, String)| (f.0@, f.1@)),
            statements: self.statements@.map_values(|s: String| s@),
            capture: match self.capture {
                Some((f, l)) => Some((f@, l)),
                None => None,
            },
        }
    }
}

impl Context {
    /// An empty page whose files go to `dir`.
    pub fn new(dir: &str) -> (r: Self)
        ensures
            r@ == (ContextView {
                dir: dir@,
                title: seq![],
                out: seq![],
                files: seq![],
                statements: seq![],
                capture: None,
            }),
    {
        let r = Context {
            dir: dir.to_owned(),
            title: String::new(),
            out: String::new(),
            files: Vec::new(),
            statements: Vec::new(),
            capture: None,
        };
        assert(r@.files =~= Seq::<(Seq<char>, Seq<char>)>::empty());
        assert(r@.statements =~= Seq::<Seq<char>>::empty());
        r
    }

    /// The directory the page's files go to.
    pub fn dir(&self) -> (r: &str)
        ensures
            r@ == self@.dir,
    {
        self.dir.as_str()
    }

    /// The page's title.
    pub fn title(&self) -> (r: &str)
        ensures
            r@ == self@.title,
    {
        self.title.as_str()
    }

    /// The page's markdown so far.
    pub fn markdown(&self) -> (r: &str)
        ensures
            r@ == self@.out,
    {
        self.out.as_str()
    }

    /// Hands out the files the page asked to have written, as (path,
    /// contents), and forgets them.
    pub fn take_files(&mut self) -> (r: Vec<(String, String)>)
        ensures
            r@.map_values(|f: (String, String)| (f.0@, f.1@)) == old(self)@.files,
            final(self)@ == (ContextView { files: seq![], ..old(self)@ }),
    {
        let mut r = Vec::new();
        std::mem::swap(&mut r, &mut self.files);
        assert(self@.files =~= Seq::<(Seq<char>, Seq<char>)>::empty());
        r
    }

    /// Hands out the queries the page asked to have run and forgets them.
    pub fn take_statements(&mut self) -> (r: Vec<String>)
        ensures
            r@.map_values(|s: String| s@) == old(self)@.statements,
            final(self)@ == (ContextView { statements: seq![], ..old(self)@ }),
    {
        let mut r = Vec::new();
        std::mem::swap(&mut r, &mut self.statements);
        assert(self@.statements =~= Seq::<Seq<char>>::empty());
        r
    }
}

/// Sets the page's title.
pub fn title(ctx: &mut Context, v: &str)
    ensures
        final(ctx)@ == (ContextView { title: v@, ..old(ctx)@ }),
{
    ctx.title = v.to_owned();
}

/// Adds the line `v` to the page's markdown.
pub fn md(ctx: &mut Context, v: &str)
    ensures
        final(ctx)@ == (ContextView { out: old(ctx)@.out + v@ + seq!['\n'], ..old(ctx)@ }),
{
    proof {
        reveal_strlit("\n");
    }
    ctx.out.append(v);
    ctx.out.append("\n");
    assert(ctx@.out =~= old(ctx)@.out + v@ + seq!['\n']);
}

/// `dir` joined with `name`.
pub fn join(dir: &str, name: &str) -> (r: String)
    ensures
        r@ == path_join(dir@, name@),
{
    proof {
        reveal_strlit("/");
    }
    let mut r = dir.to_owned();
    if !dir.is_empty() {
        let n = dir.unicode_len();
        if dir.get_char(n - 1) != '/' {
            r.append("/");
        }
    }
    r.append(name);
    r
}

/// The path of a file in `dir` named by the hash of `contents`, with the
/// extension `ext` if given.
pub fn hashed_path(dir: &str, contents: &str, ext: Option<&str>) -> (r: String)
    ensures
        r@ == emit_path(dir@, contents@, match ext {
            Some(e) => Some(e@),
            None => None,
        }),
{
    hashed_bytes_path(dir, contents.as_bytes(), ext)
}

/// The path of a file in `dir` named by the hash of the bytes `data`, with
/// the extension `ext` if given.
pub fn hashed_bytes_path(dir: &str, data: &[u8], ext: Option<&str>) -> (r: String)
    ensures
        r@ == bytes_path(dir@, data@, match ext {
            Some(e) => Some(e@),
            None => None,
        }),
{
    proof {
        reveal_strlit(".");
    }
    let mut name = blake3_hex(data);
    match ext {
        Some(e) => {
            name.append(".");
            name.append(e);
        },
        None => {},
    }
    join(dir, name.as_str())
}

/// Asks for `contents` to be written to a file in the page's directory named
/// by the hash of the contents, with the extension `ext` if given; gives the
/// file's path.
pub fn emit(ctx: &mut Context, contents: &str, ext: Option<&str>) -> (r: String)
    ensures
        r@ == emit_path(old(ctx)@.dir, contents@, match ext {
            Some(e) => Some(e@),
            None => None,
        }),
        final(ctx)@ == (ContextView { files: old(ctx)@.files.push((r@, contents@)), ..old(ctx)@ }),
{
    let path = hashed_path(ctx.dir.as_str(), contents, ext);
    let ghost before = ctx@.files;
    ctx.files.push((path.clone(), contents.to_owned()));
    assert(ctx@.files =~= before.push((path@, contents@)));
    path
}

/// Asks for a chart's specification `value` to be written as a JSON file and
/// adds a line that shows it: `#VEGA(<path>)`.
pub fn vega(ctx: &mut Context, value: &str)
    ensures
        ({
            let path = emit_path(old(ctx)@.dir, value@, Some(seq!['j', 's', 'o', 'n']));
            final(ctx)@ == (ContextView {
                files: old(ctx)@.files.push((path, value@)),
                out: old(ctx)@.out + seq!['#', 'V', 'E', 'G', 'A', '('] + path + seq![')', '\n'],
                ..old(ctx)@
            })
        }),
{
    proof {
        reveal_strlit("json");
        reveal_strlit("#VEGA(");
        reveal_strlit(")");
    }
    assert("json"@ =~= seq!['j', 's', 'o', 'n']);
    let path = emit(ctx, value, Some("json"));
    let mut line = String::new();
    line.append("#VEGA(");
    line.append(path.as_str());
    line.append(")");
    assert(line@ =~= seq!['#', 'V', 'E', 'G', 'A', '('] + path@ + seq![')']);
    md(ctx, line.as_str());
    assert(ctx@.out =~= old(ctx)@.out + seq!['#', 'V', 'E', 'G', 'A', '('] + path@ + seq![')', '\n']);
}

/// The statement that copies the rows of `query` to the tab-separated file `out`.
pub open spec fn copy_statement(query: Seq<char>, out: Seq<char>) -> Seq<char> {
    seq!['C', 'O', 'P', 'Y', ' ', '('] + query + seq![')', ' ', 'T', 'O', ' ', '\''] + out + seq![
        '\'',
        ' ',
        '(',
        'F',
        'O',
        'R',
        'M',
        'A',
        'T',
        ' ',
        'C',
        'S',
        'V',
        ',',
        ' ',
        'D',
        'E',
        'L',
        'I',
        'M',
        ' ',
        '\'',
        '\t',
        '\'',
        ')',
        ';',
    ]
}

/// Asks for the rows of `query` to be copied to a tab-separated file in the
/// page's directory named by the hash of the query; gives the file's path.
pub fn sql(ctx: &mut Context, query: &str) -> (r: String)
    ensures
        r@ == emit_path(old(ctx)@.dir, query@, Some(seq!['t', 's', 'v'])),
        final(ctx)@ == (ContextView {
            statements: old(ctx)@.statements.push(copy_statement(query@, r@)),
            ..old(ctx)@
        }),
{
    proof {
        reveal_strlit("tsv");
        reveal_strlit("COPY (");
        reveal_strlit(") TO '");
        reveal_strlit("' (FORMAT CSV, DELIM '\t');");
    }
    assert("tsv"@ =~= seq!['t', 's', 'v']);
    let out = hashed_path(ctx.dir.as_str(), query, Some("tsv"));
    let mut stmt = String::new();
    stmt.append("COPY (");
    stmt.append(query);
    stmt.append(") TO '");
    stmt.append(out.as_str());
    stmt.append("' (FORMAT CSV, DELIM '\t');");
    assert(stmt@ =~= copy_statement(query@, out@));
    let ghost before = ctx@.statements;
    ctx.statements.push(stmt);
    assert(ctx@.statements =~= before.push(copy_statement(query@, out@)));
    out
}

/// Index of the last `/` in `p`, or -1.
pub open spec fn last_slash(p: Seq<char>) -> int
    decreases p.len(),
{
    if p.len() == 0 {
        -1
    } else if p.last() == '/' {
        p.len() - 1
    } else {
        last_slash(p.drop_last())
    }
}

/// The last component of a path that does not end in `/`.
pub open spec fn file_name(p: Seq<char>) -> Seq<char> {
    p.subrange(last_slash(p) + 1, p.len() as int)
}

pub proof fn lemma_last_slash(p: Seq<char>)
    ensures
        -1 <= last_slash(p) < p.len(),
        last_slash(p) >= 0 ==> p[last_slash(p)] == '/',
        forall|i: int| last_slash(p) < i < p.len() ==> #[trigger] p[i] != '/',
    decreases p.len(),
{
    if p.len() > 0 && p.last() != '/' {
        lemma_last_slash(p.drop_last());
        assert forall|i: int| last_slash(p) < i < p.len() implies #[trigger] p[i] != '/' by {
            if i < p.len() - 1 {
                assert(p[i] == p.drop_last()[i]);
            }
        }
    }
}

/// The last component of the path `p`.
pub fn path_file_name(p: &str) -> (r: &str)
    ensures
        r@ == file_name(p@),
{
    let n = p.unicode_len();
    let mut j = n;
    assert(p@.subrange(0, n as int) =~= p@);
    while j > 0
        invariant
            j <= n,
            n == p@.len(),
            last_slash(p@) == last_slash(p@.subrange(0, j as int)),
        decreases j,
    {
        if p.get_char(j - 1) == '/' {
            assert(p@.subrange(0, j as int).last() == '/');
            return p.substring_char(j, n);
        }
        assert(p@.subrange(0, j as int).drop_last() =~= p@.subrange(0, j - 1));
        j = j - 1;
    }
    assert(p@.subrange(0, 0) =~= Seq::<char>::empty());
    p.substring_char(0, n)
}

} // verus!
