//! The table of contents of the book, and the site and document
//! configuration that it renders to.
use vstd::prelude::*;
use crate::book::vega::{debug_quoted, debug_str};
use crate::text::{decimal, push_decimal};

verus! {

broadcast use vstd::std_specs::vec::group_vec_axioms;

/// A chapter with its sections. Without an `id`, a chapter's page is named
/// after its title.
#[derive(Debug)]
pub struct Toc {
    pub id: Option<String>,
    pub title: String,
    pub sections: Vec<Toc>,
}

/// What `str::to_lowercase` gives for `s`.
pub uninterp spec fn spec_to_lowercase(s: Seq<char>) -> Seq<char>;

pub open spec fn ascii_lower(c: char) -> char {
    if 'A' <= c && c <= 'Z' {
        ((c as int) + 32) as char
    } else {
        c
    }
}

/// Calls `str::to_lowercase`, which maps each character to its Unicode
/// lowercase; on ASCII text that maps `A`..=`Z` to `a`..=`z` and keeps the
/// rest. For other text the result is left to the name.
#[verifier::external_body]
pub(crate) fn to_lowercase(s: &str) -> (r: String)
    ensures
        r@ == spec_to_lowercase(s@),
        r@ == lowercase(s@),
{
    s.to_lowercase()
}

/// Whether every character of `s` is ASCII.
pub open spec fn all_ascii(s: Seq<char>) -> bool {
    forall|i: int| 0 <= i < s.len() ==> (#[trigger] s[i] as int) < 128
}

/// `str::to_lowercase`: on ASCII text `A`..=`Z` become `a`..=`z` and the rest
/// stays; other text goes by Unicode's lowercase mapping.
pub open spec fn lowercase(s: Seq<char>) -> Seq<char> {
    if all_ascii(s) {
        s.map_values(|c: char| ascii_lower(c))
    } else {
        spec_to_lowercase(s)
    }
}

/// The page name of a title: spaces and underscores become `-`, then lowercase.
pub open spec fn slug_of(name: Seq<char>) -> Seq<char> {
    lowercase(name.map_values(|c: char| if c == ' ' || c == '_' { '-' } else { c }))
}

/// The page name of an ASCII title holds no space and no underscore, and no
/// uppercase letter.
pub proof fn lemma_slug_plain(name: Seq<char>)
    requires
        all_ascii(name),
    ensures
        slug_of(name).len() == name.len(),
        forall|i: int| 0 <= i < slug_of(name).len() ==> #[trigger] slug_of(name)[i] != ' ' && slug_of(name)[i] != '_'
            && !('A' <= slug_of(name)[i] && slug_of(name)[i] <= 'Z'),
{
    let d = name.map_values(|c: char| if c == ' ' || c == '_' { '-' } else { c });
    assert forall|i: int| 0 <= i < d.len() implies (#[trigger] d[i] as int) < 128 by {
        assert((name[i] as int) < 128);
    }
    assert(all_ascii(d));
}

/// The page name of a title: spaces and underscores become `-`, then lowercase.
pub fn slugify(name: &str) -> (r: String)
    ensures
        r@ == slug_of(name@),
{
    proof {
        reveal_strlit("-");
    }
    let n = name.unicode_len();
    let mut dashed = String::new();
    let mut i: usize = 0;
    while i < n
        invariant
            n == name@.len(),
            i <= n,
            dashed@ == name@.subrange(0, i as int).map_values(|c: char| if c == ' ' || c == '_' { '-' } else { c }),
        decreases n - i,
    {
        let c = name.get_char(i);
        proof {
            reveal_strlit("-");
        }
        let ghost before = dashed@;
        if c == ' ' || c == '_' {
            dashed.append("-");
        } else {
            let one = name.substring_char(i, i + 1);
            assert(one@ =~= seq![c]);
            dashed.append(one);
        }
        assert(dashed@ =~= before.push(if c == ' ' || c == '_' { '-' } else { c }));
        assert(dashed@ =~= name@.subrange(0, i + 1).map_values(|c: char| if c == ' ' || c == '_' { '-' } else { c }));
        i = i + 1;
    }
    assert(name@.subrange(0, n as int) =~= name@);
    to_lowercase(dashed.as_str())
}

/// The section numbers joined with `.`.
pub open spec fn join_dots(path: Seq<Seq<char>>) -> Seq<char>
    decreases path.len(),
{
    if path.len() == 0 {
        seq![]
    } else if path.len() == 1 {
        path[0]
    } else {
        join_dots(path.drop_last()) + seq!['.'] + path.last()
    }
}

/// Joining two non-empty section paths one after the other is joining each
/// and putting one `.` between them: a `.` stands between every two
/// consecutive numbers, whatever the depth.
pub proof fn lemma_join_dots_concat(p: Seq<Seq<char>>, q: Seq<Seq<char>>)
    requires
        p.len() > 0,
        q.len() > 0,
    ensures
        join_dots(p + q) == join_dots(p) + seq!['.'] + join_dots(q),
    decreases q.len(),
{
    if q.len() == 1 {
        assert((p + q).drop_last() =~= p);
        assert((p + q).last() == q[0]);
    } else {
        lemma_join_dots_concat(p, q.drop_last());
        assert((p + q).drop_last() =~= p + q.drop_last());
        assert((p + q).last() == q.last());
        assert(join_dots(p + q) =~= join_dots(p) + seq!['.'] + join_dots(q));
    }
}

/// How many times `c` occurs in `s`.
pub open spec fn count_char(s: Seq<char>, c: char) -> nat
    decreases s.len(),
{
    if s.len() == 0 {
        0
    } else {
        count_char(s.drop_last(), c) + if s.last() == c { 1nat } else { 0nat }
    }
}

proof fn lemma_count_char_concat(a: Seq<char>, b: Seq<char>, c: char)
    ensures
        count_char(a + b, c) == count_char(a, c) + count_char(b, c),
    decreases b.len(),
{
    if b.len() == 0 {
        assert(a + b =~= a);
    } else {
        lemma_count_char_concat(a, b.drop_last(), c);
        assert((a + b).drop_last() =~= a + b.drop_last());
        assert((a + b).last() == b.last());
    }
}

/// The number of a page at depth `n` holds exactly `n - 1` dots when its
/// numbers hold none, and its length is the numbers' lengths plus those
/// dots: each number in turn, with one `.` between each two.
pub proof fn lemma_join_dots_shape(p: Seq<Seq<char>>)
    requires
        p.len() > 0,
        forall|i: int| 0 <= i < p.len() ==> count_char(#[trigger] p[i], '.') == 0,
    ensures
        count_char(join_dots(p), '.') == p.len() - 1,
        join_dots(p).len() == joined_len(p),
    decreases p.len(),
{
    if p.len() == 1 {
    } else {
        lemma_join_dots_shape(p.drop_last());
        assert(count_char(p.drop_last().last(), '.') == 0) by {
            assert(p.drop_last().last() == p[p.len() - 2]);
        }
        assert(count_char(p.last(), '.') == 0);
        let a = join_dots(p.drop_last());
        lemma_count_char_concat(a, seq!['.'], '.');
        lemma_count_char_concat(a + seq!['.'], p.last(), '.');
        assert(count_char(seq!['.'], '.') == 1) by {
            let e = Seq::<char>::empty();
            assert(seq!['.'].drop_last() =~= e);
            assert(count_char(e, '.') == 0);
            assert(seq!['.'].last() == '.');
        }
    }
}

/// The lengths of the numbers of `p`, plus one for each `.` between two.
pub open spec fn joined_len(p: Seq<Seq<char>>) -> int
    decreases p.len(),
{
    if p.len() == 0 {
        0
    } else if p.len() == 1 {
        p[0].len() as int
    } else {
        joined_len(p.drop_last()) + 1 + p.last().len()
    }
}

/// The page a chapter links to: `/` and its id, or its title's page name.
pub open spec fn page_path(t: Toc) -> Seq<char> {
    match t.id {
        Some(id) => seq!['/'] + id@,
        None => seq!['/'] + slug_of(t.title@),
    }
}

/// The entry of a chapter numbered `path` in the site's page list.
pub open spec fn page_text(t: Toc, path: Seq<Seq<char>>) -> Seq<char>
    decreases t, 1nat, 0nat,
{
    seq!['{'] + "name: "@ + debug_quoted(join_dots(path) + ". "@ + t.title@) + ", open: true, "@ + "path: "@
        + debug_quoted(page_path(t)) + ", "@ + "pages: "@ + seq!['['] + sections_text(t, path, t.sections@.len()) + seq![']', '}']
}

/// The entries of the first `k` sections of `t`, each followed by `,`.
pub open spec fn sections_text(t: Toc, path: Seq<Seq<char>>, k: nat) -> Seq<char>
    decreases t, 0nat, k,
{
    if k == 0 || k > t.sections@.len() {
        seq![]
    } else {
        proof {
            assert(decreases_to!(t => t.sections));
            assert(decreases_to!(t.sections => t.sections[k - 1]));
        }
        sections_text(t, path, (k - 1) as nat) + page_text(t.sections@[k - 1], path.push(decimal(k))) + seq![',']
    }
}

/// The site's page list: the entries of the top-level chapters, numbered from 1.
pub open spec fn pages_text(t: Toc) -> Seq<char> {
    seq!['['] + sections_text(t, seq![], t.sections@.len()) + seq![']']
}

pub open spec fn path_view(path: Seq<String>) -> Seq<Seq<char>> {
    path.map_values(|s: String| s@)
}

fn join_path(path: &Vec<String>) -> (r: String)
    ensures
        r@ == join_dots(path_view(path@)),
{
    proof {
        reveal_strlit(".");
    }
    let mut r = String::new();
    let mut i: usize = 0;
    while i < path.len()
        invariant
            i <= path@.len(),
            r@ == join_dots(path_view(path@.subrange(0, i as int))),
        decreases path@.len() - i,
    {
        proof {
            reveal_strlit(".");
        }
        let ghost prev = path_view(path@.subrange(0, i as int));
        let ghost next = path_view(path@.subrange(0, i + 1));
        assert(next.drop_last() =~= prev);
        assert(next.last() == path@[i as int]@);
        if i > 0 {
            r.append(".");
        }
        r.append(path[i].as_str());
        proof {
            if i == 0 {
                assert(next.len() == 1);
                assert(next[0] == path@[0]@);
                assert(r@ =~= next[0]);
            } else {
                assert(r@ =~= join_dots(prev) + seq!['.'] + next.last());
            }
        }
        i = i + 1;
    }
    assert(path@.subrange(0, i as int) =~= path@);
    r
}

impl Toc {
    fn render_page(&self, out: &mut String, path: &mut Vec<String>)
        ensures
            final(out)@ == old(out)@ + page_text(*self, path_view(old(path)@)),
            path_view(final(path)@) == path_view(old(path)@),
        decreases *self, 1nat, 0nat,
    {
        proof {
            reveal_strlit("{");
            reveal_strlit("}");
            reveal_strlit("/");
        }
        out.append("{");
        let mut name = join_path(path);
        name.append(". ");
        name.append(self.title.as_str());
        assert(name@ =~= join_dots(path_view(path@)) + ". "@ + self.title@);
        out.append("name: ");
        out.append(debug_str(name.as_str()).as_str());
        out.append(", open: true, ");
        let mut p = String::new();
        p.append("/");
        match &self.id {
            Some(id) => p.append(id.as_str()),
            None => {
                let slug = slugify(self.title.as_str());
                p.append(slug.as_str());
            },
        }
        assert(p@ == page_path(*self));
        out.append("path: ");
        out.append(debug_str(p.as_str()).as_str());
        out.append(", ");
        out.append("pages: ");
        let ghost mid = out@;
        self.render_sections(out, path);
        out.append("}");
        assert(out@ =~= old(out)@ + page_text(*self, path_view(old(path)@)));
    }

    fn render_sections(&self, out: &mut String, path: &mut Vec<String>)
        ensures
            final(out)@ == old(out)@ + seq!['['] + sections_text(*self, path_view(old(path)@), self.sections@.len()) + seq![']'],
            path_view(final(path)@) == path_view(old(path)@),
        decreases *self, 0nat, 0nat,
    {
        proof {
            reveal_strlit("[");
            reveal_strlit("]");
            reveal_strlit(",");
        }
        let ghost pv = path_view(path@);
        out.append("[");
        let ghost start = out@;
        let mut i: usize = 0;
        while i < self.sections.len()
            invariant
                i <= self.sections@.len(),
                path_view(path@) == pv,
                out@ == start + sections_text(*self, pv, i as nat),
            decreases self.sections@.len() - i,
        {
            proof {
                reveal_strlit(",");
            }
            let ghost p0 = path@;
            let ghost o0 = out@;
            let mut num = String::new();
            push_decimal(&mut num, (i + 1) as u64);
            path.push(num);
            assert(path_view(path@) =~= pv.push(decimal((i + 1) as nat)));
            proof {
                assert(decreases_to!(self.sections => self.sections[i as int]));
            }
            self.sections[i].render_page(out, path);
            out.append(",");
            let ghost mid = path@;
            path.pop();
            assert(path@ =~= mid.drop_last());
            assert(path_view(path@) =~= path_view(mid).drop_last());
            assert(path_view(path@) =~= pv);
            assert(sections_text(*self, pv, (i + 1) as nat) == sections_text(*self, pv, i as nat) + page_text(
                self.sections@[i as int],
                pv.push(decimal((i + 1) as nat)),
            ) + seq![',']);
            assert(out@ =~= start + sections_text(*self, pv, (i + 1) as nat));
            i = i + 1;
        }
        out.append("]");
        assert(out@ =~= old(out)@ + seq!['['] + sections_text(*self, pv, self.sections@.len()) + seq![']']);
    }
}

} // verus!

verus! {

/// The own page of a chapter in the document's dependencies: ` src/<id>.md`,
/// or ` src/<page name>.md` for a titled chapter without id.
pub open spec fn own_dep(t: Toc) -> Seq<char> {
    match t.id {
        Some(id) => " src/"@ + id@ + ".md"@,
        None => if t.title@.len() > 0 {
            " src/"@ + slug_of(t.title@) + ".md"@
        } else {
            seq![]
        },
    }
}

/// The pages of a chapter and all its sections, in order.
pub open spec fn dep_text(t: Toc) -> Seq<char>
    decreases t, 1nat, 0nat,
{
    own_dep(t) + section_deps(t, t.sections@.len())
}

/// The pages of the first `k` sections of `t`.
pub open spec fn section_deps(t: Toc, k: nat) -> Seq<char>
    decreases t, 0nat, k,
{
    if k == 0 || k > t.sections@.len() {
        seq![]
    } else {
        proof {
            assert(decreases_to!(t => t.sections));
            assert(decreases_to!(t.sections => t.sections[k - 1]));
        }
        section_deps(t, (k - 1) as nat) + dep_text(t.sections@[k - 1])
    }
}

/// A file to write: its contents, its extension, and where the book wants it.
pub struct Publish {
    pub contents: String,
    pub ext: Option<String>,
    pub destination: String,
}

pub open spec fn publish_view(p: Publish) -> (Seq<char>, Option<Seq<char>>, Seq<char>) {
    (p.contents@, match p.ext { Some(e) => Some(e@), None => None }, p.destination@)
}

pub open spec fn package_json() -> Seq<char> {
    "\n        {\n            \"type\": \"module\",\n            \"private\": true,\n            \"scripts\": {\n                \"build\": \"observable build --debug\",\n                \"dev\": \"observable preview --no-open\"\n            },\n            \"dependencies\": {\n                \"@observablehq/framework\": \"^1.12.0\"\n            },\n            \"engines\": {\n                \"node\": \">=18\"\n            }\n        }\n        "@
}

/// The site's configuration for the page list `pages`.
pub open spec fn site_config(pages: Seq<char>) -> Seq<char> {
    "\n            export default {\n                title: 'Kew',\n                search: true,\n                root: 'src',\n                toc: true,\n                footer: '',\n                pages: "@ + pages + ",\n            }\n            "@
}

/// The rules that build the document from the pages `deps`.
pub open spec fn makefile(deps: Seq<char>) -> Seq<char> {
    "../../book/pdf/book.pdf: book.md\n\t@pandoc --toc --from markdown --to pdf --number-sections --standalone -o $@ $<\nbook.md:"@ + deps + "\n\t@cat $^ > $@"@
}

/// What rendering the contents asks to have written: the site's package and
/// configuration, and with `full` the document's build rules.
pub open spec fn render_files(t: Toc, full: bool) -> Seq<(Seq<char>, Option<Seq<char>>, Seq<char>)> {
    let site = seq![
        (package_json(), Some("json"@), "target/book-src/html/package.json"@),
        (site_config(pages_text(t)), Some("js"@), "target/book-src/html/observablehq.config.js"@),
    ];
    if full {
        site.push((makefile(dep_text(t)), None, "target/book-src/pdf/Makefile"@))
    } else {
        site
    }
}

impl Toc {
    fn render_dep(&self, out: &mut String)
        ensures
            final(out)@ == old(out)@ + dep_text(*self),
        decreases *self, 1nat, 0nat,
    {
        match &self.id {
            Some(id) => {
                out.append(" src/");
                out.append(id.as_str());
                out.append(".md");
            },
            None => {
                if !self.title.as_str().is_empty() {
                    let slug = slugify(self.title.as_str());
                    out.append(" src/");
                    out.append(slug.as_str());
                    out.append(".md");
                }
            },
        }
        assert(out@ =~= old(out)@ + own_dep(*self));
        let ghost start = out@;
        let mut i: usize = 0;
        while i < self.sections.len()
            invariant
                i <= self.sections@.len(),
                out@ == start + section_deps(*self, i as nat),
            decreases self.sections@.len() - i,
        {
            proof {
                assert(decreases_to!(self.sections => self.sections[i as int]));
            }
            self.sections[i].render_dep(out);
            assert(out@ =~= start + section_deps(*self, (i + 1) as nat));
            i = i + 1;
        }
        assert(out@ =~= old(out)@ + dep_text(*self));
    }

    /// The files that make up the book's site, and with `full` its document:
    /// each with its contents, extension and destination.
    pub fn render(&self, full: bool) -> (r: Vec<Publish>)
        ensures
            r@.map_values(|p: Publish| publish_view(p)) == render_files(*self, full),
    {
        let mut files: Vec<Publish> = Vec::new();
        files.push(Publish {
            contents: "\n        {\n            \"type\": \"module\",\n            \"private\": true,\n            \"scripts\": {\n                \"build\": \"observable build --debug\",\n                \"dev\": \"observable preview --no-open\"\n            },\n            \"dependencies\": {\n                \"@observablehq/framework\": \"^1.12.0\"\n            },\n            \"engines\": {\n                \"node\": \">=18\"\n            }\n        }\n        ".to_owned(),
            ext: Some("json".to_owned()),
            destination: "target/book-src/html/package.json".to_owned(),
        });
        let mut pages = String::new();
        let mut path: Vec<String> = Vec::new();
        self.render_sections(&mut pages, &mut path);
        assert(path_view(path@) =~= Seq::<Seq<char>>::empty()) by {
            assert(path_view(Seq::<String>::empty()) =~= Seq::<Seq<char>>::empty());
        }
        let mut config = String::new();
        config.append("\n            export default {\n                title: 'Kew',\n                search: true,\n                root: 'src',\n                toc: true,\n                footer: '',\n                pages: ");
        config.append(pages.as_str());
        config.append(",\n            }\n            ");
        files.push(Publish {
            contents: config,
            ext: Some("js".to_owned()),
            destination: "target/book-src/html/observablehq.config.js".to_owned(),
        });
        if full {
            let mut deps = String::new();
            self.render_dep(&mut deps);
            let mut make = String::new();
            make.append("../../book/pdf/book.pdf: book.md\n\t@pandoc --toc --from markdown --to pdf --number-sections --standalone -o $@ $<\nbook.md:");
            make.append(deps.as_str());
            make.append("\n\t@cat $^ > $@");
            files.push(Publish { contents: make, ext: None, destination: "target/book-src/pdf/Makefile".to_owned() });
        }
        assert(files@.map_values(|p: Publish| publish_view(p)) =~= render_files(*self, full));
        files
    }
}

} // verus!
