//! A chapter of the interactive book: the figures it draws, and its markdown
//! with the figure and input directives expanded, for the web site and for
//! the printed document.
use vstd::prelude::*;
use crate::book::vega::{debug_quoted, debug_str};
use crate::book::path_join;
use crate::text::{decimal, lines, lines_of, push_decimal, str_eq, strip_prefix, strs_view};
use crate::toc::{lowercase, slug_of, slugify, to_lowercase};
use crate::interface::has_prefix;

verus! {

/// How a figure or an input is named and titled.
pub struct Label {
    pub id: String,
    pub title: String,
    pub description: String,
}

/// The id that a label is filed under: its id if it has one, else its title
/// with spaces and dashes made `_`, in lowercase.
pub open spec fn label_id(id: Seq<char>, title: Seq<char>) -> Seq<char> {
    if id.len() == 0 {
        lowercase(title.map_values(|c: char| if c == ' ' || c == '-' { '_' } else { c }))
    } else {
        id
    }
}

impl Label {
    /// A label with a title and no id or description.
    pub fn new(title: &str) -> (r: Label)
        ensures
            r.id@ == Seq::<char>::empty(),
            r.title@ == title@,
            r.description@ == Seq::<char>::empty(),
    {
        Label { id: String::new(), title: title.to_owned(), description: String::new() }
    }

    /// The label with the id `id`.
    pub fn id(self, id: &str) -> (r: Label)
        ensures
            r.id@ == id@,
            r.title@ == self.title@,
            r.description@ == self.description@,
    {
        Label { id: id.to_owned(), ..self }
    }

    /// The label with the description `description`.
    pub fn description(self, description: &str) -> (r: Label)
        ensures
            r.id@ == self.id@,
            r.title@ == self.title@,
            r.description@ == description@,
    {
        Label { description: description.to_owned(), ..self }
    }

    /// The id that the label is filed under.
    pub fn generate_id(&self) -> (r: String)
        ensures
            r@ == label_id(self.id@, self.title@),
    {
        if self.id.unicode_len() == 0 {
            let t = self.title.as_str();
            let n = t.unicode_len();
            let mut under = String::new();
            let mut i: usize = 0;
            while i < n
                invariant
                    n == t@.len(),
                    i <= n,
                    under@ == t@.subrange(0, i as int).map_values(
                        |c: char| if c == ' ' || c == '-' { '_' } else { c },
                    ),
                decreases n - i,
            {
                let c = t.get_char(i);
                let ghost before = under@;
                if c == ' ' || c == '-' {
                    under.append("_");
                    proof {
                        reveal_strlit("_");
                    }
                } else {
                    let one = t.substring_char(i, i + 1);
                    assert(one@ =~= seq![c]);
                    under.append(one);
                }
                assert(under@ =~= before.push(if c == ' ' || c == '-' { '_' } else { c }));
                assert(under@ =~= t@.subrange(0, i + 1).map_values(
                    |c: char| if c == ' ' || c == '-' { '_' } else { c },
                ));
                i = i + 1;
            }
            assert(t@.subrange(0, n as int) =~= t@);
            to_lowercase(under.as_str())
        } else {
            self.id.clone()
        }
    }
}

/// A figure as plain values: its title, the files of its data, its plot and
/// its offline renderer, and the image drawn for the printed document.
pub struct FigureView {
    pub title: Seq<char>,
    pub arrow: Seq<char>,
    pub js: Seq<char>,
    pub offline: Seq<char>,
    pub img: Option<Seq<char>>,
}

/// A chapter as plain values.
pub struct ChapterView {
    pub name: Seq<char>,
    pub full_render: bool,
    pub inputs: Seq<(Seq<char>, Seq<char>)>,
    pub figures: Seq<(Seq<char>, FigureView)>,
}

/// A file to be placed in the site: a file that exists, or a module written
/// first.
pub enum SiteFileView {
    File { source: Seq<char>, destination: Seq<char> },
    Module { contents: Seq<char>, destination: Seq<char> },
}

/// What the expansion has built after some lines.
pub struct HtmlView {
    pub out: Seq<char>,
    pub copies: Seq<SiteFileView>,
    pub errors: Seq<Seq<char>>,
    pub used_inputs: Seq<Seq<char>>,
    pub used_figures: Seq<Seq<char>>,
}

/// `path` pushed onto `dir`, as `Path::join` does it: an absolute `path`
/// replaces `dir`.
pub open spec fn path_push(dir: Seq<char>, path: Seq<char>) -> Seq<char> {
    if path.len() > 0 && path[0] == '/' {
        path
    } else {
        path_join(dir, path)
    }
}

/// `s` without its trailing `c`s.
pub open spec fn trim_end_char(s: Seq<char>, c: char) -> Seq<char>
    decreases s.len(),
{
    if s.len() > 0 && s.last() == c {
        trim_end_char(s.drop_last(), c)
    } else {
        s
    }
}

/// The first entry filed under `id`.
pub open spec fn find_named<T>(entries: Seq<(Seq<char>, T)>, id: Seq<char>) -> Option<T>
    decreases entries.len(),
{
    if entries.len() == 0 {
        None
    } else if entries[0].0 == id {
        Some(entries[0].1)
    } else {
        find_named(entries.drop_first(), id)
    }
}

/// The module that the site loads a figure's plot through.
pub open spec fn figure_loader(name: Seq<char>, title: Seq<char>) -> Seq<char> {
    "\n                            import { FileAttachment } from 'observablehq:stdlib';\n                            import * as Plot from '@observablehq/plot';\n                            import renderPlot from './"@
        + name
        + "_plot.js';\n\n                            const title = "@
        + debug_quoted(title)
        + ";\n                            let pending;\n\n                            export default async () => {\n                                if (!pending) pending = FileAttachment("@
        + debug_quoted("./"@ + name + ".arrow"@)
        + ").arrow();\n                                const data = await pending;\n                                return (width) => {\n                                    const config = renderPlot({ data, width, title });\n                                    let plot = { width, title };\n                                    Object.assign(plot, config);\n                                    return Plot.plot(plot);\n                                };\n                            };\n                            "@
}

/// The name of the variable that holds a figure's plot.
pub open spec fn plot_var(name: Seq<char>) -> Seq<char> {
    "__"@ + name.map_values(|c: char| if c == '-' { '_' } else { c }) + "_plot"@
}

/// The error for a directive on line `lineno` that names nothing.
pub open spec fn missing(lineno: nat, what: Seq<char>, name: Seq<char>) -> Seq<char> {
    "#"@ + decimal(lineno) + what + debug_quoted(name)
}

/// The markdown, when drafting, that reports `error` where the directive was.
pub open spec fn thrown(error: Seq<char>) -> Seq<char> {
    "```js\nthrow new Error("@ + debug_quoted(error) + ");\n```"@
}

/// The expansion after the line `l`, numbered `lineno`.
pub open spec fn html_step(c: ChapterView, src_dir: Seq<char>, st: HtmlView, lineno: nat, l: Seq<char>) -> HtmlView {
    match strip_prefix(l, "!FIGURE("@) {
        Some(rest) => {
            let name = trim_end_char(rest, ')');
            match find_named(c.figures, name) {
                Some(f) => {
                    let prefix = c.name + "/"@ + name;
                    let copies = st.copies
                        .push(SiteFileView::File { source: f.arrow, destination: path_push(src_dir, prefix + ".arrow"@) })
                        .push(SiteFileView::File { source: f.js, destination: path_push(src_dir, prefix + "_plot.js"@) })
                        .push(SiteFileView::Module {
                            contents: figure_loader(name, f.title),
                            destination: path_push(src_dir, prefix + ".js"@),
                        });
                    let import = if st.used_figures.contains(name) {
                        Seq::<char>::empty()
                    } else {
                        "\n```js\n"@ + "import load from "@ + debug_quoted("./"@ + prefix + ".js"@) + ";\n"@ + "const "@
                            + plot_var(name) + " = load();\n"@ + "```\n\n"@
                    };
                    HtmlView {
                        out: st.out + import + "${ resize("@ + plot_var(name) + ") }\n"@,
                        copies,
                        used_figures: st.used_figures.push(name),
                        ..st
                    }
                },
                None => {
                    let error = missing(lineno, ": Missing figure "@, name);
                    HtmlView {
                        out: if c.full_render { st.out } else { st.out + thrown(error) },
                        errors: st.errors.push(error),
                        ..st
                    }
                },
            }
        },
        None => match strip_prefix(l, "!INPUT("@) {
            Some(rest) => {
                let name = trim_end_char(rest, ')');
                match find_named(c.inputs, name) {
                    Some(js) => HtmlView {
                        out: st.out + "```js\n"@ + js + "\n```"@,
                        used_inputs: st.used_inputs.push(name),
                        ..st
                    },
                    None => {
                        let error = missing(lineno, ": Missing input "@, name);
                        HtmlView {
                            out: if c.full_render { st.out } else { st.out + thrown(error) },
                            errors: st.errors.push(error),
                            ..st
                        }
                    },
                }
            },
            None => HtmlView { out: st.out + l + "\n"@, ..st },
        },
    }
}

/// The expansion after the lines `ls`.
pub open spec fn html_lines(c: ChapterView, src_dir: Seq<char>, ls: Seq<Seq<char>>) -> HtmlView
    decreases ls.len(),
{
    if ls.len() == 0 {
        HtmlView { out: seq![], copies: seq![], errors: seq![], used_inputs: seq![], used_figures: seq![] }
    } else {
        html_step(c, src_dir, html_lines(c, src_dir, ls.drop_last()), ls.len(), ls.last())
    }
}

/// An error for each entry that no directive used, in order.
pub open spec fn unused<T>(entries: Seq<(Seq<char>, T)>, used: Seq<Seq<char>>, what: Seq<char>) -> Seq<Seq<char>>
    decreases entries.len(),
{
    if entries.len() == 0 {
        seq![]
    } else {
        let rest = unused(entries.drop_last(), used, what);
        if used.contains(entries.last().0) {
            rest
        } else {
            rest.push(what + debug_quoted(entries.last().0))
        }
    }
}

/// The printed document's markdown after the line `l`: a figure becomes its
/// image, an input is dropped.
pub open spec fn pdf_step(c: ChapterView, out: Seq<char>, l: Seq<char>) -> Seq<char> {
    match strip_prefix(l, "!FIGURE("@) {
        Some(rest) => match find_named(c.figures, trim_end_char(rest, ')')) {
            Some(f) => out + "!["@ + f.title + "]("@ + f.img.unwrap() + ")\n"@,
            None => out,
        },
        None => if strip_prefix(l, "!INPUT("@) is Some {
            out
        } else {
            out + l + "\n"@
        },
    }
}

pub open spec fn pdf_lines(c: ChapterView, ls: Seq<Seq<char>>) -> Seq<char>
    decreases ls.len(),
{
    if ls.len() == 0 {
        seq![]
    } else {
        pdf_step(c, pdf_lines(c, ls.drop_last()), ls.last())
    }
}

/// The module that draws a figure's plot.
pub open spec fn plot_module(js: Seq<char>) -> Seq<char> {
    "\n                import * as Plot from '@observablehq/plot';\n                export default "@ + js
        + ";\n                "@
}

/// The script that draws a figure for the printed document.
pub open spec fn offline_module(js: Seq<char>, arrow: Seq<char>, title: Seq<char>) -> Seq<char> {
    "\n                import { JSDOM } from 'jsdom';\n                import * as Plot from '@observablehq/plot';\n                import { tableFromIPC } from 'apache-arrow';\n                import {readFile, writeFile} from 'node:fs/promises';\n                import { argv } from 'node:process';\n                import renderPlot from '"@
        + js
        + "';\n\n                const title = "@
        + debug_quoted(title)
        + ";\n                const data = tableFromIPC(await readFile("@
        + debug_quoted(arrow)
        + "));\n                const window = new JSDOM('').window;\n                const document = window.document;\n\n                // patch the globals to make Plot happy\n                global.Event = window.Event;\n\n                const width = 800;\n                const config = renderPlot({ data, width, title, document });\n                let plot = { width, title, document };\n                Object.assign(plot, config);\n                plot = Plot.plot(plot).querySelector('svg');\n\n                plot.setAttributeNS('http://www.w3.org/2000/xmlns/', 'xmlns', 'http://www.w3.org/2000/svg');\n                plot.setAttributeNS('http://www.w3.org/2000/xmlns/', 'xmlns:xlink', 'http://www.w3.org/1999/xlink');\n\n                if (argv[2]) await writeFile(argv[2], plot.outerHTML);\n                else process.stdout.write(plot.outerHTML);\n                "@
}

} // verus!

verus! {

/// A figure: its title, the files of its data, its plot and its offline
/// renderer, and the image drawn for the printed document.
pub struct Figure {
    pub title: String,
    pub arrow: String,
    pub js: String,
    pub offline: String,
    pub img: Option<String>,
}

pub open spec fn opt_str(o: Option<String>) -> Option<Seq<char>> {
    match o {
        Some(s) => Some(s@),
        None => None,
    }
}

pub open spec fn figure_view(f: Figure) -> FigureView {
    FigureView { title: f.title@, arrow: f.arrow@, js: f.js@, offline: f.offline@, img: opt_str(f.img) }
}

/// A file to be placed in the site: a file that exists, or a module written
/// first.
pub enum SiteFile {
    File { source: String, destination: String },
    Module { contents: String, destination: String },
}

pub open spec fn site_file_view(c: SiteFile) -> SiteFileView {
    match c {
        SiteFile::File { source, destination } => SiteFileView::File { source: source@, destination: destination@ },
        SiteFile::Module { contents, destination } => SiteFileView::Module {
            contents: contents@,
            destination: destination@,
        },
    }
}

/// The site's markdown for a chapter, the files it needs in place, what is
/// wrong with its directives, and whether that stops the build: a full render
/// takes no chapter with errors, so the errors are reported and the build
/// fails.
pub struct HtmlPage {
    pub markdown: String,
    pub copies: Vec<SiteFile>,
    pub errors: Vec<String>,
    pub fails: bool,
}

pub open spec fn strings_view(v: Seq<String>) -> Seq<Seq<char>> {
    v.map_values(|s: String| s@)
}

/// A chapter: its page name, whether it is rendered for print too, and the
/// inputs and figures its markdown can name.
pub struct Chapter {
    name: String,
    full_render: bool,
    inputs: Vec<(String, String)>,
    figures: Vec<(String, Figure)>,
}

impl View for Chapter {
    type V = ChapterView;

    closed spec fn view(&self) -> ChapterView {
        ChapterView {
            name: self.name@,
            full_render: self.full_render,
            inputs: self.inputs@.map_values(|p: (String, String)| (p.0@, p.1@)),
            figures: self.figures@.map_values(|p: (String, Figure)| (p.0@, figure_view(p.1))),
        }
    }
}

/// No two entries are filed under one id.
pub open spec fn distinct_ids<T>(entries: Seq<(Seq<char>, T)>) -> bool {
    forall|i: int, j: int| 0 <= i < j < entries.len() ==> #[trigger] entries[i].0 != #[trigger] entries[j].0
}

/// The entries after `v` is filed under `id`: the entry with that id is
/// replaced where it stands, or the new one goes last.
pub open spec fn insert_named<T>(entries: Seq<(Seq<char>, T)>, id: Seq<char>, v: T) -> Seq<(Seq<char>, T)> {
    if exists|i: int| 0 <= i < entries.len() && #[trigger] entries[i].0 == id {
        let i = choose|i: int| 0 <= i < entries.len() && #[trigger] entries[i].0 == id;
        entries.update(i, (id, v))
    } else {
        entries.push((id, v))
    }
}

proof fn lemma_find_named_at<T>(entries: Seq<(Seq<char>, T)>, i: int)
    requires
        distinct_ids(entries),
        0 <= i < entries.len(),
    ensures
        find_named(entries, entries[i].0) == Some(entries[i].1),
    decreases entries.len(),
{
    if i > 0 {
        assert(entries[0].0 != entries[i].0);
        let rest = entries.drop_first();
        assert(distinct_ids(rest)) by {
            assert forall|a: int, b: int| 0 <= a < b < rest.len() implies #[trigger] rest[a].0 != #[trigger] rest[b].0 by {
                assert(rest[a] == entries[a + 1] && rest[b] == entries[b + 1]);
            }
        }
        assert(rest[i - 1] == entries[i]);
        lemma_find_named_at(rest, i - 1);
    }
}

proof fn lemma_find_named_absent<T>(entries: Seq<(Seq<char>, T)>, id: Seq<char>)
    requires
        forall|i: int| 0 <= i < entries.len() ==> #[trigger] entries[i].0 != id,
    ensures
        find_named(entries, id) is None,
    decreases entries.len(),
{
    if entries.len() > 0 {
        let rest = entries.drop_first();
        assert forall|i: int| 0 <= i < rest.len() implies #[trigger] rest[i].0 != id by {
            assert(rest[i] == entries[i + 1]);
        }
        lemma_find_named_absent(rest, id);
    }
}

impl Chapter {
    /// Ids are distinct, and a figure has an image exactly when the chapter
    /// is rendered for print.
    pub closed spec fn wf(&self) -> bool {
        &&& distinct_ids(self@.inputs)
        &&& distinct_ids(self@.figures)
        &&& forall|i: int| 0 <= i < self@.figures.len() ==> (#[trigger] self@.figures[i]).1.img is Some == self@.full_render
    }

    /// A chapter without figures, whose page is named after `name`.
    pub fn new(name: &str, full_render: bool) -> (r: Chapter)
        ensures
            r.wf(),
            r@ == (ChapterView { name: slug_of(name@), full_render, inputs: seq![], figures: seq![] }),
    {
        let r = Chapter { name: slugify(name), full_render, inputs: Vec::new(), figures: Vec::new() };
        assert(r@.inputs =~= Seq::<(Seq<char>, Seq<char>)>::empty());
        assert(r@.figures =~= Seq::<(Seq<char>, FigureView)>::empty());
        r
    }

    /// The chapter's page name.
    pub fn name(&self) -> (r: &str)
        ensures
            r@ == self@.name,
    {
        self.name.as_str()
    }

    /// Whether the chapter is rendered for print too.
    pub fn full_render(&self) -> (r: bool)
        ensures
            r == self@.full_render,
    {
        self.full_render
    }

    /// Files `figure` under `id`, replacing a figure filed there before.
    pub fn insert_figure(&mut self, id: &str, figure: Figure)
        requires
            old(self).wf(),
            figure.img is Some == old(self)@.full_render,
        ensures
            final(self).wf(),
            final(self)@ == (ChapterView {
                figures: insert_named(old(self)@.figures, id@, figure_view(figure)),
                ..old(self)@
            }),
    {
        let ghost old_figs = self@.figures;
        let ghost fv = figure_view(figure);
        let n = self.figures.len();
        let mut i: usize = 0;
        while i < n
            invariant
                n == self.figures@.len(),
                old_figs == self@.figures,
                i <= n,
                forall|j: int| 0 <= j < i ==> #[trigger] old_figs[j].0 != id@,
            ensures
                i <= n,
                i < n ==> old_figs[i as int].0 == id@,
                forall|j: int| 0 <= j < i ==> #[trigger] old_figs[j].0 != id@,
            decreases n - i,
        {
            assert(old_figs[i as int].0 == self.figures@[i as int].0@);
            if str_eq(self.figures[i].0.as_str(), id) {
                break;
            }
            i = i + 1;
        }
        let ghost a0 = self.figures@;
        if i < n {
            assert(old_figs[i as int].0 == id@);
            let mut entry = (id.to_owned(), figure);
            self.figures.set_and_swap(i, &mut entry);
            proof {
                assert(exists|k: int| 0 <= k < old_figs.len() && #[trigger] old_figs[k].0 == id@);
                let k = choose|k: int| 0 <= k < old_figs.len() && #[trigger] old_figs[k].0 == id@;
                if k != i {
                    if k < i {
                        assert(old_figs[k].0 != id@);
                    } else {
                        assert(old_figs[i as int].0 != old_figs[k].0);
                    }
                }
                assert(self@.figures =~= old_figs.update(i as int, (id@, fv)));
                assert(self@.figures == insert_named(old_figs, id@, fv));
                assert forall|a: int, b: int| 0 <= a < b < self@.figures.len() implies #[trigger] self@.figures[a].0 != #[trigger] self@.figures[b].0 by {
                    if a != i && b != i {
                        assert(old_figs[a].0 != old_figs[b].0);
                    } else if a == i {
                        assert(old_figs[i as int].0 != old_figs[b].0);
                    } else {
                        assert(old_figs[a].0 != old_figs[i as int].0);
                    }
                }
            }
        } else {
            self.figures.push((id.to_owned(), figure));
            proof {
                assert(self@.figures =~= old_figs.push((id@, fv)));
                assert(!exists|k: int| 0 <= k < old_figs.len() && #[trigger] old_figs[k].0 == id@);
                assert forall|a: int, b: int| 0 <= a < b < self@.figures.len() implies #[trigger] self@.figures[a].0 != #[trigger] self@.figures[b].0 by {
                    if b < old_figs.len() {
                        assert(old_figs[a].0 != old_figs[b].0);
                    } else {
                        assert(old_figs[a].0 != id@);
                    }
                }
            }
        }
    }
}

} // verus!

verus! {

/// `s` without its trailing `c`s.
pub(crate) fn trim_end_char_str(s: &str, c: char) -> (r: &str)
    ensures
        r@ == trim_end_char(s@, c),
{
    let m = s.unicode_len();
    let mut j: usize = m;
    assert(s@.subrange(0, m as int) =~= s@);
    while j > 0 && s.get_char(j - 1) == c
        invariant
            m == s@.len(),
            j <= m,
            trim_end_char(s@, c) == trim_end_char(s@.subrange(0, j as int), c),
        decreases j,
    {
        assert(s@.subrange(0, j as int).drop_last() =~= s@.subrange(0, j - 1));
        j = j - 1;
    }
    s.substring_char(0, j)
}

/// `path` pushed onto `dir`.
fn push_path(dir: &str, path: &str) -> (r: String)
    ensures
        r@ == path_push(dir@, path@),
{
    if path.unicode_len() > 0 && path.get_char(0) == '/' {
        path.to_owned()
    } else {
        crate::book::join(dir, path)
    }
}

/// Whether `s` is among `v`.
fn contains_str(v: &Vec<String>, s: &str) -> (r: bool)
    ensures
        r == strings_view(v@).contains(s@),
{
    let mut i: usize = 0;
    while i < v.len()
        invariant
            i <= v@.len(),
            forall|j: int| 0 <= j < i ==> #[trigger] v@[j]@ != s@,
        decreases v@.len() - i,
    {
        if str_eq(v[i].as_str(), s) {
            assert(strings_view(v@)[i as int] == s@);
            return true;
        }
        i = i + 1;
    }
    assert forall|j: int| 0 <= j < strings_view(v@).len() implies #[trigger] strings_view(v@)[j] != s@ by {
        assert(strings_view(v@)[j] == v@[j]@);
    }
    false
}

/// What the expansion has built so far.
struct HtmlState {
    out: String,
    copies: Vec<SiteFile>,
    errors: Vec<String>,
    used_inputs: Vec<String>,
    used_figures: Vec<String>,
}

impl View for HtmlState {
    type V = HtmlView;

    closed spec fn view(&self) -> HtmlView {
        HtmlView {
            out: self.out@,
            copies: self.copies@.map_values(|c: SiteFile| site_file_view(c)),
            errors: strings_view(self.errors@),
            used_inputs: strings_view(self.used_inputs@),
            used_figures: strings_view(self.used_figures@),
        }
    }
}

/// `s` with `-` made `_`.
fn underscored(s: &str) -> (r: String)
    ensures
        r@ == s@.map_values(|c: char| if c == '-' { '_' } else { c }),
{
    let n = s.unicode_len();
    let mut r = String::new();
    let mut i: usize = 0;
    while i < n
        invariant
            n == s@.len(),
            i <= n,
            r@ == s@.subrange(0, i as int).map_values(|c: char| if c == '-' { '_' } else { c }),
        decreases n - i,
    {
        let c = s.get_char(i);
        let ghost before = r@;
        if c == '-' {
            r.append("_");
            proof {
                reveal_strlit("_");
            }
        } else {
            let one = s.substring_char(i, i + 1);
            assert(one@ =~= seq![c]);
            r.append(one);
        }
        assert(r@ =~= before.push(if c == '-' { '_' } else { c }));
        assert(r@ =~= s@.subrange(0, i + 1).map_values(|c: char| if c == '-' { '_' } else { c }));
        i = i + 1;
    }
    assert(s@.subrange(0, n as int) =~= s@);
    r
}

/// The error for a directive on line `lineno` that names nothing.
fn missing_error(lineno: usize, what: &str, name: &str) -> (r: String)
    ensures
        r@ == missing(lineno as nat, what@, name@),
{
    let mut e = String::new();
    e.append("#");
    push_decimal(&mut e, lineno as u64);
    e.append(what);
    let q = debug_str(name);
    e.append(q.as_str());
    assert(e@ =~= missing(lineno as nat, what@, name@));
    e
}

/// The module that the site loads a figure's plot through.
fn loader_module(name: &str, title: &str) -> (r: String)
    ensures
        r@ == figure_loader(name@, title@),
{
    let mut arrow = String::new();
    arrow.append("./");
    arrow.append(name);
    arrow.append(".arrow");
    let mut r = String::new();
    r.append("\n                            import { FileAttachment } from 'observablehq:stdlib';\n                            import * as Plot from '@observablehq/plot';\n                            import renderPlot from './");
    r.append(name);
    r.append("_plot.js';\n\n                            const title = ");
    let t = debug_str(title);
    r.append(t.as_str());
    r.append(";\n                            let pending;\n\n                            export default async () => {\n                                if (!pending) pending = FileAttachment(");
    let a = debug_str(arrow.as_str());
    r.append(a.as_str());
    r.append(").arrow();\n                                const data = await pending;\n                                return (width) => {\n                                    const config = renderPlot({ data, width, title });\n                                    let plot = { width, title };\n                                    Object.assign(plot, config);\n                                    return Plot.plot(plot);\n                                };\n                            };\n                            ");
    assert(arrow@ =~= "./"@ + name@ + ".arrow"@);
    assert(r@ =~= figure_loader(name@, title@));
    r
}

impl Chapter {
    /// The index of the first figure filed under `id`.
    fn figure_index(&self, id: &str) -> (r: Option<usize>)
        ensures
            match find_named(self@.figures, id@) {
                Some(f) => r matches Some(i) && i < self@.figures.len() && self@.figures[i as int].1 == f
                    && self@.figures[i as int].0 == id@,
                None => r is None,
            },
    {
        let ghost fs = self@.figures;
        let mut i: usize = 0;
        assert(fs.subrange(0, fs.len() as int) =~= fs);
        while i < self.figures.len()
            invariant
                fs == self@.figures,
                i <= fs.len(),
                find_named(fs, id@) == find_named(fs.subrange(i as int, fs.len() as int), id@),
            decreases fs.len() - i,
        {
            let ghost rest = fs.subrange(i as int, fs.len() as int);
            assert(rest[0] == fs[i as int]);
            assert(fs[i as int].0 == self.figures@[i as int].0@);
            if str_eq(self.figures[i].0.as_str(), id) {
                return Some(i);
            }
            assert(rest.drop_first() =~= fs.subrange(i + 1, fs.len() as int));
            i = i + 1;
        }
        None
    }

    /// The index of the first input filed under `id`.
    fn input_index(&self, id: &str) -> (r: Option<usize>)
        ensures
            match find_named(self@.inputs, id@) {
                Some(js) => r matches Some(i) && i < self@.inputs.len() && self@.inputs[i as int].1 == js,
                None => r is None,
            },
    {
        let ghost xs = self@.inputs;
        let mut i: usize = 0;
        assert(xs.subrange(0, xs.len() as int) =~= xs);
        while i < self.inputs.len()
            invariant
                xs == self@.inputs,
                i <= xs.len(),
                find_named(xs, id@) == find_named(xs.subrange(i as int, xs.len() as int), id@),
            decreases xs.len() - i,
        {
            let ghost rest = xs.subrange(i as int, xs.len() as int);
            assert(rest[0] == xs[i as int]);
            assert(xs[i as int].0 == self.inputs@[i as int].0@);
            if str_eq(self.inputs[i].0.as_str(), id) {
                return Some(i);
            }
            assert(rest.drop_first() =~= xs.subrange(i + 1, xs.len() as int));
            i = i + 1;
        }
        None
    }
}

} // verus!

verus! {

impl Chapter {
    /// Expands a `!FIGURE(` line whose rest is `rest`.
    fn figure_line(&self, st: &mut HtmlState, src_dir: &str, lineno: usize, rest: &str)
        ensures
            ({
                let name = trim_end_char(rest@, ')');
                let l = "!FIGURE("@ + rest@;
                strip_prefix(l, "!FIGURE("@) == Some(rest@) ==> final(st)@ == html_step(
                    self@,
                    src_dir@,
                    old(st)@,
                    lineno as nat,
                    l,
                )
            }),
    {
        let name = trim_end_char_str(rest, ')');
        let ghost s0 = st@;
        match self.figure_index(name) {
            Some(i) => {
                let f = &self.figures[i].1;
                let mut prefix = self.name.clone();
                prefix.append("/");
                prefix.append(name);
                proof {
                    reveal_strlit("/");
                }
                let mut arrow_rel = prefix.clone();
                arrow_rel.append(".arrow");
                let mut plot_rel = prefix.clone();
                plot_rel.append("_plot.js");
                let mut js_rel = prefix.clone();
                js_rel.append(".js");
                let ghost c0 = st.copies@;
                st.copies.push(SiteFile::File { source: f.arrow.clone(), destination: push_path(src_dir, arrow_rel.as_str()) });
                st.copies.push(SiteFile::File { source: f.js.clone(), destination: push_path(src_dir, plot_rel.as_str()) });
                st.copies.push(SiteFile::Module {
                    contents: loader_module(name, f.title.as_str()),
                    destination: push_path(src_dir, js_rel.as_str()),
                });
                let mut var = String::new();
                var.append("__");
                let u = underscored(name);
                var.append(u.as_str());
                var.append("_plot");
                assert(var@ =~= plot_var(name@));
                let used = contains_str(&st.used_figures, name);
                let ghost o0 = st.out@;
                if !used {
                    let mut dot = String::new();
                    dot.append("./");
                    dot.append(js_rel.as_str());
                    let q = debug_str(dot.as_str());
                    st.out.append("\n```js\n");
                    st.out.append("import load from ");
                    st.out.append(q.as_str());
                    st.out.append(";\n");
                    st.out.append("const ");
                    st.out.append(var.as_str());
                    st.out.append(" = load();\n");
                    st.out.append("```\n\n");
                    assert(dot@ =~= "./"@ + (self@.name + "/"@ + name@) + ".js"@);
                }
                st.out.append("${ resize(");
                st.out.append(var.as_str());
                st.out.append(") }\n");
                st.used_figures.push(name.to_owned());
                proof {
                    let fv = self@.figures[i as int].1;
                    assert(prefix@ =~= self@.name + "/"@ + name@);
                    assert(arrow_rel@ =~= prefix@ + ".arrow"@);
                    assert(plot_rel@ =~= prefix@ + "_plot.js"@);
                    assert(js_rel@ =~= prefix@ + ".js"@);
                    assert(fv == figure_view(self.figures@[i as int].1));
                    assert(st@.copies =~= s0.copies
                        .push(SiteFileView::File { source: fv.arrow, destination: path_push(src_dir@, prefix@ + ".arrow"@) })
                        .push(SiteFileView::File { source: fv.js, destination: path_push(src_dir@, prefix@ + "_plot.js"@) })
                        .push(SiteFileView::Module {
                            contents: figure_loader(name@, fv.title),
                            destination: path_push(src_dir@, prefix@ + ".js"@),
                        }));
                    assert(strings_view(st.used_figures@) =~= s0.used_figures.push(name@));
                    let import = if s0.used_figures.contains(name@) {
                        Seq::<char>::empty()
                    } else {
                        "\n```js\n"@ + "import load from "@ + debug_quoted("./"@ + prefix@ + ".js"@) + ";\n"@ + "const "@
                            + plot_var(name@) + " = load();\n"@ + "```\n\n"@
                    };
                    assert(st.out@ =~= s0.out + import + "${ resize("@ + plot_var(name@) + ") }\n"@);
                }
            },
            None => {
                let e = missing_error(lineno, ": Missing figure ", name);
                if !self.full_render {
                    st.out.append("```js\nthrow new Error(");
                    let q = debug_str(e.as_str());
                    st.out.append(q.as_str());
                    st.out.append(");\n```");
                }
                st.errors.push(e);
                proof {
                    assert(strings_view(st.errors@) =~= s0.errors.push(e@));
                    assert(st.out@ =~= if self@.full_render { s0.out } else { s0.out + thrown(e@) });
                }
            },
        }
    }

    /// Expands a `!INPUT(` line whose rest is `rest`.
    fn input_line(&self, st: &mut HtmlState, lineno: usize, rest: &str)
        ensures
            ({
                let name = trim_end_char(rest@, ')');
                match find_named(self@.inputs, name) {
                    Some(js) => final(st)@ == (HtmlView {
                        out: old(st)@.out + "```js\n"@ + js + "\n```"@,
                        used_inputs: old(st)@.used_inputs.push(name),
                        ..old(st)@
                    }),
                    None => {
                        let error = missing(lineno as nat, ": Missing input "@, name);
                        final(st)@ == (HtmlView {
                            out: if self@.full_render { old(st)@.out } else { old(st)@.out + thrown(error) },
                            errors: old(st)@.errors.push(error),
                            ..old(st)@
                        })
                    },
                }
            }),
    {
        let name = trim_end_char_str(rest, ')');
        let ghost s0 = st@;
        match self.input_index(name) {
            Some(i) => {
                st.out.append("```js\n");
                st.out.append(self.inputs[i].1.as_str());
                st.out.append("\n```");
                st.used_inputs.push(name.to_owned());
                proof {
                    assert(strings_view(st.used_inputs@) =~= s0.used_inputs.push(name@));
                    assert(st.out@ =~= s0.out + "```js\n"@ + self@.inputs[i as int].1 + "\n```"@);
                }
            },
            None => {
                let e = missing_error(lineno, ": Missing input ", name);
                if !self.full_render {
                    st.out.append("```js\nthrow new Error(");
                    let q = debug_str(e.as_str());
                    st.out.append(q.as_str());
                    st.out.append(");\n```");
                }
                st.errors.push(e);
                proof {
                    assert(strings_view(st.errors@) =~= s0.errors.push(e@));
                    assert(st.out@ =~= if self@.full_render { s0.out } else { s0.out + thrown(e@) });
                }
            },
        }
    }
}

} // verus!

verus! {

impl Chapter {
    /// The site's markdown for the chapter written as `markup`, whose files
    /// go under `src_dir`: a line `!FIGURE(id)` becomes the figure's plot,
    /// loaded once per figure, and puts the figure's files in place; a line
    /// `!INPUT(id)` becomes the input's script; a directive that names
    /// nothing is an error, shown in place when drafting; every other line is
    /// kept. Inputs and figures that no line names are errors too, after
    /// those of the lines. A full render fails on any error.
    pub fn finish_html(&self, markup: &str, src_dir: &str) -> (r: HtmlPage)
        ensures
            r.fails == (self@.full_render && r.errors@.len() > 0),
            ({
                let st = html_lines(self@, src_dir@, lines_of(markup@));
                &&& r.markdown@ == st.out
                &&& r.copies@.map_values(|c: SiteFile| site_file_view(c)) == st.copies
                &&& strings_view(r.errors@) == st.errors + unused(self@.inputs, st.used_inputs, ": Unused input "@)
                    + unused(self@.figures, st.used_figures, ": Unused figure "@)
            }),
    {
        let ls = lines(markup);
        let ghost lv = strs_view(ls@);
        let mut st = HtmlState {
            out: String::new(),
            copies: Vec::new(),
            errors: Vec::new(),
            used_inputs: Vec::new(),
            used_figures: Vec::new(),
        };
        proof {
            assert(st@.copies =~= Seq::<SiteFileView>::empty());
            assert(st@.errors =~= Seq::<Seq<char>>::empty());
            assert(st@.used_inputs =~= Seq::<Seq<char>>::empty());
            assert(st@.used_figures =~= Seq::<Seq<char>>::empty());
            assert(lv.subrange(0, 0) =~= Seq::<Seq<char>>::empty());
        }
        let mut i: usize = 0;
        while i < ls.len()
            invariant
                lv == strs_view(ls@),
                lv == lines_of(markup@),
                i <= lv.len(),
                st@ == html_lines(self@, src_dir@, lv.subrange(0, i as int)),
            decreases lv.len() - i,
        {
            let l = ls[i];
            let ghost s0 = st@;
            proof {
                assert(lv[i as int] == l@);
                assert(lv.subrange(0, i + 1).drop_last() =~= lv.subrange(0, i as int));
                assert(html_lines(self@, src_dir@, lv.subrange(0, i + 1)) == html_step(self@, src_dir@, s0, (i + 1) as nat, l@));
            }
            if has_prefix(l, "!FIGURE(") {
                let rest = l.substring_char("!FIGURE(".unicode_len(), l.unicode_len());
                assert(l@ =~= "!FIGURE("@ + rest@);
                self.figure_line(&mut st, src_dir, i + 1, rest);
            } else if has_prefix(l, "!INPUT(") {
                let rest = l.substring_char("!INPUT(".unicode_len(), l.unicode_len());
                self.input_line(&mut st, i + 1, rest);
            } else {
                st.out.append(l);
                st.out.append("\n");
                assert(st@ =~= (HtmlView { out: s0.out + l@ + "\n"@, ..s0 }));
            }
            i = i + 1;
        }
        assert(lv.subrange(0, lv.len() as int) =~= lv);
        let ghost sf = st@;
        let HtmlState { out, copies, mut errors, used_inputs, used_figures } = st;
        let ghost e0 = strings_view(errors@);
        let mut k: usize = 0;
        assert(self@.inputs.subrange(0, 0) =~= Seq::<(Seq<char>, Seq<char>)>::empty());
        assert(e0 =~= sf.errors + unused(self@.inputs.subrange(0, 0), sf.used_inputs, ": Unused input "@));
        while k < self.inputs.len()
            invariant
                e0 == sf.errors,
                sf.used_inputs == strings_view(used_inputs@),
                k <= self@.inputs.len(),
                strings_view(errors@) == e0 + unused(self@.inputs.subrange(0, k as int), sf.used_inputs, ": Unused input "@),
            decreases self@.inputs.len() - k,
        {
            let ghost before = strings_view(errors@);
            let ghost sub = self@.inputs.subrange(0, k + 1);
            assert(sub.drop_last() =~= self@.inputs.subrange(0, k as int));
            assert(sub.last().0 == self.inputs@[k as int].0@);
            if !contains_str(&used_inputs, self.inputs[k].0.as_str()) {
                let mut e = String::new();
                e.append(": Unused input ");
                let q = debug_str(self.inputs[k].0.as_str());
                e.append(q.as_str());
                errors.push(e);
                assert(strings_view(errors@) =~= before.push(": Unused input "@ + debug_quoted(sub.last().0)));
            }
            k = k + 1;
        }
        assert(self@.inputs.subrange(0, self@.inputs.len() as int) =~= self@.inputs);
        let ghost e1 = strings_view(errors@);
        let mut k: usize = 0;
        assert(self@.figures.subrange(0, 0) =~= Seq::<(Seq<char>, FigureView)>::empty());
        assert(e1 =~= e1 + unused(self@.figures.subrange(0, 0), sf.used_figures, ": Unused figure "@));
        while k < self.figures.len()
            invariant
                sf.used_figures == strings_view(used_figures@),
                k <= self@.figures.len(),
                strings_view(errors@) == e1 + unused(self@.figures.subrange(0, k as int), sf.used_figures, ": Unused figure "@),
            decreases self@.figures.len() - k,
        {
            let ghost before = strings_view(errors@);
            let ghost sub = self@.figures.subrange(0, k + 1);
            assert(sub.drop_last() =~= self@.figures.subrange(0, k as int));
            assert(sub.last().0 == self.figures@[k as int].0@);
            if !contains_str(&used_figures, self.figures[k].0.as_str()) {
                let mut e = String::new();
                e.append(": Unused figure ");
                let q = debug_str(self.figures[k].0.as_str());
                e.append(q.as_str());
                errors.push(e);
                assert(strings_view(errors@) =~= before.push(": Unused figure "@ + debug_quoted(sub.last().0)));
            }
            k = k + 1;
        }
        assert(self@.figures.subrange(0, self@.figures.len() as int) =~= self@.figures);
        let fails = self.full_render && errors.len() > 0;
        HtmlPage { markdown: out, copies, errors, fails }
    }
}

} // verus!

verus! {

impl Chapter {
    /// The printed document's markdown for the chapter written as `markup`:
    /// a line `!FIGURE(id)` becomes the figure's image, a directive that
    /// names nothing and every `!INPUT(` line are dropped, every other line
    /// is kept, and a blank line ends it.
    pub fn finish_pdf(&self, markup: &str) -> (r: String)
        requires
            self.wf(),
            self@.full_render,
        ensures
            r@ == pdf_lines(self@, lines_of(markup@)) + "\n"@,
    {
        let ls = lines(markup);
        let ghost lv = strs_view(ls@);
        let mut out = String::new();
        assert(lv.subrange(0, 0) =~= Seq::<Seq<char>>::empty());
        let mut i: usize = 0;
        while i < ls.len()
            invariant
                self.wf(),
                self@.full_render,
                lv == strs_view(ls@),
                lv == lines_of(markup@),
                i <= lv.len(),
                out@ == pdf_lines(self@, lv.subrange(0, i as int)),
            decreases lv.len() - i,
        {
            let l = ls[i];
            let ghost o0 = out@;
            proof {
                assert(lv[i as int] == l@);
                assert(lv.subrange(0, i + 1).drop_last() =~= lv.subrange(0, i as int));
            }
            if has_prefix(l, "!FIGURE(") {
                let rest = l.substring_char("!FIGURE(".unicode_len(), l.unicode_len());
                let name = trim_end_char_str(rest, ')');
                match self.figure_index(name) {
                    Some(k) => {
                        let f = &self.figures[k].1;
                        proof {
                            assert(self@.figures[k as int].1.img is Some);
                        }
                        let img = f.img.as_ref().unwrap();
                        out.append("![");
                        out.append(f.title.as_str());
                        out.append("](");
                        out.append(img.as_str());
                        out.append(")\n");
                        assert(out@ =~= o0 + "!["@ + self@.figures[k as int].1.title + "]("@
                            + self@.figures[k as int].1.img.unwrap() + ")\n"@);
                    },
                    None => {},
                }
            } else if has_prefix(l, "!INPUT(") {
            } else {
                out.append(l);
                out.append("\n");
            }
            i = i + 1;
        }
        assert(lv.subrange(0, lv.len() as int) =~= lv);
        out.append("\n");
        out
    }
}

/// The module that draws a figure's plot, given as a JavaScript expression.
pub fn figure_plot_module(js: &str) -> (r: String)
    ensures
        r@ == plot_module(js@),
{
    let mut r = String::new();
    r.append("\n                import * as Plot from '@observablehq/plot';\n                export default ");
    r.append(js);
    r.append(";\n                ");
    r
}

/// The script that draws a figure for the printed document from its plot
/// module `js` and its data `arrow`.
pub fn figure_offline_module(js: &str, arrow: &str, title: &str) -> (r: String)
    ensures
        r@ == offline_module(js@, arrow@, title@),
{
    let mut r = String::new();
    r.append("\n                import { JSDOM } from 'jsdom';\n                import * as Plot from '@observablehq/plot';\n                import { tableFromIPC } from 'apache-arrow';\n                import {readFile, writeFile} from 'node:fs/promises';\n                import { argv } from 'node:process';\n                import renderPlot from '");
    r.append(js);
    r.append("';\n\n                const title = ");
    let t = debug_str(title);
    r.append(t.as_str());
    r.append(";\n                const data = tableFromIPC(await readFile(");
    let a = debug_str(arrow);
    r.append(a.as_str());
    r.append("));\n                const window = new JSDOM('').window;\n                const document = window.document;\n\n                // patch the globals to make Plot happy\n                global.Event = window.Event;\n\n                const width = 800;\n                const config = renderPlot({ data, width, title, document });\n                let plot = { width, title, document };\n                Object.assign(plot, config);\n                plot = Plot.plot(plot).querySelector('svg');\n\n                plot.setAttributeNS('http://www.w3.org/2000/xmlns/', 'xmlns', 'http://www.w3.org/2000/svg');\n                plot.setAttributeNS('http://www.w3.org/2000/xmlns/', 'xmlns:xlink', 'http://www.w3.org/1999/xlink');\n\n                if (argv[2]) await writeFile(argv[2], plot.outerHTML);\n                else process.stdout.write(plot.outerHTML);\n                ");
    assert(r@ =~= offline_module(js@, arrow@, title@));
    r
}

} // verus!

verus! {

impl Chapter {
    /// Files the figure labelled `label` under the label's id, with the
    /// label's title, its data file `arrow`, its plot module `js`, its
    /// offline renderer `offline`, and, when rendering for print, its image.
    pub fn figure(&mut self, label: &Label, arrow: String, js: String, offline: String, img: Option<String>)
        requires
            old(self).wf(),
            img is Some == old(self)@.full_render,
        ensures
            final(self).wf(),
            final(self)@ == (ChapterView {
                figures: insert_named(
                    old(self)@.figures,
                    label_id(label.id@, label.title@),
                    FigureView { title: label.title@, arrow: arrow@, js: js@, offline: offline@, img: opt_str(img) },
                ),
                ..old(self)@
            }),
    {
        let id = label.generate_id();
        let title = label.title.as_str().to_owned();
        self.insert_figure(id.as_str(), Figure { title, arrow, js, offline, img });
    }

    /// The markdown of a chapter that has none written yet: a heading with
    /// its page name.
    pub fn default_markup(&self) -> (r: String)
        ensures
            r@ == "## "@ + self@.name,
    {
        let mut r = String::new();
        r.append("## ");
        r.append(self.name.as_str());
        r
    }
}

} // verus!

verus! {

/// Where the sources of the interactive book go.
pub fn book_dir() -> (r: &'static str)
    ensures
        r@ == "target/book-src"@,
{
    "target/book-src"
}

} // verus!
