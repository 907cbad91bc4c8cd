use kew::chapter::{figure_offline_module, figure_plot_module, Chapter, SiteFile, Figure, Label};

fn figure(title: &str, img: Option<&str>) -> Figure {
    Figure {
        title: title.to_string(),
        arrow: "/c/a.arrow".to_string(),
        js: "/c/p.js".to_string(),
        offline: "/c/o.js".to_string(),
        img: img.map(|s| s.to_string()),
    }
}

#[test]
fn label_ids() {
    let l = Label::new("Queue Len-Over Time");
    assert_eq!(l.generate_id(), "queue_len_over_time");
    let l = Label::new("Title").id("custom").description("d");
    assert_eq!(l.generate_id(), "custom");
    assert_eq!(l.description, "d");
    assert_eq!(l.title, "Title");
}

#[test]
fn chapter_name_is_slugified() {
    let c = Chapter::new("My Chapter_One", false);
    assert_eq!(c.name(), "my-chapter-one");
    assert!(!c.full_render());
}

#[test]
fn html_expands_figures_once_per_name() {
    let mut c = Chapter::new("fifo", false);
    c.insert_figure("lat-ms", figure("Latency", None));
    let page = c.finish_html("# FIFO\n!FIGURE(lat-ms)\ntext\n!FIGURE(lat-ms))\n", "site/src");
    let import = "\n```js\nimport load from \"./fifo/lat-ms.js\";\nconst __lat_ms_plot = load();\n```\n\n";
    let resize = "${ resize(__lat_ms_plot) }\n";
    assert_eq!(page.markdown, format!("# FIFO\n{import}{resize}text\n{resize}"));
    assert!(page.errors.is_empty());
    assert_eq!(page.copies.len(), 6);
    match &page.copies[0] {
        SiteFile::File { source, destination } => {
            assert_eq!(source, "/c/a.arrow");
            assert_eq!(destination, "site/src/fifo/lat-ms.arrow");
        }
        _ => panic!("expected a file"),
    }
    match &page.copies[1] {
        SiteFile::File { source, destination } => {
            assert_eq!(source, "/c/p.js");
            assert_eq!(destination, "site/src/fifo/lat-ms_plot.js");
        }
        _ => panic!("expected a file"),
    }
    match &page.copies[2] {
        SiteFile::Module { contents, destination } => {
            assert_eq!(destination, "site/src/fifo/lat-ms.js");
            assert!(contents.contains("import renderPlot from './lat-ms_plot.js';"));
            assert!(contents.contains("const title = \"Latency\";"));
            assert!(contents.contains("FileAttachment(\"./lat-ms.arrow\").arrow()"));
        }
        _ => panic!("expected a module"),
    }
}

#[test]
fn html_reports_missing_and_unused() {
    let mut c = Chapter::new("ch", false);
    c.insert_figure("unused", figure("U", None));
    let page = c.finish_html("a\n!FIGURE(nope)\n!INPUT(rate)\n", "s");
    assert_eq!(
        page.errors,
        vec![
            "#2: Missing figure \"nope\"".to_string(),
            "#3: Missing input \"rate\"".to_string(),
            ": Unused figure \"unused\"".to_string(),
        ]
    );
    assert_eq!(
        page.markdown,
        "a\n```js\nthrow new Error(\"#2: Missing figure \\\"nope\\\"\");\n``````js\nthrow new Error(\"#3: Missing input \\\"rate\\\"\");\n```"
    );
    assert!(page.copies.is_empty());

    let full = Chapter::new("ch", true);
    let page = full.finish_html("!FIGURE(nope)\nb", "s");
    assert_eq!(page.markdown, "b\n");
    assert_eq!(page.errors, vec!["#1: Missing figure \"nope\"".to_string()]);
    assert!(page.fails);
}

#[test]
fn drafting_with_errors_does_not_fail() {
    let c = Chapter::new("ch", false);
    let page = c.finish_html("!INPUT(rate)\n", "s");
    assert_eq!(page.errors.len(), 1);
    assert!(!page.fails);
    let full = Chapter::new("ch", true);
    let page = full.finish_html("# Title\n", "s");
    assert!(page.errors.is_empty());
    assert!(!page.fails);
}

#[test]
fn generated_ids_of_titles() {
    assert_eq!(Label::new("Queue Latency").generate_id(), "queue_latency");
    assert_eq!(Label::new("Multi-Word Title").generate_id(), "multi_word_title");
    assert_eq!(Label::new("Queue Latency").id("no-latency").generate_id(), "no-latency");
    assert_eq!(Chapter::new("Queue Latency", false).name(), "queue-latency");
}

#[test]
fn inserting_a_figure_again_replaces_it() {
    let mut c = Chapter::new("ch", true);
    c.insert_figure("f", figure("Old", Some("/img/old.svg")));
    c.insert_figure("g", figure("G", Some("/img/g.svg")));
    c.insert_figure("f", figure("New", Some("/img/new.svg")));
    let pdf = c.finish_pdf("x\n!FIGURE(f)\n!INPUT(i)\n!FIGURE(missing)\n!FIGURE(g)");
    assert_eq!(pdf, "x\n![New](/img/new.svg)\n![G](/img/g.svg)\n\n");
}

#[test]
fn figure_modules() {
    assert_eq!(
        figure_plot_module("{ marks: [] }"),
        "\n                import * as Plot from '@observablehq/plot';\n                export default { marks: [] };\n                "
    );
    let offline = figure_offline_module("/c/p.js", "/c/a.arrow", "T \"q\"");
    assert!(offline.contains("import renderPlot from '/c/p.js';"));
    assert!(offline.contains("const title = \"T \\\"q\\\"\";"));
    assert!(offline.contains("readFile(\"/c/a.arrow\")"));
    assert!(offline.contains("const width = 800;"));
}

#[test]
fn figures_are_filed_under_their_label() {
    let mut c = Chapter::new("Queue Basics", false);
    assert_eq!(c.default_markup(), "## queue-basics");
    c.figure(&Label::new("Sojourn Time"), "a".to_string(), "j".to_string(), "o".to_string(), None);
    let page = c.finish_html("!FIGURE(sojourn_time)", "s");
    assert!(page.errors.is_empty());
    assert_eq!(page.copies.len(), 3);
}
