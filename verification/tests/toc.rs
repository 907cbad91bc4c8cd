use kew::toc::{Publish, Toc};

fn page(title: &str, id: Option<&str>, sections: Vec<Toc>) -> Toc {
    Toc { id: id.map(|s| s.to_string()), title: title.to_string(), sections }
}

fn leaf(title: &str) -> Toc {
    page(title, None, vec![])
}

fn book() -> Toc {
    page(
        "",
        None,
        vec![
            page(
                "Capacity Management",
                None,
                vec![leaf("Unbounded"), leaf("Backpressure"), leaf("Prefer Old"), leaf("Prefer New")],
            ),
            page(
                "Service Disciplines",
                None,
                vec![
                    page("FIFO: First In, First Out", Some("fifo"), vec![]),
                    page("LIFO: Last In, First Out", Some("lifo"), vec![]),
                    leaf("Round Robin"),
                    leaf("Priority"),
                    leaf("Shortest Job First"),
                ],
            ),
            page("Active Queue Management", Some("aqm"), vec![leaf("CoDel"), leaf("CAKE")]),
            page("Congestion Control Algorithms", Some("cca"), vec![leaf("CUBIC"), leaf("BBR")]),
        ],
    )
}

const PAGES: &str = r#"[{name: "1. Capacity Management", open: true, path: "/capacity-management", pages: [{name: "1.1. Unbounded", open: true, path: "/unbounded", pages: []},{name: "1.2. Backpressure", open: true, path: "/backpressure", pages: []},{name: "1.3. Prefer Old", open: true, path: "/prefer-old", pages: []},{name: "1.4. Prefer New", open: true, path: "/prefer-new", pages: []},]},{name: "2. Service Disciplines", open: true, path: "/service-disciplines", pages: [{name: "2.1. FIFO: First In, First Out", open: true, path: "/fifo", pages: []},{name: "2.2. LIFO: Last In, First Out", open: true, path: "/lifo", pages: []},{name: "2.3. Round Robin", open: true, path: "/round-robin", pages: []},{name: "2.4. Priority", open: true, path: "/priority", pages: []},{name: "2.5. Shortest Job First", open: true, path: "/shortest-job-first", pages: []},]},{name: "3. Active Queue Management", open: true, path: "/aqm", pages: [{name: "3.1. CoDel", open: true, path: "/codel", pages: []},{name: "3.2. CAKE", open: true, path: "/cake", pages: []},]},{name: "4. Congestion Control Algorithms", open: true, path: "/cca", pages: [{name: "4.1. CUBIC", open: true, path: "/cubic", pages: []},{name: "4.2. BBR", open: true, path: "/bbr", pages: []},]},]"#;

#[test]
fn toc() {
    let files: Vec<Publish> = book().render(false);
    assert_eq!(files.len(), 2);
    assert_eq!(files[0].destination, "target/book-src/html/package.json");
    assert_eq!(files[0].ext.as_deref(), Some("json"));
    assert!(files[0].contents.contains("\"@observablehq/framework\": \"^1.12.0\""));
    assert_eq!(files[1].destination, "target/book-src/html/observablehq.config.js");
    assert_eq!(files[1].ext.as_deref(), Some("js"));
    let expected = format!(
        "\n            export default {{\n                title: 'Kew',\n                search: true,\n                root: 'src',\n                toc: true,\n                footer: '',\n                pages: {PAGES},\n            }}\n            "
    );
    assert_eq!(files[1].contents, expected);
}

#[test]
fn toc_full_render_has_makefile() {
    let files = book().render(true);
    assert_eq!(files.len(), 3);
    assert_eq!(files[2].destination, "target/book-src/pdf/Makefile");
    assert_eq!(files[2].ext, None);
    let deps = " src/capacity-management.md src/unbounded.md src/backpressure.md src/prefer-old.md src/prefer-new.md src/service-disciplines.md src/fifo.md src/lifo.md src/round-robin.md src/priority.md src/shortest-job-first.md src/aqm.md src/codel.md src/cake.md src/cca.md src/cubic.md src/bbr.md";
    assert_eq!(
        files[2].contents,
        format!("../../book/pdf/book.pdf: book.md\n\t@pandoc --toc --from markdown --to pdf --number-sections --standalone -o $@ $<\nbook.md:{deps}\n\t@cat $^ > $@")
    );
}

#[test]
fn slugify_dashes_and_lowercases() {
    assert_eq!(kew::toc::slugify("Prefer Old_Items"), "prefer-old-items");
    assert_eq!(kew::toc::slugify("Capacity Management"), "capacity-management");
    assert_eq!(kew::toc::slugify("FIFO: First In, First Out"), "fifo:-first-in,-first-out");
    assert_eq!(kew::toc::slugify("Prefer_Old"), "prefer-old");
}
