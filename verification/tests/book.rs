use kew::book::charts::chart;
use kew::book::vega::debug_str;
use kew::book::{cytoscape, fifo, join, md, path_file_name, priority, sql, title, vega, Context};

fn hex(s: &str) -> String {
    blake3::hash(s.as_bytes()).to_hex().to_string()
}

#[test]
fn book_summary() {
    let mut ctx = Context::new("target/book");
    title(&mut ctx, "SUMMARY.md");
    md(&mut ctx, "# Summary");
    md(&mut ctx, "- [Chapter 1 - Intoduction]()");
    md(&mut ctx, "- [Chapter 2 - FIFO](./fifo.md)");
    assert_eq!(ctx.title(), "SUMMARY.md");
    assert_eq!(
        ctx.markdown(),
        "# Summary\n- [Chapter 1 - Intoduction]()\n- [Chapter 2 - FIFO](./fifo.md)\n"
    );
}

#[test]
fn summary_summary() {
    let mut ctx = Context::new("target/book");
    title(&mut ctx, "SUMMARY");
    let lines = [
        "# Summary",
        "[Introduction](./introduction.md)",
        "- [Capacity Management]()",
        "  - [Unbounded]()",
        "  - [Backpressure]()",
        "  - [Prefer Old]()",
        "  - [Prefer New]()",
        "- [Service Disciplines]()",
        "  - [FIFO: First In, First Out](./fifo.md)",
        "  - [LIFO: Last In, First Out]()",
        "  - [Round Robin]()",
        "  - [Priority](./priority.md)",
        "  - [Shortest Job First]()",
        "- [Active Queue Management]()",
        "  - [CoDel]()",
        "  - [CAKE]()",
        "- [Congestion Control Algorithms]()",
        "  - [CUBIC]()",
        "  - [BBR]()",
    ];
    for l in lines {
        md(&mut ctx, l);
    }
    let mut expected = String::new();
    for l in lines {
        expected.push_str(l);
        expected.push('\n');
    }
    assert_eq!(ctx.title(), "SUMMARY");
    assert_eq!(ctx.markdown(), expected);
    assert!(ctx.take_files().is_empty());
}

#[test]
fn join_adds_one_separator() {
    assert_eq!(join("a/b", "c"), "a/b/c");
    assert_eq!(join("a/b/", "c"), "a/b/c");
    assert_eq!(join("", "c"), "c");
}

#[test]
fn file_name_is_last_component() {
    assert_eq!(path_file_name("a/b/c.tsv"), "c.tsv");
    assert_eq!(path_file_name("c.tsv"), "c.tsv");
    assert_eq!(path_file_name("a/"), "");
}

#[test]
fn vega_writes_the_spec_and_points_at_it() {
    let mut ctx = Context::new("target/book");
    vega(&mut ctx, "{\"mark\":\"line\"}");
    let path = format!("target/book/{}.json", hex("{\"mark\":\"line\"}"));
    assert_eq!(ctx.markdown(), format!("#VEGA({path})\n"));
    let files = ctx.take_files();
    assert_eq!(files, vec![(path, "{\"mark\":\"line\"}".to_string())]);
    assert!(ctx.take_files().is_empty());
}

#[test]
fn sql_copies_into_a_hashed_file() {
    let mut ctx = Context::new("out");
    let path = sql(&mut ctx, "SELECT 1");
    assert_eq!(path, format!("out/{}.tsv", hex("SELECT 1")));
    assert_eq!(
        ctx.take_statements(),
        vec![format!("COPY (SELECT 1) TO '{path}' (FORMAT CSV, DELIM '\t');")]
    );
    assert_eq!(ctx.markdown(), "");
}

#[test]
fn debug_str_quotes_and_escapes() {
    assert_eq!(debug_str("a\"b\\c\n"), format!("{:?}", "a\"b\\c\n"));
    assert_eq!(debug_str("it's"), format!("{:?}", "it's"));
    assert_eq!(debug_str("héllo\t"), format!("{:?}", "héllo\t"));
}

#[test]
fn vega_render_line() {
    let mut ctx = Context::new("d");
    kew::book::vega::render(&mut ctx, "{}");
    let path = format!("d/{}.json", hex("{}"));
    assert_eq!(ctx.markdown(), format!("\n!VEGA{{\"path\":{:?}}}\n\n", path));
}

#[test]
fn cytoscape_render_adds_graph() {
    let mut ctx = Context::new("d");
    cytoscape::render(&mut ctx, "metrics.parquet");
    let statements = ctx.take_statements();
    assert_eq!(statements.len(), 1);
    assert!(statements[0].starts_with("COPY (\n    SELECT DISTINCT"));
    assert_eq!(statements[0].matches("read_parquet('metrics.parquet')").count(), 4);
    let md = ctx.markdown().to_string();
    assert!(md.starts_with("\n<div data-cytoscape data-elements=\""));
    assert!(md.ends_with(".tsv\"></div>\n\n"));
}

#[test]
fn chart_fills_in_the_data_file() {
    assert_eq!(chart("{\"url\":\"URL\",\"x\":\"URL\"}", "a/b/data.tsv"), "{\"url\":\"data.tsv\",\"x\":\"data.tsv\"}");
    assert_eq!(chart("no pattern", "a/x.tsv"), "no pattern");
    assert_eq!(chart("URURL", "x.tsv"), "URx.tsv");
}

#[test]
fn fifo_latency_graph_charts_the_query() {
    let mut ctx = Context::new("d");
    fifo::latency_graph(&mut ctx, "m.parquet", "explicit", "{\"data\":\"URL\"}");
    let statements = ctx.take_statements();
    assert_eq!(statements.len(), 1);
    assert!(statements[0].contains("attr_reason = 'explicit'"));
    let files = ctx.take_files();
    assert_eq!(files.len(), 1);
    assert!(files[0].1.starts_with("{\"data\":\""));
    assert!(files[0].1.ends_with(".tsv\"}"));
    assert_eq!(ctx.markdown(), format!("#VEGA({})\n", files[0].0));
}

#[test]
fn priority_count_graph_filters_by_queue() {
    let mut ctx = Context::new("d");
    priority::count_graph(&mut ctx, "m.parquet", "push", "high", "URL");
    let s = ctx.take_statements();
    assert!(s[0].contains("name == 'push'"));
    assert!(s[0].contains("  AND attr_queue_name = 'high'"));
    let mut ctx = Context::new("d");
    priority::count_graph(&mut ctx, "m.parquet", "push", "", "URL");
    let s = ctx.take_statements();
    assert!(!s[0].contains("attr_queue_name"));
}

#[test]
fn hashed_bytes_path_names_the_data() {
    let data = [0u8, 159, 146, 150];
    assert_eq!(
        kew::book::hashed_bytes_path("c", &data, Some("arrow")),
        format!("c/{}.arrow", blake3::hash(&data).to_hex())
    );
}

#[test]
fn fifo_sections_write_headings_and_charts() {
    let mut ctx = Context::new("d");
    fifo::no_latency(&mut ctx, "m.parquet", "URL");
    let files = ctx.take_files();
    assert_eq!(ctx.markdown(), format!("#### Latency\n#VEGA({})\n", files[0].0));

    let mut ctx = Context::new("d");
    fifo::load_shedding_latency(&mut ctx, "m.parquet", "L URL", "C URL");
    let files = ctx.take_files();
    assert_eq!(files.len(), 2);
    assert_eq!(
        ctx.markdown(),
        format!(
            "\n{}\n\n**Latency**\n#VEGA({})\n**Errors**\n#VEGA({})\n",
            r"\\[ L = \frac{\lambda - \sigma}{\mu} \\]",
            files[0].0,
            files[1].0
        )
    );
    let s = ctx.take_statements();
    assert!(s[1].contains("name == 'push'") && s[1].contains("attr_reason = 'reject'"));
    assert_eq!(fifo::max_queue_depth(), 75);
}

#[test]
fn fifo_client_sends_then_waits() {
    let pause = std::time::Duration::from_millis(1);
    let mut c = fifo::Client::new();
    let mut moves = vec![];
    for _ in 0..4 {
        moves.push(format!("{:?}", c.step(pause)));
    }
    assert_eq!(moves, vec!["Send(0)", "Sleep(1ms)", "Send(1)", "Sleep(1ms)"]);
    assert_eq!(c.next, 2);
}

#[test]
fn fifo_server_handles_until_closed() {
    let moves = fifo::serve(Ok(7), None);
    assert!(matches!(&moves[..], [fifo::ServerMove::Print(l)] if l == "handled 7"));
    let moves = fifo::serve(Ok(12), Some(fifo::fixed_server_delay()));
    assert!(matches!(&moves[..], [fifo::ServerMove::Sleep(d), fifo::ServerMove::Print(l)]
        if *d == std::time::Duration::from_millis(2) && l == "handled 12"));
    let moves = fifo::serve(Err(kew::ring_deque::Closed), None);
    assert!(matches!(&moves[..], [fifo::ServerMove::Stop]));
}

#[test]
fn priority_first_example_charts_both_clients() {
    let mut ctx = Context::new("d");
    priority::first_example(&mut ctx, "m.parquet", "URL");
    let files = ctx.take_files();
    assert_eq!(ctx.markdown(), format!("## Client A\n#VEGA({})\n## Client B\n#VEGA({})\n", files[0].0, files[1].0));
    let s = ctx.take_statements();
    assert!(s[0].contains("attr_queue_name = 'client_a'"));
    assert!(s[1].contains("attr_queue_name = 'client_b'"));
}

#[test]
fn priority_client_sends_bursts() {
    let mut c = priority::BurstClient::new(2, 2, std::time::Duration::from_millis(3));
    let mut moves = vec![];
    for _ in 0..7 {
        moves.push(format!("{:?}", c.step()));
    }
    assert_eq!(
        moves,
        vec!["Send(0, 0)", "Send(0, 1)", "Sleep(3ms)", "Send(1, 0)", "Send(1, 1)", "Sleep(3ms)", "Done"]
    );
    let a = priority::client_a();
    assert_eq!((a.burst, a.rounds, a.latency), (150, 3, std::time::Duration::from_millis(200)));
    let b = priority::client_b();
    assert_eq!((b.burst, b.rounds, b.latency), (10, 1000, std::time::Duration::from_millis(2)));
}

#[test]
fn priority_server_prefers_the_first_client() {
    let mut s = priority::PriorityServer::new();
    let mut moves = vec![];
    moves.push(format!("{:?}", s.step(false, false)));
    moves.push(format!("{:?}", s.step(true, true)));
    moves.push(format!("{:?}", s.step(false, true)));
    for _ in 0..3 {
        moves.push(format!("{:?}", s.step(true, false)));
    }
    moves.push(format!("{:?}", s.step(true, true)));
    moves.push(format!("{:?}", s.step(true, true)));
    assert_eq!(moves, vec!["Wait", "Take(A)", "Take(B)", "Take(A)", "Take(A)", "Take(A)", "Sleep(1ms)", "Take(A)"]);
    assert_eq!(priority::process((3, 41), "client_b"), "process (3, 41) from client_b");
    assert_eq!(priority::process((3, 41), "client_b"), format!("process {:?} from client_b", (3usize, 41usize)));
}

#[test]
fn fifo_fifo() {
    let mut ctx = Context::new("target/book");
    title(&mut ctx, "fifo");
    let intro = r"
# FIFO

In this chapter we will explore the most basic type of queue: FIFO, or first-in-first-out.
    ";
    md(&mut ctx, intro);
    fifo::no_latency(&mut ctx, "target/sim/a.arrow", "{\"url\":\"URL\"}");
    fifo::fixed_server_latency(&mut ctx, "target/sim/b.arrow", "{\"url\":\"URL\"}");
    fifo::random_server_latency(&mut ctx, "target/sim/c.arrow", "{\"url\":\"URL\"}");
    fifo::load_shedding_latency(&mut ctx, "target/sim/d.arrow", "{\"url\":\"URL\"}", "{\"url\":\"URL\"}");
    assert_eq!(ctx.title(), "fifo");
    let files = ctx.take_files();
    assert_eq!(files.len(), 5);
    let page = ctx.markdown().to_string();
    assert!(page.starts_with(&format!("{intro}\n#### Latency\n#VEGA({})\n**Latency**\n", files[0].0)));
    assert!(page.ends_with(&format!("**Errors**\n#VEGA({})\n", files[4].0)));
    assert_eq!(ctx.take_statements().len(), 5);
}

#[test]
fn priority() {
    let mut ctx = Context::new("target/book");
    title(&mut ctx, "priority");
    md(&mut ctx, "\n# Priority\n\n\n    ");
    priority::first_example(&mut ctx, "target/sim/p.arrow", "{\"url\":\"URL\"}");
    assert_eq!(ctx.title(), "priority");
    let files = ctx.take_files();
    assert_eq!(
        ctx.markdown(),
        format!("\n# Priority\n\n\n    \n## Client A\n#VEGA({})\n## Client B\n#VEGA({})\n", files[0].0, files[1].0)
    );
}
