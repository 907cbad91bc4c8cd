use kew::stream::{parse, Attrs, Data, Event};

#[test]
fn attrs_keep_every_pair_in_order() {
    let a = Attrs::parse(" b=2 a=1 flag b=3 =x").unwrap();
    assert_eq!(
        format!("{a:?}"),
        "Attrs { attrs: [(\"b\", \"2\"), (\"a\", \"1\"), (\"b\", \"3\"), (\"\", \"x\")] }"
    );
    assert_eq!(format!("{:?}", Attrs::parse("").unwrap()), "Attrs { attrs: [] }");
}

#[test]
fn data_value_is_what_precedes_the_first_digit() {
    // the value is read from the text before the first numeric character,
    // which has no digits, so no value reads
    assert!(Data::parse("sojourn_time=2000ns").is_none());
    assert!(Data::parse("push=1").is_none());
    assert!(Data::parse("no_equals").is_none());
}

#[test]
fn no_line_reads_as_an_event() {
    assert!(Event::parse("kew[1500]measure#sojourn_time=2000ns reason=explicit").is_none());
    assert!(Event::parse("kew[7]count#push=1").is_none());
    let mut p = parse(vec![
        "kew[1]count#push=1".to_string(),
        String::new(),
        "garbage".to_string(),
    ]);
    assert!(p.event().is_none());
    assert!(p.event().is_none());
}

#[test]
fn every_call_reads_nothing() {
    let mut p = parse(vec!["kew[1]count#push=1".to_string(); 5]);
    for _ in 0..3 {
        assert!(p.event().is_none());
    }
}
