use kew::parser::{Event, Kind};
use kew::writer::Writer;

#[test]
fn columns_fill_with_nulls() {
    let mut w = Writer::new();
    let e1 = Event::parse("kew[1]count#push=1 queue_name=q").unwrap();
    let e2 = Event::parse("kew[2]measure#sojourn_time=5ns reason=explicit queue_name=q").unwrap();
    let e3 = Event::parse("kew[3]gauge#depth=2").unwrap();
    w.append(&e1);
    w.append(&e2);
    w.append(&e3);
    assert_eq!(w.len(), 3);
    let b = w.finish();
    assert_eq!(b.timestamps, vec![1, 2, 3]);
    assert_eq!(b.names, vec!["push", "sojourn_time", "depth"]);
    assert_eq!(b.values, vec![1, 5, 2]);
    assert_eq!(b.units, vec!["", "ns", ""]);
    assert_eq!(b.kinds, vec![Kind::Count, Kind::Measure, Kind::Gauge]);
    assert_eq!(b.attrs.len(), 2);
    assert_eq!(b.attrs[0].0, "attr_queue_name");
    assert_eq!(b.attrs[0].1, vec![Some("q".to_string()), Some("q".to_string()), None]);
    assert_eq!(b.attrs[1].0, "attr_reason");
    assert_eq!(b.attrs[1].1, vec![None, Some("explicit".to_string()), None]);
}

#[test]
fn empty_writer_has_no_rows() {
    let w = Writer::new();
    assert_eq!(w.len(), 0);
    let b = w.finish();
    assert!(b.timestamps.is_empty());
    assert!(b.attrs.is_empty());
}

#[test]
fn attribute_columns_in_key_order() {
    let mut w = Writer::new();
    w.append(&Event::parse("kew[1]count#a=1 zeta=1").unwrap());
    w.append(&Event::parse("kew[2]count#a=1 alpha=2 mid=3").unwrap());
    let b = w.finish();
    let names: Vec<&str> = b.attrs.iter().map(|(n, _)| n.as_str()).collect();
    assert_eq!(names, vec!["attr_alpha", "attr_mid", "attr_zeta"]);
    assert_eq!(b.attrs[2].1, vec![Some("1".to_string()), None]);
}

#[test]
fn the_table_of_many_events() {
    let lines = vec![
        "kew[1]count#push=1 queue_name=q".to_string(),
        "noise".to_string(),
        "kew[2]count#pop=1 reason=explicit".to_string(),
        "kew[3]gauge#depth=2 reason=wrap queue_name=r".to_string(),
    ];
    let events = kew::parser::parse(&lines);
    let b = Writer::from_events(&events).finish();
    assert_eq!(b.timestamps, vec![1, 2, 3]);
    assert_eq!(b.attrs.len(), 2);
    assert_eq!(b.attrs[0].0, "attr_queue_name");
    assert_eq!(b.attrs[0].1, vec![Some("q".to_string()), None, Some("r".to_string())]);
    assert_eq!(b.attrs[1].0, "attr_reason");
    assert_eq!(b.attrs[1].1, vec![None, Some("explicit".to_string()), Some("wrap".to_string())]);
}
