use kew::parser::{format_line, parse, Attrs, Data, Event, Kind};

#[test]
fn parses_a_measure_line() {
    let line = "kew[1500]measure#sojourn_time=2000ns reason=explicit queue_name=fifo";
    let e = Event::parse(line).unwrap();
    assert_eq!(e.timestamp, 1500);
    assert_eq!(e.kind, Kind::Measure);
    assert_eq!(e.data.name, "sojourn_time");
    assert_eq!(e.data.value, 2000);
    assert_eq!(e.data.unit, "ns");
    let attrs = e.attrs.as_slice();
    assert_eq!(attrs, &[("queue_name", "fifo"), ("reason", "explicit")]);
}

#[test]
fn parses_a_count_without_attrs() {
    let e = Event::parse("kew[7]count#push=1").unwrap();
    assert_eq!(e.kind, Kind::Count);
    assert_eq!(e.data.name, "push");
    assert_eq!(e.data.value, 1);
    assert_eq!(e.data.unit, "");
    assert_eq!(e.attrs.len(), 0);
}

#[test]
fn whitespace_around_timestamp_and_name() {
    let e = Event::parse("kew[42 ]  gauge#depth \t=  5 x=1").unwrap();
    assert!(Event::parse("kew[ 42]gauge#depth=5").is_none());
    assert_eq!(e.timestamp, 42);
    assert_eq!(e.kind, Kind::Gauge);
    assert_eq!(e.data.name, "depth");
    assert_eq!(e.data.value, 5);
    assert_eq!(e.attrs.as_slice(), &[("x", "1")]);
}

#[test]
fn rejects_malformed_lines() {
    assert!(Event::parse("").is_none());
    assert!(Event::parse("hello").is_none());
    assert!(Event::parse("kew[12count#a=1").is_none());
    assert!(Event::parse("kew[x]count#a=1").is_none());
    assert!(Event::parse("kew[1]timer#a=1").is_none());
    assert!(Event::parse("kew[1]count#a").is_none());
    assert!(Event::parse("kew[1]count#a=ms").is_none());
    assert!(Event::parse("kew[18446744073709551616]count#a=1").is_none());
    assert!(Event::parse("kew[1]count#a=18446744073709551616").is_none());
}

#[test]
fn accepts_plus_and_largest_timestamp() {
    let e = Event::parse("kew[+18446744073709551615]count#a=0").unwrap();
    assert_eq!(e.timestamp, u64::MAX);
    assert_eq!(e.data.value, 0);
}

#[test]
fn attrs_sorted_first_value_kept() {
    let a = Attrs::parse("b=2 a=1 junk b=3 c= =z").unwrap();
    assert_eq!(a.as_slice(), &[("", "z"), ("a", "1"), ("b", "2"), ("c", "")]);
}

#[test]
fn data_splits_value_and_unit() {
    let (d, rest) = Data::parse("latency = 12ms tail text").unwrap();
    assert_eq!(d.name, "latency");
    assert_eq!(d.value, 12);
    assert_eq!(d.unit, "ms");
    assert_eq!(rest, "tail text");
}

#[test]
fn kind_names() {
    assert_eq!(Kind::Count.as_str(), "count");
    assert_eq!(Kind::Gauge.as_str(), "gauge");
    assert_eq!(Kind::Measure.as_str(), "measure");
}

#[test]
fn parse_lines_skips_others() {
    let lines = vec![
        "noise".to_string(),
        "kew[1]count#push=1 queue_name=q".to_string(),
        "".to_string(),
        "kew[2]gauge#len=3".to_string(),
    ];
    let events = parse(&lines);
    assert_eq!(events.len(), 2);
    assert_eq!(events[0].timestamp, 1);
    assert_eq!(events[1].data.name, "len");
}

#[test]
fn written_line_reads_back() {
    let e = Event::parse("kew[99]measure#sojourn_time=12ns queue_name=q reason=wrap").unwrap();
    let line = e.to_line();
    assert_eq!(line, "kew[99]measure#sojourn_time=12ns queue_name=q reason=wrap");
    let back = Event::parse(&line).unwrap();
    assert_eq!(back.timestamp, 99);
    assert_eq!(back.data.value, 12);
    assert_eq!(back.attrs.as_slice(), e.attrs.as_slice());
}

#[test]
fn written_line_with_unsorted_keys_reads_back_sorted() {
    let line = format_line(7, Kind::Measure, "sojourn_time", 5, "ns", &[("zeta", "1"), ("alpha", "2"), ("mid", "3")]);
    assert_eq!(line, "kew[7]measure#sojourn_time=5ns zeta=1 alpha=2 mid=3");
    let e = Event::parse(&line).unwrap();
    assert_eq!(e.timestamp, 7);
    assert_eq!(e.kind, Kind::Measure);
    assert_eq!(e.data.name, "sojourn_time");
    assert_eq!(e.data.value, 5);
    assert_eq!(e.data.unit, "ns");
    assert_eq!(e.attrs.as_slice(), &[("alpha", "2"), ("mid", "3"), ("zeta", "1")]);
}

#[test]
fn whitespace_is_the_white_space_property() {
    for c in (0u32..=0x10FFFF).filter_map(char::from_u32) {
        assert_eq!(kew::text::is_whitespace(c), c.is_whitespace(), "{c:?}");
    }
}
