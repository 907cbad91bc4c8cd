use kew::output::Output;

#[test]
fn keeps_the_text_and_the_metrics() {
    let mut o = Output::new();
    o.write("kew[5]count#push=1 queue_name=q");
    o.write("not a metric");
    o.write("kew[6]gauge#depth=3");
    assert_eq!(o.rows(), 2);
    let (batch, hash) = o.finish();
    let text = "kew[5]count#push=1 queue_name=qnot a metrickew[6]gauge#depth=3";
    assert_eq!(hash, blake3::hash(text.as_bytes()).to_hex().to_string());
    assert_eq!(batch.timestamps, vec![5, 6]);
    assert_eq!(batch.attrs.len(), 1);
    assert_eq!(batch.attrs[0].0, "attr_queue_name");
    assert_eq!(batch.attrs[0].1, vec![Some("q".to_string()), None]);
}
