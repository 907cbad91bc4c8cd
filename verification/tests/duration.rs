use core::time::Duration;
use kew::duration::{weighted_average, LiteralDuration};

#[test]
fn literal_durations() {
    assert_eq!(3u64.s(), Duration::from_secs(3));
    assert_eq!(5u64.ms(), Duration::from_millis(5));
    assert_eq!(7u64.us(), Duration::from_micros(7));
    assert_eq!(9u64.ns(), Duration::from_nanos(9));
    assert_eq!(2u64.s().as_nanos(), 2_000_000_000);
}

#[test]
fn weighted_average_divides_first() {
    let a = Duration::from_nanos(1000);
    let b = Duration::from_nanos(2000);
    // 1000 / 4 * 3 + 2000 / 4
    assert_eq!(weighted_average(a, b, 4), Duration::from_nanos(1250));
    // weight one keeps only the new value
    assert_eq!(weighted_average(a, b, 1), Duration::from_nanos(2000));
    // integer division drops remainders
    assert_eq!(weighted_average(Duration::from_nanos(10), Duration::from_nanos(10), 3), Duration::from_nanos(9));
}

#[test]
fn dividing_first_never_overestimates() {
    let r = weighted_average(Duration::from_nanos(1000), Duration::from_nanos(2000), 3);
    assert_eq!(r, Duration::from_nanos(1332));
    assert!(r.as_nanos() * 3 <= 1000 * 2 + 2000);
}
