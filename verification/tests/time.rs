use neothesia::time::{Duration, MAX_NANOS};

#[test]
fn spans_count_nanoseconds() {
    assert_eq!(Duration::zero().as_nanos(), 0);
    assert_eq!(Duration::from_secs(3).as_nanos(), 3_000_000_000);
    assert_eq!(Duration::from_millis(20).as_nanos(), 20_000_000);
    assert_eq!(Duration::new(2, 5).as_nanos(), 2_000_000_005);
    assert_eq!(Duration::from_nanos(7).as_nanos(), 7);
}

#[test]
fn spans_come_apart_into_seconds_and_nanoseconds() {
    let span = Duration::from_millis(1_234);
    assert_eq!(span.as_secs(), 1);
    assert_eq!(span.subsec_nanos(), 234_000_000);
}

#[test]
fn the_longest_span_is_that_of_std() {
    let longest = std::time::Duration::MAX;
    let span = Duration::new(longest.as_secs(), longest.subsec_nanos());
    assert_eq!(span.as_nanos(), MAX_NANOS);
    assert_eq!(span.as_nanos(), longest.as_nanos());
}

#[test]
fn sums_and_differences() {
    let a = Duration::from_millis(500);
    let b = Duration::from_millis(700);
    assert_eq!(a.plus(b), Duration::from_millis(1_200));
    assert_eq!(b.saturating_sub(a), Duration::from_millis(200));
    assert_eq!(a.saturating_sub(b), Duration::zero());
    assert_eq!(a.checked_add(b), Some(Duration::from_millis(1_200)));
}

#[test]
fn sums_beyond_the_longest_span() {
    let longest = Duration::from_nanos(MAX_NANOS);
    let one = Duration::from_nanos(1);
    assert_eq!(longest.checked_add(one), None);
    assert_eq!(longest.saturating_add(one), longest);
    assert_eq!(longest.saturating_add(Duration::zero()), longest);
}
