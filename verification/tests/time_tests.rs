use xdevs::time::{advance, elapsed, min_time, INFINITY};

#[test]
fn advance_adds_delay() {
    assert_eq!(advance(3, 4), 7);
    assert_eq!(advance(0, 0), 0);
}

#[test]
fn advance_saturates_at_infinity() {
    assert_eq!(advance(5, INFINITY), INFINITY);
    assert_eq!(advance(INFINITY, 1), INFINITY);
    assert_eq!(advance(u64::MAX - 1, 1), INFINITY);
}

#[test]
fn elapsed_measures_distance() {
    assert_eq!(elapsed(3, 10), 7);
    assert_eq!(elapsed(10, 3), 0);
    assert_eq!(elapsed(4, 4), 0);
    assert_eq!(elapsed(4, INFINITY), INFINITY);
}

#[test]
fn min_time_picks_earlier() {
    assert_eq!(min_time(3, 10), 3);
    assert_eq!(min_time(INFINITY, 10), 10);
    assert_eq!(min_time(INFINITY, INFINITY), INFINITY);
}
