use remin::timestamp::{now_millis, TimeStamp, MAX_SECS, MIN_SECS};

#[test]
fn microseconds_survive_a_round_trip() {
    for micros in [0, 1, -1, 999_999, -999_999, 1_700_000_000_123_456, -1_000_000] {
        assert_eq!(TimeStamp::from_raw(micros).raw(), micros);
    }
    assert_eq!(TimeStamp::from_raw(MIN_SECS * 1_000_000).raw(), MIN_SECS * 1_000_000);
    let last = MAX_SECS * 1_000_000 + 999_999;
    assert_eq!(TimeStamp::from_raw(last).raw(), last);
}

#[test]
fn what_no_date_can_name_becomes_the_last_instant() {
    let last = MAX_SECS * 1_000_000 + 999_999;
    assert_eq!(last, 8_210_266_876_799_999_999);
    for micros in [last + 1, i64::MAX, MIN_SECS * 1_000_000 - 1, i64::MIN] {
        assert_eq!(TimeStamp::from_raw(micros).raw(), last);
    }
}

#[test]
fn the_range_is_the_one_of_calendar_dates() {
    let first = chrono::DateTime::<chrono::Utc>::MIN_UTC;
    let last = chrono::DateTime::<chrono::Utc>::MAX_UTC;
    assert_eq!(first.timestamp(), MIN_SECS);
    assert_eq!(last.timestamp(), MAX_SECS);
    assert_eq!(last.timestamp_subsec_nanos(), 999_999_999);
}

#[test]
fn time_passes_in_whole_microseconds() {
    let start = TimeStamp::from_raw(1_000_000);
    assert_eq!(start.micros_until(&TimeStamp::from_raw(1_000_007)), 7);
    assert_eq!(start.micros_until(&TimeStamp::from_raw(999_990)), -10);
    assert_eq!(start.micros_until(&TimeStamp::from_raw(-5)), -1_000_005);
    let first = TimeStamp::from_raw(MIN_SECS * 1_000_000);
    // from the first instant to the last one are more microseconds than can be counted
    assert_eq!(first.micros_until(&TimeStamp::from_raw(i64::MAX)), i64::MAX);
    assert_eq!(TimeStamp::from_raw(i64::MAX).micros_until(&first), i64::MAX);
}

#[test]
fn the_clock_moves_on() {
    let start = TimeStamp::now();
    // the year 2020
    assert!(start.raw() > 1_577_836_800_000_000);
    assert!(start.micros_since() >= 0);
    assert!(now_millis() >= start.raw() / 1000);
    let earlier = TimeStamp::from_raw(start.raw() - 5_000_000);
    assert!(earlier.micros_since() >= 5_000_000);
}

#[test]
fn the_clock_is_read_in_seconds_and_nanoseconds() {
    let at = TimeStamp::from_clock(1_700_000_000, 123_456_789);
    assert_eq!(at.raw(), 1_700_000_000_123_456);
    assert_eq!(at.millis(), 1_700_000_000_123);
    assert_eq!(TimeStamp::from_clock(0, 0).millis(), 0);
    assert_eq!(TimeStamp::from_clock(-1, 999_999_999).millis(), -1);
    assert_eq!(TimeStamp::from_clock(MAX_SECS, 999_999_999).millis(), MAX_SECS * 1000 + 999);
}
