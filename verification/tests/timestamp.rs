use clockrust::timestamp::{Timestamp, MAX_SECS, MIN_SECS};

#[test]
fn the_range_is_the_calendar_of_chrono() {
    assert_eq!(MIN_SECS, chrono::DateTime::<chrono::Utc>::MIN_UTC.timestamp());
    assert_eq!(MAX_SECS, chrono::DateTime::<chrono::Utc>::MAX_UTC.timestamp());
    assert!(chrono::DateTime::from_timestamp(MIN_SECS, 0).is_some());
    assert!(chrono::DateTime::from_timestamp(MIN_SECS - 1, 0).is_none());
    assert!(chrono::DateTime::from_timestamp(MAX_SECS, 1_999_999_999).is_some());
    assert!(chrono::DateTime::from_timestamp(MAX_SECS + 1, 0).is_none());
    for (secs, nanos) in [(0, 1_000_000_000), (59, 1_000_000_000), (-1, 1_999_999_999), (-2, 1_000_000_000), (7, 2_000_000_000)] {
        assert_eq!(
            Timestamp::new(secs, nanos).is_some(),
            chrono::DateTime::from_timestamp(secs, nanos).is_some()
        );
    }
}

#[test]
fn new_takes_the_instants_of_the_calendar() {
    assert!(Timestamp::new(0, 0).is_some());
    assert!(Timestamp::new(MIN_SECS, 0).is_some());
    assert!(Timestamp::new(MAX_SECS, 999_999_999).is_some());
    assert!(Timestamp::new(MIN_SECS - 1, 0).is_none());
    assert!(Timestamp::new(MAX_SECS + 1, 0).is_none());
    assert!(Timestamp::new(i64::MIN, 0).is_none());
    assert!(Timestamp::new(i64::MAX, 0).is_none());
    assert!(Timestamp::new(0, 2_000_000_000).is_none());
    assert!(Timestamp::new(0, u32::MAX).is_none());
    let t = Timestamp::new(1643648428, 974_008_356).unwrap();
    assert_eq!(t.secs(), 1643648428);
    assert_eq!(t.nanos(), 974_008_356);
}

#[test]
fn new_takes_a_leap_second_only_at_the_end_of_a_minute() {
    assert!(Timestamp::new(1483228799, 1_000_000_000).is_some());
    assert!(Timestamp::new(1483228799, 1_999_999_999).is_some());
    assert!(Timestamp::new(1483228798, 1_000_000_000).is_none());
    assert!(Timestamp::new(0, 1_000_000_000).is_none());
    assert!(Timestamp::new(59, 1_500_000_000).is_some());
    assert!(Timestamp::new(-1, 1_500_000_000).is_some());
    assert!(Timestamp::new(-2, 1_500_000_000).is_none());
    assert!(Timestamp::new(-61, 1_000_000_000).is_some());
    assert!(Timestamp::new(MIN_SECS + 59, 1_000_000_000).is_some());
    assert!(Timestamp::new(MIN_SECS, 1_000_000_000).is_none());
}

#[test]
fn rfc3339_text_of_an_instant() {
    assert_eq!(Timestamp::new(0, 0).unwrap().to_rfc3339(), "1970-01-01T00:00:00+00:00");
    assert_eq!(
        Timestamp::new(1643648428, 974_008_356).unwrap().to_rfc3339(),
        "2022-01-31T17:00:28.974008356+00:00"
    );
    assert_eq!(
        Timestamp::new(1640031749, 520_000_000).unwrap().to_rfc3339(),
        "2021-12-20T20:22:29.520+00:00"
    );
    assert_eq!(
        Timestamp::new(-62_167_219_200, 0).unwrap().to_rfc3339(),
        "0000-01-01T00:00:00+00:00"
    );
    assert_eq!(
        Timestamp::new(253_402_300_799, 999_999_999).unwrap().to_rfc3339(),
        "9999-12-31T23:59:59.999999999+00:00"
    );
    assert_eq!(Timestamp::new(MIN_SECS, 0).unwrap().to_rfc3339(), "-262143-01-01T00:00:00+00:00");
    assert_eq!(
        Timestamp::new(MAX_SECS, 999_999_999).unwrap().to_rfc3339(),
        "+262142-12-31T23:59:59.999999999+00:00"
    );
    assert_eq!(
        Timestamp::new(1483228799, 1_000_000_000).unwrap().to_rfc3339(),
        "2016-12-31T23:59:60+00:00"
    );
}

#[test]
fn reading_an_rfc3339_text() {
    let t = Timestamp::parse_from_rfc3339("2022-01-31T17:00:28.974008356+00:00").ok().unwrap();
    assert_eq!((t.secs(), t.nanos()), (1643648428, 974_008_356));
    let t = Timestamp::parse_from_rfc3339("2022-01-31T12:00:28-05:00").ok().unwrap();
    assert_eq!((t.secs(), t.nanos()), (1643648428, 0));
    let t = Timestamp::parse_from_rfc3339("2016-12-31T23:59:60Z").ok().unwrap();
    assert_eq!((t.secs(), t.nanos()), (1483228799, 1_000_000_000));
    assert_eq!(
        Timestamp::parse_from_rfc3339("not-a-date").err().unwrap(),
        "premature end of input"
    );
    assert_eq!(Timestamp::parse_from_rfc3339("").err().unwrap(), "premature end of input");
    assert_eq!(
        Timestamp::parse_from_rfc3339("2022-01-31T25:00:28Z").err().unwrap(),
        "input is out of range"
    );
    let t = Timestamp::parse_from_rfc3339("0000-01-01T00:00:00+00:01").ok().unwrap();
    assert_eq!((t.secs(), t.nanos()), (-62_167_219_200 - 60, 0));
    t.check_range();
}

#[test]
fn reading_undoes_writing() {
    for (secs, nanos) in [
        (0, 0),
        (1643648428, 974_008_356),
        (-62_167_219_200, 1),
        (253_402_300_799, 999_999_999),
        (-1, 500),
    ] {
        let t = Timestamp::new(secs, nanos).unwrap();
        let back = Timestamp::parse_from_rfc3339(&t.to_rfc3339()).ok().unwrap();
        assert_eq!((back.secs(), back.nanos()), (secs, nanos));
    }
}

#[test]
fn order_of_instants() {
    let a = Timestamp::new(100, 5).unwrap();
    let b = Timestamp::new(100, 6).unwrap();
    let c = Timestamp::new(101, 0).unwrap();
    let d = Timestamp::new(-5, 999_999_999).unwrap();
    assert!(a.is_at_or_before(&a));
    assert!(a.is_at_or_before(&b));
    assert!(!b.is_at_or_before(&a));
    assert!(b.is_at_or_before(&c));
    assert!(!c.is_at_or_before(&b));
    assert!(d.is_at_or_before(&a));
    assert!(!a.is_at_or_before(&d));
}
