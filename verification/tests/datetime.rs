use simple_smtp::message::DateTime;
use simple_smtp::message::TimeZone;

#[test]
fn date_formatting() {
    let d = DateTime::from_local(2025, 12, 7, 12, 30, 0, TimeZone::plus(1, 0).unwrap()).unwrap();
    assert!(d.to_string().contains("Dec 2025"));
    assert!(d.to_string().contains("12:30:00"));
    assert!(d.to_string().contains("+0100"));

    let utc = DateTime::from_utc(2025, 12, 7, 12, 0, 0).unwrap();
    assert!(utc.to_string().contains("+0000"));
}

#[test]
fn date_formatting_in_full() {
    let d = DateTime::from_local(2025, 12, 7, 12, 30, 0, TimeZone::plus(1, 0).unwrap()).unwrap();
    assert_eq!(d.to_string(), "Sun, 07 Dec 2025 12:30:00 +0100");
    let d = DateTime::from_utc(1999, 2, 28, 23, 59, 59).unwrap();
    assert_eq!(d.to_string(), "Sun, 28 Feb 1999 23:59:59 +0000");
    let d = DateTime::from_utc(2024, 2, 29, 0, 0, 0).unwrap();
    assert_eq!(d.to_string(), "Thu, 29 Feb 2024 00:00:00 +0000");
}

#[test]
fn date_formatting_of_far_years() {
    let d = DateTime::from_utc(476, 9, 4, 1, 2, 3).unwrap();
    assert!(d.to_string().ends_with(", 04 Sep 0476 01:02:03 +0000"));
    assert_eq!(d.to_string().len(), 31);
    let d = DateTime::from_utc(12345, 1, 1, 0, 0, 0).unwrap();
    assert!(d.to_string().contains(" Jan 12345 00:00:00 +0000"));
    let d = DateTime::from_utc(-5, 1, 1, 0, 0, 0).unwrap();
    assert!(d.to_string().contains(" Jan -005 00:00:00 +0000"));
}

#[test]
fn date_invalid_returns_none() {
    assert!(DateTime::from_utc(2025, 13, 1, 0, 0, 0).is_none());
    assert!(DateTime::from_utc(2025, 2, 30, 0, 0, 0).is_none());
}

#[test]
fn date_invalid_time_returns_none() {
    assert!(DateTime::from_utc(2025, 1, 1, 24, 0, 0).is_none());
    assert!(DateTime::from_utc(2025, 1, 1, 0, 60, 0).is_none());
    assert!(DateTime::from_utc(2025, 1, 1, 0, 0, 60).is_none());
    assert!(DateTime::from_utc(2025, 0, 1, 0, 0, 0).is_none());
    assert!(DateTime::from_utc(2025, 1, 0, 0, 0, 0).is_none());
    assert!(DateTime::from_utc(2023, 2, 29, 0, 0, 0).is_none());
    assert!(DateTime::from_local(2025, 4, 31, 0, 0, 0, TimeZone::minus(3, 0).unwrap()).is_none());
}

#[test]
fn date_beyond_the_calendar_returns_none() {
    assert!(DateTime::from_timestamp(i64::MAX).is_none());
    assert!(DateTime::from_timestamp(i64::MIN).is_none());
    assert!(DateTime::from_timestamp_millis(i64::MAX).is_none());
    assert!(DateTime::from_utc(i32::MAX, 1, 1, 0, 0, 0).is_none());
}

#[test]
fn from_local_creates_time_in_zone() {
    let date = DateTime::from_local(2025, 12, 7, 12, 0, 0, TimeZone::plus(5, 0).unwrap()).unwrap();
    assert!(date.to_string().contains("12:00:00 +0500"));
}

#[test]
fn date_from_timestamp() {
    let d = DateTime::from_timestamp(1735689600).unwrap();
    assert!(d.to_string().contains("Jan 2025"));
    assert!(d.to_string().contains("+0000"));

    let d = DateTime::from_timestamp_millis(1_735_689_600_123).unwrap();
    assert!(d.to_string().contains("Jan 2025"));
}

#[test]
fn date_from_timestamp_before_1970() {
    let d = DateTime::from_timestamp(-1).unwrap();
    assert_eq!(d.to_string(), "Wed, 31 Dec 1969 23:59:59 +0000");
    let d = DateTime::from_timestamp_millis(-1).unwrap();
    assert_eq!(d.to_string(), "Wed, 31 Dec 1969 23:59:59 +0000");
    assert_ne!(d, DateTime::from_timestamp(-1).unwrap());
    let d = DateTime::from_timestamp_millis(-1000).unwrap();
    assert_eq!(d, DateTime::from_timestamp(-1).unwrap());
    let d = DateTime::from_timestamp(0).unwrap();
    assert_eq!(d.to_string(), "Thu, 01 Jan 1970 00:00:00 +0000");
}

#[test]
fn offset_formatting() {
    let test_cases: &[(u32, u32, bool, &str)] = &[
        (0, 0, true, "+0000"),
        (1, 0, true, "+0100"),
        (5, 30, true, "+0530"),
        (12, 0, true, "+1200"),
        (1, 0, false, "-0100"),
        (5, 30, false, "-0530"),
        (12, 0, false, "-1200"),
        (9, 5, true, "+0905"),
    ];

    for (hour, minute, is_plus, expected) in test_cases {
        let zone = if *is_plus {
            TimeZone::plus(*hour, *minute).unwrap()
        } else {
            TimeZone::minus(*hour, *minute).unwrap()
        };
        let d = DateTime::from_local(2025, 1, 1, 12, 0, 0, zone).unwrap();
        let formatted = d.to_string();
        let offset_part = &formatted[formatted.len() - 5..];
        assert_eq!(
            offset_part,
            *expected,
            "Offset mismatch for UTC{}{:02}:{:02}",
            if *is_plus { "+" } else { "-" },
            hour,
            minute
        );
    }
}

#[test]
fn zone_creation() {
    let zone_plus = TimeZone::plus(1, 30).unwrap();
    let date_plus = DateTime::from_local(2025, 1, 1, 12, 0, 0, zone_plus).unwrap();
    assert!(date_plus.to_string().ends_with("+0130"), "TimeZone::plus should create positive offset");

    let zone_minus = TimeZone::minus(1, 30).unwrap();
    let date_minus = DateTime::from_local(2025, 1, 1, 12, 0, 0, zone_minus).unwrap();
    assert!(
        date_minus.to_string().ends_with("-0130"),
        "TimeZone::minus should create negative offset"
    );

    let zone_utc = TimeZone::utc();
    let date_utc = DateTime::from_local(2025, 1, 1, 12, 0, 0, zone_utc).unwrap();
    assert!(date_utc.to_string().ends_with("+0000"), "TimeZone::utc should create UTC offset");
}

#[test]
fn zone_bounds() {
    assert!(TimeZone::plus(12, 59).is_some());
    assert!(TimeZone::plus(13, 0).is_none());
    assert!(TimeZone::plus(0, 60).is_none());
    assert!(TimeZone::minus(12, 59).is_some());
    assert!(TimeZone::minus(13, 0).is_none());
    assert!(TimeZone::minus(0, 60).is_none());
    assert_eq!(TimeZone::plus(12, 59).unwrap().offset_seconds(), 46740);
    assert_eq!(TimeZone::minus(12, 59).unwrap().offset_seconds(), -46740);
    assert_eq!(TimeZone::plus(5, 30).unwrap().offset_minutes(), Some(330));
    assert_eq!(TimeZone::minus(5, 30).unwrap().offset_minutes(), Some(-330));
}

#[test]
fn zone_west_of_nothing_is_undefined() {
    assert_eq!(TimeZone::minus(0, 0).unwrap(), TimeZone::undefined());
    assert_ne!(TimeZone::plus(0, 0).unwrap(), TimeZone::undefined());
    assert_eq!(TimeZone::plus(0, 0).unwrap(), TimeZone::utc());
    assert_eq!(TimeZone::undefined().offset_minutes(), None);
    assert_eq!(TimeZone::undefined().offset_seconds(), 0);
    assert_eq!(TimeZone::utc().offset_minutes(), Some(0));
}

#[test]
fn to_zone_converts_time() {
    let utc = DateTime::from_utc(2025, 1, 1, 12, 0, 0).unwrap();

    let cet = utc.to_zone(TimeZone::plus(1, 0).unwrap()).unwrap();
    assert!(cet.to_string().contains("13:00:00 +0100"));

    let est = utc.to_zone(TimeZone::minus(5, 0).unwrap()).unwrap();
    assert!(est.to_string().contains("07:00:00 -0500"));

    let ist = utc.to_zone(TimeZone::plus(5, 30).unwrap()).unwrap();
    assert!(ist.to_string().contains("17:30:00 +0530"));
}

#[test]
fn from_local_vs_to_zone() {
    let from_local =
        DateTime::from_local(2025, 1, 1, 12, 0, 0, TimeZone::plus(1, 0).unwrap()).unwrap();
    assert!(from_local.to_string().contains("12:00:00 +0100"));

    let utc = DateTime::from_utc(2025, 1, 1, 12, 0, 0).unwrap();
    let to_zone = utc.to_zone(TimeZone::plus(1, 0).unwrap()).unwrap();
    assert!(to_zone.to_string().contains("13:00:00 +0100"));

    assert_ne!(from_local, to_zone);
}

#[test]
fn to_zone_round_trip() {
    let original = DateTime::from_utc(2025, 1, 1, 12, 0, 0).unwrap();
    let converted = original.to_zone(TimeZone::plus(5, 0).unwrap()).unwrap();
    let back = converted.to_zone(TimeZone::utc()).unwrap();
    assert!(back.to_string().contains("12:00:00 +0000"), "Round trip should restore original time");
    assert_eq!(back, original);
}

#[test]
fn known_timestamp_conversions() {
    #[allow(clippy::type_complexity)]
    let test_cases: &[(i32, u32, u32, u32, u32, i32, i32, &str)] = &[
        (2025, 1, 1, 12, 0, 0, 0, "Wed, 01 Jan 2025 12:00:00 +0000"),
        (2025, 1, 1, 12, 0, -5, 0, "Wed, 01 Jan 2025 07:00:00 -0500"),
        (2025, 1, 1, 12, 0, -8, 0, "Wed, 01 Jan 2025 04:00:00 -0800"),
        (2025, 1, 1, 12, 0, 1, 0, "Wed, 01 Jan 2025 13:00:00 +0100"),
        (2025, 1, 1, 12, 0, 5, 30, "Wed, 01 Jan 2025 17:30:00 +0530"),
        (2025, 1, 1, 12, 0, 9, 0, "Wed, 01 Jan 2025 21:00:00 +0900"),
        (2025, 1, 1, 2, 0, -8, 0, "Tue, 31 Dec 2024 18:00:00 -0800"),
        (2025, 1, 1, 2, 0, 9, 0, "Wed, 01 Jan 2025 11:00:00 +0900"),
        (2025, 1, 1, 12, 0, -5, 0, "07:00:00 -0500"),
        (2025, 1, 1, 12, 0, 5, 30, "17:30:00 +0530"),
    ];

    for (year, month, day, hour, min, tz_hour, tz_min, expected) in test_cases {
        let utc = DateTime::from_utc(*year, *month, *day, *hour, *min, 0).unwrap();
        let zone = if *tz_hour >= 0 {
            TimeZone::plus(*tz_hour as u32, *tz_min as u32).unwrap()
        } else {
            TimeZone::minus((-*tz_hour) as u32, *tz_min as u32).unwrap()
        };
        let converted = utc.to_zone(zone).unwrap();
        let formatted = converted.to_string();

        assert!(
            formatted.contains(*expected),
            "Conversion mismatch for {}-{:02}-{:02} {:02}:{:02} UTC to UTC{:+02}:{:02}, expected {} but got: {}",
            year,
            month,
            day,
            hour,
            min,
            tz_hour,
            tz_min,
            expected,
            formatted
        );
    }

    let utc = DateTime::from_timestamp(1_735_732_800).unwrap();
    assert!(utc.to_string().contains("Wed, 01 Jan 2025 12:00:00 +0000"));
}

#[test]
fn none_timezone_displays_as_minus_zero() {
    let undefined_zone = TimeZone::undefined();
    let date = DateTime::from_local(2025, 1, 1, 12, 0, 0, undefined_zone).unwrap();
    let formatted = date.to_string();

    assert!(
        formatted.ends_with("-0000"),
        "None timezone should display as -0000, got: {}",
        formatted
    );

    let utc = DateTime::from_utc(2025, 1, 1, 12, 0, 0).unwrap();
    let converted = utc.to_zone(undefined_zone).unwrap();
    assert!(
        converted.to_string().ends_with("-0000"),
        "to_zone with None timezone should display as -0000"
    );
    assert_eq!(converted.to_string(), "Wed, 01 Jan 2025 12:00:00 -0000");
}

#[test]
fn now_is_in_the_calendar() {
    let now = DateTime::now_utc();
    assert!(now.to_string().ends_with("+0000"));
    assert_eq!(now.to_string().len(), 31);
    let local = DateTime::now_local(TimeZone::minus(8, 0).unwrap()).unwrap();
    assert!(local.to_string().ends_with("-0800"));
}

#[test]
fn now_local_at_no_distance_from_utc() {
    let utc = DateTime::now_local(TimeZone::utc()).expect("the calendar holds the present");
    assert!(utc.to_string().ends_with(" +0000"));
    let unknown = DateTime::now_local(TimeZone::undefined()).expect("and in no zone, too");
    assert!(unknown.to_string().ends_with(" -0000"));
    let east = DateTime::now_local(TimeZone::plus(5, 30).unwrap()).unwrap();
    assert!(east.to_string().ends_with(" +0530"));
    let back = east.to_zone(TimeZone::utc()).unwrap();
    assert!(back.to_string().ends_with(" +0000"));
}
