use marchive::format::{duration_from_string, duration_to_string, Duration, DurationError};

#[test]
fn duration_to_string_below_a_second() {
    assert_eq!(duration_to_string(&Duration { secs: 0, nanos: 0 }), "0ms");
    assert_eq!(duration_to_string(&Duration { secs: 0, nanos: 999_999 }), "0ms");
    assert_eq!(duration_to_string(&Duration { secs: 0, nanos: 1_000_000 }), "1ms");
    assert_eq!(duration_to_string(&Duration { secs: 0, nanos: 999_999_999 }), "999ms");
}

#[test]
fn duration_to_string_starts_at_the_largest_unit() {
    assert_eq!(duration_to_string(&Duration { secs: 1, nanos: 0 }), "1s");
    assert_eq!(duration_to_string(&Duration { secs: 59, nanos: 999_999_999 }), "59s");
    assert_eq!(duration_to_string(&Duration { secs: 60, nanos: 0 }), "1m:00s");
    assert_eq!(duration_to_string(&Duration { secs: 61, nanos: 0 }), "1m:01s");
    assert_eq!(duration_to_string(&Duration { secs: 3_599, nanos: 0 }), "59m:59s");
    assert_eq!(duration_to_string(&Duration { secs: 3_600, nanos: 0 }), "1h:00m:00s");
    assert_eq!(duration_to_string(&Duration { secs: 3_725, nanos: 0 }), "1h:02m:05s");
    assert_eq!(duration_to_string(&Duration { secs: 86_400, nanos: 0 }), "1d:00h:00m:00s");
    assert_eq!(duration_to_string(&Duration { secs: 90_061, nanos: 5 }), "1d:01h:01m:01s");
    assert_eq!(
        duration_to_string(&Duration { secs: 1_000_000, nanos: 0 }),
        "11d:13h:46m:40s"
    );
}

#[test]
fn duration_to_string_agrees_with_the_clock_of_std() {
    for secs in [1u64, 59, 60, 3_599, 3_600, 86_399, 86_400, 172_800 + 7_200 + 180 + 4] {
        let days = secs / 86_400;
        let hours = secs % 86_400 / 3_600;
        let minutes = secs % 3_600 / 60;
        let seconds = secs % 60;
        let expected = match (days, hours, minutes, seconds) {
            (0, 0, 0, s) => format!("{s}s"),
            (0, 0, m, s) => format!("{m}m:{s:0>2}s"),
            (0, h, m, s) => format!("{h}h:{m:0>2}m:{s:0>2}s"),
            (d, h, m, s) => format!("{d}d:{h:0>2}h:{m:0>2}m:{s:0>2}s"),
        };
        assert_eq!(duration_to_string(&Duration { secs, nanos: 0 }), expected);
    }
}

#[test]
fn duration_from_string_reads_each_unit() {
    assert_eq!(duration_from_string(""), Ok(Duration { secs: 0, nanos: 0 }));
    assert_eq!(duration_from_string("5"), Ok(Duration { secs: 5, nanos: 0 }));
    assert_eq!(duration_from_string("5s"), Ok(Duration { secs: 5, nanos: 0 }));
    assert_eq!(duration_from_string("5S"), Ok(Duration { secs: 5, nanos: 0 }));
    assert_eq!(duration_from_string("2m"), Ok(Duration { secs: 120, nanos: 0 }));
    assert_eq!(duration_from_string("3h"), Ok(Duration { secs: 10_800, nanos: 0 }));
    assert_eq!(duration_from_string("1D"), Ok(Duration { secs: 86_400, nanos: 0 }));
    assert_eq!(
        duration_from_string("1d2h3m4s"),
        Ok(Duration { secs: 86_400 + 7_200 + 180 + 4, nanos: 0 })
    );
    assert_eq!(duration_from_string("1d4"), Ok(Duration { secs: 86_404, nanos: 0 }));
    assert_eq!(duration_from_string("90m"), Ok(Duration { secs: 5_400, nanos: 0 }));
}

#[test]
fn duration_from_string_reads_fractions() {
    assert_eq!(duration_from_string("1.5"), Ok(Duration { secs: 1, nanos: 500_000_000 }));
    assert_eq!(duration_from_string("0.001s"), Ok(Duration { secs: 0, nanos: 1_000_000 }));
    assert_eq!(duration_from_string("2.000000001"), Ok(Duration { secs: 2, nanos: 1 }));
    assert_eq!(
        duration_from_string("2.1234567899"),
        Ok(Duration { secs: 2, nanos: 123_456_789 })
    );
    assert_eq!(
        duration_from_string("1m0.25s"),
        Ok(Duration { secs: 60, nanos: 250_000_000 })
    );
}

#[test]
fn duration_from_string_refuses_other_forms() {
    for text in [
        "s", "d", "1x", "1.s", "1.", ".5", "1s2", "1h1d", "1m1m", "1d1h1m1s1", " 1", "1 ", "-1",
        "1.5m", "1..5", "1s.5", "ms",
    ] {
        assert_eq!(duration_from_string(text), Err(DurationError::InvalidFormat), "{text:?}");
    }
}

#[test]
fn duration_from_string_reports_what_is_too_large() {
    assert_eq!(
        duration_from_string("18446744073709551615"),
        Ok(Duration { secs: u64::MAX, nanos: 0 })
    );
    assert_eq!(duration_from_string("18446744073709551616"), Err(DurationError::TooLarge));
    assert_eq!(duration_from_string("213503982334602d"), Err(DurationError::TooLarge));
    assert_eq!(
        duration_from_string("213503982334601d"),
        Ok(Duration { secs: 213_503_982_334_601 * 86_400, nanos: 0 })
    );
    assert_eq!(
        duration_from_string("18446744073709551615s1"),
        Err(DurationError::InvalidFormat)
    );
    assert_eq!(
        duration_from_string("99999999999999999999999x"),
        Err(DurationError::InvalidFormat)
    );
    assert_eq!(duration_from_string("1m18446744073709551615"), Err(DurationError::TooLarge));
}

#[test]
fn duration_text_goes_both_ways_for_whole_seconds() {
    for secs in [1u64, 42, 600] {
        let span = Duration { secs, nanos: 0 };
        let text = duration_to_string(&span).replace(':', "");
        assert_eq!(duration_from_string(&text), Ok(span));
    }
}

#[test]
fn duration_new_carries_whole_seconds() {
    assert_eq!(Duration::new(1, 2_500_000_000), Duration { secs: 3, nanos: 500_000_000 });
    assert_eq!(Duration::new(0, 999_999_999), Duration { secs: 0, nanos: 999_999_999 });
    assert_eq!(Duration::from_millis(1_250), Duration { secs: 1, nanos: 250_000_000 });
    assert_eq!(Duration::from_secs(9).as_secs(), 9);
    assert_eq!(Duration::from_millis(7).subsec_nanos(), 7_000_000);
    assert_eq!(Duration::new(2, 5).as_nanos(), 2_000_000_005);
}

#[test]
fn duration_arithmetic_saturates() {
    let a = Duration { secs: 2, nanos: 600_000_000 };
    let b = Duration { secs: 1, nanos: 700_000_000 };
    assert_eq!(a.saturating_add(&b), Duration { secs: 4, nanos: 300_000_000 });
    assert_eq!(a.since(&b), Duration { secs: 0, nanos: 900_000_000 });
    assert_eq!(b.since(&a), Duration { secs: 0, nanos: 0 });
    assert_eq!(a.saturating_mul(3), Duration { secs: 7, nanos: 800_000_000 });
    assert_eq!(a.div(4), Duration { secs: 0, nanos: 650_000_000 });
    let longest = Duration { secs: u64::MAX, nanos: 999_999_999 };
    assert_eq!(longest.saturating_add(&b), longest);
    assert_eq!(longest.saturating_mul(2), longest);
    assert_eq!(Duration::from_nanos_saturating(u128::MAX), longest);
    assert_eq!(Duration::from_nanos_saturating(1_000_000_001), Duration { secs: 1, nanos: 1 });
}

#[test]
fn durations_compare_by_length() {
    let a = Duration { secs: 2, nanos: 600_000_000 };
    let b = Duration { secs: 1, nanos: 1_700_000_000 };
    assert!(b.at_least(&a));
    assert!(a.shorter_than(&b));
    assert!(a.at_least(&a));
    assert!(!a.shorter_than(&a));
    assert!(Duration { secs: 0, nanos: 0 }.is_zero());
    assert!(!Duration { secs: 0, nanos: 1 }.is_zero());
}
