use chrono::{TimeZone, Utc};
use paagan::time::{
    format_utc, parse_duration, parse_i64, parse_target_time, to_rfc3339, trim, DurationError,
    Timestamp,
};

#[test]
fn trim_matches_str_trim() {
    for s in ["", "  ", "x", "  x  ", "\t\n x y \r\n", "\u{a0}x\u{3000}", "\u{85}x\u{2028}", "x\u{200b}"] {
        assert_eq!(trim(s), s.trim(), "{:?}", s);
    }
}

#[test]
fn parse_i64_matches_str_parse() {
    for s in [
        "0", "7", "-7", "+7", "", "-", "+", "12a", " 1", "9223372036854775807",
        "9223372036854775808", "-9223372036854775808", "-9223372036854775809", "007", "1_000",
    ] {
        assert_eq!(parse_i64(s), s.parse::<i64>().ok(), "{:?}", s);
    }
}

#[test]
fn duration_values() {
    assert_eq!(parse_duration("7d").unwrap().seconds, 7 * 86400);
    assert_eq!(parse_duration(" 30m ").unwrap().seconds, 30 * 60);
    assert_eq!(parse_duration("-2h").unwrap().seconds, -7200);
    assert_eq!(parse_duration("+1d").unwrap().seconds, 86400);
    assert_eq!(parse_duration(""), Err(DurationError::Invalid));
    assert_eq!(parse_duration("h"), Err(DurationError::Invalid));
    assert_eq!(parse_duration("1.5h"), Err(DurationError::Invalid));
    assert_eq!(parse_duration("7D"), Err(DurationError::Invalid));
    assert_eq!(parse_duration("7 d"), Err(DurationError::Invalid));
}

#[test]
fn instants_order() {
    let a = Timestamp { secs: 10, nanos: 5 };
    let b = Timestamp { secs: 10, nanos: 6 };
    let c = Timestamp { secs: 11, nanos: 0 };
    assert!(a.is_before(&b));
    assert!(b.is_before(&c));
    assert!(a.is_before(&c));
    assert!(!b.is_before(&a));
    assert!(!a.is_before(&a));
}

#[test]
fn printing_instants() {
    let t = Utc.with_ymd_and_hms(2026, 9, 23, 17, 15, 11).unwrap();
    let ts = Timestamp { secs: t.timestamp(), nanos: 0 };
    assert_eq!(format_utc(ts, "%Y%m%dT%H%M%SZ").unwrap(), "20260923T171511Z");
    assert_eq!(format_utc(ts, "%Y-%m-%d %H:%M").unwrap(), "2026-09-23 17:15");
    assert!(format_utc(ts, "%Q").is_none());
    assert_eq!(to_rfc3339(ts).unwrap(), "2026-09-23T17:15:11+00:00");
    assert_eq!(to_rfc3339(ts).unwrap(), t.to_rfc3339());
    assert!(format_utc(Timestamp { secs: i64::MAX, nanos: 0 }, "%Y").is_none());
    assert!(to_rfc3339(Timestamp { secs: i64::MIN, nanos: 0 }).is_none());
}

#[test]
fn target_time_keeps_fractions_and_offsets() {
    let expected = Utc.with_ymd_and_hms(2026, 9, 23, 17, 15, 11).unwrap();
    let at = |s: &str| parse_target_time(s).map(|t| (t.secs, t.nanos));
    assert_eq!(at("  2026-09-23T17:15:11Z\n"), Some((expected.timestamp(), 0)));
    assert_eq!(at("2026-09-23T18:15:11.25+01:00"), Some((expected.timestamp(), 250_000_000)));
    assert_eq!(at("2026-09-23T17:15:11"), Some((expected.timestamp(), 0)));
    assert_eq!(at("2026-09-23"), None);
    assert_eq!(at(""), None);
}

#[test]
fn trim_agrees_on_every_char() {
    for c in (0u32..0x3100).filter_map(char::from_u32) {
        let s = format!("{}x{}", c, c);
        assert_eq!(trim(&s), s.trim(), "{:?}", c);
    }
}

#[test]
fn durations_outside_the_rule_are_refused() {
    assert_eq!(parse_duration("7µ"), Err(DurationError::Invalid));
    assert_eq!(parse_duration("µ"), Err(DurationError::Invalid));
    assert_eq!(parse_duration("9223372036854775807d"), Err(DurationError::Invalid));
    // the largest spans chrono holds are accepted, one more is refused
    for (n, unit, secs) in [(106751991167i64, 'd', 86400i64), (2562047788015, 'h', 3600), (153722867280912, 'm', 60)] {
        assert_eq!(parse_duration(&format!("{}{}", n, unit)).unwrap().seconds, n * secs);
        assert_eq!(parse_duration(&format!("-{}{}", n, unit)).unwrap().seconds, -n * secs);
        assert_eq!(parse_duration(&format!("{}{}", n + 1, unit)), Err(DurationError::Invalid));
    }
}
