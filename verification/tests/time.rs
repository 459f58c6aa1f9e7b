use signalpane::text::{parse_i64, parse_u64, replace_str, split_lines, trim_str};
use signalpane::store::{metadata_datetime, MetaValue, Metadata};
use signalpane::time::UtcTime;

#[test]
fn rfc3339_text_of_timestamps() {
    assert_eq!(
        UtcTime { secs: 1_779_757_323, nanos: 0 }.to_rfc3339().as_deref(),
        Some("2026-05-26T01:02:03+00:00")
    );
    assert_eq!(
        UtcTime { secs: 0, nanos: 500_000_000 }.to_rfc3339().as_deref(),
        Some("1970-01-01T00:00:00.500+00:00")
    );
    assert_eq!(UtcTime { secs: i64::MAX, nanos: 0 }.to_rfc3339(), None);
}

fn time_in(text: &str) -> Option<UtcTime> {
    let m = Metadata::from_entries(vec![("t".to_string(), MetaValue::Text(text.to_string()))]);
    metadata_datetime(&m, "t")
}

#[test]
fn rfc3339_parsing_goes_to_utc() {
    assert_eq!(
        time_in("2026-05-26T01:02:03+00:00"),
        Some(UtcTime { secs: 1_779_757_323, nanos: 0 })
    );
    assert_eq!(
        time_in("2026-05-26T03:02:03.25+02:00"),
        Some(UtcTime { secs: 1_779_757_323, nanos: 250_000_000 })
    );
    assert_eq!(time_in("yesterday"), None);
}

#[test]
fn times_compare_and_shift() {
    let t = UtcTime { secs: 10, nanos: 5 };
    assert!(t.is_after(&UtcTime { secs: 10, nanos: 4 }));
    assert!(!t.is_after(&t));
    assert_eq!(t.plus_seconds(5), Some(UtcTime { secs: 15, nanos: 5 }));
    assert_eq!(UtcTime { secs: i64::MAX, nanos: 0 }.plus_seconds(1), None);
}

#[test]
fn text_helpers_follow_std() {
    assert_eq!(parse_u64("42"), Some(42));
    assert_eq!(parse_u64("+42"), Some(42));
    assert_eq!(parse_u64("-1"), None);
    assert_eq!(parse_u64(""), None);
    assert_eq!(parse_u64("18446744073709551616"), None);
    assert_eq!(parse_i64("-42"), Some(-42));
    assert_eq!(parse_i64("-9223372036854775808"), Some(i64::MIN));
    assert_eq!(parse_i64("9223372036854775808"), None);
    assert_eq!(trim_str("  a b \n"), "a b");
    assert_eq!(replace_str("aaa", "aa", "b"), "ba");
    assert_eq!(split_lines("a\r\nb\n\nc"), vec!["a", "b", "", "c"]);
}
