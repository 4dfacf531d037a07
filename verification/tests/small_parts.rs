use ec::json::{array_text, is_number_text, numbers_text, object_text, Member};
use ec::text::{decimal_text, find, same_text, signed_decimal_text, split_once, starts_with};
use ec::time::truncate_to_hour;

#[test]
fn truncate_to_hour_rounds_down() {
    assert_eq!(truncate_to_hour(0), 0);
    assert_eq!(truncate_to_hour(3600), 3600);
    assert_eq!(truncate_to_hour(3661), 3600);
    assert_eq!(truncate_to_hour(7199), 3600);
    assert_eq!(truncate_to_hour(-1), -3600);
}

#[test]
fn coarse_times_stay_as_they_are() {
    for time in [-7201, -7200, -7199, -3600, 1, 1_700_000_000, i64::MAX] {
        let hour = truncate_to_hour(time);
        assert_eq!(hour % 3600, 0);
        assert!(hour <= time && time - hour < 3600);
        assert_eq!(truncate_to_hour(hour), hour);
    }
}

#[test]
fn numbers_are_written_in_decimal() {
    for n in [0, 9, 10, 19, 100, 12345, u64::MAX] {
        assert_eq!(decimal_text(n), n.to_string());
    }
    for n in [i64::MIN, -10, -1, 0, 7, i64::MAX] {
        assert_eq!(signed_decimal_text(n), n.to_string());
    }
}

#[test]
fn patterns_are_found_where_they_stand_first() {
    assert_eq!(find("a://b://c", "://"), Some(1));
    assert_eq!(find("\u{e9}\u{e9}x", "x"), Some(2));
    assert_eq!(find("abc", ""), Some(0));
    assert_eq!(find("", "a"), None);
    assert_eq!(find("aab", "ab"), Some(1));
    assert!(starts_with("sqlite:x", "sqlite:"));
    assert!(!starts_with("sqlite", "sqlite:"));
    assert!(same_text("\u{e9}", "\u{e9}"));
    assert!(!same_text("a", "A"));
}

#[test]
fn texts_are_parted_at_the_first_place() {
    let parts = |a: &str, b: &str| Some((a.to_string(), b.to_string()));
    assert_eq!(split_once("A: b: c", ": "), parts("A", "b: c"));
    assert_eq!(split_once(": ", ": "), parts("", ""));
    assert_eq!(split_once("A:b", ": "), None);
}

#[test]
fn json_numbers_are_told_from_other_texts() {
    for text in [
        "0", "-0", "7", "10", "3.0", "-1.25", "0.000", "1e5", "1E5", "1e+16", "2.5e-7", "0e0", "",
        "-", "00", "01", "-01", ".5", "1.", "1.e5", "1e", "1e+", "1e+-2", "+1", " 1", "1 ", "0x1",
        "1.2.3", "1e2e3", "1e2.5", "null", "NaN", "inf", "1,2", "\u{661}", "--1",
    ] {
        let is_number = match serde_json::from_str::<serde_json::Value>(text) {
            // Blanks around a number are no part of it.
            Ok(value) => value.is_number() && text.trim() == text,
            Err(_) => false,
        };
        assert_eq!(is_number_text(text), is_number, "{text}");
    }
}

#[test]
fn json_is_put_together() {
    assert_eq!(numbers_text(&[]), "[]");
    assert_eq!(numbers_text(&[0]), "[0]");
    assert_eq!(numbers_text(&[3, 255, 10]), "[3,255,10]");
    assert_eq!(array_text(&vec!["1".to_string(), "{}".to_string()]), "[1,{}]");
    let members = vec![
        Member { key: "a", value: "1".to_string() },
        Member { key: "b\"", value: "[]".to_string() },
    ];
    assert_eq!(object_text(&members), "{\"a\":1,\"b\\\"\":[]}");
    assert_eq!(object_text(&vec![]), "{}");
}
