use cosmicfetch::text::{chars_of, decimal_string, parse_u64};
use cosmicfetch::uptime::format_uptime;

fn parse(s: &str) -> Option<u64> {
    let cs: Vec<char> = s.chars().collect();
    parse_u64(&cs, 0, cs.len())
}

#[test]
fn decimal_rendering() {
    assert_eq!(decimal_string(0), "0");
    assert_eq!(decimal_string(7), "7");
    assert_eq!(decimal_string(1024), "1024");
    assert_eq!(decimal_string(u64::MAX), "18446744073709551615");
}

#[test]
fn parsing_unsigned_numbers() {
    assert_eq!(parse("0"), Some(0));
    assert_eq!(parse("4096"), Some(4096));
    assert_eq!(parse("+12"), Some(12));
    assert_eq!(parse("18446744073709551615"), Some(u64::MAX));
    assert_eq!(parse("18446744073709551616"), None);
    assert_eq!(parse(""), None);
    assert_eq!(parse("+"), None);
    assert_eq!(parse("-1"), None);
    assert_eq!(parse("12a"), None);
    assert_eq!(parse(" 12"), None);
    assert_eq!(parse("[N/A]"), None);
}

#[test]
fn parsing_agrees_with_std() {
    for s in ["0", "00", "+7", "+", "", "99999999999999999999", "1_000", "42", "-0"] {
        assert_eq!(parse(s), s.parse::<u64>().ok(), "text {:?}", s);
    }
}

#[test]
fn decimal_parse_roundtrip() {
    for n in [0u64, 1, 9, 10, 99, 100, 123456789, u64::MAX - 1, u64::MAX] {
        assert_eq!(parse(&decimal_string(n)), Some(n));
    }
}

#[test]
fn chars_of_keeps_every_character() {
    assert_eq!(chars_of("héllo — ok"), "héllo — ok".chars().collect::<Vec<char>>());
    assert!(chars_of("").is_empty());
}

#[test]
fn uptime_minutes_only() {
    assert_eq!(format_uptime(0), "0 min");
    assert_eq!(format_uptime(59), "0 min");
    assert_eq!(format_uptime(60), "1 min");
    assert_eq!(format_uptime(3599), "59 min");
}

#[test]
fn uptime_hours() {
    assert_eq!(format_uptime(3600), "1h");
    assert_eq!(format_uptime(3660), "1h 1m");
    assert_eq!(format_uptime(86399), "23h 59m");
}

#[test]
fn uptime_days() {
    assert_eq!(format_uptime(86400), "1 day");
    assert_eq!(format_uptime(172800), "2 days");
    assert_eq!(format_uptime(90000), "1d 1h");
    assert_eq!(format_uptime(90060), "1d 1h 1m");
    assert_eq!(format_uptime(86460), "1d 0h 1m");
    assert_eq!(format_uptime(u64::MAX), "213503982334601d 7h");
}

#[test]
fn uptime_parts_account_for_the_time() {
    for s in [0u64, 61, 3601, 86401, 987654, 31_536_000] {
        let d = s / 86400;
        let h = (s % 86400) / 3600;
        let m = (s % 3600) / 60;
        assert!(h < 24 && m < 60);
        assert!(d * 86400 + h * 3600 + m * 60 <= s && s < d * 86400 + h * 3600 + m * 60 + 60);
    }
}
