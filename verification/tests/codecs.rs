use keyflow::aggregator::InputAggregator;
use keyflow::models::Settings;
use keyflow::settings::{get_settings, save_settings};
use keyflow::store::Database;
use keyflow::text::{
    is_valid_timestamp, parse_bool, parse_u64, str_contains, str_eq_ignore_case, str_has_prefix,
    str_lex_lt, u64_to_dec,
};

#[test]
fn settings_round_trip_through_the_store() {
    let mut db = Database::open_in_memory().unwrap();
    let mut agg = InputAggregator::new(500, Vec::new());
    let s = Settings {
        excluded_apps: vec!["Editor".to_string(), "pass\"word\\app".to_string()],
        merge_interval_ms: 750,
        auto_start: true,
    };
    save_settings(&mut db, &mut agg, s).unwrap();
    assert!(agg.is_app_excluded("editor"));
    let back = get_settings(&db).unwrap();
    assert_eq!(back.excluded_apps, ["Editor", "pass\"word\\app"]);
    assert_eq!(back.merge_interval_ms, 750);
    assert!(back.auto_start);
}

#[test]
fn absent_or_corrupt_settings_fall_back_to_defaults() {
    let mut db = Database::open_in_memory().unwrap();
    let s = get_settings(&db).unwrap();
    assert!(s.excluded_apps.is_empty());
    assert_eq!(s.merge_interval_ms, 500);
    assert!(!s.auto_start);
    db.set_setting("excluded_apps", "not json").unwrap();
    db.set_setting("merge_interval_ms", "fast").unwrap();
    db.set_setting("auto_start", "maybe").unwrap();
    let s = get_settings(&db).unwrap();
    assert!(s.excluded_apps.is_empty());
    assert_eq!(s.merge_interval_ms, 500);
    assert!(!s.auto_start);
}

#[test]
fn default_settings_are_the_documented_ones() {
    let s = Settings::default_settings();
    assert!(s.excluded_apps.is_empty());
    assert_eq!(s.merge_interval_ms, 500);
    assert!(!s.auto_start);
}

#[test]
fn decimal_codec_exact_values() {
    assert_eq!(u64_to_dec(0), "0");
    assert_eq!(u64_to_dec(500), "500");
    assert_eq!(u64_to_dec(18446744073709551615), "18446744073709551615");
    assert_eq!(parse_u64("0"), Some(0));
    assert_eq!(parse_u64("98765"), Some(98765));
    assert_eq!(parse_u64("18446744073709551615"), Some(u64::MAX));
    assert_eq!(parse_u64("18446744073709551616"), None);
    assert_eq!(parse_u64(""), None);
    assert_eq!(parse_u64("12a"), None);
    assert_eq!(parse_u64("-3"), None);
}

#[test]
fn bool_codec_exact_values() {
    assert_eq!(parse_bool("true"), Some(true));
    assert_eq!(parse_bool("false"), Some(false));
    assert_eq!(parse_bool("True"), None);
    assert_eq!(parse_bool(""), None);
}

#[test]
fn lexicographic_order_matches_timestamp_order() {
    assert!(str_lex_lt("2026-01-02 10:00:00", "2026-01-02 10:00:01"));
    assert!(str_lex_lt("2025-12-31 23:59:59", "2026-01-01 00:00:00"));
    assert!(!str_lex_lt("2026-01-02 10:00:00", "2026-01-02 10:00:00"));
    assert!(str_lex_lt("abc", "abcd"));
    assert!(!str_lex_lt("abcd", "abc"));
}

#[test]
fn substring_and_prefix_tests() {
    assert!(str_contains("hello world", "lo wo"));
    assert!(str_contains("hello", ""));
    assert!(!str_contains("hello", "world"));
    assert!(!str_contains("ab", "abc"));
    assert!(str_has_prefix("2026-01-02 10:00:00", "2026-01-02"));
    assert!(!str_has_prefix("2026-01-03 10:00:00", "2026-01-02"));
}

#[test]
fn ascii_case_insensitive_equality() {
    assert!(str_eq_ignore_case("Editor", "eDITOR"));
    assert!(!str_eq_ignore_case("Editor", "Editors"));
    assert!(str_eq_ignore_case("a-b_c", "A-B_C"));
}

#[test]
fn timestamp_validity_checks_shape_and_calendar() {
    assert!(is_valid_timestamp("2026-01-02 10:00:00"));
    assert!(is_valid_timestamp("2024-02-29 23:59:59"));
    assert!(!is_valid_timestamp("2026-02-29 10:00:00"));
    assert!(!is_valid_timestamp("2026-13-01 10:00:00"));
    assert!(!is_valid_timestamp("2026-04-31 10:00:00"));
    assert!(!is_valid_timestamp("2026-01-02 24:00:00"));
    assert!(!is_valid_timestamp("2026-01-02 10:60:00"));
    assert!(!is_valid_timestamp("2026-01-02T10:00:00"));
    assert!(!is_valid_timestamp("2026-1-2 10:00:00"));
    assert!(!is_valid_timestamp(""));
}
