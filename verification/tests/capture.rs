use keyflow::aggregator::InputAggregator;
use keyflow::keys::{key_to_char, Key};
use keyflow::models::WindowInfo;
use keyflow::window::get_active_window;

fn ctx(app: &str) -> Option<WindowInfo> {
    Some(WindowInfo { app_name: app.to_string(), window_title: Some("win".to_string()) })
}

#[test]
fn printable_run_builds_one_session() {
    let mut agg = InputAggregator::new(500, Vec::new());
    let keys = [Key::KeyH, Key::KeyE, Key::KeyL, Key::KeyL, Key::KeyO];
    let mut t = 1000u64;
    for k in keys {
        let out = agg.handle_key_press(k, ctx("Editor"), t, "2026-01-02 03:04:05");
        assert!(out.is_none());
        t += 100;
    }
    let none = agg.check_idle_flush(t + 400);
    assert!(none.is_none());
    let rec = agg.check_idle_flush(t + 501).expect("idle expiry must flush");
    assert_eq!(rec.content, "hello");
    assert_eq!(rec.key_count, 5);
    assert_eq!(rec.app_name, "Editor");
    assert_eq!(rec.timestamp, "2026-01-02 03:04:05");
    assert_eq!(rec.window_title.as_deref(), Some("win"));
    assert!(rec.id.is_none());
}

#[test]
fn shift_selects_shifted_variants() {
    let mut agg = InputAggregator::new(500, Vec::new());
    agg.handle_key_press(Key::ShiftLeft, ctx("Editor"), 0, "2026-01-02 03:04:05");
    agg.handle_key_press(Key::KeyA, ctx("Editor"), 1, "2026-01-02 03:04:05");
    agg.handle_key_press(Key::Num1, ctx("Editor"), 2, "2026-01-02 03:04:05");
    agg.handle_key_release(Key::ShiftLeft);
    agg.handle_key_press(Key::KeyA, ctx("Editor"), 3, "2026-01-02 03:04:05");
    let rec = agg.check_idle_flush(1000).unwrap();
    assert_eq!(rec.content, "A!a");
    assert_eq!(rec.key_count, 3);
}

#[test]
fn named_keys_contribute_bracketed_tokens() {
    let mut agg = InputAggregator::new(500, Vec::new());
    agg.handle_key_press(Key::Return, ctx("Term"), 0, "2026-01-02 03:04:05");
    agg.handle_key_press(Key::Backspace, ctx("Term"), 1, "2026-01-02 03:04:05");
    agg.handle_key_press(Key::Escape, ctx("Term"), 2, "2026-01-02 03:04:05");
    let rec = agg.check_idle_flush(1000).unwrap();
    assert_eq!(rec.content, "[Enter][Backspace][Esc]");
    assert_eq!(rec.key_count, 3);
}

#[test]
fn unmapped_keys_contribute_nothing() {
    let mut agg = InputAggregator::new(500, Vec::new());
    agg.handle_key_press(Key::Other, ctx("Editor"), 0, "2026-01-02 03:04:05");
    assert!(agg.check_idle_flush(1000).is_none());
}

#[test]
fn excluded_app_never_produces_a_record() {
    let mut agg = InputAggregator::new(500, vec!["editor".to_string()]);
    for i in 0..10u64 {
        let out = agg.handle_key_press(Key::KeyA, ctx("Editor"), i, "2026-01-02 03:04:05");
        assert!(out.is_none());
    }
    assert!(agg.check_idle_flush(10_000).is_none());
}

#[test]
fn exclusion_match_ignores_ascii_case() {
    let agg = InputAggregator::new(500, vec!["ZoOm".to_string()]);
    assert!(agg.is_app_excluded("zoom"));
    assert!(agg.is_app_excluded("ZOOM"));
    assert!(!agg.is_app_excluded("zoom2"));
}

#[test]
fn set_excluded_apps_takes_effect_immediately() {
    let mut agg = InputAggregator::new(500, Vec::new());
    assert!(!agg.is_app_excluded("Editor"));
    agg.set_excluded_apps(vec!["Editor".to_string()]);
    assert!(agg.is_app_excluded("editor"));
    let out = agg.handle_key_press(Key::KeyA, ctx("Editor"), 0, "2026-01-02 03:04:05");
    assert!(out.is_none());
    assert!(agg.check_idle_flush(10_000).is_none());
}

#[test]
fn app_switch_flushes_prior_session_first() {
    let mut agg = InputAggregator::new(500, Vec::new());
    agg.handle_key_press(Key::KeyH, ctx("Editor"), 0, "2026-01-02 03:04:05");
    agg.handle_key_press(Key::KeyI, ctx("Editor"), 50, "2026-01-02 03:04:05");
    let flushed = agg
        .handle_key_press(Key::KeyB, ctx("Browser"), 100, "2026-01-02 03:04:06")
        .expect("the application change must flush");
    assert_eq!(flushed.app_name, "Editor");
    assert_eq!(flushed.content, "hi");
    assert_eq!(flushed.key_count, 2);
    let rec = agg.check_idle_flush(10_000).unwrap();
    assert_eq!(rec.app_name, "Browser");
    assert_eq!(rec.content, "b");
    assert_eq!(rec.key_count, 1);
    assert_eq!(rec.timestamp, "2026-01-02 03:04:06");
}

#[test]
fn idle_timeout_starts_a_new_session() {
    let mut agg = InputAggregator::new(500, Vec::new());
    agg.handle_key_press(Key::KeyA, ctx("Editor"), 0, "2026-01-02 03:04:05");
    let flushed = agg
        .handle_key_press(Key::KeyB, ctx("Editor"), 601, "2026-01-02 03:04:06")
        .expect("the idle gap must flush");
    assert_eq!(flushed.content, "a");
    let rec = agg.check_idle_flush(10_000).unwrap();
    assert_eq!(rec.content, "b");
}

#[test]
fn missing_context_drops_the_event() {
    let mut agg = InputAggregator::new(500, Vec::new());
    let out = agg.handle_key_press(Key::KeyA, None, 0, "2026-01-02 03:04:05");
    assert!(out.is_none());
    assert!(agg.check_idle_flush(10_000).is_none());
}

#[test]
fn key_table_samples() {
    assert_eq!(key_to_char(Key::KeyQ, false), Some('q'));
    assert_eq!(key_to_char(Key::KeyQ, true), Some('Q'));
    assert_eq!(key_to_char(Key::Num0, true), Some(')'));
    assert_eq!(key_to_char(Key::Space, true), Some(' '));
    assert_eq!(key_to_char(Key::SemiColon, true), Some(':'));
    assert_eq!(key_to_char(Key::BackQuote, false), Some('`'));
    assert_eq!(key_to_char(Key::Return, false), None);
    assert_eq!(key_to_char(Key::Other, false), None);
}

#[test]
fn fallback_window_provider_reports_unknown() {
    let w = get_active_window().unwrap();
    assert_eq!(w.app_name, "Unknown");
    assert!(w.window_title.is_none());
}
