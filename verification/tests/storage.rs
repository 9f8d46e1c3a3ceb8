use keyflow::aggregator::InputAggregator;
use keyflow::engine::Engine;
use keyflow::keys::Key;
use keyflow::models::{InputRecord, SearchFilter, WindowInfo};
use keyflow::store::Database;

fn rec(ts: &str, app: &str, content: &str, keys: i64) -> InputRecord {
    InputRecord {
        id: None,
        timestamp: ts.to_string(),
        app_name: app.to_string(),
        window_title: None,
        content: content.to_string(),
        key_count: keys,
        created_at: None,
    }
}

fn no_filter() -> SearchFilter {
    SearchFilter {
        query: None,
        app_name: None,
        start_date: None,
        end_date: None,
        limit: None,
        offset: None,
    }
}

#[test]
fn insert_assigns_increasing_ids() {
    let mut db = Database::open_in_memory().unwrap();
    let a = db.insert_record(&rec("2026-01-02 10:00:00", "Editor", "a", 1)).unwrap();
    let b = db.insert_record(&rec("2026-01-02 10:00:01", "Editor", "b", 1)).unwrap();
    assert!(b > a);
}

#[test]
fn query_orders_newest_first() {
    let mut db = Database::open_in_memory().unwrap();
    db.insert_record(&rec("2026-01-02 10:00:00", "A", "first", 1)).unwrap();
    db.insert_record(&rec("2026-01-02 12:00:00", "B", "third", 1)).unwrap();
    db.insert_record(&rec("2026-01-02 11:00:00", "C", "second", 1)).unwrap();
    let got = db.get_records(&no_filter()).unwrap();
    let contents: Vec<&str> = got.iter().map(|r| r.content.as_str()).collect();
    assert_eq!(contents, ["third", "second", "first"]);
    assert_eq!(got[0].timestamp, "2026-01-02 12:00:00");
    assert!(got[0].id.is_some());
    assert!(got[0].created_at.is_some());
}

#[test]
fn limit_and_offset_pick_the_middle_page() {
    let mut db = Database::open_in_memory().unwrap();
    db.insert_record(&rec("2026-01-02 10:00:00", "A", "r4", 1)).unwrap();
    db.insert_record(&rec("2026-01-02 11:00:00", "A", "r3", 1)).unwrap();
    db.insert_record(&rec("2026-01-02 12:00:00", "A", "r2", 1)).unwrap();
    db.insert_record(&rec("2026-01-02 13:00:00", "A", "r1", 1)).unwrap();
    let mut f = no_filter();
    f.limit = Some(2);
    f.offset = Some(1);
    let got = db.get_records(&f).unwrap();
    let contents: Vec<&str> = got.iter().map(|r| r.content.as_str()).collect();
    assert_eq!(contents, ["r2", "r3"]);
}

#[test]
fn conjunctive_filters_apply_together() {
    let mut db = Database::open_in_memory().unwrap();
    db.insert_record(&rec("2026-01-01 10:00:00", "Editor", "hello world", 11)).unwrap();
    db.insert_record(&rec("2026-01-02 10:00:00", "Editor", "hello there", 11)).unwrap();
    db.insert_record(&rec("2026-01-02 11:00:00", "Browser", "hello again", 11)).unwrap();
    db.insert_record(&rec("2026-01-03 10:00:00", "Editor", "goodbye", 7)).unwrap();
    let mut f = no_filter();
    f.query = Some("hello".to_string());
    f.app_name = Some("Editor".to_string());
    f.start_date = Some("2026-01-02 00:00:00".to_string());
    f.end_date = Some("2026-01-02 23:59:59".to_string());
    let got = db.get_records(&f).unwrap();
    assert_eq!(got.len(), 1);
    assert_eq!(got[0].content, "hello there");
}

#[test]
fn substring_filter_drops_nonmatches() {
    let mut db = Database::open_in_memory().unwrap();
    db.insert_record(&rec("2026-01-02 10:00:00", "A", "abcdef", 6)).unwrap();
    let mut f = no_filter();
    f.query = Some("cde".to_string());
    assert_eq!(db.get_records(&f).unwrap().len(), 1);
    f.query = Some("cdf".to_string());
    assert_eq!(db.get_records(&f).unwrap().len(), 0);
}

#[test]
fn malformed_stored_timestamp_is_replaced_at_read_time() {
    let mut db = Database::open_in_memory().unwrap();
    db.insert_record(&rec("not a timestamp", "A", "x", 1)).unwrap();
    let got = db.get_records(&no_filter()).unwrap();
    assert_eq!(got.len(), 1);
    assert_ne!(got[0].timestamp, "not a timestamp");
    assert_eq!(got[0].timestamp.len(), 19);
}

#[test]
fn daily_stats_totals_and_breakdown_agree() {
    let mut db = Database::open_in_memory().unwrap();
    db.insert_record(&rec("2026-01-02 10:00:00", "Editor", "hello", 5)).unwrap();
    db.insert_record(&rec("2026-01-02 11:00:00", "Editor", "hi", 2)).unwrap();
    db.insert_record(&rec("2026-01-02 12:00:00", "Browser", "[Enter]", 1)).unwrap();
    db.insert_record(&rec("2026-01-03 10:00:00", "Editor", "other day", 9)).unwrap();
    let s = db.stats_for_date("2026-01-02").unwrap();
    assert_eq!(s.date, "2026-01-02");
    assert_eq!(s.total_keys, 8);
    assert_eq!(s.total_records, 3);
    assert_eq!(s.app_stats.len(), 2);
    assert_eq!(s.app_stats[0].app_name, "Editor");
    assert_eq!(s.app_stats[0].key_count, 7);
    assert_eq!(s.app_stats[0].record_count, 2);
    assert_eq!(s.app_stats[1].app_name, "Browser");
    assert_eq!(s.app_stats[1].key_count, 1);
    assert_eq!(s.app_stats[1].record_count, 1);
    let total_from_apps: i64 = s.app_stats.iter().map(|a| a.key_count).sum();
    assert_eq!(total_from_apps, s.total_keys);
}

#[test]
fn today_stats_uses_the_current_date() {
    let mut db = Database::open_in_memory().unwrap();
    db.insert_record(&rec("1999-01-02 10:00:00", "Old", "x", 1)).unwrap();
    let s = db.get_today_stats().unwrap();
    assert_eq!(s.date.len(), 10);
    assert_eq!(s.total_keys, 0);
    assert_eq!(s.total_records, 0);
    assert!(s.app_stats.is_empty());
}

#[test]
fn scenario_app_list_and_retention() {
    let mut db = Database::open_in_memory().unwrap();
    db.insert_record(&rec("2026-01-02 10:00:00", "Editor", "hello", 5)).unwrap();
    db.insert_record(&rec("2026-01-02 11:00:00", "Browser", "[Enter]", 1)).unwrap();
    let apps = db.get_app_list().unwrap();
    assert_eq!(apps, ["Browser", "Editor"]);
    let removed = db.delete_records_before("2026-01-02 12:00:00").unwrap();
    assert_eq!(removed, 2);
    assert!(db.get_records(&no_filter()).unwrap().is_empty());
    assert!(db.get_app_list().unwrap().is_empty());
}

#[test]
fn delete_boundary_is_strict() {
    let mut db = Database::open_in_memory().unwrap();
    db.insert_record(&rec("2026-01-02 10:00:00", "A", "old", 1)).unwrap();
    db.insert_record(&rec("2026-01-02 11:00:00", "A", "kept", 1)).unwrap();
    let removed = db.delete_records_before("2026-01-02 11:00:00").unwrap();
    assert_eq!(removed, 1);
    let got = db.get_records(&no_filter()).unwrap();
    assert_eq!(got.len(), 1);
    assert_eq!(got[0].content, "kept");
}

#[test]
fn settings_table_is_an_upsert() {
    let mut db = Database::open_in_memory().unwrap();
    assert!(db.get_setting("theme").unwrap().is_none());
    db.set_setting("theme", "dark").unwrap();
    assert_eq!(db.get_setting("theme").unwrap().as_deref(), Some("dark"));
    db.set_setting("theme", "light").unwrap();
    assert_eq!(db.get_setting("theme").unwrap().as_deref(), Some("light"));
}

#[test]
fn engine_commits_flushed_sessions() {
    let db = Database::open_in_memory().unwrap();
    let agg = InputAggregator::new(500, Vec::new());
    let mut engine = Engine::new(agg, db);
    let ctx = || Some(WindowInfo { app_name: "Editor".to_string(), window_title: None });
    engine.on_key_press(Key::KeyH, ctx(), 0, ).unwrap();
    engine.on_key_press(Key::KeyI, ctx(), 100).unwrap();
    engine.on_tick(400).unwrap();
    assert!(engine.db.get_records(&no_filter()).unwrap().is_empty());
    engine.on_tick(601).unwrap();
    let got = engine.db.get_records(&no_filter()).unwrap();
    assert_eq!(got.len(), 1);
    assert_eq!(got[0].content, "hi");
    assert_eq!(got[0].key_count, 2);
    assert_eq!(got[0].app_name, "Editor");
}

#[test]
fn default_filter_is_first_page_of_100() {
    let f = SearchFilter::default();
    assert!(f.query.is_none());
    assert!(f.app_name.is_none());
    assert_eq!(f.limit, Some(100));
    assert_eq!(f.offset, Some(0));
}

#[test]
fn default_limit_caps_unfiltered_queries() {
    let mut db = Database::open_in_memory().unwrap();
    for i in 0..105 {
        let ts = format!("2026-01-02 10:{:02}:{:02}", i / 60, i % 60);
        db.insert_record(&rec(&ts, "A", "x", 1)).unwrap();
    }
    let got = db.get_records(&no_filter()).unwrap();
    assert_eq!(got.len(), 100);
}

#[test]
fn engine_commits_on_app_switch() {
    let db = Database::open_in_memory().unwrap();
    let agg = InputAggregator::new(500, Vec::new());
    let mut engine = Engine::new(agg, db);
    let win = |app: &str| Some(WindowInfo { app_name: app.to_string(), window_title: None });
    engine.on_key_press(Key::KeyA, win("Editor"), 0).unwrap();
    engine.on_key_press(Key::KeyB, win("Browser"), 100).unwrap();
    let got = engine.db.get_records(&no_filter()).unwrap();
    assert_eq!(got.len(), 1);
    assert_eq!(got[0].app_name, "Editor");
    assert_eq!(got[0].content, "a");
}

#[test]
fn fresh_record_carries_its_arguments() {
    let r = InputRecord::new("Editor".to_string(), Some("win".to_string()), "hi".to_string());
    assert!(r.id.is_none());
    assert!(r.created_at.is_none());
    assert_eq!(r.app_name, "Editor");
    assert_eq!(r.window_title.as_deref(), Some("win"));
    assert_eq!(r.content, "hi");
    assert_eq!(r.key_count, 1);
    assert_eq!(r.timestamp.len(), 19);
}

#[test]
fn delete_compares_numeric_looking_boundaries_as_text() {
    let mut db = Database::open_in_memory().unwrap();
    db.insert_record(&rec("2026-01-02 10:00:00", "A", "x", 1)).unwrap();
    let removed = db.delete_records_before("20260101").unwrap();
    assert_eq!(removed, 1);
    assert!(db.get_records(&no_filter()).unwrap().is_empty());
}

#[test]
fn numeric_looking_timestamps_are_stored_verbatim() {
    let mut db = Database::open_in_memory().unwrap();
    db.insert_record(&rec("123", "A", "x", 1)).unwrap();
    let got = db.get_records(&no_filter()).unwrap();
    assert_eq!(got.len(), 1);
    assert_ne!(got[0].timestamp, "123");
    assert_eq!(got[0].timestamp.len(), 19);
}
