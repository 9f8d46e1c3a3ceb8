//! Data model: captured records, query filters, aggregate statistics,
//! settings, and the foreground-window context, together with their
//! mathematical views.

use vstd::prelude::*;
use vstd::string::*;

verus! {

/// Foreground application context at the moment of a key press.
pub struct WindowInfo {
    pub app_name: String,
    pub window_title: Option<String>,
}

/// View of a `WindowInfo`: plain sequences.
#[verifier::ext_equal]
pub ghost struct WindowInfoV {
    pub app_name: Seq<char>,
    pub window_title: Option<Seq<char>>,
}

impl View for WindowInfo {
    type V = WindowInfoV;

    open spec fn view(&self) -> WindowInfoV {
        WindowInfoV {
            app_name: self.app_name@,
            window_title: match self.window_title {
                Some(t) => Some(t@),
                None => None,
            },
        }
    }
}

/// One committed typing session. `timestamp` and `created_at` are held in
/// the fixed lexicographically sortable form `YYYY-MM-DD HH:MM:SS` (UTC);
/// `content` is the accumulated text, with bracketed tokens standing for
/// non-printable keys; `key_count` counts the contributing key actions.
pub struct InputRecord {
    pub id: Option<i64>,
    pub timestamp: String,
    pub app_name: String,
    pub window_title: Option<String>,
    pub content: String,
    pub key_count: i64,
    pub created_at: Option<String>,
}

/// View of an `InputRecord`.
#[verifier::ext_equal]
pub ghost struct InputRecordV {
    pub id: Option<int>,
    pub timestamp: Seq<char>,
    pub app_name: Seq<char>,
    pub window_title: Option<Seq<char>>,
    pub content: Seq<char>,
    pub key_count: int,
    pub created_at: Option<Seq<char>>,
}

impl View for InputRecord {
    type V = InputRecordV;

    open spec fn view(&self) -> InputRecordV {
        InputRecordV {
            id: match self.id {
                Some(i) => Some(i as int),
                None => None,
            },
            timestamp: self.timestamp@,
            app_name: self.app_name@,
            window_title: match self.window_title {
                Some(t) => Some(t@),
                None => None,
            },
            content: self.content@,
            key_count: self.key_count as int,
            created_at: match self.created_at {
                Some(t) => Some(t@),
                None => None,
            },
        }
    }
}

impl InputRecord {
    /// A record stamped with the current wall-clock text, before the
    /// store assigns its identity: one key action's worth by default.
    pub fn new(app_name: String, window_title: Option<String>, content: String) -> (r: Self)
        ensures
            r.id is None,
            r.timestamp.is_ascii(),
            r@.app_name == app_name@,
            r@.window_title == (match window_title {
                Some(t) => Some(t@),
                None => None::<Seq<char>>,
            }),
            r@.content == content@,
            r.key_count == 1i64,
            r.created_at is None,
    {
        InputRecord {
            id: None,
            timestamp: crate::clock::now_timestamp_string(),
            app_name,
            window_title,
            content,
            key_count: 1,
            created_at: None,
        }
    }
}

/// Per-application aggregate over one day's records.
pub struct AppStats {
    pub app_name: String,
    pub key_count: i64,
    pub record_count: i64,
}

/// Daily totals with a per-application breakdown, ordered by descending
/// summed key count.
pub struct DailyStats {
    pub date: String,
    pub total_keys: i64,
    pub total_records: i64,
    pub app_stats: Vec<AppStats>,
}

/// Conjunctive, all-optional record filter. `query` asks for a substring
/// match on content, `app_name` for an exact match, the date fields for
/// inclusive bounds on the timestamp text. `limit` defaults to 100 and
/// `offset` to 0 when absent.
pub struct SearchFilter {
    pub query: Option<String>,
    pub app_name: Option<String>,
    pub start_date: Option<String>,
    pub end_date: Option<String>,
    pub limit: Option<i64>,
    pub offset: Option<i64>,
}

impl Default for SearchFilter {
    /// The first page of 100, with no predicates.
    fn default() -> (r: Self)
        ensures
            r.query is None,
            r.app_name is None,
            r.start_date is None,
            r.end_date is None,
            r.limit == Some(100i64),
            r.offset == Some(0i64),
    {
        SearchFilter {
            query: None,
            app_name: None,
            start_date: None,
            end_date: None,
            limit: Some(100),
            offset: Some(0),
        }
    }
}

/// Tunables: application names whose input is never captured
/// (case-insensitive match), the idle timeout before a forced flush, and
/// whether capture starts with the system.
pub struct Settings {
    pub excluded_apps: Vec<String>,
    pub merge_interval_ms: u64,
    pub auto_start: bool,
}

impl Settings {
    /// The documented defaults: no exclusions, 500 ms merge interval,
    /// auto-start off.
    pub fn default_settings() -> (r: Self)
        ensures
            r.excluded_apps@.len() == 0,
            r.merge_interval_ms == 500u64,
            r.auto_start == false,
    {
        Settings { excluded_apps: Vec::new(), merge_interval_ms: 500, auto_start: false }
    }
}

} // verus!
