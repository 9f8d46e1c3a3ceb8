//! The record store: one embedded SQLite database holding the `inputs`
//! table of committed sessions and the `settings` key-value table. Every
//! SQL call goes through a trusted wrapper whose contract is stated over
//! two names for the database contents, `stored_rows` and
//! `stored_settings`; all decision logic above those calls is verified.

use vstd::prelude::*;

use vstd::string::*;

use crate::clock::{now_date_string, now_timestamp_string};
use crate::models::{DailyStats, InputRecord, InputRecordV, SearchFilter};
use crate::query::{apply_query, query_spec};
use crate::stats::{collect_app_names, compute_daily_stats, daily_stats_ok, has_app, has_string};
use crate::text::lex_lt;

verus! {

/// SQLite connection handle, opaque to the verifier.
#[verifier::external_type_specification]
#[verifier::external_body]
pub struct ExConnection(rusqlite::Connection);

/// The rows of the `inputs` table, in rowid order. Rows read back carry
/// the stored text columns unchanged.
pub uninterp spec fn stored_rows(c: rusqlite::Connection) -> Seq<InputRecordV>;

/// The contents of the `settings` table.
pub uninterp spec fn stored_settings(c: rusqlite::Connection) -> Map<Seq<char>, Seq<char>>;

/// A storage failure surfaced to the caller; the text comes from the
/// underlying database engine.
#[derive(Debug)]
pub struct StoreError {
    pub message: String,
}

/// Views of a sequence of records.
pub open spec fn views_of(v: Seq<InputRecord>) -> Seq<InputRecordV> {
    v.map_values(|r: InputRecord| r@)
}

/// Relies on `rusqlite::Connection::open_in_memory`: a fresh database
/// with no tables, hence no rows and no settings.
#[verifier::external_body]
fn sql_open_memory() -> (r: Result<rusqlite::Connection, String>)
    ensures
        match r {
            Ok(c) => stored_rows(c) == Seq::<InputRecordV>::empty() && stored_settings(c)
                == Map::<Seq<char>, Seq<char>>::empty(),
            Err(_) => true,
        },
{
    rusqlite::Connection::open_in_memory().map_err(|e| e.to_string())
}

/// Relies on `rusqlite::Connection::open`: opens the database file,
/// creating it when absent. Nothing is known of what an existing file
/// holds, so nothing is promised of the contents.
#[verifier::external_body]
fn sql_open_path(path: &str) -> (r: Result<rusqlite::Connection, String>)
{
    rusqlite::Connection::open(path).map_err(|e| e.to_string())
}

/// Relies on `rusqlite::Connection::execute_batch` with `CREATE TABLE IF
/// NOT EXISTS` and `CREATE INDEX IF NOT EXISTS` statements only: existing
/// rows and settings are untouched, whether or not it succeeds. The text
/// columns are declared `TEXT` so they get TEXT affinity: values are
/// stored verbatim and compared as text, never coerced to numbers, which
/// is what the contracts over `stored_rows` assume.
#[verifier::external_body]
fn sql_init_tables(conn: &mut rusqlite::Connection) -> (r: Result<(), String>)
    ensures
        stored_rows(*final(conn)) == stored_rows(*old(conn)),
        stored_settings(*final(conn)) == stored_settings(*old(conn)),
        r matches Ok(v) ==> v == (),
{
    conn.execute_batch(
        "CREATE TABLE IF NOT EXISTS inputs (
            id INTEGER PRIMARY KEY AUTOINCREMENT,
            timestamp TEXT NOT NULL,
            app_name TEXT NOT NULL,
            window_title TEXT,
            content TEXT NOT NULL,
            key_count INTEGER DEFAULT 1,
            created_at TEXT DEFAULT CURRENT_TIMESTAMP
        );
        CREATE INDEX IF NOT EXISTS idx_timestamp ON inputs(timestamp);
        CREATE INDEX IF NOT EXISTS idx_app_name ON inputs(app_name);
        CREATE TABLE IF NOT EXISTS settings (
            key TEXT PRIMARY KEY,
            value TEXT NOT NULL
        );",
    ).map_err(|e| e.to_string())
}

/// Relies on `rusqlite::Connection::execute` with a single-row `INSERT`
/// and `last_insert_rowid`: on success exactly one row is appended, its
/// columns are the given values (the text columns have TEXT affinity, so
/// the text is stored verbatim), and its `AUTOINCREMENT` id, the returned
/// one, is larger than every id already in the table. `created_at` is
/// filled by the database and unconstrained here. A failed insert changes
/// nothing.
#[verifier::external_body]
fn sql_insert(
    conn: &mut rusqlite::Connection,
    timestamp: &str,
    app_name: &str,
    window_title: &Option<String>,
    content: &str,
    key_count: i64,
) -> (r: Result<i64, String>)
    ensures
        match r {
            Ok(id) => {
                let rows0 = stored_rows(*old(conn));
                let rows1 = stored_rows(*final(conn));
                &&& rows1.len() == rows0.len() + 1
                &&& rows1.subrange(0, rows0.len() as int) == rows0
                &&& rows1.last().id == Some(id as int)
                &&& rows1.last().timestamp == timestamp@
                &&& rows1.last().app_name == app_name@
                &&& rows1.last().window_title == (match window_title {
                    Some(t) => Some(t@),
                    None => None,
                })
                &&& rows1.last().content == content@
                &&& rows1.last().key_count == key_count as int
                &&& forall|i: int|
                    0 <= i < rows0.len() ==> ((#[trigger] rows0[i].id) matches Some(p) && p
                        < id as int)
                &&& stored_settings(*final(conn)) == stored_settings(*old(conn))
            },
            Err(_) => stored_rows(*final(conn)) == stored_rows(*old(conn)) && stored_settings(
                *final(conn),
            ) == stored_settings(*old(conn)),
        },
{
    let done = conn.execute(
        "INSERT INTO inputs (timestamp, app_name, window_title, content, key_count) VALUES (?1, ?2, ?3, ?4, ?5)",
        (timestamp, app_name, window_title, content, key_count),
    );
    match done {
        Ok(_) => Ok(conn.last_insert_rowid()),
        Err(e) => Err(e.to_string()),
    }
}

/// Relies on `rusqlite::Statement::query_map` over `SELECT ... FROM
/// inputs ORDER BY id`: on success, every stored row in rowid order, the
/// text columns exactly as stored.
#[verifier::external_body]
fn sql_select_all(conn: &rusqlite::Connection) -> (r: Result<Vec<InputRecord>, String>)
    ensures
        r matches Ok(v) ==> views_of(v@) == stored_rows(*conn),
{
    let sql = "SELECT id, timestamp, app_name, window_title, content, key_count, created_at FROM inputs ORDER BY id";
    let mut stmt = match conn.prepare(sql) { Ok(s) => s, Err(e) => return Err(e.to_string()) };
    let mapped = stmt.query_map((), |row| Ok(InputRecord {
        id: Some(row.get(0)?), timestamp: row.get(1)?, app_name: row.get(2)?,
        window_title: row.get(3)?, content: row.get(4)?, key_count: row.get(5)?,
        created_at: row.get(6)?,
    }));
    match mapped {
        Ok(it) => it.collect::<rusqlite::Result<Vec<InputRecord>>>().map_err(|e| e.to_string()),
        Err(e) => Err(e.to_string()),
    }
}

/// Relies on `rusqlite::Connection::execute` with `DELETE FROM inputs
/// WHERE timestamp < ?`: the column has TEXT affinity, so both operands
/// stay text and the default BINARY collation compares the stored text
/// bytewise, which on UTF-8 text is the code-point order `lex_lt`. On
/// success exactly the rows below the bound are gone and the count of
/// removed rows is returned; a failed delete changes nothing.
#[verifier::external_body]
fn sql_delete_before(conn: &mut rusqlite::Connection, date: &str) -> (r: Result<usize, String>)
    ensures
        match r {
            Ok(n) => {
                let rows0 = stored_rows(*old(conn));
                let rows1 = stored_rows(*final(conn));
                &&& rows1 == rows0.filter(|rec: InputRecordV| !lex_lt(rec.timestamp, date@))
                &&& n as int == rows0.len() - rows1.len()
                &&& stored_settings(*final(conn)) == stored_settings(*old(conn))
            },
            Err(_) => stored_rows(*final(conn)) == stored_rows(*old(conn)) && stored_settings(
                *final(conn),
            ) == stored_settings(*old(conn)),
        },
{
    conn.execute("DELETE FROM inputs WHERE timestamp < ?", (date,)).map_err(|e| e.to_string())
}

/// Relies on `rusqlite::Connection::query_row` over the `settings` table:
/// the stored value for the key, or `None` when the key is absent.
#[verifier::external_body]
fn sql_get_setting(conn: &rusqlite::Connection, key: &str) -> (r: Result<Option<String>, String>)
    ensures
        match r {
            Ok(Some(v)) => stored_settings(*conn).contains_key(key@) && stored_settings(*conn)[key@]
                == v@,
            Ok(None) => !stored_settings(*conn).contains_key(key@),
            Err(_) => true,
        },
{
    let got = conn.query_row("SELECT value FROM settings WHERE key = ?", (key,), |row| row.get(0));
    match got {
        Ok(value) => Ok(Some(value)),
        Err(rusqlite::Error::QueryReturnedNoRows) => Ok(None),
        Err(e) => Err(e.to_string()),
    }
}

/// Relies on `rusqlite::Connection::execute` with `INSERT OR REPLACE`: an
/// upsert of one settings key; the rows are untouched. A failed write
/// changes nothing.
#[verifier::external_body]
fn sql_set_setting(conn: &mut rusqlite::Connection, key: &str, value: &str) -> (r: Result<
    (),
    String,
>)
    ensures
        match r {
            Ok(_) => stored_settings(*final(conn)) == stored_settings(*old(conn)).insert(
                key@,
                value@,
            ) && stored_rows(*final(conn)) == stored_rows(*old(conn)),
            Err(_) => stored_rows(*final(conn)) == stored_rows(*old(conn)) && stored_settings(
                *final(conn),
            ) == stored_settings(*old(conn)),
        },
{
    conn.execute("INSERT OR REPLACE INTO settings (key, value) VALUES (?, ?)", (key, value))
        .map(|_| ())
        .map_err(|e| e.to_string())
}

/// The durable store: owns the connection; all callers go through the
/// verified methods.
pub struct Database {
    conn: rusqlite::Connection,
}

impl Database {
    /// The committed records, in insertion order.
    pub closed spec fn rows(self) -> Seq<InputRecordV> {
        stored_rows(self.conn)
    }

    /// The persisted settings pairs.
    pub closed spec fn settings_map(self) -> Map<Seq<char>, Seq<char>> {
        stored_settings(self.conn)
    }

    /// Opens the database file at `path` (created when absent) and
    /// ensures the schema exists. Existing contents are kept.
    pub fn new(path: &str) -> (r: Result<Database, StoreError>) {
        let mut conn = match sql_open_path(path) {
            Ok(c) => c,
            Err(m) => return Err(StoreError { message: m }),
        };
        match sql_init_tables(&mut conn) {
            Ok(_) => Ok(Database { conn }),
            Err(m) => Err(StoreError { message: m }),
        }
    }

    /// A fresh, empty store held in memory.
    pub fn open_in_memory() -> (r: Result<Database, StoreError>)
        ensures
            r matches Ok(db) ==> db.rows() == Seq::<InputRecordV>::empty() && db.settings_map()
                == Map::<Seq<char>, Seq<char>>::empty(),
    {
        let mut conn = match sql_open_memory() {
            Ok(c) => c,
            Err(m) => return Err(StoreError { message: m }),
        };
        match sql_init_tables(&mut conn) {
            Ok(_) => Ok(Database { conn }),
            Err(m) => Err(StoreError { message: m }),
        }
    }

    /// Appends one committed session: a record only ever arises from a
    /// flushed non-empty buffer, so its content is non-empty and it
    /// counts at least one key action. On success the new row holds the
    /// record's fields, its fresh id (the returned value) exceeds every
    /// earlier one, and the settings are untouched; on failure nothing
    /// changes.
    pub fn insert_record(&mut self, record: &InputRecord) -> (r: Result<i64, StoreError>)
        requires
            record@.content.len() > 0,
            record@.key_count >= 1,
        ensures
            match r {
                Ok(id) => {
                    let rows0 = old(self).rows();
                    let rows1 = final(self).rows();
                    &&& rows1.len() == rows0.len() + 1
                    &&& rows1.subrange(0, rows0.len() as int) == rows0
                    &&& rows1.last().id == Some(id as int)
                    &&& rows1.last().timestamp == record@.timestamp
                    &&& rows1.last().app_name == record@.app_name
                    &&& rows1.last().window_title == record@.window_title
                    &&& rows1.last().content == record@.content
                    &&& rows1.last().key_count == record@.key_count
                    &&& forall|i: int|
                        0 <= i < rows0.len() ==> ((#[trigger] rows0[i].id) matches Some(p) && p
                            < id as int)
                    &&& final(self).settings_map() == old(self).settings_map()
                },
                Err(_) => final(self).rows() == old(self).rows() && final(self).settings_map()
                    == old(self).settings_map(),
            },
    {
        let got = sql_insert(
            &mut self.conn,
            record.timestamp.as_str(),
            record.app_name.as_str(),
            &record.window_title,
            record.content.as_str(),
            record.key_count,
        );
        match got {
            Ok(id) => Ok(id),
            Err(m) => Err(StoreError { message: m }),
        }
    }

    /// Removes every record whose timestamp orders strictly below the
    /// boundary; returns how many went. On failure nothing changes.
    pub fn delete_records_before(&mut self, date: &str) -> (r: Result<usize, StoreError>)
        ensures
            match r {
                Ok(n) => {
                    &&& final(self).rows() == old(self).rows().filter(
                        |rec: InputRecordV| !lex_lt(rec.timestamp, date@),
                    )
                    &&& n as int == old(self).rows().len() - final(self).rows().len()
                    &&& final(self).settings_map() == old(self).settings_map()
                },
                Err(_) => final(self).rows() == old(self).rows() && final(self).settings_map()
                    == old(self).settings_map(),
            },
    {
        match sql_delete_before(&mut self.conn, date) {
            Ok(n) => Ok(n),
            Err(m) => Err(StoreError { message: m }),
        }
    }

    /// The stored value for a settings key, or `None` when absent.
    pub fn get_setting(&self, key: &str) -> (r: Result<Option<String>, StoreError>)
        ensures
            match r {
                Ok(Some(v)) => self.settings_map().contains_key(key@) && self.settings_map()[key@]
                    == v@,
                Ok(None) => !self.settings_map().contains_key(key@),
                Err(_) => true,
            },
    {
        match sql_get_setting(&self.conn, key) {
            Ok(v) => Ok(v),
            Err(m) => Err(StoreError { message: m }),
        }
    }

    /// The filtered page of records, newest first. The wall-clock text
    /// read at query time substitutes for malformed stored timestamps;
    /// when every stored timestamp is well formed the result does not
    /// depend on it.
    pub fn get_records(&self, filter: &SearchFilter) -> (r: Result<Vec<InputRecord>, StoreError>)
        ensures
            r matches Ok(v) ==> exists|now: Seq<char>|
                views_of(v@) == #[trigger] query_spec(self.rows(), *filter, now),
    {
        let raw = match sql_select_all(&self.conn) {
            Ok(v) => v,
            Err(m) => return Err(StoreError { message: m }),
        };
        let now = now_timestamp_string();
        let out = apply_query(raw, filter, now.as_str());
        proof {
            assert(views_of(out@) == query_spec(self.rows(), *filter, now@));
        }
        Ok(out)
    }

    /// Totals and per-application breakdown for one day. The error case
    /// covers a storage failure and a sum beyond the 64-bit range.
    pub fn stats_for_date(&self, date: &str) -> (r: Result<DailyStats, StoreError>)
        ensures
            r matches Ok(s) ==> daily_stats_ok(s, self.rows(), date@),
    {
        let raw = match sql_select_all(&self.conn) {
            Ok(v) => v,
            Err(m) => return Err(StoreError { message: m }),
        };
        match compute_daily_stats(&raw, date) {
            Some(s) => Ok(s),
            None => Err(StoreError { message: String::from_str("integer overflow") }),
        }
    }

    /// Today's totals and breakdown: `stats_for_date` on the current UTC
    /// date, which the result's `date` field carries.
    pub fn get_today_stats(&self) -> (r: Result<DailyStats, StoreError>)
        ensures
            r matches Ok(s) ==> daily_stats_ok(s, self.rows(), s.date@),
    {
        let today = now_date_string();
        self.stats_for_date(today.as_str())
    }

    /// The distinct application names observed, in strictly ascending
    /// order: a name is listed exactly when some record carries it.
    pub fn get_app_list(&self) -> (r: Result<Vec<String>, StoreError>)
        ensures
            r matches Ok(v) ==> {
                &&& forall|i: int|
                    0 <= i && i + 1 < v@.len() ==> lex_lt(#[trigger] v@[i]@, v@[i + 1]@)
                &&& forall|i: int| 0 <= i < v@.len() ==> has_app(self.rows(), #[trigger] v@[i]@)
                &&& forall|t: int|
                    0 <= t < self.rows().len() ==> has_string(
                        v@,
                        (#[trigger] self.rows()[t]).app_name,
                    )
            },
    {
        let raw = match sql_select_all(&self.conn) {
            Ok(v) => v,
            Err(m) => return Err(StoreError { message: m }),
        };
        let out = collect_app_names(&raw);
        Ok(out)
    }

    /// Upserts one settings key. On failure nothing changes.
    pub fn set_setting(&mut self, key: &str, value: &str) -> (r: Result<(), StoreError>)
        ensures
            match r {
                Ok(_) => final(self).settings_map() == old(self).settings_map().insert(key@, value@)
                    && final(self).rows() == old(self).rows(),
                Err(_) => final(self).rows() == old(self).rows() && final(self).settings_map()
                    == old(self).settings_map(),
            },
    {
        match sql_set_setting(&mut self.conn, key, value) {
            Ok(_) => Ok(()),
            Err(m) => Err(StoreError { message: m }),
        }
    }
}

} // verus!
