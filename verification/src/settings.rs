//! The settings gateway: the typed `Settings` structure read from and
//! written to the generic key-value store, with documented defaults for
//! absent or corrupt values, and live propagation of the exclusion list
//! into the aggregator.

use vstd::prelude::*;
use vstd::string::*;

use crate::aggregator::{InputAggregator, InputAggregatorV};
use crate::models::Settings;
use crate::store::{Database, StoreError};
use crate::text::{
    bool_str, lemma_bool_roundtrip, lemma_dec_roundtrip, parse_bool, parse_bool_spec, parse_u64,
    parse_u64_spec, u64_dec, u64_to_dec,
};

verus! {

/// Name for what `serde_json::to_string` returns on a list of strings.
pub uninterp spec fn json_list_of(apps: Seq<Seq<char>>) -> Seq<char>;

/// Name for what `serde_json::from_str` recovers from a stored value: a
/// deterministic function of the text alone, `None` where parsing fails.
pub uninterp spec fn parsed_list_of(s: Seq<char>) -> Option<Seq<Seq<char>>>;

/// Relies on `serde_json::to_string::<Vec<String>>`: serializing a vector
/// of strings cannot fail, and the output is a function of the strings
/// alone, named `json_list_of`.
#[verifier::external_body]
fn json_encode_apps(apps: &Vec<String>) -> (r: String)
    ensures
        r@ == json_list_of(apps.deep_view()),
{
    serde_json::to_string(apps).unwrap_or_default()
}

/// Relies on `serde_json::from_str::<Vec<String>>`: what parsing yields
/// is a function of the text alone, named `parsed_list_of`; parsing the
/// exact text that `serde_json::to_string` produced for a list recovers
/// that list, and any failure is reported as `None`.
#[verifier::external_body]
fn json_decode_apps(s: &str) -> (r: Option<Vec<String>>)
    ensures
        match r {
            Some(v) => parsed_list_of(s@) == Some(v.deep_view()) && forall|l: Seq<Seq<char>>|
                s@ == #[trigger] json_list_of(l) ==> v.deep_view() == l,
            None => parsed_list_of(s@) is None && forall|l: Seq<Seq<char>>|
                s@ != #[trigger] json_list_of(l),
        },
{
    serde_json::from_str(s).ok()
}

/// The settings table after a save: all three keys written, the rest of
/// the table untouched.
pub open spec fn settings_saved(m0: Map<Seq<char>, Seq<char>>, s: Settings) -> Map<
    Seq<char>,
    Seq<char>,
> {
    m0.insert("excluded_apps"@, json_list_of(s.excluded_apps.deep_view())).insert(
        "merge_interval_ms"@,
        u64_dec(s.merge_interval_ms as int),
    ).insert("auto_start"@, bool_str(s.auto_start))
}

/// What a successful load guarantees about the settings it returns, for
/// the settings table it read: each field decoded from its key, with the
/// documented default where the key is absent or its value malformed. The
/// exclusion list is exactly what the parser recovers (empty where it
/// fails), and in particular the canonically saved list comes back as
/// itself.
pub open spec fn settings_read_ok(m: Map<Seq<char>, Seq<char>>, out: Settings) -> bool {
    &&& out.excluded_apps.deep_view() == (if m.contains_key("excluded_apps"@) {
        match parsed_list_of(m["excluded_apps"@]) {
            Some(l) => l,
            None => Seq::<Seq<char>>::empty(),
        }
    } else {
        Seq::<Seq<char>>::empty()
    })
    &&& (m.contains_key("excluded_apps"@) ==> forall|l: Seq<Seq<char>>|
        m["excluded_apps"@] == #[trigger] json_list_of(l) ==> out.excluded_apps.deep_view() == l)
    &&& out.merge_interval_ms == (if m.contains_key("merge_interval_ms"@) {
        match parse_u64_spec(m["merge_interval_ms"@]) {
            Some(n) => n,
            None => 500u64,
        }
    } else {
        500u64
    })
    &&& out.auto_start == (if m.contains_key("auto_start"@) {
        match parse_bool_spec(m["auto_start"@]) {
            Some(b) => b,
            None => false,
        }
    } else {
        false
    })
}

/// Loads the typed settings from the store. A corrupt individual value
/// forfeits only that field, falling back to its default; only a storage
/// failure aborts the load.
pub fn get_settings(db: &Database) -> (r: Result<Settings, StoreError>)
    ensures
        r matches Ok(s) ==> settings_read_ok(db.settings_map(), s),
{
    let excluded_apps: Vec<String>;
    match db.get_setting("excluded_apps") {
        Err(e) => {
            return Err(e);
        },
        Ok(None) => {
            excluded_apps = Vec::new();
            proof {
                assert(excluded_apps.deep_view() =~= Seq::<Seq<char>>::empty());
            }
        },
        Ok(Some(v)) => {
            match json_decode_apps(v.as_str()) {
                Some(l) => {
                    excluded_apps = l;
                },
                None => {
                    excluded_apps = Vec::new();
                    proof {
                        assert(excluded_apps.deep_view() =~= Seq::<Seq<char>>::empty());
                    }
                },
            }
        },
    }
    let merge_interval_ms: u64 = match db.get_setting("merge_interval_ms") {
        Err(e) => {
            return Err(e);
        },
        Ok(None) => 500,
        Ok(Some(v)) => match parse_u64(v.as_str()) {
            Some(n) => n,
            None => 500,
        },
    };
    let auto_start: bool = match db.get_setting("auto_start") {
        Err(e) => {
            return Err(e);
        },
        Ok(None) => false,
        Ok(Some(v)) => match parse_bool(v.as_str()) {
            Some(b) => b,
            None => false,
        },
    };
    Ok(Settings { excluded_apps, merge_interval_ms, auto_start })
}

/// Writes the three settings keys in a fixed order and then pushes the
/// exclusion list into the live aggregator, so the change takes effect
/// without a restart. On a storage failure nothing reaches the
/// aggregator, nothing past the failing key is written, and the keys
/// written before it stay written.
pub fn save_settings(db: &mut Database, agg: &mut InputAggregator, settings: Settings) -> (r:
    Result<(), StoreError>)
    ensures
        r matches Ok(_) ==> {
            &&& final(db).settings_map() == settings_saved(old(db).settings_map(), settings)
            &&& final(db).rows() == old(db).rows()
            &&& final(agg)@ == (InputAggregatorV {
                excluded_apps: settings.excluded_apps.deep_view(),
                ..old(agg)@
            })
        },
        r matches Err(_) ==> {
            let m0 = old(db).settings_map();
            let m1 = m0.insert("excluded_apps"@, json_list_of(settings.excluded_apps.deep_view()));
            let m2 = m1.insert("merge_interval_ms"@, u64_dec(settings.merge_interval_ms as int));
            &&& final(db).rows() == old(db).rows()
            &&& final(agg)@ == old(agg)@
            &&& (final(db).settings_map() == m0 || final(db).settings_map() == m1
                || final(db).settings_map() == m2)
        },
{
    let encoded = json_encode_apps(&settings.excluded_apps);
    match db.set_setting("excluded_apps", encoded.as_str()) {
        Ok(_) => {},
        Err(e) => {
            return Err(e);
        },
    }
    let interval = u64_to_dec(settings.merge_interval_ms);
    match db.set_setting("merge_interval_ms", interval.as_str()) {
        Ok(_) => {},
        Err(e) => {
            return Err(e);
        },
    }
    let auto = if settings.auto_start {
        "true"
    } else {
        "false"
    };
    match db.set_setting("auto_start", auto) {
        Ok(_) => {},
        Err(e) => {
            return Err(e);
        },
    }
    agg.set_excluded_apps(settings.excluded_apps);
    Ok(())
}

/// Saving settings and then loading them back returns the same excluded
/// application list, merge interval, and auto-start flag: the load
/// guarantee applied to the table a save leaves behind forces the saved
/// values.
pub proof fn lemma_settings_round_trip(m0: Map<Seq<char>, Seq<char>>, s: Settings, out: Settings)
    requires
        settings_read_ok(settings_saved(m0, s), out),
    ensures
        out.excluded_apps.deep_view() == s.excluded_apps.deep_view(),
        out.merge_interval_ms == s.merge_interval_ms,
        out.auto_start == s.auto_start,
{
    reveal_strlit("excluded_apps");
    reveal_strlit("merge_interval_ms");
    reveal_strlit("auto_start");
    reveal_strlit("true");
    reveal_strlit("false");
    let m1 = settings_saved(m0, s);
    assert("excluded_apps"@.len() == 13);
    assert("merge_interval_ms"@.len() == 17);
    assert("auto_start"@.len() == 10);
    assert(m1.contains_key("excluded_apps"@));
    assert(m1["excluded_apps"@] == json_list_of(s.excluded_apps.deep_view()));
    assert(out.excluded_apps.deep_view() == s.excluded_apps.deep_view());
    assert(m1.contains_key("merge_interval_ms"@));
    assert(m1["merge_interval_ms"@] == u64_dec(s.merge_interval_ms as int));
    lemma_dec_roundtrip(s.merge_interval_ms);
    assert(out.merge_interval_ms == s.merge_interval_ms);
    assert(m1.contains_key("auto_start"@));
    assert(m1["auto_start"@] == bool_str(s.auto_start));
    lemma_bool_roundtrip(s.auto_start);
    assert(out.auto_start == s.auto_start);
}

} // verus!
