//! Daily aggregation: totals and the per-application breakdown over the
//! rows whose date component matches a given day, and the alphabetical
//! list of distinct application names.

use vstd::prelude::*;
use vstd::string::*;

use crate::models::{AppStats, DailyStats, InputRecord, InputRecordV};
use crate::store::views_of;
use crate::text::{
    is_valid_timestamp, is_valid_ts, lemma_lex_lt_connex, lex_lt, str_eq, str_has_prefix,
    str_lex_lt,
};

verus! {

/// A stored row counts toward day `d` when its timestamp is well formed
/// and its date component is `d`.
pub open spec fn date_matches(r: InputRecordV, d: Seq<char>) -> bool {
    is_valid_ts(r.timestamp) && r.timestamp.subrange(0, 10) == d
}

/// Sum of `key_count` over the rows of day `d`.
pub open spec fn sum_keys(rows: Seq<InputRecordV>, d: Seq<char>) -> int
    decreases rows.len(),
{
    if rows.len() == 0 {
        0
    } else {
        sum_keys(rows.drop_last(), d) + if date_matches(rows.last(), d) {
            rows.last().key_count
        } else {
            0
        }
    }
}

/// Number of rows of day `d`.
pub open spec fn count_matching(rows: Seq<InputRecordV>, d: Seq<char>) -> int
    decreases rows.len(),
{
    if rows.len() == 0 {
        0
    } else {
        count_matching(rows.drop_last(), d) + if date_matches(rows.last(), d) {
            1int
        } else {
            0int
        }
    }
}

/// Sum of `key_count` over the rows of day `d` for one application.
pub open spec fn sum_keys_app(rows: Seq<InputRecordV>, d: Seq<char>, app: Seq<char>) -> int
    decreases rows.len(),
{
    if rows.len() == 0 {
        0
    } else {
        sum_keys_app(rows.drop_last(), d, app) + if date_matches(rows.last(), d)
            && rows.last().app_name == app {
            rows.last().key_count
        } else {
            0
        }
    }
}

/// Number of rows of day `d` for one application.
pub open spec fn count_app(rows: Seq<InputRecordV>, d: Seq<char>, app: Seq<char>) -> int
    decreases rows.len(),
{
    if rows.len() == 0 {
        0
    } else {
        count_app(rows.drop_last(), d, app) + if date_matches(rows.last(), d)
            && rows.last().app_name == app {
            1int
        } else {
            0int
        }
    }
}

/// Sum of the breakdown's key counts.
pub open spec fn sum_entries(s: Seq<AppStats>) -> int
    decreases s.len(),
{
    if s.len() == 0 {
        0
    } else {
        sum_entries(s.drop_last()) + s.last().key_count as int
    }
}

/// Sum of the breakdown's record counts.
pub open spec fn count_entries(s: Seq<AppStats>) -> int
    decreases s.len(),
{
    if s.len() == 0 {
        0
    } else {
        count_entries(s.drop_last()) + s.last().record_count as int
    }
}

/// A breakdown entry that is exact for the given rows and day.
pub open spec fn entry_ok(e: AppStats, rows: Seq<InputRecordV>, d: Seq<char>) -> bool {
    e.key_count as int == sum_keys_app(rows, d, e.app_name@) && e.record_count as int == count_app(
        rows,
        d,
        e.app_name@,
    )
}

/// Descending order by summed key count.
pub open spec fn sorted_desc_stats(s: Seq<AppStats>) -> bool {
    forall|i: int| 0 <= i && i + 1 < s.len() ==> (#[trigger] s[i + 1]).key_count <= s[i].key_count
}

/// Pairwise-distinct application names.
pub open spec fn distinct_names(s: Seq<AppStats>) -> bool {
    forall|p: int, q: int|
        0 <= p < q < s.len() ==> (#[trigger] s[p]).app_name@ != (#[trigger] s[q]).app_name@
}

/// `e` occurs in the breakdown.
pub open spec fn appears(s: Seq<AppStats>, e: AppStats) -> bool {
    exists|i: int| 0 <= i < s.len() && #[trigger] s[i] == e
}

/// Some breakdown entry carries this application name.
pub open spec fn has_name(s: Seq<AppStats>, nm: Seq<char>) -> bool {
    exists|j: int| 0 <= j < s.len() && (#[trigger] s[j]).app_name@ == nm
}

/// Both entry sums distribute over concatenation.
proof fn lemma_sums_concat(a: Seq<AppStats>, b: Seq<AppStats>)
    ensures
        sum_entries(a + b) == sum_entries(a) + sum_entries(b),
        count_entries(a + b) == count_entries(a) + count_entries(b),
    decreases b.len(),
{
    if b.len() == 0 {
        assert(a + b =~= a);
    } else {
        lemma_sums_concat(a, b.drop_last());
        assert((a + b).drop_last() =~= a + b.drop_last());
        assert((a + b).last() == b.last());
    }
}

/// Sums after replacing one entry.
proof fn lemma_sums_update(s: Seq<AppStats>, i: int, e: AppStats)
    requires
        0 <= i < s.len(),
    ensures
        sum_entries(s.update(i, e)) == sum_entries(s) - s[i].key_count + e.key_count,
        count_entries(s.update(i, e)) == count_entries(s) - s[i].record_count + e.record_count,
{
    let left = s.subrange(0, i);
    let mid = seq![s[i]];
    let mid2 = seq![e];
    let right = s.subrange(i + 1, s.len() as int);
    assert(s =~= left + mid + right);
    assert(s.update(i, e) =~= left + mid2 + right);
    lemma_sums_concat(left, mid);
    lemma_sums_concat(left + mid, right);
    lemma_sums_concat(left, mid2);
    lemma_sums_concat(left + mid2, right);
    assert(mid.drop_last() =~= Seq::<AppStats>::empty());
    assert(mid2.drop_last() =~= Seq::<AppStats>::empty());
    assert(sum_entries(Seq::<AppStats>::empty()) == 0);
    assert(count_entries(Seq::<AppStats>::empty()) == 0);
    assert(mid.last() == s[i] && mid2.last() == e);
    assert(sum_entries(mid) == s[i].key_count && sum_entries(mid2) == e.key_count);
    assert(count_entries(mid) == s[i].record_count && count_entries(mid2) == e.record_count);
}

/// Sums after appending one entry.
proof fn lemma_sums_push(s: Seq<AppStats>, e: AppStats)
    ensures
        sum_entries(s.push(e)) == sum_entries(s) + e.key_count,
        count_entries(s.push(e)) == count_entries(s) + e.record_count,
{
    assert(s.push(e).drop_last() =~= s);
    assert(s.push(e).last() == e);
}

/// Inserts an entry into a breakdown sorted descending by key count,
/// keeping it sorted, preserving the sums, name-distinctness and the
/// entry values.
#[verifier::rlimit(100)]
fn insert_stat_sorted(out: &mut Vec<AppStats>, e: AppStats)
    requires
        sorted_desc_stats(old(out)@),
        forall|j: int| 0 <= j < old(out)@.len() ==> (#[trigger] old(out)@[j]).app_name@ != e.app_name@,
        distinct_names(old(out)@),
    ensures
        final(out)@.len() == old(out)@.len() + 1,
        sorted_desc_stats(final(out)@),
        distinct_names(final(out)@),
        sum_entries(final(out)@) == sum_entries(old(out)@) + e.key_count,
        count_entries(final(out)@) == count_entries(old(out)@) + e.record_count,
        forall|i: int|
            0 <= i < final(out)@.len() ==> (#[trigger] final(out)@[i]) == e || appears(
                old(out)@,
                final(out)@[i],
            ),
        forall|j: int| 0 <= j < old(out)@.len() ==> appears(final(out)@, #[trigger] old(out)@[j]),
        appears(final(out)@, e),
{
    let n = out.len();
    let mut pos: usize = 0;
    let mut found = false;
    while pos < n && !found
        invariant
            n == out.len(),
            out@ == old(out)@,
            pos <= n,
            forall|j: int| 0 <= j < pos ==> (#[trigger] out@[j]).key_count >= e.key_count,
            found ==> pos < n && out@[pos as int].key_count < e.key_count,
        decreases n - pos + (if found {
            0int
        } else {
            1int
        }),
    {
        if out[pos].key_count < e.key_count {
            found = true;
        } else {
            pos = pos + 1;
        }
    }
    let ghost o0 = out@;
    let ghost pi = pos as int;
    out.insert(pos, e);
    proof {
        assert(out@ =~= o0.subrange(0, pi) + seq![e] + o0.subrange(pi, o0.len() as int));
        lemma_sums_concat(o0.subrange(0, pi), seq![e]);
        lemma_sums_concat(o0.subrange(0, pi) + seq![e], o0.subrange(pi, o0.len() as int));
        lemma_sums_concat(o0.subrange(0, pi), o0.subrange(pi, o0.len() as int));
        assert(o0 =~= o0.subrange(0, pi) + o0.subrange(pi, o0.len() as int));
        assert(seq![e].drop_last() =~= Seq::<AppStats>::empty());
        assert(sum_entries(Seq::<AppStats>::empty()) == 0);
        assert(count_entries(Seq::<AppStats>::empty()) == 0);
        assert(seq![e].last() == e);
        assert(sum_entries(seq![e]) == e.key_count);
        assert(count_entries(seq![e]) == e.record_count);
        assert(o0.subrange(0, pi).len() == pi);
        assert(out@.len() == o0.len() + 1);
        assert forall|t: int| 0 <= t < out@.len() implies #[trigger] out@[t] == (if t < pi {
            o0[t]
        } else if t == pi {
            e
        } else {
            o0[t - 1]
        }) by {}
        assert forall|i: int| 0 <= i && i + 1 < out@.len() implies (#[trigger] out@[i
            + 1]).key_count <= out@[i].key_count by {
            if i + 1 < pi {
                assert(out@[i] == o0[i] && out@[i + 1] == o0[i + 1]);
                assert(o0[i + 1].key_count <= o0[i].key_count);
            } else if i + 1 == pi {
                assert(out@[i] == o0[i] && out@[i + 1] == e);
                assert(o0[i].key_count >= e.key_count);
            } else if i == pi {
                assert(out@[i] == e && out@[i + 1] == o0[i]);
                assert(pi < n);
                assert(found);
                assert(o0[pi].key_count < e.key_count);
            } else {
                assert(out@[i] == o0[i - 1] && out@[i + 1] == o0[i]);
                assert(o0[(i - 1) + 1].key_count <= o0[i - 1].key_count);
            }
        }
        assert forall|i: int| 0 <= i < out@.len() implies (#[trigger] out@[i]) == e || appears(
            o0,
            out@[i],
        ) by {
            if i < pi {
                assert(o0[i] == out@[i]);
            } else if i > pi {
                assert(o0[i - 1] == out@[i]);
            }
        }
        assert forall|j: int| 0 <= j < o0.len() implies appears(out@, #[trigger] o0[j]) by {
            if j < pi {
                assert(out@[j] == o0[j]);
            } else {
                assert(out@[j + 1] == o0[j]);
            }
        }
        assert(out@[pi] == e);
        assert forall|p: int, q: int| 0 <= p < q < out@.len() implies (#[trigger] out@[p]).app_name@
            != (#[trigger] out@[q]).app_name@ by {
            let pp = if p < pi {
                p
            } else {
                p - 1
            };
            let qq = if q < pi {
                q
            } else {
                q - 1
            };
            if p == pi {
                assert(out@[q] == o0[q - 1]);
            } else if q == pi {
                assert(out@[p] == o0[p]);
            } else {
                assert(out@[p] == o0[pp] && out@[q] == o0[qq]);
            }
        }
    }
}

/// Sorts a breakdown descending by key count, preserving sums, names and
/// entries.
#[verifier::rlimit(100)]
fn sort_stats_desc(v: Vec<AppStats>) -> (out: Vec<AppStats>)
    requires
        distinct_names(v@),
    ensures
        out@.len() == v@.len(),
        sorted_desc_stats(out@),
        distinct_names(out@),
        sum_entries(out@) == sum_entries(v@),
        count_entries(out@) == count_entries(v@),
        forall|i: int| 0 <= i < out@.len() ==> appears(v@, #[trigger] out@[i]),
        forall|j: int| 0 <= j < v@.len() ==> appears(out@, #[trigger] v@[j]),
{
    let ghost v0 = v@;
    let mut rest = v;
    let mut out: Vec<AppStats> = Vec::new();
    while rest.len() > 0
        invariant
            rest@ == v0.skip(v0.len() - rest@.len()),
            rest@.len() <= v0.len(),
            distinct_names(v0),
            sorted_desc_stats(out@),
            distinct_names(out@),
            out@.len() + rest@.len() == v0.len(),
            sum_entries(out@) == sum_entries(v0.subrange(0, v0.len() - rest@.len())),
            count_entries(out@) == count_entries(v0.subrange(0, v0.len() - rest@.len())),
            forall|i: int|
                0 <= i < out@.len() ==> appears(
                    v0.subrange(0, v0.len() - rest@.len()),
                    #[trigger] out@[i],
                ),
            forall|j: int|
                0 <= j < v0.len() - rest@.len() ==> appears(out@, #[trigger] v0[j]),
        decreases rest.len(),
    {
        let ghost k = v0.len() - rest@.len();
        let ghost r0 = rest@;
        let e = rest.remove(0);
        proof {
            assert(e == v0.skip(k)[0]);
            assert(e == v0[k]);
            assert(rest@ =~= v0.skip(k + 1));
            assert(v0.subrange(0, k + 1).drop_last() =~= v0.subrange(0, k));
            assert(v0.subrange(0, k + 1).last() == v0[k]);
            assert forall|j: int| 0 <= j < out@.len() implies (#[trigger] out@[j]).app_name@
                != e.app_name@ by {
                assert(appears(v0.subrange(0, k), out@[j]));
                let jj = choose|jj: int| 0 <= jj < k && v0.subrange(0, k)[jj] == out@[j];
                assert(v0[jj] == out@[j]);
                assert(v0[jj].app_name@ != v0[k].app_name@);
            }
        }
        let ghost out0 = out@;
        insert_stat_sorted(&mut out, e);
        proof {
            assert forall|i: int| 0 <= i < out@.len() implies appears(
                v0.subrange(0, k + 1),
                #[trigger] out@[i],
            ) by {
                if out@[i] == e {
                    assert(v0.subrange(0, k + 1)[k] == e);
                } else {
                    assert(appears(out0, out@[i]));
                    let jj = choose|jj: int| 0 <= jj < out0.len() && out0[jj] == out@[i];
                    assert(appears(v0.subrange(0, k), out0[jj]));
                    let tt = choose|tt: int|
                        0 <= tt < k && v0.subrange(0, k)[tt] == out0[jj];
                    assert(v0.subrange(0, k + 1)[tt] == out@[i]);
                }
            }
            assert forall|j: int| 0 <= j < k + 1 implies appears(out@, #[trigger] v0[j]) by {
                if j == k {
                    assert(appears(out@, e));
                } else {
                    assert(appears(out0, v0[j]));
                    let ii = choose|ii: int| 0 <= ii < out0.len() && out0[ii] == v0[j];
                    assert(appears(out@, out0[ii]));
                }
            }
        }
    }
    proof {
        assert(v0.subrange(0, v0.len() as int) =~= v0);
    }
    out
}

/// Decides `date_matches`.
fn row_matches_date(rec: &InputRecord, date: &str) -> (b: bool)
    ensures
        b == date_matches(rec@, date@),
{
    if !is_valid_timestamp(rec.timestamp.as_str()) {
        return false;
    }
    let dlen = date.unicode_len();
    if dlen != 10 {
        return false;
    }
    let r = str_has_prefix(rec.timestamp.as_str(), date);
    proof {
        if r {
            assert(rec@.timestamp.subrange(0, 10) =~= date@);
        } else {
            if rec@.timestamp.subrange(0, 10) == date@ {
                assert(rec@.timestamp.subrange(0, date@.len() as int) == date@);
            }
        }
    }
    r
}

/// One unfolding of the four aggregate sums at the end of a prefix.
proof fn lemma_sums_step(rv: Seq<InputRecordV>, i: int, d: Seq<char>, nm: Seq<char>)
    requires
        0 <= i < rv.len(),
    ensures
        sum_keys(rv.subrange(0, i + 1), d) == sum_keys(rv.subrange(0, i), d) + if date_matches(
            rv[i],
            d,
        ) {
            rv[i].key_count
        } else {
            0
        },
        count_matching(rv.subrange(0, i + 1), d) == count_matching(rv.subrange(0, i), d)
            + if date_matches(rv[i], d) {
            1int
        } else {
            0int
        },
        sum_keys_app(rv.subrange(0, i + 1), d, nm) == sum_keys_app(rv.subrange(0, i), d, nm)
            + if date_matches(rv[i], d) && rv[i].app_name == nm {
            rv[i].key_count
        } else {
            0
        },
        count_app(rv.subrange(0, i + 1), d, nm) == count_app(rv.subrange(0, i), d, nm)
            + if date_matches(rv[i], d) && rv[i].app_name == nm {
            1int
        } else {
            0int
        },
{
    let pre1 = rv.subrange(0, i + 1);
    assert(pre1.drop_last() =~= rv.subrange(0, i));
    assert(pre1.last() == rv[i]);
}

/// Folds row `i` (a row of day `d`) into the per-application breakdown,
/// keeping every breakdown invariant; `false` on counter overflow.
#[verifier::rlimit(100)]
fn apply_row_to_entries(
    entries: &mut Vec<AppStats>,
    app_name: &String,
    k: i64,
    Ghost(rv): Ghost<Seq<InputRecordV>>,
    Ghost(i): Ghost<int>,
    Ghost(d): Ghost<Seq<char>>,
) -> (ok: bool)
    requires
        0 <= i < rv.len(),
        date_matches(rv[i], d),
        rv[i].app_name == app_name@,
        rv[i].key_count == k as int,
        distinct_names(old(entries)@),
        forall|j: int|
            0 <= j < old(entries)@.len() ==> entry_ok(
                #[trigger] old(entries)@[j],
                rv.subrange(0, i),
                d,
            ),
        forall|t: int|
            0 <= t < i && date_matches(#[trigger] rv[t], d) ==> has_name(
                old(entries)@,
                rv[t].app_name,
            ),
        forall|j: int|
            0 <= j < old(entries)@.len() ==> day_app_before(
                rv,
                d,
                (#[trigger] old(entries)@[j]).app_name@,
                i,
            ),
    ensures
        ok || !(i64::MIN <= sum_keys_app(rv.subrange(0, i + 1), d, rv[i].app_name)
            <= i64::MAX) || count_app(rv.subrange(0, i + 1), d, rv[i].app_name) > i64::MAX,
        ok ==> {
            &&& distinct_names(final(entries)@)
            &&& sum_entries(final(entries)@) == sum_entries(old(entries)@) + k
            &&& count_entries(final(entries)@) == count_entries(old(entries)@) + 1
            &&& forall|j: int|
                0 <= j < final(entries)@.len() ==> entry_ok(
                    #[trigger] final(entries)@[j],
                    rv.subrange(0, i + 1),
                    d,
                )
            &&& forall|t: int|
                0 <= t < i + 1 && date_matches(#[trigger] rv[t], d) ==> has_name(
                    final(entries)@,
                    rv[t].app_name,
                )
            &&& forall|j: int|
                0 <= j < final(entries)@.len() ==> day_app_before(
                    rv,
                    d,
                    (#[trigger] final(entries)@[j]).app_name@,
                    i + 1,
                )
        },
{
    let m = entries.len();
    let mut idx: usize = 0;
    let mut found = false;
    while idx < m && !found
        invariant
            m == entries.len(),
            entries@ == old(entries)@,
            idx <= m,
            forall|j: int| 0 <= j < idx ==> (#[trigger] entries@[j]).app_name@ != app_name@,
            found ==> idx < m && entries@[idx as int].app_name@ == app_name@,
        decreases m - idx + (if found {
            0int
        } else {
            1int
        }),
    {
        if str_eq(entries[idx].app_name.as_str(), app_name.as_str()) {
            found = true;
        } else {
            idx = idx + 1;
        }
    }
    let ghost e0 = entries@;
    if found {
        let mut e = entries.remove(idx);
        let kc = match e.key_count.checked_add(k) {
            Some(t) => t,
            None => {
                proof {
                    lemma_sums_step(rv, i, d, rv[i].app_name);
                    assert(e.key_count as int == sum_keys_app(rv.subrange(0, i), d, rv[i].app_name));
                }
                return false;
            },
        };
        if e.record_count == i64::MAX {
            proof {
                lemma_sums_step(rv, i, d, rv[i].app_name);
                assert(e.record_count as int == count_app(rv.subrange(0, i), d, rv[i].app_name));
            }
            return false;
        }
        let rc = e.record_count + 1;
        e = AppStats { app_name: e.app_name, key_count: kc, record_count: rc };
        entries.insert(idx, e);
        proof {
            let enew = entries@[idx as int];
            assert(entries@ =~= e0.remove(idx as int).insert(idx as int, enew));
            assert(entries@ =~= e0.update(idx as int, enew));
            lemma_sums_update(e0, idx as int, enew);
            assert forall|j: int| 0 <= j < entries@.len() implies entry_ok(
                #[trigger] entries@[j],
                rv.subrange(0, i + 1),
                d,
            ) by {
                lemma_sums_step(rv, i, d, entries@[j].app_name@);
                if j != idx {
                    assert(entries@[j] == e0[j]);
                    assert(entry_ok(e0[j], rv.subrange(0, i), d));
                    assert(e0[j].app_name@ != app_name@);
                } else {
                    assert(enew.app_name@ == e0[idx as int].app_name@);
                    assert(entry_ok(e0[idx as int], rv.subrange(0, i), d));
                }
            }
            assert forall|p: int, q: int| 0 <= p < q < entries@.len() implies (
            #[trigger] entries@[p]).app_name@ != (#[trigger] entries@[q]).app_name@ by {
                assert(entries@[p].app_name@ == e0[p].app_name@);
                assert(entries@[q].app_name@ == e0[q].app_name@);
            }
            assert forall|t: int| 0 <= t < i + 1 && date_matches(#[trigger] rv[t], d) implies
                has_name(entries@, rv[t].app_name) by {
                if t == i {
                    assert(entries@[idx as int].app_name@ == rv[i].app_name);
                } else {
                    assert(has_name(e0, rv[t].app_name));
                    let j0 = choose|j0: int|
                        0 <= j0 < e0.len() && e0[j0].app_name@ == rv[t].app_name;
                    assert(entries@[j0].app_name@ == e0[j0].app_name@);
                }
            }
            assert forall|j: int| 0 <= j < entries@.len() implies day_app_before(
                rv,
                d,
                (#[trigger] entries@[j]).app_name@,
                i + 1,
            ) by {
                assert(entries@[j].app_name@ == e0[j].app_name@);
                assert(day_app_before(rv, d, e0[j].app_name@, i));
            }
        }
        true
    } else {
        let e = AppStats { app_name: app_name.clone(), key_count: k, record_count: 1 };
        entries.push(e);
        proof {
            lemma_sums_push(e0, entries@.last());
            assert(entries@.drop_last() =~= e0);
            lemma_app_sums_absent(rv.subrange(0, i), d, rv[i].app_name, e0);
            assert forall|j: int| 0 <= j < entries@.len() implies entry_ok(
                #[trigger] entries@[j],
                rv.subrange(0, i + 1),
                d,
            ) by {
                lemma_sums_step(rv, i, d, entries@[j].app_name@);
                if j < e0.len() {
                    assert(entries@[j] == e0[j]);
                    assert(entry_ok(e0[j], rv.subrange(0, i), d));
                    assert(e0[j].app_name@ != app_name@);
                } else {
                    assert(entries@[j] == entries@.last());
                    assert(entries@[j].app_name@ == rv[i].app_name);
                }
            }
            assert forall|p: int, q: int| 0 <= p < q < entries@.len() implies (
            #[trigger] entries@[p]).app_name@ != (#[trigger] entries@[q]).app_name@ by {
                if q < e0.len() {
                    assert(entries@[p] == e0[p] && entries@[q] == e0[q]);
                } else {
                    assert(entries@[p] == e0[p]);
                    assert(entries@[q].app_name@ == app_name@);
                }
            }
            assert forall|t: int| 0 <= t < i + 1 && date_matches(#[trigger] rv[t], d) implies
                has_name(entries@, rv[t].app_name) by {
                if t == i {
                    assert(entries@[e0.len() as int].app_name@ == rv[i].app_name);
                } else {
                    assert(has_name(e0, rv[t].app_name));
                    let j0 = choose|j0: int|
                        0 <= j0 < e0.len() && e0[j0].app_name@ == rv[t].app_name;
                    assert(entries@[j0] == e0[j0]);
                }
            }
            assert forall|j: int| 0 <= j < entries@.len() implies day_app_before(
                rv,
                d,
                (#[trigger] entries@[j]).app_name@,
                i + 1,
            ) by {
                if j < e0.len() {
                    assert(entries@[j] == e0[j]);
                    assert(day_app_before(rv, d, e0[j].app_name@, i));
                } else {
                    assert(entries@[j].app_name@ == rv[i].app_name);
                    assert(date_matches(rv[i], d));
                }
            }
        }
        true
    }
}

/// The application has a row of day `d` among the first `bound` rows.
pub open spec fn day_app_before(
    rv: Seq<InputRecordV>,
    d: Seq<char>,
    nm: Seq<char>,
    bound: int,
) -> bool {
    exists|t: int| 0 <= t < bound && date_matches(#[trigger] rv[t], d) && rv[t].app_name == nm
}

/// The inputs on which the aggregation is owed a result: no negative key
/// count, and totals that fit the 64-bit counters.
pub open spec fn stats_feasible(rv: Seq<InputRecordV>, d: Seq<char>) -> bool {
    &&& forall|t: int| 0 <= t < rv.len() ==> (#[trigger] rv[t]).key_count >= 0
    &&& sum_keys(rv, d) <= i64::MAX
    &&& rv.len() <= i64::MAX
}

/// With non-negative key counts, every aggregate is non-negative, the
/// row counts are bounded by the row number, and each application's
/// share is bounded by the day's totals.
proof fn lemma_sums_bounds(rows: Seq<InputRecordV>, d: Seq<char>, app: Seq<char>)
    requires
        forall|t: int| 0 <= t < rows.len() ==> (#[trigger] rows[t]).key_count >= 0,
    ensures
        0 <= sum_keys(rows, d),
        0 <= count_matching(rows, d) <= rows.len(),
        0 <= sum_keys_app(rows, d, app) <= sum_keys(rows, d),
        0 <= count_app(rows, d, app) <= count_matching(rows, d),
    decreases rows.len(),
{
    if rows.len() > 0 {
        let p = rows.drop_last();
        assert forall|t: int| 0 <= t < p.len() implies (#[trigger] p[t]).key_count >= 0 by {
            assert(p[t] == rows[t]);
        }
        lemma_sums_bounds(p, d, app);
        assert(rows.last().key_count >= 0);
    }
}

/// With non-negative key counts a prefix's totals never exceed the
/// whole sequence's.
proof fn lemma_sums_prefix(rows: Seq<InputRecordV>, d: Seq<char>, i: int)
    requires
        forall|t: int| 0 <= t < rows.len() ==> (#[trigger] rows[t]).key_count >= 0,
        0 <= i <= rows.len(),
    ensures
        sum_keys(rows.subrange(0, i), d) <= sum_keys(rows, d),
        count_matching(rows.subrange(0, i), d) <= count_matching(rows, d),
    decreases rows.len() - i,
{
    if i < rows.len() {
        lemma_sums_prefix(rows, d, i + 1);
        lemma_sums_step(rows, i, d, rows[i].app_name);
        assert(rows[i].key_count >= 0);
    } else {
        assert(rows.subrange(0, i) =~= rows);
    }
}

/// Everything the daily aggregate promises: exact totals, and a
/// breakdown that is exact, complete, duplicate-free and free of
/// spurious entries (every listed application has a row that day),
/// ordered by descending key count, with sums equal to the totals.
pub open spec fn daily_stats_ok(s: DailyStats, rv: Seq<InputRecordV>, d: Seq<char>) -> bool {
    &&& s.date@ == d
    &&& s.total_keys as int == sum_keys(rv, d)
    &&& s.total_records as int == count_matching(rv, d)
    &&& sum_entries(s.app_stats@) == s.total_keys as int
    &&& count_entries(s.app_stats@) == s.total_records as int
    &&& sorted_desc_stats(s.app_stats@)
    &&& distinct_names(s.app_stats@)
    &&& forall|i: int| 0 <= i < s.app_stats@.len() ==> entry_ok(#[trigger] s.app_stats@[i], rv, d)
    &&& forall|i: int|
        0 <= i < s.app_stats@.len() ==> day_app_before(
            rv,
            d,
            (#[trigger] s.app_stats@[i]).app_name@,
            rv.len() as int,
        )
    &&& forall|t: int|
        0 <= t < rv.len() && date_matches(#[trigger] rv[t], d) ==> has_name(
            s.app_stats@,
            rv[t].app_name,
        )
}

/// Computes the daily totals and the per-application breakdown for day
/// `date` over the given rows. `None` only when a counter leaves the
/// 64-bit range, the same condition on which the storage engine's own
/// aggregation fails.
#[verifier::rlimit(100)]
pub fn compute_daily_stats(rows: &Vec<InputRecord>, date: &str) -> (r: Option<DailyStats>)
    ensures
        r matches Some(s) ==> daily_stats_ok(s, views_of(rows@), date@),
        stats_feasible(views_of(rows@), date@) ==> r is Some,
{
    let ghost rv = views_of(rows@);
    let ghost d = date@;
    let n = rows.len();
    let mut tk: i64 = 0;
    let mut tc: i64 = 0;
    let mut entries: Vec<AppStats> = Vec::new();
    let mut i: usize = 0;
    while i < n
        invariant
            n == rows.len(),
            rv == views_of(rows@),
            d == date@,
            rv.len() == n,
            i <= n,
            tk as int == sum_keys(rv.subrange(0, i as int), d),
            tc as int == count_matching(rv.subrange(0, i as int), d),
            sum_entries(entries@) == tk as int,
            count_entries(entries@) == tc as int,
            distinct_names(entries@),
            forall|j: int|
                0 <= j < entries@.len() ==> entry_ok(
                    #[trigger] entries@[j],
                    rv.subrange(0, i as int),
                    d,
                ),
            forall|t: int|
                0 <= t < i && date_matches(#[trigger] rv[t], d) ==> has_name(
                    entries@,
                    rv[t].app_name,
                ),
            forall|j: int|
                0 <= j < entries@.len() ==> day_app_before(
                    rv,
                    d,
                    (#[trigger] entries@[j]).app_name@,
                    i as int,
                ),
        decreases n - i,
    {
        proof {
            assert(views_of(rows@)[i as int] == rows@[i as int]@);
        }
        let rec = &rows[i];
        let matched = row_matches_date(rec, date);
        if matched {
            let k = rec.key_count;
            proof {
                assert(rec@ == rv[i as int]);
            }
            tk = match tk.checked_add(k) {
                Some(t) => t,
                None => {
                    proof {
                        if stats_feasible(rv, d) {
                            let pre1 = rv.subrange(0, i as int + 1);
                            assert forall|t: int| 0 <= t < pre1.len() implies (
                            #[trigger] pre1[t]).key_count >= 0 by {
                                assert(pre1[t] == rv[t]);
                            }
                            lemma_sums_bounds(pre1, d, rv[i as int].app_name);
                            lemma_sums_step(rv, i as int, d, rv[i as int].app_name);
                            lemma_sums_prefix(rv, d, i as int + 1);
                            assert(false);
                        }
                    }
                    return None;
                },
            };
            if tc == i64::MAX {
                proof {
                    if stats_feasible(rv, d) {
                        let pre = rv.subrange(0, i as int);
                        assert forall|t: int| 0 <= t < pre.len() implies (
                        #[trigger] pre[t]).key_count >= 0 by {
                            assert(pre[t] == rv[t]);
                        }
                        lemma_sums_bounds(pre, d, rv[i as int].app_name);
                        assert(tc as int <= i as int);
                        assert(false);
                    }
                }
                return None;
            }
            tc = tc + 1;
            let ok = apply_row_to_entries(
                &mut entries,
                &rec.app_name,
                k,
                Ghost(rv),
                Ghost(i as int),
                Ghost(d),
            );
            if !ok {
                proof {
                    if stats_feasible(rv, d) {
                        let pre1 = rv.subrange(0, i as int + 1);
                        assert forall|t: int| 0 <= t < pre1.len() implies (
                        #[trigger] pre1[t]).key_count >= 0 by {
                            assert(pre1[t] == rv[t]);
                        }
                        lemma_sums_bounds(pre1, d, rv[i as int].app_name);
                        lemma_sums_prefix(rv, d, i as int + 1);
                        assert(false);
                    }
                }
                return None;
            }
            proof {
                lemma_sums_step(rv, i as int, d, rv[i as int].app_name);
            }
        } else {
            proof {
                lemma_sums_step(rv, i as int, d, rv[i as int].app_name);
                assert forall|j: int| 0 <= j < entries@.len() implies entry_ok(
                    #[trigger] entries@[j],
                    rv.subrange(0, i as int + 1),
                    d,
                ) by {
                    lemma_sums_step(rv, i as int, d, entries@[j].app_name@);
                }
                assert forall|j: int| 0 <= j < entries@.len() implies day_app_before(
                    rv,
                    d,
                    (#[trigger] entries@[j]).app_name@,
                    i as int + 1,
                ) by {
                    assert(day_app_before(rv, d, entries@[j].app_name@, i as int));
                }
            }
        }
        i = i + 1;
    }
    proof {
        assert(rv.subrange(0, n as int) =~= rv);
    }
    let ghost efinal = entries@;
    let sorted = sort_stats_desc(entries);
    proof {
        assert forall|j: int| 0 <= j < sorted@.len() implies day_app_before(
            rv,
            d,
            (#[trigger] sorted@[j]).app_name@,
            rv.len() as int,
        ) by {
            assert(appears(efinal, sorted@[j]));
            let jj = choose|jj: int| 0 <= jj < efinal.len() && efinal[jj] == sorted@[j];
            assert(day_app_before(rv, d, efinal[jj].app_name@, n as int));
        }
    }
    let d2 = String::from_str(date);
    Some(DailyStats { date: d2, total_keys: tk, total_records: tc, app_stats: sorted })
}

/// An application with no breakdown entry has no matching rows, so its
/// per-application sums over the prefix are zero.
proof fn lemma_app_sums_absent(
    pre: Seq<InputRecordV>,
    d: Seq<char>,
    app: Seq<char>,
    entries: Seq<AppStats>,
)
    requires
        forall|t: int|
            0 <= t < pre.len() && date_matches(#[trigger] pre[t], d) ==> has_name(
                entries,
                pre[t].app_name,
            ),
        forall|j: int| 0 <= j < entries.len() ==> (#[trigger] entries[j]).app_name@ != app,
    ensures
        sum_keys_app(pre, d, app) == 0,
        count_app(pre, d, app) == 0,
    decreases pre.len(),
{
    if pre.len() > 0 {
        let p0 = pre.drop_last();
        assert forall|t: int| 0 <= t < p0.len() && date_matches(#[trigger] p0[t], d) implies
            has_name(entries, p0[t].app_name) by {
            assert(p0[t] == pre[t]);
        }
        lemma_app_sums_absent(p0, d, app, entries);
        if date_matches(pre.last(), d) && pre.last().app_name == app {
            let t = pre.len() - 1;
            assert(date_matches(pre[t], d));
            assert(has_name(entries, app));
            let j0 = choose|j0: int| 0 <= j0 < entries.len() && entries[j0].app_name@ == app;
            assert(false);
        }
    }
}

/// Some listed name equals `nm`.
pub open spec fn has_string(s: Seq<String>, nm: Seq<char>) -> bool {
    exists|i: int| 0 <= i < s.len() && (#[trigger] s[i])@ == nm
}

/// Some row carries the application name `nm`.
pub open spec fn has_app(rv: Seq<InputRecordV>, nm: Seq<char>) -> bool {
    exists|t: int| 0 <= t < rv.len() && (#[trigger] rv[t]).app_name == nm
}

/// Collects the distinct application names, in strictly ascending order:
/// a name is listed exactly when some row carries it.
#[verifier::rlimit(100)]
pub fn collect_app_names(rows: &Vec<InputRecord>) -> (out: Vec<String>)
    ensures
        forall|i: int|
            0 <= i && i + 1 < out@.len() ==> lex_lt(#[trigger] out@[i]@, out@[i + 1]@),
        forall|i: int| 0 <= i < out@.len() ==> has_app(views_of(rows@), #[trigger] out@[i]@),
        forall|t: int|
            0 <= t < rows@.len() ==> has_string(out@, (#[trigger] views_of(rows@)[t]).app_name),
{
    let ghost rv = views_of(rows@);
    let n = rows.len();
    let mut out: Vec<String> = Vec::new();
    let mut i: usize = 0;
    while i < n
        invariant
            n == rows.len(),
            rv == views_of(rows@),
            rv.len() == n,
            i <= n,
            forall|p: int|
                0 <= p && p + 1 < out@.len() ==> lex_lt(#[trigger] out@[p]@, out@[p + 1]@),
            forall|p: int| 0 <= p < out@.len() ==> has_app(rv, #[trigger] out@[p]@),
            forall|t: int| 0 <= t < i ==> has_string(out@, (#[trigger] rv[t]).app_name),
        decreases n - i,
    {
        proof {
            assert(views_of(rows@)[i as int] == rows@[i as int]@);
        }
        let name = &rows[i].app_name;
        let m = out.len();
        let mut pos: usize = 0;
        let mut stop = false;
        while pos < m && !stop
            invariant
                m == out.len(),
                pos <= m,
                forall|j: int| 0 <= j < pos ==> lex_lt(#[trigger] out@[j]@, name@),
                stop ==> pos < m && !lex_lt(out@[pos as int]@, name@),
            decreases m - pos + (if stop {
                0int
            } else {
                1int
            }),
        {
            if str_lex_lt(out[pos].as_str(), name.as_str()) {
                pos = pos + 1;
            } else {
                stop = true;
            }
        }
        let duplicate = if pos < m {
            str_eq(out[pos].as_str(), name.as_str())
        } else {
            false
        };
        if !duplicate {
            let ghost o0 = out@;
            let ghost pi = pos as int;
            proof {
                if pi < o0.len() {
                    lemma_lex_lt_connex(o0[pi]@, name@);
                }
            }
            let cl = name.clone();
            out.insert(pos, cl);
            proof {
                assert(out@ =~= o0.subrange(0, pi).push(*name) + o0.subrange(
                    pi,
                    o0.len() as int,
                ));
                assert forall|t: int| 0 <= t < out@.len() implies #[trigger] out@[t]@ == (if t
                    < pi {
                    o0[t]@
                } else if t == pi {
                    name@
                } else {
                    o0[t - 1]@
                }) by {}
                assert forall|p: int| 0 <= p && p + 1 < out@.len() implies lex_lt(
                    #[trigger] out@[p]@,
                    out@[p + 1]@,
                ) by {
                    if p + 1 < pi {
                        assert(lex_lt(o0[p]@, o0[p + 1]@));
                    } else if p + 1 == pi {
                        assert(lex_lt(o0[p]@, name@));
                    } else if p == pi {
                        assert(!lex_lt(o0[p]@, name@) && o0[p]@ != name@);
                        assert(lex_lt(name@, o0[p]@));
                    } else {
                        assert(lex_lt(o0[p - 1]@, o0[p]@));
                    }
                }
                assert forall|p: int| 0 <= p < out@.len() implies has_app(
                    rv,
                    #[trigger] out@[p]@,
                ) by {
                    if p == pi {
                        assert(rv[i as int].app_name == name@);
                    } else if p < pi {
                        assert(has_app(rv, o0[p]@));
                    } else {
                        assert(has_app(rv, o0[p - 1]@));
                    }
                }
                assert forall|t: int| 0 <= t < i + 1 implies has_string(
                    out@,
                    (#[trigger] rv[t]).app_name,
                ) by {
                    if t == i {
                        assert(out@[pi]@ == rv[i as int].app_name);
                    } else {
                        assert(has_string(o0, rv[t].app_name));
                        let p0 = choose|p0: int| 0 <= p0 < o0.len() && o0[p0]@ == rv[t].app_name;
                        if p0 < pi {
                            assert(out@[p0]@ == rv[t].app_name);
                        } else {
                            assert(out@[p0 + 1]@ == rv[t].app_name);
                        }
                    }
                }
            }
        } else {
            proof {
                assert forall|t: int| 0 <= t < i + 1 implies has_string(
                    out@,
                    (#[trigger] rv[t]).app_name,
                ) by {
                    if t == i {
                        assert(out@[pos as int]@ == rv[i as int].app_name);
                    }
                }
            }
        }
        i = i + 1;
    }
    out
}

} // verus!
