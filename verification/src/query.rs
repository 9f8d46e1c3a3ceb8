//! The filtered-retrieval pipeline: lenient timestamp repair, the
//! conjunctive filter predicate, a stable descending sort by timestamp,
//! and limit/offset pagination. `query_spec` is the exact statement of
//! what a query returns; `apply_query` is the verified implementation.

use vstd::prelude::*;
use vstd::string::*;

use crate::models::{InputRecord, InputRecordV, SearchFilter};
use crate::store::views_of;
use crate::text::{
    contains_sub, is_valid_timestamp, is_valid_ts, lemma_lex_lt_asym, lemma_lex_lt_connex,
    lemma_lex_lt_trans, lex_lt, str_contains, str_lex_lt,
};

verus! {

/// A row as the query layer sees it: a stored row whose malformed
/// timestamp is replaced by the current time at read time. (This keeps
/// the store lenient about corrupted history, at the cost of reordering
/// such rows under the timestamp sort.)
pub open spec fn repair_one(r: InputRecordV, now: Seq<char>) -> InputRecordV {
    if is_valid_ts(r.timestamp) {
        r
    } else {
        InputRecordV { timestamp: now, ..r }
    }
}

/// Timestamp repair over a whole row sequence.
pub open spec fn repaired(rows: Seq<InputRecordV>, now: Seq<char>) -> Seq<InputRecordV> {
    rows.map_values(|r: InputRecordV| repair_one(r, now))
}

/// The conjunctive filter: substring on content, exact application name,
/// inclusive timestamp bounds; absent fields do not constrain.
pub open spec fn matches_filter(r: InputRecordV, f: SearchFilter) -> bool {
    &&& match f.query {
        Some(q) => contains_sub(r.content, q@),
        None => true,
    }
    &&& match f.app_name {
        Some(a) => r.app_name == a@,
        None => true,
    }
    &&& match f.start_date {
        Some(d) => !lex_lt(r.timestamp, d@),
        None => true,
    }
    &&& match f.end_date {
        Some(d) => !lex_lt(d@, r.timestamp),
        None => true,
    }
}

/// The rows that pass the filter, in stored order.
pub open spec fn filter_rows(rows: Seq<InputRecordV>, f: SearchFilter) -> Seq<InputRecordV> {
    rows.filter(|r: InputRecordV| matches_filter(r, f))
}

/// Stable insertion before the first strictly older row: descending by
/// timestamp, ties and equal keys keeping their existing order.
pub open spec fn insert_desc(s: Seq<InputRecordV>, r: InputRecordV) -> Seq<InputRecordV>
    decreases s.len(),
{
    if s.len() == 0 {
        seq![r]
    } else if lex_lt(s[0].timestamp, r.timestamp) {
        seq![r] + s
    } else {
        seq![s[0]] + insert_desc(s.skip(1), r)
    }
}

/// Stable insertion sort, descending by timestamp.
pub open spec fn sort_desc(rows: Seq<InputRecordV>) -> Seq<InputRecordV>
    decreases rows.len(),
{
    if rows.len() == 0 {
        Seq::empty()
    } else {
        insert_desc(sort_desc(rows.drop_last()), rows.last())
    }
}

/// The offset actually applied: absent or negative means 0.
pub open spec fn eff_offset(f: SearchFilter) -> int {
    match f.offset {
        Some(o) => if o < 0 {
            0
        } else {
            o as int
        },
        None => 0,
    }
}

/// The limit actually applied: absent means 100, negative means no bound.
pub open spec fn eff_limit(f: SearchFilter, n: int) -> int {
    match f.limit {
        Some(l) => if l < 0 {
            n
        } else {
            l as int
        },
        None => 100,
    }
}

/// One page: `lim` rows starting at `off`, clipped to the sequence.
pub open spec fn page(s: Seq<InputRecordV>, off: int, lim: int) -> Seq<InputRecordV> {
    let start = if off <= s.len() {
        off
    } else {
        s.len() as int
    };
    let end = if off + lim <= s.len() {
        off + lim
    } else {
        s.len() as int
    };
    if start <= end {
        s.subrange(start, end)
    } else {
        Seq::empty()
    }
}

/// What a query returns for the given stored rows, filter, and read-time
/// clock text: the page of the filtered rows, newest first.
pub open spec fn query_spec(rows: Seq<InputRecordV>, f: SearchFilter, now: Seq<char>) -> Seq<
    InputRecordV,
> {
    let sorted = sort_desc(filter_rows(repaired(rows, now), f));
    page(sorted, eff_offset(f), eff_limit(f, sorted.len() as int))
}

/// With a well-formed store (every stored timestamp valid), the clock
/// text read at query time plays no role: timestamp repair never fires.
pub proof fn lemma_query_ignores_now(
    rows: Seq<InputRecordV>,
    f: SearchFilter,
    n1: Seq<char>,
    n2: Seq<char>,
)
    requires
        forall|i: int| 0 <= i < rows.len() ==> is_valid_ts((#[trigger] rows[i]).timestamp),
    ensures
        query_spec(rows, f, n1) == query_spec(rows, f, n2),
{
    assert forall|i: int| 0 <= i < rows.len() implies #[trigger] repaired(rows, n1)[i] == repaired(
        rows,
        n2,
    )[i] by {
        assert(repair_one(rows[i], n1) == rows[i]);
        assert(repair_one(rows[i], n2) == rows[i]);
    }
    assert(repaired(rows, n1) =~= repaired(rows, n2));
}

/// Newest first: no row orders strictly below its successor.
pub open spec fn sorted_desc_records(s: Seq<InputRecordV>) -> bool {
    forall|i: int|
        0 <= i && i + 1 < s.len() ==> !lex_lt((#[trigger] s[i]).timestamp, s[i + 1].timestamp)
}

/// Stable descending insertion keeps the order and adds exactly the new
/// row.
#[verifier::rlimit(100)]
proof fn lemma_insert_desc_ensures(s: Seq<InputRecordV>, r: InputRecordV)
    requires
        sorted_desc_records(s),
    ensures
        insert_desc(s, r).len() == s.len() + 1,
        sorted_desc_records(insert_desc(s, r)),
        insert_desc(s, r).to_multiset() == s.to_multiset().insert(r),
    decreases s.len(),
{
    broadcast use vstd::seq_lib::group_to_multiset_ensures;

    let out = insert_desc(s, r);
    if s.len() == 0 {
        assert(seq![r] =~= s.push(r));
        assert(s.push(r).to_multiset() =~= s.to_multiset().insert(r));
    } else if lex_lt(s[0].timestamp, r.timestamp) {
        lemma_lex_lt_asym(s[0].timestamp, r.timestamp);
        assert forall|i: int| 0 <= i && i + 1 < out.len() implies !lex_lt(
            (#[trigger] out[i]).timestamp,
            out[i + 1].timestamp,
        ) by {
            if i == 0 {
                assert(out[0] == r && out[1] == s[0]);
            } else {
                assert(out[i] == s[i - 1] && out[i + 1] == s[i]);
            }
        }
        vstd::seq_lib::lemma_multiset_commutative(seq![r], s);
        assert(seq![r] =~= Seq::<InputRecordV>::empty().push(r));
        assert(Seq::<InputRecordV>::empty().push(r).to_multiset()
            =~= Seq::<InputRecordV>::empty().to_multiset().insert(r));
        assert(out.to_multiset() =~= s.to_multiset().insert(r));
    } else {
        let t = s.skip(1);
        assert forall|i: int| 0 <= i && i + 1 < t.len() implies !lex_lt(
            (#[trigger] t[i]).timestamp,
            t[i + 1].timestamp,
        ) by {
            assert(t[i] == s[i + 1] && t[i + 1] == s[i + 2]);
        }
        lemma_insert_desc_ensures(t, r);
        let it = insert_desc(t, r);
        assert(out == seq![s[0]] + it);
        assert(it[0] == r || (t.len() > 0 && it[0] == t[0]));
        assert forall|i: int| 0 <= i && i + 1 < out.len() implies !lex_lt(
            (#[trigger] out[i]).timestamp,
            out[i + 1].timestamp,
        ) by {
            if i == 0 {
                assert(out[0] == s[0] && out[1] == it[0]);
                if t.len() > 0 && it[0] == t[0] {
                    assert(t[0] == s[1]);
                    assert(!lex_lt(s[0].timestamp, s[1].timestamp));
                } else {
                    assert(it[0] == r);
                }
            } else {
                assert(out[i] == it[i - 1] && out[i + 1] == it[i]);
            }
        }
        vstd::seq_lib::lemma_multiset_commutative(seq![s[0]], it);
        vstd::seq_lib::lemma_multiset_commutative(seq![s[0]], t);
        assert(s =~= seq![s[0]] + t);
        assert(seq![s[0]] =~= Seq::<InputRecordV>::empty().push(s[0]));
        assert(Seq::<InputRecordV>::empty().push(s[0]).to_multiset()
            =~= Seq::<InputRecordV>::empty().to_multiset().insert(s[0]));
        assert(out.to_multiset() =~= s.to_multiset().insert(r));
    }
}

/// Sort correctness: the sort returns a permutation of its input,
/// descending by timestamp.
pub proof fn lemma_sort_desc_ensures(rows: Seq<InputRecordV>)
    ensures
        sort_desc(rows).len() == rows.len(),
        sorted_desc_records(sort_desc(rows)),
        sort_desc(rows).to_multiset() == rows.to_multiset(),
    decreases rows.len(),
{
    broadcast use vstd::seq_lib::group_to_multiset_ensures;

    if rows.len() > 0 {
        lemma_sort_desc_ensures(rows.drop_last());
        lemma_insert_desc_ensures(sort_desc(rows.drop_last()), rows.last());
        assert(rows =~= rows.drop_last().push(rows.last()));
        assert(rows.drop_last().push(rows.last()).to_multiset()
            =~= rows.drop_last().to_multiset().insert(rows.last()));
    }
}

/// Every query result page is itself newest-first: it is a contiguous
/// slice of the sorted, filtered rows.
pub proof fn lemma_query_spec_sorted(rows: Seq<InputRecordV>, f: SearchFilter, now: Seq<char>)
    ensures
        sorted_desc_records(query_spec(rows, f, now)),
{
    let sorted = sort_desc(filter_rows(repaired(rows, now), f));
    lemma_sort_desc_ensures(filter_rows(repaired(rows, now), f));
    let out = query_spec(rows, f, now);
    assert forall|i: int| 0 <= i && i + 1 < out.len() implies !lex_lt(
        (#[trigger] out[i]).timestamp,
        out[i + 1].timestamp,
    ) by {
        let start = if eff_offset(f) <= sorted.len() {
            eff_offset(f)
        } else {
            sorted.len() as int
        };
        assert(out[i] == sorted[start + i] && out[i + 1] == sorted[start + i + 1]);
    }
}


proof fn lemma_strict_between(s: Seq<InputRecordV>, p: int, q: int)
    requires
        sorted_desc_records(s),
        forall|x: int, y: int|
            0 <= x < y < s.len() ==> (#[trigger] s[x]).timestamp != (#[trigger] s[y]).timestamp,
        0 <= p < q < s.len(),
    ensures
        lex_lt(s[q].timestamp, s[p].timestamp),
    decreases q - p,
{
    if q == p + 1 {
        assert(s[p].timestamp != s[q].timestamp);
        lemma_lex_lt_connex(s[p].timestamp, s[q].timestamp);
        assert(!lex_lt(s[p].timestamp, s[p + 1].timestamp));
    } else {
        lemma_strict_between(s, p + 1, q);
        lemma_strict_between(s, p, p + 1);
        lemma_lex_lt_trans(s[q].timestamp, s[p + 1].timestamp, s[p].timestamp);
    }
}

/// The rank form of sort correctness: with pairwise-distinct timestamps
/// the descending order is strict, so the row at position `i` of the
/// sorted sequence is exactly the `i+1`-th most recent of its rows.
pub proof fn lemma_sorted_desc_strict(s: Seq<InputRecordV>)
    requires
        sorted_desc_records(s),
        forall|x: int, y: int|
            0 <= x < y < s.len() ==> (#[trigger] s[x]).timestamp != (#[trigger] s[y]).timestamp,
    ensures
        forall|p: int, q: int|
            0 <= p < q < s.len() ==> lex_lt((#[trigger] s[q]).timestamp, (#[trigger] s[p]).timestamp),
{
    assert forall|p: int, q: int| 0 <= p < q < s.len() implies lex_lt(
        (#[trigger] s[q]).timestamp,
        (#[trigger] s[p]).timestamp,
    ) by {
        lemma_strict_between(s, p, q);
    }
}

/// A field-for-field copy.
pub fn clone_record(r: &InputRecord) -> (c: InputRecord)
    ensures
        c@ == r@,
{
    let c = InputRecord {
        id: r.id,
        timestamp: r.timestamp.clone(),
        app_name: r.app_name.clone(),
        window_title: match &r.window_title {
            Some(t) => Some(t.clone()),
            None => None,
        },
        content: r.content.clone(),
        key_count: r.key_count,
        created_at: match &r.created_at {
            Some(t) => Some(t.clone()),
            None => None,
        },
    };
    proof {
        assert(c@ =~= r@);
    }
    c
}

/// Decides `matches_filter`.
pub fn record_matches(r: &InputRecord, f: &SearchFilter) -> (b: bool)
    ensures
        b == matches_filter(r@, *f),
{
    let q_ok = match &f.query {
        Some(q) => str_contains(r.content.as_str(), q.as_str()),
        None => true,
    };
    let a_ok = match &f.app_name {
        Some(a) => r.app_name.eq(a),
        None => true,
    };
    let s_ok = match &f.start_date {
        Some(d) => !str_lex_lt(r.timestamp.as_str(), d.as_str()),
        None => true,
    };
    let e_ok = match &f.end_date {
        Some(d) => !str_lex_lt(d.as_str(), r.timestamp.as_str()),
        None => true,
    };
    q_ok && a_ok && s_ok && e_ok
}

/// Where stable descending insertion puts `r`: before the first strictly
/// older element.
proof fn lemma_insert_desc_split(s: Seq<InputRecordV>, r: InputRecordV, i: int)
    requires
        0 <= i <= s.len(),
        forall|j: int| 0 <= j < i ==> !lex_lt(#[trigger] s[j].timestamp, r.timestamp),
        i < s.len() ==> lex_lt(s[i].timestamp, r.timestamp),
    ensures
        insert_desc(s, r) == s.subrange(0, i) + seq![r] + s.subrange(i, s.len() as int),
    decreases i,
{
    if i == 0 {
        if s.len() == 0 {
            assert(insert_desc(s, r) =~= s.subrange(0, 0) + seq![r] + s.subrange(0, 0));
        } else {
            assert(insert_desc(s, r) == seq![r] + s);
            assert(seq![r] + s =~= s.subrange(0, 0) + seq![r] + s.subrange(0, s.len() as int));
        }
    } else {
        let t = s.skip(1);
        assert forall|j: int| 0 <= j < i - 1 implies !lex_lt(#[trigger] t[j].timestamp, r.timestamp) by {
            assert(t[j] == s[j + 1]);
        }
        if i - 1 < t.len() {
            assert(t[i - 1] == s[i]);
        }
        lemma_insert_desc_split(t, r, i - 1);
        assert(!lex_lt(s[0].timestamp, r.timestamp));
        assert(insert_desc(s, r) == seq![s[0]] + insert_desc(t, r));
        assert(seq![s[0]] + (t.subrange(0, i - 1) + seq![r] + t.subrange(i - 1, t.len() as int))
            =~= s.subrange(0, i) + seq![r] + s.subrange(i, s.len() as int));
    }
}

/// Inserts `rec` into a descending-sorted vector at its stable position.
fn insert_record_sorted(out: &mut Vec<InputRecord>, rec: InputRecord)
    ensures
        views_of(final(out)@) == insert_desc(views_of(old(out)@), rec@),
{
    let n = out.len();
    let mut i: usize = 0;
    let mut found = false;
    while i < n && !found
        invariant
            n == out.len(),
            out@ == old(out)@,
            i <= n,
            forall|j: int|
                0 <= j < i ==> !lex_lt(#[trigger] views_of(out@)[j].timestamp, rec@.timestamp),
            found ==> i < n && lex_lt(views_of(out@)[i as int].timestamp, rec@.timestamp),
        decreases n - i + (if found {
            0int
        } else {
            1int
        }),
    {
        if str_lex_lt(out[i].timestamp.as_str(), rec.timestamp.as_str()) {
            found = true;
        } else {
            i = i + 1;
        }
    }
    proof {
        lemma_insert_desc_split(views_of(old(out)@), rec@, i as int);
    }
    out.insert(i, rec);
    proof {
        let v0 = views_of(old(out)@);
        assert(views_of(out@) =~= v0.subrange(0, i as int) + seq![rec@] + v0.subrange(
            i as int,
            v0.len() as int,
        ));
    }
}

/// Sorts records descending by timestamp, stably.
pub fn sort_records_desc(v: Vec<InputRecord>) -> (out: Vec<InputRecord>)
    ensures
        views_of(out@) == sort_desc(views_of(v@)),
{
    let ghost orig = views_of(v@);
    let mut rest = v;
    let mut out: Vec<InputRecord> = Vec::new();
    while rest.len() > 0
        invariant
            views_of(rest@) == orig.skip(orig.len() - rest@.len()),
            rest@.len() <= orig.len(),
            views_of(out@) == sort_desc(orig.subrange(0, orig.len() - rest@.len())),
        decreases rest.len(),
    {
        let ghost k = orig.len() - rest@.len();
        let ghost r0 = rest@;
        let rec = rest.remove(0);
        proof {
            assert(views_of(r0)[0] == r0[0]@);
            assert(rec@ == orig.skip(k)[0]);
            assert(rec@ == orig[k]);
            assert forall|j: int| 0 <= j < rest@.len() implies #[trigger] views_of(rest@)[j]
                == orig.skip(k + 1)[j] by {
                assert(rest@[j] == r0[j + 1]);
                assert(views_of(r0)[j + 1] == r0[j + 1]@);
            }
            assert(views_of(rest@) =~= orig.skip(k + 1));
            assert(orig.subrange(0, k + 1).drop_last() =~= orig.subrange(0, k));
            assert(orig.subrange(0, k + 1).last() == orig[k]);
        }
        insert_record_sorted(&mut out, rec);
        proof {
            assert(sort_desc(orig.subrange(0, k + 1)) == insert_desc(
                sort_desc(orig.subrange(0, k)),
                orig[k],
            ));
        }
    }
    proof {
        assert(orig.subrange(0, orig.len() as int) =~= orig);
    }
    out
}

/// Applies offset and limit, clipped to the vector.
fn page_records(v: Vec<InputRecord>, f: &SearchFilter) -> (out: Vec<InputRecord>)
    ensures
        views_of(out@) == page(
            views_of(v@),
            eff_offset(*f),
            eff_limit(*f, views_of(v@).len() as int),
        ),
{
    let n = v.len();
    let start: usize = match &f.offset {
        Some(o) => {
            let ov = *o;
            if ov <= 0 {
                0
            } else if (ov as u64) >= (n as u64) {
                n
            } else {
                ov as usize
            }
        },
        None => 0,
    };
    let end: usize = match &f.limit {
        Some(l) => {
            let lv = *l;
            if lv < 0 {
                n
            } else if ((n - start) as u64) > (lv as u64) {
                start + (lv as usize)
            } else {
                n
            }
        },
        None => {
            if n - start > 100 {
                start + 100
            } else {
                n
            }
        },
    };
    proof {
        let s = views_of(v@);
        let off = eff_offset(*f);
        let lim = eff_limit(*f, s.len() as int);
        assert(start as int == if off <= s.len() {
            off
        } else {
            s.len() as int
        });
        assert(end as int == if off + lim <= s.len() {
            off + lim
        } else {
            s.len() as int
        });
    }
    let mut out: Vec<InputRecord> = Vec::new();
    let mut i: usize = start;
    while i < end
        invariant
            start <= i <= end,
            end <= n,
            n == v.len(),
            views_of(out@) == views_of(v@).subrange(start as int, i as int),
        decreases end - i,
    {
        let ghost o0 = out@;
        let c = clone_record(&v[i]);
        out.push(c);
        proof {
            assert(o0.len() == views_of(o0).len());
            assert(o0.len() == i - start);
            assert forall|j: int| 0 <= j < out@.len() implies #[trigger] views_of(out@)[j]
                == views_of(v@).subrange(start as int, i as int + 1)[j] by {
                assert(views_of(out@)[j] == out@[j]@);
                assert(views_of(v@).subrange(start as int, i as int + 1)[j] == views_of(v@)[start
                    + j]);
                assert(views_of(v@)[start + j] == v@[start + j]@);
                if j < o0.len() {
                    assert(out@[j] == o0[j]);
                    assert(views_of(o0)[j] == o0[j]@);
                    assert(views_of(o0)[j] == views_of(v@).subrange(start as int, i as int)[j]);
                    assert(views_of(v@).subrange(start as int, i as int)[j] == views_of(v@)[start
                        + j]);
                } else {
                    assert(out@[j] == c);
                    assert(views_of(v@)[i as int] == v@[i as int]@);
                }
            }
            assert(views_of(out@) =~= views_of(v@).subrange(start as int, i as int + 1));
        }
        i = i + 1;
    }
    proof {
        if start >= end {
            assert(views_of(out@) =~= page(
                views_of(v@),
                eff_offset(*f),
                eff_limit(*f, views_of(v@).len() as int),
            ));
        }
    }
    out
}

/// The verified query pipeline over a fetched row set: repair, filter,
/// sort newest-first, page.
pub fn apply_query(rows: Vec<InputRecord>, f: &SearchFilter, now: &str) -> (out: Vec<InputRecord>)
    ensures
        views_of(out@) == query_spec(views_of(rows@), *f, now@),
{
    let ghost orig = views_of(rows@);
    let mut rest = rows;
    let mut kept: Vec<InputRecord> = Vec::new();
    while rest.len() > 0
        invariant
            views_of(rest@) == orig.skip(orig.len() - rest@.len()),
            rest@.len() <= orig.len(),
            views_of(kept@) == filter_rows(
                repaired(orig.subrange(0, orig.len() - rest@.len()), now@),
                *f,
            ),
        decreases rest.len(),
    {
        let ghost k = orig.len() - rest@.len();
        let ghost r0 = rest@;
        let mut rec = rest.remove(0);
        proof {
            assert(views_of(r0)[0] == r0[0]@);
            assert(rec@ == orig.skip(k)[0]);
            assert(rec@ == orig[k]);
            assert forall|j: int| 0 <= j < rest@.len() implies #[trigger] views_of(rest@)[j]
                == orig.skip(k + 1)[j] by {
                assert(rest@[j] == r0[j + 1]);
                assert(views_of(r0)[j + 1] == r0[j + 1]@);
            }
            assert(views_of(rest@) =~= orig.skip(k + 1));
        }
        if !is_valid_timestamp(rec.timestamp.as_str()) {
            rec.timestamp = String::from_str(now);
        }
        proof {
            assert(rec@ =~= repair_one(orig[k], now@));
        }
        let keep = record_matches(&rec, f);
        proof {
            reveal(Seq::filter);
            let p0 = repaired(orig.subrange(0, k), now@);
            let p1 = repaired(orig.subrange(0, k + 1), now@);
            assert(p1.drop_last() =~= p0);
            assert(p1.last() == repair_one(orig[k], now@));
            assert(filter_rows(p1, *f) == if matches_filter(p1.last(), *f) {
                filter_rows(p0, *f).push(p1.last())
            } else {
                filter_rows(p0, *f)
            });
        }
        if keep {
            kept.push(rec);
        }
    }
    proof {
        assert(orig.subrange(0, orig.len() as int) =~= orig);
    }
    let sorted = sort_records_desc(kept);
    page_records(sorted, f)
}

} // verus!
