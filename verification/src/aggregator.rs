//! The input aggregator: folds the serial key-event stream into one
//! mutable session buffer, decides session boundaries (application change
//! or idle timeout), applies the exclusion filter, and emits the record to
//! commit on each flush. The whole per-event transition is captured by the
//! spec functions `step_press`, `step_release` and `step_tick`, which the
//! executable handlers are proved to follow exactly.

use vstd::prelude::*;
use vstd::string::*;

use crate::keys::{append_contribution, is_shift, is_shift_key, key_char, key_contrib, key_token, Key};
use crate::models::{InputRecord, InputRecordV, WindowInfo, WindowInfoV};
use crate::text::{eq_ignore_case, str_eq_ignore_case};

verus! {

/// The one live session buffer: record fields accumulated before commit,
/// plus the monotonic time of the last accepted input.
pub struct InputBuffer {
    pub content: String,
    pub app_name: String,
    pub window_title: Option<String>,
    pub timestamp: String,
    pub last_input_ms: u64,
    pub key_count: i64,
}

/// View of an `InputBuffer`.
#[verifier::ext_equal]
pub ghost struct InputBufferV {
    pub content: Seq<char>,
    pub app_name: Seq<char>,
    pub window_title: Option<Seq<char>>,
    pub timestamp: Seq<char>,
    pub last_input_ms: u64,
    pub key_count: int,
}

impl View for InputBuffer {
    type V = InputBufferV;

    open spec fn view(&self) -> InputBufferV {
        InputBufferV {
            content: self.content@,
            app_name: self.app_name@,
            window_title: match self.window_title {
                Some(t) => Some(t@),
                None => None,
            },
            timestamp: self.timestamp@,
            last_input_ms: self.last_input_ms,
            key_count: self.key_count as int,
        }
    }
}

/// A buffer is empty exactly when no content has accumulated.
pub open spec fn buf_empty(b: InputBufferV) -> bool {
    b.content.len() == 0
}

/// A buffer after a flush or at startup: everything cleared except the
/// idle clock.
pub open spec fn reset_buf(b: InputBufferV) -> InputBufferV {
    InputBufferV {
        content: Seq::empty(),
        app_name: Seq::empty(),
        window_title: None,
        timestamp: Seq::empty(),
        key_count: 0,
        last_input_ms: b.last_input_ms,
    }
}

/// The record a flush of `b` commits: the buffer's stamped start time and
/// accumulated fields; `id` and `created_at` are store-assigned.
pub open spec fn flushed_record(b: InputBufferV) -> InputRecordV {
    InputRecordV {
        id: None,
        timestamp: b.timestamp,
        app_name: b.app_name,
        window_title: b.window_title,
        content: b.content,
        key_count: b.key_count,
        created_at: None,
    }
}

impl InputBuffer {
    /// A fresh, empty buffer.
    pub fn new() -> (r: Self)
        ensures
            buf_empty(r@),
            r@ == reset_buf(r@),
            r@.last_input_ms == 0u64,
    {
        let r = InputBuffer {
            content: String::new(),
            app_name: String::new(),
            window_title: None,
            timestamp: String::new(),
            last_input_ms: 0,
            key_count: 0,
        };
        proof {
            assert(r@ =~= reset_buf(r@));
        }
        r
    }

    /// Clears everything but the idle clock.
    pub fn reset(&mut self)
        ensures
            final(self)@ == reset_buf(old(self)@),
    {
        self.content = String::new();
        self.app_name = String::new();
        self.window_title = None;
        self.timestamp = String::new();
        self.key_count = 0;
        proof {
            assert(self@ =~= reset_buf(old(self)@));
        }
    }

    /// No content has accumulated.
    pub fn is_empty(&self) -> (r: bool)
        ensures
            r == buf_empty(self@),
    {
        self.content.as_str().is_empty()
    }
}

/// Aggregator state: the live buffer, the shift flag, the exclusion set
/// and the configured merge interval.
pub struct InputAggregator {
    pub buffer: InputBuffer,
    pub shift_pressed: bool,
    pub excluded_apps: Vec<String>,
    pub merge_interval_ms: u64,
}

/// View of an `InputAggregator`.
#[verifier::ext_equal]
pub ghost struct InputAggregatorV {
    pub buffer: InputBufferV,
    pub shift_pressed: bool,
    pub excluded_apps: Seq<Seq<char>>,
    pub merge_interval_ms: u64,
}

impl View for InputAggregator {
    type V = InputAggregatorV;

    open spec fn view(&self) -> InputAggregatorV {
        InputAggregatorV {
            buffer: self.buffer@,
            shift_pressed: self.shift_pressed,
            excluded_apps: self.excluded_apps.deep_view(),
            merge_interval_ms: self.merge_interval_ms,
        }
    }
}

/// Well-formedness of the aggregator state: the key count never goes
/// negative, and a buffer with content has counted at least one key
/// action (the data model owes `key_count >= 1` of every flushed record).
pub open spec fn agg_wf(s: InputAggregatorV) -> bool {
    s.buffer.key_count >= 0 && (!buf_empty(s.buffer) ==> s.buffer.key_count >= 1)
}

/// Membership in the exclusion set, up to ASCII case.
pub open spec fn excluded_spec(ex: Seq<Seq<char>>, app: Seq<char>) -> bool {
    exists|i: int| 0 <= i < ex.len() && eq_ignore_case(#[trigger] ex[i], app)
}

/// Idle time in milliseconds; a clock that moved backwards counts as no
/// idle time.
pub open spec fn elapsed(now: u64, last: u64) -> int {
    if now >= last {
        now - last
    } else {
        0
    }
}

/// Saturating key count: one more logical key action.
pub open spec fn inc_count(c: int) -> int {
    if c < i64::MAX {
        c + 1
    } else {
        c
    }
}

/// View of an optional window context.
pub open spec fn opt_win_view(c: Option<WindowInfo>) -> Option<WindowInfoV> {
    match c {
        Some(w) => Some(w@),
        None => None,
    }
}

/// View of an optional emitted record.
pub open spec fn opt_rec_view(o: Option<InputRecord>) -> Option<InputRecordV> {
    match o {
        Some(r) => Some(r@),
        None => None,
    }
}

/// The full per-press transition: shift tracking, context and exclusion
/// filtering, boundary flush, then the accepted contribution with
/// first-contribution stamping. Returns the next state and the record
/// flushed by a boundary, if any.
pub open spec fn step_press(
    s: InputAggregatorV,
    key: Key,
    ctx: Option<WindowInfoV>,
    now: u64,
    wall: Seq<char>,
) -> (InputAggregatorV, Option<InputRecordV>) {
    if is_shift(key) {
        (InputAggregatorV { shift_pressed: true, ..s }, None)
    } else {
        match ctx {
            None => (s, None),
            Some(w) => {
                if excluded_spec(s.excluded_apps, w.app_name) {
                    (s, None)
                } else {
                    let boundary = !buf_empty(s.buffer) && (s.buffer.app_name != w.app_name
                        || elapsed(now, s.buffer.last_input_ms) > s.merge_interval_ms);
                    let out = if boundary {
                        Some(flushed_record(s.buffer))
                    } else {
                        None
                    };
                    let b0 = if boundary {
                        reset_buf(s.buffer)
                    } else {
                        s.buffer
                    };
                    match key_contrib(key, s.shift_pressed) {
                        None => (InputAggregatorV { buffer: b0, ..s }, out),
                        Some(t) => {
                            let b1 = if buf_empty(b0) {
                                InputBufferV {
                                    app_name: w.app_name,
                                    window_title: w.window_title,
                                    timestamp: wall,
                                    ..b0
                                }
                            } else {
                                b0
                            };
                            let b2 = InputBufferV {
                                content: b1.content + t,
                                key_count: inc_count(b1.key_count),
                                last_input_ms: now,
                                ..b1
                            };
                            (InputAggregatorV { buffer: b2, ..s }, out)
                        },
                    }
                }
            },
        }
    }
}

/// Key releases only clear shift state.
pub open spec fn step_release(s: InputAggregatorV, key: Key) -> InputAggregatorV {
    if is_shift(key) {
        InputAggregatorV { shift_pressed: false, ..s }
    } else {
        s
    }
}

/// The scheduler's check: flush a non-empty buffer idle past the merge
/// interval.
pub open spec fn step_tick(s: InputAggregatorV, now: u64) -> (
    InputAggregatorV,
    Option<InputRecordV>,
) {
    if !buf_empty(s.buffer) && elapsed(now, s.buffer.last_input_ms) > s.merge_interval_ms {
        (
            InputAggregatorV { buffer: reset_buf(s.buffer), ..s },
            Some(flushed_record(s.buffer)),
        )
    } else {
        (s, None)
    }
}

impl InputAggregator {
    /// A fresh aggregator with the given tunables and an empty buffer.
    pub fn new(merge_interval_ms: u64, excluded_apps: Vec<String>) -> (r: Self)
        ensures
            buf_empty(r@.buffer),
            r@.buffer.key_count == 0,
            r@.shift_pressed == false,
            r@.excluded_apps == excluded_apps.deep_view(),
            r@.merge_interval_ms == merge_interval_ms,
            agg_wf(r@),
    {
        InputAggregator {
            buffer: InputBuffer::new(),
            shift_pressed: false,
            excluded_apps,
            merge_interval_ms,
        }
    }

    /// Replaces the live exclusion set.
    pub fn set_excluded_apps(&mut self, apps: Vec<String>)
        ensures
            final(self)@ == (InputAggregatorV { excluded_apps: apps.deep_view(), ..old(self)@ }),
    {
        self.excluded_apps = apps;
        proof {
            assert(self@ =~= (InputAggregatorV {
                excluded_apps: self.excluded_apps.deep_view(),
                ..old(self)@
            }));
        }
    }

    /// Decides membership in the exclusion set, up to ASCII case.
    pub fn is_app_excluded(&self, app_name: &str) -> (r: bool)
        ensures
            r == excluded_spec(self@.excluded_apps, app_name@),
    {
        let n = self.excluded_apps.len();
        let mut i: usize = 0;
        while i < n
            invariant
                n == self.excluded_apps.len(),
                i <= n,
                forall|j: int|
                    0 <= j < i ==> !eq_ignore_case(
                        #[trigger] self.excluded_apps.deep_view()[j],
                        app_name@,
                    ),
            decreases n - i,
        {
            let hit = str_eq_ignore_case(self.excluded_apps[i].as_str(), app_name);
            proof {
                assert(self.excluded_apps.deep_view()[i as int] == self.excluded_apps@[i as int]@);
            }
            if hit {
                return true;
            }
            i = i + 1;
        }
        false
    }

    /// Applies `step_press` for one key press. `ctx` is the foreground
    /// context, `now_ms` the monotonic time, and `wall` the wall-clock
    /// text a first contribution stamps the session with.
    pub fn handle_key_press(
        &mut self,
        key: Key,
        ctx: Option<WindowInfo>,
        now_ms: u64,
        wall: &str,
    ) -> (out: Option<InputRecord>)
        ensures
            final(self)@ == step_press(old(self)@, key, opt_win_view(ctx), now_ms, wall@).0,
            opt_rec_view(out) == step_press(old(self)@, key, opt_win_view(ctx), now_ms, wall@).1,
    {
        let ghost spec_result = step_press(old(self)@, key, opt_win_view(ctx), now_ms, wall@);
        if is_shift_key(key) {
            self.shift_pressed = true;
            proof {
                assert(self@ =~= spec_result.0);
            }
            return None;
        }
        let w = match ctx {
            None => {
                return None;
            },
            Some(w) => w,
        };
        if self.is_app_excluded(w.app_name.as_str()) {
            return None;
        }
        let empty_before = self.buffer.is_empty();
        let el = if now_ms >= self.buffer.last_input_ms {
            now_ms - self.buffer.last_input_ms
        } else {
            0
        };
        let boundary = !empty_before && (!self.buffer.app_name.eq(&w.app_name) || el
            > self.merge_interval_ms);
        let out: Option<InputRecord> = if boundary {
            let rec = InputRecord {
                id: None,
                timestamp: self.buffer.timestamp.clone(),
                app_name: self.buffer.app_name.clone(),
                window_title: match &self.buffer.window_title {
                    Some(t) => Some(t.clone()),
                    None => None,
                },
                content: self.buffer.content.clone(),
                key_count: self.buffer.key_count,
                created_at: None,
            };
            proof {
                assert(rec@ =~= flushed_record(old(self)@.buffer));
            }
            self.buffer.reset();
            Some(rec)
        } else {
            None
        };
        let was_empty = self.buffer.is_empty();
        let added = append_contribution(&mut self.buffer.content, key, self.shift_pressed);
        if added {
            if was_empty {
                self.buffer.app_name = w.app_name;
                self.buffer.window_title = w.window_title;
                self.buffer.timestamp = String::from_str(wall);
            }
            if self.buffer.key_count < i64::MAX {
                self.buffer.key_count = self.buffer.key_count + 1;
            }
            self.buffer.last_input_ms = now_ms;
        }
        proof {
            assert(self@ =~= spec_result.0);
            assert(opt_rec_view(out) =~= spec_result.1);
        }
        out
    }

    /// Applies `step_release` for one key release.
    pub fn handle_key_release(&mut self, key: Key)
        ensures
            final(self)@ == step_release(old(self)@, key),
    {
        if is_shift_key(key) {
            self.shift_pressed = false;
            proof {
                assert(self@ =~= step_release(old(self)@, key));
            }
        }
    }

    /// Applies `step_tick`: the scheduler's idle check, returning the
    /// record to commit when the buffer has gone stale.
    pub fn check_idle_flush(&mut self, now_ms: u64) -> (out: Option<InputRecord>)
        ensures
            final(self)@ == step_tick(old(self)@, now_ms).0,
            opt_rec_view(out) == step_tick(old(self)@, now_ms).1,
    {
        let el = if now_ms >= self.buffer.last_input_ms {
            now_ms - self.buffer.last_input_ms
        } else {
            0
        };
        if !self.buffer.is_empty() && el > self.merge_interval_ms {
            let rec = InputRecord {
                id: None,
                timestamp: self.buffer.timestamp.clone(),
                app_name: self.buffer.app_name.clone(),
                window_title: match &self.buffer.window_title {
                    Some(t) => Some(t.clone()),
                    None => None,
                },
                content: self.buffer.content.clone(),
                key_count: self.buffer.key_count,
                created_at: None,
            };
            proof {
                assert(rec@ =~= flushed_record(old(self)@.buffer));
            }
            self.buffer.reset();
            proof {
                assert(self@ =~= step_tick(old(self)@, now_ms).0);
            }
            Some(rec)
        } else {
            None
        }
    }
}



/// Every transition keeps the state well formed, and every record a
/// transition flushes carries non-empty content and at least one counted
/// key action.
pub proof fn lemma_steps_preserve_wf(
    s: InputAggregatorV,
    key: Key,
    ctx: Option<WindowInfoV>,
    now: u64,
    wall: Seq<char>,
)
    requires
        agg_wf(s),
    ensures
        agg_wf(step_press(s, key, ctx, now, wall).0),
        step_press(s, key, ctx, now, wall).1 matches Some(r) ==> r.key_count >= 1
            && r.content.len() > 0,
        agg_wf(step_tick(s, now).0),
        step_tick(s, now).1 matches Some(r) ==> r.key_count >= 1 && r.content.len() > 0,
        agg_wf(step_release(s, key)),
{
}

/// The characters a run of presses maps to, with shift released.
pub open spec fn mapped_chars(ks: Seq<Key>) -> Seq<char>
    decreases ks.len(),
{
    if ks.len() == 0 {
        Seq::empty()
    } else {
        mapped_chars(ks.drop_last()) + (match key_char(ks.last(), false) {
            Some(c) => seq![c],
            None => Seq::empty(),
        })
    }
}

/// A run of printable keys maps to one character each.
pub proof fn lemma_mapped_len(ks: Seq<Key>)
    requires
        forall|i: int| 0 <= i < ks.len() ==> key_char(#[trigger] ks[i], false) is Some,
    ensures
        mapped_chars(ks).len() == ks.len(),
    decreases ks.len(),
{
    if ks.len() > 0 {
        assert(ks.drop_last() =~= ks.subrange(0, ks.len() - 1));
        assert(forall|i: int|
            0 <= i < ks.drop_last().len() ==> ks.drop_last()[i] == ks[i]);
        lemma_mapped_len(ks.drop_last());
        assert(key_char(ks[ks.len() - 1], false) is Some);
    }
}

/// A run of presses folded through `step_press`, all in context `w`, the
/// press at position `i` at time `times[i]`: the final state and the
/// records flushed along the way.
pub open spec fn run_presses(
    s: InputAggregatorV,
    ks: Seq<Key>,
    w: WindowInfoV,
    times: Seq<u64>,
    wall: Seq<char>,
) -> (InputAggregatorV, Seq<InputRecordV>)
    decreases ks.len(),
{
    if ks.len() == 0 {
        (s, Seq::empty())
    } else {
        let prev = run_presses(s, ks.drop_last(), w, times.drop_last(), wall);
        let st = step_press(prev.0, ks.last(), Some(w), times.last(), wall);
        (
            st.0,
            match st.1 {
                Some(r) => prev.1.push(r),
                None => prev.1,
            },
        )
    }
}

/// With shift released, one non-excluded application, and every gap
/// within the merge interval, a run of printable presses flushes nothing
/// and only accumulates: the content grows by exactly the mapped
/// characters and the key count by one per press; the first contribution
/// stamps an empty buffer with the context and the wall-clock text.
pub proof fn lemma_printable_run(
    s: InputAggregatorV,
    ks: Seq<Key>,
    w: WindowInfoV,
    times: Seq<u64>,
    wall: Seq<char>,
)
    requires
        !s.shift_pressed,
        !excluded_spec(s.excluded_apps, w.app_name),
        ks.len() == times.len(),
        forall|i: int|
            0 <= i < ks.len() ==> key_token(#[trigger] ks[i]) is None && key_char(ks[i], false)
                is Some && !is_shift(ks[i]),
        forall|i: int|
            0 < i < times.len() ==> elapsed(#[trigger] times[i], times[i - 1])
                <= s.merge_interval_ms,
        !buf_empty(s.buffer) ==> s.buffer.app_name == w.app_name && (times.len() > 0 ==> elapsed(
            times[0],
            s.buffer.last_input_ms,
        ) <= s.merge_interval_ms),
        s.buffer.key_count >= 0,
        s.buffer.key_count + ks.len() <= i64::MAX,
    ensures
        ({
            let r = run_presses(s, ks, w, times, wall);
            &&& r.1 == Seq::<InputRecordV>::empty()
            &&& r.0.shift_pressed == s.shift_pressed
            &&& r.0.excluded_apps == s.excluded_apps
            &&& r.0.merge_interval_ms == s.merge_interval_ms
            &&& r.0.buffer.content == s.buffer.content + mapped_chars(ks)
            &&& r.0.buffer.key_count == s.buffer.key_count + ks.len()
            &&& r.0.buffer.last_input_ms == (if ks.len() > 0 {
                times.last()
            } else {
                s.buffer.last_input_ms
            })
            &&& r.0.buffer.app_name == (if !buf_empty(s.buffer) || ks.len() == 0 {
                s.buffer.app_name
            } else {
                w.app_name
            })
            &&& r.0.buffer.timestamp == (if !buf_empty(s.buffer) || ks.len() == 0 {
                s.buffer.timestamp
            } else {
                wall
            })
            &&& r.0.buffer.window_title == (if !buf_empty(s.buffer) || ks.len() == 0 {
                s.buffer.window_title
            } else {
                w.window_title
            })
        }),
    decreases ks.len(),
{
    if ks.len() == 0 {
        assert(s.buffer.content + mapped_chars(ks) =~= s.buffer.content);
    } else {
        let kp = ks.drop_last();
        let tp = times.drop_last();
        assert(forall|i: int| 0 <= i < kp.len() ==> kp[i] == ks[i]);
        assert(forall|i: int| 0 <= i < tp.len() ==> tp[i] == times[i]);
        lemma_printable_run(s, kp, w, tp, wall);
        let prev = run_presses(s, kp, w, tp, wall);
        let k = ks.last();
        let t = times.last();
        assert(key_token(k) is None && key_char(k, false) is Some && !is_shift(k));
        assert(key_contrib(k, prev.0.shift_pressed) == Some(
            seq![key_char(k, false)->Some_0],
        ));
        if !buf_empty(prev.0.buffer) {
            assert(prev.0.buffer.app_name == w.app_name);
            if kp.len() > 0 {
                assert(prev.0.buffer.last_input_ms == times[ks.len() - 2]);
                assert(elapsed(times[ks.len() - 1], times[ks.len() - 2]) <= s.merge_interval_ms);
            } else {
                assert(!buf_empty(s.buffer));
            }
            assert(elapsed(t, prev.0.buffer.last_input_ms) <= prev.0.merge_interval_ms);
        }
        let st = step_press(prev.0, k, Some(w), t, wall);
        assert(st.1 is None);
        assert(mapped_chars(ks) == mapped_chars(kp) + seq![key_char(k, false)->Some_0]);
        assert(st.0.buffer.content =~= s.buffer.content + mapped_chars(ks));
        assert(run_presses(s, ks, w, times, wall).0 == st.0);
        assert(run_presses(s, ks, w, times, wall).1 == prev.1);
    }
}

/// A key press while the active application is excluded never produces a
/// record and never touches the session buffer.
pub proof fn lemma_excluded_app_no_capture(
    s: InputAggregatorV,
    key: Key,
    w: WindowInfoV,
    now: u64,
    wall: Seq<char>,
)
    requires
        excluded_spec(s.excluded_apps, w.app_name),
    ensures
        step_press(s, key, Some(w), now, wall).1 is None,
        step_press(s, key, Some(w), now, wall).0.buffer == s.buffer,
{
}

/// Switching applications mid-typing flushes exactly one record, carrying
/// the prior application's accumulated session, before anything
/// accumulates for the new application: afterwards the buffer holds at
/// most the new key's own contribution, stamped with the new context.
pub proof fn lemma_app_switch_flushes(
    s: InputAggregatorV,
    key: Key,
    w: WindowInfoV,
    now: u64,
    wall: Seq<char>,
)
    requires
        !is_shift(key),
        !excluded_spec(s.excluded_apps, w.app_name),
        !buf_empty(s.buffer),
        s.buffer.app_name != w.app_name,
    ensures
        ({
            let st = step_press(s, key, Some(w), now, wall);
            &&& st.1 == Some(flushed_record(s.buffer))
            &&& flushed_record(s.buffer).app_name == s.buffer.app_name
            &&& flushed_record(s.buffer).content == s.buffer.content
            &&& flushed_record(s.buffer).key_count == s.buffer.key_count
            &&& match key_contrib(key, s.shift_pressed) {
                Some(t) => st.0.buffer.content == t && st.0.buffer.app_name == w.app_name
                    && st.0.buffer.timestamp == wall && st.0.buffer.key_count == 1,
                None => buf_empty(st.0.buffer),
            }
        }),
{
    match key_contrib(key, s.shift_pressed) {
        Some(t) => {
            assert(Seq::<char>::empty() + t =~= t);
        },
        None => {},
    }
}

/// The scheduler's check flushes the buffer exactly when it is non-empty
/// and has sat idle longer than the merge interval; the flushed record
/// carries the buffered session, and the buffer comes back empty.
pub proof fn lemma_idle_tick(s: InputAggregatorV, now: u64)
    ensures
        (!buf_empty(s.buffer) && elapsed(now, s.buffer.last_input_ms) > s.merge_interval_ms) ==> (
        step_tick(s, now).1 == Some(flushed_record(s.buffer)) && buf_empty(step_tick(s, now).0.buffer)),
        !(!buf_empty(s.buffer) && elapsed(now, s.buffer.last_input_ms) > s.merge_interval_ms) ==> (
        step_tick(s, now) == (s, Option::<InputRecordV>::None)),
{
}

/// From an empty buffer, a run of same-application printable presses
/// within the merge interval builds exactly one pending session: its
/// content is the concatenation of the mapped characters, its key count
/// the number of presses, and the first idle expiry flushes it as one
/// record with exactly those fields.
pub proof fn lemma_printable_session(
    s: InputAggregatorV,
    ks: Seq<Key>,
    w: WindowInfoV,
    times: Seq<u64>,
    wall: Seq<char>,
    later: u64,
)
    requires
        buf_empty(s.buffer),
        s.buffer.key_count == 0,
        !s.shift_pressed,
        !excluded_spec(s.excluded_apps, w.app_name),
        ks.len() > 0,
        ks.len() == times.len(),
        ks.len() <= i64::MAX,
        forall|i: int|
            0 <= i < ks.len() ==> key_token(#[trigger] ks[i]) is None && key_char(ks[i], false)
                is Some && !is_shift(ks[i]),
        forall|i: int|
            0 < i < times.len() ==> elapsed(#[trigger] times[i], times[i - 1])
                <= s.merge_interval_ms,
        elapsed(later, times.last()) > s.merge_interval_ms,
    ensures
        ({
            let r = run_presses(s, ks, w, times, wall);
            let tick = step_tick(r.0, later);
            &&& r.1 == Seq::<InputRecordV>::empty()
            &&& tick.1 matches Some(rec) && rec.content == mapped_chars(ks) && rec.key_count
                == ks.len() && rec.app_name == w.app_name && rec.timestamp == wall
            &&& buf_empty(tick.0.buffer)
        }),
{
    lemma_printable_run(s, ks, w, times, wall);
    lemma_mapped_len(ks);
    let r = run_presses(s, ks, w, times, wall);
    assert(r.0.buffer.content =~= mapped_chars(ks));
    assert(!buf_empty(r.0.buffer));
    lemma_idle_tick(r.0, later);
}


} // verus!
