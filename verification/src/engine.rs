//! The capture engine: one aggregator and one store, stepped together.
//! Each key event advances the aggregator by its spec transition; a
//! record flushed by a boundary is committed to the store at once. A
//! failed commit is surfaced to the caller and never blocks the event
//! stream: the buffer has already been reset.

use vstd::prelude::*;
use vstd::string::*;

use crate::aggregator::{agg_wf, lemma_steps_preserve_wf, opt_win_view, step_press, step_release, step_tick, InputAggregator};
use crate::keys::Key;
use crate::models::{InputRecordV, WindowInfo};
use crate::clock::now_timestamp_string;
use crate::store::{Database, StoreError};

verus! {

/// The stored rows grew by exactly the flushed record (its id and
/// insertion time are store-assigned).
pub open spec fn rows_extended(
    rows0: Seq<InputRecordV>,
    rows1: Seq<InputRecordV>,
    rec: InputRecordV,
) -> bool {
    &&& rows1.len() == rows0.len() + 1
    &&& rows1.subrange(0, rows0.len() as int) == rows0
    &&& rows1.last().timestamp == rec.timestamp
    &&& rows1.last().app_name == rec.app_name
    &&& rows1.last().window_title == rec.window_title
    &&& rows1.last().content == rec.content
    &&& rows1.last().key_count == rec.key_count
}

/// The aggregator and the store, wired together for the capture threads.
pub struct Engine {
    pub aggregator: InputAggregator,
    pub db: Database,
}

impl Engine {
    /// Wraps an aggregator and a store.
    pub fn new(aggregator: InputAggregator, db: Database) -> (r: Self)
        ensures
            r.aggregator == aggregator,
            r.db == db,
    {
        Engine { aggregator, db }
    }

    /// One key press: the aggregator takes its `step_press` transition
    /// for some wall-clock stamp read now, and a record flushed by a
    /// boundary is committed. `Err` reports a failed commit; the buffer
    /// is reset either way.
    pub fn on_key_press(&mut self, key: Key, ctx: Option<WindowInfo>, now_ms: u64) -> (r: Result<
        (),
        StoreError,
    >)
        requires
            agg_wf(old(self).aggregator@),
        ensures
            agg_wf(final(self).aggregator@),
            final(self).db.settings_map() == old(self).db.settings_map(),
            exists|wall: Seq<char>|
                {
                    let sp = #[trigger] step_press(
                        old(self).aggregator@,
                        key,
                        opt_win_view(ctx),
                        now_ms,
                        wall,
                    );
                    &&& final(self).aggregator@ == sp.0
                    &&& match sp.1 {
                        None => final(self).db.rows() == old(self).db.rows() && r is Ok,
                        Some(rec) => match r {
                            Ok(_) => rows_extended(old(self).db.rows(), final(self).db.rows(), rec),
                            Err(_) => final(self).db.rows() == old(self).db.rows(),
                        },
                    }
                },
    {
        let wall = now_timestamp_string();
        let ghost sp = step_press(
            old(self).aggregator@,
            key,
            opt_win_view(ctx),
            now_ms,
            wall@,
        );
        proof {
            lemma_steps_preserve_wf(old(self).aggregator@, key, opt_win_view(ctx), now_ms, wall@);
        }
        let out = self.aggregator.handle_key_press(key, ctx, now_ms, wall.as_str());
        match out {
            None => Ok(()),
            Some(rec) => {
                proof {
                    assert(rec@.content.len() > 0);
                }
                match self.db.insert_record(&rec) {
                    Ok(_) => Ok(()),
                    Err(e) => Err(e),
                }
            },
        }
    }

    /// One key release: only shift state can change; the store is
    /// untouched.
    pub fn on_key_release(&mut self, key: Key)
        requires
            agg_wf(old(self).aggregator@),
        ensures
            agg_wf(final(self).aggregator@),
            final(self).aggregator@ == step_release(old(self).aggregator@, key),
            final(self).db == old(self).db,
    {
        proof {
            lemma_steps_preserve_wf(
                old(self).aggregator@,
                key,
                None,
                0,
                Seq::<char>::empty(),
            );
        }
        self.aggregator.handle_key_release(key);
    }

    /// One scheduler tick: the aggregator takes its `step_tick`
    /// transition, and a buffer idle past the merge interval is flushed
    /// and committed. `Err` reports a failed commit; the buffer is reset
    /// either way.
    pub fn on_tick(&mut self, now_ms: u64) -> (r: Result<(), StoreError>)
        requires
            agg_wf(old(self).aggregator@),
        ensures
            agg_wf(final(self).aggregator@),
            final(self).db.settings_map() == old(self).db.settings_map(),
            final(self).aggregator@ == step_tick(old(self).aggregator@, now_ms).0,
            match step_tick(old(self).aggregator@, now_ms).1 {
                None => final(self).db.rows() == old(self).db.rows() && r is Ok,
                Some(rec) => match r {
                    Ok(_) => rows_extended(old(self).db.rows(), final(self).db.rows(), rec),
                    Err(_) => final(self).db.rows() == old(self).db.rows(),
                },
            },
    {
        proof {
            lemma_steps_preserve_wf(
                old(self).aggregator@,
                Key::Other,
                None,
                now_ms,
                Seq::<char>::empty(),
            );
        }
        let out = self.aggregator.check_idle_flush(now_ms);
        match out {
            None => Ok(()),
            Some(rec) => {
                proof {
                    assert(rec@.content.len() > 0);
                }
                match self.db.insert_record(&rec) {
                    Ok(_) => Ok(()),
                    Err(e) => Err(e),
                }
            },
        }
    }
}

} // verus!
