//! What a run keeps about each feed: the checkpoint of a completed job and
//! the error of a failed one, both under the feed's id, the latest write
//! winning.

use crate::text::same_text;
use vstd::prelude::*;

verus! {

/// The marker of a completed job.
#[derive(Clone, Debug)]
pub struct Checkpoint {
    pub feed_id: String,
    pub success: bool,
    pub timestamp_ms: i64,
}

/// What a checkpoint says: whether the job succeeded, and when it was
/// written, in milliseconds of the epoch.
#[derive(Clone, Copy, Debug, PartialEq, Eq, Structural)]
pub struct Mark {
    pub success: bool,
    pub timestamp_ms: i64,
}

/// The error of a feed that could not be parsed.
#[derive(Clone, Debug)]
pub struct ErrorRow {
    pub feed_id: String,
    pub error: String,
}

/// The checkpoints and the error log, each with at most one row for a feed.
pub struct Ledger {
    checkpoints: Vec<Checkpoint>,
    errors: Vec<ErrorRow>,
}

/// The position of the first id at or after `from` that equals `id`.
pub open spec fn id_at_from(ids: Seq<Seq<char>>, id: Seq<char>, from: int) -> Option<int>
    decreases ids.len() - from,
{
    if from < 0 || from >= ids.len() {
        None
    } else if ids[from] == id {
        Some(from)
    } else {
        id_at_from(ids, id, from + 1)
    }
}

/// What `id_at_from` finds is the first place of the id.
pub proof fn lemma_id_at(ids: Seq<Seq<char>>, id: Seq<char>, from: int)
    requires
        0 <= from,
    ensures
        match id_at_from(ids, id, from) {
            Some(at) => from <= at < ids.len() && ids[at] == id && forall|k: int|
                from <= k < at ==> #[trigger] ids[k] != id,
            None => forall|k: int| from <= k < ids.len() ==> #[trigger] ids[k] != id,
        },
    decreases ids.len() - from,
{
    if from < ids.len() && ids[from] != id {
        lemma_id_at(ids, id, from + 1);
    }
}

/// Each id stands once.
pub open spec fn ids_unique(ids: Seq<Seq<char>>) -> bool {
    forall|i: int, j: int| 0 <= i < j < ids.len() ==> ids[i] != ids[j]
}

impl Ledger {
    /// The feed ids of the checkpoints, row by row.
    pub closed spec fn checkpoint_ids(&self) -> Seq<Seq<char>> {
        Seq::new(self.checkpoints@.len(), |i: int| self.checkpoints@[i].feed_id@)
    }

    /// The feed ids of the logged errors, row by row.
    pub closed spec fn error_ids(&self) -> Seq<Seq<char>> {
        Seq::new(self.errors@.len(), |i: int| self.errors@[i].feed_id@)
    }

    /// No feed has two checkpoints or two errors.
    pub closed spec fn well_formed(&self) -> bool {
        ids_unique(self.checkpoint_ids()) && ids_unique(self.error_ids())
    }

    /// The checkpoint of a feed: whether its job succeeded, and when.
    pub closed spec fn checkpoint_of(&self, feed_id: Seq<char>) -> Option<Mark> {
        match id_at_from(self.checkpoint_ids(), feed_id, 0) {
            Some(at) => Some(
                Mark {
                    success: self.checkpoints@[at].success,
                    timestamp_ms: self.checkpoints@[at].timestamp_ms,
                },
            ),
            None => None,
        }
    }

    /// The error logged for a feed.
    pub closed spec fn error_of(&self, feed_id: Seq<char>) -> Option<Seq<char>> {
        match id_at_from(self.error_ids(), feed_id, 0) {
            Some(at) => Some(self.errors@[at].error@),
            None => None,
        }
    }

    /// How many checkpoints are held.
    pub closed spec fn checkpoint_count(&self) -> nat {
        self.checkpoints@.len()
    }

    /// How many errors are logged.
    pub closed spec fn error_count(&self) -> nat {
        self.errors@.len()
    }

    /// Whether a checkpoint says that the feed's job succeeded.
    pub open spec fn succeeded(&self, feed_id: Seq<char>) -> bool {
        match self.checkpoint_of(feed_id) {
            Some(mark) => mark.success,
            None => false,
        }
    }

    /// A ledger without rows.
    pub fn new() -> (ledger: Ledger)
        ensures
            ledger.well_formed(),
            ledger.checkpoint_count() == 0,
            ledger.error_count() == 0,
            forall|id: Seq<char>| ledger.checkpoint_of(id) is None,
            forall|id: Seq<char>| ledger.error_of(id) is None,
    {
        Ledger { checkpoints: Vec::new(), errors: Vec::new() }
    }

    fn find_checkpoint(&self, feed_id: &str) -> (found: Option<usize>)
        ensures
            match found {
                Some(at) => at < self.checkpoints.len() && id_at_from(
                    self.checkpoint_ids(),
                    feed_id@,
                    0,
                ) == Some(at as int),
                None => id_at_from(self.checkpoint_ids(), feed_id@, 0) is None,
            },
    {
        let mut i: usize = 0;
        while i < self.checkpoints.len()
            invariant
                i <= self.checkpoints.len(),
                id_at_from(self.checkpoint_ids(), feed_id@, 0) == id_at_from(
                    self.checkpoint_ids(),
                    feed_id@,
                    i as int,
                ),
            decreases self.checkpoints.len() - i,
        {
            if same_text(self.checkpoints[i].feed_id.as_str(), feed_id) {
                return Some(i);
            }
            i += 1;
        }
        None
    }

    fn find_error(&self, feed_id: &str) -> (found: Option<usize>)
        ensures
            match found {
                Some(at) => at < self.errors.len() && id_at_from(self.error_ids(), feed_id@, 0)
                    == Some(at as int),
                None => id_at_from(self.error_ids(), feed_id@, 0) is None,
            },
    {
        let mut i: usize = 0;
        while i < self.errors.len()
            invariant
                i <= self.errors.len(),
                id_at_from(self.error_ids(), feed_id@, 0) == id_at_from(
                    self.error_ids(),
                    feed_id@,
                    i as int,
                ),
            decreases self.errors.len() - i,
        {
            if same_text(self.errors[i].feed_id.as_str(), feed_id) {
                return Some(i);
            }
            i += 1;
        }
        None
    }

    /// Reads the checkpoint of a feed.
    pub fn checkpoint(&self, feed_id: &str) -> (found: Option<Mark>)
        ensures
            found == self.checkpoint_of(feed_id@),
    {
        match self.find_checkpoint(feed_id) {
            Some(at) => Some(
                Mark {
                    success: self.checkpoints[at].success,
                    timestamp_ms: self.checkpoints[at].timestamp_ms,
                },
            ),
            None => None,
        }
    }

    /// Tells whether a checkpoint says that the feed's job succeeded.
    pub fn has_succeeded(&self, feed_id: &str) -> (done: bool)
        ensures
            done == self.succeeded(feed_id@),
    {
        match self.checkpoint(feed_id) {
            Some(mark) => mark.success,
            None => false,
        }
    }

    /// Reads the error logged for a feed.
    pub fn error(&self, feed_id: &str) -> (found: Option<String>)
        ensures
            found.deep_view() == self.error_of(feed_id@),
    {
        match self.find_error(feed_id) {
            Some(at) => Some(self.errors[at].error.clone()),
            None => None,
        }
    }

    /// Counts the logged errors.
    pub fn errors_logged(&self) -> (n: usize)
        ensures
            n == self.error_count(),
    {
        self.errors.len()
    }

    /// Counts the checkpoints.
    pub fn checkpoints_held(&self) -> (n: usize)
        ensures
            n == self.checkpoint_count(),
    {
        self.checkpoints.len()
    }

    /// The logged errors, one row for each feed that has one.
    pub fn error_rows(&self) -> (rows: Vec<ErrorRow>)
        requires
            self.well_formed(),
        ensures
            rows.len() == self.error_count(),
            forall|k: int|
                0 <= k < rows.len() ==> self.error_of((#[trigger] rows[k]).feed_id@) == Some(
                    rows[k].error@,
                ),
            forall|i: int, j: int|
                0 <= i < j < rows.len() ==> (#[trigger] rows[i]).feed_id@ != (
                #[trigger] rows[j]).feed_id@,
    {
        let ghost ids = self.error_ids();
        let mut rows: Vec<ErrorRow> = Vec::new();
        let mut k: usize = 0;
        while k < self.errors.len()
            invariant
                k <= self.errors.len(),
                rows.len() == k,
                ids == self.error_ids(),
                ids_unique(ids),
                forall|j: int|
                    0 <= j < k ==> (#[trigger] rows[j]).feed_id@ == ids[j] && rows[j].error@
                        == self.errors@[j].error@,
            decreases self.errors.len() - k,
        {
            rows.push(
                ErrorRow {
                    feed_id: self.errors[k].feed_id.clone(),
                    error: self.errors[k].error.clone(),
                },
            );
            k += 1;
        }
        proof {
            assert forall|j: int| 0 <= j < rows.len() implies self.error_of(
                (#[trigger] rows[j]).feed_id@,
            ) == Some(rows[j].error@) by {
                lemma_id_at(ids, ids[j], 0);
            }
        }
        rows
    }

    /// The checkpoints, one row for each feed that has one.
    pub fn checkpoint_rows(&self) -> (rows: Vec<Checkpoint>)
        requires
            self.well_formed(),
        ensures
            rows.len() == self.checkpoint_count(),
            forall|k: int|
                0 <= k < rows.len() ==> self.checkpoint_of((#[trigger] rows[k]).feed_id@) == Some(
                    Mark { success: rows[k].success, timestamp_ms: rows[k].timestamp_ms },
                ),
            forall|i: int, j: int|
                0 <= i < j < rows.len() ==> (#[trigger] rows[i]).feed_id@ != (
                #[trigger] rows[j]).feed_id@,
    {
        let ghost ids = self.checkpoint_ids();
        let mut rows: Vec<Checkpoint> = Vec::new();
        let mut k: usize = 0;
        while k < self.checkpoints.len()
            invariant
                k <= self.checkpoints.len(),
                rows.len() == k,
                ids == self.checkpoint_ids(),
                ids_unique(ids),
                forall|j: int|
                    0 <= j < k ==> (#[trigger] rows[j]).feed_id@ == ids[j] && rows[j].success
                        == self.checkpoints@[j].success && rows[j].timestamp_ms
                        == self.checkpoints@[j].timestamp_ms,
            decreases self.checkpoints.len() - k,
        {
            rows.push(
                Checkpoint {
                    feed_id: self.checkpoints[k].feed_id.clone(),
                    success: self.checkpoints[k].success,
                    timestamp_ms: self.checkpoints[k].timestamp_ms,
                },
            );
            k += 1;
        }
        proof {
            assert forall|j: int| 0 <= j < rows.len() implies self.checkpoint_of(
                (#[trigger] rows[j]).feed_id@,
            ) == Some(
                Mark { success: rows[j].success, timestamp_ms: rows[j].timestamp_ms },
            ) by {
                lemma_id_at(ids, ids[j], 0);
            }
        }
        rows
    }

    /// Writes the checkpoint of a job that succeeded at `now_ms`, over the
    /// feed's earlier checkpoint where there is one. The time written is
    /// returned: it is `now_ms`, or the time of the earlier checkpoint where
    /// that is later, so that the time of a feed's checkpoint never goes back.
    /// Nothing else changes.
    pub fn record_success(&mut self, feed_id: &str, now_ms: i64) -> (written: i64)
        requires
            old(self).well_formed(),
        ensures
            final(self).well_formed(),
            written == match old(self).checkpoint_of(feed_id@) {
                Some(mark) => if mark.timestamp_ms > now_ms {
                    mark.timestamp_ms
                } else {
                    now_ms
                },
                None => now_ms,
            },
            forall|id: Seq<char>|
                #[trigger] final(self).checkpoint_of(id) == if id == feed_id@ {
                    Some(Mark { success: true, timestamp_ms: written })
                } else {
                    old(self).checkpoint_of(id)
                },
            forall|id: Seq<char>| #[trigger] final(self).error_of(id) == old(self).error_of(id),
            final(self).error_count() == old(self).error_count(),
            final(self).checkpoint_count() == old(self).checkpoint_count() + if old(
                self,
            ).checkpoint_of(feed_id@) is Some {
                0nat
            } else {
                1nat
            },
    {
        let ghost ids = self.checkpoint_ids();
        let found = self.find_checkpoint(feed_id);
        proof {
            lemma_id_at(ids, feed_id@, 0);
        }
        let written = match found {
            Some(at) => {
                let earlier = self.checkpoints[at].timestamp_ms;
                let written = if earlier > now_ms {
                    earlier
                } else {
                    now_ms
                };
                self.checkpoints[at] = Checkpoint {
                    feed_id: feed_id.to_owned(),
                    success: true,
                    timestamp_ms: written,
                };
                assert(self.checkpoint_ids() =~= ids);
                written
            },
            None => {
                self.checkpoints.push(
                    Checkpoint { feed_id: feed_id.to_owned(), success: true, timestamp_ms: now_ms },
                );
                assert(self.checkpoint_ids() =~= ids.push(feed_id@));
                now_ms
            },
        };
        proof {
            lemma_id_at(ids, feed_id@, 0);
            assert forall|id: Seq<char>| #[trigger]
                self.checkpoint_of(id) == if id == feed_id@ {
                    Some(Mark { success: true, timestamp_ms: written })
                } else {
                    old(self).checkpoint_of(id)
                } by {
                lemma_upsert_keeps_others(ids, feed_id@, id);
                lemma_id_at(ids, id, 0);
            }
        }
        written
    }

    /// Logs the error of a feed, over the feed's earlier error where there is
    /// one: the log holds one row for the feed, with this error. Nothing else
    /// changes.
    pub fn record_error(&mut self, feed_id: &str, error: &str)
        requires
            old(self).well_formed(),
        ensures
            final(self).well_formed(),
            forall|id: Seq<char>|
                #[trigger] final(self).error_of(id) == if id == feed_id@ {
                    Some(error@)
                } else {
                    old(self).error_of(id)
                },
            forall|id: Seq<char>|
                #[trigger] final(self).checkpoint_of(id) == old(self).checkpoint_of(id),
            final(self).checkpoint_count() == old(self).checkpoint_count(),
            final(self).error_count() == old(self).error_count() + if old(self).error_of(feed_id@)
                is Some {
                0nat
            } else {
                1nat
            },
    {
        let ghost ids = self.error_ids();
        let found = self.find_error(feed_id);
        proof {
            lemma_id_at(ids, feed_id@, 0);
        }
        match found {
            Some(at) => {
                self.errors[at] = ErrorRow { feed_id: feed_id.to_owned(), error: error.to_owned() };
                assert(self.error_ids() =~= ids);
            },
            None => {
                self.errors.push(
                    ErrorRow { feed_id: feed_id.to_owned(), error: error.to_owned() },
                );
                assert(self.error_ids() =~= ids.push(feed_id@));
            },
        }
        proof {
            lemma_id_at(ids, feed_id@, 0);
            assert forall|id: Seq<char>| #[trigger]
                self.error_of(id) == if id == feed_id@ {
                    Some(error@)
                } else {
                    old(self).error_of(id)
                } by {
                lemma_upsert_keeps_others(ids, feed_id@, id);
                lemma_id_at(ids, id, 0);
            }
        }
    }
}

/// Writing under a new `key` at the end moves no other id: every id is
/// found where it was, and `key` at the new end.
proof fn lemma_upsert_keeps_others(ids: Seq<Seq<char>>, key: Seq<char>, id: Seq<char>)
    ensures
        id_at_from(ids, key, 0) is None ==> id_at_from(ids.push(key), id, 0) == if id == key {
            Some(ids.len() as int)
        } else {
            id_at_from(ids, id, 0)
        },
{
    lemma_id_at(ids, key, 0);
    lemma_id_at(ids, id, 0);
    lemma_id_at(ids.push(key), id, 0);
    if id_at_from(ids, key, 0) is None {
        let more = ids.push(key);
        match id_at_from(more, id, 0) {
            Some(found) => {
                if found < ids.len() {
                    assert(ids[found] == id);
                }
                match id_at_from(ids, id, 0) {
                    Some(was) => {
                        assert(more[was] == id);
                    },
                    None => {},
                }
            },
            None => {
                assert(more[more.len() - 1] == key);
                match id_at_from(ids, id, 0) {
                    Some(was) => {
                        assert(more[was] == id);
                    },
                    None => {},
                }
            },
        }
    }
}

/// Whether two ledgers hold the same rows.
pub open spec fn same_rows(a: Ledger, b: Ledger) -> bool {
    &&& forall|id: Seq<char>| #[trigger] a.checkpoint_of(id) == b.checkpoint_of(id)
    &&& forall|id: Seq<char>| #[trigger] a.error_of(id) == b.error_of(id)
    &&& a.checkpoint_count() == b.checkpoint_count()
    &&& a.error_count() == b.error_count()
}

} // verus!
