//! A run, played through in memory: each job is taken from its first state
//! to its last, and what it leaves in the ledger is written there.

use crate::job::{
    admission, advance, advanced, consider, lemma_success_is_last_write, lemma_writes_in_order,
    planned, rank, JobAction, JobEvent,
    JobState, RunConfig, RunConfigView, Stage, Step,
};
use crate::ledger::{same_rows, Ledger};
use vstd::prelude::*;

verus! {

/// One feed of a run, with the error of its parse where the archive could
/// not be read.
#[derive(Clone, Debug)]
pub struct FeedOutcome {
    pub feed_id: String,
    pub parse_error: Option<String>,
}

/// How the job of a feed ends: skipped for the reason that `admission`
/// gives; otherwise failed where the feed cannot be parsed, and succeeded
/// where it can. Nothing but the feed's own id, checkpoint and archive goes
/// into it.
pub open spec fn job_end(
    config: RunConfigView,
    feed_id: Seq<char>,
    done: bool,
    parse_failed: bool,
) -> JobState {
    match admission(config, feed_id, done) {
        Some(reason) => JobState::Skipped(reason),
        None => if parse_failed {
            JobState::Failed
        } else {
            JobState::Succeeded
        },
    }
}

/// How far a job is from its end, counted in steps.
spec fn steps_left(state: JobState, action: Option<JobAction>) -> int {
    match state {
        JobState::Pending => 10,
        JobState::Running(Step::Parse) => 9,
        JobState::Running(Step::Write(stage)) => 8 - rank(stage),
        JobState::Failed => if action is Some {
            1
        } else {
            0
        },
        _ => 0,
    }
}

/// Plays the job of one feed to its end. The job goes through the steps that
/// `advance` asks for; its parse fails with `parse_error` where that is
/// given, and every write succeeds. The error of a failed parse is logged
/// and the checkpoint of a succeeded job is written, with `now_ms` as the
/// time; a skipped job leaves the ledger as it is.
pub fn play_job(
    ledger: &mut Ledger,
    config: &RunConfig,
    feed_id: &str,
    parse_error: Option<&str>,
    now_ms: i64,
) -> (end: JobState)
    requires
        old(ledger).well_formed(),
    ensures
        final(ledger).well_formed(),
        end == job_end(
            config.deep_view(),
            feed_id@,
            old(ledger).succeeded(feed_id@),
            parse_error is Some,
        ),
        end is Skipped ==> same_rows(*final(ledger), *old(ledger)),
        end is Failed ==> {
            &&& forall|id: Seq<char>|
                #[trigger] final(ledger).error_of(id) == if id == feed_id@ {
                    Some(parse_error->0@)
                } else {
                    old(ledger).error_of(id)
                }
            &&& forall|id: Seq<char>|
                #[trigger] final(ledger).checkpoint_of(id) == old(ledger).checkpoint_of(id)
        },
        end is Succeeded && config.skip_trips ==> same_rows(*final(ledger), *old(ledger)),
        end is Succeeded && !config.skip_trips ==> {
            &&& final(ledger).checkpoint_of(feed_id@) is Some
            &&& final(ledger).checkpoint_of(feed_id@)->0.success
            &&& final(ledger).checkpoint_of(feed_id@)->0.timestamp_ms >= now_ms
            &&& forall|id: Seq<char>|
                id != feed_id@ ==> #[trigger] final(ledger).checkpoint_of(id) == old(
                    ledger,
                ).checkpoint_of(id)
            &&& forall|id: Seq<char>| #[trigger] final(ledger).error_of(id) == old(ledger).error_of(id)
        },
        final(ledger).succeeded(feed_id@) == (old(ledger).succeeded(feed_id@) || (end is Succeeded
            && !config.skip_trips)),
{
    let skip_trips = config.skip_trips;
    let done = ledger.has_succeeded(feed_id);
    let skip = consider(config, feed_id, done);
    let (first, first_action) = advance(JobState::Pending, JobEvent::Considered(skip), skip_trips);
    let mut state = first;
    let mut action = first_action;
    let ghost failed = parse_error is Some;
    loop
        invariant
            ledger.well_formed(),
            skip_trips == config.skip_trips,
            failed == (parse_error is Some),
            skip == admission(config.deep_view(), feed_id@, old(ledger).succeeded(feed_id@)),
            match state {
                JobState::Pending => false,
                JobState::Skipped(reason) => skip == Some(reason) && action is None && *ledger
                    == *old(ledger),
                JobState::Running(Step::Parse) => skip is None && action == Some(JobAction::Parse)
                    && *ledger == *old(ledger),
                JobState::Running(Step::Write(stage)) => skip is None && !failed && action == Some(
                    JobAction::Write(stage),
                ) && planned(stage, skip_trips) && *ledger == *old(ledger),
                JobState::Failed => skip is None && failed && (if action is Some {
                    action == Some(JobAction::RecordError) && *ledger == *old(ledger)
                } else {
                    &&& forall|id: Seq<char>|
                        #[trigger] ledger.error_of(id) == if id == feed_id@ {
                            Some(parse_error->0@)
                        } else {
                            old(ledger).error_of(id)
                        }
                    &&& forall|id: Seq<char>|
                        #[trigger] ledger.checkpoint_of(id) == old(ledger).checkpoint_of(id)
                }),
                JobState::Succeeded => skip is None && !failed && action is None && (if skip_trips {
                    *ledger == *old(ledger)
                } else {
                    &&& ledger.checkpoint_of(feed_id@) is Some
                    &&& ledger.checkpoint_of(feed_id@)->0.success
                    &&& ledger.checkpoint_of(feed_id@)->0.timestamp_ms >= now_ms
                    &&& forall|id: Seq<char>|
                        id != feed_id@ ==> #[trigger] ledger.checkpoint_of(id) == old(
                            ledger,
                        ).checkpoint_of(id)
                    &&& forall|id: Seq<char>|
                        #[trigger] ledger.error_of(id) == old(ledger).error_of(id)
                }),
            },
        ensures
            action is None,
        decreases steps_left(state, action),
    {
        let event = match action {
            None => {
                break ;
            },
            Some(JobAction::Parse) => match parse_error {
                Some(_) => JobEvent::ParseFailed,
                None => JobEvent::Parsed,
            },
            Some(JobAction::Write(stage)) => {
                if stage == Stage::Checkpoint {
                    ledger.record_success(feed_id, now_ms);
                }
                JobEvent::Written(stage)
            },
            Some(JobAction::RecordError) => {
                match parse_error {
                    Some(error) => {
                        ledger.record_error(feed_id, error);
                    },
                    None => {},
                }
                action = None;
                continue ;
            },
        };
        proof {
            lemma_writes_in_order(Stage::Paths, skip_trips);
            if let JobState::Running(Step::Write(stage)) = state {
                lemma_writes_in_order(stage, skip_trips);
                if advanced(state, event, skip_trips).0 is Succeeded {
                    lemma_success_is_last_write(state, event, skip_trips);
                }
            }
        }
        let (next, next_action) = advance(state, event, skip_trips);
        state = next;
        action = next_action;
    }
    state
}

/// Whether one of the first `n` feeds has the id.
pub open spec fn among(feeds: Seq<FeedOutcome>, n: int, id: Seq<char>) -> bool {
    exists|j: int| 0 <= j < n && j < feeds.len() && (#[trigger] feeds[j]).feed_id@ == id
}

/// Whether the feeds of a run have ids of their own, so that no two jobs
/// touch one feed.
pub open spec fn partitioned(feeds: Seq<FeedOutcome>) -> bool {
    forall|i: int, j: int|
        0 <= i < j < feeds.len() ==> (#[trigger] feeds[i]).feed_id@ != (#[trigger] feeds[j]).feed_id@
}

/// A run that resumes passes over every feed that an earlier run of the same
/// set-up completed or passed over: whatever the archive now holds, the job
/// ends skipped.
pub proof fn lemma_rerun_is_skipped(
    config: RunConfigView,
    feed_id: Seq<char>,
    done_before: bool,
    failed_then: bool,
    fails_now: bool,
)
    requires
        config.resumable,
        !config.skip_trips,
        !(job_end(config, feed_id, done_before, failed_then) is Failed),
    ensures
        job_end(
            config,
            feed_id,
            done_before || job_end(config, feed_id, done_before, failed_then) is Succeeded,
            fails_now,
        ) is Skipped,
{
}

/// Plays a run: the job of each feed, in the order of the list. Each job
/// ends as `job_end` says of its own feed, whatever becomes of the others:
/// a feed that fails leaves its error in the log and changes nothing else.
/// A feed that is not in the list keeps its rows. Where the run resumes and
/// writes checkpoints, a second run over the ledger that this one leaves
/// would pass over every feed that did not fail; and a run that passes over
/// every feed leaves the ledger as it is.
pub fn play_run(
    ledger: &mut Ledger,
    config: &RunConfig,
    feeds: &Vec<FeedOutcome>,
    now_ms: i64,
) -> (ends: Vec<JobState>)
    requires
        old(ledger).well_formed(),
        partitioned(feeds@),
    ensures
        final(ledger).well_formed(),
        ends.len() == feeds.len(),
        forall|i: int|
            0 <= i < feeds.len() ==> #[trigger] ends[i] == job_end(
                config.deep_view(),
                feeds[i].feed_id@,
                old(ledger).succeeded(feeds[i].feed_id@),
                feeds[i].parse_error is Some,
            ),
        forall|i: int|
            0 <= i < feeds.len() && #[trigger] ends[i] is Failed ==> final(ledger).error_of(
                feeds[i].feed_id@,
            ) == Some(feeds[i].parse_error->0@),
        forall|i: int|
            0 <= i < feeds.len() && !(#[trigger] ends[i] is Failed) ==> final(ledger).error_of(
                feeds[i].feed_id@,
            ) == old(ledger).error_of(feeds[i].feed_id@),
        forall|i: int|
            0 <= i < feeds.len() ==> final(ledger).succeeded(feeds[i].feed_id@) == (old(
                ledger,
            ).succeeded(feeds[i].feed_id@) || (#[trigger] ends[i] is Succeeded
                && !config.skip_trips)),
        forall|id: Seq<char>|
            !among(feeds@, feeds.len() as int, id) ==> #[trigger] final(ledger).checkpoint_of(id)
                == old(ledger).checkpoint_of(id),
        forall|id: Seq<char>|
            !among(feeds@, feeds.len() as int, id) ==> #[trigger] final(ledger).error_of(id) == old(
                ledger,
            ).error_of(id),
        forall|i: int, fails_now: bool|
            0 <= i < feeds.len() && config.resumable && !config.skip_trips && !(
            #[trigger] ends[i] is Failed) ==> #[trigger] job_end(
                config.deep_view(),
                feeds[i].feed_id@,
                final(ledger).succeeded(feeds[i].feed_id@),
                fails_now,
            ) is Skipped,
        (forall|i: int| 0 <= i < feeds.len() ==> #[trigger] ends[i] is Skipped) ==> same_rows(
            *final(ledger),
            *old(ledger),
        ),
{
    let mut ends: Vec<JobState> = Vec::new();
    let mut k: usize = 0;
    while k < feeds.len()
        invariant
            k <= feeds.len(),
            ends.len() == k,
            ledger.well_formed(),
            partitioned(feeds@),
            forall|i: int|
                0 <= i < k ==> #[trigger] ends[i] == job_end(
                    config.deep_view(),
                    feeds[i].feed_id@,
                    old(ledger).succeeded(feeds[i].feed_id@),
                    feeds[i].parse_error is Some,
                ),
            forall|i: int|
                0 <= i < k && #[trigger] ends[i] is Failed ==> ledger.error_of(feeds[i].feed_id@)
                    == Some(feeds[i].parse_error->0@),
            forall|i: int|
                0 <= i < k && !(#[trigger] ends[i] is Failed) ==> ledger.error_of(
                    feeds[i].feed_id@,
                ) == old(ledger).error_of(feeds[i].feed_id@),
            forall|i: int|
                0 <= i < k ==> ledger.succeeded(feeds[i].feed_id@) == (old(ledger).succeeded(
                    feeds[i].feed_id@,
                ) || (#[trigger] ends[i] is Succeeded && !config.skip_trips)),
            forall|id: Seq<char>|
                !among(feeds@, k as int, id) ==> #[trigger] ledger.checkpoint_of(id) == old(
                    ledger,
                ).checkpoint_of(id),
            forall|id: Seq<char>|
                !among(feeds@, k as int, id) ==> #[trigger] ledger.error_of(id) == old(
                    ledger,
                ).error_of(id),
            (forall|i: int| 0 <= i < k ==> #[trigger] ends[i] is Skipped) ==> same_rows(
                *ledger,
                *old(ledger),
            ),
        decreases feeds.len() - k,
    {
        let ghost before = *ledger;
        let ghost ends_before = ends@;
        let feed = &feeds[k];
        let id = feed.feed_id.as_str();
        proof {
            assert(!among(feeds@, k as int, id@)) by {
                if among(feeds@, k as int, id@) {
                    let j = choose|j: int|
                        0 <= j < k && j < feeds.len() && (#[trigger] feeds[j]).feed_id@ == id@;
                    assert(feeds[j].feed_id@ != feeds[k as int].feed_id@);
                }
            }
            assert(before.checkpoint_of(id@) == old(ledger).checkpoint_of(id@));
        }
        let end = match &feed.parse_error {
            Some(error) => play_job(ledger, config, id, Some(error.as_str()), now_ms),
            None => play_job(ledger, config, id, None, now_ms),
        };
        ends.push(end);
        proof {
            assert forall|i: int| 0 <= i < k implies feeds[i].feed_id@ != id@ by {
                assert(feeds[i].feed_id@ != feeds[k as int].feed_id@);
            }
            assert forall|i: int| 0 <= i < k implies ledger.error_of(feeds[i].feed_id@)
                == before.error_of(feeds[i].feed_id@) && ledger.checkpoint_of(feeds[i].feed_id@)
                == before.checkpoint_of(feeds[i].feed_id@) by {
                assert(feeds[i].feed_id@ != id@);
            }
            assert forall|i: int| 0 <= i < k + 1 implies ledger.succeeded(feeds[i].feed_id@) == (
            old(ledger).succeeded(feeds[i].feed_id@) || (#[trigger] ends[i] is Succeeded
                && !config.skip_trips)) by {
                if i < k {
                    assert(ends[i] == ends_before[i]);
                    assert(ledger.checkpoint_of(feeds[i].feed_id@) == before.checkpoint_of(
                        feeds[i].feed_id@,
                    ));
                }
            }
            assert forall|i: int| 0 <= i < k + 1 && #[trigger] ends[i] is Failed implies ledger.error_of(
                feeds[i].feed_id@,
            ) == Some(feeds[i].parse_error->0@) by {
                if i < k {
                    assert(ends[i] == ends_before[i]);
                }
            }
            assert forall|i: int|
                0 <= i < k + 1 && !(#[trigger] ends[i] is Failed) implies ledger.error_of(
                feeds[i].feed_id@,
            ) == old(ledger).error_of(feeds[i].feed_id@) by {
                if i < k {
                    assert(ends[i] == ends_before[i]);
                } else {
                    assert(before.error_of(id@) == old(ledger).error_of(id@));
                }
            }
            assert forall|other: Seq<char>| !among(feeds@, k + 1, other) implies #[trigger]
                ledger.checkpoint_of(other) == old(ledger).checkpoint_of(other) by {
                assert(other != id@) by {
                    if other == id@ {
                        assert(feeds[k as int].feed_id@ == other);
                    }
                }
                assert(!among(feeds@, k as int, other)) by {
                    if among(feeds@, k as int, other) {
                        let j = choose|j: int|
                            0 <= j < k && j < feeds.len() && (#[trigger] feeds[j]).feed_id@
                                == other;
                        assert(0 <= j < k + 1 && feeds[j].feed_id@ == other);
                    }
                }
                assert(ledger.checkpoint_of(other) == before.checkpoint_of(other));
            }
            assert forall|other: Seq<char>| !among(feeds@, k + 1, other) implies #[trigger]
                ledger.error_of(other) == old(ledger).error_of(other) by {
                assert(other != id@) by {
                    if other == id@ {
                        assert(feeds[k as int].feed_id@ == other);
                    }
                }
                assert(!among(feeds@, k as int, other)) by {
                    if among(feeds@, k as int, other) {
                        let j = choose|j: int|
                            0 <= j < k && j < feeds.len() && (#[trigger] feeds[j]).feed_id@
                                == other;
                        assert(0 <= j < k + 1 && feeds[j].feed_id@ == other);
                    }
                }
                assert(ledger.error_of(other) == before.error_of(other));
            }
            if forall|i: int| 0 <= i < k + 1 ==> #[trigger] ends[i] is Skipped {
                assert forall|i: int| 0 <= i < k implies #[trigger] ends_before[i] is Skipped by {
                    assert(ends[i] is Skipped);
                }
                assert(ends[k as int] is Skipped);
                assert(same_rows(*ledger, before));
                assert(same_rows(before, *old(ledger)));
            }
        }
        k += 1;
    }
    proof {
        assert forall|i: int, fails_now: bool|
            0 <= i < feeds.len() && config.resumable && !config.skip_trips && !(
            #[trigger] ends[i] is Failed) implies #[trigger] job_end(
            config.deep_view(),
            feeds[i].feed_id@,
            ledger.succeeded(feeds[i].feed_id@),
            fails_now,
        ) is Skipped by {
            lemma_rerun_is_skipped(
                config.deep_view(),
                feeds[i].feed_id@,
                old(ledger).succeeded(feeds[i].feed_id@),
                feeds[i].parse_error is Some,
                fails_now,
            );
        }
    }
    ends
}

} // verus!
