//! The job of one feed: whether it runs, the steps it goes through, and the
//! order of its writes.

use crate::registry::FeedSpec;
use crate::text::same_text;
use vstd::prelude::*;

verus! {

/// Why a feed is passed over.
#[derive(Clone, Copy, Debug, PartialEq, Eq, Structural)]
pub enum SkipReason {
    /// The feed is on the list of feeds that are never ingested.
    Denylisted,
    /// The run is limited to one feed, and this is another.
    Filtered,
    /// The run resumes an earlier one, which completed this feed.
    AlreadyDone,
}

/// One kind of row that a job writes. The stages are written in the order
/// in which they stand here.
#[derive(Clone, Copy, Debug, PartialEq, Eq, Structural)]
pub enum Stage {
    Paths,
    Routes,
    Trips,
    StopTimes,
    Stops,
    Summary,
    Checkpoint,
}

/// What a running job is doing.
#[derive(Clone, Copy, Debug, PartialEq, Eq, Structural)]
pub enum Step {
    Parse,
    Write(Stage),
}

/// The state of a job.
#[derive(Clone, Copy, Debug, PartialEq, Eq, Structural)]
pub enum JobState {
    Pending,
    Skipped(SkipReason),
    Running(Step),
    Succeeded,
    Failed,
}

/// What happened to a job.
#[derive(Clone, Copy, Debug, PartialEq, Eq, Structural)]
pub enum JobEvent {
    /// The job was considered for dispatch, and passed over for the reason
    /// given or else dispatched.
    Considered(Option<SkipReason>),
    /// The feed was parsed.
    Parsed,
    /// The feed could not be parsed.
    ParseFailed,
    /// Every row of the stage is written; all that was fanned out has joined.
    Written(Stage),
    /// A write of the stage failed for good.
    WriteFailed(Stage),
}

/// What the job has to do next.
#[derive(Clone, Copy, Debug, PartialEq, Eq, Structural)]
pub enum JobAction {
    Parse,
    Write(Stage),
    /// Record the parse error under the feed's id.
    RecordError,
}

/// How a run is set up.
#[derive(Clone, Debug)]
pub struct RunConfig {
    /// Pass over the feeds that an earlier run completed.
    pub resumable: bool,
    /// Ingest this feed alone.
    pub only_feed: Option<String>,
    /// Leave trips and stop times out; such a job writes no checkpoint.
    pub skip_trips: bool,
    /// The feeds that are never ingested.
    pub denylist: Vec<String>,
}

/// What a `RunConfig` holds, with each text as its sequence of characters.
pub struct RunConfigView {
    pub resumable: bool,
    pub only_feed: Option<Seq<char>>,
    pub skip_trips: bool,
    pub denylist: Seq<Seq<char>>,
}

impl DeepView for RunConfig {
    type V = RunConfigView;

    open spec fn deep_view(&self) -> RunConfigView {
        RunConfigView {
            resumable: self.resumable,
            only_feed: self.only_feed.deep_view(),
            skip_trips: self.skip_trips,
            denylist: self.denylist.deep_view(),
        }
    }
}

/// Whether the feed is passed over, and why: because it is denylisted,
/// because the run is limited to another feed, or because the run resumes and
/// the feed is `done`, that is has a checkpoint of success. The first reason
/// that holds, in this order, is given.
pub open spec fn admission(config: RunConfigView, feed_id: Seq<char>, done: bool) -> Option<
    SkipReason,
> {
    if config.denylist.contains(feed_id) {
        Some(SkipReason::Denylisted)
    } else if config.only_feed is Some && config.only_feed->0 != feed_id {
        Some(SkipReason::Filtered)
    } else if config.resumable && done {
        Some(SkipReason::AlreadyDone)
    } else {
        None
    }
}

/// The place of a stage in the order of writes.
pub open spec fn rank(stage: Stage) -> int {
    match stage {
        Stage::Paths => 0,
        Stage::Routes => 1,
        Stage::Trips => 2,
        Stage::StopTimes => 3,
        Stage::Stops => 4,
        Stage::Summary => 5,
        Stage::Checkpoint => 6,
    }
}

/// Whether a job writes the stage: trips, stop times and the checkpoint are
/// left out where trips are skipped.
pub open spec fn planned(stage: Stage, skip_trips: bool) -> bool {
    match stage {
        Stage::Trips | Stage::StopTimes | Stage::Checkpoint => !skip_trips,
        _ => true,
    }
}

/// The stage at a place in the order of writes.
pub open spec fn stage_at(place: int) -> Stage {
    if place <= 0 {
        Stage::Paths
    } else if place == 1 {
        Stage::Routes
    } else if place == 2 {
        Stage::Trips
    } else if place == 3 {
        Stage::StopTimes
    } else if place == 4 {
        Stage::Stops
    } else if place == 5 {
        Stage::Summary
    } else {
        Stage::Checkpoint
    }
}

/// The first planned stage at or after a place in the order of writes.
pub open spec fn planned_from(place: int, skip_trips: bool) -> Option<Stage>
    decreases 7 - place,
{
    if place < 0 || place >= 7 {
        None
    } else if planned(stage_at(place), skip_trips) {
        Some(stage_at(place))
    } else {
        planned_from(place + 1, skip_trips)
    }
}

/// The stage that is written after `stage`: the next one in the order of
/// writes that the job plans, if there is one.
pub open spec fn following(stage: Stage, skip_trips: bool) -> Option<Stage> {
    planned_from(rank(stage) + 1, skip_trips)
}

/// The state after an event, with what the job has to do next. An event that
/// does not belong to the state changes nothing and asks for nothing; so a
/// job that is skipped, has succeeded or has failed stays as it is.
pub open spec fn advanced(state: JobState, event: JobEvent, skip_trips: bool) -> (
    JobState,
    Option<JobAction>,
) {
    match (state, event) {
        (JobState::Pending, JobEvent::Considered(Some(reason))) => (
            JobState::Skipped(reason),
            None,
        ),
        (JobState::Pending, JobEvent::Considered(None)) => (
            JobState::Running(Step::Parse),
            Some(JobAction::Parse),
        ),
        (JobState::Running(Step::Parse), JobEvent::Parsed) => (
            JobState::Running(Step::Write(Stage::Paths)),
            Some(JobAction::Write(Stage::Paths)),
        ),
        (JobState::Running(Step::Parse), JobEvent::ParseFailed) => (
            JobState::Failed,
            Some(JobAction::RecordError),
        ),
        (JobState::Running(Step::Write(at)), JobEvent::Written(done)) => if at == done {
            match following(at, skip_trips) {
                Some(next) => (
                    JobState::Running(Step::Write(next)),
                    Some(JobAction::Write(next)),
                ),
                None => (JobState::Succeeded, None),
            }
        } else {
            (state, None)
        },
        (JobState::Running(Step::Write(at)), JobEvent::WriteFailed(failed)) => if at == failed {
            (JobState::Failed, None)
        } else {
            (state, None)
        },
        _ => (state, None),
    }
}

/// Whether the job has come to its end.
pub open spec fn is_terminal(state: JobState) -> bool {
    state is Skipped || state is Succeeded || state is Failed
}

/// Decides whether a feed is passed over.
pub fn consider(config: &RunConfig, feed_id: &str, done: bool) -> (skip: Option<SkipReason>)
    ensures
        skip == admission(config.deep_view(), feed_id@, done),
{
    let mut k: usize = 0;
    while k < config.denylist.len()
        invariant
            k <= config.denylist.len(),
            forall|j: int| 0 <= j < k ==> #[trigger] config.denylist.deep_view()[j] != feed_id@,
        decreases config.denylist.len() - k,
    {
        assert(config.denylist.deep_view()[k as int] == config.denylist@[k as int]@);
        if same_text(config.denylist[k].as_str(), feed_id) {
            return Some(SkipReason::Denylisted);
        }
        k += 1;
    }
    match &config.only_feed {
        Some(only) => {
            if !same_text(only.as_str(), feed_id) {
                return Some(SkipReason::Filtered);
            }
        },
        None => {},
    }
    if config.resumable && done {
        Some(SkipReason::AlreadyDone)
    } else {
        None
    }
}

/// The stage that follows `stage` in a job.
pub fn next_stage(stage: Stage, skip_trips: bool) -> (next: Option<Stage>)
    ensures
        next == following(stage, skip_trips),
{
    reveal_with_fuel(planned_from, 8);
    match stage {
        Stage::Paths => Some(Stage::Routes),
        Stage::Routes | Stage::Trips => if skip_trips {
            Some(Stage::Stops)
        } else if stage == Stage::Routes {
            Some(Stage::Trips)
        } else {
            Some(Stage::StopTimes)
        },
        Stage::StopTimes => Some(Stage::Stops),
        Stage::Stops => Some(Stage::Summary),
        Stage::Summary => if skip_trips {
            None
        } else {
            Some(Stage::Checkpoint)
        },
        Stage::Checkpoint => None,
    }
}

/// Takes a job one step on.
pub fn advance(state: JobState, event: JobEvent, skip_trips: bool) -> (out: (
    JobState,
    Option<JobAction>,
))
    ensures
        out == advanced(state, event, skip_trips),
{
    match state {
        JobState::Pending => match event {
            JobEvent::Considered(Some(reason)) => (JobState::Skipped(reason), None),
            JobEvent::Considered(None) => (JobState::Running(Step::Parse), Some(JobAction::Parse)),
            _ => (state, None),
        },
        JobState::Running(Step::Parse) => match event {
            JobEvent::Parsed => (
                JobState::Running(Step::Write(Stage::Paths)),
                Some(JobAction::Write(Stage::Paths)),
            ),
            JobEvent::ParseFailed => (JobState::Failed, Some(JobAction::RecordError)),
            _ => (state, None),
        },
        JobState::Running(Step::Write(at)) => match event {
            JobEvent::Written(done) => {
                if at == done {
                    match next_stage(at, skip_trips) {
                        Some(next) => (
                            JobState::Running(Step::Write(next)),
                            Some(JobAction::Write(next)),
                        ),
                        None => (JobState::Succeeded, None),
                    }
                } else {
                    (state, None)
                }
            },
            JobEvent::WriteFailed(failed) => {
                if at == failed {
                    (JobState::Failed, None)
                } else {
                    (state, None)
                }
            },
            _ => (state, None),
        },
        _ => (state, None),
    }
}

/// The stages that a job writes, in the order of their writes.
pub open spec fn plan(skip_trips: bool) -> Seq<Stage> {
    if skip_trips {
        seq![Stage::Paths, Stage::Routes, Stage::Stops, Stage::Summary]
    } else {
        seq![
            Stage::Paths,
            Stage::Routes,
            Stage::Trips,
            Stage::StopTimes,
            Stage::Stops,
            Stage::Summary,
            Stage::Checkpoint,
        ]
    }
}

/// The stages that a job writes, in order.
pub fn write_plan(skip_trips: bool) -> (stages: Vec<Stage>)
    ensures
        stages@ == plan(skip_trips),
{
    let mut stages: Vec<Stage> = Vec::new();
    stages.push(Stage::Paths);
    stages.push(Stage::Routes);
    if !skip_trips {
        stages.push(Stage::Trips);
        stages.push(Stage::StopTimes);
    }
    stages.push(Stage::Stops);
    stages.push(Stage::Summary);
    if !skip_trips {
        stages.push(Stage::Checkpoint);
    }
    assert(stages@ =~= plan(skip_trips));
    stages
}

/// The order of writes is fixed: each stage is followed by a later one that
/// the job plans, and by the first such, so that routes come before trips,
/// trips before stop times, all of them before the summary, and the
/// checkpoint after everything else.
pub proof fn lemma_writes_in_order(stage: Stage, skip_trips: bool)
    ensures
        following(stage, skip_trips) is Some ==> rank(stage) < rank(
            following(stage, skip_trips)->0,
        ) && planned(following(stage, skip_trips)->0, skip_trips),
        forall|other: Stage|
            rank(stage) < rank(other) && planned(other, skip_trips) ==> following(
                stage,
                skip_trips,
            ) is Some && rank(following(stage, skip_trips)->0) <= rank(other),
{
    reveal_with_fuel(planned_from, 8);
}

/// The plan is what a job goes through: it starts with the first write
/// after parsing, each of its stages is followed by the next, nothing
/// follows its last stage, and it holds exactly the planned stages.
pub proof fn lemma_plan(skip_trips: bool)
    ensures
        advanced(JobState::Running(Step::Parse), JobEvent::Parsed, skip_trips).1 == Some(
            JobAction::Write(plan(skip_trips)[0]),
        ),
        forall|i: int|
            0 <= i < plan(skip_trips).len() - 1 ==> following(
                #[trigger] plan(skip_trips)[i],
                skip_trips,
            ) == Some(plan(skip_trips)[i + 1]),
        following(plan(skip_trips).last(), skip_trips) is None,
        forall|stage: Stage|
            planned(stage, skip_trips) <==> plan(skip_trips).contains(stage),
{
    reveal_with_fuel(planned_from, 8);
    let p = plan(skip_trips);
    assert forall|stage: Stage| planned(stage, skip_trips) implies p.contains(stage) by {
        if skip_trips {
            assert(p[0] == Stage::Paths && p[1] == Stage::Routes && p[2] == Stage::Stops && p[3]
                == Stage::Summary);
        } else {
            assert(p[0] == Stage::Paths && p[1] == Stage::Routes && p[2] == Stage::Trips && p[3]
                == Stage::StopTimes && p[4] == Stage::Stops && p[5] == Stage::Summary && p[6]
                == Stage::Checkpoint);
        }
    }
}

/// A job that has come to its end stays there, whatever happens, and asks
/// for nothing more.
pub proof fn lemma_terminal_stays(state: JobState, event: JobEvent, skip_trips: bool)
    requires
        is_terminal(state),
    ensures
        advanced(state, event, skip_trips) == (state, None::<JobAction>),
{
}

/// A job succeeds in one way only: by the write of a stage that no planned
/// stage follows. For a stage of the plan that is the checkpoint, or the
/// summary where trips are skipped. So the checkpoint is written after every
/// other row, and a job that has succeeded writes no more.
pub proof fn lemma_success_is_last_write(state: JobState, event: JobEvent, skip_trips: bool)
    requires
        !is_terminal(state),
        advanced(state, event, skip_trips).0 is Succeeded,
    ensures
        state is Running,
        state->Running_0 is Write,
        event == JobEvent::Written(state->Running_0->Write_0),
        following(state->Running_0->Write_0, skip_trips) is None,
        planned(state->Running_0->Write_0, skip_trips) ==> state->Running_0->Write_0
            == if skip_trips {
            Stage::Summary
        } else {
            Stage::Checkpoint
        },
{
    reveal_with_fuel(planned_from, 8);
}

/// A feed that a resuming run finds done is passed over, whatever else the
/// run is set to.
pub proof fn lemma_done_is_skipped(config: RunConfigView, feed_id: Seq<char>)
    requires
        config.resumable,
    ensures
        admission(config, feed_id, true) is Some,
        advanced(
            JobState::Pending,
            JobEvent::Considered(admission(config, feed_id, true)),
            config.skip_trips,
        ) == (JobState::Skipped(admission(config, feed_id, true)->0), None::<JobAction>),
{
}

/// What a run does for a feed of the registry.
#[derive(Clone, Copy, Debug, PartialEq, Eq, Structural)]
pub enum JobKind {
    /// The schedule of the feed is ingested by a job.
    Ingest,
    /// The feed is realtime: it is only entered with its operators.
    Register,
    /// Nothing is done.
    Nothing,
}

/// What is done for a feed: a schedule feed that names a source is ingested,
/// a realtime feed is entered, any other is left alone.
pub open spec fn kind_of_job(spec: FeedSpec, has_source: bool) -> JobKind {
    match spec {
        FeedSpec::Schedule => if has_source {
            JobKind::Ingest
        } else {
            JobKind::Nothing
        },
        FeedSpec::Realtime => JobKind::Register,
        FeedSpec::Other => JobKind::Nothing,
    }
}

/// Decides what is done for a feed.
pub fn job_kind(spec: FeedSpec, has_source: bool) -> (kind: JobKind)
    ensures
        kind == kind_of_job(spec, has_source),
{
    match spec {
        FeedSpec::Schedule => if has_source {
            JobKind::Ingest
        } else {
            JobKind::Nothing
        },
        FeedSpec::Realtime => JobKind::Register,
        FeedSpec::Other => JobKind::Nothing,
    }
}

/// Tells whether every job has come to its end. Only then may the second
/// pass of the run, over the operators, begin.
pub fn drained(states: &Vec<JobState>) -> (yes: bool)
    ensures
        yes == forall|i: int| 0 <= i < states.len() ==> is_terminal(#[trigger] states[i]),
{
    let mut k: usize = 0;
    while k < states.len()
        invariant
            k <= states.len(),
            forall|i: int| 0 <= i < k ==> is_terminal(#[trigger] states[i]),
        decreases states.len() - k,
    {
        match states[k] {
            JobState::Skipped(_) | JobState::Succeeded | JobState::Failed => {},
            _ => {
                return false;
            },
        }
        k += 1;
    }
    true
}

/// The namespace of the store that a run writes to: the production one only
/// where it is asked for.
pub fn schema_name(production: Option<bool>) -> (name: &'static str)
    ensures
        name@ == if production == Some(true) {
            "gtfs"@
        } else {
            "gtfs_stage"@
        },
{
    match production {
        Some(true) => "gtfs",
        _ => "gtfs_stage",
    }
}

/// What can go wrong in a run.
#[derive(Clone, Copy, Debug, PartialEq, Eq, Structural)]
pub enum Fault {
    /// The directory of the registry cannot be read at all.
    RegistryUnreadable,
    /// The store cannot be reached when the run starts.
    StoreUnreachable,
    /// One document of the registry cannot be parsed.
    DocumentParse,
    /// The archive of one feed cannot be parsed.
    FeedParse,
    /// Fewer than two points are left of one path.
    GeometryDegenerate,
    /// A connection to the store stays out beyond the time the pool allows.
    PersistenceTransient,
    /// The store refuses a row.
    PersistenceConstraint,
}

/// How far a fault reaches: what is given up because of it.
#[derive(Clone, Copy, Debug, PartialEq, Eq, Structural)]
pub enum Reach {
    /// The document is passed over; the run goes on with the others.
    Document,
    /// The path is passed over; its feed goes on.
    Path,
    /// The job of the feed fails; the other jobs go on.
    Job,
    /// The run ends before any job is dispatched.
    Run,
}

/// The reach of each fault. Only the two faults of the start of a run end
/// the run; every other fault stays with the document, the path or the feed
/// in which it happened.
pub open spec fn reach_of(fault: Fault) -> Reach {
    match fault {
        Fault::RegistryUnreadable | Fault::StoreUnreachable => Reach::Run,
        Fault::DocumentParse => Reach::Document,
        Fault::GeometryDegenerate => Reach::Path,
        Fault::FeedParse | Fault::PersistenceTransient | Fault::PersistenceConstraint => Reach::Job,
    }
}

/// Tells how far a fault reaches.
pub fn reach(fault: Fault) -> (r: Reach)
    ensures
        r == reach_of(fault),
{
    match fault {
        Fault::RegistryUnreadable | Fault::StoreUnreachable => Reach::Run,
        Fault::DocumentParse => Reach::Document,
        Fault::GeometryDegenerate => Reach::Path,
        Fault::FeedParse | Fault::PersistenceTransient | Fault::PersistenceConstraint => Reach::Job,
    }
}

/// The event by which a job learns of a fault that reaches it while it is in
/// the given state; a fault of smaller reach is no event for the job.
pub open spec fn event_of(state: JobState, fault: Fault) -> Option<JobEvent> {
    match (state, reach_of(fault)) {
        (JobState::Running(Step::Parse), Reach::Job) => if fault == Fault::FeedParse {
            Some(JobEvent::ParseFailed)
        } else {
            None
        },
        (JobState::Running(Step::Write(stage)), Reach::Job) => if fault == Fault::FeedParse {
            None
        } else {
            Some(JobEvent::WriteFailed(stage))
        },
        _ => None,
    }
}

/// Turns a fault into the event for the job in which it happened.
pub fn fault_event(state: JobState, fault: Fault) -> (event: Option<JobEvent>)
    ensures
        event == event_of(state, fault),
{
    match state {
        JobState::Running(Step::Parse) => match fault {
            Fault::FeedParse => Some(JobEvent::ParseFailed),
            _ => None,
        },
        JobState::Running(Step::Write(stage)) => match fault {
            Fault::PersistenceTransient | Fault::PersistenceConstraint => Some(
                JobEvent::WriteFailed(stage),
            ),
            _ => None,
        },
        _ => None,
    }
}

/// A fault fails at most the job in which it happens: the job that learns
/// of it ends failed, and a fault of the path or the document is no event
/// for any job.
pub proof fn lemma_faults_stay_local(state: JobState, fault: Fault, skip_trips: bool)
    ensures
        match event_of(state, fault) {
            Some(event) => advanced(state, event, skip_trips).0 is Failed,
            None => true,
        },
        reach_of(fault) is Path || reach_of(fault) is Document ==> event_of(state, fault) is None,
{
}

} // verus!
