use gtfs_ingest::defaults::standard_denylist;
use gtfs_ingest::job::{
    advance, consider, drained, fault_event, job_kind, next_stage, reach, schema_name,
    write_plan, Fault, JobAction, JobEvent, JobKind, JobState, Reach, RunConfig, SkipReason,
    Stage, Step,
};
use gtfs_ingest::registry::FeedSpec;

fn config(resumable: bool, only: Option<&str>, skip_trips: bool) -> RunConfig {
    RunConfig {
        resumable,
        only_feed: only.map(|s| s.to_string()),
        skip_trips,
        denylist: standard_denylist(),
    }
}

#[test]
fn a_feed_runs_when_nothing_speaks_against_it() {
    assert_eq!(consider(&config(false, None, false), "f-9q5-metro~losangeles", false), None);
    assert_eq!(consider(&config(true, None, false), "f-9q5-metro~losangeles", false), None);
    assert_eq!(consider(&config(false, None, false), "f-9q5-metro~losangeles", true), None);
    assert_eq!(
        consider(&config(true, Some("f-9q5-metro~losangeles"), false), "f-9q5-metro~losangeles", false),
        None
    );
}

#[test]
fn a_denylisted_feed_is_skipped() {
    assert_eq!(standard_denylist().len(), 10);
    assert_eq!(consider(&config(false, None, false), "f-9q9-bart", false), Some(SkipReason::Denylisted));
    assert_eq!(
        consider(&config(true, Some("f-9q9-bart"), false), "f-9q9-bart", true),
        Some(SkipReason::Denylisted)
    );
}

#[test]
fn a_feed_outside_the_filter_is_skipped() {
    assert_eq!(consider(&config(false, Some("a"), false), "b", false), Some(SkipReason::Filtered));
    assert_eq!(consider(&config(true, Some("a"), false), "b", true), Some(SkipReason::Filtered));
}

#[test]
fn a_done_feed_is_skipped_when_the_run_resumes() {
    assert_eq!(consider(&config(true, None, false), "a", true), Some(SkipReason::AlreadyDone));
    assert_eq!(consider(&config(true, Some("a"), true), "a", true), Some(SkipReason::AlreadyDone));
}

#[test]
fn the_writes_come_in_their_order() {
    assert_eq!(
        write_plan(false),
        vec![
            Stage::Paths,
            Stage::Routes,
            Stage::Trips,
            Stage::StopTimes,
            Stage::Stops,
            Stage::Summary,
            Stage::Checkpoint
        ]
    );
    assert_eq!(write_plan(true), vec![Stage::Paths, Stage::Routes, Stage::Stops, Stage::Summary]);
}

#[test]
fn each_stage_is_followed_by_the_next_planned_one() {
    assert_eq!(next_stage(Stage::Routes, false), Some(Stage::Trips));
    assert_eq!(next_stage(Stage::Trips, false), Some(Stage::StopTimes));
    assert_eq!(next_stage(Stage::StopTimes, false), Some(Stage::Stops));
    assert_eq!(next_stage(Stage::Summary, false), Some(Stage::Checkpoint));
    assert_eq!(next_stage(Stage::Checkpoint, false), None);
    assert_eq!(next_stage(Stage::Routes, true), Some(Stage::Stops));
    assert_eq!(next_stage(Stage::Trips, true), Some(Stage::Stops));
    assert_eq!(next_stage(Stage::Summary, true), None);
    assert_eq!(next_stage(Stage::Checkpoint, true), None);
}

fn play(skip_trips: bool) -> Vec<JobAction> {
    let mut actions = Vec::new();
    let (mut state, mut action) = advance(JobState::Pending, JobEvent::Considered(None), skip_trips);
    while let Some(a) = action {
        actions.push(a);
        let event = match a {
            JobAction::Parse => JobEvent::Parsed,
            JobAction::Write(stage) => JobEvent::Written(stage),
            JobAction::RecordError => unreachable!(),
        };
        let (next, next_action) = advance(state, event, skip_trips);
        state = next;
        action = next_action;
    }
    assert_eq!(state, JobState::Succeeded);
    actions
}

#[test]
fn a_job_parses_then_writes_its_plan() {
    let mut expected = vec![JobAction::Parse];
    expected.extend(write_plan(false).into_iter().map(JobAction::Write));
    assert_eq!(play(false), expected);
    assert_eq!(play(false).last(), Some(&JobAction::Write(Stage::Checkpoint)));
    let mut without_trips = vec![JobAction::Parse];
    without_trips.extend(write_plan(true).into_iter().map(JobAction::Write));
    assert_eq!(play(true), without_trips);
    assert!(!play(true).contains(&JobAction::Write(Stage::Checkpoint)));
}

#[test]
fn a_skipped_job_does_nothing() {
    assert_eq!(
        advance(JobState::Pending, JobEvent::Considered(Some(SkipReason::Filtered)), false),
        (JobState::Skipped(SkipReason::Filtered), None)
    );
    assert_eq!(
        advance(JobState::Skipped(SkipReason::Filtered), JobEvent::Parsed, false),
        (JobState::Skipped(SkipReason::Filtered), None)
    );
}

#[test]
fn a_failed_parse_asks_for_the_error_to_be_recorded() {
    assert_eq!(
        advance(JobState::Running(Step::Parse), JobEvent::ParseFailed, false),
        (JobState::Failed, Some(JobAction::RecordError))
    );
    assert_eq!(advance(JobState::Failed, JobEvent::Parsed, false), (JobState::Failed, None));
    assert_eq!(
        advance(JobState::Failed, JobEvent::Written(Stage::Checkpoint), false),
        (JobState::Failed, None)
    );
}

#[test]
fn a_failed_write_fails_the_job() {
    assert_eq!(
        advance(JobState::Running(Step::Write(Stage::Trips)), JobEvent::WriteFailed(Stage::Trips), false),
        (JobState::Failed, None)
    );
    assert_eq!(
        advance(JobState::Running(Step::Write(Stage::Trips)), JobEvent::WriteFailed(Stage::Routes), false),
        (JobState::Running(Step::Write(Stage::Trips)), None)
    );
}

#[test]
fn an_event_out_of_turn_changes_nothing() {
    assert_eq!(advance(JobState::Pending, JobEvent::Parsed, false), (JobState::Pending, None));
    assert_eq!(
        advance(JobState::Running(Step::Write(Stage::Routes)), JobEvent::Written(Stage::Summary), false),
        (JobState::Running(Step::Write(Stage::Routes)), None)
    );
    assert_eq!(
        advance(JobState::Running(Step::Parse), JobEvent::Considered(None), false),
        (JobState::Running(Step::Parse), None)
    );
    assert_eq!(
        advance(JobState::Succeeded, JobEvent::Written(Stage::Checkpoint), false),
        (JobState::Succeeded, None)
    );
}

#[test]
fn the_kind_of_a_feed_decides_what_is_done() {
    assert_eq!(job_kind(FeedSpec::Schedule, true), JobKind::Ingest);
    assert_eq!(job_kind(FeedSpec::Schedule, false), JobKind::Nothing);
    assert_eq!(job_kind(FeedSpec::Realtime, true), JobKind::Register);
    assert_eq!(job_kind(FeedSpec::Realtime, false), JobKind::Register);
    assert_eq!(job_kind(FeedSpec::Other, true), JobKind::Nothing);
}

#[test]
fn a_run_is_drained_when_every_job_has_ended() {
    assert!(drained(&Vec::new()));
    assert!(drained(&vec![
        JobState::Succeeded,
        JobState::Failed,
        JobState::Skipped(SkipReason::Filtered)
    ]));
    assert!(!drained(&vec![JobState::Succeeded, JobState::Running(Step::Parse)]));
    assert!(!drained(&vec![JobState::Pending]));
    assert!(!drained(&vec![JobState::Running(Step::Write(Stage::Checkpoint)), JobState::Failed]));
}

#[test]
fn the_production_namespace_has_to_be_asked_for() {
    assert_eq!(schema_name(Some(true)), "gtfs");
    assert_eq!(schema_name(Some(false)), "gtfs_stage");
    assert_eq!(schema_name(None), "gtfs_stage");
}

#[test]
fn only_the_faults_of_the_start_end_the_run() {
    assert_eq!(reach(Fault::RegistryUnreadable), Reach::Run);
    assert_eq!(reach(Fault::StoreUnreachable), Reach::Run);
    assert_eq!(reach(Fault::DocumentParse), Reach::Document);
    assert_eq!(reach(Fault::GeometryDegenerate), Reach::Path);
    assert_eq!(reach(Fault::FeedParse), Reach::Job);
    assert_eq!(reach(Fault::PersistenceTransient), Reach::Job);
    assert_eq!(reach(Fault::PersistenceConstraint), Reach::Job);
}

#[test]
fn a_fault_is_an_event_for_the_job_it_happens_in() {
    let parsing = JobState::Running(Step::Parse);
    let writing = JobState::Running(Step::Write(Stage::Trips));
    assert_eq!(fault_event(parsing, Fault::FeedParse), Some(JobEvent::ParseFailed));
    assert_eq!(fault_event(parsing, Fault::PersistenceTransient), None);
    assert_eq!(
        fault_event(writing, Fault::PersistenceTransient),
        Some(JobEvent::WriteFailed(Stage::Trips))
    );
    assert_eq!(
        fault_event(writing, Fault::PersistenceConstraint),
        Some(JobEvent::WriteFailed(Stage::Trips))
    );
    assert_eq!(fault_event(writing, Fault::FeedParse), None);
    assert_eq!(fault_event(writing, Fault::GeometryDegenerate), None);
    assert_eq!(fault_event(JobState::Pending, Fault::FeedParse), None);
    assert_eq!(fault_event(JobState::Succeeded, Fault::PersistenceConstraint), None);
    let (state, action) = advance(writing, fault_event(writing, Fault::PersistenceConstraint).unwrap(), false);
    assert_eq!((state, action), (JobState::Failed, None));
}
