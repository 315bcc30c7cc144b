use gtfs_ingest::job::{JobState, RunConfig, SkipReason};
use gtfs_ingest::ledger::{Ledger, Mark};
use gtfs_ingest::run::{play_job, play_run, FeedOutcome};

fn config(resumable: bool, skip_trips: bool) -> RunConfig {
    RunConfig { resumable, only_feed: None, skip_trips, denylist: vec!["never".to_string()] }
}

fn good(id: &str) -> FeedOutcome {
    FeedOutcome { feed_id: id.to_string(), parse_error: None }
}

fn corrupt(id: &str, error: &str) -> FeedOutcome {
    FeedOutcome { feed_id: id.to_string(), parse_error: Some(error.to_string()) }
}

#[test]
fn a_new_ledger_holds_nothing() {
    let ledger = Ledger::new();
    assert_eq!(ledger.checkpoint("a"), None);
    assert_eq!(ledger.error("a"), None);
    assert!(!ledger.has_succeeded("a"));
    assert_eq!(ledger.errors_logged(), 0);
    assert_eq!(ledger.checkpoints_held(), 0);
}

#[test]
fn the_time_of_a_checkpoint_never_goes_back() {
    let mut ledger = Ledger::new();
    assert_eq!(ledger.record_success("a", 1000), 1000);
    assert_eq!(ledger.record_success("a", 900), 1000);
    assert_eq!(ledger.checkpoint("a"), Some(Mark { success: true, timestamp_ms: 1000 }));
    assert_eq!(ledger.record_success("a", 1500), 1500);
    assert_eq!(ledger.record_success("b", 5), 5);
    assert_eq!(ledger.checkpoint("a"), Some(Mark { success: true, timestamp_ms: 1500 }));
    assert_eq!(ledger.checkpoint("b"), Some(Mark { success: true, timestamp_ms: 5 }));
    assert_eq!(ledger.checkpoints_held(), 2);
    assert!(ledger.has_succeeded("a") && ledger.has_succeeded("b") && !ledger.has_succeeded("c"));
}

#[test]
fn a_later_error_replaces_the_earlier_one() {
    let mut ledger = Ledger::new();
    ledger.record_error("y", "bad zip");
    ledger.record_error("z", "no routes file");
    ledger.record_error("y", "bad header");
    assert_eq!(ledger.errors_logged(), 2);
    assert_eq!(ledger.error("y"), Some("bad header".to_string()));
    assert_eq!(ledger.error("z"), Some("no routes file".to_string()));
    assert_eq!(ledger.checkpoints_held(), 0);
}

#[test]
fn a_corrupt_feed_fails_alone() {
    let mut ledger = Ledger::new();
    let feeds = vec![good("X"), corrupt("Y", "archive is corrupt"), good("Z")];
    let ends = play_run(&mut ledger, &config(false, false), &feeds, 42);
    assert_eq!(ends, vec![JobState::Succeeded, JobState::Failed, JobState::Succeeded]);
    assert_eq!(ledger.errors_logged(), 1);
    assert_eq!(ledger.error("Y"), Some("archive is corrupt".to_string()));
    assert_eq!(ledger.error("X"), None);
    assert_eq!(ledger.error("Z"), None);
    assert!(ledger.has_succeeded("X") && ledger.has_succeeded("Z") && !ledger.has_succeeded("Y"));
    assert_eq!(ledger.checkpoint("X"), Some(Mark { success: true, timestamp_ms: 42 }));
    assert_eq!(ledger.checkpoints_held(), 2);
}

#[test]
fn a_corrupt_feed_anywhere_in_the_list_leaves_the_others_alone() {
    for at in 0..3 {
        let mut feeds = vec![good("a"), good("b"), good("c")];
        feeds[at] = corrupt(&feeds[at].feed_id.clone(), "broken");
        let mut ledger = Ledger::new();
        let ends = play_run(&mut ledger, &config(true, false), &feeds, 7);
        for k in 0..3 {
            assert_eq!(ends[k], if k == at { JobState::Failed } else { JobState::Succeeded });
        }
        assert_eq!(ledger.errors_logged(), 1);
        assert_eq!(ledger.checkpoints_held(), 2);
    }
}

#[test]
fn a_second_resumed_run_skips_what_the_first_completed() {
    let mut ledger = Ledger::new();
    let feeds = vec![good("a"), good("never"), good("b")];
    let first = play_run(&mut ledger, &config(true, false), &feeds, 100);
    assert_eq!(
        first,
        vec![JobState::Succeeded, JobState::Skipped(SkipReason::Denylisted), JobState::Succeeded]
    );
    let second = play_run(&mut ledger, &config(true, false), &feeds, 200);
    assert_eq!(
        second,
        vec![
            JobState::Skipped(SkipReason::AlreadyDone),
            JobState::Skipped(SkipReason::Denylisted),
            JobState::Skipped(SkipReason::AlreadyDone)
        ]
    );
    assert_eq!(ledger.checkpoint("a"), Some(Mark { success: true, timestamp_ms: 100 }));
    assert_eq!(ledger.checkpoint("b"), Some(Mark { success: true, timestamp_ms: 100 }));
    assert_eq!(ledger.checkpoint("never"), None);
    assert_eq!(ledger.checkpoints_held(), 2);
    assert_eq!(ledger.errors_logged(), 0);
}

#[test]
fn a_resumed_run_skips_a_done_feed_even_if_its_archive_broke_since() {
    let mut ledger = Ledger::new();
    play_run(&mut ledger, &config(true, false), &vec![good("a")], 1);
    let second = play_run(&mut ledger, &config(true, false), &vec![corrupt("a", "gone")], 2);
    assert_eq!(second, vec![JobState::Skipped(SkipReason::AlreadyDone)]);
    assert_eq!(ledger.errors_logged(), 0);
}

#[test]
fn a_run_that_does_not_resume_runs_everything_again() {
    let mut ledger = Ledger::new();
    play_run(&mut ledger, &config(false, false), &vec![good("a")], 100);
    let second = play_run(&mut ledger, &config(false, false), &vec![good("a")], 200);
    assert_eq!(second, vec![JobState::Succeeded]);
    assert_eq!(ledger.checkpoint("a"), Some(Mark { success: true, timestamp_ms: 200 }));
    assert_eq!(ledger.checkpoints_held(), 1);
}

#[test]
fn a_failed_feed_is_tried_again_and_its_error_overwritten() {
    let mut ledger = Ledger::new();
    let first = play_run(&mut ledger, &config(true, false), &vec![corrupt("y", "first")], 1);
    let second = play_run(&mut ledger, &config(true, false), &vec![corrupt("y", "second")], 2);
    assert_eq!(first, vec![JobState::Failed]);
    assert_eq!(second, vec![JobState::Failed]);
    assert_eq!(ledger.errors_logged(), 1);
    assert_eq!(ledger.error("y"), Some("second".to_string()));
    let third = play_run(&mut ledger, &config(true, false), &vec![good("y")], 3);
    assert_eq!(third, vec![JobState::Succeeded]);
    assert!(ledger.has_succeeded("y"));
}

#[test]
fn a_job_without_trips_writes_no_checkpoint() {
    let mut ledger = Ledger::new();
    assert_eq!(play_job(&mut ledger, &config(true, true), "a", None, 9), JobState::Succeeded);
    assert_eq!(ledger.checkpoint("a"), None);
    assert_eq!(play_job(&mut ledger, &config(true, true), "a", None, 10), JobState::Succeeded);
    assert_eq!(ledger.checkpoints_held(), 0);
}

#[test]
fn one_job_ends_as_its_own_feed_decides() {
    let mut ledger = Ledger::new();
    assert_eq!(play_job(&mut ledger, &config(false, false), "a", Some("bad"), 9), JobState::Failed);
    assert_eq!(ledger.error("a"), Some("bad".to_string()));
    assert_eq!(
        play_job(&mut ledger, &config(false, false), "never", None, 9),
        JobState::Skipped(SkipReason::Denylisted)
    );
    assert_eq!(play_job(&mut ledger, &config(false, false), "a", None, 11), JobState::Succeeded);
    assert_eq!(ledger.checkpoint("a"), Some(Mark { success: true, timestamp_ms: 11 }));
    assert_eq!(ledger.error("a"), Some("bad".to_string()));
}

#[test]
fn the_rows_of_the_ledger_can_be_listed() {
    let mut ledger = Ledger::new();
    let feeds = vec![corrupt("y", "first"), good("a"), corrupt("z", "other"), corrupt("y2", "x")];
    play_run(&mut ledger, &config(false, false), &feeds, 77);
    ledger.record_error("y", "second");
    let errors: Vec<(String, String)> =
        ledger.error_rows().into_iter().map(|row| (row.feed_id, row.error)).collect();
    assert_eq!(
        errors,
        vec![
            ("y".to_string(), "second".to_string()),
            ("z".to_string(), "other".to_string()),
            ("y2".to_string(), "x".to_string())
        ]
    );
    let marks: Vec<(String, bool, i64)> = ledger
        .checkpoint_rows()
        .into_iter()
        .map(|row| (row.feed_id, row.success, row.timestamp_ms))
        .collect();
    assert_eq!(marks, vec![("a".to_string(), true, 77)]);
    assert!(Ledger::new().error_rows().is_empty());
}
