use marchive::config::ConfigTask;
use marchive::format::Duration;
use marchive::subtask::{ChildObservation, ChildStatus, PollAction, SubTask, TaskChild};
use marchive::values::Values;
use std::sync::Arc;

fn kind(timeout: Option<u64>) -> Arc<ConfigTask> {
    Arc::new(ConfigTask {
        name: "migrate".to_string(),
        command: "migrate {file}".to_string(),
        command_values: Vec::new(),
        file_format: "{object}".to_string(),
        file_format_values: vec!["object".to_string()],
        overrides: Vec::new(),
        conflicts: Vec::new(),
        timeout: timeout.map(|secs| Duration { secs, nanos: 0 }),
    })
}

fn at(secs: u64) -> Duration {
    Duration { secs, nanos: 0 }
}

fn started(timeout: Option<u64>) -> SubTask {
    let mut subtask =
        SubTask::new(Values::new(), 42, at(1_700_000_000), 3, &kind(timeout), at(100));
    assert_eq!(subtask.child, TaskChild::NotStarted);
    subtask.launched(555, at(110));
    assert_eq!(subtask.child, TaskChild::Child(555));
    assert_eq!(subtask.started, at(110));
    subtask
}

fn look(status: ChildStatus, since_update: Option<u64>, now: u64) -> ChildObservation {
    ChildObservation { status, since_update: since_update.map(at), now: at(now) }
}

const HARD: Duration = Duration { secs: 3_600, nanos: 0 };

#[test]
fn poll_notes_the_exit_code() {
    let mut subtask = started(Some(30));
    assert_eq!(subtask.poll(&look(ChildStatus::Exited(Some(7)), None, 5_000), &HARD), PollAction::Nothing);
    assert_eq!(subtask.child, TaskChild::Complete(7));
    // an ended process stays as it is
    assert_eq!(subtask.poll(&look(ChildStatus::Running, None, 9_000), &HARD), PollAction::Nothing);
    assert_eq!(subtask.child, TaskChild::Complete(7));
    let mut signalled = started(None);
    assert_eq!(signalled.poll(&look(ChildStatus::Exited(None), None, 111), &HARD), PollAction::Nothing);
    assert_eq!(signalled.child, TaskChild::Complete(-1));
}

#[test]
fn poll_leaves_a_process_that_makes_progress() {
    let mut subtask = started(Some(30));
    assert_eq!(subtask.poll(&look(ChildStatus::Running, Some(29), 3_000), &HARD), PollAction::Nothing);
    assert_eq!(subtask.child, TaskChild::Child(555));
    assert_eq!(subtask.poll(&look(ChildStatus::Unknown, None, 139), &HARD), PollAction::Nothing);
    assert_eq!(subtask.child, TaskChild::Child(555));
}

#[test]
fn poll_kills_after_the_timeout_of_the_kind() {
    let mut by_file = started(Some(30));
    assert_eq!(by_file.poll(&look(ChildStatus::Running, Some(30), 120), &HARD), PollAction::Kill(555));
    assert_eq!(by_file.child, TaskChild::Complete(-1));
    // without a time of the file, the time since the start counts
    let mut by_start = started(Some(30));
    assert_eq!(by_start.poll(&look(ChildStatus::Running, None, 139), &HARD), PollAction::Nothing);
    assert_eq!(by_start.poll(&look(ChildStatus::Unknown, None, 140), &HARD), PollAction::Kill(555));
    assert_eq!(by_start.child, TaskChild::Complete(-1));
}

#[test]
fn poll_kills_after_the_hard_timeout() {
    let mut subtask = started(None);
    assert_eq!(subtask.poll(&look(ChildStatus::Running, Some(0), 3_709), &HARD), PollAction::Nothing);
    assert_eq!(subtask.poll(&look(ChildStatus::Running, Some(0), 3_710), &HARD), PollAction::Kill(555));
    assert_eq!(subtask.child, TaskChild::Complete(-1));
    // a clock that ran backwards counts as no time at all
    let mut early = started(None);
    assert_eq!(early.poll(&look(ChildStatus::Running, None, 5), &HARD), PollAction::Nothing);
}
