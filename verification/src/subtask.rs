//! One external command of a task: its staging files, its process, and what
//! becomes of both.
//!
//! The process itself lives outside this library. A subtask is told what
//! was seen of its process and answers with what is to be done.
use crate::config::{Config, ConfigTask};
use crate::format::Duration;
use crate::processing::{
    path_text, writable_stamp_text, writable_stamp, ElementView, PathView, ProcessingPath,
    ProcessingPathElement,
};
use crate::template::{captures_iter_of, filled, format_line, split_of, NAME_GROUP};
use crate::text::{owned, push_str, string_from_chars};
use crate::values::Values;
use std::sync::Arc;
use vstd::prelude::*;

verus! {

/// The process of a subtask.
#[derive(Clone, Copy, Debug, PartialEq, Eq, Structural)]
pub enum TaskChild {
    /// Not started yet.
    NotStarted,
    /// Running, under this process id.
    Child(u32),
    /// Ended, with this exit code; -1 where it was killed.
    Complete(i32),
}

/// What was seen of a process when it was last looked at.
#[derive(Clone, Copy, Debug, PartialEq, Eq, Structural)]
pub enum ChildStatus {
    /// It has ended: with this exit code, or by a signal.
    Exited(Option<i32>),
    /// It is still running.
    Running,
    /// Its state could not be found out.
    Unknown,
}

/// What was seen of a subtask's process and of its output file.
#[derive(Clone, Copy, Debug, PartialEq, Eq, Structural)]
pub struct ChildObservation {
    pub status: ChildStatus,
    /// How long ago the output file was last written, where that is known.
    pub since_update: Option<Duration>,
    /// The runner's clock at the time of looking.
    pub now: Duration,
}

/// What is to be done to a process after a look at it.
#[derive(Clone, Copy, Debug, PartialEq, Eq, Structural)]
pub enum PollAction {
    Nothing,
    /// Kill the process of this id: it ran out of time.
    Kill(u32),
}

/// The directory and the input file that a subtask's lines are written to.
#[derive(Debug)]
pub struct WriterPaths {
    pub dir: String,
    pub input: String,
}

/// A command to run for a subtask, and the file that takes its output.
#[derive(Debug)]
pub struct LaunchOrder {
    pub command: String,
    pub output: String,
}

/// What becomes of a subtask's output file when the subtask ends.
#[derive(Debug)]
pub enum OutputCleanup {
    /// The process succeeded: the output is of no further use.
    Remove(String),
    /// Anything else: the output is kept for inspection.
    Relocate { from: String, to: String },
}

/// What is to be done when a subtask ends.
#[derive(Debug)]
pub struct SubTaskCleanup {
    /// The process to kill, where one is still running.
    pub kill: Option<u32>,
    pub output: OutputCleanup,
    /// The input file to remove.
    pub input: String,
    /// The directory to remove.
    pub dir: String,
}

/// One external command of a task.
#[derive(Debug)]
pub struct SubTask {
    /// The process id of the runner.
    pub pid: u32,
    /// The timestamp of the task.
    pub timestamp: Duration,
    /// The position of this subtask among those of its task.
    pub count: usize,
    /// The values that set this subtask's command apart.
    pub cmdvals: Values,
    pub child: TaskChild,
    /// When the process was started, on the runner's clock.
    pub started: Duration,
    pub taskdef: Arc<ConfigTask>,
}

/// The state of a process after a look at it.
///
/// An ended process stays as it is. A process that is seen to have ended is
/// complete with its exit code, or with -1 where a signal ended it. A
/// process that still runs is killed, and complete with -1, where it has
/// been silent for its kind's timeout or has run for the hard timeout.
pub open spec fn polled(
    child: TaskChild,
    started: Duration,
    timeout: Option<Duration>,
    hard_timeout: Duration,
    seen: ChildObservation,
) -> TaskChild {
    match child {
        TaskChild::Child(id) => match seen.status {
            ChildStatus::Exited(Some(code)) => TaskChild::Complete(code),
            ChildStatus::Exited(None) => TaskChild::Complete(-1i32),
            _ => if out_of_time(started, timeout, hard_timeout, seen) {
                TaskChild::Complete(-1i32)
            } else {
                child
            },
        },
        _ => child,
    }
}

/// How long the process has run when it was looked at.
pub open spec fn elapsed(started: Duration, seen: ChildObservation) -> Duration {
    Duration::of_nanos(
        if seen.now.total_nanos() >= started.total_nanos() {
            (seen.now.total_nanos() - started.total_nanos()) as nat
        } else {
            0
        },
    )
}

/// Whether a running process has been silent for its kind's timeout (as
/// far as the output file tells, else since its start), or has run for the
/// hard timeout.
pub open spec fn out_of_time(
    started: Duration,
    timeout: Option<Duration>,
    hard_timeout: Duration,
    seen: ChildObservation,
) -> bool {
    let running = elapsed(started, seen);
    let silent = match seen.since_update {
        Some(age) => age,
        None => running,
    };
    (timeout is Some && silent.total_nanos() >= timeout->Some_0.total_nanos())
        || running.total_nanos() >= hard_timeout.total_nanos()
}

/// Whether a look at `child` makes it end by being killed.
pub open spec fn kills(
    child: TaskChild,
    started: Duration,
    timeout: Option<Duration>,
    hard_timeout: Duration,
    seen: ChildObservation,
) -> bool {
    child is Child && !(seen.status is Exited) && out_of_time(started, timeout, hard_timeout, seen)
}

impl SubTask {
    /// The values are well formed and hold no `file`, which the command
    /// line gets from the subtask itself; the timestamp can be written.
    pub open spec fn wf(&self) -> bool {
        &&& self.cmdvals.wf()
        &&& !self.cmdvals@.contains_key("file"@)
        &&& writable_stamp(self.timestamp)
    }

    /// The place of an element of this subtask in the staging area.
    pub open spec fn place(&self, element: ElementView) -> PathView {
        PathView { process: Some(self.pid), timestamp: Some(self.timestamp), element }
    }

    /// The path of an element of this subtask, where `stamp` is the text
    /// of the timestamp.
    pub open spec fn path(&self, config: Config, element: ElementView, stamp: Seq<char>) -> Seq<
        char,
    > {
        path_text(config.processing_subdir@, config.host@, self.place(element), stamp)
    }

    /// `paths` are this subtask's directory and input file.
    pub open spec fn writes_to(&self, config: Config, stamp: Seq<char>, paths: WriterPaths) -> bool {
        &&& paths.dir@ == self.path(config, ElementView::SubTaskDir(self.count), stamp)
        &&& paths.input@ == self.path(config, ElementView::SubTaskInput(self.count), stamp)
    }

    /// `r` is the order for this subtask: the command line made of the
    /// kind's command and this subtask's values, with `file` standing for
    /// the input file, and the output file; or the fault of the command.
    pub open spec fn orders(&self, config: Config, stamp: Seq<char>, r: Result<LaunchOrder, String>) -> bool {
        match filled(
            split_of(config.braced_name_regex.source(), self.taskdef.command@),
            captures_iter_of(config.braced_name_regex.source(), self.taskdef.command@, NAME_GROUP@),
            self.cmdvals@.insert(
                "file"@,
                self.path(config, ElementView::SubTaskInput(self.count), stamp),
            ),
        ) {
            Ok(command) => r is Ok && r->Ok_0.command@ == command && r->Ok_0.output@ == self.path(
                config,
                ElementView::SubTaskOutput(self.count),
                stamp,
            ),
            Err(fault) => r is Err && r->Err_0@ == "failed to format command string: "@ + fault,
        }
    }

    /// `plan` names this subtask's files, and treats the output file by
    /// the process's end.
    pub open spec fn cleans(&self, config: Config, stamp: Seq<char>, plan: SubTaskCleanup) -> bool {
        let output = self.path(config, ElementView::SubTaskOutput(self.count), stamp);
        &&& plan.kill == match self.child {
            TaskChild::Child(id) => Some(id),
            _ => None::<u32>,
        }
        &&& match plan.output {
            OutputCleanup::Remove(path) => self.child == TaskChild::Complete(0) && path@ == output,
            OutputCleanup::Relocate { from, to } => self.child != TaskChild::Complete(0) && from@
                == output && to@ == path_text(
                config.logged_failure_subdir@,
                config.host@,
                self.place(ElementView::SubTaskOutput(self.count)),
                stamp,
            ),
        }
        &&& plan.input@ == self.path(config, ElementView::SubTaskInput(self.count), stamp)
        &&& plan.dir@ == self.path(config, ElementView::SubTaskDir(self.count), stamp)
    }

    /// A subtask that has not been started.
    pub fn new(
        cmdvals: Values,
        parent_pid: u32,
        parent_timestamp: Duration,
        subtask_count: usize,
        taskdef: &Arc<ConfigTask>,
        now: Duration,
    ) -> (subtask: SubTask)
        ensures
            subtask.pid == parent_pid,
            subtask.timestamp == parent_timestamp,
            subtask.count == subtask_count,
            subtask.cmdvals == cmdvals,
            subtask.child == TaskChild::NotStarted,
            subtask.started == now,
            subtask.taskdef == *taskdef,
    {
        SubTask {
            pid: parent_pid,
            timestamp: parent_timestamp,
            count: subtask_count,
            cmdvals,
            child: TaskChild::NotStarted,
            started: now,
            taskdef: Arc::clone(taskdef),
        }
    }

    fn path_of(&self, config: &Config, element: ProcessingPathElement, stamp: &str) -> (path: String)
        requires
            !(element is OriginalTaskfile),
        ensures
            path@ == path_text(
                config.processing_subdir@,
                config.host@,
                self.place(element@),
                stamp@,
            ),
    {
        let place = ProcessingPath::new(Some(self.pid), Some(self.timestamp), element);
        place.to_path_with(config.processing_subdir.as_str(), config.host.as_str(), stamp)
    }

    /// Where the lines of this subtask are written: its directory, to be
    /// made if it is not there, and its input file, to be appended to. A
    /// subtask whose process was started takes no more lines.
    pub fn get_writer(&self, config: &Config) -> (r: Result<WriterPaths, String>)
        requires
            self.wf(),
        ensures
            r is Ok <==> self.child is NotStarted,
            r is Ok ==> exists|stamp: Seq<char>| #[trigger] self.writes_to(*config, stamp, r->Ok_0),
            r is Err ==> r->Err_0@ == "should not be written to after child proc launch"@,
    {
        match self.child {
            TaskChild::NotStarted => {},
            _ => {
                return Err(owned("should not be written to after child proc launch"));
            },
        }
        let stamp = writable_stamp_text(&self.timestamp);
        let dir = self.path_of(config, ProcessingPathElement::SubTaskDir(self.count), stamp.as_str());
        let input = self.path_of(
            config,
            ProcessingPathElement::SubTaskInput(self.count),
            stamp.as_str(),
        );
        let r: Result<WriterPaths, String> = Ok(WriterPaths { dir, input });
        assert(self.writes_to(*config, stamp@, r->Ok_0));
        r
    }

    /// The command to run for this subtask: its kind's command with every
    /// placeholder replaced, `{file}` by the path of the input file; and
    /// the output file, which must be made anew. A subtask is started once.
    pub fn launch(&self, config: &Config) -> (r: Result<LaunchOrder, String>)
        requires
            self.wf(),
        ensures
            !(self.child is NotStarted) ==> r is Err && r->Err_0@ == "already launched previously"@,
            self.child is NotStarted ==> exists|stamp: Seq<char>| #[trigger]
                self.orders(*config, stamp, r),
    {
        match self.child {
            TaskChild::NotStarted => {},
            _ => {
                return Err(owned("already launched previously"));
            },
        }
        let stamp = writable_stamp_text(&self.timestamp);
        let input = self.path_of(
            config,
            ProcessingPathElement::SubTaskInput(self.count),
            stamp.as_str(),
        );
        let mut values = self.cmdvals.duplicate();
        let _ = values.insert(owned("file"), input);
        let r = match format_line(
            &config.braced_name_regex,
            self.taskdef.command.as_str(),
            &values,
        ) {
            Err(fault) => {
                let mut out: Vec<char> = Vec::new();
                push_str(&mut out, "failed to format command string: ");
                push_str(&mut out, fault.as_str());
                Err(string_from_chars(&out))
            },
            Ok(command) => {
                let output = self.path_of(
                    config,
                    ProcessingPathElement::SubTaskOutput(self.count),
                    stamp.as_str(),
                );
                Ok(LaunchOrder { command, output })
            },
        };
        assert(self.orders(*config, stamp@, r));
        r
    }

    /// Notes that the process was started, under the id `child`, at `now`
    /// on the runner's clock.
    pub fn launched(&mut self, child: u32, now: Duration)
        requires
            old(self).child is NotStarted,
        ensures
            *final(self) == (SubTask { child: TaskChild::Child(child), started: now, ..*old(self) }),
    {
        self.child = TaskChild::Child(child);
        self.started = now;
    }

    /// Takes note of what was seen of the process, and says whether it is
    /// to be killed. The subtask must have been started.
    pub fn poll(&mut self, seen: &ChildObservation, hard_timeout: &Duration) -> (action: PollAction)
        requires
            !(old(self).child is NotStarted),
        ensures
            *final(self) == (SubTask {
                child: polled(
                    old(self).child,
                    old(self).started,
                    old(self).taskdef.timeout,
                    *hard_timeout,
                    *seen,
                ),
                ..*old(self)
            }),
            action == if kills(
                old(self).child,
                old(self).started,
                old(self).taskdef.timeout,
                *hard_timeout,
                *seen,
            ) {
                PollAction::Kill(old(self).child->Child_0)
            } else {
                PollAction::Nothing
            },
    {
        let id: u32 = match self.child {
            TaskChild::Child(id) => id,
            _ => {
                return PollAction::Nothing;
            },
        };
        match seen.status {
            ChildStatus::Exited(Some(code)) => {
                self.child = TaskChild::Complete(code);
                return PollAction::Nothing;
            },
            ChildStatus::Exited(None) => {
                self.child = TaskChild::Complete(-1);
                return PollAction::Nothing;
            },
            _ => {},
        }
        let running = seen.now.since(&self.started);
        let mut kill: bool = false;
        match self.taskdef.timeout {
            None => {},
            Some(timeout) => {
                let silent = match seen.since_update {
                    Some(age) => age,
                    None => running,
                };
                if silent.at_least(&timeout) {
                    kill = true;
                }
            },
        }
        if !kill && running.at_least(hard_timeout) {
            kill = true;
        }
        if kill {
            self.child = TaskChild::Complete(-1);
            PollAction::Kill(id)
        } else {
            PollAction::Nothing
        }
    }

    /// What is to be done when this subtask ends, where `stamp` is the text
    /// of the timestamp.
    pub fn cleanup_with(&self, config: &Config, stamp: &str) -> (plan: SubTaskCleanup)
        ensures
            plan.kill == match self.child {
                TaskChild::Child(id) => Some(id),
                _ => None::<u32>,
            },
            self.cleans(*config, stamp@, plan),
    {
        let kill = match self.child {
            TaskChild::Child(id) => Some(id),
            _ => None,
        };
        let from = self.path_of(
            config,
            ProcessingPathElement::SubTaskOutput(self.count),
            stamp,
        );
        let succeeded: bool = match self.child {
            TaskChild::Complete(code) => code == 0,
            _ => false,
        };
        let output = if succeeded {
            OutputCleanup::Remove(from)
        } else {
            let place = ProcessingPath::new(
                Some(self.pid),
                Some(self.timestamp),
                ProcessingPathElement::SubTaskOutput(self.count),
            );
            let to = place.to_path_with(
                config.logged_failure_subdir.as_str(),
                config.host.as_str(),
                stamp,
            );
            OutputCleanup::Relocate { from, to }
        };
        let input = self.path_of(
            config,
            ProcessingPathElement::SubTaskInput(self.count),
            stamp,
        );
        let dir = self.path_of(config, ProcessingPathElement::SubTaskDir(self.count), stamp);
        SubTaskCleanup { kill, output, input, dir }
    }

    /// What is to be done when this subtask ends: a process still running
    /// is killed; the output file is removed after success (exit code 0)
    /// and else moved below the directory of logged failures, under the
    /// path it has below the processing directory; the input file and the
    /// directory are removed.
    pub fn cleanup(&self, config: &Config) -> (plan: SubTaskCleanup)
        requires
            self.wf(),
        ensures
            plan.kill == match self.child {
                TaskChild::Child(id) => Some(id),
                _ => None::<u32>,
            },
            exists|stamp: Seq<char>| #[trigger] self.cleans(*config, stamp, plan),
    {
        let stamp = writable_stamp_text(&self.timestamp);
        let plan = self.cleanup_with(config, stamp.as_str());
        assert(self.cleans(*config, stamp@, plan));
        plan
    }
}

} // verus!
