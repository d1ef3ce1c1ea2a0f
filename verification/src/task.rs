//! A task: one task file on its way through the runner.
//!
//! A task is grabbed from the input directory, filtered line by line
//! against the object table, launched as one process per distinct command,
//! polled until every process has ended, and checked until the client has
//! taken the result away. Each stage is a type of its own, so that a step
//! can only be taken from the stage it belongs to.
//!
//! Files and processes live outside this library: each step is told what
//! was read or seen, and answers with the new state and with what is to be
//! written, started, killed, moved or removed.
use crate::config::{Config, ConfigTask};
use crate::format::Duration;
use crate::objtable::{released, ObjTable};
use crate::processing::{
    below, join_below, path_text, writable_stamp_text, strip_prefix, stripped, writable_stamp, ElementView,
    PathView, ProcessingPath, ProcessingPathElement, MAX_STAMP_SECS,
};
use crate::subtask::{SubTask, SubTaskCleanup};
use crate::template::{captures_of, regex_captures};
use crate::text::{owned, parse_number, parse_unsigned, same_text};
use crate::values::Values;
use std::marker::PhantomData;
use std::sync::Arc;
use vstd::prelude::*;

pub mod filter;
pub mod run;

verus! {

/// When a task reached each stage, on the runner's clock.
#[derive(Clone, Copy, Debug, PartialEq, Eq, Structural)]
pub struct Times {
    pub detected: Option<Duration>,
    pub filtered: Option<Duration>,
    pub started: Option<Duration>,
    pub completed: Option<Duration>,
    pub cleaned: Option<Duration>,
}

/// The stage of a task that has been taken from the input directory.
#[derive(Debug)]
pub struct TaskGrabbed;

/// The stage of a task whose lines have all been filtered.
#[derive(Debug)]
pub struct TaskFiltered;

/// The stage of a task whose processes have all been started.
#[derive(Debug)]
pub struct TaskRunning;

/// The stage of a task whose processes have all succeeded.
#[derive(Debug)]
pub struct TaskComplete;

/// The outcome of a step: the task stays in its stage, to be tried again;
/// it moves on; or it fails, with a message.
#[derive(Debug)]
pub enum TaskResult<U, T> {
    Unchanged(U),
    Transformed(T),
    Failed(String),
}

/// What becomes of the task file when the task ends.
#[derive(Clone, Copy, Debug, PartialEq, Eq, Structural)]
pub enum InnerTaskCleanup {
    /// The task succeeded: the file is removed.
    Delete,
    /// The file is moved to the directory of failures.
    Failure,
    /// The file belongs to another host: it is left alone.
    Ignore,
}

/// What is to be done with the task file when the task ends.
#[derive(Debug)]
pub enum TaskfileCleanup {
    Ignore,
    Delete(String),
    Archive { from: String, to: String },
}

/// The directories of a task in the staging area, to be removed from
/// `leaf` upwards as far as `root`, `root` included.
#[derive(Debug)]
pub struct CleanupDirs {
    pub root: String,
    pub leaf: String,
}

/// What is to be done when a task ends.
#[derive(Debug)]
pub struct TaskCleanup {
    /// The filtered task file to remove, where the task has written one.
    pub filtered: Option<String>,
    pub taskfile: TaskfileCleanup,
    pub subtasks: Vec<SubTaskCleanup>,
    /// The directories to remove; none where the file is left alone.
    pub dirs: Option<CleanupDirs>,
}

struct InnerTask {
    taskfile: String,
    currentpath: String,
    pid: u32,
    timestamp: Duration,
    taskdef: Arc<ConfigTask>,
    parsedoffset: usize,
    pathvals: Values,
    subtasks: Vec<SubTask>,
    times: Times,
    cleanup: InnerTaskCleanup,
}

/// One task file on its way through the runner, in the stage `S`.
pub struct Task<S> {
    itask: InnerTask,
    status: PhantomData<S>,
}

/// What a task is made of.
pub struct TaskView {
    /// The path of the task file below the input directory.
    pub taskfile: Seq<char>,
    /// Where the task file is now.
    pub currentpath: Seq<char>,
    /// The process id of the runner.
    pub pid: u32,
    /// The timestamp that sets the task apart from others of its kind.
    pub timestamp: Duration,
    pub taskdef: ConfigTask,
    /// How many lines of the task file have been dealt with.
    pub parsedoffset: usize,
    /// The values that the path of the task file gave.
    pub pathvals: Map<Seq<char>, Seq<char>>,
    pub subtasks: Seq<SubTask>,
    pub times: Times,
    pub cleanup: InnerTaskCleanup,
}

impl<S> View for Task<S> {
    type V = TaskView;

    closed spec fn view(&self) -> TaskView {
        TaskView {
            taskfile: self.itask.taskfile@,
            currentpath: self.itask.currentpath@,
            pid: self.itask.pid,
            timestamp: self.itask.timestamp,
            taskdef: *self.itask.taskdef,
            parsedoffset: self.itask.parsedoffset,
            pathvals: self.itask.pathvals@,
            subtasks: self.itask.subtasks@,
            times: self.itask.times,
            cleanup: self.itask.cleanup,
        }
    }
}

/// Every subtask belongs to the task and stands at its own position.
pub open spec fn subtasks_wf(task: TaskView) -> bool {
    forall|i: int|
        0 <= i < task.subtasks.len() ==> {
            &&& (#[trigger] task.subtasks[i]).wf()
            &&& task.subtasks[i].count == i
            &&& task.subtasks[i].pid == task.pid
            &&& task.subtasks[i].timestamp == task.timestamp
            &&& *task.subtasks[i].taskdef == task.taskdef
        }
}

/// The timestamp can be written into a path, and the subtasks belong to
/// the task.
pub open spec fn task_wf(task: TaskView) -> bool {
    &&& writable_stamp(task.timestamp)
    &&& subtasks_wf(task)
}

/// The number of subtasks whose process is running.
pub open spec fn running_count(subtasks: Seq<SubTask>) -> nat
    decreases subtasks.len(),
{
    if subtasks.len() == 0 {
        0
    } else {
        running_count(subtasks.drop_last()) + if subtasks.last().child is Child {
            1nat
        } else {
            0nat
        }
    }
}

/// The place of an element of a task in the staging area.
pub open spec fn task_place(task: TaskView, element: ElementView) -> PathView {
    PathView { process: Some(task.pid), timestamp: Some(task.timestamp), element }
}

/// The path of an element of a task, where `stamp` is the text of the
/// timestamp.
pub open spec fn task_path(task: TaskView, config: Config, element: ElementView, stamp: Seq<char>) -> Seq<
    char,
> {
    path_text(config.processing_subdir@, config.host@, task_place(task, element), stamp)
}

/// Whether `plan` is what is to be done when `task` ends: the filtered
/// task file is removed where lines were dealt with; the task file is
/// treated by the task's policy; every subtask is cleaned up; and the
/// task's directories are removed, unless the file is left alone.
pub open spec fn cleans_up(task: TaskView, config: Config, stamp: Seq<char>, plan: TaskCleanup) -> bool {
    &&& plan.filtered.deep_view() == if task.parsedoffset > 0 {
        Some(task_path(task, config, ElementView::FilteredTaskfile, stamp))
    } else {
        None
    }
    &&& match plan.taskfile {
        TaskfileCleanup::Ignore => task.cleanup == InnerTaskCleanup::Ignore,
        TaskfileCleanup::Delete(path) => task.cleanup == InnerTaskCleanup::Delete && path@
            == task.currentpath,
        TaskfileCleanup::Archive { from, to } => task.cleanup == InnerTaskCleanup::Failure && from@
            == task.currentpath && to@ == below(config.output_failure_subdir@, task.taskfile),
    }
    &&& plan.subtasks@.len() == task.subtasks.len()
    &&& forall|i: int|
        0 <= i < task.subtasks.len() ==> (#[trigger] task.subtasks[i]).cleans(
            config,
            stamp,
            plan.subtasks@[i],
        )
    &&& match plan.dirs {
        None => task.cleanup == InnerTaskCleanup::Ignore,
        Some(dirs) => task.cleanup != InnerTaskCleanup::Ignore && dirs.root@ == task_path(
            task,
            config,
            ElementView::IntermediateDir,
            stamp,
        ) && dirs.leaf@ == task_path(
            task,
            config,
            ElementView::OriginalTaskfile(task.taskfile),
            stamp,
        ),
    }
}

impl<S> Task<S> {
    /// The values of the path are well formed, the timestamp can be
    /// written into a path, and the subtasks belong to the task.
    pub closed spec fn wf(&self) -> bool {
        &&& self.itask.pathvals.wf()
        &&& task_wf(self@)
    }

    /// A well-formed task shows a well-formed content.
    pub proof fn lemma_wf(&self)
        requires
            self.wf(),
        ensures
            task_wf(self@),
    {
    }

    /// When the task reached each stage.
    pub fn times(&self) -> (times: &Times)
        ensures
            *times == self@.times,
    {
        &self.itask.times
    }

    /// Where the task file is now.
    pub fn current_path(&self) -> (path: &String)
        ensures
            path@ == self@.currentpath,
    {
        &self.itask.currentpath
    }

    /// The timestamp that sets the task apart from others of its kind.
    pub fn timestamp(&self) -> (stamp: Duration)
        ensures
            stamp == self@.timestamp,
    {
        self.itask.timestamp
    }

    /// The kind of the task.
    pub fn taskdef(&self) -> (taskdef: &Arc<ConfigTask>)
        ensures
            **taskdef == self@.taskdef,
    {
        &self.itask.taskdef
    }

    /// How many lines of the task file have been dealt with.
    pub fn parsed_offset(&self) -> (offset: usize)
        ensures
            offset == self@.parsedoffset,
    {
        self.itask.parsedoffset
    }

    /// The subtasks of the task.
    pub fn subtasks(&self) -> (subtasks: &Vec<SubTask>)
        ensures
            subtasks@ == self@.subtasks,
    {
        &self.itask.subtasks
    }

    fn path_of(&self, config: &Config, element: ProcessingPathElement, stamp: &str) -> (path: String)
        ensures
            path@ == task_path(self@, *config, element@, stamp@),
    {
        let place = ProcessingPath::new(Some(self.itask.pid), Some(self.itask.timestamp), element);
        place.to_path_with(config.processing_subdir.as_str(), config.host.as_str(), stamp)
    }

    /// The path of the filtered task file.
    pub fn filtered_path(&self, config: &Config) -> (path: String)
        requires
            self.wf(),
        ensures
            exists|stamp: Seq<char>|
                path@ == #[trigger] task_path(
                    self@,
                    *config,
                    ElementView::FilteredTaskfile,
                    stamp,
                ),
    {
        let stamp = writable_stamp_text(&self.itask.timestamp);
        let path = self.path_of(config, ProcessingPathElement::FilteredTaskfile, stamp.as_str());
        assert(path@ == task_path(self@, *config, ElementView::FilteredTaskfile, stamp@));
        path
    }

    /// Where the result of the task goes when every process has succeeded:
    /// the path of the task file, below the directory of successes.
    pub fn success_path(&self, config: &Config) -> (path: String)
        ensures
            path@ == below(config.output_success_subdir@, self@.taskfile),
    {
        join_below(config.output_success_subdir.as_str(), self.itask.taskfile.as_str())
    }

    /// Ends the task: what it holds in the object table is let go, and
    /// the plan says what is to be done with its files, processes and
    /// directories.
    pub fn release(self, table: &mut ObjTable, config: &Config) -> (plan: TaskCleanup)
        requires
            self.wf(),
            old(table).wf(),
        ensures
            final(table).wf(),
            final(table)@ == released(old(table)@, self@.taskdef.name@, self@.timestamp),
            exists|stamp: Seq<char>| #[trigger] cleans_up(self@, *config, stamp, plan),
    {
        let stamp = writable_stamp_text(&self.itask.timestamp);
        let mut filtered: Option<String> = None;
        table.remove(&self.itask.taskdef, self.itask.timestamp);
        if self.itask.parsedoffset > 0 {
            filtered = Some(
                self.path_of(config, ProcessingPathElement::FilteredTaskfile, stamp.as_str()),
            );
        }
        let taskfile = match self.itask.cleanup {
            InnerTaskCleanup::Ignore => TaskfileCleanup::Ignore,
            InnerTaskCleanup::Delete => TaskfileCleanup::Delete(
                owned(self.itask.currentpath.as_str()),
            ),
            InnerTaskCleanup::Failure => TaskfileCleanup::Archive {
                from: owned(self.itask.currentpath.as_str()),
                to: join_below(
                    config.output_failure_subdir.as_str(),
                    self.itask.taskfile.as_str(),
                ),
            },
        };
        let mut subtasks: Vec<SubTaskCleanup> = Vec::new();
        let mut i: usize = 0;
        while i < self.itask.subtasks.len()
            invariant
                0 <= i <= self.itask.subtasks.len(),
                self.wf(),
                subtasks@.len() == i,
                forall|j: int|
                    0 <= j < i ==> (#[trigger] self.itask.subtasks@[j]).cleans(
                        *config,
                        stamp@,
                        subtasks@[j],
                    ),
            decreases self.itask.subtasks.len() - i,
        {
            let plan = self.itask.subtasks[i].cleanup_with(config, stamp.as_str());
            subtasks.push(plan);
            i += 1;
        }
        let dirs = match self.itask.cleanup {
            InnerTaskCleanup::Ignore => None,
            _ => Some(
                CleanupDirs {
                    root: self.path_of(
                        config,
                        ProcessingPathElement::IntermediateDir,
                        stamp.as_str(),
                    ),
                    leaf: self.path_of(
                        config,
                        ProcessingPathElement::OriginalTaskfile(
                            owned(self.itask.taskfile.as_str()),
                        ),
                        stamp.as_str(),
                    ),
                },
            ),
        };
        let plan = TaskCleanup { filtered, taskfile, subtasks, dirs };
        assert(cleans_up(self@, *config, stamp@, plan));
        plan
    }
}

/// Why a file of the input directory is no task.
#[derive(Clone, Copy, Debug, PartialEq, Eq, Structural)]
pub enum GrabError {
    /// The path does not follow the template for task files.
    PathMismatch,
    /// The path does not tell the kind of task.
    NoTaskName,
    /// No kind of task has the name that the path tells.
    UnknownTask,
    /// The path does not give the value at this position of the
    /// configuration's list.
    MissingValue { value: usize },
    /// The value at this position of the configuration's list has a name
    /// that an earlier one has too.
    RepeatedValue { value: usize },
}

/// What became of a file of the input directory.
pub enum Grab {
    /// A task was made of it. Its file is still where it was found.
    Taken(Task<TaskGrabbed>),
    /// The file lies outside the input directory: nothing is done.
    Outside,
    /// The file belongs to another host: it is left alone.
    Ignored,
    /// The file is no task: it is put away with the failures.
    Failed { error: GrabError, cleanup: TaskCleanup },
}

/// Whether a value of the path lies within what this host serves: any
/// value does where the host is not restricted; else the value must be
/// there, be a number, and be one of the host's.
pub open spec fn within_restriction(restriction: Option<Vec<u32>>, value: Option<Seq<char>>) -> bool {
    match restriction {
        None => true,
        Some(allowed) => match value {
            None => false,
            Some(text) => match parse_unsigned(text, u32::MAX as nat) {
                Err(_) => false,
                Ok(n) => allowed@.contains(n as u32),
            },
        },
    }
}

/// The names whose groups are asked of the path of a task file: the four
/// coordinates, the kind of task, and the values of the configuration.
pub open spec fn path_group_names(config: Config) -> Seq<Seq<char>> {
    seq!["pod"@, "block"@, "cap"@, "scatter"@, "task"@] + config.task_path_values.deep_view()
}

/// The values that the path gives for the first `k` names of the
/// configuration's list, or the first fault among them.
pub open spec fn path_values(names: Seq<Seq<char>>, groups: Seq<Option<Seq<char>>>, k: int) -> Result<
    Map<Seq<char>, Seq<char>>,
    GrabError,
>
    decreases k,
{
    if k <= 0 {
        Ok(Map::empty())
    } else {
        match path_values(names, groups, k - 1) {
            Err(e) => Err(e),
            Ok(values) => match groups[k - 1] {
                None => Err(GrabError::MissingValue { value: (k - 1) as usize }),
                Some(text) => if values.contains_key(names[k - 1]) {
                    Err(GrabError::RepeatedValue { value: (k - 1) as usize })
                } else {
                    Ok(values.insert(names[k - 1], text))
                },
            },
        }
    }
}

/// The position of the first kind of task of the name `name`, or the
/// number of kinds where there is none.
pub open spec fn kind_position(tasks: Seq<Arc<ConfigTask>>, name: Seq<char>) -> int
    decreases tasks.len(),
{
    if tasks.len() == 0 {
        0
    } else if tasks[0].name@ == name {
        0
    } else {
        1 + kind_position(tasks.drop_first(), name)
    }
}

/// What a look at the groups of a path decides.
pub enum GrabKind {
    Taken { kind: int, values: Map<Seq<char>, Seq<char>> },
    Ignored,
    Failed(GrabError),
}

/// What is made of a task file whose path gave the groups `groups` for
/// `path_group_names`: nothing where the path does not match.
pub open spec fn grab_kind(config: Config, groups: Option<Seq<Option<Seq<char>>>>) -> GrabKind {
    let names = config.task_path_values.deep_view();
    match groups {
        None => GrabKind::Failed(GrabError::PathMismatch),
        Some(found) => if found.len() != 5 + names.len() {
            GrabKind::Failed(GrabError::PathMismatch)
        } else if !within_restriction(config.pods, found[0]) || !within_restriction(
            config.blocks,
            found[1],
        ) || !within_restriction(config.caps, found[2]) || !within_restriction(
            config.scatters,
            found[3],
        ) {
            GrabKind::Ignored
        } else if found[4] is None {
            GrabKind::Failed(GrabError::NoTaskName)
        } else if kind_position(config.tasks@, found[4]->Some_0) >= config.tasks@.len() {
            GrabKind::Failed(GrabError::UnknownTask)
        } else {
            match path_values(names, found.skip(5), names.len() as int) {
                Err(e) => GrabKind::Failed(e),
                Ok(values) => GrabKind::Taken {
                    kind: kind_position(config.tasks@, found[4]->Some_0),
                    values,
                },
            }
        },
    }
}

/// The task as it is when it has just been grabbed, of the kind `kind` and
/// with the values `values` of its path.
pub open spec fn fresh_task(
    taskfile: Seq<char>,
    currentpath: Seq<char>,
    config: Config,
    pid: u32,
    now: Duration,
    detected: Duration,
    kind: int,
    values: Map<Seq<char>, Seq<char>>,
) -> TaskView {
    TaskView {
        taskfile,
        currentpath,
        pid,
        timestamp: now,
        taskdef: *config.tasks@[kind],
        parsedoffset: 0,
        pathvals: values,
        subtasks: Seq::empty(),
        times: Times {
            detected: Some(detected),
            filtered: None,
            started: None,
            completed: None,
            cleaned: None,
        },
        cleanup: InnerTaskCleanup::Failure,
    }
}

/// What is to be done with a file that is no task: it is moved from where
/// it was found to the directory of failures, and what there may be of a
/// directory of its timestamp is removed.
pub open spec fn refusal_plan(
    taskfile: Seq<char>,
    currentpath: Seq<char>,
    config: Config,
    pid: u32,
    now: Duration,
    stamp: Seq<char>,
    plan: TaskCleanup,
) -> bool {
    let place = PathView { process: Some(pid), timestamp: Some(now), element: ElementView::IntermediateDir };
    &&& plan.filtered is None
    &&& plan.taskfile matches TaskfileCleanup::Archive { from, to } && from@ == currentpath && to@
        == below(config.output_failure_subdir@, taskfile)
    &&& plan.subtasks@.len() == 0
    &&& plan.dirs matches Some(dirs) && dirs.root@ == path_text(
        config.processing_subdir@,
        config.host@,
        place,
        stamp,
    ) && dirs.leaf@ == path_text(
        config.processing_subdir@,
        config.host@,
        PathView { element: ElementView::OriginalTaskfile(taskfile), ..place },
        stamp,
    )
}

/// Whether `grab` is what `grab_kind` decides for a file at `currentpath`,
/// `taskfile` below the input directory.
pub open spec fn grab_matches(
    grab: Grab,
    kind: GrabKind,
    taskfile: Seq<char>,
    currentpath: Seq<char>,
    config: Config,
    pid: u32,
    now: Duration,
    detected: Duration,
) -> bool {
    match kind {
        GrabKind::Ignored => grab is Ignored,
        GrabKind::Failed(e) => grab matches Grab::Failed { error, cleanup } && error == e
            && exists|stamp: Seq<char>| #[trigger]
            refusal_plan(taskfile, currentpath, config, pid, now, stamp, cleanup),
        GrabKind::Taken { kind, values } => grab matches Grab::Taken(task) && task.wf() && task@
            == fresh_task(taskfile, currentpath, config, pid, now, detected, kind, values),
    }
}

fn holds_number(list: &Vec<u32>, wanted: u32) -> (r: bool)
    ensures
        r == list@.contains(wanted),
{
    let mut i: usize = 0;
    while i < list.len()
        invariant
            0 <= i <= list.len(),
            forall|j: int| 0 <= j < i ==> list@[j] != wanted,
        decreases list.len() - i,
    {
        if list[i] == wanted {
            return true;
        }
        i += 1;
    }
    false
}

/// Whether `value` lies within what this host serves.
fn value_within_restriction(restriction: &Option<Vec<u32>>, value: &Option<String>) -> (r: bool)
    ensures
        r == within_restriction(*restriction, value.deep_view()),
{
    match restriction {
        None => true,
        Some(allowed) => match value {
            None => false,
            Some(text) => match parse_number(text.as_str(), u32::MAX as u64) {
                Err(_) => false,
                Ok(n) => holds_number(allowed, n as u32),
            },
        },
    }
}

/// The position of the first kind of task of the name `name`.
fn find_kind(tasks: &Vec<Arc<ConfigTask>>, name: &str) -> (at: usize)
    ensures
        at == kind_position(tasks@, name@),
        at <= tasks.len(),
{
    let mut i: usize = 0;
    assert(tasks@.skip(0) =~= tasks@);
    while i < tasks.len()
        invariant
            0 <= i <= tasks.len(),
            kind_position(tasks@, name@) == i + kind_position(tasks@.skip(i as int), name@),
        decreases tasks.len() - i,
    {
        let ghost rest = tasks@.skip(i as int);
        assert(rest[0] == tasks@[i as int]);
        assert(rest.drop_first() =~= tasks@.skip(i + 1));
        if same_text(tasks[i].name.as_str(), name) {
            return i;
        }
        i += 1;
    }
    assert(tasks@.skip(tasks@.len() as int) =~= Seq::<Arc<ConfigTask>>::empty());
    i
}

/// The plan for a file that is no task.
fn refuse(taskfile: &str, currentpath: &str, config: &Config, pid: u32, now: Duration, stamp: &str) -> (plan:
    TaskCleanup)
    ensures
        refusal_plan(taskfile@, currentpath@, *config, pid, now, stamp@, plan),
{
    let root = ProcessingPath::new(Some(pid), Some(now), ProcessingPathElement::IntermediateDir);
    let leaf = ProcessingPath::new(
        Some(pid),
        Some(now),
        ProcessingPathElement::OriginalTaskfile(owned(taskfile)),
    );
    TaskCleanup {
        filtered: None,
        taskfile: TaskfileCleanup::Archive {
            from: owned(currentpath),
            to: join_below(config.output_failure_subdir.as_str(), taskfile),
        },
        subtasks: Vec::new(),
        dirs: Some(
            CleanupDirs {
                root: root.to_path_with(
                    config.processing_subdir.as_str(),
                    config.host.as_str(),
                    stamp,
                ),
                leaf: leaf.to_path_with(
                    config.processing_subdir.as_str(),
                    config.host.as_str(),
                    stamp,
                ),
            },
        ),
    }
}

/// The values that the path gives for the names of the configuration's
/// list.
fn read_path_values(names: &Vec<String>, groups: &Vec<Option<String>>) -> (r: Result<
    Values,
    GrabError,
>)
    requires
        groups.len() == 5 + names.len(),
    ensures
        match path_values(names.deep_view(), groups.deep_view().skip(5), names.len() as int) {
            Ok(values) => r is Ok && r->Ok_0.wf() && r->Ok_0@ == values,
            Err(e) => r == Err::<Values, GrabError>(e),
        },
{
    let ghost wanted = names.deep_view();
    let ghost found = groups.deep_view().skip(5);
    let mut values = Values::new();
    let mut k: usize = 0;
    while k < names.len()
        invariant
            0 <= k <= names.len(),
            groups.len() == 5 + names.len(),
            wanted == names.deep_view(),
            found == groups.deep_view().skip(5),
            values.wf(),
            path_values(wanted, found, k as int) == Ok::<Map<Seq<char>, Seq<char>>, GrabError>(
                values@,
            ),
        decreases names.len() - k,
    {
        assert(found[k as int] == groups@[5 + k].deep_view());
        assert(wanted[k as int] == names@[k as int]@);
        match &groups[5 + k] {
            None => {
                proof {
                    lemma_path_values_error(wanted, found, k + 1, names.len() as int);
                }
                return Err(GrabError::MissingValue { value: k });
            },
            Some(text) => {
                if values.contains_key(names[k].as_str()) {
                    proof {
                        lemma_path_values_error(wanted, found, k + 1, names.len() as int);
                    }
                    return Err(GrabError::RepeatedValue { value: k });
                }
                let _ = values.insert(owned(names[k].as_str()), owned(text.as_str()));
            },
        }
        k += 1;
    }
    Ok(values)
}

proof fn lemma_path_values_error(
    names: Seq<Seq<char>>,
    groups: Seq<Option<Seq<char>>>,
    k: int,
    n: int,
)
    requires
        0 <= k <= n,
        path_values(names, groups, k) is Err,
    ensures
        path_values(names, groups, n) == path_values(names, groups, k),
    decreases n - k,
{
    if k < n {
        lemma_path_values_error(names, groups, k, n - 1);
    }
}

impl Task<TaskGrabbed> {
    /// Makes a task of a file of the input directory, from what the path
    /// template found in the file's path below that directory: `groups`
    /// are the groups of the names `path_group_names`, or nothing where
    /// the path does not match.
    ///
    /// `pid` is the process id of the runner, `now` the time of day that
    /// becomes the task's timestamp, `detected` the runner's clock.
    pub fn from_groups(
        taskfile: String,
        currentpath: String,
        groups: Option<Vec<Option<String>>>,
        config: &Config,
        pid: u32,
        now: Duration,
        detected: Duration,
    ) -> (grab: Grab)
        requires
            writable_stamp(now),
        ensures
            grab_matches(
                grab,
                grab_kind(*config, groups.deep_view()),
                taskfile@,
                currentpath@,
                *config,
                pid,
                now,
                detected,
            ),
    {
        let stamp = writable_stamp_text(&now);
        let found = match groups {
            None => {
                let cleanup = refuse(
                    taskfile.as_str(),
                    currentpath.as_str(),
                    config,
                    pid,
                    now,
                    stamp.as_str(),
                );
                return Grab::Failed { error: GrabError::PathMismatch, cleanup };
            },
            Some(found) => found,
        };
        let ghost seen = found.deep_view();
        assert(seen.len() == found@.len());
        assert(config.task_path_values.deep_view().len() == config.task_path_values@.len());
        if config.task_path_values.len() > usize::MAX - 5 || found.len() != 5
            + config.task_path_values.len() {
            let cleanup = refuse(
                taskfile.as_str(),
                currentpath.as_str(),
                config,
                pid,
                now,
                stamp.as_str(),
            );
            return Grab::Failed { error: GrabError::PathMismatch, cleanup };
        }
        assert(seen[0] == found@[0].deep_view());
        assert(seen[1] == found@[1].deep_view());
        assert(seen[2] == found@[2].deep_view());
        assert(seen[3] == found@[3].deep_view());
        assert(seen[4] == found@[4].deep_view());
        if !value_within_restriction(&config.pods, &found[0]) || !value_within_restriction(
            &config.blocks,
            &found[1],
        ) || !value_within_restriction(&config.caps, &found[2]) || !value_within_restriction(
            &config.scatters,
            &found[3],
        ) {
            return Grab::Ignored;
        }
        let kind: usize = match &found[4] {
            None => {
                let cleanup = refuse(
                    taskfile.as_str(),
                    currentpath.as_str(),
                    config,
                    pid,
                    now,
                    stamp.as_str(),
                );
                return Grab::Failed { error: GrabError::NoTaskName, cleanup };
            },
            Some(name) => find_kind(&config.tasks, name.as_str()),
        };
        if kind >= config.tasks.len() {
            let cleanup = refuse(
                taskfile.as_str(),
                currentpath.as_str(),
                config,
                pid,
                now,
                stamp.as_str(),
            );
            return Grab::Failed { error: GrabError::UnknownTask, cleanup };
        }
        let pathvals = match read_path_values(&config.task_path_values, &found) {
            Err(error) => {
                let cleanup = refuse(
                    taskfile.as_str(),
                    currentpath.as_str(),
                    config,
                    pid,
                    now,
                    stamp.as_str(),
                );
                return Grab::Failed { error, cleanup };
            },
            Ok(values) => values,
        };
        let task = Task {
            itask: InnerTask {
                taskfile,
                currentpath,
                pid,
                timestamp: now,
                taskdef: Arc::clone(&config.tasks[kind]),
                parsedoffset: 0,
                pathvals,
                subtasks: Vec::new(),
                times: Times {
                    detected: Some(detected),
                    filtered: None,
                    started: None,
                    completed: None,
                    cleaned: None,
                },
                cleanup: InnerTaskCleanup::Failure,
            },
            status: PhantomData,
        };
        Grab::Taken(task)
    }

    /// Makes a task of the file at `currentpath`.
    ///
    /// A file outside the input directory is passed over. The file's path
    /// below the input directory is put to the path template; what the
    /// template finds decides as `from_groups` says.
    pub fn new(currentpath: String, config: &Config, pid: u32, now: Duration, detected: Duration) -> (grab:
        Grab)
        requires
            writable_stamp(now),
        ensures
            match stripped(currentpath@, config.input_subdir@) {
                None => grab is Outside,
                Some(taskfile) => grab_matches(
                    grab,
                    grab_kind(
                        *config,
                        captures_of(config.task_path_regex.source(), taskfile, path_group_names(*config)),
                    ),
                    taskfile,
                    currentpath@,
                    *config,
                    pid,
                    now,
                    detected,
                ),
            },
    {
        let taskfile = match strip_prefix(currentpath.as_str(), config.input_subdir.as_str()) {
            None => {
                return Grab::Outside;
            },
            Some(taskfile) => taskfile,
        };
        let mut names: Vec<String> = Vec::new();
        names.push(owned("pod"));
        names.push(owned("block"));
        names.push(owned("cap"));
        names.push(owned("scatter"));
        names.push(owned("task"));
        let mut i: usize = 0;
        while i < config.task_path_values.len()
            invariant
                0 <= i <= config.task_path_values.len(),
                names.deep_view() == seq!["pod"@, "block"@, "cap"@, "scatter"@, "task"@]
                    + config.task_path_values.deep_view().take(i as int),
            decreases config.task_path_values.len() - i,
        {
            let ghost before = names.deep_view();
            names.push(owned(config.task_path_values[i].as_str()));
            assert(names.deep_view() =~= before.push(config.task_path_values@[i as int]@));
            assert(config.task_path_values.deep_view().take(i + 1)
                =~= config.task_path_values.deep_view().take(i as int).push(
                config.task_path_values@[i as int]@,
            ));
            i += 1;
        }
        assert(config.task_path_values.deep_view().take(config.task_path_values@.len() as int)
            =~= config.task_path_values.deep_view());
        let groups = regex_captures(&config.task_path_regex, taskfile.as_str(), &names);
        Self::from_groups(taskfile, currentpath, groups, config, pid, now, detected)
    }

    /// The directory of the task in the staging area, which must be made
    /// before the task file is moved.
    pub fn stage_dir(&self, config: &Config) -> (path: String)
        requires
            self.wf(),
        ensures
            exists|stamp: Seq<char>|
                path@ == #[trigger] task_path(self@, *config, ElementView::IntermediateDir, stamp),
    {
        let stamp = writable_stamp_text(&self.itask.timestamp);
        let path = self.path_of(config, ProcessingPathElement::IntermediateDir, stamp.as_str());
        assert(path@ == task_path(self@, *config, ElementView::IntermediateDir, stamp@));
        path
    }

    /// Where the task file goes in the staging area.
    pub fn stage_target(&self, config: &Config) -> (path: String)
        requires
            self.wf(),
        ensures
            exists|stamp: Seq<char>|
                path@ == #[trigger] task_path(
                    self@,
                    *config,
                    ElementView::OriginalTaskfile(self@.taskfile),
                    stamp,
                ),
    {
        let stamp = writable_stamp_text(&self.itask.timestamp);
        let path = self.path_of(
            config,
            ProcessingPathElement::OriginalTaskfile(owned(self.itask.taskfile.as_str())),
            stamp.as_str(),
        );
        assert(path@ == task_path(
            self@,
            *config,
            ElementView::OriginalTaskfile(self@.taskfile),
            stamp@,
        ));
        path
    }

    /// Moves the timestamp on by a millisecond, after the directory of the
    /// timestamp was found to exist already, and says whether making the
    /// directory is to be tried again: it is while the timestamp is less
    /// than a tenth of a second past `first`, the timestamp that the task
    /// was grabbed with. A timestamp that cannot be written into a path is
    /// not taken, and nothing is tried again.
    pub fn bump_timestamp(&mut self, first: &Duration) -> (again: bool)
        requires
            old(self).wf(),
            old(self)@.subtasks.len() == 0,
        ensures
            final(self).wf(),
            final(self)@ == (TaskView {
                timestamp: next_stamp(old(self)@.timestamp),
                ..old(self)@
            }),
            again == (next_stamp(old(self)@.timestamp) != old(self)@.timestamp && Duration::of_nanos(
                if next_stamp(old(self)@.timestamp).total_nanos() >= first.total_nanos() {
                    (next_stamp(old(self)@.timestamp).total_nanos() - first.total_nanos()) as nat
                } else {
                    0
                },
            ).total_nanos() < 100_000_000),
    {
        let step = Duration::from_millis(1);
        let moved = self.itask.timestamp.saturating_add(&step);
        if moved.secs > MAX_STAMP_SECS {
            return false;
        }
        self.itask.timestamp = moved;
        let tenth = Duration::from_millis(100);
        assert(tenth.total_nanos() == 100_000_000);
        moved.since(first).shorter_than(&tenth)
    }

    /// Notes that the task file was moved to `path` in the staging area.
    pub fn staged(&mut self, path: String)
        requires
            old(self).wf(),
        ensures
            final(self).wf(),
            final(self)@ == (TaskView { currentpath: path@, ..old(self)@ }),
    {
        self.itask.currentpath = path;
    }
}

/// The timestamp a millisecond later; the same timestamp where that could
/// not be written into a path.
pub open spec fn next_stamp(stamp: Duration) -> Duration {
    let moved = Duration::of_nanos(stamp.total_nanos() + 1_000_000);
    if moved.secs > MAX_STAMP_SECS {
        stamp
    } else {
        moved
    }
}

} // verus!
