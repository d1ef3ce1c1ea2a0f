//! Running: the processes of a task are started as far as the budget of
//! processes allows, looked at until all have ended, and the result is
//! handed over when all have succeeded.
use super::{
    cleans_up, running_count, task_path, InnerTaskCleanup, Task, TaskCleanup, TaskComplete,
    TaskFiltered, TaskResult, TaskRunning, TaskView, Times,
};
use crate::config::Config;
use crate::format::Duration;
use crate::objtable::{holds, law_released_holds_nothing, released, ObjTable, ObjectKey};
use crate::processing::{below, writable_stamp_text, ElementView, ProcessingPathElement};
use crate::subtask::{
    kills, polled, ChildObservation, LaunchOrder, PollAction, SubTask, TaskChild,
};
use crate::text::{owned, push_str, string_from_chars};
use std::marker::PhantomData;
use vstd::prelude::*;

verus! {

/// The subtasks of a task while they are gone through, with the budget of
/// processes and the processes that are to be killed.
pub struct ScanState {
    pub subtasks: Seq<SubTask>,
    pub budget: int,
    pub kills: Seq<u32>,
}

/// Where going through the subtasks for launching stopped.
pub enum ScanStop {
    /// At the end: every subtask has been started.
    End,
    /// At a subtask, for want of budget.
    Blocked,
    /// At this subtask, which is to be started.
    Start(int),
}

/// `subtask` after a look at its process.
pub open spec fn looked_at(subtask: SubTask, seen: ChildObservation, hard_timeout: Duration) -> SubTask {
    SubTask {
        child: polled(subtask.child, subtask.started, subtask.taskdef.timeout, hard_timeout, seen),
        ..subtask
    }
}

/// `state` after a look at the process of the subtask at `i`, which is
/// running: a process that has ended gives its place in the budget back,
/// and a process that ran out of time is to be killed.
pub open spec fn scan_look(state: ScanState, i: int, seen: ChildObservation, hard_timeout: Duration) -> ScanState {
    let subtask = state.subtasks[i];
    let after = looked_at(subtask, seen, hard_timeout);
    ScanState {
        subtasks: state.subtasks.update(i, after),
        budget: state.budget + if after.child is Complete {
            1int
        } else {
            0int
        },
        kills: if kills(
            subtask.child,
            subtask.started,
            subtask.taskdef.timeout,
            hard_timeout,
            seen,
        ) {
            state.kills.push(subtask.child->Child_0)
        } else {
            state.kills
        },
    }
}

/// Going through the subtasks from `i` on, for launching: a subtask that
/// has ended is passed; one that runs is looked at; one that has not been
/// started stops the scan, to be started. No subtask is touched once the
/// budget is used up.
pub open spec fn launch_scan(
    state: ScanState,
    i: int,
    seen: Seq<ChildObservation>,
    hard_timeout: Duration,
) -> (ScanStop, ScanState)
    decreases state.subtasks.len() - i,
{
    if i < 0 || i >= state.subtasks.len() {
        (ScanStop::End, state)
    } else if state.budget == 0 {
        (ScanStop::Blocked, state)
    } else {
        match state.subtasks[i].child {
            TaskChild::NotStarted => (ScanStop::Start(i), state),
            TaskChild::Complete(_) => launch_scan(state, i + 1, seen, hard_timeout),
            TaskChild::Child(_) => launch_scan(
                scan_look(state, i, seen[i], hard_timeout),
                i + 1,
                seen,
                hard_timeout,
            ),
        }
    }
}

/// Going through the subtasks from `i` on, for polling: every subtask that
/// runs is looked at.
pub open spec fn poll_scan(
    state: ScanState,
    i: int,
    seen: Seq<ChildObservation>,
    hard_timeout: Duration,
) -> ScanState
    decreases state.subtasks.len() - i,
{
    if i < 0 || i >= state.subtasks.len() {
        state
    } else if state.subtasks[i].child is Child {
        poll_scan(scan_look(state, i, seen[i], hard_timeout), i + 1, seen, hard_timeout)
    } else {
        poll_scan(state, i + 1, seen, hard_timeout)
    }
}

/// Whether every subtask has been started.
pub open spec fn all_started(subtasks: Seq<SubTask>) -> bool {
    forall|i: int| 0 <= i < subtasks.len() ==> !((#[trigger] subtasks[i]).child is NotStarted)
}

/// Whether some subtask is running.
pub open spec fn any_running(subtasks: Seq<SubTask>) -> bool {
    exists|i: int| 0 <= i < subtasks.len() && (#[trigger] subtasks[i]).child is Child
}

/// Whether every subtask has ended with success.
pub open spec fn all_succeeded(subtasks: Seq<SubTask>) -> bool {
    forall|i: int|
        0 <= i < subtasks.len() ==> (#[trigger] subtasks[i]).child == TaskChild::Complete(0)
}

/// The message of a task whose command cannot be made.
pub open spec fn launch_failure_text(fault: Seq<char>) -> Seq<char> {
    "ERROR: Failed to launch SubTask process: "@ + fault
}

/// The message of a task of which a process has failed.
pub open spec fn poll_failure_text(task: TaskView) -> Seq<char> {
    "ERROR: Detected failed child proc(s) for "@ + task.taskdef.name@ + " task on file \""@
        + task.taskfile + "\""@
}

/// The message of a task whose result cannot be looked for.
pub open spec fn check_failure_text(config: Config, task: TaskView, fault: Seq<char>) -> Seq<char> {
    "ERROR: Failed to retrieve metadata from taskfile \""@ + below(
        config.output_success_subdir@,
        task.taskfile,
    ) + "\": "@ + fault
}

/// What launching does next.
pub enum LaunchStep {
    /// The subtask at `index` is to be started with `order`. When it runs,
    /// `launched` takes note, and `launch_from(index + 1)` goes on.
    Spawn { task: Task<TaskFiltered>, index: usize, order: LaunchOrder },
    /// Launching is over for now: the task stays for want of budget, moves
    /// on with every subtask started, or has failed.
    Done(TaskResult<Task<TaskFiltered>, Task<TaskRunning>>),
}

/// What launching made of a task, and what is to be done.
pub struct LaunchReport {
    pub step: LaunchStep,
    /// The processes to kill: they ran out of time.
    pub kills: Vec<u32>,
    /// What is to be done where the task failed.
    pub cleanup: Option<TaskCleanup>,
}

/// The result of a task whose processes have all succeeded, on its way to
/// the directory of successes: the filtered task file is to be moved from
/// `from` to `to`.
pub struct Promotion {
    task: Task<TaskRunning>,
    from: String,
    to: String,
}

/// What polling made of a task, and what is to be done.
pub struct PollReport {
    pub result: TaskResult<Task<TaskRunning>, Promotion>,
    /// The processes to kill: they ran out of time.
    pub kills: Vec<u32>,
    /// What is to be done where the task failed.
    pub cleanup: Option<TaskCleanup>,
}

/// What was found of the result of a task in the directory of successes.
#[derive(Debug)]
pub enum FileProbe {
    /// The file is there: the client has not taken it yet.
    Present,
    /// The file is gone: the client is done with it.
    Absent,
    /// The file could not be looked for, for this reason.
    Unknown(String),
}

/// What checking made of a task, and what is to be done.
pub struct CheckReport {
    pub result: TaskResult<Task<TaskComplete>, (String, Times)>,
    /// What is to be done where the task has ended.
    pub cleanup: Option<TaskCleanup>,
}

/// Whether `after` is the task `before` with the subtasks `subtasks` and
/// the times `times`.
pub open spec fn task_with(after: TaskView, before: TaskView, subtasks: Seq<SubTask>, times: Times) -> bool {
    after == (TaskView { subtasks, times, ..before })
}

/// Whether `report` tells what launching the task `before` from the
/// subtask `from` on comes to, where `stop` and `state` are the outcome of
/// the scan, `limit` is the budget afterwards and `table` the object
/// table before.
pub open spec fn launch_reported(
    report: LaunchReport,
    before: TaskView,
    stop: ScanStop,
    state: ScanState,
    times: Times,
    config: Config,
) -> bool {
    &&& report.kills@ == state.kills
    &&& stop is End ==> {
        &&& report.step is Done
        &&& report.step->Done_0 is Transformed
        &&& report.step->Done_0->Transformed_0.wf()
        &&& task_with(report.step->Done_0->Transformed_0@, before, state.subtasks, times)
        &&& report.cleanup is None
    }
    &&& stop is Blocked ==> {
        &&& report.step is Done
        &&& report.step->Done_0 is Unchanged
        &&& report.step->Done_0->Unchanged_0.wf()
        &&& task_with(report.step->Done_0->Unchanged_0@, before, state.subtasks, times)
        &&& report.cleanup is None
    }
    &&& stop is Start ==> exists|stamp: Seq<char>, order: Result<LaunchOrder, String>| #[trigger]
        start_reported(report, before, state, stop->Start_0, times, config, stamp, order)
}

/// Whether `report` tells what comes of starting the subtask at `i`,
/// where `order` is the order for it or the fault of its command: with an
/// order the report asks for the process to be started; with a fault the
/// task has failed and is ended.
pub open spec fn start_reported(
    report: LaunchReport,
    before: TaskView,
    state: ScanState,
    i: int,
    times: Times,
    config: Config,
    stamp: Seq<char>,
    order: Result<LaunchOrder, String>,
) -> bool {
    &&& state.subtasks[i].orders(config, stamp, order)
    &&& match order {
        Ok(wanted) => {
            &&& report.step is Spawn
            &&& report.step->Spawn_task.wf()
            &&& task_with(report.step->Spawn_task@, before, state.subtasks, times)
            &&& report.step->Spawn_index == i
            &&& report.step->Spawn_order == wanted
            &&& report.cleanup is None
        },
        Err(fault) => {
            &&& report.step is Done
            &&& report.step->Done_0 is Failed
            &&& report.step->Done_0->Failed_0@ == launch_failure_text(fault@)
            &&& report.cleanup is Some
            &&& exists|at: Seq<char>| #[trigger]
                cleans_up(
                    TaskView { subtasks: state.subtasks, times, ..before },
                    config,
                    at,
                    report.cleanup->Some_0,
                )
        },
    }
}

proof fn lemma_start_reported(
    report: LaunchReport,
    before: TaskView,
    state: ScanState,
    i: int,
    times: Times,
    config: Config,
    stamp: Seq<char>,
    order: Result<LaunchOrder, String>,
)
    requires
        report.kills@ == state.kills,
        start_reported(report, before, state, i, times, config, stamp, order),
    ensures
        launch_reported(report, before, ScanStop::Start(i), state, times, config),
{
    let stop = ScanStop::Start(i);
    assert(start_reported(report, before, state, stop->Start_0, times, config, stamp, order));
}

proof fn lemma_running_update(subtasks: Seq<SubTask>, i: int, after: SubTask)
    requires
        0 <= i < subtasks.len(),
    ensures
        running_count(subtasks.update(i, after)) + (if subtasks[i].child is Child {
            1int
        } else {
            0int
        }) == running_count(subtasks) + (if after.child is Child {
            1int
        } else {
            0int
        }),
    decreases subtasks.len(),
{
    let changed = subtasks.update(i, after);
    if i == subtasks.len() - 1 {
        assert(changed.drop_last() =~= subtasks.drop_last());
    } else {
        assert(changed.drop_last() =~= subtasks.drop_last().update(i, after));
        lemma_running_update(subtasks.drop_last(), i, after);
        assert(subtasks.drop_last()[i] == subtasks[i]);
    }
}

proof fn lemma_running_bound(subtasks: Seq<SubTask>)
    ensures
        running_count(subtasks) <= subtasks.len(),
        running_count(subtasks) == 0 <==> !any_running(subtasks),
    decreases subtasks.len(),
{
    if subtasks.len() > 0 {
        let front = subtasks.drop_last();
        lemma_running_bound(front);
        if any_running(subtasks) {
            let i = choose|i: int| 0 <= i < subtasks.len() && (#[trigger] subtasks[i]).child is Child;
            if i < front.len() {
                assert(front[i].child is Child);
            }
        }
        if any_running(front) {
            let i = choose|i: int| 0 <= i < front.len() && (#[trigger] front[i]).child is Child;
            assert(subtasks[i].child is Child);
        }
        if subtasks.last().child is Child {
            assert(subtasks[subtasks.len() - 1].child is Child);
        }
    }
}

/// Where the subtasks before `i` have been started and going through the
/// rest for launching reaches the end, every subtask has been started.
pub proof fn law_launch_end_started(
    state: ScanState,
    i: int,
    seen: Seq<ChildObservation>,
    hard_timeout: Duration,
)
    requires
        0 <= i,
        forall|j: int|
            0 <= j < i && j < state.subtasks.len() ==> !((#[trigger] state.subtasks[j]).child
                is NotStarted),
        launch_scan(state, i, seen, hard_timeout).0 is End,
    ensures
        all_started(launch_scan(state, i, seen, hard_timeout).1.subtasks),
    decreases state.subtasks.len() - i,
{
    if i < state.subtasks.len() && state.budget != 0 {
        match state.subtasks[i].child {
            TaskChild::NotStarted => {},
            TaskChild::Complete(_) => {
                law_launch_end_started(state, i + 1, seen, hard_timeout);
            },
            TaskChild::Child(_) => {
                let next = scan_look(state, i, seen[i], hard_timeout);
                assert forall|j: int| 0 <= j < i + 1 && j < next.subtasks.len() implies !((
                #[trigger] next.subtasks[j]).child is NotStarted) by {
                    if j < i {
                        assert(next.subtasks[j] == state.subtasks[j]);
                    }
                }
                law_launch_end_started(next, i + 1, seen, hard_timeout);
            },
        }
    }
}

/// Looking at the processes of subtasks that have all been started
/// leaves them all started.
pub proof fn law_poll_scan_keeps_started(
    state: ScanState,
    i: int,
    seen: Seq<ChildObservation>,
    hard_timeout: Duration,
)
    requires
        0 <= i,
        all_started(state.subtasks),
    ensures
        all_started(poll_scan(state, i, seen, hard_timeout).subtasks),
    decreases state.subtasks.len() - i,
{
    if i < state.subtasks.len() {
        if state.subtasks[i].child is Child {
            let next = scan_look(state, i, seen[i], hard_timeout);
            assert forall|j: int| 0 <= j < next.subtasks.len() implies !((
            #[trigger] next.subtasks[j]).child is NotStarted) by {
                if j != i {
                    assert(next.subtasks[j] == state.subtasks[j]);
                }
            }
            law_poll_scan_keeps_started(next, i + 1, seen, hard_timeout);
        } else {
            law_poll_scan_keeps_started(state, i + 1, seen, hard_timeout);
        }
    }
}

/// A look at a process that runs keeps the sum of the budget and the
/// number of running processes.
pub proof fn lemma_scan_look_conserves(
    state: ScanState,
    i: int,
    seen: ChildObservation,
    hard_timeout: Duration,
)
    requires
        0 <= i < state.subtasks.len(),
        state.subtasks[i].child is Child,
    ensures
        scan_look(state, i, seen, hard_timeout).budget + running_count(
            scan_look(state, i, seen, hard_timeout).subtasks,
        ) == state.budget + running_count(state.subtasks),
        scan_look(state, i, seen, hard_timeout).subtasks.len() == state.subtasks.len(),
{
    lemma_running_update(state.subtasks, i, looked_at(state.subtasks[i], seen, hard_timeout));
}

/// Going through the subtasks for launching keeps the sum of the budget
/// and the number of running processes: a place in the budget comes back
/// exactly when a process is seen to have ended.
pub proof fn law_launch_scan_conserves(
    state: ScanState,
    i: int,
    seen: Seq<ChildObservation>,
    hard_timeout: Duration,
)
    requires
        0 <= i,
    ensures
        launch_scan(state, i, seen, hard_timeout).1.budget + running_count(
            launch_scan(state, i, seen, hard_timeout).1.subtasks,
        ) == state.budget + running_count(state.subtasks),
        launch_scan(state, i, seen, hard_timeout).1.subtasks.len() == state.subtasks.len(),
    decreases state.subtasks.len() - i,
{
    if i < state.subtasks.len() && state.budget != 0 {
        match state.subtasks[i].child {
            TaskChild::NotStarted => {},
            TaskChild::Complete(_) => {
                law_launch_scan_conserves(state, i + 1, seen, hard_timeout);
            },
            TaskChild::Child(_) => {
                lemma_scan_look_conserves(state, i, seen[i], hard_timeout);
                law_launch_scan_conserves(
                    scan_look(state, i, seen[i], hard_timeout),
                    i + 1,
                    seen,
                    hard_timeout,
                );
            },
        }
    }
}

/// Going through the subtasks for polling keeps the sum of the budget and
/// the number of running processes.
pub proof fn law_poll_scan_conserves(
    state: ScanState,
    i: int,
    seen: Seq<ChildObservation>,
    hard_timeout: Duration,
)
    requires
        0 <= i,
    ensures
        poll_scan(state, i, seen, hard_timeout).budget + running_count(
            poll_scan(state, i, seen, hard_timeout).subtasks,
        ) == state.budget + running_count(state.subtasks),
        poll_scan(state, i, seen, hard_timeout).subtasks.len() == state.subtasks.len(),
    decreases state.subtasks.len() - i,
{
    if i < state.subtasks.len() {
        if state.subtasks[i].child is Child {
            lemma_scan_look_conserves(state, i, seen[i], hard_timeout);
            law_poll_scan_conserves(
                scan_look(state, i, seen[i], hard_timeout),
                i + 1,
                seen,
                hard_timeout,
            );
        } else {
            law_poll_scan_conserves(state, i + 1, seen, hard_timeout);
        }
    }
}

impl<S> Task<S> {
    /// Looks at the process of the subtask at `i`, which is running.
    fn look_at(
        &mut self,
        i: usize,
        seen: &ChildObservation,
        hard_timeout: &Duration,
        proc_limit: &mut u32,
        kills: &mut Vec<u32>,
    )
        requires
            old(self).wf(),
            i < old(self)@.subtasks.len(),
            old(self)@.subtasks[i as int].child is Child,
            *old(proc_limit) < u32::MAX,
        ensures
            final(self).wf(),
            ({
                let state = ScanState {
                    subtasks: old(self)@.subtasks,
                    budget: *old(proc_limit) as int,
                    kills: old(kills)@,
                };
                let after = scan_look(state, i as int, *seen, *hard_timeout);
                &&& final(self)@ == (TaskView { subtasks: after.subtasks, ..old(self)@ })
                &&& *final(proc_limit) == after.budget
                &&& final(kills)@ == after.kills
            }),
    {
        let ghost before = self@.subtasks;
        let action = self.itask.subtasks[i].poll(seen, hard_timeout);
        assert(self@.subtasks =~= before.update(i as int, looked_at(before[i as int], *seen, *hard_timeout)));
        match self.itask.subtasks[i].child {
            TaskChild::Complete(_) => {
                *proc_limit = *proc_limit + 1;
            },
            _ => {},
        }
        match action {
            PollAction::Kill(id) => {
                kills.push(id);
            },
            PollAction::Nothing => {},
        }
    }
}

impl Task<TaskFiltered> {
    /// Starts the processes of the task, as far as the budget of
    /// processes allows.
    ///
    /// A task without subtasks moves on at once. Else the subtasks are
    /// gone through from the first: see `launch_from`.
    pub fn launch(
        self,
        proc_limit: &mut u32,
        seen: &Vec<ChildObservation>,
        table: &mut ObjTable,
        config: &Config,
        now: Duration,
    ) -> (report: LaunchReport)
        requires
            self.wf(),
            old(table).wf(),
            seen.len() == self@.subtasks.len(),
            *old(proc_limit) + running_count(self@.subtasks) <= u32::MAX,
        ensures
            final(table).wf(),
            ({
                let start = ScanState {
                    subtasks: self@.subtasks,
                    budget: *old(proc_limit) as int,
                    kills: Seq::empty(),
                };
                let scanned = launch_scan(start, 0, seen@, config.hard_timeout);
                let times = if self@.subtasks.len() == 0 {
                    Times { started: Some(now), ..self@.times }
                } else {
                    self@.times
                };
                &&& launch_reported(report, self@, scanned.0, scanned.1, times, *config)
                &&& *final(proc_limit) == scanned.1.budget
                &&& final(table)@ == if report.cleanup is Some {
                    released(old(table)@, self@.taskdef.name@, self@.timestamp)
                } else {
                    old(table)@
                }
                &&& scanned.0 is End ==> all_started(scanned.1.subtasks)
            }),
    {
        let mut task = self;
        if task.itask.subtasks.len() == 0 {
            task.itask.times.started = Some(now);
        }
        task.launch_from(0, proc_limit, seen, table, config)
    }

    /// Goes on starting the processes of the task from the subtask at
    /// `from`.
    ///
    /// A subtask that has ended is passed. One that runs is looked at, by
    /// what `seen` holds at its position: where its process has ended, its
    /// place in the budget comes back; where it ran out of time, it is to
    /// be killed. The first subtask that has not been started is to be
    /// started, with the order that the report holds; where its command
    /// cannot be made, the task fails and is ended. Where the budget is
    /// used up before the end, the task stays; at the end it moves on.
    pub fn launch_from(
        self,
        from: usize,
        proc_limit: &mut u32,
        seen: &Vec<ChildObservation>,
        table: &mut ObjTable,
        config: &Config,
    ) -> (report: LaunchReport)
        requires
            self.wf(),
            old(table).wf(),
            seen.len() == self@.subtasks.len(),
            *old(proc_limit) + running_count(self@.subtasks) <= u32::MAX,
        ensures
            final(table).wf(),
            ({
                let start = ScanState {
                    subtasks: self@.subtasks,
                    budget: *old(proc_limit) as int,
                    kills: Seq::empty(),
                };
                let scanned = launch_scan(start, from as int, seen@, config.hard_timeout);
                &&& launch_reported(report, self@, scanned.0, scanned.1, self@.times, *config)
                &&& *final(proc_limit) == scanned.1.budget
                &&& final(table)@ == if report.cleanup is Some {
                    released(old(table)@, self@.taskdef.name@, self@.timestamp)
                } else {
                    old(table)@
                }
                &&& scanned.0 is End && (forall|j: int|
                    0 <= j < from && j < self@.subtasks.len() ==> !((
                    #[trigger] self@.subtasks[j]).child is NotStarted)) ==> all_started(
                    scanned.1.subtasks,
                )
            }),
    {
        proof {
            let start = ScanState {
                subtasks: self@.subtasks,
                budget: *old(proc_limit) as int,
                kills: Seq::empty(),
            };
            if launch_scan(start, from as int, seen@, config.hard_timeout).0 is End && (forall|
                j: int,
            |
                0 <= j < from && j < self@.subtasks.len() ==> !((
                #[trigger] self@.subtasks[j]).child is NotStarted)) {
                law_launch_end_started(start, from as int, seen@, config.hard_timeout);
            }
        }
        let ghost before = self@;
        let ghost start = ScanState {
            subtasks: self@.subtasks,
            budget: *proc_limit as int,
            kills: Seq::empty(),
        };
        let mut task = self;
        let mut kills: Vec<u32> = Vec::new();
        let mut i: usize = from;
        while i < task.itask.subtasks.len()
            invariant
                task.wf(),
                table.wf(),
                table@ == old(table)@,
                before == self@,
                start == (ScanState {
                    subtasks: self@.subtasks,
                    budget: *old(proc_limit) as int,
                    kills: Seq::empty(),
                }),
                seen.len() == before.subtasks.len(),
                task@ == (TaskView { subtasks: task@.subtasks, ..before }),
                task@.subtasks.len() == before.subtasks.len(),
                from <= i,
                *proc_limit + running_count(task@.subtasks) <= u32::MAX,
                launch_scan(start, from as int, seen@, config.hard_timeout) == launch_scan(
                    ScanState {
                        subtasks: task@.subtasks,
                        budget: *proc_limit as int,
                        kills: kills@,
                    },
                    i as int,
                    seen@,
                    config.hard_timeout,
                ),
            decreases task.itask.subtasks.len() - i,
        {
            let ghost state = ScanState {
                subtasks: task@.subtasks,
                budget: *proc_limit as int,
                kills: kills@,
            };
            if *proc_limit == 0 {
                return LaunchReport {
                    step: LaunchStep::Done(TaskResult::Unchanged(task)),
                    kills,
                    cleanup: None,
                };
            }
            match task.itask.subtasks[i].child {
                TaskChild::Complete(_) => {},
                TaskChild::Child(_) => {
                    proof {
                        lemma_scan_look_conserves(state, i as int, seen@[i as int], config.hard_timeout);
                        lemma_running_bound(task@.subtasks);
                        assert(task@.subtasks[i as int].child is Child);
                    }
                    task.look_at(i, &seen[i], &config.hard_timeout, proc_limit, &mut kills);
                },
                TaskChild::NotStarted => {
                    let order = task.itask.subtasks[i].launch(config);
                    let ghost stamp = choose|stamp: Seq<char>| #[trigger]
                        task@.subtasks[i as int].orders(*config, stamp, order);
                    match order {
                        Ok(wanted) => {
                            let report = LaunchReport {
                                step: LaunchStep::Spawn { task, index: i, order: wanted },
                                kills,
                                cleanup: None,
                            };
                            assert(start_reported(
                                report,
                                before,
                                state,
                                i as int,
                                before.times,
                                *config,
                                stamp,
                                order,
                            ));
                            proof {
                                lemma_start_reported(
                                    report,
                                    before,
                                    state,
                                    i as int,
                                    before.times,
                                    *config,
                                    stamp,
                                    order,
                                );
                            }
                            return report;
                        },
                        Err(fault) => {
                            let mut out: Vec<char> = Vec::new();
                            push_str(&mut out, "ERROR: Failed to launch SubTask process: ");
                            push_str(&mut out, fault.as_str());
                            let ghost ended = task@;
                            let plan = task.release(table, config);
                            let report = LaunchReport {
                                step: LaunchStep::Done(
                                    TaskResult::Failed(string_from_chars(&out)),
                                ),
                                kills,
                                cleanup: Some(plan),
                            };
                            proof {
                                let at = choose|at: Seq<char>| #[trigger]
                                    cleans_up(ended, *config, at, plan);
                                assert(cleans_up(
                                    TaskView {
                                        subtasks: state.subtasks,
                                        times: before.times,
                                        ..before
                                    },
                                    *config,
                                    at,
                                    report.cleanup->Some_0,
                                ));
                                assert(start_reported(
                                    report,
                                    before,
                                    state,
                                    i as int,
                                    before.times,
                                    *config,
                                    stamp,
                                    order,
                                ));
                                lemma_start_reported(
                                    report,
                                    before,
                                    state,
                                    i as int,
                                    before.times,
                                    *config,
                                    stamp,
                                    order,
                                );
                            }
                            return report;
                        },
                    }
                },
            }
            i += 1;
        }
        LaunchReport {
            step: LaunchStep::Done(
                TaskResult::Transformed(Task { itask: task.itask, status: PhantomData }),
            ),
            kills,
            cleanup: None,
        }
    }

    /// Notes that the process of the subtask at `index` was started, under
    /// the id `child`, at `now` on the runner's clock. The process takes a
    /// place of the budget; and the task counts as started from its first
    /// process on.
    pub fn launched(&mut self, index: usize, child: u32, now: Duration, proc_limit: &mut u32)
        requires
            old(self).wf(),
            index < old(self)@.subtasks.len(),
            old(self)@.subtasks[index as int].child is NotStarted,
            *old(proc_limit) > 0,
        ensures
            final(self).wf(),
            final(self)@ == (TaskView {
                subtasks: old(self)@.subtasks.update(
                    index as int,
                    SubTask {
                        child: TaskChild::Child(child),
                        started: now,
                        ..old(self)@.subtasks[index as int]
                    },
                ),
                times: if old(self)@.times.started is None {
                    Times { started: Some(now), ..old(self)@.times }
                } else {
                    old(self)@.times
                },
                ..old(self)@
            }),
            *final(proc_limit) == *old(proc_limit) - 1,
            *final(proc_limit) + running_count(final(self)@.subtasks) == *old(proc_limit)
                + running_count(old(self)@.subtasks),
    {
        let ghost before = self@.subtasks;
        self.itask.subtasks[index].launched(child, now);
        let ghost after = SubTask {
            child: TaskChild::Child(child),
            started: now,
            ..before[index as int]
        };
        assert(self@.subtasks =~= before.update(index as int, after));
        proof {
            lemma_running_update(before, index as int, after);
        }
        *proc_limit = *proc_limit - 1;
        if self.itask.times.started.is_none() {
            self.itask.times.started = Some(now);
        }
    }
}

impl Promotion {
    /// The task whose result is on its way.
    pub closed spec fn task(&self) -> TaskView {
        self.task@
    }

    /// The task is well formed.
    pub closed spec fn wf(&self) -> bool {
        self.task.wf()
    }

    /// Where the filtered task file is.
    pub closed spec fn source(&self) -> Seq<char> {
        self.from@
    }

    /// Where the filtered task file is to go.
    pub closed spec fn target(&self) -> Seq<char> {
        self.to@
    }

    /// Where the filtered task file is.
    pub fn from(&self) -> (path: &String)
        ensures
            path@ == self.source(),
    {
        &self.from
    }

    /// Where the filtered task file is to go.
    pub fn to(&self) -> (path: &String)
        ensures
            path@ == self.target(),
    {
        &self.to
    }

    /// Notes that the filtered task file was moved to the directory of
    /// successes, at `now` on the runner's clock: the task is complete,
    /// and its task file is to be removed when it ends.
    pub fn confirm(self, now: Duration) -> (task: Task<TaskComplete>)
        requires
            self.wf(),
        ensures
            task.wf(),
            task@ == (TaskView {
                times: Times { completed: Some(now), ..self.task().times },
                cleanup: InnerTaskCleanup::Delete,
                ..self.task()
            }),
    {
        let mut itask = self.task.itask;
        itask.times.completed = Some(now);
        itask.cleanup = InnerTaskCleanup::Delete;
        Task { itask, status: PhantomData }
    }

    /// Gives the task up, after the filtered task file could not be
    /// moved: the task is ended as a failure.
    pub fn abandon(self, table: &mut ObjTable, config: &Config) -> (plan: TaskCleanup)
        requires
            self.wf(),
            old(table).wf(),
        ensures
            final(table).wf(),
            final(table)@ == released(
                old(table)@,
                self.task().taskdef.name@,
                self.task().timestamp,
            ),
            exists|stamp: Seq<char>| #[trigger] cleans_up(self.task(), *config, stamp, plan),
    {
        self.task.release(table, config)
    }
}

/// Whether `report` tells what polling the task `before` comes to, where
/// `state` is the outcome of the scan.
///
/// While a process runs the task stays. When all have ended, the task has
/// failed, and is ended, unless every process has succeeded; then the
/// filtered task file is to be moved to the directory of successes.
pub open spec fn poll_reported(report: PollReport, before: TaskView, state: ScanState, config: Config) -> bool {
    &&& report.kills@ == state.kills
    &&& any_running(state.subtasks) ==> {
        &&& report.result is Unchanged
        &&& report.result->Unchanged_0.wf()
        &&& task_with(report.result->Unchanged_0@, before, state.subtasks, before.times)
        &&& report.cleanup is None
    }
    &&& !any_running(state.subtasks) && !all_succeeded(state.subtasks) ==> {
        &&& report.result is Failed
        &&& report.result->Failed_0@ == poll_failure_text(before)
        &&& report.cleanup is Some
        &&& exists|stamp: Seq<char>| #[trigger]
            cleans_up(
                TaskView { subtasks: state.subtasks, ..before },
                config,
                stamp,
                report.cleanup->Some_0,
            )
    }
    &&& !any_running(state.subtasks) && all_succeeded(state.subtasks) ==> {
        &&& report.result is Transformed
        &&& report.result->Transformed_0.wf()
        &&& task_with(report.result->Transformed_0.task(), before, state.subtasks, before.times)
        &&& exists|stamp: Seq<char>|
            report.result->Transformed_0.source() == #[trigger] task_path(
                before,
                config,
                ElementView::FilteredTaskfile,
                stamp,
            )
        &&& report.result->Transformed_0.target() == below(
            config.output_success_subdir@,
            before.taskfile,
        )
        &&& report.cleanup is None
    }
}

impl<S> Task<S> {
    /// Whether some subtask is running.
    fn has_running(&self) -> (r: bool)
        ensures
            r == any_running(self@.subtasks),
    {
        let mut i: usize = 0;
        while i < self.itask.subtasks.len()
            invariant
                0 <= i <= self.itask.subtasks.len(),
                forall|j: int| 0 <= j < i ==> !((#[trigger] self@.subtasks[j]).child is Child),
            decreases self.itask.subtasks.len() - i,
        {
            match self.itask.subtasks[i].child {
                TaskChild::Child(_) => {
                    assert(self@.subtasks[i as int].child is Child);
                    return true;
                },
                _ => {},
            }
            i += 1;
        }
        false
    }

    /// Whether every subtask has ended with success.
    fn has_all_succeeded(&self) -> (r: bool)
        ensures
            r == all_succeeded(self@.subtasks),
    {
        let mut i: usize = 0;
        while i < self.itask.subtasks.len()
            invariant
                0 <= i <= self.itask.subtasks.len(),
                forall|j: int|
                    0 <= j < i ==> (#[trigger] self@.subtasks[j]).child == TaskChild::Complete(0),
            decreases self.itask.subtasks.len() - i,
        {
            let good: bool = match self.itask.subtasks[i].child {
                TaskChild::Complete(code) => code == 0,
                _ => false,
            };
            if !good {
                assert(self@.subtasks[i as int].child != TaskChild::Complete(0));
                return false;
            }
            i += 1;
        }
        true
    }
}

impl Task<TaskRunning> {
    /// Looks at the processes of the task, by what `seen` holds for each
    /// subtask at its position.
    ///
    /// A process that has ended gives its place in the budget back; one
    /// that ran out of time is to be killed and counts as ended with -1.
    /// Every subtask must have been started.
    pub fn poll(
        self,
        proc_limit: &mut u32,
        seen: &Vec<ChildObservation>,
        table: &mut ObjTable,
        config: &Config,
    ) -> (report: PollReport)
        requires
            self.wf(),
            old(table).wf(),
            seen.len() == self@.subtasks.len(),
            all_started(self@.subtasks),
            *old(proc_limit) + running_count(self@.subtasks) <= u32::MAX,
        ensures
            final(table).wf(),
            ({
                let state = poll_scan(
                    ScanState {
                        subtasks: self@.subtasks,
                        budget: *old(proc_limit) as int,
                        kills: Seq::empty(),
                    },
                    0,
                    seen@,
                    config.hard_timeout,
                );
                &&& poll_reported(report, self@, state, *config)
                &&& all_started(state.subtasks)
                &&& *final(proc_limit) == state.budget
                &&& final(table)@ == if report.cleanup is Some {
                    released(old(table)@, self@.taskdef.name@, self@.timestamp)
                } else {
                    old(table)@
                }
            }),
    {
        let ghost before = self@;
        let ghost start = ScanState {
            subtasks: self@.subtasks,
            budget: *proc_limit as int,
            kills: Seq::empty(),
        };
        proof {
            law_poll_scan_keeps_started(start, 0, seen@, config.hard_timeout);
        }
        let mut task = self;
        let mut kills: Vec<u32> = Vec::new();
        let mut i: usize = 0;
        while i < task.itask.subtasks.len()
            invariant
                task.wf(),
                before == self@,
                start == (ScanState {
                    subtasks: self@.subtasks,
                    budget: *old(proc_limit) as int,
                    kills: Seq::empty(),
                }),
                seen.len() == before.subtasks.len(),
                task@ == (TaskView { subtasks: task@.subtasks, ..before }),
                task@.subtasks.len() == before.subtasks.len(),
                *proc_limit + running_count(task@.subtasks) <= u32::MAX,
                poll_scan(start, 0, seen@, config.hard_timeout) == poll_scan(
                    ScanState {
                        subtasks: task@.subtasks,
                        budget: *proc_limit as int,
                        kills: kills@,
                    },
                    i as int,
                    seen@,
                    config.hard_timeout,
                ),
            decreases task.itask.subtasks.len() - i,
        {
            let ghost state = ScanState {
                subtasks: task@.subtasks,
                budget: *proc_limit as int,
                kills: kills@,
            };
            match task.itask.subtasks[i].child {
                TaskChild::Child(_) => {
                    proof {
                        lemma_scan_look_conserves(
                            state,
                            i as int,
                            seen@[i as int],
                            config.hard_timeout,
                        );
                        lemma_running_bound(task@.subtasks);
                        assert(task@.subtasks[i as int].child is Child);
                    }
                    task.look_at(i, &seen[i], &config.hard_timeout, proc_limit, &mut kills);
                },
                _ => {},
            }
            i += 1;
        }
        let ghost state = ScanState {
            subtasks: task@.subtasks,
            budget: *proc_limit as int,
            kills: kills@,
        };
        if task.has_running() {
            return PollReport { result: TaskResult::Unchanged(task), kills, cleanup: None };
        }
        if !task.has_all_succeeded() {
            let mut out: Vec<char> = Vec::new();
            push_str(&mut out, "ERROR: Detected failed child proc(s) for ");
            push_str(&mut out, task.itask.taskdef.name.as_str());
            push_str(&mut out, " task on file \"");
            push_str(&mut out, task.itask.taskfile.as_str());
            push_str(&mut out, "\"");
            let ghost ended = task@;
            let plan = task.release(table, config);
            let report = PollReport {
                result: TaskResult::Failed(string_from_chars(&out)),
                kills,
                cleanup: Some(plan),
            };
            proof {
                let stamp = choose|stamp: Seq<char>| #[trigger] cleans_up(ended, *config, stamp, plan);
                assert(cleans_up(
                    TaskView { subtasks: state.subtasks, ..before },
                    *config,
                    stamp,
                    report.cleanup->Some_0,
                ));
            }
            return report;
        }
        let stamp = writable_stamp_text(&task.itask.timestamp);
        let from = task.path_of(config, ProcessingPathElement::FilteredTaskfile, stamp.as_str());
        let to = task.success_path(config);
        let report = PollReport {
            result: TaskResult::Transformed(Promotion { task, from, to }),
            kills,
            cleanup: None,
        };
        assert(report.result->Transformed_0.source() == task_path(
            before,
            *config,
            ElementView::FilteredTaskfile,
            stamp@,
        ));
        report
    }
}

/// Whether `report` tells what checking the task `before` comes to.
///
/// While the result is there, the task stays. When it is gone, the task
/// has ended: its kind and its times are handed out. Where the result
/// cannot be looked for, the task has failed. Either way a task that ends
/// lets go of what it holds in the object table.
pub open spec fn check_reported(
    report: CheckReport,
    before: TaskView,
    probe: FileProbe,
    config: Config,
    now: Duration,
) -> bool {
    match probe {
        FileProbe::Present => {
            &&& report.result is Unchanged
            &&& report.result->Unchanged_0.wf()
            &&& report.result->Unchanged_0@ == before
            &&& report.cleanup is None
        },
        FileProbe::Absent => {
            &&& report.result is Transformed
            &&& report.result->Transformed_0.0@ == before.taskdef.name@
            &&& report.result->Transformed_0.1 == (Times { cleaned: Some(now), ..before.times })
            &&& report.cleanup is Some
            &&& exists|stamp: Seq<char>| #[trigger]
                cleans_up(
                    TaskView { times: Times { cleaned: Some(now), ..before.times }, ..before },
                    config,
                    stamp,
                    report.cleanup->Some_0,
                )
        },
        FileProbe::Unknown(fault) => {
            &&& report.result is Failed
            &&& report.result->Failed_0@ == check_failure_text(config, before, fault@)
            &&& report.cleanup is Some
            &&& exists|stamp: Seq<char>| #[trigger]
                cleans_up(before, config, stamp, report.cleanup->Some_0)
        },
    }
}

impl Task<TaskComplete> {
    /// Looks whether the client has taken the result of the task, by what
    /// `probe` found in the directory of successes.
    ///
    /// A task that ends here, with or without failure, holds nothing in
    /// the object table afterwards.
    pub fn check(self, probe: FileProbe, table: &mut ObjTable, config: &Config, now: Duration) -> (report:
        CheckReport)
        requires
            self.wf(),
            old(table).wf(),
        ensures
            final(table).wf(),
            check_reported(report, self@, probe, *config, now),
            final(table)@ == if probe is Present {
                old(table)@
            } else {
                released(old(table)@, self@.taskdef.name@, self@.timestamp)
            },
            !(probe is Present) ==> forall|object: ObjectKey|
                !holds(final(table)@, object, self@.taskdef.name@, self@.timestamp),
    {
        let ghost before = self@;
        let ghost held = table@;
        let mut task = self;
        match probe {
            FileProbe::Present => CheckReport { result: TaskResult::Unchanged(task), cleanup: None },
            FileProbe::Absent => {
                task.itask.times.cleaned = Some(now);
                let name = owned(task.itask.taskdef.name.as_str());
                let times = task.itask.times;
                let ghost ended = task@;
                let plan = task.release(table, config);
                let report = CheckReport {
                    result: TaskResult::Transformed((name, times)),
                    cleanup: Some(plan),
                };
                proof {
                    let stamp = choose|stamp: Seq<char>| #[trigger]
                        cleans_up(ended, *config, stamp, plan);
                    assert(cleans_up(
                        TaskView { times: Times { cleaned: Some(now), ..before.times }, ..before },
                        *config,
                        stamp,
                        report.cleanup->Some_0,
                    ));
                    assert forall|object: ObjectKey|
                        !holds(table@, object, before.taskdef.name@, before.timestamp) by {
                        law_released_holds_nothing(
                            held,
                            object,
                            before.taskdef.name@,
                            before.timestamp,
                        );
                    }
                }
                report
            },
            FileProbe::Unknown(fault) => {
                let mut out: Vec<char> = Vec::new();
                push_str(&mut out, "ERROR: Failed to retrieve metadata from taskfile \"");
                let path = task.success_path(config);
                push_str(&mut out, path.as_str());
                push_str(&mut out, "\": ");
                push_str(&mut out, fault.as_str());
                let plan = task.release(table, config);
                let report = CheckReport {
                    result: TaskResult::Failed(string_from_chars(&out)),
                    cleanup: Some(plan),
                };
                proof {
                    let stamp = choose|stamp: Seq<char>| #[trigger]
                        cleans_up(before, *config, stamp, plan);
                    assert(cleans_up(before, *config, stamp, report.cleanup->Some_0));
                    assert forall|object: ObjectKey|
                        !holds(table@, object, before.taskdef.name@, before.timestamp) by {
                        law_released_holds_nothing(
                            held,
                            object,
                            before.taskdef.name@,
                            before.timestamp,
                        );
                    }
                }
                report
            },
        }
    }
}

} // verus!
