//! The runner: the tasks in each stage, the state of the whole, and the
//! time that each kind of work takes.
//!
//! The runner holds the tasks between the steps. For each pass it hands
//! out the tasks of a stage, and takes back what the step made of each.
use crate::config::Config;
use crate::format::Duration;
use crate::processing::{path_text, ElementView, PathView, ProcessingPath, ProcessingPathElement};
use crate::task::run::all_started;
use crate::task::{Task, TaskComplete, TaskFiltered, TaskGrabbed, TaskResult, TaskRunning, Times};
use vstd::prelude::*;

verus! {

/// The most tasks that the runner follows at one time.
pub const TASKCOUNT: usize = 4096;

/// The state of the runner, and since when, on the runner's clock.
#[derive(Clone, Copy, Debug, PartialEq, Eq, Structural)]
pub enum RunnerStatus {
    /// No task since this time.
    Idle(Duration),
    /// Some tasks since this time.
    Working(Duration),
    /// As many processes as allowed since this time.
    Busy(Duration),
    /// As many tasks as allowed since this time.
    Overloaded(Duration),
}

/// The longest, the shortest and the average time of a kind of work.
#[derive(Clone, Copy, Debug, PartialEq, Eq, Structural)]
pub struct OpTimes {
    pub longest: Duration,
    pub shortest: Duration,
    pub average: Duration,
}

/// The times of the tasks of one kind: from detection to start, from
/// start to completion, and from completion to the client's end.
#[derive(Clone, Copy, Debug, PartialEq, Eq, Structural)]
pub struct TaskTimes {
    pub waiting: OpTimes,
    pub running: OpTimes,
    pub resting: OpTimes,
}

/// The times of one kind of task, with the kind's name and the number of
/// tasks counted.
#[derive(Debug)]
pub struct KindTimes {
    pub name: String,
    pub count: u32,
    pub times: TaskTimes,
}

/// What the runner has measured since the last report.
#[derive(Debug)]
pub struct RunnerTimes {
    pub scan: (u32, OpTimes),
    pub filter: (u32, OpTimes),
    pub launch: (u32, OpTimes),
    pub poll: (u32, OpTimes),
    pub check: (u32, OpTimes),
    pub tasks: Vec<KindTimes>,
}

/// `count` and one more, as far as the count goes.
pub open spec fn counted(count: u32) -> u32 {
    if count == u32::MAX {
        count
    } else {
        (count + 1) as u32
    }
}

/// The average of `counted(count)` times, where `average` is that of the
/// `count` times before `duration`. Sums beyond the longest span count as
/// the longest span.
pub open spec fn averaged(average: Duration, count: u32, duration: Duration) -> Duration {
    let n = counted(count);
    Duration::of_nanos(
        Duration::of_nanos(
            Duration::of_nanos(average.total_nanos() * ((n - 1) as nat)).total_nanos()
                + duration.total_nanos(),
        ).total_nanos() / (n as nat),
    )
}

/// The times of a kind of work after one more piece of work that took
/// `duration`, where `count` pieces were counted before. A shortest time
/// of zero stands for none.
pub open spec fn op_updated(times: OpTimes, count: u32, duration: Duration) -> OpTimes {
    OpTimes {
        longest: if duration.total_nanos() > times.longest.total_nanos() {
            duration
        } else {
            times.longest
        },
        shortest: if times.shortest.total_nanos() == 0 || duration.total_nanos()
            < times.shortest.total_nanos() {
            duration
        } else {
            times.shortest
        },
        average: averaged(times.average, count, duration),
    }
}

impl OpTimes {
    /// No time measured yet.
    pub open spec fn zero() -> OpTimes {
        OpTimes {
            longest: Duration { secs: 0, nanos: 0 },
            shortest: Duration { secs: 0, nanos: 0 },
            average: Duration { secs: 0, nanos: 0 },
        }
    }

    /// No time measured yet.
    pub fn new() -> (times: OpTimes)
        ensures
            times == OpTimes::zero(),
    {
        OpTimes {
            longest: Duration::from_secs(0),
            shortest: Duration::from_secs(0),
            average: Duration::from_secs(0),
        }
    }

    /// Counts one more piece of work, which took `op_duration`.
    pub fn update(&mut self, op_count: &mut u32, op_duration: Duration)
        ensures
            *final(op_count) == counted(*old(op_count)),
            *final(self) == op_updated(*old(self), *old(op_count), op_duration),
    {
        if *op_count < u32::MAX {
            *op_count = *op_count + 1;
        }
        if self.longest.shorter_than(&op_duration) {
            self.longest = op_duration;
        }
        if self.shortest.is_zero() || op_duration.shorter_than(&self.shortest) {
            self.shortest = op_duration;
        }
        self.average = self.average.saturating_mul(*op_count - 1).saturating_add(&op_duration).div(
            *op_count,
        );
    }
}

impl TaskTimes {
    /// No time measured yet.
    pub open spec fn zero() -> TaskTimes {
        TaskTimes { waiting: OpTimes::zero(), running: OpTimes::zero(), resting: OpTimes::zero() }
    }

    /// No time measured yet.
    pub fn new() -> (times: TaskTimes)
        ensures
            times == TaskTimes::zero(),
    {
        TaskTimes { waiting: OpTimes::new(), running: OpTimes::new(), resting: OpTimes::new() }
    }
}

/// The span from `earlier` to `later`, zero where they are the other way
/// round.
pub open spec fn span(later: Duration, earlier: Duration) -> Duration {
    Duration::of_nanos(
        if later.total_nanos() >= earlier.total_nanos() {
            (later.total_nanos() - earlier.total_nanos()) as nat
        } else {
            0
        },
    )
}

/// The times of a kind after one more task with the times `times`, where
/// `count` tasks were counted before.
pub open spec fn task_recorded(kind: TaskTimes, count: u32, times: Times) -> TaskTimes {
    TaskTimes {
        waiting: op_updated(kind.waiting, count, span(times.started->Some_0, times.detected->Some_0)),
        running: op_updated(
            kind.running,
            count,
            span(times.completed->Some_0, times.started->Some_0),
        ),
        resting: op_updated(
            kind.resting,
            count,
            span(times.cleaned->Some_0, times.completed->Some_0),
        ),
    }
}

/// The position of the first kind of the name `name`, or the number of
/// kinds where there is none.
pub open spec fn kind_at(kinds: Seq<KindTimes>, name: Seq<char>) -> int
    decreases kinds.len(),
{
    if kinds.len() == 0 {
        0
    } else if kinds[0].name@ == name {
        0
    } else {
        1 + kind_at(kinds.drop_first(), name)
    }
}

/// Whether the times of a task are those of a task that has gone all the
/// way.
pub open spec fn times_complete(times: Times) -> bool {
    times.detected is Some && times.started is Some && times.completed is Some && times.cleaned
        is Some
}

impl RunnerTimes {
    /// Nothing measured yet.
    pub fn new() -> (times: RunnerTimes)
        ensures
            times.scan == (0u32, OpTimes::zero()),
            times.filter == (0u32, OpTimes::zero()),
            times.launch == (0u32, OpTimes::zero()),
            times.poll == (0u32, OpTimes::zero()),
            times.check == (0u32, OpTimes::zero()),
            times.tasks@.len() == 0,
    {
        RunnerTimes {
            scan: (0, OpTimes::new()),
            filter: (0, OpTimes::new()),
            launch: (0, OpTimes::new()),
            poll: (0, OpTimes::new()),
            check: (0, OpTimes::new()),
            tasks: Vec::new(),
        }
    }

    /// Counts a task of the kind `task_name` that has gone all the way,
    /// with the times `newtimes`: among the first kind of that name, or as
    /// the first of a new kind at the end.
    pub fn record_task(&mut self, task_name: String, newtimes: &Times)
        requires
            times_complete(*newtimes),
        ensures
            final(self).scan == old(self).scan,
            final(self).filter == old(self).filter,
            final(self).launch == old(self).launch,
            final(self).poll == old(self).poll,
            final(self).check == old(self).check,
            ({
                let at = kind_at(old(self).tasks@, task_name@);
                let before = if at < old(self).tasks@.len() {
                    old(self).tasks@[at]
                } else {
                    KindTimes { name: task_name, count: 0, times: TaskTimes::zero() }
                };
                &&& final(self).tasks@.len() == if at < old(self).tasks@.len() {
                    old(self).tasks@.len()
                } else {
                    old(self).tasks@.len() + 1
                }
                &&& forall|j: int|
                    0 <= j < old(self).tasks@.len() && j != at ==> final(self).tasks@[j] == old(
                        self,
                    ).tasks@[j]
                &&& final(self).tasks@[at].name@ == task_name@
                &&& final(self).tasks@[at].count == counted(before.count)
                &&& final(self).tasks@[at].times == task_recorded(
                    before.times,
                    before.count,
                    *newtimes,
                )
            }),
    {
        let at = find_kind_times(&self.tasks, &task_name);
        if at == self.tasks.len() {
            self.tasks.push(KindTimes { name: task_name, count: 0, times: TaskTimes::new() });
        }
        let count: u32 = self.tasks[at].count;
        let (times, counted) = record_times(self.tasks[at].times, count, newtimes);
        self.tasks[at].times = times;
        self.tasks[at].count = counted;
    }
}

/// The position of the first kind of the name `name`.
fn find_kind_times(kinds: &Vec<KindTimes>, name: &String) -> (at: usize)
    ensures
        at == kind_at(kinds@, name@),
        at <= kinds.len(),
        at < kinds.len() ==> kinds@[at as int].name@ == name@,
{
    let ghost all = kinds@;
    let mut at: usize = 0;
    assert(all.skip(0) =~= all);
    while at < kinds.len()
        invariant
            0 <= at <= kinds.len(),
            all == kinds@,
            kind_at(all, name@) == at + kind_at(all.skip(at as int), name@),
        decreases kinds.len() - at,
    {
        let ghost rest = all.skip(at as int);
        assert(rest[0] == all[at as int]);
        assert(rest.drop_first() =~= all.skip(at + 1));
        if kinds[at].name == *name {
            return at;
        }
        at += 1;
    }
    assert(all.skip(all.len() as int) =~= Seq::<KindTimes>::empty());
    at
}

/// The times and the count of a kind after one more task.
fn record_times(kind: TaskTimes, count: u32, newtimes: &Times) -> (r: (TaskTimes, u32))
    requires
        times_complete(*newtimes),
    ensures
        r.0 == task_recorded(kind, count, *newtimes),
        r.1 == counted(count),
{
    let waited = newtimes.started.unwrap().since(&newtimes.detected.unwrap());
    let ran = newtimes.completed.unwrap().since(&newtimes.started.unwrap());
    let rested = newtimes.cleaned.unwrap().since(&newtimes.completed.unwrap());
    let mut times = kind;
    let mut first: u32 = count;
    times.waiting.update(&mut first, waited);
    let mut second: u32 = count;
    times.running.update(&mut second, ran);
    let mut third: u32 = count;
    times.resting.update(&mut third, rested);
    (times, third)
}

/// The tasks of the runner, stage by stage.
pub struct Pools {
    pub new_tasks: Seq<Task<TaskGrabbed>>,
    pub filtered_tasks: Seq<Task<TaskFiltered>>,
    pub running_tasks: Seq<Task<TaskRunning>>,
    pub resting_tasks: Seq<Task<TaskComplete>>,
}

/// The number of tasks in all stages.
pub open spec fn task_count(pools: Pools) -> nat {
    pools.new_tasks.len() + pools.filtered_tasks.len() + pools.running_tasks.len()
        + pools.resting_tasks.len()
}

/// Whether every task is well formed, each as its stage asks: a task that
/// runs has all its processes started.
pub open spec fn pools_wf(pools: Pools) -> bool {
    &&& forall|i: int| 0 <= i < pools.new_tasks.len() ==> (#[trigger] pools.new_tasks[i]).wf()
    &&& forall|i: int|
        0 <= i < pools.filtered_tasks.len() ==> (#[trigger] pools.filtered_tasks[i]).wf()
    &&& forall|i: int|
        0 <= i < pools.running_tasks.len() ==> (#[trigger] pools.running_tasks[i]).wf()
            && all_started(pools.running_tasks[i]@.subtasks)
    &&& forall|i: int|
        0 <= i < pools.resting_tasks.len() ==> (#[trigger] pools.resting_tasks[i]).wf()
}

/// The state after new tasks were found, the first of them detected at
/// `detected`: an idle runner has work; and a runner that has no room
/// left is overloaded.
pub open spec fn status_after_scan(status: RunnerStatus, detected: Duration, room: bool) -> RunnerStatus {
    let working = if status is Idle {
        RunnerStatus::Working(detected)
    } else {
        status
    };
    if !room && !(working is Overloaded) {
        RunnerStatus::Overloaded(detected)
    } else {
        working
    }
}

/// The state after a pass of launching that left the budget `budget`: a
/// runner with no budget left is busy, unless it is busy or overloaded
/// already.
pub open spec fn status_after_launch(status: RunnerStatus, budget: u32, now: Duration) -> RunnerStatus {
    if budget != 0 {
        status
    } else {
        match status {
            RunnerStatus::Idle(_) => RunnerStatus::Busy(now),
            RunnerStatus::Working(_) => RunnerStatus::Busy(now),
            _ => status,
        }
    }
}

/// The state after a task came to its end at `at`: a runner without
/// tasks (`empty`) is idle; else a runner that was busy or overloaded is
/// working again.
pub open spec fn status_after_end(status: RunnerStatus, empty: bool, at: Duration) -> RunnerStatus {
    if empty && !(status is Idle) {
        RunnerStatus::Idle(at)
    } else if status is Busy || status is Overloaded {
        RunnerStatus::Working(at)
    } else {
        status
    }
}

/// Finds tasks, starts their processes, follows them, and notes when the
/// client is done with each.
pub struct Runner {
    started: Duration,
    status: RunnerStatus,
    times: RunnerTimes,
    new_tasks: Vec<Task<TaskGrabbed>>,
    filtered_tasks: Vec<Task<TaskFiltered>>,
    running_tasks: Vec<Task<TaskRunning>>,
    resting_tasks: Vec<Task<TaskComplete>>,
    cleaned: Option<Duration>,
}

impl Runner {
    /// The tasks of the runner.
    pub closed spec fn pools(&self) -> Pools {
        Pools {
            new_tasks: self.new_tasks@,
            filtered_tasks: self.filtered_tasks@,
            running_tasks: self.running_tasks@,
            resting_tasks: self.resting_tasks@,
        }
    }

    /// The state of the runner.
    pub closed spec fn status(&self) -> RunnerStatus {
        self.status
    }

    /// What the runner has measured since the last report.
    pub closed spec fn times(&self) -> RunnerTimes {
        self.times
    }

    /// When the last task of this pass of checking came to its end.
    pub closed spec fn last_cleaned(&self) -> Option<Duration> {
        self.cleaned
    }

    /// When the runner was made.
    pub closed spec fn since(&self) -> Duration {
        self.started
    }

    /// The runner follows no more tasks than it may, and every task
    /// is well formed.
    pub open spec fn wf(&self) -> bool {
        &&& task_count(self.pools()) <= TASKCOUNT
        &&& pools_wf(self.pools())
    }

    /// A runner without tasks, idle since `now`.
    pub fn new(now: Duration) -> (runner: Runner)
        ensures
            runner.wf(),
            task_count(runner.pools()) == 0,
            runner.status() == RunnerStatus::Idle(now),
            runner.since() == now,
            runner.last_cleaned() is None,
    {
        Runner {
            started: now,
            status: RunnerStatus::Idle(now),
            times: RunnerTimes::new(),
            new_tasks: Vec::new(),
            filtered_tasks: Vec::new(),
            running_tasks: Vec::new(),
            resting_tasks: Vec::new(),
            cleaned: None,
        }
    }

    /// The directory of the process `pid` in the staging area, which the
    /// runner works below.
    pub fn process_dir(config: &Config, pid: u32) -> (path: String)
        ensures
            path@ == path_text(
                config.processing_subdir@,
                config.host@,
                PathView {
                    process: Some(pid),
                    timestamp: None,
                    element: ElementView::IntermediateDir,
                },
                Seq::empty(),
            ),
    {
        let place = ProcessingPath::new(Some(pid), None, ProcessingPathElement::IntermediateDir);
        let path = place.to_path_with(config.processing_subdir.as_str(), config.host.as_str(), "");
        proof {
            reveal_strlit("");
            assert(""@ =~= Seq::<char>::empty());
        }
        path
    }

    /// The directory of this host in the staging area.
    pub fn host_dir(config: &Config) -> (path: String)
        ensures
            path@ == path_text(
                config.processing_subdir@,
                config.host@,
                PathView { process: None, timestamp: None, element: ElementView::IntermediateDir },
                Seq::empty(),
            ),
    {
        let place = ProcessingPath::new(None, None, ProcessingPathElement::IntermediateDir);
        let path = place.to_path_with(config.processing_subdir.as_str(), config.host.as_str(), "");
        proof {
            reveal_strlit("");
            assert(""@ =~= Seq::<char>::empty());
        }
        path
    }

    /// When the runner was made.
    pub fn started(&self) -> (at: Duration)
        ensures
            at == self.since(),
    {
        self.started
    }

    /// How many tasks there are in each stage: new, filtered, running and
    /// resting.
    pub fn counts(&self) -> (n: (usize, usize, usize, usize))
        ensures
            n.0 == self.pools().new_tasks.len(),
            n.1 == self.pools().filtered_tasks.len(),
            n.2 == self.pools().running_tasks.len(),
            n.3 == self.pools().resting_tasks.len(),
    {
        (
            self.new_tasks.len(),
            self.filtered_tasks.len(),
            self.running_tasks.len(),
            self.resting_tasks.len(),
        )
    }

    /// The state of the runner.
    pub fn current_status(&self) -> (status: RunnerStatus)
        ensures
            status == self.status(),
    {
        self.status
    }

    /// Hands out what was measured since the last report, and starts
    /// measuring anew.
    pub fn report(&mut self) -> (times: RunnerTimes)
        ensures
            times == old(self).times(),
            final(self).pools() == old(self).pools(),
            final(self).status() == old(self).status(),
            final(self).last_cleaned() == old(self).last_cleaned(),
            final(self).since() == old(self).since(),
            final(self).times().scan == (0u32, OpTimes::zero()),
            final(self).times().filter == (0u32, OpTimes::zero()),
            final(self).times().launch == (0u32, OpTimes::zero()),
            final(self).times().poll == (0u32, OpTimes::zero()),
            final(self).times().check == (0u32, OpTimes::zero()),
            final(self).times().tasks@.len() == 0,
    {
        let mut times = RunnerTimes::new();
        std::mem::swap(&mut self.times, &mut times);
        times
    }

    /// Whether the runner follows as many tasks as it may.
    pub fn is_overloaded(&self) -> (r: bool)
        ensures
            r == (self.status() is Overloaded),
    {
        match self.status {
            RunnerStatus::Overloaded(_) => true,
            _ => false,
        }
    }

    /// Whether the runner has any task, in whatever stage.
    pub fn has_active_tasks(&self) -> (r: bool)
        ensures
            r == (task_count(self.pools()) > 0),
    {
        self.new_tasks.len() > 0 || self.filtered_tasks.len() > 0 || self.running_tasks.len() > 0
            || self.resting_tasks.len() > 0
    }

    /// How many more tasks the runner may follow.
    pub fn capacity(&self) -> (room: usize)
        requires
            self.wf(),
        ensures
            room == TASKCOUNT - task_count(self.pools()),
    {
        TASKCOUNT - (self.new_tasks.len() + self.filtered_tasks.len() + self.running_tasks.len()
            + self.resting_tasks.len())
    }

    /// Takes the tasks that a scan of the input directory found, and
    /// counts the scan, which took `elapsed`. Says whether any was found.
    ///
    /// The runner must have room for all of them.
    pub fn scan_for_inputs(&mut self, found: Vec<Task<TaskGrabbed>>, elapsed: Duration) -> (any: bool)
        requires
            old(self).wf(),
            task_count(old(self).pools()) + found@.len() <= TASKCOUNT,
            forall|i: int|
                0 <= i < found@.len() ==> (#[trigger] found@[i]).wf() && found@[i]@.times.detected
                    is Some,
        ensures
            final(self).wf(),
            any == (found@.len() > 0),
            final(self).pools() == (Pools {
                new_tasks: old(self).pools().new_tasks + found@,
                ..old(self).pools()
            }),
            final(self).status() == if found@.len() == 0 {
                old(self).status()
            } else {
                status_after_scan(
                    status_after_scan(
                        old(self).status(),
                        found@[0]@.times.detected->Some_0,
                        true,
                    ),
                    found@.last()@.times.detected->Some_0,
                    task_count(final(self).pools()) < TASKCOUNT,
                )
            },
            final(self).times().scan.0 == counted(old(self).times().scan.0),
            final(self).times().scan.1 == op_updated(
                old(self).times().scan.1,
                old(self).times().scan.0,
                elapsed,
            ),
            final(self).last_cleaned() == old(self).last_cleaned(),
    {
        let any = found.len() > 0;
        let ghost all = found@;
        let ghost before = self.new_tasks@;
        let mut count: u32 = self.times.scan.0;
        let mut scan = self.times.scan.1;
        scan.update(&mut count, elapsed);
        self.times.scan = (count, scan);
        assert(before + all.take(0) =~= before);
        for task in it: found
            invariant
                it.seq() == all,
                self.new_tasks@ == before + all.take(it.index() as int),
                self.filtered_tasks@ == old(self).filtered_tasks@,
                self.running_tasks@ == old(self).running_tasks@,
                self.resting_tasks@ == old(self).resting_tasks@,
                self.cleaned == old(self).cleaned,
                self.started == old(self).started,
                self.times.scan == (count, scan),
                before == old(self).new_tasks@,
                old(self).wf(),
                task_count(old(self).pools()) + all.len() <= TASKCOUNT,
                forall|i: int|
                    0 <= i < all.len() ==> (#[trigger] all[i]).wf() && all[i]@.times.detected
                        is Some,
                self.status == if it.index() == 0 {
                    old(self).status
                } else {
                    status_after_scan(
                        status_after_scan(old(self).status, all[0]@.times.detected->Some_0, true),
                        all[it.index() - 1]@.times.detected->Some_0,
                        task_count(old(self).pools()) + it.index() < TASKCOUNT,
                    )
                },
        {
            let ghost at = it.index() as int;
            let detected = task.times().detected.unwrap();
            let room: bool = self.new_tasks.len() + self.filtered_tasks.len()
                + self.running_tasks.len() + self.resting_tasks.len() + 1 < TASKCOUNT;
            match self.status {
                RunnerStatus::Idle(_) => {
                    self.status = RunnerStatus::Working(detected);
                },
                _ => {},
            }
            if !room {
                match self.status {
                    RunnerStatus::Overloaded(_) => {},
                    _ => {
                        self.status = RunnerStatus::Overloaded(detected);
                    },
                }
            }
            self.new_tasks.push(task);
            assert(before + all.take(at + 1) =~= (before + all.take(at)).push(all[at]));
        }
        assert(all.take(all.len() as int) =~= all);
        proof {
            assert forall|i: int| 0 <= i < self.new_tasks@.len() implies (
            #[trigger] self.new_tasks@[i]).wf() by {
                if i < before.len() {
                    assert(old(self).pools().new_tasks[i].wf());
                } else {
                    assert(all[i - before.len()].wf());
                }
            }
        }
        any
    }

    fn settle_status(&mut self, empty: bool, at: Duration)
        ensures
            final(self).status() == status_after_end(old(self).status(), empty, at),
            final(self).pools() == old(self).pools(),
            final(self).times() == old(self).times(),
            final(self).last_cleaned() == old(self).last_cleaned(),
            final(self).since() == old(self).since(),
    {
        let idle: bool = match self.status {
            RunnerStatus::Idle(_) => true,
            _ => false,
        };
        if empty && !idle {
            self.status = RunnerStatus::Idle(at);
        } else {
            match self.status {
                RunnerStatus::Busy(_) => {
                    self.status = RunnerStatus::Working(at);
                },
                RunnerStatus::Overloaded(_) => {
                    self.status = RunnerStatus::Working(at);
                },
                _ => {},
            }
        }
    }

    /// Hands out the new tasks, to be filtered.
    pub fn filter_tasks(&mut self) -> (tasks: Vec<Task<TaskGrabbed>>)
        requires
            old(self).wf(),
        ensures
            final(self).wf(),
            tasks@ == old(self).pools().new_tasks,
            forall|i: int| 0 <= i < tasks@.len() ==> (#[trigger] tasks@[i]).wf(),
            final(self).pools() == (Pools { new_tasks: Seq::empty(), ..old(self).pools() }),
            final(self).status() == old(self).status(),
            final(self).times() == old(self).times(),
            final(self).last_cleaned() == old(self).last_cleaned(),
    {
        let mut tasks: Vec<Task<TaskGrabbed>> = Vec::new();
        std::mem::swap(&mut self.new_tasks, &mut tasks);
        assert(self.new_tasks@ =~= Seq::<Task<TaskGrabbed>>::empty());
        assert forall|i: int| 0 <= i < tasks@.len() implies (#[trigger] tasks@[i]).wf() by {
            assert(old(self).pools().new_tasks[i].wf());
        }
        tasks
    }

    /// Takes back what filtering made of a task, and counts the
    /// filtering, which took `elapsed`: a task that has to wait is new
    /// again, a task whose lines are read is filtered, and a task that
    /// failed is gone.
    pub fn filtered(&mut self, result: TaskResult<Task<TaskGrabbed>, Task<TaskFiltered>>, elapsed: Duration)
        requires
            old(self).wf(),
            task_count(old(self).pools()) < TASKCOUNT,
            result matches TaskResult::Unchanged(task) ==> task.wf(),
            result matches TaskResult::Transformed(task) ==> task.wf(),
        ensures
            final(self).wf(),
            final(self).pools() == match result {
                TaskResult::Unchanged(task) => Pools {
                    new_tasks: old(self).pools().new_tasks.push(task),
                    ..old(self).pools()
                },
                TaskResult::Transformed(task) => Pools {
                    filtered_tasks: old(self).pools().filtered_tasks.push(task),
                    ..old(self).pools()
                },
                TaskResult::Failed(_) => old(self).pools(),
            },
            final(self).status() == old(self).status(),
            final(self).times().filter.0 == counted(old(self).times().filter.0),
            final(self).times().filter.1 == op_updated(
                old(self).times().filter.1,
                old(self).times().filter.0,
                elapsed,
            ),
            final(self).last_cleaned() == old(self).last_cleaned(),
    {
        let mut count: u32 = self.times.filter.0;
        let mut times = self.times.filter.1;
        times.update(&mut count, elapsed);
        self.times.filter = (count, times);
        match result {
            TaskResult::Unchanged(task) => {
                self.new_tasks.push(task);
            },
            TaskResult::Transformed(task) => {
                self.filtered_tasks.push(task);
            },
            TaskResult::Failed(_) => {},
        }
    }

    /// Hands out the filtered tasks, to be launched.
    pub fn launch_tasks(&mut self) -> (tasks: Vec<Task<TaskFiltered>>)
        requires
            old(self).wf(),
        ensures
            final(self).wf(),
            tasks@ == old(self).pools().filtered_tasks,
            forall|i: int| 0 <= i < tasks@.len() ==> (#[trigger] tasks@[i]).wf(),
            final(self).pools() == (Pools { filtered_tasks: Seq::empty(), ..old(self).pools() }),
            final(self).status() == old(self).status(),
            final(self).times() == old(self).times(),
            final(self).last_cleaned() == old(self).last_cleaned(),
    {
        let mut tasks: Vec<Task<TaskFiltered>> = Vec::new();
        std::mem::swap(&mut self.filtered_tasks, &mut tasks);
        assert(self.filtered_tasks@ =~= Seq::<Task<TaskFiltered>>::empty());
        assert forall|i: int| 0 <= i < tasks@.len() implies (#[trigger] tasks@[i]).wf() by {
            assert(old(self).pools().filtered_tasks[i].wf());
        }
        tasks
    }

    /// Takes back what launching made of a task, and counts the
    /// launching, which took `elapsed`: a task that waits for budget is
    /// filtered still, a task whose processes are all started is running,
    /// and a task that failed is gone.
    pub fn launched(&mut self, result: TaskResult<Task<TaskFiltered>, Task<TaskRunning>>, elapsed: Duration)
        requires
            old(self).wf(),
            task_count(old(self).pools()) < TASKCOUNT,
            result matches TaskResult::Unchanged(task) ==> task.wf(),
            result matches TaskResult::Transformed(task) ==> task.wf() && all_started(
                task@.subtasks,
            ),
        ensures
            final(self).wf(),
            final(self).pools() == match result {
                TaskResult::Unchanged(task) => Pools {
                    filtered_tasks: old(self).pools().filtered_tasks.push(task),
                    ..old(self).pools()
                },
                TaskResult::Transformed(task) => Pools {
                    running_tasks: old(self).pools().running_tasks.push(task),
                    ..old(self).pools()
                },
                TaskResult::Failed(_) => old(self).pools(),
            },
            final(self).status() == old(self).status(),
            final(self).times().launch.0 == counted(old(self).times().launch.0),
            final(self).times().launch.1 == op_updated(
                old(self).times().launch.1,
                old(self).times().launch.0,
                elapsed,
            ),
            final(self).last_cleaned() == old(self).last_cleaned(),
    {
        let mut count: u32 = self.times.launch.0;
        let mut times = self.times.launch.1;
        times.update(&mut count, elapsed);
        self.times.launch = (count, times);
        match result {
            TaskResult::Unchanged(task) => {
                self.filtered_tasks.push(task);
            },
            TaskResult::Transformed(task) => {
                self.running_tasks.push(task);
            },
            TaskResult::Failed(_) => {},
        }
    }

    /// Ends a pass of launching, which left the budget `proc_limit`, at
    /// `now`: a runner with no budget left is busy.
    pub fn launch_done(&mut self, proc_limit: u32, now: Duration)
        ensures
            final(self).status() == status_after_launch(old(self).status(), proc_limit, now),
            final(self).pools() == old(self).pools(),
            final(self).times() == old(self).times(),
            final(self).last_cleaned() == old(self).last_cleaned(),
    {
        if proc_limit == 0 {
            match self.status {
                RunnerStatus::Idle(_) => {
                    self.status = RunnerStatus::Busy(now);
                },
                RunnerStatus::Working(_) => {
                    self.status = RunnerStatus::Busy(now);
                },
                _ => {},
            }
        }
    }

    /// Hands out the running tasks, to be polled.
    pub fn poll_tasks(&mut self) -> (tasks: Vec<Task<TaskRunning>>)
        requires
            old(self).wf(),
        ensures
            final(self).wf(),
            tasks@ == old(self).pools().running_tasks,
            forall|i: int|
                0 <= i < tasks@.len() ==> (#[trigger] tasks@[i]).wf() && all_started(
                    tasks@[i]@.subtasks,
                ),
            final(self).pools() == (Pools { running_tasks: Seq::empty(), ..old(self).pools() }),
            final(self).status() == old(self).status(),
            final(self).times() == old(self).times(),
            final(self).last_cleaned() == old(self).last_cleaned(),
    {
        let mut tasks: Vec<Task<TaskRunning>> = Vec::new();
        std::mem::swap(&mut self.running_tasks, &mut tasks);
        assert(self.running_tasks@ =~= Seq::<Task<TaskRunning>>::empty());
        assert forall|i: int| 0 <= i < tasks@.len() implies (#[trigger] tasks@[i]).wf()
            && all_started(tasks@[i]@.subtasks) by {
            assert(old(self).pools().running_tasks[i].wf());
        }
        tasks
    }

    /// Takes back what polling made of a task, and counts the polling,
    /// which took `elapsed`: a task with a process still running runs on,
    /// and a task whose result was handed over rests.
    ///
    /// A task that failed is gone. At that, a runner with all of its
    /// budget (`proc_limit` is the whole of `task_parallelism`) and no
    /// task in another stage is idle from `now`; else a runner that was
    /// busy or overloaded is working again.
    pub fn polled(
        &mut self,
        result: TaskResult<Task<TaskRunning>, Task<TaskComplete>>,
        elapsed: Duration,
        proc_limit: u32,
        task_parallelism: u32,
        now: Duration,
    )
        requires
            old(self).wf(),
            task_count(old(self).pools()) < TASKCOUNT,
            result matches TaskResult::Unchanged(task) ==> task.wf() && all_started(task@.subtasks),
            result matches TaskResult::Transformed(task) ==> task.wf(),
        ensures
            final(self).wf(),
            final(self).pools() == match result {
                TaskResult::Unchanged(task) => Pools {
                    running_tasks: old(self).pools().running_tasks.push(task),
                    ..old(self).pools()
                },
                TaskResult::Transformed(task) => Pools {
                    resting_tasks: old(self).pools().resting_tasks.push(task),
                    ..old(self).pools()
                },
                TaskResult::Failed(_) => old(self).pools(),
            },
            final(self).status() == if result is Failed {
                status_after_end(
                    old(self).status(),
                    proc_limit == task_parallelism && old(self).pools().new_tasks.len() == 0
                        && old(self).pools().filtered_tasks.len() == 0 && old(
                        self,
                    ).pools().resting_tasks.len() == 0,
                    now,
                )
            } else {
                old(self).status()
            },
            final(self).times().poll.0 == counted(old(self).times().poll.0),
            final(self).times().poll.1 == op_updated(
                old(self).times().poll.1,
                old(self).times().poll.0,
                elapsed,
            ),
            final(self).last_cleaned() == old(self).last_cleaned(),
    {
        let mut count: u32 = self.times.poll.0;
        let mut times = self.times.poll.1;
        times.update(&mut count, elapsed);
        self.times.poll = (count, times);
        match result {
            TaskResult::Unchanged(task) => {
                self.running_tasks.push(task);
            },
            TaskResult::Transformed(task) => {
                self.resting_tasks.push(task);
            },
            TaskResult::Failed(_) => {
                let empty: bool = proc_limit == task_parallelism && self.new_tasks.len() == 0
                    && self.filtered_tasks.len() == 0 && self.resting_tasks.len() == 0;
                self.settle_status(empty, now);
            },
        }
    }

    /// Hands out the resting tasks, to be checked; no task has come to
    /// its end in this pass yet.
    pub fn check_tasks(&mut self) -> (tasks: Vec<Task<TaskComplete>>)
        requires
            old(self).wf(),
        ensures
            final(self).wf(),
            tasks@ == old(self).pools().resting_tasks,
            forall|i: int| 0 <= i < tasks@.len() ==> (#[trigger] tasks@[i]).wf(),
            final(self).pools() == (Pools { resting_tasks: Seq::empty(), ..old(self).pools() }),
            final(self).status() == old(self).status(),
            final(self).times() == old(self).times(),
            final(self).last_cleaned() is None,
    {
        let mut tasks: Vec<Task<TaskComplete>> = Vec::new();
        std::mem::swap(&mut self.resting_tasks, &mut tasks);
        self.cleaned = None;
        assert(self.resting_tasks@ =~= Seq::<Task<TaskComplete>>::empty());
        assert forall|i: int| 0 <= i < tasks@.len() implies (#[trigger] tasks@[i]).wf() by {
            assert(old(self).pools().resting_tasks[i].wf());
        }
        tasks
    }

    /// Takes back what checking made of a task, and counts the checking,
    /// which took `elapsed`: a task whose result is still there rests on.
    /// A task whose client is done is counted among its kind, with its
    /// times, and has come to its end when it was cleaned; a task that
    /// failed has come to its end at `now`.
    pub fn checked(
        &mut self,
        result: TaskResult<Task<TaskComplete>, (String, Times)>,
        elapsed: Duration,
        now: Duration,
    )
        requires
            old(self).wf(),
            task_count(old(self).pools()) < TASKCOUNT,
            result matches TaskResult::Unchanged(task) ==> task.wf(),
            result matches TaskResult::Transformed(done) ==> times_complete(done.1),
        ensures
            final(self).wf(),
            final(self).pools() == match result {
                TaskResult::Unchanged(task) => Pools {
                    resting_tasks: old(self).pools().resting_tasks.push(task),
                    ..old(self).pools()
                },
                _ => old(self).pools(),
            },
            final(self).status() == old(self).status(),
            final(self).times().check.0 == counted(old(self).times().check.0),
            final(self).times().check.1 == op_updated(
                old(self).times().check.1,
                old(self).times().check.0,
                elapsed,
            ),
            final(self).last_cleaned() == match result {
                TaskResult::Unchanged(_) => old(self).last_cleaned(),
                TaskResult::Transformed(done) => done.1.cleaned,
                TaskResult::Failed(_) => Some(now),
            },
    {
        let mut count: u32 = self.times.check.0;
        let mut times = self.times.check.1;
        times.update(&mut count, elapsed);
        self.times.check = (count, times);
        match result {
            TaskResult::Unchanged(task) => {
                self.resting_tasks.push(task);
            },
            TaskResult::Transformed(done) => {
                let (name, times) = done;
                self.times.record_task(name, &times);
                self.cleaned = times.cleaned;
            },
            TaskResult::Failed(_) => {
                self.cleaned = Some(now);
            },
        }
    }

    /// Ends a pass of checking, and says whether a task came to its end in
    /// it. If so, a runner without tasks is idle since then; else a runner
    /// that was busy or overloaded is working again.
    pub fn check_done(&mut self) -> (any: bool)
        ensures
            any == old(self).last_cleaned() is Some,
            final(self).status() == match old(self).last_cleaned() {
                Some(at) => status_after_end(
                    old(self).status(),
                    task_count(old(self).pools()) == 0,
                    at,
                ),
                None => old(self).status(),
            },
            final(self).pools() == old(self).pools(),
            final(self).times() == old(self).times(),
            final(self).last_cleaned() == old(self).last_cleaned(),
    {
        match self.cleaned {
            None => false,
            Some(at) => {
                let empty = !self.has_active_tasks();
                self.settle_status(empty, at);
                true
            },
        }
    }
}

} // verus!
