//! The configuration as it is written down: text and numbers, before
//! anything is made of them.
use vstd::prelude::*;

verus! {

/// The whole of a configuration file.
#[derive(Debug)]
pub struct ParsedConfig {
    pub options: ConfigOptions,
    pub hosts: Vec<ConfigHost>,
    pub tasks: Vec<ConfigTask>,
}

/// The `[options]` section.
#[derive(Debug)]
pub struct ConfigOptions {
    pub status_frequency: String,
    pub cleanup_frequency: String,
    pub scan_frequency: String,
    pub filter_frequency: String,
    pub poll_frequency: String,
    pub check_frequency: String,
    pub task_parallelism: u32,
    pub hard_timeout: String,
    pub cleanup_timeout: String,
    pub root: String,
    pub input_subdir: String,
    pub processing_subdir: String,
    pub output_success_subdir: String,
    pub output_failure_subdir: String,
    pub logged_failure_subdir: String,
    pub task_file_path: String,
    pub task_file_content: String,
}

/// One `[[hosts]]` section: a host and the part of the store it serves.
#[derive(Debug)]
pub struct ConfigHost {
    pub name: String,
    pub pods: Option<Vec<u32>>,
    pub blocks: Option<Vec<u32>>,
    pub caps: Option<Vec<u32>>,
    pub scatters: Option<Vec<u32>>,
}

/// One `[[tasks]]` section.
#[derive(Debug)]
pub struct ConfigTask {
    pub name: String,
    pub command: String,
    pub file_format: String,
    pub overrides: Option<Vec<String>>,
    pub conflicts: Option<Vec<String>>,
    pub timeout: Option<String>,
}

/// What is wrong with the task sections of a configuration.
#[derive(Clone, Copy, Debug, PartialEq, Eq, Structural)]
pub enum TaskListError {
    /// Task `task` has the name of another task.
    DuplicateName { task: usize },
    /// Task `task` overrides a name that no task has.
    UnknownOverride { task: usize },
    /// Task `task` conflicts with a name that no task has.
    UnknownConflict { task: usize },
}

/// How many tasks have the name `name`.
pub open spec fn name_count(tasks: Seq<ConfigTask>, name: Seq<char>) -> nat
    decreases tasks.len(),
{
    if tasks.len() == 0 {
        0
    } else {
        name_count(tasks.drop_last(), name) + if tasks.last().name@ == name {
            1nat
        } else {
            0nat
        }
    }
}

/// Whether some task has the name `name`.
pub open spec fn has_task(tasks: Seq<ConfigTask>, name: Seq<char>) -> bool {
    exists|i: int| 0 <= i < tasks.len() && (#[trigger] tasks[i]).name@ == name
}

/// Whether every name of `list` is the name of a task.
pub open spec fn each_known(tasks: Seq<ConfigTask>, list: Seq<String>) -> bool {
    forall|k: int| 0 <= k < list.len() ==> has_task(tasks, (#[trigger] list[k])@)
}

/// Whether every name of `targets` is the name of a task.
pub open spec fn all_known(tasks: Seq<ConfigTask>, targets: Option<Vec<String>>) -> bool {
    match targets {
        None => true,
        Some(list) => each_known(tasks, list@),
    }
}

/// What is wrong with task `task` among `tasks`, if anything: its name is
/// taken twice, or it overrides or conflicts with an unknown name.
pub open spec fn task_list_issue(tasks: Seq<ConfigTask>, task: int) -> Option<TaskListError> {
    if name_count(tasks, tasks[task].name@) > 1 {
        Some(TaskListError::DuplicateName { task: task as usize })
    } else if !all_known(tasks, tasks[task].overrides) {
        Some(TaskListError::UnknownOverride { task: task as usize })
    } else if !all_known(tasks, tasks[task].conflicts) {
        Some(TaskListError::UnknownConflict { task: task as usize })
    } else {
        None
    }
}

fn count_name(tasks: &Vec<ConfigTask>, name: &String) -> (n: usize)
    ensures
        n == name_count(tasks@, name@),
{
    let mut n: usize = 0;
    let mut i: usize = 0;
    assert(tasks@.take(0) =~= Seq::<ConfigTask>::empty());
    while i < tasks.len()
        invariant
            0 <= i <= tasks.len(),
            n <= i,
            n == name_count(tasks@.take(i as int), name@),
        decreases tasks.len() - i,
    {
        assert(tasks@.take(i + 1).drop_last() =~= tasks@.take(i as int));
        if tasks[i].name == *name {
            n += 1;
        }
        i += 1;
    }
    assert(tasks@.take(tasks@.len() as int) =~= tasks@);
    n
}

fn knows_task(tasks: &Vec<ConfigTask>, name: &String) -> (r: bool)
    ensures
        r == has_task(tasks@, name@),
{
    let mut i: usize = 0;
    while i < tasks.len()
        invariant
            0 <= i <= tasks.len(),
            forall|j: int| 0 <= j < i ==> (#[trigger] tasks@[j]).name@ != name@,
        decreases tasks.len() - i,
    {
        if tasks[i].name == *name {
            return true;
        }
        i += 1;
    }
    false
}

fn knows_each(tasks: &Vec<ConfigTask>, list: &Vec<String>) -> (r: bool)
    ensures
        r == each_known(tasks@, list@),
{
    let mut k: usize = 0;
    while k < list.len()
        invariant
            0 <= k <= list.len(),
            forall|j: int| 0 <= j < k ==> has_task(tasks@, (#[trigger] list@[j])@),
        decreases list.len() - k,
    {
        if !knows_task(tasks, &list[k]) {
            assert(!has_task(tasks@, list@[k as int]@));
            return false;
        }
        k += 1;
    }
    true
}

fn knows_all(tasks: &Vec<ConfigTask>, targets: &Option<Vec<String>>) -> (r: bool)
    ensures
        r == all_known(tasks@, *targets),
{
    match targets {
        None => true,
        Some(list) => knows_each(tasks, list),
    }
}

impl ParsedConfig {
    /// Checks the task sections against each other: names must be unique,
    /// and what a task overrides or conflicts with must exist. The first
    /// task with a fault is reported.
    pub fn check_tasks(&self) -> (r: Result<(), TaskListError>)
        ensures
            match r {
                Ok(()) => forall|i: int|
                    0 <= i < self.tasks@.len() ==> task_list_issue(self.tasks@, i) is None,
                Err(e) => exists|i: int|
                    0 <= i < self.tasks@.len() && task_list_issue(self.tasks@, i) == Some(e)
                        && forall|j: int| 0 <= j < i ==> task_list_issue(self.tasks@, j) is None,
            },
    {
        let mut i: usize = 0;
        while i < self.tasks.len()
            invariant
                0 <= i <= self.tasks.len(),
                forall|j: int| 0 <= j < i ==> task_list_issue(self.tasks@, j) is None,
            decreases self.tasks.len() - i,
        {
            let task = &self.tasks[i];
            if count_name(&self.tasks, &task.name) > 1 {
                assert(task_list_issue(self.tasks@, i as int) == Some(
                    TaskListError::DuplicateName { task: i },
                ));
                return Err(TaskListError::DuplicateName { task: i });
            }
            if !knows_all(&self.tasks, &task.overrides) {
                assert(task_list_issue(self.tasks@, i as int) == Some(
                    TaskListError::UnknownOverride { task: i },
                ));
                return Err(TaskListError::UnknownOverride { task: i });
            }
            if !knows_all(&self.tasks, &task.conflicts) {
                assert(task_list_issue(self.tasks@, i as int) == Some(
                    TaskListError::UnknownConflict { task: i },
                ));
                return Err(TaskListError::UnknownConflict { task: i });
            }
            i += 1;
        }
        Ok(())
    }
}

} // verus!
