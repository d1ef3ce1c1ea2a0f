use marchive::config::parsing::{ConfigHost, ConfigOptions, ConfigTask, ParsedConfig};
use marchive::config::{Config, Coordinate};
use marchive::format::Duration;
use marchive::objtable::{ObjLocation, ObjTable, Object};
use marchive::processing::stamp_text;
use marchive::subtask::{ChildObservation, ChildStatus, OutputCleanup, TaskChild};
use marchive::task::filter::{FilterReport, LineFault};
use marchive::task::run::{FileProbe, LaunchReport, LaunchStep};
use marchive::task::{
    Grab, GrabError, Task, TaskComplete, TaskFiltered, TaskGrabbed, TaskResult, TaskRunning,
    TaskfileCleanup, Times,
};
use marchive::template::Patterns;

fn task_section(name: &str, command: &str, file_format: &str) -> ConfigTask {
    ConfigTask {
        name: name.to_string(),
        command: command.to_string(),
        file_format: file_format.to_string(),
        overrides: None,
        conflicts: None,
        timeout: None,
    }
}

fn written() -> ParsedConfig {
    ParsedConfig {
        options: ConfigOptions {
            status_frequency: "1m".to_string(),
            cleanup_frequency: "1h".to_string(),
            scan_frequency: "10s".to_string(),
            filter_frequency: "5s".to_string(),
            poll_frequency: "1s".to_string(),
            check_frequency: "1s".to_string(),
            task_parallelism: 2,
            hard_timeout: "1h".to_string(),
            cleanup_timeout: "7d".to_string(),
            root: "/marchive".to_string(),
            input_subdir: "in".to_string(),
            processing_subdir: "proc".to_string(),
            output_success_subdir: "out/success".to_string(),
            output_failure_subdir: "out/failure".to_string(),
            logged_failure_subdir: "log/failure".to_string(),
            task_file_path: "{task}/pod{pod}/{_}.list".to_string(),
            task_file_content: "{object} {block}".to_string(),
        },
        hosts: vec![ConfigHost {
            name: "host1".to_string(),
            pods: Some(vec![1, 2]),
            blocks: None,
            caps: None,
            scatters: None,
        }],
        tasks: vec![
            ConfigTask {
                conflicts: Some(vec!["purge".to_string()]),
                timeout: Some("30s".to_string()),
                ..task_section("migrate", "migrate -b {block} {file}", "{object}@{pod}")
            },
            ConfigTask {
                conflicts: Some(vec!["migrate".to_string()]),
                ..task_section("purge", "purge {file}", "rm {object}")
            },
            ConfigTask {
                overrides: Some(vec!["stage".to_string()]),
                ..task_section("flush", "flush {file}", "{object}")
            },
            task_section("stage", "stage {file}", "{object}"),
        ],
    }
}

fn config() -> Config {
    Config::from((written(), "host1".to_string()), Patterns::new().unwrap()).unwrap()
}

fn at(secs: u64) -> Duration {
    Duration { secs, nanos: 0 }
}

fn wall(millis: u64) -> Duration {
    Duration { secs: 1_700_000_000, nanos: 0 }.saturating_add(&Duration::from_millis(millis))
}

fn grab(config: &Config, path: &str, millis: u64) -> Task<TaskGrabbed> {
    match Task::new(path.to_string(), config, 42, wall(millis), at(1)) {
        Grab::Taken(task) => task,
        _ => panic!("no task made of {path}"),
    }
}

fn lines(text: &[&str]) -> Vec<String> {
    text.iter().map(|line| line.to_string()).collect()
}

fn filtered(report: FilterReport) -> Task<TaskFiltered> {
    match report.result {
        TaskResult::Transformed(task) => task,
        TaskResult::Unchanged(_) => panic!("task waits"),
        TaskResult::Failed(text) => panic!("{text}"),
    }
}

fn seen(status: ChildStatus, count: usize) -> Vec<ChildObservation> {
    vec![ChildObservation { status, since_update: None, now: at(20) }; count]
}

/// Starts every subtask, as the budget allows.
fn launch_all(
    task: Task<TaskFiltered>,
    limit: &mut u32,
    table: &mut ObjTable,
    config: &Config,
) -> (TaskResult<Task<TaskFiltered>, Task<TaskRunning>>, Vec<String>) {
    let mut commands = Vec::new();
    let count = task.subtasks().len();
    let mut report: LaunchReport =
        task.launch(limit, &seen(ChildStatus::Running, count), table, config, at(5));
    loop {
        match report.step {
            LaunchStep::Done(result) => return (result, commands),
            LaunchStep::Spawn { mut task, index, order } => {
                commands.push(order.command);
                task.launched(index, 1000 + index as u32, at(6), limit);
                report = task.launch_from(
                    index + 1,
                    limit,
                    &seen(ChildStatus::Running, count),
                    table,
                    config,
                );
            }
        }
    }
}

fn running(result: TaskResult<Task<TaskFiltered>, Task<TaskRunning>>) -> Task<TaskRunning> {
    match result {
        TaskResult::Transformed(task) => task,
        TaskResult::Unchanged(_) => panic!("task waits for budget"),
        TaskResult::Failed(text) => panic!("{text}"),
    }
}

fn object(name: &str, pod: u32, block: u32) -> Object {
    Object { name: name.to_string(), location: ObjLocation { pod, block, cap: 0, scatter: 0 } }
}

#[test]
fn new_makes_a_task_of_a_file_of_this_host() {
    let config = config();
    let task = grab(&config, "in/migrate/pod1/a.list", 0);
    assert_eq!(task.current_path(), "in/migrate/pod1/a.list");
    assert_eq!(task.timestamp(), wall(0));
    assert_eq!(task.taskdef().name, "migrate");
    assert_eq!(task.parsed_offset(), 0);
    assert_eq!(task.subtasks().len(), 0);
    assert_eq!(
        *task.times(),
        Times { detected: Some(at(1)), filtered: None, started: None, completed: None, cleaned: None }
    );
}

#[test]
fn new_passes_over_what_is_not_for_this_host() {
    let config = config();
    let try_new = |path: &str| Task::new(path.to_string(), &config, 42, wall(0), at(1));
    assert!(matches!(try_new("elsewhere/migrate/pod1/a.list"), Grab::Outside));
    assert!(matches!(try_new("/in/migrate/pod1/a.list"), Grab::Outside));
    assert!(matches!(try_new("in/migrate/pod3/a.list"), Grab::Ignored));
    assert!(matches!(try_new("in/migrate/pod99999999999/a.list"), Grab::Ignored));
    assert!(matches!(try_new("in/migrate/pod2/a.list"), Grab::Taken(_)));
}

#[test]
fn new_puts_away_what_is_no_task() {
    let config = config();
    let try_new = |path: &str| Task::new(path.to_string(), &config, 42, wall(0), at(1));
    match try_new("in/migrate/pod1/a.txt") {
        Grab::Failed { error, cleanup } => {
            assert_eq!(error, GrabError::PathMismatch);
            assert_eq!(cleanup.filtered, None);
            assert!(cleanup.subtasks.is_empty());
            match cleanup.taskfile {
                TaskfileCleanup::Archive { from, to } => {
                    assert_eq!(from, "in/migrate/pod1/a.txt");
                    assert_eq!(to, "out/failure/migrate/pod1/a.txt");
                }
                other => panic!("{other:?}"),
            }
            let dirs = cleanup.dirs.unwrap();
            let stamp = stamp_text(&wall(0)).unwrap();
            assert_eq!(dirs.root, format!("proc/host1/PID42/{stamp}"));
            assert_eq!(dirs.leaf, format!("proc/host1/PID42/{stamp}/original/migrate/pod1/a.txt"));
        }
        _ => panic!("expected a failure"),
    }
    match try_new("in/archive/pod1/a.list") {
        Grab::Failed { error, .. } => assert_eq!(error, GrabError::UnknownTask),
        _ => panic!("expected a failure"),
    }
}

#[test]
fn from_groups_decides_by_the_groups() {
    let config = config();
    let group = |text: &str| Some(text.to_string());
    let decide = |groups: Option<Vec<Option<String>>>| {
        Task::from_groups(
            "migrate/pod1/a.list".to_string(),
            "in/migrate/pod1/a.list".to_string(),
            groups,
            &config,
            42,
            wall(0),
            at(1),
        )
    };
    let error = |grab: Grab| match grab {
        Grab::Failed { error, .. } => error,
        _ => panic!("expected a failure"),
    };
    assert_eq!(error(decide(None)), GrabError::PathMismatch);
    assert_eq!(error(decide(Some(vec![group("1")]))), GrabError::PathMismatch);
    assert!(matches!(
        decide(Some(vec![None, None, None, None, group("migrate"), group("1")])),
        Grab::Ignored
    ));
    assert!(matches!(
        decide(Some(vec![group("x"), None, None, None, group("migrate"), group("1")])),
        Grab::Ignored
    ));
    assert_eq!(
        error(decide(Some(vec![group("1"), None, None, None, None, group("1")]))),
        GrabError::NoTaskName
    );
    assert_eq!(
        error(decide(Some(vec![group("2"), None, None, None, group("migrat"), group("1")]))),
        GrabError::UnknownTask
    );
    assert_eq!(
        error(decide(Some(vec![group("2"), None, None, None, group("purge"), None]))),
        GrabError::MissingValue { value: 0 }
    );
    match decide(Some(vec![group("+1"), None, None, None, group("purge"), group("7")])) {
        Grab::Taken(task) => assert_eq!(task.taskdef().name, "purge"),
        _ => panic!("expected a task"),
    }
}

#[test]
fn from_groups_reports_a_name_that_is_listed_twice() {
    let mut config = config();
    config.task_path_values.push("pod".to_string());
    let group = |text: &str| Some(text.to_string());
    let grab = Task::from_groups(
        "migrate/pod1/a.list".to_string(),
        "in/migrate/pod1/a.list".to_string(),
        Some(vec![group("1"), None, None, None, group("migrate"), group("1"), group("1")]),
        &config,
        42,
        wall(0),
        at(1),
    );
    match grab {
        Grab::Failed { error, .. } => assert_eq!(error, GrabError::RepeatedValue { value: 1 }),
        _ => panic!("expected a failure"),
    }
}

#[test]
fn filter_fails_on_a_line_that_cannot_be_rewritten() {
    let mut config = config();
    let changed = marchive::config::ConfigTask {
        name: "migrate".to_string(),
        command: "migrate {file}".to_string(),
        command_values: Vec::new(),
        file_format: "{object} {nothing}".to_string(),
        file_format_values: vec!["object".to_string(), "nothing".to_string()],
        overrides: Vec::new(),
        conflicts: Vec::new(),
        timeout: None,
    };
    config.tasks[0] = std::sync::Arc::new(changed);
    let mut table = ObjTable::new();
    let task = grab(&config, "in/migrate/pod1/a.list", 0);
    let report = task.filter(&lines(&["o1 7"]), &mut table, &config, at(2));
    match report.result {
        TaskResult::Failed(text) => assert_eq!(
            text,
            "ERROR: Failed to filter taskfile migrate line o1 7: no value associated with \
             nothing could be found"
        ),
        _ => panic!("expected a failure"),
    }
    assert_eq!(report.accepted, lines(&["o1 7"]));
    assert!(report.routed.is_empty());
    assert!(table.is_empty());
}

#[test]
fn launch_fails_where_the_command_cannot_be_made() {
    let mut config = config();
    let changed = marchive::config::ConfigTask {
        name: "migrate".to_string(),
        command: "migrate {file} {nothing}".to_string(),
        command_values: vec!["nothing".to_string()],
        file_format: "{object}".to_string(),
        file_format_values: vec!["object".to_string()],
        overrides: Vec::new(),
        conflicts: Vec::new(),
        timeout: None,
    };
    config.tasks[0] = std::sync::Arc::new(changed);
    let mut table = ObjTable::new();
    let mut limit = 2;
    let task = grab(&config, "in/migrate/pod1/a.list", 0);
    let task = filtered(task.filter(&lines(&["o1 7"]), &mut table, &config, at(2)));
    assert!(!table.is_empty());
    let report =
        task.launch(&mut limit, &seen(ChildStatus::Running, 1), &mut table, &config, at(3));
    match report.step {
        LaunchStep::Done(TaskResult::Failed(text)) => assert_eq!(
            text,
            "ERROR: Failed to launch SubTask process: failed to format command string: no value \
             associated with nothing could be found"
        ),
        _ => panic!("expected a failure"),
    }
    assert_eq!(limit, 2);
    assert!(report.cleanup.is_some());
    assert!(table.is_empty());
}

#[test]
fn subtask_takes_lines_until_it_is_started() {
    let config = config();
    let mut table = ObjTable::new();
    let mut limit = 2;
    let task = grab(&config, "in/migrate/pod1/a.list", 0);
    let task = filtered(task.filter(&lines(&["o1 7"]), &mut table, &config, at(2)));
    let stamp = stamp_text(&wall(0)).unwrap();
    let paths = task.subtasks()[0].get_writer(&config).unwrap();
    assert_eq!(paths.dir, format!("proc/host1/PID42/{stamp}/subtask.0"));
    assert_eq!(paths.input, format!("proc/host1/PID42/{stamp}/subtask.0/input"));
    let order = task.subtasks()[0].launch(&config).unwrap();
    assert_eq!(order.command, format!("migrate -b 7 proc/host1/PID42/{stamp}/subtask.0/input"));
    assert_eq!(order.output, format!("proc/host1/PID42/{stamp}/subtask.0/output"));
    let (result, _) = launch_all(task, &mut limit, &mut table, &config);
    let task = running(result);
    assert_eq!(
        task.subtasks()[0].get_writer(&config).err(),
        Some("should not be written to after child proc launch".to_string())
    );
    assert_eq!(
        task.subtasks()[0].launch(&config).err(),
        Some("already launched previously".to_string())
    );
    let plan = task.subtasks()[0].cleanup(&config);
    assert_eq!(plan.kill, Some(1000));
}

#[test]
fn staging_moves_the_task_file() {
    let config = config();
    let mut task = grab(&config, "in/migrate/pod1/a.list", 0);
    let stamp = stamp_text(&wall(0)).unwrap();
    assert_eq!(task.stage_dir(&config), format!("proc/host1/PID42/{stamp}"));
    let target = task.stage_target(&config);
    assert_eq!(target, format!("proc/host1/PID42/{stamp}/original/migrate/pod1/a.list"));
    task.staged(target.clone());
    assert_eq!(*task.current_path(), target);
    assert_eq!(task.filtered_path(&config), format!("proc/host1/PID42/{stamp}/filtered"));
    assert_eq!(task.success_path(&config), "out/success/migrate/pod1/a.list");
}

#[test]
fn bump_timestamp_tries_for_a_tenth_of_a_second() {
    let config = config();
    let mut task = grab(&config, "in/migrate/pod1/a.list", 0);
    let first = task.timestamp();
    for tries in 1..100 {
        assert!(task.bump_timestamp(&first), "try {tries}");
        assert_eq!(task.timestamp(), wall(tries));
    }
    assert!(!task.bump_timestamp(&first));
    assert_eq!(task.timestamp(), wall(100));
}

#[test]
fn filter_rewrites_each_line_for_its_subtask() {
    let config = config();
    let mut table = ObjTable::new();
    let task = grab(&config, "in/migrate/pod1/a.list", 0);
    let report = task.filter(&lines(&["o1 7", "o2 8", "o3 7"]), &mut table, &config, at(2));
    assert_eq!(report.accepted, lines(&["o1 7", "o2 8", "o3 7"]));
    assert_eq!(
        report.routed,
        vec![(0, "o1@1".to_string()), (1, "o2@1".to_string()), (0, "o3@1".to_string())]
    );
    assert!(report.cleanup.is_none());
    let task = filtered(report);
    assert_eq!(task.parsed_offset(), 3);
    assert_eq!(task.times().filtered, Some(at(2)));
    assert_eq!(task.subtasks().len(), 2);
    assert_eq!(task.subtasks()[0].count, 0);
    assert_eq!(task.subtasks()[1].count, 1);
    assert_eq!(task.subtasks()[0].cmdvals.get("block"), Some(&"7".to_string()));
    assert_eq!(task.subtasks()[1].cmdvals.get("block"), Some(&"8".to_string()));
    assert_eq!(task.subtasks()[0].cmdvals.get("pod"), None);
    assert_eq!(task.subtasks()[1].child, TaskChild::NotStarted);
    assert!(table.holds(&object("o1", 1, 7), task.taskdef(), wall(0)));
    assert!(table.holds(&object("o2", 1, 8), task.taskdef(), wall(0)));
    assert!(!table.holds(&object("o2", 1, 7), task.taskdef(), wall(0)));
}

#[test]
fn filter_reads_lines_by_the_template() {
    let config = config();
    let task = grab(&config, "in/migrate/pod2/a.list", 0);
    let said = task.decode_line(&config, "obj-9 31").unwrap();
    assert!(said.object.same_as(&object("obj-9", 2, 31)));
    assert_eq!(said.cmdvals.get("block"), Some(&"31".to_string()));
    assert_eq!(said.cmdvals.len(), 1);
    assert_eq!(said.filevals.get("object"), Some(&"obj-9".to_string()));
    assert_eq!(said.filevals.get("pod"), Some(&"2".to_string()));
    assert_eq!(said.filevals.len(), 2);
    assert_eq!(task.decode_line(&config, "obj-9").err(), Some(LineFault::Malformed));
    assert_eq!(task.decode_line(&config, "obj 9 9").err(), Some(LineFault::Malformed));
    assert_eq!(
        task.decode_line(&config, "obj 4294967296").err(),
        Some(LineFault::BadCoordinate(Coordinate::Block))
    );
    assert_eq!(
        task.decode_groups(&config, &Some(vec![Some("o".to_string()), None, Some("o".to_string())]))
            .err(),
        Some(LineFault::MissingValue)
    );
    assert_eq!(
        task.decode_groups(&config, &Some(vec![Some("o".to_string()), Some("1".to_string()), None]))
            .err(),
        Some(LineFault::NoObject)
    );
    assert_eq!(task.decode_groups(&config, &None).err(), Some(LineFault::Malformed));
}

#[test]
fn filter_fails_on_a_line_that_cannot_be_read() {
    let config = config();
    let mut table = ObjTable::new();
    let task = grab(&config, "in/migrate/pod1/a.list", 0);
    let kind = task.taskdef().clone();
    let report = task.filter(&lines(&["o1 7", "broken"]), &mut table, &config, at(2));
    match report.result {
        TaskResult::Failed(text) => assert_eq!(
            text,
            "ERROR: Task file \"in/migrate/pod1/a.list\" does not match expected content \
             formatting!\nOffending line: broken"
        ),
        _ => panic!("expected a failure"),
    }
    assert_eq!(report.accepted, lines(&["o1 7"]));
    assert!(table.is_empty());
    assert!(!table.holds(&object("o1", 1, 7), &kind, wall(0)));
    let cleanup = report.cleanup.unwrap();
    let stamp = stamp_text(&wall(0)).unwrap();
    assert_eq!(cleanup.filtered, Some(format!("proc/host1/PID42/{stamp}/filtered")));
    assert!(matches!(cleanup.taskfile, TaskfileCleanup::Archive { .. }));
    assert_eq!(cleanup.subtasks.len(), 1);
    assert_eq!(cleanup.subtasks[0].kill, None);
    assert_eq!(cleanup.subtasks[0].input, format!("proc/host1/PID42/{stamp}/subtask.0/input"));
    assert_eq!(cleanup.subtasks[0].dir, format!("proc/host1/PID42/{stamp}/subtask.0"));
    match &cleanup.subtasks[0].output {
        OutputCleanup::Relocate { from, to } => {
            assert_eq!(*from, format!("proc/host1/PID42/{stamp}/subtask.0/output"));
            assert_eq!(*to, format!("log/failure/host1/PID42/{stamp}/subtask.0/output"));
        }
        other => panic!("{other:?}"),
    }
}

#[test]
fn purge_after_migrate_is_a_conflict() {
    let config = config();
    let mut table = ObjTable::new();
    let migrate = grab(&config, "in/migrate/pod1/a.list", 0);
    let migrate = filtered(migrate.filter(&lines(&["O 5"]), &mut table, &config, at(2)));
    let purge = grab(&config, "in/purge/pod1/b.list", 1);
    let report = purge.filter(&lines(&["other 5", "O 5"]), &mut table, &config, at(3));
    match report.result {
        TaskResult::Failed(text) => assert_eq!(
            text,
            "ERROR: Task conflict detected with new purge ops: conflicting migrate task on \
             Obj{ \"O\"@{Pod1,Block5,Cap0,Scat0} }"
        ),
        _ => panic!("expected a conflict"),
    }
    assert!(report.cleanup.is_some());
    // what purge held is gone, what migrate holds is still there
    assert!(!table.holds(&object("other", 1, 5), &config.tasks[1], wall(1)));
    assert!(table.holds(&object("O", 1, 5), migrate.taskdef(), wall(0)));
    // migrate runs to its end, and only then lets go
    let mut limit = 2;
    let (result, _) = launch_all(migrate, &mut limit, &mut table, &config);
    let polled =
        running(result).poll(&mut limit, &seen(ChildStatus::Exited(Some(0)), 1), &mut table, &config);
    assert!(table.holds(&object("O", 1, 5), &config.tasks[0], wall(0)));
    let complete = match polled.result {
        TaskResult::Transformed(promotion) => promotion.confirm(at(30)),
        _ => panic!("expected success"),
    };
    assert!(table.holds(&object("O", 1, 5), &config.tasks[0], wall(0)));
    let checked = complete.check(FileProbe::Absent, &mut table, &config, at(40));
    assert!(matches!(checked.result, TaskResult::Transformed(_)));
    assert!(table.is_empty());
}

#[test]
fn filter_waits_and_resumes_where_it_stopped() {
    let config = config();
    let mut table = ObjTable::new();
    let stage = grab(&config, "in/stage/pod1/s.list", 0);
    let stage = filtered(stage.filter(&lines(&["o3 1"]), &mut table, &config, at(2)));
    let all = lines(&["o1 1", "o2 1", "o3 1", "o4 1"]);
    let flush = grab(&config, "in/flush/pod1/f.list", 1);
    let report = flush.filter(&all, &mut table, &config, at(3));
    assert_eq!(report.accepted, lines(&["o1 1", "o2 1"]));
    assert_eq!(report.routed, vec![(0, "o1".to_string()), (0, "o2".to_string())]);
    let flush = match report.result {
        TaskResult::Unchanged(task) => task,
        _ => panic!("expected to wait"),
    };
    assert_eq!(flush.parsed_offset(), 2);
    assert_eq!(flush.times().filtered, None);
    // nothing has changed: it waits again, at the same line, and writes nothing
    let again = flush.filter(&all, &mut table, &config, at(4));
    assert!(again.accepted.is_empty());
    assert!(again.routed.is_empty());
    let flush = match again.result {
        TaskResult::Unchanged(task) => task,
        _ => panic!("expected to wait"),
    };
    assert_eq!(flush.parsed_offset(), 2);
    // the holder lets go: the rest is read, and only the rest
    let _ = stage.release(&mut table, &config);
    let rest = flush.filter(&all, &mut table, &config, at(5));
    assert_eq!(rest.accepted, lines(&["o3 1", "o4 1"]));
    assert_eq!(rest.routed, vec![(0, "o3".to_string()), (0, "o4".to_string())]);
    let flush = filtered(rest);
    assert_eq!(flush.parsed_offset(), 4);
    assert_eq!(flush.subtasks().len(), 1);
    assert_eq!(flush.times().filtered, Some(at(5)));
}

#[test]
fn filter_skips_what_a_holder_replaces() {
    let config = config();
    let mut table = ObjTable::new();
    let flush = grab(&config, "in/flush/pod1/f.list", 0);
    let _flush = filtered(flush.filter(&lines(&["o2 1"]), &mut table, &config, at(2)));
    let stage = grab(&config, "in/stage/pod1/s.list", 1);
    let report = stage.filter(&lines(&["o1 1", "o2 1", "o3 1"]), &mut table, &config, at(3));
    assert_eq!(report.accepted, lines(&["o1 1", "o3 1"]));
    assert_eq!(report.routed, vec![(0, "o1".to_string()), (0, "o3".to_string())]);
    let stage = filtered(report);
    assert_eq!(stage.parsed_offset(), 3);
    assert!(!table.holds(&object("o2", 1, 1), stage.taskdef(), wall(1)));
    assert!(table.holds(&object("o3", 1, 1), stage.taskdef(), wall(1)));
}

#[test]
fn empty_taskfile_goes_all_the_way() {
    let config = config();
    let mut table = ObjTable::new();
    let mut limit = 2;
    let task = grab(&config, "in/migrate/pod1/empty.list", 0);
    let report = task.filter(&Vec::new(), &mut table, &config, at(2));
    assert!(report.accepted.is_empty() && report.routed.is_empty());
    let task = filtered(report);
    assert_eq!(task.subtasks().len(), 0);
    let (result, commands) = launch_all(task, &mut limit, &mut table, &config);
    assert!(commands.is_empty());
    assert_eq!(limit, 2);
    let task = running(result);
    assert_eq!(task.times().started, Some(at(5)));
    let polled = task.poll(&mut limit, &Vec::new(), &mut table, &config);
    assert!(polled.kills.is_empty());
    assert_eq!(limit, 2);
    let promotion = match polled.result {
        TaskResult::Transformed(promotion) => promotion,
        _ => panic!("expected success"),
    };
    assert_eq!(*promotion.to(), "out/success/migrate/pod1/empty.list");
    assert_eq!(*promotion.from(), format!("proc/host1/PID42/{}/filtered", stamp_text(&wall(0)).unwrap()));
    let task: Task<TaskComplete> = promotion.confirm(at(7));
    assert_eq!(task.times().completed, Some(at(7)));
    let waiting = task.check(FileProbe::Present, &mut table, &config, at(8));
    assert!(waiting.cleanup.is_none());
    let task = match waiting.result {
        TaskResult::Unchanged(task) => task,
        _ => panic!("expected to rest"),
    };
    let done = task.check(FileProbe::Absent, &mut table, &config, at(9));
    match done.result {
        TaskResult::Transformed((name, times)) => {
            assert_eq!(name, "migrate");
            assert_eq!(
                times,
                Times {
                    detected: Some(at(1)),
                    filtered: Some(at(2)),
                    started: Some(at(5)),
                    completed: Some(at(7)),
                    cleaned: Some(at(9)),
                }
            );
        }
        _ => panic!("expected the end"),
    }
    let cleanup = done.cleanup.unwrap();
    assert_eq!(cleanup.filtered, None);
    match cleanup.taskfile {
        TaskfileCleanup::Delete(path) => assert_eq!(path, "in/migrate/pod1/empty.list"),
        other => panic!("{other:?}"),
    }
    assert!(table.is_empty());
}

#[test]
fn launch_spends_the_budget_and_poll_gives_it_back() {
    let config = config();
    let mut table = ObjTable::new();
    let mut limit = 2;
    let task = grab(&config, "in/migrate/pod1/a.list", 0);
    let task = filtered(task.filter(&lines(&["a 1", "b 2", "c 3"]), &mut table, &config, at(2)));
    assert_eq!(task.subtasks().len(), 3);
    // two of three are started, then the budget is used up
    let (result, commands) = launch_all(task, &mut limit, &mut table, &config);
    let stamp = stamp_text(&wall(0)).unwrap();
    assert_eq!(
        commands,
        vec![
            format!("migrate -b 1 proc/host1/PID42/{stamp}/subtask.0/input"),
            format!("migrate -b 2 proc/host1/PID42/{stamp}/subtask.1/input"),
        ]
    );
    assert_eq!(limit, 0);
    let task = match result {
        TaskResult::Unchanged(task) => task,
        _ => panic!("expected to wait for budget"),
    };
    assert_eq!(task.times().started, Some(at(6)));
    assert_eq!(task.subtasks()[0].child, TaskChild::Child(1000));
    assert_eq!(task.subtasks()[1].child, TaskChild::Child(1001));
    assert_eq!(task.subtasks()[2].child, TaskChild::NotStarted);
    // without budget nothing is even looked at
    let report =
        task.launch(&mut limit, &seen(ChildStatus::Exited(Some(0)), 3), &mut table, &config, at(7));
    assert_eq!(limit, 0);
    let task = match report.step {
        LaunchStep::Done(TaskResult::Unchanged(task)) => task,
        _ => panic!("expected to wait for budget"),
    };
    assert_eq!(task.subtasks()[0].child, TaskChild::Child(1000));
    // budget from elsewhere: the first two are seen to have ended, the third is started
    limit = 1;
    let mut looks = seen(ChildStatus::Exited(Some(0)), 3);
    looks[1].status = ChildStatus::Running;
    let report = task.launch(&mut limit, &looks, &mut table, &config, at(8));
    assert_eq!(limit, 2);
    let (mut task, index) = match report.step {
        LaunchStep::Spawn { task, index, order } => {
            assert_eq!(order.command, format!("migrate -b 3 proc/host1/PID42/{stamp}/subtask.2/input"));
            assert_eq!(order.output, format!("proc/host1/PID42/{stamp}/subtask.2/output"));
            (task, index)
        }
        _ => panic!("expected a process to start"),
    };
    assert_eq!(index, 2);
    task.launched(2, 1002, at(9), &mut limit);
    assert_eq!(limit, 1);
    let report = task.launch_from(3, &mut limit, &looks, &mut table, &config);
    let task = match report.step {
        LaunchStep::Done(TaskResult::Transformed(task)) => task,
        _ => panic!("expected to run"),
    };
    assert_eq!(task.times().started, Some(at(6)));
    assert_eq!(task.subtasks()[0].child, TaskChild::Complete(0));
    assert_eq!(task.subtasks()[1].child, TaskChild::Child(1001));
    assert_eq!(task.subtasks()[2].child, TaskChild::Child(1002));
    // polling: one more ends, the task runs on
    let mut looks = seen(ChildStatus::Running, 3);
    looks[2].status = ChildStatus::Exited(Some(0));
    let polled = task.poll(&mut limit, &looks, &mut table, &config);
    assert_eq!(limit, 2);
    let task = match polled.result {
        TaskResult::Unchanged(task) => task,
        _ => panic!("expected to run on"),
    };
    // the last one ends: all the budget is back
    limit = 1;
    let polled = task.poll(&mut limit, &seen(ChildStatus::Exited(Some(0)), 3), &mut table, &config);
    assert_eq!(limit, 2);
    assert!(matches!(polled.result, TaskResult::Transformed(_)));
}

#[test]
fn poll_fails_the_task_of_a_failed_process() {
    let config = config();
    let mut table = ObjTable::new();
    let mut limit = 2;
    let task = grab(&config, "in/migrate/pod1/a.list", 0);
    let task = filtered(task.filter(&lines(&["a 1", "b 2"]), &mut table, &config, at(2)));
    let (result, _) = launch_all(task, &mut limit, &mut table, &config);
    let mut looks = seen(ChildStatus::Exited(Some(0)), 2);
    looks[1].status = ChildStatus::Exited(Some(3));
    let polled = running(result).poll(&mut limit, &looks, &mut table, &config);
    assert_eq!(limit, 2);
    match polled.result {
        TaskResult::Failed(text) => assert_eq!(
            text,
            "ERROR: Detected failed child proc(s) for migrate task on file \"migrate/pod1/a.list\""
        ),
        _ => panic!("expected a failure"),
    }
    assert!(table.is_empty());
    let cleanup = polled.cleanup.unwrap();
    assert!(matches!(cleanup.taskfile, TaskfileCleanup::Archive { .. }));
    assert!(matches!(cleanup.subtasks[0].output, OutputCleanup::Remove(_)));
    assert!(matches!(cleanup.subtasks[1].output, OutputCleanup::Relocate { .. }));
}

#[test]
fn poll_kills_a_silent_process() {
    let config = config();
    let mut table = ObjTable::new();
    let mut limit = 2;
    let task = grab(&config, "in/migrate/pod1/a.list", 0);
    let task = filtered(task.filter(&lines(&["a 1", "b 2"]), &mut table, &config, at(2)));
    let (result, _) = launch_all(task, &mut limit, &mut table, &config);
    assert_eq!(limit, 0);
    // the first has written 29 s ago, the second 30 s ago: the timeout is 30 s
    let mut looks = seen(ChildStatus::Running, 2);
    looks[0].since_update = Some(Duration { secs: 29, nanos: 999_999_999 });
    looks[1].since_update = Some(at(30));
    let polled = running(result).poll(&mut limit, &looks, &mut table, &config);
    assert_eq!(polled.kills, vec![1001]);
    assert_eq!(limit, 1);
    let task = match polled.result {
        TaskResult::Unchanged(task) => task,
        _ => panic!("expected to run on"),
    };
    assert_eq!(task.subtasks()[0].child, TaskChild::Child(1000));
    assert_eq!(task.subtasks()[1].child, TaskChild::Complete(-1));
    // the output of the killed process is kept
    let plans = task.release(&mut table, &config);
    assert_eq!(plans.subtasks[0].kill, Some(1000));
    assert_eq!(plans.subtasks[1].kill, None);
    let stamp = stamp_text(&wall(0)).unwrap();
    match &plans.subtasks[1].output {
        OutputCleanup::Relocate { from, to } => {
            assert_eq!(*from, format!("proc/host1/PID42/{stamp}/subtask.1/output"));
            assert_eq!(*to, format!("log/failure/host1/PID42/{stamp}/subtask.1/output"));
        }
        other => panic!("{other:?}"),
    }
}

#[test]
fn check_fails_where_the_result_cannot_be_looked_for() {
    let config = config();
    let mut table = ObjTable::new();
    let mut limit = 2;
    let task = grab(&config, "in/migrate/pod1/a.list", 0);
    let task = filtered(task.filter(&lines(&["a 1"]), &mut table, &config, at(2)));
    let (result, _) = launch_all(task, &mut limit, &mut table, &config);
    let polled =
        running(result).poll(&mut limit, &seen(ChildStatus::Exited(Some(0)), 1), &mut table, &config);
    let task = match polled.result {
        TaskResult::Transformed(promotion) => promotion.confirm(at(30)),
        _ => panic!("expected success"),
    };
    let checked =
        task.check(FileProbe::Unknown("permission denied".to_string()), &mut table, &config, at(31));
    match checked.result {
        TaskResult::Failed(text) => assert_eq!(
            text,
            "ERROR: Failed to retrieve metadata from taskfile \"out/success/migrate/pod1/a.list\": \
             permission denied"
        ),
        _ => panic!("expected a failure"),
    }
    assert!(table.is_empty());
    assert!(matches!(checked.cleanup.unwrap().taskfile, TaskfileCleanup::Delete(_)));
}

#[test]
fn promotion_can_be_given_up() {
    let config = config();
    let mut table = ObjTable::new();
    let mut limit = 2;
    let task = grab(&config, "in/migrate/pod1/a.list", 0);
    let task = filtered(task.filter(&lines(&["a 1"]), &mut table, &config, at(2)));
    let (result, _) = launch_all(task, &mut limit, &mut table, &config);
    let polled =
        running(result).poll(&mut limit, &seen(ChildStatus::Exited(Some(0)), 1), &mut table, &config);
    let cleanup = match polled.result {
        TaskResult::Transformed(promotion) => promotion.abandon(&mut table, &config),
        _ => panic!("expected success"),
    };
    assert!(table.is_empty());
    match cleanup.taskfile {
        TaskfileCleanup::Archive { from, to } => {
            assert_eq!(from, "in/migrate/pod1/a.list");
            assert_eq!(to, "out/failure/migrate/pod1/a.list");
        }
        other => panic!("{other:?}"),
    }
}
