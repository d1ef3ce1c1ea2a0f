use marchive::config::parsing::{ConfigHost, ConfigOptions, ConfigTask, ParsedConfig};
use marchive::config::Config;
use marchive::format::Duration;
use marchive::objtable::ObjTable;
use marchive::report::status_text;
use marchive::runner::{OpTimes, Runner, RunnerStatus, RunnerTimes, TaskTimes, TASKCOUNT};
use marchive::subtask::{ChildObservation, ChildStatus};
use marchive::task::run::{FileProbe, LaunchStep};
use marchive::task::{Grab, Task, TaskComplete, TaskFiltered, TaskGrabbed, TaskResult, TaskRunning, Times};
use marchive::template::Patterns;

fn config() -> Config {
    let written = ParsedConfig {
        options: ConfigOptions {
            status_frequency: "1m".to_string(),
            cleanup_frequency: "1h".to_string(),
            scan_frequency: "10s".to_string(),
            filter_frequency: "5s".to_string(),
            poll_frequency: "1s".to_string(),
            check_frequency: "1s".to_string(),
            task_parallelism: 2,
            hard_timeout: "1h".to_string(),
            cleanup_timeout: "2d".to_string(),
            root: "/marchive".to_string(),
            input_subdir: "in".to_string(),
            processing_subdir: "proc".to_string(),
            output_success_subdir: "out/success".to_string(),
            output_failure_subdir: "out/failure".to_string(),
            logged_failure_subdir: "log/failure".to_string(),
            task_file_path: "{task}/{_}".to_string(),
            task_file_content: "{object}".to_string(),
        },
        hosts: vec![ConfigHost {
            name: "host1".to_string(),
            pods: None,
            blocks: None,
            caps: None,
            scatters: None,
        }],
        tasks: vec![ConfigTask {
            name: "migrate".to_string(),
            command: "migrate {file}".to_string(),
            file_format: "{object}".to_string(),
            overrides: None,
            conflicts: None,
            timeout: None,
        }],
    };
    Config::from((written, "host1".to_string()), Patterns::new().unwrap()).unwrap()
}

fn at(secs: u64) -> Duration {
    Duration { secs, nanos: 0 }
}

fn millis(n: u64) -> Duration {
    Duration::from_millis(n)
}

fn grab(config: &Config, name: &str, detected: u64) -> Task<TaskGrabbed> {
    let stamp = Duration { secs: 1_700_000_000 + detected, nanos: 0 };
    match Task::new(format!("in/migrate/{name}"), config, 42, stamp, at(detected)) {
        Grab::Taken(task) => task,
        _ => panic!("no task"),
    }
}

fn filtered(task: Task<TaskGrabbed>, table: &mut ObjTable, config: &Config) -> Task<TaskFiltered> {
    match task.filter(&Vec::new(), table, config, at(2)).result {
        TaskResult::Transformed(task) => task,
        _ => panic!("not filtered"),
    }
}

fn running(task: Task<TaskFiltered>, table: &mut ObjTable, config: &Config) -> Task<TaskRunning> {
    let mut limit = 1;
    match task.launch(&mut limit, &Vec::new(), table, config, at(3)).step {
        LaunchStep::Done(TaskResult::Transformed(task)) => task,
        _ => panic!("not running"),
    }
}

fn complete(task: Task<TaskRunning>, table: &mut ObjTable, config: &Config) -> Task<TaskComplete> {
    let mut limit = 1;
    let seen: Vec<ChildObservation> = Vec::new();
    match task.poll(&mut limit, &seen, table, config).result {
        TaskResult::Transformed(promotion) => promotion.confirm(at(4)),
        _ => panic!("not complete"),
    }
}

#[test]
fn op_times_follow_longest_shortest_and_average() {
    let mut times = OpTimes::new();
    let mut count = 0;
    times.update(&mut count, millis(30));
    assert_eq!(count, 1);
    assert_eq!(times, OpTimes { longest: millis(30), shortest: millis(30), average: millis(30) });
    times.update(&mut count, millis(10));
    assert_eq!(count, 2);
    assert_eq!(times, OpTimes { longest: millis(30), shortest: millis(10), average: millis(20) });
    times.update(&mut count, millis(50));
    assert_eq!(count, 3);
    assert_eq!(times, OpTimes { longest: millis(50), shortest: millis(10), average: millis(30) });
    times.update(&mut count, Duration { secs: 0, nanos: 0 });
    assert_eq!(count, 4);
    assert_eq!(
        times,
        OpTimes {
            longest: millis(50),
            shortest: Duration { secs: 0, nanos: 0 },
            average: Duration { secs: 0, nanos: 22_500_000 }
        }
    );
    // a shortest time of zero stands for none
    times.update(&mut count, millis(40));
    assert_eq!(times.shortest, millis(40));
    assert_eq!(times.average, millis(26));
}

#[test]
fn op_times_stop_counting_at_the_largest_count() {
    let mut times = OpTimes::new();
    let mut count = u32::MAX;
    times.update(&mut count, at(8));
    assert_eq!(count, u32::MAX);
    assert_eq!(times.average, Duration { secs: 0, nanos: 1 });
}

#[test]
fn record_task_counts_by_kind() {
    let mut times = RunnerTimes::new();
    let done = Times {
        detected: Some(at(1)),
        filtered: Some(at(2)),
        started: Some(at(4)),
        completed: Some(at(10)),
        cleaned: Some(at(30)),
    };
    times.record_task("migrate".to_string(), &done);
    assert_eq!(times.tasks.len(), 1);
    assert_eq!(times.tasks[0].name, "migrate");
    assert_eq!(times.tasks[0].count, 1);
    assert_eq!(
        times.tasks[0].times,
        TaskTimes {
            waiting: OpTimes { longest: at(3), shortest: at(3), average: at(3) },
            running: OpTimes { longest: at(6), shortest: at(6), average: at(6) },
            resting: OpTimes { longest: at(20), shortest: at(20), average: at(20) },
        }
    );
    times.record_task("purge".to_string(), &done);
    let quick = Times { started: Some(at(2)), completed: Some(at(4)), cleaned: Some(at(4)), ..done };
    times.record_task("migrate".to_string(), &quick);
    assert_eq!(times.tasks.len(), 2);
    assert_eq!(times.tasks[1].name, "purge");
    assert_eq!(times.tasks[1].count, 1);
    assert_eq!(times.tasks[0].count, 2);
    assert_eq!(
        times.tasks[0].times,
        TaskTimes {
            waiting: OpTimes { longest: at(3), shortest: at(1), average: at(2) },
            running: OpTimes { longest: at(6), shortest: at(2), average: at(4) },
            resting: OpTimes { longest: at(20), shortest: at(0), average: at(10) },
        }
    );
}

#[test]
fn new_runner_is_idle() {
    let runner = Runner::new(at(7));
    assert_eq!(runner.current_status(), RunnerStatus::Idle(at(7)));
    assert!(!runner.is_overloaded());
    assert!(!runner.has_active_tasks());
    assert_eq!(runner.capacity(), TASKCOUNT);
    assert_eq!(TASKCOUNT, 4096);
}

#[test]
fn runner_names_its_directories() {
    let config = config();
    assert_eq!(Runner::process_dir(&config, 42), "proc/host1/PID42");
    assert_eq!(Runner::host_dir(&config), "proc/host1");
}

#[test]
fn scan_takes_tasks_and_wakes_the_runner() {
    let config = config();
    let mut runner = Runner::new(at(0));
    assert!(!runner.scan_for_inputs(Vec::new(), millis(5)));
    assert_eq!(runner.current_status(), RunnerStatus::Idle(at(0)));
    let found = vec![grab(&config, "a", 11), grab(&config, "b", 12)];
    assert!(runner.scan_for_inputs(found, millis(15)));
    assert_eq!(runner.current_status(), RunnerStatus::Working(at(11)));
    assert!(runner.has_active_tasks());
    assert_eq!(runner.capacity(), TASKCOUNT - 2);
    assert!(runner.scan_for_inputs(vec![grab(&config, "c", 13)], millis(10)));
    assert_eq!(runner.current_status(), RunnerStatus::Working(at(11)));
    let times = runner.report();
    assert_eq!(times.scan.0, 3);
    assert_eq!(
        times.scan.1,
        OpTimes { longest: millis(15), shortest: millis(5), average: millis(10) }
    );
    assert_eq!(runner.report().scan.0, 0);
    assert_eq!(runner.filter_tasks().len(), 3);
    assert!(!runner.has_active_tasks());
}

#[test]
fn scan_that_fills_the_runner_overloads_it() {
    let config = config();
    let mut runner = Runner::new(at(0));
    let mut found = Vec::new();
    for i in 0..TASKCOUNT as u64 {
        found.push(grab(&config, "a", i + 1));
    }
    assert!(runner.scan_for_inputs(found, millis(1)));
    assert_eq!(runner.capacity(), 0);
    assert!(runner.is_overloaded());
    assert_eq!(runner.current_status(), RunnerStatus::Overloaded(at(TASKCOUNT as u64)));
}

#[test]
fn tasks_move_from_stage_to_stage() {
    let config = config();
    let mut table = ObjTable::new();
    let mut runner = Runner::new(at(0));
    runner.scan_for_inputs(vec![grab(&config, "a", 1), grab(&config, "b", 1)], millis(1));
    let mut new = runner.filter_tasks();
    let second = new.pop().unwrap();
    let first = new.pop().unwrap();
    runner.filtered(TaskResult::Unchanged(first), millis(2));
    runner.filtered(TaskResult::Transformed(filtered(second, &mut table, &config)), millis(4));
    runner.filtered(TaskResult::Failed("gone".to_string()), millis(6));
    assert_eq!(runner.filter_tasks().len(), 1);
    let mut waiting = runner.launch_tasks();
    assert_eq!(waiting.len(), 1);
    let task = running(waiting.pop().unwrap(), &mut table, &config);
    runner.launched(TaskResult::Transformed(task), millis(3));
    runner.launch_done(1, at(5));
    assert_eq!(runner.current_status(), RunnerStatus::Working(at(1)));
    assert_eq!(runner.launch_tasks().len(), 0);
    let mut run = runner.poll_tasks();
    assert_eq!(run.len(), 1);
    let task = complete(run.pop().unwrap(), &mut table, &config);
    runner.polled(TaskResult::Transformed(task), millis(1), 2, 2, at(6));
    assert_eq!(runner.current_status(), RunnerStatus::Working(at(1)));
    let mut resting = runner.check_tasks();
    assert_eq!(resting.len(), 1);
    let checked = resting.pop().unwrap().check(FileProbe::Absent, &mut table, &config, at(9));
    runner.checked(checked.result, millis(1), at(9));
    assert!(runner.check_done());
    assert_eq!(runner.current_status(), RunnerStatus::Idle(at(9)));
    let times = runner.report();
    assert_eq!(times.filter.0, 3);
    assert_eq!(times.filter.1.average, millis(4));
    assert_eq!(times.launch.0, 1);
    assert_eq!(times.poll.0, 1);
    assert_eq!(times.check.0, 1);
    assert_eq!(times.tasks.len(), 1);
    assert_eq!(times.tasks[0].name, "migrate");
    assert_eq!(times.tasks[0].times.resting.longest, at(5));
}

#[test]
fn a_runner_without_budget_is_busy() {
    let mut runner = Runner::new(at(0));
    runner.launch_done(3, at(1));
    assert_eq!(runner.current_status(), RunnerStatus::Idle(at(0)));
    runner.launch_done(0, at(2));
    assert_eq!(runner.current_status(), RunnerStatus::Busy(at(2)));
    runner.launch_done(0, at(3));
    assert_eq!(runner.current_status(), RunnerStatus::Busy(at(2)));
}

#[test]
fn a_failed_task_frees_the_runner() {
    let config = config();
    let mut runner = Runner::new(at(0));
    runner.launch_done(0, at(2));
    // some budget is still in use: working again
    runner.polled(TaskResult::Failed("gone".to_string()), millis(1), 1, 2, at(3));
    assert_eq!(runner.current_status(), RunnerStatus::Working(at(3)));
    // all the budget is back and nothing is left: idle
    runner.polled(TaskResult::Failed("gone".to_string()), millis(1), 2, 2, at(4));
    assert_eq!(runner.current_status(), RunnerStatus::Idle(at(4)));
    runner.polled(TaskResult::Failed("gone".to_string()), millis(1), 2, 2, at(5));
    assert_eq!(runner.current_status(), RunnerStatus::Idle(at(4)));
    // with a task in another stage the runner is not idle
    runner.scan_for_inputs(vec![grab(&config, "a", 6)], millis(1));
    runner.launch_done(0, at(7));
    runner.polled(TaskResult::Failed("gone".to_string()), millis(1), 2, 2, at(8));
    assert_eq!(runner.current_status(), RunnerStatus::Working(at(8)));
}

#[test]
fn check_done_tells_whether_a_task_ended() {
    let config = config();
    let mut table = ObjTable::new();
    let mut runner = Runner::new(at(0));
    assert_eq!(runner.check_tasks().len(), 0);
    assert!(!runner.check_done());
    let task = complete(
        running(filtered(grab(&config, "a", 1), &mut table, &config), &mut table, &config),
        &mut table,
        &config,
    );
    runner.checked(TaskResult::Unchanged(task), millis(1), at(5));
    assert!(!runner.check_done());
    runner.launch_done(0, at(6));
    runner.checked(TaskResult::Failed("gone".to_string()), millis(1), at(7));
    assert!(runner.check_done());
    // a task still rests: working, not idle
    assert_eq!(runner.current_status(), RunnerStatus::Working(at(7)));
    assert_eq!(runner.check_tasks().len(), 1);
    assert!(!runner.check_done());
}

#[test]
fn status_of_an_idle_runner() {
    let runner = Runner::new(at(3));
    let text = status_text(&runner, &RunnerTimes::new(), &at(3_603));
    assert_eq!(text, "Running for 1h:00m:00s\nIdle for 1h:00m:00s\n");
}

#[test]
fn status_tells_stages_and_times() {
    let config = config();
    let mut table = ObjTable::new();
    let mut runner = Runner::new(at(0));
    runner.scan_for_inputs(
        vec![grab(&config, "a", 10), grab(&config, "b", 10), grab(&config, "c", 10)],
        millis(1_500),
    );
    let mut new = runner.filter_tasks();
    let task = filtered(new.pop().unwrap(), &mut table, &config);
    runner.filtered(TaskResult::Transformed(task), millis(20));
    runner.filtered(TaskResult::Unchanged(new.pop().unwrap()), millis(40));
    runner.filtered(TaskResult::Unchanged(new.pop().unwrap()), Duration { secs: 61, nanos: 0 });
    let mut times = runner.report();
    times.record_task(
        "migrate".to_string(),
        &Times {
            detected: Some(at(1)),
            filtered: Some(at(2)),
            started: Some(at(4)),
            completed: Some(at(10)),
            cleaned: Some(at(30)),
        },
    );
    times.record_task(
        "purge".to_string(),
        &Times {
            detected: Some(at(0)),
            filtered: Some(at(0)),
            started: Some(at(0)),
            completed: Some(at(0)),
            cleaned: Some(Duration { secs: 0, nanos: 7_000_000 }),
        },
    );
    let text = status_text(&runner, &times, &Duration { secs: 75, nanos: 0 });
    let expected = "\
Running for 1m:15s
Working for 1m:05s
Active Tasks:
    2 New
    1 Filtered
Times:
    1 Scans: { average: 1s, longest: 1s, shortest: 1s }
    3 Filters: { average: 20s, longest: 1m:01s, shortest: 20ms }
    Completed Tasks:
        1 \"migrate\" Tasks:
            Waiting: { average: 3s, longest: 3s, shortest: 3s }
            Running: { average: 6s, longest: 6s, shortest: 6s }
            Resting: { average: 20s, longest: 20s, shortest: 20s }
        1 \"purge\" Tasks:
            Waiting: { average: 0ms, longest: 0ms, shortest: 0ms }
            Running: { average: 0ms, longest: 0ms, shortest: 0ms }
            Resting: { average: 7ms, longest: 7ms, shortest: 7ms }";
    assert_eq!(text, expected);
}

#[test]
fn status_without_scans_or_tasks_tells_no_times() {
    let mut runner = Runner::new(at(0));
    runner.checked(TaskResult::Failed("gone".to_string()), millis(1), at(1));
    let times = runner.report();
    assert_eq!(times.check.0, 1);
    assert_eq!(
        status_text(&runner, &times, &Duration { secs: 0, nanos: 250_000_000 }),
        "Running for 250ms\nIdle for 250ms\n"
    );
}
