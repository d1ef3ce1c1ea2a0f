use marchive::cleanup::{leftover_action, output_cleanup_due, search_step, LeftoverAction, SearchStep};
use marchive::config::parsing::{ConfigHost, ConfigOptions, ConfigTask, ParsedConfig};
use marchive::config::Config;
use marchive::format::Duration;
use marchive::processing::PathError;
use marchive::scan::{
    is_flushable, is_segment_dir, leaf_action, oldest_changed, oldest_left, push_action,
    utilization, LeafAction, Ops, PushAction, PushRecord,
};
use marchive::template::Patterns;

fn at(secs: u64) -> Duration {
    Duration { secs, nanos: 0 }
}

fn config() -> Config {
    let written = ParsedConfig {
        options: ConfigOptions {
            status_frequency: "1m".to_string(),
            cleanup_frequency: "1h".to_string(),
            scan_frequency: "10s".to_string(),
            filter_frequency: "5s".to_string(),
            poll_frequency: "1s".to_string(),
            check_frequency: "1s".to_string(),
            task_parallelism: 2,
            hard_timeout: "1h".to_string(),
            cleanup_timeout: "2d".to_string(),
            root: "/marchive".to_string(),
            input_subdir: "in".to_string(),
            processing_subdir: "proc".to_string(),
            output_success_subdir: "out/success".to_string(),
            output_failure_subdir: "out/failure".to_string(),
            logged_failure_subdir: "log/failure".to_string(),
            task_file_path: "{task}/{_}".to_string(),
            task_file_content: "{object}".to_string(),
        },
        hosts: vec![ConfigHost {
            name: "host1".to_string(),
            pods: None,
            blocks: None,
            caps: None,
            scatters: None,
        }],
        tasks: vec![ConfigTask {
            name: "migrate".to_string(),
            command: "migrate {file}".to_string(),
            file_format: "{object}".to_string(),
            overrides: None,
            conflicts: None,
            timeout: None,
        }],
    };
    Config::from((written, "host1".to_string()), Patterns::new().unwrap()).unwrap()
}

#[test]
fn segment_names_are_a_name_and_a_number() {
    assert!(is_segment_dir("pod0", 0));
    assert!(is_segment_dir("pod4294967295", 0));
    assert!(is_segment_dir("block12", 1));
    assert!(is_segment_dir("cap+3", 2));
    assert!(is_segment_dir("scat007", 3));
    assert!(!is_segment_dir("pod", 0));
    assert!(!is_segment_dir("poda", 0));
    assert!(!is_segment_dir("apod1", 0));
    assert!(!is_segment_dir("pod1", 1));
    assert!(!is_segment_dir("pod4294967296", 0));
    assert!(!is_segment_dir("scatter1", 3));
    assert!(!is_segment_dir("po\u{e9}1", 0));
    assert!(!is_segment_dir("", 2));
}

#[test]
fn utilization_is_the_share_in_use() {
    assert_eq!(utilization(100, 100), Some(0));
    assert_eq!(utilization(0, 100), Some(100));
    assert_eq!(utilization(1, 3), Some(67));
    assert_eq!(utilization(2, 3), Some(34));
    assert_eq!(utilization(999, 1000), Some(1));
    assert_eq!(utilization(u64::MAX, u64::MAX), Some(0));
    assert_eq!(utilization(u64::MAX / 2, u64::MAX), Some(51));
    assert_eq!(utilization(0, 0), None);
    assert_eq!(utilization(5, 4), None);
}

#[test]
fn files_older_than_the_limit_are_flushed() {
    let reftime = at(86_400);
    assert!(!is_flushable(&reftime, &at(86_399), 2));
    assert!(!is_flushable(&reftime, &at(86_398), 2));
    assert!(is_flushable(&reftime, &Duration { secs: 86_397, nanos: 999_999_999 }, 2) == false);
    assert!(is_flushable(&reftime, &at(86_397), 2));
    assert!(is_flushable(&reftime, &at(0), 2));
    assert!(is_flushable(&reftime, &at(86_399), 0));
    assert!(!is_flushable(&reftime, &at(86_400), 0));
    assert!(!is_flushable(&reftime, &at(86_401), 0));
}

#[test]
fn leaf_action_flushes_before_it_pushes() {
    let both = Ops { flush: true, push: true, force: false };
    assert_eq!(leaf_action(&both, &at(50), &at(10), 100, 60), LeafAction::Flush);
    assert_eq!(leaf_action(&both, &at(50), &at(10), 60, 60), LeafAction::Push);
    assert_eq!(leaf_action(&both, &at(5), &at(10), 100, 60), LeafAction::Push);
    let forced = Ops { force: true, ..both };
    assert_eq!(leaf_action(&forced, &at(5), &at(10), 0, 60), LeafAction::Flush);
    let push = Ops { flush: false, push: true, force: true };
    assert_eq!(leaf_action(&push, &at(50), &at(10), 100, 60), LeafAction::Push);
    let flush = Ops { flush: true, push: false, force: false };
    assert_eq!(leaf_action(&flush, &at(50), &at(10), 1, 60), LeafAction::Nothing);
    assert_eq!(leaf_action(&flush, &at(10), &at(10), 61, 60), LeafAction::Flush);
}

#[test]
fn the_oldest_file_left_is_followed() {
    assert_eq!(oldest_left(at(100), at(50), false), at(50));
    assert_eq!(oldest_left(at(100), at(50), true), at(100));
    assert_eq!(oldest_left(at(100), at(150), false), at(100));
    assert!(oldest_changed(&at(50), &at(10), &at(1_000)));
    assert!(!oldest_changed(&at(50), &at(50), &at(1_000)));
    assert!(!oldest_changed(&at(1_000), &at(10), &at(1_000)));
}

#[test]
fn push_goes_by_the_record() {
    assert_eq!(push_action(PushRecord::Inserted, &at(5), false), PushAction::Send);
    assert_eq!(push_action(PushRecord::Unreadable, &at(5), false), PushAction::Send);
    assert_eq!(push_action(PushRecord::Known(4), &at(5), false), PushAction::UpdateAndSend);
    assert_eq!(
        push_action(PushRecord::Known(5), &Duration { secs: 5, nanos: 1 }, false),
        PushAction::UpdateAndSend
    );
    assert_eq!(push_action(PushRecord::Known(5), &at(5), false), PushAction::Nothing);
    assert_eq!(push_action(PushRecord::Known(5), &at(5), true), PushAction::Send);
    assert_eq!(push_action(PushRecord::Known(6), &at(5), true), PushAction::Send);
}

#[test]
fn search_finds_the_directory_of_the_host() {
    let config = config();
    assert_eq!(search_step(&config, "proc/host1", true), SearchStep::Found);
    assert_eq!(search_step(&config, "proc/host1", false), SearchStep::Found);
    assert_eq!(search_step(&config, "proc/host2", true), SearchStep::Omit);
    assert_eq!(
        search_step(&config, "proc/host2", false),
        SearchStep::Report(PathError::OutsideHost)
    );
    assert_eq!(search_step(&config, "proc/host1/PID7", true), SearchStep::Unexpected);
    assert_eq!(
        search_step(&config, "elsewhere/x", false),
        SearchStep::Report(PathError::OutsideProcessing)
    );
}

#[test]
fn leftovers_are_removed_or_put_away() {
    let config = config();
    let t = "2023-11-14T22:13:20+00:00";
    let action = |rest: &str, is_file: bool| {
        leftover_action(&config, &format!("proc/host1/PID7/{t}{rest}"), is_file).unwrap()
    };
    assert!(matches!(action("", false), LeftoverAction::RemoveDir));
    assert!(matches!(action("/original/migrate", false), LeftoverAction::RemoveDir));
    match action("/original/migrate/list", true) {
        LeftoverAction::Archive(to) => assert_eq!(to, "out/failure/migrate/list"),
        other => panic!("{other:?}"),
    }
    assert!(matches!(action("/filtered", true), LeftoverAction::RemoveFile));
    assert!(matches!(action("/subtask.3", false), LeftoverAction::RemoveDir));
    assert!(matches!(action("/subtask.3/input", true), LeftoverAction::RemoveFile));
    assert!(matches!(action("/subtask.3/output", true), LeftoverAction::RemoveFile));
    assert!(matches!(
        leftover_action(&config, "proc/host1", false),
        Ok(LeftoverAction::RemoveDir)
    ));
    assert_eq!(
        leftover_action(&config, "proc/host1/junk", true).err(),
        Some(PathError::NoPidPrefix)
    );
}

#[test]
fn output_is_cleaned_up_after_the_timeout() {
    let config = config();
    assert!(!output_cleanup_due(&config, &Duration { secs: 172_799, nanos: 999_999_999 }));
    assert!(output_cleanup_due(&config, &at(172_800)));
    assert!(output_cleanup_due(&config, &at(999_999)));
    assert!(!output_cleanup_due(&config, &at(0)));
}
