use marchive::config::parsing::{ConfigHost, ConfigOptions, ConfigTask, ParsedConfig, TaskListError};
use marchive::config::{Config, ConfigError, Coordinate, OptionField};
use marchive::format::{Duration, DurationError};
use marchive::template::Patterns;

fn options() -> ConfigOptions {
    ConfigOptions {
        status_frequency: "1m".to_string(),
        cleanup_frequency: "1h".to_string(),
        scan_frequency: "10s".to_string(),
        filter_frequency: "5".to_string(),
        poll_frequency: "0.5s".to_string(),
        check_frequency: "2m30s".to_string(),
        task_parallelism: 4,
        hard_timeout: "1d".to_string(),
        cleanup_timeout: "7d".to_string(),
        root: "/marchive".to_string(),
        input_subdir: "in".to_string(),
        processing_subdir: "proc".to_string(),
        output_success_subdir: "out/success".to_string(),
        output_failure_subdir: "out/failure".to_string(),
        logged_failure_subdir: "log/failure".to_string(),
        task_file_path: "{task}/pod{pod}/{_}.list".to_string(),
        task_file_content: "{object} {size}".to_string(),
    }
}

fn task(name: &str, command: &str, file_format: &str) -> ConfigTask {
    ConfigTask {
        name: name.to_string(),
        command: command.to_string(),
        file_format: file_format.to_string(),
        overrides: None,
        conflicts: None,
        timeout: None,
    }
}

fn parsed() -> ParsedConfig {
    ParsedConfig {
        options: options(),
        hosts: vec![
            ConfigHost {
                name: "host0".to_string(),
                pods: None,
                blocks: None,
                caps: None,
                scatters: None,
            },
            ConfigHost {
                name: "host1".to_string(),
                pods: Some(vec![1, 2]),
                blocks: None,
                caps: None,
                scatters: None,
            },
        ],
        tasks: vec![
            ConfigTask {
                overrides: Some(vec!["purge".to_string()]),
                timeout: Some("30s".to_string()),
                ..task("migrate", "migrate --pod {pod} --list {file}", "{object}:{size}")
            },
            ConfigTask {
                conflicts: Some(vec!["migrate".to_string()]),
                ..task("purge", "purge {file} {object}", "{object}")
            },
        ],
    }
}

fn build(parsed: ParsedConfig, host: &str) -> Result<Config, ConfigError> {
    Config::from((parsed, host.to_string()), Patterns::new().unwrap())
}

#[test]
fn from_builds_the_configuration_of_the_host() {
    let config = build(parsed(), "host1").unwrap();
    assert_eq!(config.status_frequency, Duration { secs: 60, nanos: 0 });
    assert_eq!(config.cleanup_frequency, Duration { secs: 3_600, nanos: 0 });
    assert_eq!(config.scan_frequency, Duration { secs: 10, nanos: 0 });
    assert_eq!(config.filter_frequency, Duration { secs: 5, nanos: 0 });
    assert_eq!(config.poll_frequency, Duration { secs: 0, nanos: 500_000_000 });
    assert_eq!(config.check_frequency, Duration { secs: 150, nanos: 0 });
    assert_eq!(config.task_parallelism, 4);
    assert_eq!(config.hard_timeout, Duration { secs: 86_400, nanos: 0 });
    assert_eq!(config.cleanup_timeout, Duration { secs: 604_800, nanos: 0 });
    assert_eq!(config.input_subdir, "in");
    assert_eq!(config.processing_subdir, "proc");
    assert_eq!(config.output_success_subdir, "out/success");
    assert_eq!(config.output_failure_subdir, "out/failure");
    assert_eq!(config.logged_failure_subdir, "log/failure");
    assert_eq!(config.host, "host1");
    assert_eq!(config.pods, Some(vec![1, 2]));
    assert_eq!(config.blocks, None);
    assert_eq!(config.caps, None);
    assert_eq!(config.scatters, None);
}

#[test]
fn from_turns_templates_into_expressions() {
    let config = build(parsed(), "host1").unwrap();
    assert_eq!(config.task_path_values, vec!["pod"]);
    assert_eq!(
        config.task_path_regex.as_str(),
        "^(?<task>[^/\\s]+)/pod(?<pod>\\d+)/[^/\\s]+\\.list$"
    );
    assert_eq!(config.task_content_values, vec!["object", "size"]);
    assert_eq!(
        config.task_content_regex.as_str(),
        "^(?<object>[^/\\s]+) (?<size>[^/\\s]+)$"
    );
    assert_eq!(config.braced_name_regex.as_str(), "\\{(?<name>\\w+)\\}");
    let path = regex::Regex::new(config.task_path_regex.as_str()).unwrap();
    assert!(path.is_match("migrate/pod12/x.list"));
    assert!(!path.is_match("migrate/podx/x.list"));
}

#[test]
fn from_builds_each_kind_of_task() {
    let config = build(parsed(), "host1").unwrap();
    assert_eq!(config.tasks.len(), 2);
    let migrate = &config.tasks[0];
    assert_eq!(migrate.name, "migrate");
    assert_eq!(migrate.command, "migrate --pod {pod} --list {file}");
    assert_eq!(migrate.command_values, vec!["pod"]);
    assert_eq!(migrate.file_format, "{object}:{size}");
    assert_eq!(migrate.file_format_values, vec!["object", "size"]);
    assert_eq!(migrate.overrides, vec!["purge"]);
    assert_eq!(migrate.conflicts, Vec::<String>::new());
    assert_eq!(migrate.timeout, Some(Duration { secs: 30, nanos: 0 }));
    let purge = &config.tasks[1];
    assert_eq!(purge.command_values, vec!["object"]);
    assert_eq!(purge.conflicts, vec!["migrate"]);
    assert_eq!(purge.overrides, Vec::<String>::new());
    assert_eq!(purge.timeout, None);
    assert_eq!(config.find_task("purge"), Some(1));
    assert_eq!(config.find_task("migrate"), Some(0));
    assert_eq!(config.find_task("stage"), None);
}

#[test]
fn from_takes_each_restriction_from_its_own_list() {
    let mut written = parsed();
    written.options.task_file_path = "{task}/{pod}/{block}/{cap}/{scatter}".to_string();
    written.hosts[1].blocks = Some(vec![3]);
    written.hosts[1].caps = Some(vec![5, 6]);
    written.hosts[1].scatters = Some(vec![7]);
    let config = build(written, "host1").unwrap();
    assert_eq!(config.pods, Some(vec![1, 2]));
    assert_eq!(config.blocks, Some(vec![3]));
    assert_eq!(config.caps, Some(vec![5, 6]));
    assert_eq!(config.scatters, Some(vec![7]));
    assert_eq!(config.task_path_values, vec!["pod", "block", "cap", "scatter"]);
}

#[test]
fn from_reports_an_unknown_host() {
    assert_eq!(build(parsed(), "host9").err(), Some(ConfigError::UnknownHost));
    assert_eq!(build(parsed(), "").err(), Some(ConfigError::UnknownHost));
    assert!(build(parsed(), "host0").is_ok());
}

#[test]
fn from_reports_faults_of_the_path_template() {
    let with_path = |path: &str| {
        let mut written = parsed();
        written.options.task_file_path = path.to_string();
        build(written, "host1").err()
    };
    assert_eq!(with_path("{task}/{file}/{pod}"), Some(ConfigError::ReservedFileInPath));
    assert_eq!(with_path("{task}/{pod}/{a}/{a}"), Some(ConfigError::DuplicatePathValue));
    assert_eq!(with_path("{pod}/{name}"), Some(ConfigError::MissingTaskValue));
    assert_eq!(with_path("{task}/{name}"), Some(ConfigError::MissingCoordinate(Coordinate::Pod)));
    assert_eq!(with_path("{task}/{task}/{pod}"), Some(ConfigError::PathPatternRefused));
}

#[test]
fn from_reports_each_missing_coordinate() {
    let restricted = |blocks: bool, caps: bool, scatters: bool| {
        let mut written = parsed();
        written.hosts[1].blocks = blocks.then(|| vec![1]);
        written.hosts[1].caps = caps.then(|| vec![1]);
        written.hosts[1].scatters = scatters.then(|| vec![1]);
        build(written, "host1").err()
    };
    assert_eq!(
        restricted(true, true, true),
        Some(ConfigError::MissingCoordinate(Coordinate::Block))
    );
    assert_eq!(restricted(false, true, true), Some(ConfigError::MissingCoordinate(Coordinate::Cap)));
    assert_eq!(
        restricted(false, false, true),
        Some(ConfigError::MissingCoordinate(Coordinate::Scatter))
    );
}

#[test]
fn from_reports_faults_of_the_content_template() {
    let with_content = |content: &str| {
        let mut written = parsed();
        written.options.task_file_content = content.to_string();
        build(written, "host1").err()
    };
    assert_eq!(with_content("{object} {file}"), Some(ConfigError::ReservedFileInContent));
    assert_eq!(with_content("{object} {pod}"), Some(ConfigError::DuplicateContentValue));
    assert_eq!(with_content("{object} {object}"), Some(ConfigError::ContentPatternRefused));
}

#[test]
fn from_reports_faults_of_the_tasks() {
    let with_task = |change: &dyn Fn(&mut ConfigTask)| {
        let mut written = parsed();
        change(&mut written.tasks[1]);
        build(written, "host1").err()
    };
    assert_eq!(
        with_task(&|t| t.command = "purge {file} {nothing}".to_string()),
        Some(ConfigError::UnknownCommandValue { task: 1 })
    );
    assert_eq!(
        with_task(&|t| t.command = "purge {task} {file}".to_string()),
        Some(ConfigError::UnknownCommandValue { task: 1 })
    );
    assert_eq!(
        with_task(&|t| t.command = "purge {object}".to_string()),
        Some(ConfigError::CommandWithoutFile { task: 1 })
    );
    assert_eq!(
        with_task(&|t| t.file_format = "{object} {nothing}".to_string()),
        Some(ConfigError::UnknownFormatValue { task: 1 })
    );
    assert_eq!(
        with_task(&|t| t.file_format = "{file}".to_string()),
        Some(ConfigError::UnknownFormatValue { task: 1 })
    );
    assert_eq!(
        with_task(&|t| t.timeout = Some("soon".to_string())),
        Some(ConfigError::BadTimeout { task: 1, error: DurationError::InvalidFormat })
    );
}

#[test]
fn from_reports_the_first_bad_option() {
    let with_option = |change: &dyn Fn(&mut ConfigOptions)| {
        let mut written = parsed();
        change(&mut written.options);
        build(written, "host1").err()
    };
    let bad = |field| Some(ConfigError::BadOption { field, error: DurationError::InvalidFormat });
    assert_eq!(with_option(&|o| o.status_frequency = "x".into()), bad(OptionField::StatusFrequency));
    assert_eq!(
        with_option(&|o| o.cleanup_frequency = "x".into()),
        bad(OptionField::CleanupFrequency)
    );
    assert_eq!(with_option(&|o| o.scan_frequency = "x".into()), bad(OptionField::ScanFrequency));
    assert_eq!(with_option(&|o| o.filter_frequency = "x".into()), bad(OptionField::FilterFrequency));
    assert_eq!(with_option(&|o| o.poll_frequency = "x".into()), bad(OptionField::PollFrequency));
    assert_eq!(with_option(&|o| o.check_frequency = "x".into()), bad(OptionField::CheckFrequency));
    assert_eq!(with_option(&|o| o.hard_timeout = "x".into()), bad(OptionField::HardTimeout));
    assert_eq!(with_option(&|o| o.cleanup_timeout = "x".into()), bad(OptionField::CleanupTimeout));
    assert_eq!(
        with_option(&|o| {
            o.cleanup_timeout = "x".into();
            o.scan_frequency = "99999999999999999999".into();
        }),
        Some(ConfigError::BadOption {
            field: OptionField::ScanFrequency,
            error: DurationError::TooLarge
        })
    );
}

#[test]
fn check_tasks_accepts_tasks_that_fit_together() {
    assert_eq!(parsed().check_tasks(), Ok(()));
    let mut lonely = parsed();
    lonely.tasks.truncate(0);
    assert_eq!(lonely.check_tasks(), Ok(()));
}

#[test]
fn check_tasks_reports_the_first_task_with_a_fault() {
    let mut twice = parsed();
    twice.tasks.push(task("migrate", "x {file}", "{object}"));
    assert_eq!(twice.check_tasks(), Err(TaskListError::DuplicateName { task: 0 }));
    let mut unknown = parsed();
    unknown.tasks[1].overrides = Some(vec!["migrate".to_string(), "stage".to_string()]);
    assert_eq!(unknown.check_tasks(), Err(TaskListError::UnknownOverride { task: 1 }));
    let mut clash = parsed();
    clash.tasks[0].conflicts = Some(vec!["stage".to_string()]);
    clash.tasks[1].overrides = Some(vec!["stage".to_string()]);
    assert_eq!(clash.check_tasks(), Err(TaskListError::UnknownConflict { task: 0 }));
}
