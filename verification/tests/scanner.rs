use marchive::format::Duration;
use marchive::scanner::{Config, LineError};
use marchive::text::IntErrorKind;

fn now() -> Duration {
    let since = std::time::SystemTime::now().duration_since(std::time::UNIX_EPOCH).unwrap();
    Duration::new(since.as_secs(), since.subsec_nanos())
}

#[test]
fn set_reftime() {
    let mut config = Config::new();
    config.set_reftime(0);

    assert_eq!(config.reftime(), Duration { secs: 0, nanos: 0 });
}

#[test]
fn newer_reftime() {
    let mut config = Config::new();
    config.set_reftime(0);

    assert_eq!(config.file_age(&now()).is_none(), true);
}

#[test]
fn config_user_threshold_good_single() {
    let mut config = Config::new();
    config.add_to_threshold("1,1").unwrap();

    assert_eq!(config.thresholds().len(), 3);
    assert_eq!(config.thresholds().get(&1), Some(&1));
}

#[test]
fn config_user_threshold_good_multiple() {
    let mut config = Config::new();
    config.add_to_threshold("1,2").unwrap();
    config.add_to_threshold("2,1").unwrap();

    assert_eq!(config.thresholds().len(), 4);
    assert_eq!(config.thresholds().get(&1), Some(&2));
    assert_eq!(config.thresholds().get(&2), Some(&1));
}

#[test]
fn config_user_threshold_good_repeat() {
    let mut config = Config::new();
    config.add_to_threshold("0,1").unwrap();

    assert_eq!(config.thresholds().len(), 2);
    assert_eq!(config.thresholds().get(&0), Some(&1));
}

#[test]
fn no_blacklist() {
    let config = Config::new();

    assert_eq!(config.is_blacklisted(""), false);
    assert_eq!(config.is_blacklisted("test"), false);
    assert_eq!(config.is_blacklisted("match"), false);
    assert_eq!(config.is_blacklisted("matching"), false);
}

#[test]
fn blacklist() {
    let mut config = Config::new();
    config.add_to_blacklist("^match.+$").unwrap();

    assert_eq!(config.is_blacklisted(""), false);
    assert_eq!(config.is_blacklisted("test"), false);
    assert_eq!(config.is_blacklisted("match"), false);
    assert_eq!(config.is_blacklisted("matching"), true);
}

#[test]
fn empty_config() {
    let config = Config::new();

    assert_eq!(config.thresholds().len(), 2);
    assert_eq!(config.blacklist().len(), 0);
}

#[test]
fn example_config() {
    let lines = [
        "# reference time and thresholds of an example",
        "",
        "reftime: 0",
        "threshold: 10,90",
        "threshold:20, 80",
        "threshold : 30 ,70",
        "threshold: 40,60",
        "threshold: 50,50",
        "threshold: 60,40",
        "threshold: 70,30",
        "threshold: 80,20",
        "threshold: 90,10",
        "blacklist: ^push\\.db$",
    ];
    let mut config = Config::new();
    for line in lines {
        config.process_line(line).unwrap();
    }
    assert!(config.verify_thresholds());

    assert_eq!(config.reftime(), Duration { secs: 0, nanos: 0 });

    assert_eq!(config.thresholds().len(), 11);

    // get raw values
    assert_eq!(config.thresholds().get(&000), Some(&u64::MAX));
    assert_eq!(config.thresholds().get(&010), Some(&90));
    assert_eq!(config.thresholds().get(&020), Some(&80));
    assert_eq!(config.thresholds().get(&030), Some(&70));
    assert_eq!(config.thresholds().get(&040), Some(&60));
    assert_eq!(config.thresholds().get(&050), Some(&50));
    assert_eq!(config.thresholds().get(&060), Some(&40));
    assert_eq!(config.thresholds().get(&070), Some(&30));
    assert_eq!(config.thresholds().get(&080), Some(&20));
    assert_eq!(config.thresholds().get(&090), Some(&10));
    assert_eq!(config.thresholds().get(&100), Some(&00));

    // get file age given utilization
    assert_eq!(config.util2age(00), u64::MAX);
    assert_eq!(config.util2age(05), 90);
    assert_eq!(config.util2age(15), 80);
    assert_eq!(config.util2age(25), 70);
    assert_eq!(config.util2age(35), 60);
    assert_eq!(config.util2age(45), 50);
    assert_eq!(config.util2age(55), 40);
    assert_eq!(config.util2age(65), 30);
    assert_eq!(config.util2age(75), 20);
    assert_eq!(config.util2age(85), 10);
    assert_eq!(config.util2age(95), 00);

    assert_eq!(config.blacklist().len(), 1);
    assert!(config.is_blacklisted("push.db"));
    assert!(!config.is_blacklisted("push_db"));
}

#[test]
fn process_line_reports_each_fault() {
    let fault = |line: &str| Config::new().process_line(line);
    assert_eq!(fault("bad label"), Err(LineError::NoSeparator));
    assert_eq!(fault("bad label: "), Err(LineError::UnknownLabel));
    assert_eq!(fault("Reftime: 1"), Err(LineError::UnknownLabel));
    assert_eq!(fault("reftime: a"), Err(LineError::BadReftime(IntErrorKind::InvalidDigit)));
    assert_eq!(fault("reftime:"), Err(LineError::BadReftime(IntErrorKind::Empty)));
    assert_eq!(fault("threshold:"), Err(LineError::BadPair));
    assert_eq!(fault("threshold: 1,"), Err(LineError::BadAge(IntErrorKind::Empty)));
    assert_eq!(fault("threshold: ,1"), Err(LineError::BadUtilization(IntErrorKind::Empty)));
    assert_eq!(fault("threshold: a,"), Err(LineError::BadUtilization(IntErrorKind::InvalidDigit)));
    assert_eq!(fault("threshold: 200,"), Err(LineError::UtilizationRange(200)));
    assert_eq!(fault("threshold: 300,1"), Err(LineError::BadUtilization(IntErrorKind::PosOverflow)));
    assert_eq!(fault("blacklist: \\"), Err(LineError::BadPattern));
    assert_eq!(fault("# threshold: a"), Ok(()));
    assert_eq!(fault(""), Ok(()));
    assert_eq!(fault(" "), Err(LineError::NoSeparator));
    assert_eq!(fault(" # comment"), Err(LineError::NoSeparator));
}

#[test]
fn process_line_leaves_white_space_out() {
    let mut config = Config::new();
    assert_eq!(config.process_line("\treftime \t:  77 \u{a0}"), Ok(()));
    assert_eq!(config.reftime(), Duration { secs: 77, nanos: 0 });
    assert_eq!(config.process_line("threshold:\u{2003}5 , 6\t"), Ok(()));
    assert_eq!(config.thresholds().get(&5), Some(&6));
    assert_eq!(config.process_line("blacklist:   ^a b$  "), Ok(()));
    assert_eq!(config.blacklist()[0].as_str(), "^a b$");
    assert_eq!(config.process_line("threshold: 5 5,6"), Err(LineError::BadUtilization(IntErrorKind::InvalidDigit)));
}

#[test]
fn verify_thresholds_wants_falling_ages() {
    let mut same = Config::new();
    same.add_to_threshold("10,1").unwrap();
    same.add_to_threshold("20,1").unwrap();
    assert!(!same.verify_thresholds());
    let mut rising = Config::new();
    rising.add_to_threshold("10,1").unwrap();
    rising.add_to_threshold("20,2").unwrap();
    assert!(!rising.verify_thresholds());
    let mut falling = Config::new();
    falling.add_to_threshold("10,2").unwrap();
    falling.add_to_threshold("20,1").unwrap();
    assert!(falling.verify_thresholds());
    assert!(Config::new().verify_thresholds());
}

#[test]
fn file_age_is_measured_from_the_reftime() {
    let mut config = Config::new();
    config.set_reftime(100);
    assert_eq!(
        config.file_age(&Duration { secs: 40, nanos: 500_000_000 }),
        Some(Duration { secs: 59, nanos: 500_000_000 })
    );
    assert_eq!(config.file_age(&Duration { secs: 100, nanos: 0 }), Some(Duration { secs: 0, nanos: 0 }));
    assert_eq!(config.file_age(&Duration { secs: 100, nanos: 1 }), None);
    assert_eq!(config.find_age(101), None);
    assert_eq!(config.find_age(100), Some(0));
}
