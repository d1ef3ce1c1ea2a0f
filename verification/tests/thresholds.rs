use marchive::text::IntErrorKind;
use marchive::thresholds::{
    find_age, parse_row, parse_user_thresholds, try_parse_user_thresholds, util2age,
    ThresholdError,
};

#[test]
fn tests_user_threshold_good_single() {
    let args = vec!["1,1".to_string()];

    let thresholds = parse_user_thresholds(&args, ',');
    assert_eq!(thresholds.len(), 3);
    assert_eq!(thresholds.get(&1), Some(&1));
}

#[test]
fn tests_user_threshold_good_multiple() {
    let args = vec!["1,2".to_string(), "2,1".to_string()];

    let thresholds = parse_user_thresholds(&args, ',');
    assert_eq!(thresholds.len(), 4);
    assert_eq!(thresholds.get(&1), Some(&2));
    assert_eq!(thresholds.get(&2), Some(&1));
}

#[test]
fn tests_user_threshold_good_repeat() {
    let args = vec![
        "0,1".to_string(), // replaces the default row at 0%
    ];

    let thresholds = parse_user_thresholds(&args, ',');
    assert_eq!(thresholds.len(), 2);
    assert_eq!(thresholds.get(&0), Some(&1));
}

#[test]
fn util2age_good() {
    // low  utilization -> flush older  files
    // high utilization -> flush recent files
    let args = vec![
        "10,90".to_string(),
        "20,80".to_string(),
        "30,70".to_string(),
        "40,60".to_string(),
        "50,50".to_string(),
        "60,40".to_string(),
        "70,30".to_string(),
        "80,20".to_string(),
        "90,10".to_string(),
    ];

    let thresholds = parse_user_thresholds(&args, ',');
    assert_eq!(thresholds.len(), 11);

    assert_eq!(util2age(&thresholds, 05), 90);
    assert_eq!(util2age(&thresholds, 15), 80);
    assert_eq!(util2age(&thresholds, 25), 70);
    assert_eq!(util2age(&thresholds, 35), 60);
    assert_eq!(util2age(&thresholds, 45), 50);
    assert_eq!(util2age(&thresholds, 55), 40);
    assert_eq!(util2age(&thresholds, 65), 30);
    assert_eq!(util2age(&thresholds, 75), 20);
    assert_eq!(util2age(&thresholds, 85), 10);
    assert_eq!(util2age(&thresholds, 95), 00);
}

#[test]
fn util2age_empty() {
    let thresholds = parse_user_thresholds(&vec![], ',');
    assert_eq!(thresholds.len(), 2);
    util2age(&thresholds, 0);
}

#[test]
fn default_rows_cover_both_ends() {
    let thresholds = parse_user_thresholds(&vec![], ',');
    assert_eq!(thresholds.get(&0), Some(&u64::MAX));
    assert_eq!(thresholds.get(&100), Some(&0));
    assert_eq!(util2age(&thresholds, 0), u64::MAX);
    assert_eq!(util2age(&thresholds, 1), 0);
    assert_eq!(util2age(&thresholds, 100), 0);
}

#[test]
fn util2age_exact_row() {
    let thresholds = parse_user_thresholds(&vec!["10,60".to_string(), "20,1".to_string()], ',');
    assert_eq!(util2age(&thresholds, 10), 60);
    assert_eq!(util2age(&thresholds, 11), 1);
    assert_eq!(util2age(&thresholds, 20), 1);
    assert_eq!(util2age(&thresholds, 21), 0);
}

#[test]
fn find_age_above_every_row() {
    let thresholds = parse_user_thresholds(&vec![], ',');
    assert_eq!(find_age(&thresholds, 200), None);
    assert_eq!(find_age(&thresholds, 101), None);
    assert_eq!(find_age(&thresholds, 100), Some(0));
}

#[test]
fn threshold_without_delimiter() {
    assert_eq!(
        try_parse_user_thresholds(&vec!["".to_string()], ','),
        Err(ThresholdError::BadPair { arg: 0 })
    );
    assert_eq!(
        try_parse_user_thresholds(&vec!["1,1".to_string(), "77".to_string()], ','),
        Err(ThresholdError::BadPair { arg: 1 })
    );
}

#[test]
fn threshold_bad_age() {
    assert_eq!(
        try_parse_user_thresholds(&vec!["1,".to_string()], ','),
        Err(ThresholdError::BadAge { arg: 0, kind: IntErrorKind::Empty })
    );
    assert_eq!(
        try_parse_user_thresholds(&vec!["1,1x".to_string()], ','),
        Err(ThresholdError::BadAge { arg: 0, kind: IntErrorKind::InvalidDigit })
    );
    assert_eq!(
        try_parse_user_thresholds(&vec!["1,18446744073709551616".to_string()], ','),
        Err(ThresholdError::BadAge { arg: 0, kind: IntErrorKind::PosOverflow })
    );
}

#[test]
fn threshold_bad_utilization() {
    assert_eq!(
        try_parse_user_thresholds(&vec![",1".to_string()], ','),
        Err(ThresholdError::BadUtilization { arg: 0, kind: IntErrorKind::Empty })
    );
    assert_eq!(
        try_parse_user_thresholds(&vec!["a,".to_string()], ','),
        Err(ThresholdError::BadUtilization { arg: 0, kind: IntErrorKind::InvalidDigit })
    );
    assert_eq!(
        try_parse_user_thresholds(&vec![",a".to_string()], ','),
        Err(ThresholdError::BadUtilization { arg: 0, kind: IntErrorKind::Empty })
    );
    assert_eq!(
        try_parse_user_thresholds(&vec!["256,1".to_string()], ','),
        Err(ThresholdError::BadUtilization { arg: 0, kind: IntErrorKind::PosOverflow })
    );
}

#[test]
fn threshold_utilization_above_100() {
    assert_eq!(
        try_parse_user_thresholds(&vec!["200,".to_string()], ','),
        Err(ThresholdError::UtilizationRange { arg: 0, utilization: 200 })
    );
    assert_eq!(parse_row("100,5", ',', 3), Ok((100, 5)));
    assert_eq!(
        parse_row("101,5", ',', 3),
        Err(ThresholdError::UtilizationRange { arg: 3, utilization: 101 })
    );
}

#[test]
fn threshold_same_ages() {
    assert_eq!(
        try_parse_user_thresholds(&vec!["10,1".to_string(), "20,1".to_string()], ','),
        Err(ThresholdError::NotDecreasing {
            prev_utilization: 10,
            prev_age: 1,
            utilization: 20,
            age: 1
        })
    );
}

#[test]
fn threshold_increasing_ages() {
    assert_eq!(
        try_parse_user_thresholds(&vec!["10,1".to_string(), "20,2".to_string()], ','),
        Err(ThresholdError::NotDecreasing {
            prev_utilization: 10,
            prev_age: 1,
            utilization: 20,
            age: 2
        })
    );
}

#[test]
fn threshold_row_splits_at_first_delimiter() {
    assert_eq!(
        parse_row("1,2,3", ',', 0),
        Err(ThresholdError::BadAge { arg: 0, kind: IntErrorKind::InvalidDigit })
    );
    assert_eq!(parse_row("+7:+9", ':', 0), Ok((7, 9)));
    assert_eq!(
        parse_row("+:9", ':', 0),
        Err(ThresholdError::BadUtilization { arg: 0, kind: IntErrorKind::InvalidDigit })
    );
}

#[test]
fn threshold_later_row_replaces_earlier() {
    let args = vec!["50,9".to_string(), "50,7".to_string()];
    let thresholds = try_parse_user_thresholds(&args, ',').unwrap();
    assert_eq!(thresholds.len(), 3);
    assert_eq!(thresholds.get(&50), Some(&7));
}
