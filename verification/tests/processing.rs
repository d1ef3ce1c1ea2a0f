use marchive::format::Duration;
use marchive::processing::{
    is_rooted, join_below, split_segments, stamp_text, strip_prefix, PathError, ProcessingPath,
    ProcessingPathElement,
};
use marchive::text::IntErrorKind;

fn stamp() -> Duration {
    Duration { secs: 1_700_000_000, nanos: 123_456_789 }
}

#[test]
fn new_keeps_its_parts() {
    let place = ProcessingPath::new(Some(7), Some(stamp()), ProcessingPathElement::SubTaskDir(3));
    assert_eq!(place.process(), Some(7));
    assert_eq!(place.timestamp(), Some(stamp()));
    assert!(matches!(place.element, ProcessingPathElement::SubTaskDir(3)));
    let host = ProcessingPath::new(None, None, ProcessingPathElement::IntermediateDir);
    assert_eq!(host.process(), None);
    assert_eq!(host.timestamp(), None);
}

#[test]
fn to_path_with_writes_each_element() {
    let at = |element| ProcessingPath::new(Some(42), Some(stamp()), element);
    let path = |place: ProcessingPath| place.to_path_with("proc", "host1", "STAMP");
    assert_eq!(
        path(ProcessingPath::new(None, None, ProcessingPathElement::IntermediateDir)),
        "proc/host1"
    );
    assert_eq!(
        path(ProcessingPath::new(Some(42), None, ProcessingPathElement::IntermediateDir)),
        "proc/host1/PID42"
    );
    assert_eq!(path(at(ProcessingPathElement::IntermediateDir)), "proc/host1/PID42/STAMP");
    assert_eq!(
        path(at(ProcessingPathElement::OriginalTaskfile("migrate/pod1/list".to_string()))),
        "proc/host1/PID42/STAMP/original/migrate/pod1/list"
    );
    assert_eq!(
        path(at(ProcessingPathElement::FilteredTaskfile)),
        "proc/host1/PID42/STAMP/filtered"
    );
    assert_eq!(path(at(ProcessingPathElement::SubTaskDir(0))), "proc/host1/PID42/STAMP/subtask.0");
    assert_eq!(
        path(at(ProcessingPathElement::SubTaskInput(12))),
        "proc/host1/PID42/STAMP/subtask.12/input"
    );
    assert_eq!(
        path(at(ProcessingPathElement::SubTaskOutput(3))),
        "proc/host1/PID42/STAMP/subtask.3/output"
    );
}

#[test]
fn try_from_reads_directories_on_the_way() {
    let host = ProcessingPath::try_from("proc/host1", "proc", "host1").unwrap();
    assert_eq!((host.process(), host.timestamp()), (None, None));
    assert!(matches!(host.element, ProcessingPathElement::IntermediateDir));
    let process = ProcessingPath::try_from("proc/host1/PID42/", "proc/", "host1").unwrap();
    assert_eq!((process.process(), process.timestamp()), (Some(42), None));
    assert!(matches!(process.element, ProcessingPathElement::IntermediateDir));
}

#[test]
fn try_from_reads_what_to_path_wrote() {
    let elements = [
        ProcessingPathElement::IntermediateDir,
        ProcessingPathElement::OriginalTaskfile("migrate/pod1/list".to_string()),
        ProcessingPathElement::FilteredTaskfile,
        ProcessingPathElement::SubTaskDir(0),
        ProcessingPathElement::SubTaskInput(12),
        ProcessingPathElement::SubTaskOutput(3),
    ];
    for element in elements {
        let expected = format!("{element:?}");
        let place = ProcessingPath::new(Some(42), Some(stamp()), element);
        let path = place.to_path("/data/proc", "host1");
        let read = ProcessingPath::try_from(&path, "/data/proc", "host1").unwrap();
        assert_eq!(read.process(), Some(42));
        assert_eq!(read.timestamp(), Some(stamp()));
        assert_eq!(format!("{:?}", read.element), expected);
    }
}

#[test]
fn to_path_uses_the_text_of_the_stamp() {
    let text = stamp_text(&stamp()).unwrap();
    let place = ProcessingPath::new(Some(1), Some(stamp()), ProcessingPathElement::FilteredTaskfile);
    assert_eq!(place.to_path("p", "h"), format!("p/h/PID1/{text}/filtered"));
    assert!(text.starts_with("20"));
    assert!(text.contains(".123456789"));
}

#[test]
fn stamp_text_wants_a_timestamp_that_can_be_written() {
    assert!(stamp_text(&Duration { secs: 253_402_300_799, nanos: 999_999_999 }).is_some());
    assert!(stamp_text(&Duration { secs: 253_402_300_800, nanos: 0 }).is_none());
    assert!(stamp_text(&Duration { secs: 0, nanos: 1_000_000_000 }).is_none());
    assert!(stamp_text(&Duration { secs: 0, nanos: 0 }).unwrap().starts_with("19"));
}

#[test]
fn stamp_text_has_the_shape_of_a_moment() {
    let stamps = [
        Duration { secs: 0, nanos: 0 },
        Duration { secs: 1_700_000_000, nanos: 500_000_000 },
        Duration { secs: 1_700_000_000, nanos: 1 },
        Duration { secs: 253_402_300_799, nanos: 999_999_999 },
    ];
    for stamp in stamps {
        let text = stamp_text(&stamp).unwrap();
        assert!(text.chars().count() >= 25, "{text}");
        assert!(text.chars().all(|c| c.is_ascii_digit() || "+-:.T".contains(c)), "{text}");
        assert!(!text.contains('/'));
    }
    assert_eq!(stamp_text(&Duration { secs: 1_700_000_000, nanos: 0 }).unwrap().chars().count(), 25);
}

#[test]
fn try_from_reads_a_timestamp_with_offset() {
    let read =
        ProcessingPath::try_from("p/h/PID1/2023-11-14T22:13:20.5+00:00/filtered", "p", "h").unwrap();
    assert_eq!(read.timestamp(), Some(Duration { secs: 1_700_000_000, nanos: 500_000_000 }));
    let east =
        ProcessingPath::try_from("p/h/PID1/2023-11-15T00:13:20+02:00", "p", "h").unwrap();
    assert_eq!(east.timestamp(), Some(Duration { secs: 1_700_000_000, nanos: 0 }));
    assert!(matches!(east.element, ProcessingPathElement::IntermediateDir));
}

#[test]
fn try_from_reports_each_fault() {
    let read = |path: &str| ProcessingPath::try_from(path, "proc", "host1").err();
    let t = "2023-11-14T22:13:20+00:00";
    assert_eq!(read("other/host1"), Some(PathError::OutsideProcessing));
    assert_eq!(read("/proc/host1"), Some(PathError::OutsideProcessing));
    assert_eq!(read("proc"), Some(PathError::OutsideHost));
    assert_eq!(read("proc/host2/PID1"), Some(PathError::OutsideHost));
    assert_eq!(read("proc/host1/pid1"), Some(PathError::NoPidPrefix));
    assert_eq!(read("proc/host1/PID"), Some(PathError::BadPid(IntErrorKind::Empty)));
    assert_eq!(read("proc/host1/PIDx"), Some(PathError::BadPid(IntErrorKind::InvalidDigit)));
    assert_eq!(
        read("proc/host1/PID4294967296"),
        Some(PathError::BadPid(IntErrorKind::PosOverflow))
    );
    assert_eq!(read("proc/host1/PID1/yesterday"), Some(PathError::BadTimestamp));
    assert_eq!(
        read("proc/host1/PID1/1969-12-31T23:59:59+00:00"),
        Some(PathError::BadTimestamp)
    );
    assert_eq!(read(&format!("proc/host1/PID1/{t}/other")), Some(PathError::UnknownElement));
    assert_eq!(read(&format!("proc/host1/PID1/{t}/filtered/x")), Some(PathError::UnknownElement));
    assert_eq!(read(&format!("proc/host1/PID1/{t}/subtask.")), Some(PathError::BadSubtaskNumber));
    assert_eq!(read(&format!("proc/host1/PID1/{t}/subtask.x")), Some(PathError::BadSubtaskNumber));
    assert_eq!(
        read(&format!("proc/host1/PID1/{t}/subtask.1/input/x")),
        Some(PathError::TooDeep)
    );
    assert_eq!(
        read(&format!("proc/host1/PID1/{t}/subtask.1/inputs")),
        Some(PathError::UnknownSubtaskElement)
    );
}

#[test]
fn try_from_reads_original_paths() {
    let t = "2023-11-14T22:13:20+00:00";
    let read = ProcessingPath::try_from(
        &format!("proc//host1/./PID9/{t}/original/a//b/./c"),
        "proc",
        "host1",
    )
    .unwrap();
    assert_eq!(read.process(), Some(9));
    match read.element {
        ProcessingPathElement::OriginalTaskfile(path) => assert_eq!(path, "a/b/c"),
        other => panic!("{other:?}"),
    }
    let bare =
        ProcessingPath::try_from(&format!("proc/host1/PID9/{t}/original"), "proc", "host1").unwrap();
    match bare.element {
        ProcessingPathElement::OriginalTaskfile(path) => assert_eq!(path, ""),
        other => panic!("{other:?}"),
    }
}

#[test]
fn paths_split_into_names() {
    assert_eq!(split_segments("a/b/c"), vec!["a", "b", "c"]);
    assert_eq!(split_segments("/a//b/./c/"), vec!["a", "b", "c"]);
    assert_eq!(split_segments("./a/../b"), vec!["a", "..", "b"]);
    assert_eq!(split_segments(""), Vec::<String>::new());
    assert_eq!(split_segments("///"), Vec::<String>::new());
    assert_eq!(split_segments(".hidden/.."), vec![".hidden", ".."]);
    assert!(is_rooted("/a"));
    assert!(!is_rooted("a/"));
    assert!(!is_rooted(""));
}

#[test]
fn strip_prefix_goes_by_names() {
    assert_eq!(strip_prefix("in/migrate/list", "in"), Some("migrate/list".to_string()));
    assert_eq!(strip_prefix("in//migrate/list/", "in/"), Some("migrate/list".to_string()));
    assert_eq!(strip_prefix("in", "in"), Some(String::new()));
    assert_eq!(strip_prefix("input/x", "in"), None);
    assert_eq!(strip_prefix("/in/x", "in"), None);
    assert_eq!(strip_prefix("in/x", "/in"), None);
    assert_eq!(strip_prefix("/in/x", "/in"), Some("x".to_string()));
    assert_eq!(strip_prefix("x", "in/x"), None);
    assert_eq!(join_below("out/failure", "migrate/list"), "out/failure/migrate/list");
}
