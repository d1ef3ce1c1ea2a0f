use marchive::config::ConfigTask;
use marchive::format::Duration;
use marchive::objtable::{LookupError, ObjLocation, ObjTable, Object};
use std::sync::Arc;

fn kind(name: &str, overrides: &[&str], conflicts: &[&str]) -> Arc<ConfigTask> {
    Arc::new(ConfigTask {
        name: name.to_string(),
        command: format!("run-{name} {{file}}"),
        command_values: Vec::new(),
        file_format: "{object}".to_string(),
        file_format_values: vec!["object".to_string()],
        overrides: overrides.iter().map(|s| s.to_string()).collect(),
        conflicts: conflicts.iter().map(|s| s.to_string()).collect(),
        timeout: None,
    })
}

fn object(name: &str, pod: u32) -> Object {
    Object { name: name.to_string(), location: ObjLocation { pod, block: 2, cap: 3, scatter: 4 } }
}

fn stamp(secs: u64) -> Duration {
    Duration { secs, nanos: 0 }
}

#[test]
fn new_table_is_empty() {
    let table = ObjTable::new();
    assert!(table.is_empty());
    assert!(!table.holds(&object("a", 1), &kind("migrate", &[], &[]), stamp(1)));
}

#[test]
fn insert_records_a_claim() {
    let migrate = kind("migrate", &[], &[]);
    let mut table = ObjTable::new();
    assert_eq!(table.insert(object("a", 1), &migrate, stamp(1)), Ok(()));
    assert!(!table.is_empty());
    assert!(table.holds(&object("a", 1), &migrate, stamp(1)));
    assert!(!table.holds(&object("a", 1), &migrate, stamp(2)));
    assert!(!table.holds(&object("a", 2), &migrate, stamp(1)));
    assert!(!table.holds(&object("b", 1), &migrate, stamp(1)));
}

#[test]
fn same_kind_shares_an_object() {
    let migrate = kind("migrate", &[], &[]);
    let mut table = ObjTable::new();
    assert_eq!(table.insert(object("a", 1), &migrate, stamp(1)), Ok(()));
    assert_eq!(table.insert(object("a", 1), &migrate, stamp(2)), Ok(()));
    assert_eq!(table.insert(object("a", 1), &migrate, stamp(1)), Ok(()));
    assert!(table.holds(&object("a", 1), &migrate, stamp(2)));
    table.remove(&migrate, stamp(1));
    assert!(!table.holds(&object("a", 1), &migrate, stamp(1)));
    assert!(table.holds(&object("a", 1), &migrate, stamp(2)));
    table.remove(&migrate, stamp(2));
    assert!(table.is_empty());
}

#[test]
fn holder_that_forbids_the_newcomer_gives_conflict() {
    let migrate = kind("migrate", &[], &["purge"]);
    let purge = kind("purge", &[], &[]);
    let mut table = ObjTable::new();
    assert_eq!(table.insert(object("a", 1), &migrate, stamp(1)), Ok(()));
    assert_eq!(
        table.insert(object("a", 1), &purge, stamp(2)),
        Err(LookupError::Conflict(
            "conflicting migrate task on Obj{ \"a\"@{Pod1,Block2,Cap3,Scat4} }".to_string()
        ))
    );
    assert!(!table.holds(&object("a", 1), &purge, stamp(2)));
    assert!(table.holds(&object("a", 1), &migrate, stamp(1)));
    assert_eq!(table.insert(object("a", 7), &purge, stamp(2)), Ok(()));
}

#[test]
fn newcomer_that_names_the_holder_waits() {
    // purge declares the clash, migrate does not: purge waits for migrate
    let migrate = kind("migrate", &[], &[]);
    let purge = kind("purge", &[], &["migrate"]);
    let mut table = ObjTable::new();
    assert_eq!(table.insert(object("a", 1), &migrate, stamp(1)), Ok(()));
    assert_eq!(table.insert(object("a", 1), &purge, stamp(2)), Err(LookupError::Wait));
    assert!(!table.holds(&object("a", 1), &purge, stamp(2)));
}

#[test]
fn override_waits_until_the_holder_lets_go() {
    let stage = kind("stage", &[], &[]);
    let flush = kind("flush", &["stage"], &[]);
    let mut table = ObjTable::new();
    assert_eq!(table.insert(object("a", 1), &stage, stamp(1)), Ok(()));
    assert_eq!(table.insert(object("a", 1), &flush, stamp(2)), Err(LookupError::Wait));
    assert_eq!(table.insert(object("a", 1), &flush, stamp(2)), Err(LookupError::Wait));
    table.remove(&stage, stamp(1));
    assert!(table.is_empty());
    assert_eq!(table.insert(object("a", 1), &flush, stamp(2)), Ok(()));
    assert!(table.holds(&object("a", 1), &flush, stamp(2)));
}

#[test]
fn overridden_newcomer_is_skipped() {
    let stage = kind("stage", &[], &[]);
    let flush = kind("flush", &["stage"], &[]);
    let mut table = ObjTable::new();
    assert_eq!(table.insert(object("a", 1), &flush, stamp(1)), Ok(()));
    assert_eq!(table.insert(object("a", 1), &stage, stamp(2)), Err(LookupError::Skip));
    assert!(!table.holds(&object("a", 1), &stage, stamp(2)));
    table.remove(&flush, stamp(1));
    assert!(table.is_empty());
}

#[test]
fn conflict_beats_wait_beats_skip() {
    // holders: a forbids n; n overrides b; c overrides n
    let a = kind("a", &[], &["n"]);
    let b = kind("b", &[], &[]);
    let c = kind("c", &["n"], &[]);
    let n = kind("n", &["b"], &[]);
    let mut table = ObjTable::new();
    assert_eq!(table.insert(object("o", 1), &c, stamp(1)), Ok(()));
    assert_eq!(table.insert(object("o", 1), &n, stamp(9)), Err(LookupError::Skip));
    assert_eq!(table.insert(object("o", 1), &b, stamp(2)), Ok(()));
    assert_eq!(table.insert(object("o", 1), &n, stamp(9)), Err(LookupError::Wait));
    assert_eq!(table.insert(object("o", 1), &a, stamp(3)), Ok(()));
    assert_eq!(
        table.insert(object("o", 1), &n, stamp(9)),
        Err(LookupError::Conflict(
            "conflicting a task on Obj{ \"o\"@{Pod1,Block2,Cap3,Scat4} }".to_string()
        ))
    );
    table.remove(&a, stamp(3));
    assert_eq!(table.insert(object("o", 1), &n, stamp(9)), Err(LookupError::Wait));
    table.remove(&b, stamp(2));
    assert_eq!(table.insert(object("o", 1), &n, stamp(9)), Err(LookupError::Skip));
    table.remove(&c, stamp(1));
    assert_eq!(table.insert(object("o", 1), &n, stamp(9)), Ok(()));
}

#[test]
fn conflict_names_the_last_holder_that_forbids() {
    let first = kind("first", &[], &["n"]);
    let second = kind("second", &[], &["n"]);
    let n = kind("n", &[], &[]);
    let mut table = ObjTable::new();
    assert_eq!(table.insert(object("o", 0), &first, stamp(1)), Ok(()));
    assert_eq!(table.insert(object("o", 0), &second, stamp(2)), Ok(()));
    assert_eq!(
        table.insert(object("o", 0), &n, stamp(3)),
        Err(LookupError::Conflict(
            "conflicting second task on Obj{ \"o\"@{Pod0,Block2,Cap3,Scat4} }".to_string()
        ))
    );
}

#[test]
fn remove_twice_is_remove_once() {
    let migrate = kind("migrate", &[], &[]);
    let purge = kind("purge", &[], &[]);
    let mut table = ObjTable::new();
    assert_eq!(table.insert(object("a", 1), &migrate, stamp(1)), Ok(()));
    assert_eq!(table.insert(object("b", 1), &migrate, stamp(1)), Ok(()));
    assert_eq!(table.insert(object("b", 1), &purge, stamp(1)), Ok(()));
    table.remove(&migrate, stamp(1));
    assert!(!table.holds(&object("a", 1), &migrate, stamp(1)));
    assert!(!table.holds(&object("b", 1), &migrate, stamp(1)));
    assert!(table.holds(&object("b", 1), &purge, stamp(1)));
    table.remove(&migrate, stamp(1));
    assert!(table.holds(&object("b", 1), &purge, stamp(1)));
    table.remove(&purge, stamp(1));
    assert!(table.is_empty());
}

#[test]
fn remove_of_what_was_never_inserted_changes_nothing() {
    let migrate = kind("migrate", &[], &[]);
    let purge = kind("purge", &[], &[]);
    let mut table = ObjTable::new();
    table.remove(&migrate, stamp(1));
    assert!(table.is_empty());
    assert_eq!(table.insert(object("a", 1), &migrate, stamp(1)), Ok(()));
    table.remove(&migrate, stamp(2));
    table.remove(&purge, stamp(1));
    assert!(table.holds(&object("a", 1), &migrate, stamp(1)));
}

#[test]
fn object_text_and_identity() {
    let a = Object {
        name: "obj.7".to_string(),
        location: ObjLocation { pod: 0, block: 11, cap: 4294967295, scatter: 9 },
    };
    assert_eq!(a.to_text(), "Obj{ \"obj.7\"@{Pod0,Block11,Cap4294967295,Scat9} }");
    assert!(a.same_as(&a.clone()));
    assert!(!a.same_as(&object("obj.7", 0)));
    assert!(object("x", 5).same_as(&object("x", 5)));
    assert!(!object("x", 5).same_as(&object("y", 5)));
}

#[test]
fn held_objects_are_listed() {
    let migrate = kind("migrate", &[], &[]);
    let mut table = ObjTable::new();
    assert!(table.held_objects().is_empty());
    assert_eq!(table.insert(object("a", 1), &migrate, stamp(1)), Ok(()));
    assert_eq!(table.insert(object("b", 2), &migrate, stamp(1)), Ok(()));
    assert_eq!(table.insert(object("a", 1), &migrate, stamp(2)), Ok(()));
    let mut held = table.held_objects();
    held.sort();
    assert_eq!(
        held,
        vec![
            "Obj{ \"a\"@{Pod1,Block2,Cap3,Scat4} }".to_string(),
            "Obj{ \"b\"@{Pod2,Block2,Cap3,Scat4} }".to_string(),
        ]
    );
}
