//! The decisions of the scanners that walk the data tree: which
//! directories belong to the tree, how full a leaf is, and which files of
//! a leaf are to be flushed or pushed.
//!
//! The tree has four levels below its root: `pod<n>`, `block<n>`,
//! `cap<n>` and `scat<n>`, each `<n>` a number.
use crate::format::Duration;
use crate::text::{chars_of, parse_bounded, parse_unsigned, range_equals};
use vstd::prelude::*;

verus! {

/// The number of levels of the data tree.
pub const LEVELS: usize = 4;

/// The name that directories of a level start with.
pub open spec fn segment_name(level: int) -> Seq<char> {
    if level == 0 {
        "pod"@
    } else if level == 1 {
        "block"@
    } else if level == 2 {
        "cap"@
    } else {
        "scat"@
    }
}

/// Whether `basename` names a directory of the level `level`: the name of
/// the level, and a number.
pub open spec fn is_segment(basename: Seq<char>, level: int) -> bool {
    let name = segment_name(level);
    name.len() < basename.len() && basename.take(name.len() as int) == name && parse_unsigned(
        basename.skip(name.len() as int),
        u32::MAX as nat,
    ) is Ok
}

/// Whether `basename` names a directory of the level `level`.
pub fn is_segment_dir(basename: &str, level: usize) -> (r: bool)
    requires
        level < LEVELS,
    ensures
        r == is_segment(basename@, level as int),
{
    let name = if level == 0 {
        chars_of("pod")
    } else if level == 1 {
        chars_of("block")
    } else if level == 2 {
        chars_of("cap")
    } else {
        chars_of("scat")
    };
    let v = chars_of(basename);
    if name.len() >= v.len() {
        return false;
    }
    assert(v@.subrange(0, name.len() as int) =~= v@.take(name.len() as int));
    if !range_equals(&v, 0, name.len(), &name) {
        return false;
    }
    assert(v@.subrange(name.len() as int, v@.len() as int) =~= v@.skip(name.len() as int));
    parse_bounded(&v, name.len(), v.len(), u32::MAX as u64).is_ok()
}

/// How full a file system is, in percent, from its free and its total
/// blocks; nothing where the numbers make no sense.
pub open spec fn utilization_of(free: u64, total: u64) -> Option<u8> {
    if total == 0 || free > total {
        None
    } else {
        Some((100 - (free as int) * 100 / (total as int)) as u8)
    }
}

/// How full a file system is, in percent.
pub fn utilization(free: u64, total: u64) -> (r: Option<u8>)
    ensures
        r == utilization_of(free, total),
        r matches Some(percent) ==> percent <= 100,
{
    if total == 0 || free > total {
        return None;
    }
    let share: u128 = free as u128 * 100 / total as u128;
    assert(share <= 100) by (nonlinear_arith)
        requires
            share == (free as int) * 100 / (total as int),
            free <= total,
            total > 0,
    ;
    Some((100 - share) as u8)
}

/// Whether a file that was last used at `used` is older than `age`
/// seconds at the time `reftime`. A file used after `reftime` is not.
pub open spec fn older_than(reftime: Duration, used: Duration, age: u64) -> bool {
    reftime.total_nanos() >= used.total_nanos() && Duration::of_nanos(
        (reftime.total_nanos() - used.total_nanos()) as nat,
    ).secs > age
}

/// Whether a file is to be flushed: it is older than the age limit.
pub fn is_flushable(reftime: &Duration, used: &Duration, age: u64) -> (r: bool)
    ensures
        r == older_than(*reftime, *used, age),
{
    if !reftime.at_least(used) {
        return false;
    }
    reftime.since(used).as_secs() > age
}

/// What a scan of a leaf is asked to do.
#[derive(Clone, Copy, Debug, PartialEq, Eq, Structural)]
pub struct Ops {
    pub flush: bool,
    pub push: bool,
    /// Do it whatever the times say.
    pub force: bool,
}

/// What is to be done with a file of a leaf.
#[derive(Clone, Copy, Debug, PartialEq, Eq, Structural)]
pub enum LeafAction {
    /// Flush it, and forget that it was pushed.
    Flush,
    /// Push it, unless it is known to have been pushed.
    Push,
    Nothing,
}

/// Whether a file is to be flushed: flushing is asked for, and either
/// forced, or the file is no older than the oldest file that the last
/// scan left and its age is beyond the limit.
pub open spec fn flush_due(ops: Ops, modified: Duration, oldest_left: Duration, age: u64, max_age: u64) -> bool {
    ops.flush && (ops.force || (modified.total_nanos() >= oldest_left.total_nanos() && age
        > max_age))
}

/// What is to be done with a file of a leaf.
pub fn leaf_action(ops: &Ops, modified: &Duration, oldest_left: &Duration, age: u64, max_age: u64) -> (r:
    LeafAction)
    ensures
        r == if flush_due(*ops, *modified, *oldest_left, age, max_age) {
            LeafAction::Flush
        } else if ops.push {
            LeafAction::Push
        } else {
            LeafAction::Nothing
        },
{
    if ops.flush && (ops.force || (modified.at_least(oldest_left) && age > max_age)) {
        LeafAction::Flush
    } else if ops.push {
        LeafAction::Push
    } else {
        LeafAction::Nothing
    }
}

/// The oldest file left so far, after a file modified at `modified` that
/// is flushed (`flushed`) or left.
pub fn oldest_left(oldest: Duration, modified: Duration, flushed: bool) -> (r: Duration)
    ensures
        r == if !flushed && modified.total_nanos() < oldest.total_nanos() {
            modified
        } else {
            oldest
        },
{
    if !flushed && modified.shorter_than(&oldest) {
        modified
    } else {
        oldest
    }
}

/// Whether the oldest file left is to be written down: some file was
/// left (`oldest` is not the `future` that the scan started from), and
/// the oldest is younger than what the last scan wrote down.
pub fn oldest_changed(oldest: &Duration, before: &Duration, future: &Duration) -> (r: bool)
    ensures
        r == (oldest.total_nanos() > before.total_nanos() && oldest.total_nanos()
            != future.total_nanos()),
{
    before.shorter_than(oldest) && (oldest.shorter_than(future) || future.shorter_than(oldest))
}

/// What the record of pushed files says of a file.
#[derive(Clone, Copy, Debug, PartialEq, Eq, Structural)]
pub enum PushRecord {
    /// The file was not on record, and is now.
    Inserted,
    /// The file is on record as pushed when it was modified at this
    /// second since the Unix epoch.
    Known(u64),
    /// The record could not be read.
    Unreadable,
}

/// What is to be done with a file that is to be pushed.
#[derive(Clone, Copy, Debug, PartialEq, Eq, Structural)]
pub enum PushAction {
    /// Push it.
    Send,
    /// Bring the record up to date, and push it.
    UpdateAndSend,
    Nothing,
}

/// What is to be done with a file that is to be pushed, by what the
/// record says: a file is pushed when it is new to the record, when it
/// was modified after it was pushed, when pushing is forced, and when
/// the record cannot be read.
pub fn push_action(record: PushRecord, modified: &Duration, force: bool) -> (r: PushAction)
    ensures
        r == match record {
            PushRecord::Inserted => PushAction::Send,
            PushRecord::Unreadable => PushAction::Send,
            PushRecord::Known(secs) => if (Duration { secs, nanos: 0 }).total_nanos()
                < modified.total_nanos() {
                PushAction::UpdateAndSend
            } else if force {
                PushAction::Send
            } else {
                PushAction::Nothing
            },
        },
{
    match record {
        PushRecord::Inserted => PushAction::Send,
        PushRecord::Unreadable => PushAction::Send,
        PushRecord::Known(secs) => {
            if Duration::from_secs(secs).shorter_than(modified) {
                PushAction::UpdateAndSend
            } else if force {
                PushAction::Send
            } else {
                PushAction::Nothing
            }
        },
    }
}

} // verus!
