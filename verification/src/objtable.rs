//! The object conflict table: which kinds of task, of which running tasks,
//! currently work on which object.
//!
//! A task claims each object it is about to work on. The table answers a new
//! claim with one of four verdicts, looking at every kind that already holds
//! the object: grant it, skip it (a holder replaces this work), wait (this
//! work would replace or clash with a holder's), or conflict (a holder
//! forbids it). Conflict beats wait, wait beats skip.
use crate::config::ConfigTask;
use crate::format::Duration;
use crate::text::{decimal, list_names, names_it, push_decimal, push_str, string_from_chars};
use std::sync::Arc;
use vstd::prelude::*;

verus! {

/// Where an object lives.
#[derive(Clone, Copy, Debug, PartialEq, Eq, Hash, Structural)]
pub struct ObjLocation {
    pub pod: u32,
    pub block: u32,
    pub cap: u32,
    pub scatter: u32,
}

/// An object that a task works on: its name and its place.
#[derive(Clone, Debug, PartialEq, Eq, Hash)]
pub struct Object {
    pub name: String,
    pub location: ObjLocation,
}

/// An object as the table sees it: two objects are one where names and
/// places agree.
pub struct ObjectKey {
    pub name: Seq<char>,
    pub location: ObjLocation,
}

impl View for Object {
    type V = ObjectKey;

    open spec fn view(&self) -> ObjectKey {
        ObjectKey { name: self.name@, location: self.location }
    }
}

/// The text that names an object in messages.
pub open spec fn object_text(object: ObjectKey) -> Seq<char> {
    "Obj{ \""@ + object.name + "\"@{Pod"@ + decimal(object.location.pod as nat) + ",Block"@
        + decimal(object.location.block as nat) + ",Cap"@ + decimal(object.location.cap as nat)
        + ",Scat"@ + decimal(object.location.scatter as nat) + "} }"@
}

impl Object {
    /// Whether both name the same object.
    pub fn same_as(&self, other: &Object) -> (r: bool)
        ensures
            r == (self@ == other@),
    {
        self.name == other.name && self.location == other.location
    }

    /// The text that names this object in messages.
    pub fn to_text(&self) -> (s: String)
        ensures
            s@ == object_text(self@),
    {
        let mut out: Vec<char> = Vec::new();
        push_str(&mut out, "Obj{ \"");
        push_str(&mut out, self.name.as_str());
        push_str(&mut out, "\"@{Pod");
        push_decimal(&mut out, self.location.pod as u64);
        push_str(&mut out, ",Block");
        push_decimal(&mut out, self.location.block as u64);
        push_str(&mut out, ",Cap");
        push_decimal(&mut out, self.location.cap as u64);
        push_str(&mut out, ",Scat");
        push_decimal(&mut out, self.location.scatter as u64);
        push_str(&mut out, "} }");
        assert(out@ =~= object_text(self@));
        string_from_chars(&out)
    }
}

/// Why a claim was not recorded.
#[derive(Clone, Debug, PartialEq, Eq)]
pub enum LookupError {
    /// A holder forbids this kind of task on the object: the asking task
    /// must give up. The text names the holder and the object.
    Conflict(String),
    /// A holder replaces this work: the asking task leaves this object out.
    Skip,
    /// This work would replace or clash with a holder's: the asking task
    /// asks again later.
    Wait,
}

/// One kind of task holding an object, with the timestamps of the tasks of
/// that kind that hold it.
pub struct Claim {
    pub task: ConfigTask,
    pub stamps: Seq<Duration>,
}

/// The table's content: for each object that is held, who holds it. An
/// object that nobody holds is no key.
pub type TableView = Map<ObjectKey, Seq<Claim>>;

/// The answer to a new claim.
pub enum Verdict {
    Grant,
    Skip,
    Wait,
    Conflict,
}

/// `holder` forbids `newcomer` on its objects.
pub open spec fn conflicts_with(holder: ConfigTask, newcomer: ConfigTask) -> bool {
    names_it(holder.conflicts@, newcomer.name@)
}

/// `newcomer` would replace `holder`'s work, or declares a clash with it.
pub open spec fn must_wait_for(holder: ConfigTask, newcomer: ConfigTask) -> bool {
    names_it(newcomer.overrides@, holder.name@) || names_it(newcomer.conflicts@, holder.name@)
}

/// `holder` replaces `newcomer`'s work.
pub open spec fn overridden_by(holder: ConfigTask, newcomer: ConfigTask) -> bool {
    names_it(holder.overrides@, newcomer.name@)
}

/// The answer to a claim of kind `task` on an object held by `claims`.
pub open spec fn verdict(claims: Seq<Claim>, task: ConfigTask) -> Verdict {
    if exists|i: int| 0 <= i < claims.len() && conflicts_with(#[trigger] claims[i].task, task) {
        Verdict::Conflict
    } else if exists|i: int|
        0 <= i < claims.len() && must_wait_for(#[trigger] claims[i].task, task) {
        Verdict::Wait
    } else if exists|i: int|
        0 <= i < claims.len() && overridden_by(#[trigger] claims[i].task, task) {
        Verdict::Skip
    } else {
        Verdict::Grant
    }
}

/// The position of the last holder that forbids `task`, or -1.
pub open spec fn last_conflict(claims: Seq<Claim>, task: ConfigTask) -> int
    decreases claims.len(),
{
    if claims.len() == 0 {
        -1
    } else if conflicts_with(claims.last().task, task) {
        claims.len() - 1
    } else {
        last_conflict(claims.drop_last(), task)
    }
}

/// The text of a conflict: the holder's kind and the object.
pub open spec fn conflict_reason(holder: Seq<char>, object: ObjectKey) -> Seq<char> {
    "conflicting "@ + holder + " task on "@ + object_text(object)
}

/// The holders of `object`; none where it is no key.
pub open spec fn claims_at(table: TableView, object: ObjectKey) -> Seq<Claim> {
    if table.contains_key(object) {
        table[object]
    } else {
        Seq::empty()
    }
}

/// The holders after a claim of kind `task` by the task of timestamp `stamp`
/// was granted: the timestamp joins the first holder of that kind, or a
/// new holder is added at the end.
pub open spec fn with_claim(claims: Seq<Claim>, task: ConfigTask, stamp: Duration) -> Seq<Claim>
    decreases claims.len(),
{
    if claims.len() == 0 {
        seq![Claim { task, stamps: seq![stamp] }]
    } else if claims[0].task.name@ == task.name@ {
        seq![Claim { task: claims[0].task, stamps: claims[0].stamps.push(stamp) }]
            + claims.drop_first()
    } else {
        seq![claims[0]] + with_claim(claims.drop_first(), task, stamp)
    }
}

/// `stamps` without every occurrence of `stamp`.
pub open spec fn without_stamp(stamps: Seq<Duration>, stamp: Duration) -> Seq<Duration>
    decreases stamps.len(),
{
    if stamps.len() == 0 {
        Seq::empty()
    } else if stamps.last() == stamp {
        without_stamp(stamps.drop_last(), stamp)
    } else {
        without_stamp(stamps.drop_last(), stamp).push(stamps.last())
    }
}

/// The holders after the task of kind `name` and timestamp `stamp` let go:
/// its timestamp leaves every holder of that kind, and a holder left with
/// no timestamp leaves too.
pub open spec fn release(claims: Seq<Claim>, name: Seq<char>, stamp: Duration) -> Seq<Claim>
    decreases claims.len(),
{
    if claims.len() == 0 {
        Seq::empty()
    } else {
        let rest = release(claims.drop_last(), name, stamp);
        let claim = claims.last();
        if claim.task.name@ != name {
            rest.push(claim)
        } else if without_stamp(claim.stamps, stamp).len() == 0 {
            rest
        } else {
            rest.push(Claim { task: claim.task, stamps: without_stamp(claim.stamps, stamp) })
        }
    }
}

/// The table after the task of kind `name` and timestamp `stamp` let go of
/// everything: an object left without holder is no key any more.
pub open spec fn released(table: TableView, name: Seq<char>, stamp: Duration) -> TableView {
    Map::new(
        |o: ObjectKey| table.contains_key(o) && release(table[o], name, stamp).len() > 0,
        |o: ObjectKey| release(table[o], name, stamp),
    )
}

/// Whether the task of kind `name` and timestamp `stamp` holds `object`.
pub open spec fn holds(table: TableView, object: ObjectKey, name: Seq<char>, stamp: Duration) -> bool {
    exists|i: int|
        0 <= i < claims_at(table, object).len() && (#[trigger] claims_at(
            table,
            object,
        )[i]).task.name@ == name && claims_at(table, object)[i].stamps.contains(stamp)
}

/// Whether `text` names an object that is held.
pub open spec fn names_held(table: TableView, text: Seq<char>) -> bool {
    exists|o: ObjectKey| #[trigger] table.contains_key(o) && text == object_text(o)
}

/// Every holder holds through at least one task, and no two holders of an
/// object are of the same kind.
pub open spec fn claims_wf(claims: Seq<Claim>) -> bool {
    &&& forall|i: int| 0 <= i < claims.len() ==> (#[trigger] claims[i]).stamps.len() > 0
    &&& forall|i: int, j: int|
        0 <= i < j < claims.len() ==> (#[trigger] claims[i]).task.name@ != (
        #[trigger] claims[j]).task.name@
}

/// Every key is held by someone, and each list of holders is well formed.
pub open spec fn table_wf(table: TableView) -> bool {
    forall|o: ObjectKey| #[trigger]
        table.contains_key(o) ==> table[o].len() > 0 && claims_wf(table[o])
}

struct TaskClaim {
    taskdef: Arc<ConfigTask>,
    stamps: Vec<Duration>,
}

struct ObjEntry {
    object: Object,
    claims: Vec<TaskClaim>,
}

/// Tracks the objects that running tasks work on, and answers each new claim
/// on an object from what its holders allow.
pub struct ObjTable {
    entries: Vec<ObjEntry>,
}

/// The definition that a shared handle stands for.
pub open spec fn shared_def(task_def: &Arc<ConfigTask>) -> ConfigTask {
    **task_def
}

impl TaskClaim {
    spec fn claim(self) -> Claim {
        Claim { task: *self.taskdef, stamps: self.stamps@ }
    }
}

spec fn claims_of(claims: Seq<TaskClaim>) -> Seq<Claim> {
    claims.map_values(|c: TaskClaim| c.claim())
}

spec fn entries_map(entries: Seq<ObjEntry>) -> TableView
    decreases entries.len(),
{
    if entries.len() == 0 {
        Map::empty()
    } else {
        entries_map(entries.drop_last()).insert(
            entries.last().object@,
            claims_of(entries.last().claims@),
        )
    }
}

spec fn entries_wf(entries: Seq<ObjEntry>) -> bool {
    &&& forall|i: int, j: int|
        0 <= i < j < entries.len() ==> (#[trigger] entries[i]).object@ != (
        #[trigger] entries[j]).object@
    &&& forall|i: int|
        0 <= i < entries.len() ==> (#[trigger] entries[i]).claims@.len() > 0 && claims_wf(
            claims_of(entries[i].claims@),
        )
}

proof fn lemma_entries_map(entries: Seq<ObjEntry>)
    requires
        entries_wf(entries),
    ensures
        forall|k: ObjectKey|
            entries_map(entries).contains_key(k) <==> exists|i: int|
                0 <= i < entries.len() && (#[trigger] entries[i]).object@ == k,
        forall|i: int|
            0 <= i < entries.len() ==> entries_map(entries)[(#[trigger] entries[i]).object@]
                == claims_of(entries[i].claims@),
        table_wf(entries_map(entries)),
        entries_map(entries).dom().finite(),
        entries_map(entries).dom().len() == entries.len(),
    decreases entries.len(),
{
    if entries.len() > 0 {
        let front = entries.drop_last();
        assert(entries_wf(front)) by {
            assert forall|i: int, j: int| 0 <= i < j < front.len() implies (#[trigger] front[i]).object@
                != (#[trigger] front[j]).object@ by {
                assert(front[i] == entries[i] && front[j] == entries[j]);
            }
            assert forall|i: int| 0 <= i < front.len() implies (#[trigger] front[i]).claims@.len()
                > 0 && claims_wf(claims_of(front[i].claims@)) by {
                assert(front[i] == entries[i]);
            }
        }
        lemma_entries_map(front);
        let last = entries.last();
        assert forall|k: ObjectKey|
            entries_map(entries).contains_key(k) <==> exists|i: int|
                0 <= i < entries.len() && (#[trigger] entries[i]).object@ == k by {
            if entries_map(entries).contains_key(k) {
                if k == last.object@ {
                    assert(entries[entries.len() - 1].object@ == k);
                } else {
                    let i = choose|i: int| 0 <= i < front.len() && (#[trigger] front[i]).object@ == k;
                    assert(entries[i].object@ == k);
                }
            }
            if exists|i: int| 0 <= i < entries.len() && (#[trigger] entries[i]).object@ == k {
                let i = choose|i: int| 0 <= i < entries.len() && (#[trigger] entries[i]).object@ == k;
                if i < front.len() {
                    assert(front[i].object@ == k);
                }
            }
        }
        assert forall|i: int| 0 <= i < entries.len() implies entries_map(entries)[(
        #[trigger] entries[i]).object@] == claims_of(entries[i].claims@) by {
            if i < front.len() {
                assert(front[i] == entries[i]);
                assert(entries[i].object@ != last.object@);
            }
        }
        assert forall|o: ObjectKey| #[trigger]
            entries_map(entries).contains_key(o) implies entries_map(entries)[o].len() > 0
            && claims_wf(entries_map(entries)[o]) by {
            let i = choose|i: int| 0 <= i < entries.len() && (#[trigger] entries[i]).object@ == o;
            assert(entries_map(entries)[entries[i].object@] == claims_of(entries[i].claims@));
        }
        assert(!entries_map(front).contains_key(last.object@)) by {
            if entries_map(front).contains_key(last.object@) {
                let i = choose|i: int|
                    0 <= i < front.len() && (#[trigger] front[i]).object@ == last.object@;
                assert(entries[i].object@ == entries[entries.len() - 1].object@);
            }
        }
    }
}

/// Appending an entry for an object that is no key yet adds that key.
proof fn lemma_entries_push(entries: Seq<ObjEntry>, entry: ObjEntry)
    requires
        entries_wf(entries),
        !entries_map(entries).contains_key(entry.object@),
        entry.claims@.len() > 0,
        claims_wf(claims_of(entry.claims@)),
    ensures
        entries_wf(entries.push(entry)),
        entries_map(entries.push(entry)) == entries_map(entries).insert(
            entry.object@,
            claims_of(entry.claims@),
        ),
{
    lemma_entries_map(entries);
    let all = entries.push(entry);
    assert(all.drop_last() =~= entries);
    assert forall|i: int, j: int| 0 <= i < j < all.len() implies (#[trigger] all[i]).object@ != (
    #[trigger] all[j]).object@ by {
        if j == entries.len() {
            assert(entries[i].object@ != entry.object@);
        }
    }
}

proof fn lemma_with_claim_at(claims: Seq<Claim>, task: ConfigTask, stamp: Duration, at: int)
    requires
        0 <= at < claims.len(),
        claims[at].task.name@ == task.name@,
        forall|j: int| 0 <= j < at ==> (#[trigger] claims[j]).task.name@ != task.name@,
    ensures
        with_claim(claims, task, stamp) == claims.update(
            at,
            Claim { task: claims[at].task, stamps: claims[at].stamps.push(stamp) },
        ),
    decreases claims.len(),
{
    if at == 0 {
        assert(with_claim(claims, task, stamp) =~= claims.update(
            at,
            Claim { task: claims[at].task, stamps: claims[at].stamps.push(stamp) },
        ));
    } else {
        let rest = claims.drop_first();
        assert(claims[0].task.name@ != task.name@);
        assert(rest[at - 1] == claims[at]);
        assert forall|j: int| 0 <= j < at - 1 implies (#[trigger] rest[j]).task.name@
            != task.name@ by {
            assert(rest[j] == claims[j + 1]);
        }
        lemma_with_claim_at(rest, task, stamp, at - 1);
        assert(with_claim(claims, task, stamp) =~= claims.update(
            at,
            Claim { task: claims[at].task, stamps: claims[at].stamps.push(stamp) },
        ));
    }
}

proof fn lemma_with_claim_new(claims: Seq<Claim>, task: ConfigTask, stamp: Duration)
    requires
        forall|j: int| 0 <= j < claims.len() ==> (#[trigger] claims[j]).task.name@ != task.name@,
    ensures
        with_claim(claims, task, stamp) == claims.push(Claim { task, stamps: seq![stamp] }),
    decreases claims.len(),
{
    if claims.len() == 0 {
        assert(with_claim(claims, task, stamp) =~= claims.push(Claim { task, stamps: seq![stamp] }));
    } else {
        let rest = claims.drop_first();
        assert(claims[0].task.name@ != task.name@);
        assert forall|j: int| 0 <= j < rest.len() implies (#[trigger] rest[j]).task.name@
            != task.name@ by {
            assert(rest[j] == claims[j + 1]);
        }
        lemma_with_claim_new(rest, task, stamp);
        assert(with_claim(claims, task, stamp) =~= claims.push(Claim { task, stamps: seq![stamp] }));
    }
}

/// Granting a claim keeps a list of holders well formed and not empty.
pub proof fn lemma_with_claim_wf(claims: Seq<Claim>, task: ConfigTask, stamp: Duration)
    requires
        claims_wf(claims),
    ensures
        claims_wf(with_claim(claims, task, stamp)),
        with_claim(claims, task, stamp).len() > 0,
{
    if exists|at: int| 0 <= at < claims.len() && (#[trigger] claims[at]).task.name@ == task.name@ {
        let at = choose|at: int|
            0 <= at < claims.len() && (#[trigger] claims[at]).task.name@ == task.name@;
        assert forall|j: int| 0 <= j < at implies (#[trigger] claims[j]).task.name@
            != task.name@ by {
            assert(claims[j].task.name@ != claims[at].task.name@);
        }
        lemma_with_claim_at(claims, task, stamp, at);
    } else {
        lemma_with_claim_new(claims, task, stamp);
    }
}

proof fn lemma_last_conflict(claims: Seq<Claim>, task: ConfigTask)
    ensures
        -1 <= last_conflict(claims, task) < claims.len(),
        last_conflict(claims, task) >= 0 ==> conflicts_with(
            claims[last_conflict(claims, task)].task,
            task,
        ),
        forall|j: int|
            last_conflict(claims, task) < j < claims.len() ==> !conflicts_with(
                (#[trigger] claims[j]).task,
                task,
            ),
    decreases claims.len(),
{
    if claims.len() > 0 && !conflicts_with(claims.last().task, task) {
        let front = claims.drop_last();
        lemma_last_conflict(front, task);
        assert forall|j: int| last_conflict(claims, task) < j < claims.len() implies !conflicts_with(
            (#[trigger] claims[j]).task,
            task,
        ) by {
            if j < front.len() {
                assert(front[j] == claims[j]);
            }
        }
    }
}

proof fn lemma_without_stamp(stamps: Seq<Duration>, stamp: Duration)
    ensures
        !without_stamp(stamps, stamp).contains(stamp),
        forall|t: Duration|
            t != stamp ==> (without_stamp(stamps, stamp).contains(t) <==> stamps.contains(t)),
        !stamps.contains(stamp) ==> without_stamp(stamps, stamp) == stamps,
    decreases stamps.len(),
{
    if stamps.len() > 0 {
        let front = stamps.drop_last();
        lemma_without_stamp(front, stamp);
        let kept = without_stamp(front, stamp);
        assert(stamps =~= front.push(stamps.last()));
        assert forall|t: Duration| t != stamp implies (without_stamp(stamps, stamp).contains(t)
            <==> stamps.contains(t)) by {
            if stamps.contains(t) {
                let i = choose|i: int| 0 <= i < stamps.len() && stamps[i] == t;
                if i < front.len() {
                    assert(front[i] == t);
                    assert(front.contains(t));
                    assert(kept.contains(t));
                    let k = choose|k: int| 0 <= k < kept.len() && kept[k] == t;
                    if stamps.last() != stamp {
                        assert(kept.push(stamps.last())[k] == t);
                    }
                } else {
                    assert(kept.push(t)[kept.len() as int] == t);
                }
            }
            if without_stamp(stamps, stamp).contains(t) {
                let w = without_stamp(stamps, stamp);
                let k = choose|k: int| 0 <= k < w.len() && w[k] == t;
                if stamps.last() != stamp && k == kept.len() {
                    assert(stamps[stamps.len() - 1] == t);
                } else {
                    assert(kept[k] == t);
                    assert(front.contains(t));
                    let i = choose|i: int| 0 <= i < front.len() && front[i] == t;
                    assert(stamps[i] == t);
                }
            }
        }
        if without_stamp(stamps, stamp).contains(stamp) {
            let w = without_stamp(stamps, stamp);
            let k = choose|k: int| 0 <= k < w.len() && w[k] == stamp;
            if stamps.last() != stamp && k < kept.len() {
                assert(kept[k] == stamp);
            } else if stamps.last() == stamp {
                assert(kept[k] == stamp);
            }
        }
        if !stamps.contains(stamp) {
            assert(stamps[stamps.len() - 1] != stamp);
            assert(!front.contains(stamp)) by {
                if front.contains(stamp) {
                    let i = choose|i: int| 0 <= i < front.len() && front[i] == stamp;
                    assert(stamps[i] == stamp);
                }
            }
            assert(without_stamp(stamps, stamp) =~= stamps);
        }
    }
}

/// What `release` leaves: holders in their old order, none of them holding
/// through the released task, all of them well formed where they were.
pub proof fn lemma_release(claims: Seq<Claim>, name: Seq<char>, stamp: Duration)
    ensures
        forall|i: int|
            0 <= i < release(claims, name, stamp).len() ==> !((#[trigger] release(
                claims,
                name,
                stamp,
            )[i]).task.name@ == name && release(claims, name, stamp)[i].stamps.contains(stamp)),
        forall|i: int|
            0 <= i < release(claims, name, stamp).len() ==> exists|j: int|
                0 <= j < claims.len() && claims[j].task == (#[trigger] release(
                    claims,
                    name,
                    stamp,
                )[i]).task,
        claims_wf(claims) ==> claims_wf(release(claims, name, stamp)),
        claims_wf(claims) && (forall|i: int|
            0 <= i < claims.len() ==> !((#[trigger] claims[i]).task.name@ == name
                && claims[i].stamps.contains(stamp))) ==> release(claims, name, stamp) == claims,
    decreases claims.len(),
{
    if claims.len() > 0 {
        let front = claims.drop_last();
        let claim = claims.last();
        lemma_release(front, name, stamp);
        lemma_without_stamp(claim.stamps, stamp);
        let rest = release(front, name, stamp);
        let out = release(claims, name, stamp);
        assert forall|i: int| 0 <= i < out.len() implies exists|j: int|
            0 <= j < claims.len() && claims[j].task == (#[trigger] out[i]).task by {
            if i < rest.len() {
                let j = choose|j: int| 0 <= j < front.len() && front[j].task == rest[i].task;
                assert(claims[j].task == out[i].task);
            } else {
                assert(claims[claims.len() - 1].task == out[i].task);
            }
        }
        if claims_wf(claims) {
            assert(claims_wf(front)) by {
                assert forall|i: int| 0 <= i < front.len() implies (#[trigger] front[i]).stamps.len()
                    > 0 by {
                    assert(front[i] == claims[i]);
                }
                assert forall|i: int, j: int| 0 <= i < j < front.len() implies (
                #[trigger] front[i]).task.name@ != (#[trigger] front[j]).task.name@ by {
                    assert(front[i] == claims[i] && front[j] == claims[j]);
                }
            }
            assert forall|i: int, j: int| 0 <= i < j < out.len() implies (#[trigger] out[i]).task.name@
                != (#[trigger] out[j]).task.name@ by {
                if j == rest.len() {
                    let k = choose|k: int| 0 <= k < front.len() && front[k].task == rest[i].task;
                    assert(claims[k].task.name@ != claims[claims.len() - 1].task.name@);
                }
            }
            assert forall|i: int| 0 <= i < out.len() implies (#[trigger] out[i]).stamps.len() > 0 by {
                if i == rest.len() {
                    assert(claims[claims.len() - 1].stamps.len() > 0);
                }
            }
            if forall|i: int|
                0 <= i < claims.len() ==> !((#[trigger] claims[i]).task.name@ == name
                    && claims[i].stamps.contains(stamp)) {
                assert forall|i: int| 0 <= i < front.len() implies !((#[trigger] front[i]).task.name@
                    == name && front[i].stamps.contains(stamp)) by {
                    assert(front[i] == claims[i]);
                }
                assert(!(claims[claims.len() - 1].task.name@ == name && claims[claims.len()
                    - 1].stamps.contains(stamp)));
                assert(claims[claims.len() - 1].stamps.len() > 0);
                assert(out =~= claims);
            }
        }
    }
}

impl View for ObjTable {
    type V = TableView;

    closed spec fn view(&self) -> TableView {
        entries_map(self.entries@)
    }
}

impl ObjTable {
    /// No object is listed twice, every listed object has a holder, and each
    /// list of holders is well formed.
    pub closed spec fn wf(&self) -> bool {
        entries_wf(self.entries@)
    }

    /// A well-formed table shows a well-formed content.
    pub proof fn lemma_view_wf(&self)
        requires
            self.wf(),
        ensures
            table_wf(self@),
    {
        lemma_entries_map(self.entries@);
    }

    /// An empty table.
    pub fn new() -> (table: ObjTable)
        ensures
            table.wf(),
            table@ == TableView::empty(),
    {
        ObjTable { entries: Vec::new() }
    }

    /// Whether no object is held.
    pub fn is_empty(&self) -> (r: bool)
        requires
            self.wf(),
        ensures
            r == (self@ == TableView::empty()),
    {
        proof {
            lemma_entries_map(self.entries@);
            if self.entries@.len() > 0 {
                assert(self@.contains_key(self.entries@[0].object@));
            } else {
                assert(self@ =~= TableView::empty());
            }
        }
        self.entries.len() == 0
    }

    /// The texts of the objects that are held, one for each object.
    pub fn held_objects(&self) -> (texts: Vec<String>)
        requires
            self.wf(),
        ensures
            self@.dom().finite(),
            texts@.len() == self@.dom().len(),
            forall|i: int| 0 <= i < texts@.len() ==> names_held(self@, (#[trigger] texts@[i])@),
    {
        proof {
            lemma_entries_map(self.entries@);
        }
        let mut texts: Vec<String> = Vec::new();
        let mut i: usize = 0;
        while i < self.entries.len()
            invariant
                0 <= i <= self.entries@.len(),
                texts@.len() == i,
                forall|k: ObjectKey|
                    self@.contains_key(k) <==> exists|j: int|
                        0 <= j < self.entries@.len() && (#[trigger] self.entries@[j]).object@ == k,
                forall|j: int| 0 <= j < i ==> names_held(self@, (#[trigger] texts@[j])@),
            decreases self.entries.len() - i,
        {
            let text = self.entries[i].object.to_text();
            let ghost key = self.entries@[i as int].object@;
            assert(self@.contains_key(key));
            assert(names_held(self@, text@));
            texts.push(text);
            i += 1;
        }
        texts
    }

    fn find(&self, object: &Object) -> (r: Option<usize>)
        requires
            self.wf(),
        ensures
            match r {
                Some(i) => i < self.entries@.len() && self.entries@[i as int].object@ == object@,
                None => !self@.contains_key(object@),
            },
    {
        proof {
            lemma_entries_map(self.entries@);
        }
        let mut i: usize = 0;
        while i < self.entries.len()
            invariant
                0 <= i <= self.entries@.len(),
                forall|j: int| 0 <= j < i ==> (#[trigger] self.entries@[j]).object@ != object@,
            decreases self.entries.len() - i,
        {
            if self.entries[i].object.same_as(object) {
                return Some(i);
            }
            i += 1;
        }
        None
    }

    /// Whether the task of kind `task_def` and timestamp `task_timestamp`
    /// holds `object`.
    pub fn holds(&self, object: &Object, task_def: &Arc<ConfigTask>, task_timestamp: Duration) -> (r:
        bool)
        requires
            self.wf(),
        ensures
            r == holds(self@, object@, task_def.name@, task_timestamp),
    {
        proof {
            lemma_entries_map(self.entries@);
        }
        match self.find(object) {
            None => false,
            Some(at) => {
                let claims = &self.entries[at].claims;
                let ghost held = claims_at(self@, object@);
                assert(held == claims_of(claims@));
                let mut i: usize = 0;
                while i < claims.len()
                    invariant
                        0 <= i <= claims@.len(),
                        held == claims_of(claims@),
                        held == claims_at(self@, object@),
                        forall|j: int|
                            0 <= j < i ==> !((#[trigger] held[j]).task.name@ == task_def.name@
                                && held[j].stamps.contains(task_timestamp)),
                    decreases claims.len() - i,
                {
                    assert(held[i as int] == claims@[i as int].claim());
                    if claims[i].taskdef.name == task_def.name {
                        let stamps = &claims[i].stamps;
                        let mut k: usize = 0;
                        while k < stamps.len()
                            invariant
                                0 <= k <= stamps@.len(),
                                0 <= i < claims@.len(),
                                held == claims_of(claims@),
                                held == claims_at(self@, object@),
                                held[i as int].task.name@ == task_def.name@,
                                stamps@ == held[i as int].stamps,
                                forall|j: int| 0 <= j < k ==> stamps@[j] != task_timestamp,
                            decreases stamps.len() - k,
                        {
                            if stamps[k] == task_timestamp {
                                assert(held[i as int].stamps[k as int] == task_timestamp);
                                return true;
                            }
                            k += 1;
                        }
                    }
                    i += 1;
                }
                false
            },
        }
    }

    /// Claims `object` for the task of kind `task_def` and timestamp
    /// `task_timestamp`.
    ///
    /// Every holder of the object is looked at before anything changes. The
    /// claim is recorded only on `Ok`; on every error the table is as before.
    pub fn insert(&mut self, object: Object, task_def: &Arc<ConfigTask>, task_timestamp: Duration) -> (r:
        Result<(), LookupError>)
        requires
            old(self).wf(),
        ensures
            final(self).wf(),
            match verdict(claims_at(old(self)@, object@), **task_def) {
                Verdict::Grant => r is Ok && final(self)@ == old(self)@.insert(
                    object@,
                    with_claim(claims_at(old(self)@, object@), **task_def, task_timestamp),
                ),
                Verdict::Skip => r == Err::<(), LookupError>(LookupError::Skip) && final(self)@
                    == old(self)@,
                Verdict::Wait => r == Err::<(), LookupError>(LookupError::Wait) && final(self)@
                    == old(self)@,
                Verdict::Conflict => final(self)@ == old(self)@ && match r {
                    Err(LookupError::Conflict(reason)) => reason@ == conflict_reason(
                        claims_at(old(self)@, object@)[last_conflict(
                            claims_at(old(self)@, object@),
                            **task_def,
                        )].task.name@,
                        object@,
                    ),
                    _ => false,
                },
            },
    {
        proof {
            lemma_entries_map(self.entries@);
        }
        let ghost task: ConfigTask = shared_def(task_def);
        let ghost held = claims_at(self@, object@);
        let found = self.find(&object);
        match found {
            None => {
                assert(held.len() == 0);
                let mut stamps: Vec<Duration> = Vec::new();
                stamps.push(task_timestamp);
                let mut claims: Vec<TaskClaim> = Vec::new();
                claims.push(TaskClaim { taskdef: Arc::clone(task_def), stamps });
                let entry = ObjEntry { object, claims };
                proof {
                    assert(claims_of(entry.claims@) =~= with_claim(held, task, task_timestamp));
                    lemma_entries_push(self.entries@, entry);
                }
                self.entries.push(entry);
                Ok(())
            },
            Some(at) => {
                assert(held == claims_of(self.entries@[at as int].claims@));
                let mut conflict: Option<usize> = None;
                let mut wait: bool = false;
                let mut skip: bool = false;
                let mut same: Option<usize> = None;
                let mut i: usize = 0;
                let count: usize = self.entries[at].claims.len();
                while i < count
                    invariant
                        0 <= i <= count,
                        at < self.entries@.len(),
                        count == self.entries@[at as int].claims@.len(),
                        held == claims_of(self.entries@[at as int].claims@),
                        task == shared_def(task_def),
                        match conflict {
                            Some(c) => c < i && last_conflict(held.take(i as int), task) == c,
                            None => last_conflict(held.take(i as int), task) == -1,
                        },
                        wait <==> exists|j: int|
                            0 <= j < i && must_wait_for(#[trigger] held[j].task, task),
                        skip <==> exists|j: int|
                            0 <= j < i && overridden_by(#[trigger] held[j].task, task),
                        match same {
                            Some(s) => s < i && held[s as int].task.name@ == task_def.name@,
                            None => forall|j: int|
                                0 <= j < i ==> (#[trigger] held[j]).task.name@ != task_def.name@,
                        },
                    decreases count - i,
                {
                    let holder = &self.entries[at].claims[i].taskdef;
                    assert(**holder == held[i as int].task);
                    assert(held.take(i + 1).drop_last() =~= held.take(i as int));
                    if holder.name == task_def.name {
                        same = Some(i);
                    }
                    if list_names(&task_def.overrides, &holder.name) || list_names(
                        &task_def.conflicts,
                        &holder.name,
                    ) {
                        wait = true;
                    }
                    if list_names(&holder.overrides, &task_def.name) {
                        skip = true;
                    }
                    if list_names(&holder.conflicts, &task_def.name) {
                        conflict = Some(i);
                    }
                    i += 1;
                }
                assert(held.take(count as int) =~= held);
                proof {
                    lemma_last_conflict(held, task);
                }
                match conflict {
                    Some(c) => {
                        let mut out: Vec<char> = Vec::new();
                        push_str(&mut out, "conflicting ");
                        push_str(&mut out, self.entries[at].claims[c].taskdef.name.as_str());
                        push_str(&mut out, " task on ");
                        let text = object.to_text();
                        push_str(&mut out, text.as_str());
                        assert(out@ =~= conflict_reason(held[c as int].task.name@, object@));
                        return Err(LookupError::Conflict(string_from_chars(&out)));
                    },
                    None => {},
                }
                if wait {
                    return Err(LookupError::Wait);
                }
                if skip {
                    return Err(LookupError::Skip);
                }
                assert(verdict(held, task) == Verdict::Grant);
                let ghost before = self.entries@;
                match same {
                    Some(s) => {
                        proof {
                            assert forall|j: int| 0 <= j < s implies (#[trigger] held[j]).task.name@
                                != task_def.name@ by {
                                assert(claims_wf(held));
                                assert(held[j].task.name@ != held[s as int].task.name@);
                            }
                            lemma_with_claim_at(held, task, task_timestamp, s as int);
                        }
                        self.entries[at].claims[s].stamps.push(task_timestamp);
                    },
                    None => {
                        proof {
                            lemma_with_claim_new(held, task, task_timestamp);
                        }
                        let mut stamps: Vec<Duration> = Vec::new();
                        stamps.push(task_timestamp);
                        self.entries[at].claims.push(
                            TaskClaim { taskdef: Arc::clone(task_def), stamps },
                        );
                    },
                }
                proof {
                    let after = self.entries@;
                    let grown = with_claim(held, task, task_timestamp);
                    lemma_with_claim_wf(held, task, task_timestamp);
                    assert(claims_of(after[at as int].claims@) =~= grown);
                    assert(after[at as int].object@ == object@);
                    assert forall|j: int| 0 <= j < after.len() && j != at implies after[j]
                        == before[j] by {}
                    assert(entries_wf(after)) by {
                        assert forall|i: int, j: int| 0 <= i < j < after.len() implies (
                        #[trigger] after[i]).object@ != (#[trigger] after[j]).object@ by {
                            assert(after[i].object@ == before[i].object@);
                            assert(after[j].object@ == before[j].object@);
                        }
                        assert forall|i: int| 0 <= i < after.len() implies (
                        #[trigger] after[i]).claims@.len() > 0 && claims_wf(
                            claims_of(after[i].claims@),
                        ) by {
                            if i != at {
                                assert(after[i] == before[i]);
                            }
                        }
                    }
                    lemma_entries_map(after);
                    assert(entries_map(after) =~= entries_map(before).insert(object@, grown)) by {
                        assert forall|k: ObjectKey|
                            entries_map(after).contains_key(k) <==> entries_map(before).insert(
                                object@,
                                grown,
                            ).contains_key(k) by {
                            if entries_map(after).contains_key(k) {
                                let i = choose|i: int|
                                    0 <= i < after.len() && (#[trigger] after[i]).object@ == k;
                                assert(before[i].object@ == k);
                            }
                            if entries_map(before).contains_key(k) {
                                let i = choose|i: int|
                                    0 <= i < before.len() && (#[trigger] before[i]).object@ == k;
                                assert(after[i].object@ == k);
                            }
                            if k == object@ {
                                assert(after[at as int].object@ == k);
                            }
                        }
                        assert forall|k: ObjectKey| entries_map(after).contains_key(k) implies entries_map(
                            after,
                        )[k] == entries_map(before).insert(object@, grown)[k] by {
                            let i = choose|i: int|
                                0 <= i < after.len() && (#[trigger] after[i]).object@ == k;
                            assert(entries_map(after)[after[i].object@] == claims_of(
                                after[i].claims@,
                            ));
                            if i != at {
                                assert(after[i] == before[i]);
                                assert(entries_map(before)[before[i].object@] == claims_of(
                                    before[i].claims@,
                                ));
                                assert(before[i].object@ != before[at as int].object@);
                            }
                        }
                    }
                }
                Ok(())
            },
        }
    }

    /// Lets go of every object that the task of kind `task_def` and
    /// timestamp `task_timestamp` holds. Holders left without a task and
    /// objects left without a holder leave the table.
    pub fn remove(&mut self, task_def: &Arc<ConfigTask>, task_timestamp: Duration)
        requires
            old(self).wf(),
        ensures
            final(self).wf(),
            final(self)@ == released(old(self)@, task_def.name@, task_timestamp),
    {
        let ghost before = self.entries@;
        let ghost name = task_def.name@;
        let mut listed: Vec<ObjEntry> = Vec::new();
        std::mem::swap(&mut self.entries, &mut listed);
        let mut kept: Vec<ObjEntry> = Vec::new();
        proof {
            assert(before.take(0) =~= Seq::<ObjEntry>::empty());
            assert(entries_map(kept@) =~= released(
                entries_map(before.take(0)),
                name,
                task_timestamp,
            ));
        }
        for entry in it: listed
            invariant
                it.seq() == before,
                name == task_def.name@,
                entries_wf(before),
                entries_wf(kept@),
                entries_map(kept@) == released(
                    entries_map(before.take(it.index() as int)),
                    name,
                    task_timestamp,
                ),
        {
            let ghost at = it.index() as int;
            let ghost seen = before.take(at);
            let ghost held = claims_of(entry.claims@);
            proof {
                lemma_entries_prefix(before, at);
                lemma_entries_prefix(before, at + 1);
                lemma_entries_map(seen);
                lemma_entries_map(before.take(at + 1));
                assert(before.take(at + 1).drop_last() =~= seen);
                assert(before.take(at + 1).last() == entry);
                assert(!entries_map(seen).contains_key(entry.object@)) by {
                    if entries_map(seen).contains_key(entry.object@) {
                        let i = choose|i: int|
                            0 <= i < seen.len() && (#[trigger] seen[i]).object@ == entry.object@;
                        assert(before[i].object@ == before[at].object@);
                    }
                }
                lemma_released_insert(
                    entries_map(seen),
                    entry.object@,
                    held,
                    name,
                    task_timestamp,
                );
                lemma_release(held, name, task_timestamp);
            }
            let ObjEntry { object, claims } = entry;
            let claims = release_claims(claims, &task_def.name, task_timestamp);
            if claims.len() > 0 {
                let entry = ObjEntry { object, claims };
                proof {
                    lemma_entries_push(kept@, entry);
                }
                kept.push(entry);
            }
        }
        assert(before.take(before.len() as int) =~= before);
        self.entries = kept;
    }
}

fn strip_stamp(stamps: Vec<Duration>, stamp: Duration) -> (out: Vec<Duration>)
    ensures
        out@ == without_stamp(stamps@, stamp),
{
    let mut out: Vec<Duration> = Vec::new();
    for t in it: stamps
        invariant
            it.seq() == stamps@,
            out@ == without_stamp(stamps@.take(it.index() as int), stamp),
    {
        assert(stamps@.take(it.index() + 1).drop_last() =~= stamps@.take(it.index() as int));
        if t != stamp {
            out.push(t);
        }
    }
    assert(stamps@.take(stamps@.len() as int) =~= stamps@);
    out
}

fn release_claims(claims: Vec<TaskClaim>, name: &String, stamp: Duration) -> (out: Vec<TaskClaim>)
    ensures
        claims_of(out@) == release(claims_of(claims@), name@, stamp),
{
    let ghost held = claims_of(claims@);
    let mut out: Vec<TaskClaim> = Vec::new();
    assert(claims_of(out@) =~= release(held.take(0), name@, stamp));
    for claim in it: claims
        invariant
            it.seq() == claims@,
            held == claims_of(claims@),
            claims_of(out@) == release(held.take(it.index() as int), name@, stamp),
    {
        let ghost at = it.index() as int;
        let ghost grown = claims_of(out@);
        assert(held.take(at + 1).drop_last() =~= held.take(at));
        assert(held.take(at + 1).last() == claim.claim());
        let TaskClaim { taskdef, stamps } = claim;
        if taskdef.name != *name {
            out.push(TaskClaim { taskdef, stamps });
            assert(claims_of(out@) =~= grown.push(claim.claim()));
        } else {
            let stamps = strip_stamp(stamps, stamp);
            if stamps.len() > 0 {
                let ghost left = TaskClaim { taskdef, stamps };
                out.push(TaskClaim { taskdef, stamps });
                assert(claims_of(out@) =~= grown.push(left.claim()));
            }
        }
    }
    assert(held.take(held.len() as int) =~= held);
    out
}

proof fn lemma_entries_prefix(entries: Seq<ObjEntry>, k: int)
    requires
        entries_wf(entries),
        0 <= k <= entries.len(),
    ensures
        entries_wf(entries.take(k)),
{
    let front = entries.take(k);
    assert forall|i: int, j: int| 0 <= i < j < front.len() implies (#[trigger] front[i]).object@ != (
    #[trigger] front[j]).object@ by {
        assert(front[i] == entries[i] && front[j] == entries[j]);
    }
    assert forall|i: int| 0 <= i < front.len() implies (#[trigger] front[i]).claims@.len() > 0
        && claims_wf(claims_of(front[i].claims@)) by {
        assert(front[i] == entries[i]);
    }
}

/// Releasing from a table with one more object releases from that object's
/// holders and from the rest independently.
pub proof fn lemma_released_insert(
    table: TableView,
    object: ObjectKey,
    claims: Seq<Claim>,
    name: Seq<char>,
    stamp: Duration,
)
    requires
        !table.contains_key(object),
    ensures
        released(table.insert(object, claims), name, stamp) == if release(claims, name, stamp).len()
            > 0 {
            released(table, name, stamp).insert(object, release(claims, name, stamp))
        } else {
            released(table, name, stamp)
        },
{
    let grown = table.insert(object, claims);
    if release(claims, name, stamp).len() > 0 {
        assert(released(grown, name, stamp) =~= released(table, name, stamp).insert(
            object,
            release(claims, name, stamp),
        ));
    } else {
        assert(released(grown, name, stamp) =~= released(table, name, stamp));
    }
}

/// Once a holder forbids a kind of task on an object, a claim of that kind
/// on that object is answered with a conflict, whatever else holds it.
pub proof fn law_conflict_wins(table: TableView, object: ObjectKey, holder: int, newcomer: ConfigTask)
    requires
        0 <= holder < claims_at(table, object).len(),
        conflicts_with(claims_at(table, object)[holder].task, newcomer),
    ensures
        verdict(claims_at(table, object), newcomer) == Verdict::Conflict,
{
}

/// While a holder whose work the newcomer would replace (or with which the
/// newcomer declares a clash) holds the object, and no holder forbids the
/// newcomer, the newcomer's claim is answered with wait.
pub proof fn law_override_waits(table: TableView, object: ObjectKey, holder: int, newcomer: ConfigTask)
    requires
        0 <= holder < claims_at(table, object).len(),
        must_wait_for(claims_at(table, object)[holder].task, newcomer),
        forall|i: int|
            0 <= i < claims_at(table, object).len() ==> !conflicts_with(
                (#[trigger] claims_at(table, object)[i]).task,
                newcomer,
            ),
    ensures
        verdict(claims_at(table, object), newcomer) == Verdict::Wait,
{
}

/// Once the task that made the newcomer wait has let go, the newcomer's
/// claim is granted, provided that task was the only one of its kind on the
/// object and no holder of another kind stands in the newcomer's way.
pub proof fn law_wait_ends(
    table: TableView,
    object: ObjectKey,
    holder: int,
    stamp: Duration,
    newcomer: ConfigTask,
)
    requires
        table_wf(table),
        0 <= holder < claims_at(table, object).len(),
        forall|t: Duration| claims_at(table, object)[holder].stamps.contains(t) ==> t == stamp,
        forall|i: int|
            0 <= i < claims_at(table, object).len() && i != holder ==> {
                let other = (#[trigger] claims_at(table, object)[i]).task;
                !conflicts_with(other, newcomer) && !must_wait_for(other, newcomer)
                    && !overridden_by(other, newcomer)
            },
    ensures
        verdict(
            claims_at(
                released(table, claims_at(table, object)[holder].task.name@, stamp),
                object,
            ),
            newcomer,
        ) == Verdict::Grant,
{
    let held = claims_at(table, object);
    let name = held[holder].task.name@;
    let left = claims_at(released(table, name, stamp), object);
    assert(table.contains_key(object));
    assert(claims_wf(held));
    lemma_release(held, name, stamp);
    lemma_release_origin(held, name, stamp);
    assert(left.len() > 0 ==> left == release(held, name, stamp));
    assert forall|i: int| 0 <= i < left.len() implies {
        let other = (#[trigger] left[i]).task;
        !conflicts_with(other, newcomer) && !must_wait_for(other, newcomer) && !overridden_by(
            other,
            newcomer,
        )
    } by {
        let j = choose|j: int|
            0 <= j < held.len() && held[j].task == left[i].task && (held[j].task.name@ == name
                ==> without_stamp(held[j].stamps, stamp).len() > 0);
        if j == holder {
            lemma_without_stamp(held[j].stamps, stamp);
            let w = without_stamp(held[j].stamps, stamp);
            assert(w.contains(w[0]));
            assert(held[j].stamps.contains(w[0]));
        }
    }
}

/// Every holder that `release` leaves was a holder before, and one of the
/// released kind still holds through another task.
pub proof fn lemma_release_origin(claims: Seq<Claim>, name: Seq<char>, stamp: Duration)
    ensures
        forall|i: int|
            0 <= i < release(claims, name, stamp).len() ==> exists|j: int|
                0 <= j < claims.len() && claims[j].task == (#[trigger] release(
                    claims,
                    name,
                    stamp,
                )[i]).task && (claims[j].task.name@ == name ==> without_stamp(
                    claims[j].stamps,
                    stamp,
                ).len() > 0),
    decreases claims.len(),
{
    if claims.len() > 0 {
        let front = claims.drop_last();
        lemma_release_origin(front, name, stamp);
        let rest = release(front, name, stamp);
        let out = release(claims, name, stamp);
        assert forall|i: int| 0 <= i < out.len() implies exists|j: int|
            0 <= j < claims.len() && claims[j].task == (#[trigger] out[i]).task && (
            claims[j].task.name@ == name ==> without_stamp(claims[j].stamps, stamp).len() > 0) by {
            if i < rest.len() {
                let j = choose|j: int|
                    0 <= j < front.len() && front[j].task == rest[i].task && (front[j].task.name@
                        == name ==> without_stamp(front[j].stamps, stamp).len() > 0);
                assert(claims[j] == front[j]);
            } else {
                let j = claims.len() - 1;
                assert(claims[j].task == out[i].task);
            }
        }
    }
}

/// While a holder that replaces the newcomer's work holds the object, and
/// no holder forbids the newcomer or makes it wait, the newcomer's claim is
/// answered with skip. (`ObjTable::insert` records nothing on skip.)
pub proof fn law_overridden_skips(table: TableView, object: ObjectKey, holder: int, newcomer: ConfigTask)
    requires
        0 <= holder < claims_at(table, object).len(),
        overridden_by(claims_at(table, object)[holder].task, newcomer),
        forall|i: int|
            0 <= i < claims_at(table, object).len() ==> !conflicts_with(
                (#[trigger] claims_at(table, object)[i]).task,
                newcomer,
            ) && !must_wait_for(claims_at(table, object)[i].task, newcomer),
    ensures
        verdict(claims_at(table, object), newcomer) == Verdict::Skip,
{
}

/// After a task has let go, it holds nothing.
pub proof fn law_released_holds_nothing(
    table: TableView,
    object: ObjectKey,
    name: Seq<char>,
    stamp: Duration,
)
    ensures
        !holds(released(table, name, stamp), object, name, stamp),
{
    if table.contains_key(object) {
        lemma_release(table[object], name, stamp);
    }
}

/// Letting go keeps a table well formed.
pub proof fn lemma_released_wf(table: TableView, name: Seq<char>, stamp: Duration)
    requires
        table_wf(table),
    ensures
        table_wf(released(table, name, stamp)),
{
    assert forall|o: ObjectKey| #[trigger]
        released(table, name, stamp).contains_key(o) implies released(table, name, stamp)[o].len()
        > 0 && claims_wf(released(table, name, stamp)[o]) by {
        assert(table.contains_key(o));
        lemma_release(table[o], name, stamp);
    }
}

/// Letting go of what a task does not hold changes nothing.
pub proof fn law_remove_absent(table: TableView, name: Seq<char>, stamp: Duration)
    requires
        table_wf(table),
        forall|o: ObjectKey| !holds(table, o, name, stamp),
    ensures
        released(table, name, stamp) == table,
{
    assert forall|o: ObjectKey| #[trigger] table.contains_key(o) implies release(
        table[o],
        name,
        stamp,
    ) == table[o] by {
        assert(!holds(table, o, name, stamp));
        assert forall|i: int| 0 <= i < table[o].len() implies !((#[trigger] table[o][i]).task.name@
            == name && table[o][i].stamps.contains(stamp)) by {
            assert(claims_at(table, o)[i] == table[o][i]);
        }
        lemma_release(table[o], name, stamp);
    }
    assert(released(table, name, stamp) =~= table);
}

/// Letting go twice is letting go once.
pub proof fn law_remove_idempotent(table: TableView, name: Seq<char>, stamp: Duration)
    requires
        table_wf(table),
    ensures
        released(released(table, name, stamp), name, stamp) == released(table, name, stamp),
{
    lemma_released_wf(table, name, stamp);
    assert forall|o: ObjectKey| !holds(released(table, name, stamp), o, name, stamp) by {
        law_released_holds_nothing(table, o, name, stamp);
    }
    law_remove_absent(released(table, name, stamp), name, stamp);
}

} // verus!
