//! Filtering: the lines of a task file are read one by one, each naming an
//! object; the object is claimed in the object table; and each line that
//! is granted is rewritten for the subtask whose command it belongs to.
use super::{
    cleans_up, Task, TaskCleanup, TaskFiltered, TaskGrabbed, TaskResult, TaskView, Times,
};
use crate::config::{Config, ConfigTask, Coordinate};
use crate::format::Duration;
use crate::objtable::{
    claims_at, conflict_reason, last_conflict, released, verdict, with_claim, LookupError,
    ObjLocation, ObjTable, Object, ObjectKey, TableView, Verdict,
};
use crate::subtask::SubTask;
use crate::template::{captures_iter_of, captures_of, filled, format_line, regex_captures, split_of, NAME_GROUP};
use crate::text::{
    key_position, list_names, name_position, names_it, owned, parse_number, parse_unsigned,
    push_str, string_from_chars,
};
use crate::values::Values;
use std::marker::PhantomData;
use vstd::prelude::*;

verus! {

/// Why a line of a task file cannot be read.
#[derive(Clone, Copy, Debug, PartialEq, Eq, Structural)]
pub enum LineFault {
    /// The line does not follow the template for lines.
    Malformed,
    /// The line does not give a value that the command or the file format
    /// asks for.
    MissingValue,
    /// A coordinate of the object is no number that fits.
    BadCoordinate(Coordinate),
    /// The line does not name an object.
    NoObject,
}

/// What a line of a task file says.
pub struct Decoded {
    pub object: ObjectKey,
    /// The values for the command.
    pub cmdvals: Map<Seq<char>, Seq<char>>,
    /// The values for the rewritten line.
    pub filevals: Map<Seq<char>, Seq<char>>,
}

/// What a line of a task file says, as values to work with.
#[derive(Debug)]
pub struct DecodedLine {
    pub object: Object,
    pub cmdvals: Values,
    pub filevals: Values,
}

/// The names whose groups are asked of a line: the values of the
/// configuration, and the object.
pub open spec fn line_group_names(config: Config) -> Seq<Seq<char>> {
    config.task_content_values.deep_view().push("object"@)
}

/// The values of the path that are among `wanted`.
pub open spec fn base_values(pathvals: Map<Seq<char>, Seq<char>>, wanted: Seq<String>) -> Map<
    Seq<char>,
    Seq<char>,
> {
    Map::new(
        |key: Seq<char>| names_it(wanted, key) && pathvals.contains_key(key),
        |key: Seq<char>| pathvals[key],
    )
}

/// `values` with what the line gives for the first `k` of `keys`, as far
/// as they are among `wanted`; or the fault of a wanted value that the
/// line does not give.
pub open spec fn line_values(
    values: Map<Seq<char>, Seq<char>>,
    keys: Seq<Seq<char>>,
    wanted: Seq<String>,
    groups: Seq<Option<Seq<char>>>,
    k: int,
) -> Result<Map<Seq<char>, Seq<char>>, LineFault>
    decreases k,
{
    if k <= 0 {
        Ok(values)
    } else {
        match line_values(values, keys, wanted, groups, k - 1) {
            Err(e) => Err(e),
            Ok(so_far) => if !names_it(wanted, keys[k - 1]) {
                Ok(so_far)
            } else {
                match groups[k - 1] {
                    None => Err(LineFault::MissingValue),
                    Some(text) => Ok(so_far.insert(keys[k - 1], text)),
                }
            },
        }
    }
}

/// A coordinate of the object of a line: what the line gives for it, else
/// what the path gives for it, else 0.
pub open spec fn coordinate(
    keys: Seq<Seq<char>>,
    groups: Seq<Option<Seq<char>>>,
    pathvals: Map<Seq<char>, Seq<char>>,
    name: Seq<char>,
) -> Option<u32> {
    let at = key_position(keys, name);
    if at < keys.len() {
        match groups[at] {
            None => None,
            Some(text) => match parse_unsigned(text, u32::MAX as nat) {
                Ok(n) => Some(n as u32),
                Err(_) => None,
            },
        }
    } else if pathvals.contains_key(name) {
        match parse_unsigned(pathvals[name], u32::MAX as nat) {
            Ok(n) => Some(n as u32),
            Err(_) => None,
        }
    } else {
        Some(0u32)
    }
}

/// What a line says whose groups for `line_group_names` are `groups`;
/// nothing where the line does not match.
///
/// The values for the command are those of the path and of the line that
/// the command asks for, `file` left out; likewise for the file format.
pub open spec fn decoded(
    config: Config,
    taskdef: ConfigTask,
    pathvals: Map<Seq<char>, Seq<char>>,
    groups: Option<Seq<Option<Seq<char>>>>,
) -> Result<Decoded, LineFault> {
    let keys = config.task_content_values.deep_view();
    match groups {
        None => Err(LineFault::Malformed),
        Some(found) => if found.len() != keys.len() + 1 {
            Err(LineFault::Malformed)
        } else {
            let cmd = line_values(
                base_values(pathvals, taskdef.command_values@),
                keys,
                taskdef.command_values@,
                found,
                keys.len() as int,
            );
            let file = line_values(
                base_values(pathvals, taskdef.file_format_values@),
                keys,
                taskdef.file_format_values@,
                found,
                keys.len() as int,
            );
            let pod = coordinate(keys, found, pathvals, "pod"@);
            let block = coordinate(keys, found, pathvals, "block"@);
            let cap = coordinate(keys, found, pathvals, "cap"@);
            let scatter = coordinate(keys, found, pathvals, "scatter"@);
            if cmd is Err {
                Err(cmd->Err_0)
            } else if file is Err {
                Err(file->Err_0)
            } else if pod is None {
                Err(LineFault::BadCoordinate(Coordinate::Pod))
            } else if block is None {
                Err(LineFault::BadCoordinate(Coordinate::Block))
            } else if cap is None {
                Err(LineFault::BadCoordinate(Coordinate::Cap))
            } else if scatter is None {
                Err(LineFault::BadCoordinate(Coordinate::Scatter))
            } else if found[keys.len() as int] is None {
                Err(LineFault::NoObject)
            } else {
                Ok(
                    Decoded {
                        object: ObjectKey {
                            name: found[keys.len() as int]->Some_0,
                            location: ObjLocation {
                                pod: pod->Some_0,
                                block: block->Some_0,
                                cap: cap->Some_0,
                                scatter: scatter->Some_0,
                            },
                        },
                        cmdvals: cmd->Ok_0.remove("file"@),
                        filevals: file->Ok_0,
                    },
                )
            }
        },
    }
}

/// The values of the path that are among `wanted`.
fn collect_base(pathvals: &Values, wanted: &Vec<String>) -> (values: Values)
    requires
        pathvals.wf(),
    ensures
        values.wf(),
        values@ == base_values(pathvals@, wanted@),
{
    let mut values = Values::new();
    let mut k: usize = 0;
    assert(values@ =~= base_values(pathvals@, wanted@.take(0)));
    while k < wanted.len()
        invariant
            0 <= k <= wanted.len(),
            pathvals.wf(),
            values.wf(),
            values@ == base_values(pathvals@, wanted@.take(k as int)),
        decreases wanted.len() - k,
    {
        let ghost before = wanted@.take(k as int);
        let ghost after = wanted@.take(k + 1);
        let ghost key = wanted@[k as int]@;
        proof {
            assert(after.drop_last() =~= before);
            assert forall|name: Seq<char>| names_it(after, name) <==> (names_it(before, name)
                || name == key) by {
                if names_it(after, name) {
                    let i = choose|i: int| 0 <= i < after.len() && (#[trigger] after[i])@ == name;
                    if i < k {
                        assert(before[i]@ == name);
                    }
                }
                if names_it(before, name) {
                    let i = choose|i: int| 0 <= i < before.len() && (#[trigger] before[i])@ == name;
                    assert(after[i]@ == name);
                }
                if name == key {
                    assert(after[k as int]@ == name);
                }
            }
        }
        match pathvals.get(wanted[k].as_str()) {
            None => {
                assert(values@ =~= base_values(pathvals@, after));
            },
            Some(value) => {
                let _ = values.insert(owned(wanted[k].as_str()), owned(value.as_str()));
                assert(values@ =~= base_values(pathvals@, after));
            },
        }
        k += 1;
    }
    assert(wanted@.take(wanted@.len() as int) =~= wanted@);
    values
}

/// Adds to `values` what the line gives for the keys among `wanted`.
fn collect_line(values: &mut Values, keys: &Vec<String>, wanted: &Vec<String>, groups: &Vec<
    Option<String>,
>) -> (r: Result<(), LineFault>)
    requires
        old(values).wf(),
        groups.len() == keys.len() + 1,
    ensures
        final(values).wf(),
        match line_values(
            old(values)@,
            keys.deep_view(),
            wanted@,
            groups.deep_view(),
            keys.len() as int,
        ) {
            Ok(all) => r is Ok && final(values)@ == all,
            Err(e) => r == Err::<(), LineFault>(e),
        },
{
    let ghost start = values@;
    let ghost names = keys.deep_view();
    let ghost found = groups.deep_view();
    let mut k: usize = 0;
    while k < keys.len()
        invariant
            0 <= k <= keys.len(),
            groups.len() == keys.len() + 1,
            names == keys.deep_view(),
            found == groups.deep_view(),
            start == old(values)@,
            values.wf(),
            line_values(start, names, wanted@, found, k as int) == Ok::<
                Map<Seq<char>, Seq<char>>,
                LineFault,
            >(values@),
        decreases keys.len() - k,
    {
        assert(names[k as int] == keys@[k as int]@);
        assert(found[k as int] == groups@[k as int].deep_view());
        if list_names(wanted, &keys[k]) {
            match &groups[k] {
                None => {
                    proof {
                        assert(line_values(start, names, wanted@, found, k + 1) == Err::<
                            Map<Seq<char>, Seq<char>>,
                            LineFault,
                        >(LineFault::MissingValue));
                        lemma_line_values_error(
                            start,
                            names,
                            wanted@,
                            found,
                            k + 1,
                            keys.len() as int,
                        );
                    }
                    return Err(LineFault::MissingValue);
                },
                Some(text) => {
                    let _ = values.insert(owned(keys[k].as_str()), owned(text.as_str()));
                },
            }
        }
        k += 1;
    }
    Ok(())
}

proof fn lemma_line_values_error(
    values: Map<Seq<char>, Seq<char>>,
    keys: Seq<Seq<char>>,
    wanted: Seq<String>,
    groups: Seq<Option<Seq<char>>>,
    k: int,
    n: int,
)
    requires
        0 <= k <= n,
        line_values(values, keys, wanted, groups, k) is Err,
    ensures
        line_values(values, keys, wanted, groups, n) == line_values(values, keys, wanted, groups, k),
    decreases n - k,
{
    if k < n {
        lemma_line_values_error(values, keys, wanted, groups, k, n - 1);
    }
}

/// A coordinate of the object of a line.
fn read_coordinate(keys: &Vec<String>, groups: &Vec<Option<String>>, pathvals: &Values, name: &str) -> (r:
    Option<u32>)
    requires
        pathvals.wf(),
        groups.len() == keys.len() + 1,
    ensures
        r == coordinate(keys.deep_view(), groups.deep_view(), pathvals@, name@),
{
    let at = name_position(keys, name);
    if at < keys.len() {
        assert(groups.deep_view()[at as int] == groups@[at as int].deep_view());
        match &groups[at] {
            None => None,
            Some(text) => match parse_number(text.as_str(), u32::MAX as u64) {
                Ok(n) => Some(n as u32),
                Err(_) => None,
            },
        }
    } else {
        match pathvals.get(name) {
            Some(text) => match parse_number(text.as_str(), u32::MAX as u64) {
                Ok(n) => Some(n as u32),
                Err(_) => None,
            },
            None => Some(0),
        }
    }
}

impl<S> Task<S> {
    /// Reads a line of the task file from what the line template found in
    /// it: `groups` are the groups of the names `line_group_names`, or
    /// nothing where the line does not match.
    pub fn decode_groups(&self, config: &Config, groups: &Option<Vec<Option<String>>>) -> (r: Result<
        DecodedLine,
        LineFault,
    >)
        requires
            self.wf(),
        ensures
            match decoded(*config, self@.taskdef, self@.pathvals, groups.deep_view()) {
                Ok(line) => r is Ok && r->Ok_0.object@ == line.object && r->Ok_0.cmdvals.wf()
                    && r->Ok_0.cmdvals@ == line.cmdvals && r->Ok_0.filevals.wf()
                    && r->Ok_0.filevals@ == line.filevals,
                Err(e) => r == Err::<DecodedLine, LineFault>(e),
            },
    {
        let keys = &config.task_content_values;
        let found = match groups {
            None => {
                return Err(LineFault::Malformed);
            },
            Some(found) => found,
        };
        if found.len() == 0 || found.len() - 1 != keys.len() {
            return Err(LineFault::Malformed);
        }
        let taskdef = &self.itask.taskdef;
        let mut cmdvals = collect_base(&self.itask.pathvals, &taskdef.command_values);
        match collect_line(&mut cmdvals, keys, &taskdef.command_values, found) {
            Err(e) => {
                return Err(e);
            },
            Ok(()) => {},
        }
        let mut filevals = collect_base(&self.itask.pathvals, &taskdef.file_format_values);
        match collect_line(&mut filevals, keys, &taskdef.file_format_values, found) {
            Err(e) => {
                return Err(e);
            },
            Ok(()) => {},
        }
        let pod = match read_coordinate(keys, found, &self.itask.pathvals, "pod") {
            None => {
                return Err(LineFault::BadCoordinate(Coordinate::Pod));
            },
            Some(n) => n,
        };
        let block = match read_coordinate(keys, found, &self.itask.pathvals, "block") {
            None => {
                return Err(LineFault::BadCoordinate(Coordinate::Block));
            },
            Some(n) => n,
        };
        let cap = match read_coordinate(keys, found, &self.itask.pathvals, "cap") {
            None => {
                return Err(LineFault::BadCoordinate(Coordinate::Cap));
            },
            Some(n) => n,
        };
        let scatter = match read_coordinate(keys, found, &self.itask.pathvals, "scatter") {
            None => {
                return Err(LineFault::BadCoordinate(Coordinate::Scatter));
            },
            Some(n) => n,
        };
        assert(groups.deep_view()->Some_0[keys.len() as int] == found@[keys.len() as int].deep_view());
        let name = match &found[keys.len()] {
            None => {
                return Err(LineFault::NoObject);
            },
            Some(name) => owned(name.as_str()),
        };
        let _ = cmdvals.remove("file");
        Ok(
            DecodedLine {
                object: Object { name, location: ObjLocation { pod, block, cap, scatter } },
                cmdvals,
                filevals,
            },
        )
    }

    /// Reads a line of the task file.
    pub fn decode_line(&self, config: &Config, line: &str) -> (r: Result<DecodedLine, LineFault>)
        requires
            self.wf(),
        ensures
            match decoded(
                *config,
                self@.taskdef,
                self@.pathvals,
                captures_of(config.task_content_regex.source(), line@, line_group_names(*config)),
            ) {
                Ok(line) => r is Ok && r->Ok_0.object@ == line.object && r->Ok_0.cmdvals.wf()
                    && r->Ok_0.cmdvals@ == line.cmdvals && r->Ok_0.filevals.wf()
                    && r->Ok_0.filevals@ == line.filevals,
                Err(e) => r == Err::<DecodedLine, LineFault>(e),
            },
    {
        let mut names: Vec<String> = Vec::new();
        let mut i: usize = 0;
        assert(names.deep_view() =~= config.task_content_values.deep_view().take(0));
        while i < config.task_content_values.len()
            invariant
                0 <= i <= config.task_content_values.len(),
                names.deep_view() == config.task_content_values.deep_view().take(i as int),
            decreases config.task_content_values.len() - i,
        {
            let ghost before = names.deep_view();
            names.push(owned(config.task_content_values[i].as_str()));
            assert(names.deep_view() =~= before.push(config.task_content_values@[i as int]@));
            assert(config.task_content_values.deep_view().take(i + 1)
                =~= config.task_content_values.deep_view().take(i as int).push(
                config.task_content_values@[i as int]@,
            ));
            i += 1;
        }
        let ghost listed = names.deep_view();
        assert(config.task_content_values.deep_view().take(
            config.task_content_values@.len() as int,
        ) =~= config.task_content_values.deep_view());
        names.push(owned("object"));
        assert(names.deep_view() =~= listed.push("object"@));
        let groups = regex_captures(&config.task_content_regex, line, &names);
        self.decode_groups(config, &groups)
    }
}

/// How far filtering has come: the next line to read, the object table,
/// the values of the subtasks made so far, and what has been written.
pub struct FilterState {
    pub offset: int,
    pub table: TableView,
    pub groups: Seq<Map<Seq<char>, Seq<char>>>,
    /// The lines that were granted, as they were read.
    pub accepted: Seq<Seq<char>>,
    /// The rewritten lines, each with the position of its subtask.
    pub routed: Seq<(int, Seq<char>)>,
}

/// How filtering ended.
pub enum FilterEnd {
    /// Every line has been read.
    Done,
    /// The line at the offset has to wait for a holder of its object.
    Waiting,
    /// The line at the offset cannot be read.
    Fault { line: Seq<char>, fault: LineFault },
    /// A holder of the object of the line at the offset forbids the task.
    Conflict { holder: Seq<char> },
    /// The line before the offset was granted but cannot be rewritten.
    Format { line: Seq<char>, reason: Seq<char> },
}

/// How filtering ended, and how far it had come.
pub struct FilterOutcome {
    pub end: FilterEnd,
    pub state: FilterState,
}

/// The position of the first of `groups` that equals `values`, or the
/// number of groups where none does.
pub open spec fn group_index(groups: Seq<Map<Seq<char>, Seq<char>>>, values: Map<Seq<char>, Seq<char>>) -> int
    decreases groups.len(),
{
    if groups.len() == 0 {
        0
    } else if groups[0] == values {
        0
    } else {
        1 + group_index(groups.drop_first(), values)
    }
}

/// The values that set each subtask's command apart.
pub open spec fn groups_of(subtasks: Seq<SubTask>) -> Seq<Map<Seq<char>, Seq<char>>> {
    subtasks.map_values(|s: SubTask| s.cmdvals@)
}

/// The rewritten lines with the positions of their subtasks.
pub open spec fn routed_view(routed: Seq<(usize, String)>) -> Seq<(int, Seq<char>)> {
    routed.map_values(|r: (usize, String)| (r.0 as int, r.1@))
}

/// Filtering from `state` on: line by line, until the lines end, a line
/// has to wait, or a line fails.
///
/// A line whose object a holder replaces is passed over. A line that is
/// granted is recorded in the table and among the accepted lines, and its
/// rewritten form goes to the first subtask with the line's values for the
/// command, or to a new subtask.
#[verifier::opaque]
pub open spec fn filter_run(config: Config, task: TaskView, lines: Seq<Seq<char>>, state: FilterState) -> FilterOutcome
    decreases lines.len() - state.offset,
{
    if state.offset < 0 || state.offset >= lines.len() {
        FilterOutcome { end: FilterEnd::Done, state }
    } else {
        let line = lines[state.offset];
        match decoded(
            config,
            task.taskdef,
            task.pathvals,
            captures_of(config.task_content_regex.source(), line, line_group_names(config)),
        ) {
            Err(fault) => FilterOutcome { end: FilterEnd::Fault { line, fault }, state },
            Ok(said) => {
                let held = claims_at(state.table, said.object);
                match verdict(held, task.taskdef) {
                    Verdict::Wait => FilterOutcome { end: FilterEnd::Waiting, state },
                    Verdict::Conflict => FilterOutcome {
                        end: FilterEnd::Conflict {
                            holder: conflict_reason(
                                held[last_conflict(held, task.taskdef)].task.name@,
                                said.object,
                            ),
                        },
                        state,
                    },
                    Verdict::Skip => filter_run(
                        config,
                        task,
                        lines,
                        FilterState { offset: state.offset + 1, ..state },
                    ),
                    Verdict::Grant => {
                        let granted = FilterState {
                            offset: state.offset + 1,
                            table: state.table.insert(
                                said.object,
                                with_claim(held, task.taskdef, task.timestamp),
                            ),
                            accepted: state.accepted.push(line),
                            ..state
                        };
                        match filled(
                            split_of(config.braced_name_regex.source(), task.taskdef.file_format@),
                            captures_iter_of(
                                config.braced_name_regex.source(),
                                task.taskdef.file_format@,
                                NAME_GROUP@,
                            ),
                            said.filevals,
                        ) {
                            Err(reason) => FilterOutcome {
                                end: FilterEnd::Format { line, reason },
                                state: granted,
                            },
                            Ok(text) => {
                                let at = group_index(state.groups, said.cmdvals);
                                filter_run(
                                    config,
                                    task,
                                    lines,
                                    FilterState {
                                        groups: if at == state.groups.len() {
                                            state.groups.push(said.cmdvals)
                                        } else {
                                            state.groups
                                        },
                                        routed: granted.routed.push((at, text)),
                                        ..granted
                                    },
                                )
                            },
                        }
                    },
                }
            },
        }
    }
}

/// The state that filtering a task starts from.
pub open spec fn filter_start(task: TaskView, table: TableView) -> FilterState {
    FilterState {
        offset: task.parsedoffset as int,
        table,
        groups: groups_of(task.subtasks),
        accepted: Seq::empty(),
        routed: Seq::empty(),
    }
}

/// The message of a task that failed in filtering.
pub open spec fn failure_text(task: TaskView, end: FilterEnd) -> Seq<char> {
    match end {
        FilterEnd::Fault { line, fault } => "ERROR: Task file \""@ + task.currentpath + (
        if fault == LineFault::Malformed {
            "\" does not match expected content formatting!\nOffending line: "@
        } else {
            "\" holds a line without a usable value!\nOffending line: "@
        }) + line,
        FilterEnd::Conflict { holder } => "ERROR: Task conflict detected with new "@
            + task.taskdef.name@ + " ops: "@ + holder,
        FilterEnd::Format { line, reason } => "ERROR: Failed to filter taskfile "@
            + task.taskdef.name@ + " line "@ + line + ": "@ + reason,
        _ => Seq::empty(),
    }
}

/// Whether `after` is the task `before` after filtering up to `state`:
/// the offset has moved, the old subtasks are as they were, the new ones
/// have not been started, and each subtask has the values of its group.
pub open spec fn filtered_task(
    after: TaskView,
    before: TaskView,
    state: FilterState,
    filtered: Option<Duration>,
    now: Duration,
) -> bool {
    &&& after == (TaskView {
        parsedoffset: state.offset as usize,
        subtasks: after.subtasks,
        times: Times { filtered, ..before.times },
        ..before
    })
    &&& groups_of(after.subtasks) == state.groups
    &&& before.subtasks.len() <= after.subtasks.len()
    &&& after.subtasks.take(before.subtasks.len() as int) == before.subtasks
    &&& forall|i: int|
        before.subtasks.len() <= i < after.subtasks.len() ==> (#[trigger] after.subtasks[i]).child
            is NotStarted && after.subtasks[i].started == now
}

/// Whether `plan` ends the task `before` that failed in filtering at the
/// offset `offset`, with the subtasks `subtasks`.
pub open spec fn failed_cleanup(
    before: TaskView,
    offset: int,
    subtasks: Seq<SubTask>,
    config: Config,
    stamp: Seq<char>,
    plan: TaskCleanup,
) -> bool {
    cleans_up(TaskView { parsedoffset: offset as usize, subtasks, ..before }, config, stamp, plan)
}

/// Whether `report` tells the outcome `out` of filtering the task
/// `before`, where `table` is the object table afterwards.
///
/// Where the lines are all read the task has moved on, and where a line
/// waits it stays; either way the table is as filtering left it. Where the
/// task failed it is ended: what it held in the table is let go, and the
/// report holds the plan for its files.
pub open spec fn filter_reported(
    report: FilterReport,
    before: TaskView,
    out: FilterOutcome,
    table: TableView,
    config: Config,
    now: Duration,
) -> bool {
    &&& report.accepted.deep_view() == out.state.accepted
    &&& routed_view(report.routed@) == out.state.routed
    &&& match out.end {
        FilterEnd::Done => {
            &&& report.result is Transformed
            &&& report.result->Transformed_0.wf()
            &&& filtered_task(report.result->Transformed_0@, before, out.state, Some(now), now)
            &&& table == out.state.table
            &&& report.cleanup is None
        },
        FilterEnd::Waiting => {
            &&& report.result is Unchanged
            &&& report.result->Unchanged_0.wf()
            &&& filtered_task(
                report.result->Unchanged_0@,
                before,
                out.state,
                before.times.filtered,
                now,
            )
            &&& table == out.state.table
            &&& report.cleanup is None
        },
        _ => {
            &&& report.result is Failed
            &&& report.result->Failed_0@ == failure_text(before, out.end)
            &&& table == released(out.state.table, before.taskdef.name@, before.timestamp)
            &&& report.cleanup is Some
            &&& exists|stamp: Seq<char>, subtasks: Seq<SubTask>| #[trigger]
                failed_cleanup(
                    before,
                    out.state.offset,
                    subtasks,
                    config,
                    stamp,
                    report.cleanup->Some_0,
                )
        },
    }
}

/// What filtering made of a task, and what is to be written.
pub struct FilterReport {
    pub result: TaskResult<Task<TaskGrabbed>, Task<TaskFiltered>>,
    /// The lines to append to the filtered task file.
    pub accepted: Vec<String>,
    /// The lines to append to the input files of the subtasks, each with
    /// the position of its subtask.
    pub routed: Vec<(usize, String)>,
    /// What is to be done where the task failed.
    pub cleanup: Option<TaskCleanup>,
}

/// The position of the first subtask with the values `values`.
fn find_group(subtasks: &Vec<SubTask>, values: &Values) -> (at: usize)
    requires
        values.wf(),
        forall|i: int| 0 <= i < subtasks@.len() ==> (#[trigger] subtasks@[i]).cmdvals.wf(),
    ensures
        at == group_index(groups_of(subtasks@), values@),
        at <= subtasks.len(),
{
    let ghost groups = groups_of(subtasks@);
    let mut i: usize = 0;
    assert(groups.skip(0) =~= groups);
    while i < subtasks.len()
        invariant
            0 <= i <= subtasks.len(),
            values.wf(),
            forall|j: int| 0 <= j < subtasks@.len() ==> (#[trigger] subtasks@[j]).cmdvals.wf(),
            groups == groups_of(subtasks@),
            group_index(groups, values@) == i + group_index(groups.skip(i as int), values@),
        decreases subtasks.len() - i,
    {
        let ghost rest = groups.skip(i as int);
        assert(rest[0] == subtasks@[i as int].cmdvals@);
        assert(rest.drop_first() =~= groups.skip(i + 1));
        if subtasks[i].cmdvals.same_as(values) {
            return i;
        }
        i += 1;
    }
    assert(groups.skip(groups.len() as int) =~= Seq::<Map<Seq<char>, Seq<char>>>::empty());
    i
}

/// The message of a line that cannot be read.
fn fault_message(currentpath: &str, line: &str, fault: LineFault) -> (text: String)
    ensures
        text@ == failure_text_of_fault(currentpath@, line@, fault),
{
    let mut out: Vec<char> = Vec::new();
    push_str(&mut out, "ERROR: Task file \"");
    push_str(&mut out, currentpath);
    match fault {
        LineFault::Malformed => {
            push_str(
                &mut out,
                "\" does not match expected content formatting!\nOffending line: ",
            );
        },
        _ => {
            push_str(&mut out, "\" holds a line without a usable value!\nOffending line: ");
        },
    }
    push_str(&mut out, line);
    assert(out@ =~= failure_text_of_fault(currentpath@, line@, fault));
    string_from_chars(&out)
}

/// The message of a line that cannot be read.
pub open spec fn failure_text_of_fault(currentpath: Seq<char>, line: Seq<char>, fault: LineFault) -> Seq<
    char,
> {
    "ERROR: Task file \""@ + currentpath + (if fault == LineFault::Malformed {
        "\" does not match expected content formatting!\nOffending line: "@
    } else {
        "\" holds a line without a usable value!\nOffending line: "@
    }) + line
}

fn conflict_message(name: &str, reason: &str) -> (text: String)
    ensures
        text@ == "ERROR: Task conflict detected with new "@ + name@ + " ops: "@ + reason@,
{
    let mut out: Vec<char> = Vec::new();
    push_str(&mut out, "ERROR: Task conflict detected with new ");
    push_str(&mut out, name);
    push_str(&mut out, " ops: ");
    push_str(&mut out, reason);
    string_from_chars(&out)
}

fn format_message(name: &str, line: &str, fault: &str) -> (text: String)
    ensures
        text@ == "ERROR: Failed to filter taskfile "@ + name@ + " line "@ + line@ + ": "@ + fault@,
{
    let mut out: Vec<char> = Vec::new();
    push_str(&mut out, "ERROR: Failed to filter taskfile ");
    push_str(&mut out, name);
    push_str(&mut out, " line ");
    push_str(&mut out, line);
    push_str(&mut out, ": ");
    push_str(&mut out, fault);
    string_from_chars(&out)
}

/// What one line did to a task that is being filtered.
enum LineStep {
    /// The line was dealt with: the next line is due.
    Next,
    /// The line has to wait.
    Wait,
    /// The task fails with this message.
    Fail(String),
}

impl Task<TaskGrabbed> {
    /// Deals with the line at the task's offset.
    fn filter_line(
        &mut self,
        lines: &Vec<String>,
        table: &mut ObjTable,
        config: &Config,
        now: Duration,
        accepted: &mut Vec<String>,
        routed: &mut Vec<(usize, String)>,
        Ghost(before): Ghost<TaskView>,
    ) -> (step: LineStep)
        requires
            old(self).wf(),
            old(table).wf(),
            old(self)@.parsedoffset < lines.len(),
            old(self)@ == (TaskView {
                parsedoffset: old(self)@.parsedoffset,
                subtasks: old(self)@.subtasks,
                ..before
            }),
        ensures
            final(self).wf(),
            final(table).wf(),
            final(self)@ == (TaskView {
                parsedoffset: final(self)@.parsedoffset,
                subtasks: final(self)@.subtasks,
                ..before
            }),
            old(self)@.subtasks.len() <= final(self)@.subtasks.len(),
            final(self)@.subtasks.take(old(self)@.subtasks.len() as int) == old(self)@.subtasks,
            forall|i: int|
                old(self)@.subtasks.len() <= i < final(self)@.subtasks.len() ==> {
                    &&& (#[trigger] final(self)@.subtasks[i]).child is NotStarted
                    &&& final(self)@.subtasks[i].started == now
                },
            step is Next ==> final(self)@.parsedoffset == old(self)@.parsedoffset + 1,
            ({
                let state = FilterState {
                    offset: old(self)@.parsedoffset as int,
                    table: old(table)@,
                    groups: groups_of(old(self)@.subtasks),
                    accepted: old(accepted).deep_view(),
                    routed: routed_view(old(routed)@),
                };
                let after = FilterState {
                    offset: final(self)@.parsedoffset as int,
                    table: final(table)@,
                    groups: groups_of(final(self)@.subtasks),
                    accepted: final(accepted).deep_view(),
                    routed: routed_view(final(routed)@),
                };
                let whole = filter_run(*config, before, lines.deep_view(), state);
                match step {
                    LineStep::Next => whole == filter_run(*config, before, lines.deep_view(), after),
                    LineStep::Wait => whole == (FilterOutcome { end: FilterEnd::Waiting, state: after }),
                    LineStep::Fail(text) => whole.state == after && !(whole.end is Done) && !(
                    whole.end is Waiting) && text@ == failure_text(before, whole.end),
                }
            }),
    {
        proof {
            reveal_with_fuel(filter_run, 2);
        }
        let at: usize = self.itask.parsedoffset;
        let ghost all = lines.deep_view();
        let ghost state = FilterState {
            offset: at as int,
            table: table@,
            groups: groups_of(self@.subtasks),
            accepted: accepted.deep_view(),
            routed: routed_view(routed@),
        };
        let line = lines[at].as_str();
        assert(all[at as int] == line@);
        let said = match self.decode_line(config, line) {
            Err(fault) => {
                return LineStep::Fail(fault_message(self.itask.currentpath.as_str(), line, fault));
            },
            Ok(said) => said,
        };
        let DecodedLine { object, cmdvals, filevals } = said;
        let ghost key = object@;
        match table.insert(object, &self.itask.taskdef, self.itask.timestamp) {
            Err(LookupError::Wait) => {
                return LineStep::Wait;
            },
            Err(LookupError::Skip) => {
                self.itask.parsedoffset = at + 1;
                return LineStep::Next;
            },
            Err(LookupError::Conflict(reason)) => {
                return LineStep::Fail(
                    conflict_message(self.itask.taskdef.name.as_str(), reason.as_str()),
                );
            },
            Ok(()) => {},
        }
        self.itask.parsedoffset = at + 1;
        let ghost shown = accepted.deep_view();
        accepted.push(owned(line));
        assert(accepted.deep_view() =~= shown.push(line@));
        let text = match format_line(
            &config.braced_name_regex,
            self.itask.taskdef.file_format.as_str(),
            &filevals,
        ) {
            Err(fault) => {
                return LineStep::Fail(
                    format_message(self.itask.taskdef.name.as_str(), line, fault.as_str()),
                );
            },
            Ok(text) => text,
        };
        let ghost groups = groups_of(self@.subtasks);
        let to = find_group(&self.itask.subtasks, &cmdvals);
        if to == self.itask.subtasks.len() {
            let ghost values = cmdvals@;
            let subtask = SubTask::new(
                cmdvals,
                self.itask.pid,
                self.itask.timestamp,
                to,
                &self.itask.taskdef,
                now,
            );
            self.itask.subtasks.push(subtask);
            assert(groups_of(self@.subtasks) =~= groups.push(values));
        }
        let ghost sent = routed_view(routed@);
        routed.push((to, text));
        assert(routed_view(routed@) =~= sent.push((to as int, text@)));
        LineStep::Next
    }

    /// Reads the lines of the task file from the task's offset on, claims
    /// the object of each line in the object table, and rewrites each line
    /// that is granted for the subtask of its command.
    ///
    /// `lines` are the lines of the task file, all of them. The report says
    /// what is to be written. The task moves on when its lines are read,
    /// stays where a line has to wait, and fails where a line cannot be
    /// read or rewritten or a holder forbids the task: then the task is
    /// ended, and the report says what is to be done.
    pub fn filter(self, lines: &Vec<String>, table: &mut ObjTable, config: &Config, now: Duration) -> (report:
        FilterReport)
        requires
            self.wf(),
            old(table).wf(),
        ensures
            final(table).wf(),
            ({
                let out = filter_run(
                    *config,
                    self@,
                    lines.deep_view(),
                    filter_start(self@, old(table)@),
                );
                filter_reported(report, self@, out, final(table)@, *config, now)
            }),
    {
        let ghost before = self@;
        let ghost all = lines.deep_view();
        let ghost start = filter_start(self@, table@);
        let mut task = self;
        let mut accepted: Vec<String> = Vec::new();
        let mut routed: Vec<(usize, String)> = Vec::new();
        assert(accepted.deep_view() =~= Seq::<Seq<char>>::empty());
        assert(routed_view(routed@) =~= Seq::<(int, Seq<char>)>::empty());
        assert(before.subtasks.take(before.subtasks.len() as int) =~= before.subtasks);
        while task.itask.parsedoffset < lines.len()
            invariant
                task.wf(),
                table.wf(),
                all == lines.deep_view(),
                before == self@,
                start == filter_start(self@, old(table)@),
                task@ == (TaskView {
                    parsedoffset: task@.parsedoffset,
                    subtasks: task@.subtasks,
                    ..before
                }),
                before.subtasks.len() <= task@.subtasks.len(),
                task@.subtasks.take(before.subtasks.len() as int) == before.subtasks,
                forall|i: int|
                    before.subtasks.len() <= i < task@.subtasks.len() ==> (
                    #[trigger] task@.subtasks[i]).child is NotStarted && task@.subtasks[i].started
                        == now,
                filter_run(*config, before, all, start) == filter_run(
                    *config,
                    before,
                    all,
                    FilterState {
                        offset: task@.parsedoffset as int,
                        table: table@,
                        groups: groups_of(task@.subtasks),
                        accepted: accepted.deep_view(),
                        routed: routed_view(routed@),
                    },
                ),
            decreases lines.len() - task.itask.parsedoffset,
        {
            let ghost earlier = task@.subtasks;
            let step = task.filter_line(
                lines,
                table,
                config,
                now,
                &mut accepted,
                &mut routed,
                Ghost(before),
            );
            let ghost reached = FilterState {
                offset: task@.parsedoffset as int,
                table: table@,
                groups: groups_of(task@.subtasks),
                accepted: accepted.deep_view(),
                routed: routed_view(routed@),
            };
            proof {
                assert(task@.subtasks.take(before.subtasks.len() as int)
                    =~= task@.subtasks.take(earlier.len() as int).take(
                    before.subtasks.len() as int,
                ));
                assert forall|i: int|
                    before.subtasks.len() <= i < task@.subtasks.len() implies (
                #[trigger] task@.subtasks[i]).child is NotStarted && task@.subtasks[i].started
                    == now by {
                    if i < earlier.len() {
                        assert(task@.subtasks.take(earlier.len() as int)[i] == task@.subtasks[i]);
                    }
                }
            }
            match step {
                LineStep::Next => {},
                LineStep::Wait => {
                    let report = FilterReport {
                        result: TaskResult::Unchanged(task),
                        accepted,
                        routed,
                        cleanup: None,
                    };
                    proof {
                        let out = filter_run(*config, before, all, start);
                        assert(out == (FilterOutcome { end: FilterEnd::Waiting, state: reached }));
                        assert(filtered_task(
                            report.result->Unchanged_0@,
                            before,
                            out.state,
                            before.times.filtered,
                            now,
                        ));
                    }
                    return report;
                },
                LineStep::Fail(text) => {
                    let ghost ended = task@;
                    let plan = task.release(table, config);
                    let report = FilterReport {
                        result: TaskResult::Failed(text),
                        accepted,
                        routed,
                        cleanup: Some(plan),
                    };
                    proof {
                        let out = filter_run(*config, before, all, start);
                        assert(out.state == reached);
                        let stamp = choose|stamp: Seq<char>| #[trigger]
                            cleans_up(ended, *config, stamp, plan);
                        assert(ended == (TaskView {
                            parsedoffset: out.state.offset as usize,
                            subtasks: ended.subtasks,
                            ..before
                        }));
                        assert(failed_cleanup(
                            before,
                            out.state.offset,
                            ended.subtasks,
                            *config,
                            stamp,
                            report.cleanup->Some_0,
                        ));
                    }
                    return report;
                },
            }
        }
        proof {
            reveal_with_fuel(filter_run, 1);
        }
        task.itask.times.filtered = Some(now);
        FilterReport {
            result: TaskResult::Transformed(Task { itask: task.itask, status: PhantomData }),
            accepted,
            routed,
            cleanup: None,
        }
    }
}

/// Filtering never moves the offset back, nor past the last line.
pub proof fn law_filter_moves_forward(
    config: Config,
    task: TaskView,
    lines: Seq<Seq<char>>,
    state: FilterState,
)
    requires
        0 <= state.offset <= lines.len(),
    ensures
        state.offset <= filter_run(config, task, lines, state).state.offset <= lines.len(),
        filter_run(config, task, lines, state).end is Done ==> filter_run(
            config,
            task,
            lines,
            state,
        ).state.offset == lines.len(),
    decreases lines.len() - state.offset,
{
    reveal_with_fuel(filter_run, 2);
    if state.offset < lines.len() {
        let line = lines[state.offset];
        let read = decoded(
            config,
            task.taskdef,
            task.pathvals,
            captures_of(config.task_content_regex.source(), line, line_group_names(config)),
        );
        if read is Ok {
            let said = read->Ok_0;
            let held = claims_at(state.table, said.object);
            match verdict(held, task.taskdef) {
                Verdict::Skip => {
                    law_filter_moves_forward(
                        config,
                        task,
                        lines,
                        FilterState { offset: state.offset + 1, ..state },
                    );
                },
                Verdict::Grant => {
                    let granted = FilterState {
                        offset: state.offset + 1,
                        table: state.table.insert(
                            said.object,
                            with_claim(held, task.taskdef, task.timestamp),
                        ),
                        accepted: state.accepted.push(line),
                        ..state
                    };
                    let text = filled(
                        split_of(config.braced_name_regex.source(), task.taskdef.file_format@),
                        captures_iter_of(
                            config.braced_name_regex.source(),
                            task.taskdef.file_format@,
                            NAME_GROUP@,
                        ),
                        said.filevals,
                    );
                    if text is Ok {
                        let at = group_index(state.groups, said.cmdvals);
                        law_filter_moves_forward(
                            config,
                            task,
                            lines,
                            FilterState {
                                groups: if at == state.groups.len() {
                                    state.groups.push(said.cmdvals)
                                } else {
                                    state.groups
                                },
                                routed: granted.routed.push((at, text->Ok_0)),
                                ..granted
                            },
                        );
                    }
                },
                _ => {},
            }
        }
    }
}

/// Where filtering stops at a line that has to wait, the offset stands at
/// that line and nothing of that line has been recorded: filtering again
/// from there, with the table as it is, stops at once in the same state.
pub proof fn law_filter_waits_in_place(
    config: Config,
    task: TaskView,
    lines: Seq<Seq<char>>,
    state: FilterState,
)
    requires
        0 <= state.offset <= lines.len(),
        filter_run(config, task, lines, state).end is Waiting,
    ensures
        filter_run(config, task, lines, filter_run(config, task, lines, state).state)
            == filter_run(config, task, lines, state),
        filter_run(config, task, lines, state).state.offset < lines.len(),
    decreases lines.len() - state.offset,
{
    reveal_with_fuel(filter_run, 2);
    if state.offset < lines.len() {
        let line = lines[state.offset];
        let read = decoded(
            config,
            task.taskdef,
            task.pathvals,
            captures_of(config.task_content_regex.source(), line, line_group_names(config)),
        );
        if read is Ok {
            let said = read->Ok_0;
            let held = claims_at(state.table, said.object);
            match verdict(held, task.taskdef) {
                Verdict::Skip => {
                    law_filter_waits_in_place(
                        config,
                        task,
                        lines,
                        FilterState { offset: state.offset + 1, ..state },
                    );
                },
                Verdict::Grant => {
                    let granted = FilterState {
                        offset: state.offset + 1,
                        table: state.table.insert(
                            said.object,
                            with_claim(held, task.taskdef, task.timestamp),
                        ),
                        accepted: state.accepted.push(line),
                        ..state
                    };
                    let text = filled(
                        split_of(config.braced_name_regex.source(), task.taskdef.file_format@),
                        captures_iter_of(
                            config.braced_name_regex.source(),
                            task.taskdef.file_format@,
                            NAME_GROUP@,
                        ),
                        said.filevals,
                    );
                    if text is Ok {
                        let at = group_index(state.groups, said.cmdvals);
                        law_filter_waits_in_place(
                            config,
                            task,
                            lines,
                            FilterState {
                                groups: if at == state.groups.len() {
                                    state.groups.push(said.cmdvals)
                                } else {
                                    state.groups
                                },
                                routed: granted.routed.push((at, text->Ok_0)),
                                ..granted
                            },
                        );
                    }
                },
                _ => {},
            }
        }
    }
}

/// Filtering from an offset on looks at no line before that offset: what
/// was dealt with by an earlier call is not read, and so not written,
/// again.
pub proof fn law_filter_ignores_past(
    config: Config,
    task: TaskView,
    lines: Seq<Seq<char>>,
    other: Seq<Seq<char>>,
    state: FilterState,
)
    requires
        0 <= state.offset,
        lines.len() == other.len(),
        forall|j: int| state.offset <= j < lines.len() ==> lines[j] == other[j],
    ensures
        filter_run(config, task, lines, state) == filter_run(config, task, other, state),
    decreases lines.len() - state.offset,
{
    reveal_with_fuel(filter_run, 2);
    if state.offset < lines.len() {
        let line = lines[state.offset];
        let read = decoded(
            config,
            task.taskdef,
            task.pathvals,
            captures_of(config.task_content_regex.source(), line, line_group_names(config)),
        );
        if read is Ok {
            let said = read->Ok_0;
            let held = claims_at(state.table, said.object);
            match verdict(held, task.taskdef) {
                Verdict::Skip => {
                    law_filter_ignores_past(
                        config,
                        task,
                        lines,
                        other,
                        FilterState { offset: state.offset + 1, ..state },
                    );
                },
                Verdict::Grant => {
                    let granted = FilterState {
                        offset: state.offset + 1,
                        table: state.table.insert(
                            said.object,
                            with_claim(held, task.taskdef, task.timestamp),
                        ),
                        accepted: state.accepted.push(line),
                        ..state
                    };
                    let text = filled(
                        split_of(config.braced_name_regex.source(), task.taskdef.file_format@),
                        captures_iter_of(
                            config.braced_name_regex.source(),
                            task.taskdef.file_format@,
                            NAME_GROUP@,
                        ),
                        said.filevals,
                    );
                    if text is Ok {
                        let at = group_index(state.groups, said.cmdvals);
                        law_filter_ignores_past(
                            config,
                            task,
                            lines,
                            other,
                            FilterState {
                                groups: if at == state.groups.len() {
                                    state.groups.push(said.cmdvals)
                                } else {
                                    state.groups
                                },
                                routed: granted.routed.push((at, text->Ok_0)),
                                ..granted
                            },
                        );
                    }
                },
                _ => {},
            }
        }
    }
}

/// Once the line at the offset can be read and no holder of its object
/// makes it wait or forbids it, filtering gets past that line.
pub proof fn law_filter_progress(
    config: Config,
    task: TaskView,
    lines: Seq<Seq<char>>,
    state: FilterState,
)
    requires
        0 <= state.offset < lines.len(),
        decoded(
            config,
            task.taskdef,
            task.pathvals,
            captures_of(config.task_content_regex.source(), lines[state.offset], line_group_names(config)),
        ) matches Ok(said) && (verdict(claims_at(state.table, said.object), task.taskdef)
            is Grant || verdict(claims_at(state.table, said.object), task.taskdef) is Skip),
    ensures
        filter_run(config, task, lines, state).state.offset > state.offset,
{
    reveal_with_fuel(filter_run, 2);
    let line = lines[state.offset];
    let said = decoded(
        config,
        task.taskdef,
        task.pathvals,
        captures_of(config.task_content_regex.source(), line, line_group_names(config)),
    )->Ok_0;
    let held = claims_at(state.table, said.object);
    match verdict(held, task.taskdef) {
        Verdict::Skip => {
            law_filter_moves_forward(
                config,
                task,
                lines,
                FilterState { offset: state.offset + 1, ..state },
            );
        },
        Verdict::Grant => {
            let granted = FilterState {
                offset: state.offset + 1,
                table: state.table.insert(
                    said.object,
                    with_claim(held, task.taskdef, task.timestamp),
                ),
                accepted: state.accepted.push(line),
                ..state
            };
            let text = filled(
                split_of(config.braced_name_regex.source(), task.taskdef.file_format@),
                captures_iter_of(config.braced_name_regex.source(), task.taskdef.file_format@, NAME_GROUP@),
                said.filevals,
            );
            if text is Ok {
                let at = group_index(state.groups, said.cmdvals);
                law_filter_moves_forward(
                    config,
                    task,
                    lines,
                    FilterState {
                        groups: if at == state.groups.len() {
                            state.groups.push(said.cmdvals)
                        } else {
                            state.groups
                        },
                        routed: granted.routed.push((at, text->Ok_0)),
                        ..granted
                    },
                );
            }
        },
        _ => {},
    }
}

} // verus!
