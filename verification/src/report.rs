//! The status of the runner, as text: how long it has run, what it is
//! doing, how many tasks it has in each stage, and what it has measured.
use crate::format::{duration_text, duration_to_string, Duration};
use crate::runner::{span, KindTimes, OpTimes, Runner, RunnerStatus, RunnerTimes, TaskTimes};
use crate::text::{decimal, push_decimal, push_str, string_from_chars};
use vstd::prelude::*;

verus! {

/// The times of a kind of work.
#[verifier::opaque]
pub open spec fn op_times_text(times: OpTimes) -> Seq<char> {
    "{ average: "@ + duration_text(times.average) + ", longest: "@ + duration_text(times.longest)
        + ", shortest: "@ + duration_text(times.shortest) + " }"@
}

/// The times of a kind of work behind `pad` and a title.
#[verifier::opaque]
pub open spec fn titled_times(pad: Seq<char>, title: Seq<char>, times: OpTimes) -> Seq<char> {
    pad + title + op_times_text(times)
}

/// The times of the tasks of a kind, one line for each stretch, each line
/// behind `pad`.
pub open spec fn task_times_text(times: TaskTimes, pad: Seq<char>) -> Seq<char> {
    titled_times(pad, "Waiting: "@, times.waiting) + seq!['\n'] + titled_times(
        pad,
        "Running: "@,
        times.running,
    ) + seq!['\n'] + titled_times(pad, "Resting: "@, times.resting)
}

/// The line of a kind of work that was done `count` times, behind four
/// blanks; nothing for work that was not done.
pub open spec fn work_line(count: u32, label: Seq<char>, times: OpTimes) -> Seq<char> {
    if count == 0 {
        Seq::empty()
    } else {
        "    "@ + decimal(count as nat) + seq![' '] + label + ": "@ + op_times_text(times)
            + seq!['\n']
    }
}

/// The lines of one kind of task.
pub open spec fn kind_text(kind: KindTimes) -> Seq<char> {
    "        "@ + decimal(kind.count as nat) + " \""@ + kind.name@ + "\" Tasks:\n"@
        + task_times_text(kind.times, "            "@)
}

/// The lines of the first `k` kinds of task, each kind on lines of its
/// own.
pub open spec fn kinds_text(kinds: Seq<KindTimes>, k: int) -> Seq<char>
    decreases k,
{
    if k <= 0 {
        Seq::empty()
    } else if k == 1 {
        kind_text(kinds[0])
    } else {
        kinds_text(kinds, k - 1) + seq!['\n'] + kind_text(kinds[k - 1])
    }
}

/// What the runner has measured: a line for each kind of work that was
/// done, and the kinds of task that went all the way.
pub open spec fn runner_times_text(times: RunnerTimes) -> Seq<char> {
    work_lines(times) + (if times.tasks@.len() == 0 {
        Seq::empty()
    } else {
        "    Completed Tasks:\n"@ + kinds_text(times.tasks@, times.tasks@.len() as int)
    })
}

/// The word for a state of the runner.
pub open spec fn status_word(status: RunnerStatus) -> Seq<char> {
    match status {
        RunnerStatus::Idle(_) => "Idle"@,
        RunnerStatus::Working(_) => "Working"@,
        RunnerStatus::Busy(_) => "Busy"@,
        RunnerStatus::Overloaded(_) => "Overloaded"@,
    }
}

/// Since when the runner is in its state.
pub open spec fn status_since(status: RunnerStatus) -> Duration {
    match status {
        RunnerStatus::Idle(since) => since,
        RunnerStatus::Working(since) => since,
        RunnerStatus::Busy(since) => since,
        RunnerStatus::Overloaded(since) => since,
    }
}

/// The line of a stage with `count` tasks; nothing for a stage without.
pub open spec fn stage_line(count: nat, label: Seq<char>) -> Seq<char> {
    if count == 0 {
        Seq::empty()
    } else {
        "    "@ + decimal(count) + seq![' '] + label + seq!['\n']
    }
}

/// Whether anything was measured that the status tells of.
pub open spec fn measured(times: RunnerTimes) -> bool {
    times.scan.0 != 0 || times.filter.0 != 0 || times.launch.0 != 0 || times.poll.0 != 0
        || times.tasks@.len() != 0
}

/// The two lines at the head of the status: how long the runner has
/// run, and how long it has been in its state.
pub open spec fn head_text(started: Duration, status: RunnerStatus, now: Duration) -> Seq<char> {
    "Running for "@ + duration_text(span(now, started)) + seq!['\n'] + status_word(status)
        + " for "@ + duration_text(span(now, status_since(status))) + seq!['\n']
}

/// The lines of the stages that hold tasks, under their heading; nothing
/// for a runner without tasks.
pub open spec fn stages_text(counts: (nat, nat, nat, nat)) -> Seq<char> {
    if counts.0 + counts.1 + counts.2 + counts.3 == 0 {
        Seq::empty()
    } else {
        "Active Tasks:\n"@ + stage_line(counts.0, "New"@) + stage_line(counts.1, "Filtered"@)
            + stage_line(counts.2, "Running"@) + stage_line(counts.3, "Resting"@)
    }
}

/// The status of a runner that was made at `started`, is in the state
/// `status` and has `counts` tasks in its stages, at the time `now`, with
/// what it has measured.
pub open spec fn status_text_of(
    started: Duration,
    status: RunnerStatus,
    counts: (nat, nat, nat, nat),
    times: RunnerTimes,
    now: Duration,
) -> Seq<char> {
    head_text(started, status, now) + stages_text(counts) + (if measured(times) {
        "Times:\n"@ + runner_times_text(times)
    } else {
        Seq::empty()
    })
}

fn push_duration(out: &mut Vec<char>, span: &Duration)
    ensures
        final(out)@ == old(out)@ + duration_text(*span),
{
    let text = duration_to_string(span);
    push_str(out, text.as_str());
}

fn push_op_times(out: &mut Vec<char>, times: &OpTimes)
    ensures
        final(out)@ == old(out)@ + op_times_text(*times),
{
    reveal(op_times_text);
    let ghost before = out@;
    push_str(out, "{ average: ");
    push_duration(out, &times.average);
    push_str(out, ", longest: ");
    push_duration(out, &times.longest);
    push_str(out, ", shortest: ");
    push_duration(out, &times.shortest);
    push_str(out, " }");
    assert(out@ =~= before + op_times_text(*times));
}

fn push_titled(out: &mut Vec<char>, pad: &str, title: &str, times: &OpTimes)
    ensures
        final(out)@ == old(out)@ + titled_times(pad@, title@, *times),
{
    reveal(titled_times);
    let ghost before = out@;
    push_str(out, pad);
    push_str(out, title);
    push_op_times(out, times);
    assert(out@ =~= before + (pad@ + title@ + op_times_text(*times)));
}

fn push_task_times(out: &mut Vec<char>, times: &TaskTimes, pad: &str)
    ensures
        final(out)@ == old(out)@ + task_times_text(*times, pad@),
{
    let ghost before = out@;
    let ghost first = titled_times(pad@, "Waiting: "@, times.waiting);
    let ghost second = titled_times(pad@, "Running: "@, times.running);
    let ghost third = titled_times(pad@, "Resting: "@, times.resting);
    push_titled(out, pad, "Waiting: ", &times.waiting);
    out.push('\n');
    assert(out@ =~= before + (first + seq!['\n']));
    push_titled(out, pad, "Running: ", &times.running);
    out.push('\n');
    assert(out@ =~= before + (first + seq!['\n'] + second + seq!['\n']));
    push_titled(out, pad, "Resting: ", &times.resting);
    assert(out@ =~= before + (first + seq!['\n'] + second + seq!['\n'] + third));
}

fn push_work_line(out: &mut Vec<char>, count: u32, label: &str, times: &OpTimes)
    ensures
        final(out)@ == old(out)@ + work_line(count, label@, *times),
{
    let ghost before = out@;
    if count != 0 {
        push_str(out, "    ");
        push_decimal(out, count as u64);
        out.push(' ');
        push_str(out, label);
        push_str(out, ": ");
        push_op_times(out, times);
        out.push('\n');
    }
    assert(out@ =~= before + work_line(count, label@, *times));
}

fn push_kind(out: &mut Vec<char>, kind: &KindTimes)
    ensures
        final(out)@ == old(out)@ + kind_text(*kind),
{
    let ghost before = out@;
    push_str(out, "        ");
    push_decimal(out, kind.count as u64);
    push_str(out, " \"");
    push_str(out, kind.name.as_str());
    push_str(out, "\" Tasks:\n");
    push_task_times(out, &kind.times, "            ");
    assert(out@ =~= before + kind_text(*kind));
}

/// The lines of the kinds of work.
pub open spec fn work_lines(times: RunnerTimes) -> Seq<char> {
    work_line(times.scan.0, "Scans"@, times.scan.1) + work_line(
        times.filter.0,
        "Filters"@,
        times.filter.1,
    ) + work_line(times.launch.0, "Launches"@, times.launch.1) + work_line(
        times.poll.0,
        "Polls"@,
        times.poll.1,
    ) + work_line(times.check.0, "Checks"@, times.check.1)
}

fn push_work_lines(out: &mut Vec<char>, times: &RunnerTimes)
    ensures
        final(out)@ == old(out)@ + work_lines(*times),
{
    let ghost before = out@;
    let ghost a = work_line(times.scan.0, "Scans"@, times.scan.1);
    let ghost b = work_line(times.filter.0, "Filters"@, times.filter.1);
    let ghost c = work_line(times.launch.0, "Launches"@, times.launch.1);
    let ghost d = work_line(times.poll.0, "Polls"@, times.poll.1);
    let ghost e = work_line(times.check.0, "Checks"@, times.check.1);
    push_work_line(out, times.scan.0, "Scans", &times.scan.1);
    push_work_line(out, times.filter.0, "Filters", &times.filter.1);
    assert(out@ =~= before + (a + b));
    push_work_line(out, times.launch.0, "Launches", &times.launch.1);
    assert(out@ =~= before + (a + b + c));
    push_work_line(out, times.poll.0, "Polls", &times.poll.1);
    assert(out@ =~= before + (a + b + c + d));
    push_work_line(out, times.check.0, "Checks", &times.check.1);
    assert(out@ =~= before + (a + b + c + d + e));
}

fn push_kinds(out: &mut Vec<char>, kinds: &Vec<KindTimes>)
    ensures
        final(out)@ == old(out)@ + kinds_text(kinds@, kinds@.len() as int),
{
    let ghost before = out@;
    let mut k: usize = 0;
    assert(out@ =~= before + kinds_text(kinds@, 0));
    while k < kinds.len()
        invariant
            0 <= k <= kinds.len(),
            out@ == before + kinds_text(kinds@, k as int),
        decreases kinds.len() - k,
    {
        let ghost so_far = kinds_text(kinds@, k as int);
        if k > 0 {
            out.push('\n');
            assert(out@ =~= before + (so_far + seq!['\n']));
        }
        push_kind(out, &kinds[k]);
        assert(out@ =~= before + kinds_text(kinds@, k + 1)) by {
            if k > 0 {
                assert(out@ =~= before + (so_far + seq!['\n'] + kind_text(kinds@[k as int])));
            } else {
                assert(so_far =~= Seq::<char>::empty());
                assert(out@ =~= before + kind_text(kinds@[0]));
            }
        }
        k += 1;
    }
}

fn push_runner_times(out: &mut Vec<char>, times: &RunnerTimes)
    ensures
        final(out)@ == old(out)@ + runner_times_text(*times),
{
    let ghost before = out@;
    push_work_lines(out, times);
    if times.tasks.len() > 0 {
        push_str(out, "    Completed Tasks:\n");
        push_kinds(out, &times.tasks);
        assert(out@ =~= before + (work_lines(*times) + ("    Completed Tasks:\n"@ + kinds_text(
            times.tasks@,
            times.tasks@.len() as int,
        ))));
    } else {
        assert(out@ =~= before + (work_lines(*times) + Seq::<char>::empty()));
    }
}

fn push_stage_line(out: &mut Vec<char>, count: usize, label: &str)
    ensures
        final(out)@ == old(out)@ + stage_line(count as nat, label@),
{
    let ghost before = out@;
    if count != 0 {
        push_str(out, "    ");
        push_decimal(out, count as u64);
        out.push(' ');
        push_str(out, label);
        out.push('\n');
    }
    assert(out@ =~= before + stage_line(count as nat, label@));
}

fn push_head(out: &mut Vec<char>, started: &Duration, status: RunnerStatus, now: &Duration)
    ensures
        final(out)@ == old(out)@ + head_text(*started, status, *now),
{
    let ghost before = out@;
    let since = match status {
        RunnerStatus::Idle(since) => since,
        RunnerStatus::Working(since) => since,
        RunnerStatus::Busy(since) => since,
        RunnerStatus::Overloaded(since) => since,
    };
    let ghost ran = duration_text(span(*now, *started));
    let ghost stood = duration_text(span(*now, status_since(status)));
    push_str(out, "Running for ");
    push_duration(out, &now.since(started));
    out.push('\n');
    assert(out@ =~= before + ("Running for "@ + ran + seq!['\n']));
    match status {
        RunnerStatus::Idle(_) => push_str(out, "Idle"),
        RunnerStatus::Working(_) => push_str(out, "Working"),
        RunnerStatus::Busy(_) => push_str(out, "Busy"),
        RunnerStatus::Overloaded(_) => push_str(out, "Overloaded"),
    }
    assert(out@ =~= before + ("Running for "@ + ran + seq!['\n'] + status_word(status)));
    push_str(out, " for ");
    push_duration(out, &now.since(&since));
    out.push('\n');
    assert(out@ =~= before + ("Running for "@ + ran + seq!['\n'] + status_word(status) + " for "@
        + stood + seq!['\n']));
}

fn push_stages(out: &mut Vec<char>, counts: (usize, usize, usize, usize))
    ensures
        final(out)@ == old(out)@ + stages_text(
            (counts.0 as nat, counts.1 as nat, counts.2 as nat, counts.3 as nat),
        ),
{
    let ghost before = out@;
    let ghost a = stage_line(counts.0 as nat, "New"@);
    let ghost b = stage_line(counts.1 as nat, "Filtered"@);
    let ghost c = stage_line(counts.2 as nat, "Running"@);
    let ghost d = stage_line(counts.3 as nat, "Resting"@);
    if counts.0 != 0 || counts.1 != 0 || counts.2 != 0 || counts.3 != 0 {
        push_str(out, "Active Tasks:\n");
        push_stage_line(out, counts.0, "New");
        push_stage_line(out, counts.1, "Filtered");
        assert(out@ =~= before + ("Active Tasks:\n"@ + a + b));
        push_stage_line(out, counts.2, "Running");
        push_stage_line(out, counts.3, "Resting");
        assert(out@ =~= before + ("Active Tasks:\n"@ + a + b + c + d));
    } else {
        assert(out@ =~= before + Seq::<char>::empty());
    }
}

/// The status of the runner at the time `now` of its clock, with what it
/// has measured.
pub fn status_text(runner: &Runner, times: &RunnerTimes, now: &Duration) -> (text: String)
    ensures
        text@ == status_text_of(
            runner.since(),
            runner.status(),
            (
                runner.pools().new_tasks.len(),
                runner.pools().filtered_tasks.len(),
                runner.pools().running_tasks.len(),
                runner.pools().resting_tasks.len(),
            ),
            *times,
            *now,
        ),
{
    let counts = runner.counts();
    let ghost shown = (counts.0 as nat, counts.1 as nat, counts.2 as nat, counts.3 as nat);
    let mut out: Vec<char> = Vec::new();
    push_head(&mut out, &runner.started(), runner.current_status(), now);
    push_stages(&mut out, counts);
    let ghost top = head_text(runner.since(), runner.status(), *now) + stages_text(shown);
    assert(out@ =~= top);
    if times.scan.0 != 0 || times.filter.0 != 0 || times.launch.0 != 0 || times.poll.0 != 0
        || times.tasks.len() != 0 {
        push_str(&mut out, "Times:\n");
        push_runner_times(&mut out, times);
        assert(out@ =~= top + ("Times:\n"@ + runner_times_text(*times)));
    } else {
        assert(out@ =~= top + Seq::<char>::empty());
    }
    string_from_chars(&out)
}

} // verus!
