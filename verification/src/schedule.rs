//! Pure scheduling decisions.
//!
//! Everything here is a function of the run's state (plus limits), with no
//! I/O: what runs next, what happens after a failure, when a run is finished.

use vstd::prelude::*;

use crate::events::{EventKind, EventKindModel};
use crate::graph::depends;
use crate::ids::TaskId;
use crate::model::{AttemptOutcome, AttemptOutcomeModel, CheckResult, CheckResultModel, RunStatus, TaskStatus};
use crate::order::{filter_none, filter_step, in_order, in_order_is};
use crate::prompts::{held_further, held_in_the_middle, held_within};
use crate::state::{RunState, RunStateModel, TaskStateModel};
use crate::text::{decimal, holds, i64_text, join, join_texts, signed, texts, u64_text, usize_text, views, views_push};
use crate::ui::{five_are_held, four_are_held, three_are_held};

verus! {

/// The first `n` elements, or all where there are fewer.
pub open spec fn at_most<T>(s: Seq<T>, n: int) -> Seq<T> {
    if n < s.len() {
        s.take(n)
    } else {
        s
    }
}

/// The slots that are free.
pub open spec fn free_slots(running: int, max_parallel: int) -> int {
    if running < max_parallel {
        max_parallel - running
    } else {
        0
    }
}

/// Tasks to start now: ready tasks (dependencies done, not running or
/// finished), in the order of their ids, up to the free agent slots.
pub fn tasks_to_start(state: &RunState, running: usize, max_parallel: usize) -> (r: Vec<TaskId>)
    requires
        state.wf(),
    ensures
        r@ == at_most(state@.ready(), free_slots(running as int, max_parallel as int)),
{
    let free: usize = if running < max_parallel {
        max_parallel - running
    } else {
        0
    };
    let mut r = state.ready_tasks();
    if free < r.len() {
        r.truncate(free);
        assert(r@ =~= state@.ready().take(free as int));
    }
    r
}

/// Never more agents than slots: those that run and those that are started
/// together are at most as many as may run at once, unless more ran before.
pub proof fn agents_are_limited(s: RunStateModel, running: int, max_parallel: int)
    requires
        0 <= running,
        0 <= max_parallel,
    ensures
        ({
            let started = at_most(s.ready(), free_slots(running, max_parallel)).len();
            running + started <= max_parallel || started == 0
        }),
{
}

/// The tasks that directly or indirectly depend on a task, in id order.
pub open spec fn downstream(s: RunStateModel, id: TaskId) -> Seq<TaskId> {
    in_order::<TaskId>(Set::new(|m: TaskId| depends(s.graph(), m, id)))
}

/// How often the task has been attempted.
pub open spec fn attempts_used(s: RunStateModel, id: TaskId) -> u32 {
    s.tasks[id].attempts.len() as u32
}

/// A task below `id` that is not finished is skipped.
pub open spec fn skipped(s: RunStateModel, id: TaskId) -> Seq<EventKindModel> {
    downstream(s, id).filter(|d: TaskId| !s.tasks[d].status.terminal()).map_values(
        |d: TaskId| skip_event(s, id, d),
    )
}

pub open spec fn skip_event(s: RunStateModel, id: TaskId, d: TaskId) -> EventKindModel {
    EventKindModel::TaskStatusChanged {
        task_id: d,
        status: TaskStatus::Skipped,
        reason: Some("depends on "@ + s.tasks[id].spec.key + ", which failed"@),
    }
}

/// What follows a failure: another try while attempts remain, else the task
/// fails and all that depends on it and is not finished is skipped.
pub open spec fn failure_events(
    s: RunStateModel,
    id: TaskId,
    reason: Seq<char>,
    retryable: bool,
    max_attempts: u32,
) -> Seq<EventKindModel> {
    let used = attempts_used(s, id);
    if !s.tasks.dom().contains(id) {
        Seq::empty()
    } else if retryable && used < max_attempts {
        seq![
            EventKindModel::TaskStatusChanged {
                task_id: id,
                status: TaskStatus::Ready,
                reason: Some("retrying after attempt "@ + decimal(used as int) + ": "@ + reason),
            },
        ]
    } else {
        seq![
            EventKindModel::TaskStatusChanged {
                task_id: id,
                status: TaskStatus::Failed,
                reason: Some(
                    if retryable {
                        "gave up after "@ + decimal(used as int) + " attempts: "@ + reason
                    } else {
                        reason
                    },
                ),
            },
        ] + skipped(s, id)
    }
}

/// Events to append after a task's latest attempt failed (or its verified
/// work could not be integrated). Retries while attempts remain; otherwise
/// fails the task and skips everything downstream of it.
pub fn after_failure(
    state: &RunState,
    task_id: TaskId,
    reason: &str,
    retryable: bool,
    max_attempts: u32,
) -> (r: Vec<EventKind>)
    requires
        state.wf(),
    ensures
        views(r@) == failure_events(state@, task_id, reason@, retryable, max_attempts),
{
    let ghost s = state@;
    let task = match state.tasks.get(&task_id) {
        Some(task) => task,
        None => {
            let r: Vec<EventKind> = Vec::new();
            assert(views(r@) =~= Seq::<EventKindModel>::empty());
            return r;
        },
    };
    let used: u32 = task.attempts.len() as u32;
    let mut events: Vec<EventKind> = Vec::new();
    if retryable && used < max_attempts {
        let mut text = "retrying after attempt ".to_owned();
        text.append(u64_text(used as u64).as_str());
        text.append(": ");
        text.append(reason);
        events.push(
            EventKind::TaskStatusChanged {
                task_id,
                status: TaskStatus::Ready,
                reason: Some(text),
            },
        );
        assert(views(events@) =~= failure_events(s, task_id, reason@, retryable, max_attempts));
        return events;
    }
    let text = if retryable {
        let mut text = "gave up after ".to_owned();
        text.append(u64_text(used as u64).as_str());
        text.append(" attempts: ");
        text.append(reason);
        text
    } else {
        reason.to_owned()
    };
    events.push(
        EventKind::TaskStatusChanged { task_id, status: TaskStatus::Failed, reason: Some(text) },
    );
    let ghost first = views(events@);
    let graph = state.graph();
    let dependents = graph.transitive_dependents(&task_id);
    let ghost order = dependents.keys();
    let ghost p = |d: TaskId| !s.tasks[d].status.terminal();
    let ghost f = |d: TaskId| skip_event(s, task_id, d);
    proof {
        let all = Set::new(|m: TaskId| depends(s.graph(), m, task_id));
        assert(dependents@ =~= all);
        in_order_is::<TaskId>(order);
        filter_none(order, p);
        assert(views(events@) =~= first + order.take(0).filter(p).map_values(f));
    }
    let mut i: usize = 0;
    while i < dependents.len()
        invariant
            i <= dependents.keys().len(),
            state.wf(),
            s == state@,
            s.tasks.dom().contains(task_id),
            task@ == s.tasks[task_id],
            dependents.wf(),
            graph.wf(),
            graph@ == s.graph(),
            forall|m: TaskId| #[trigger]
                dependents@.contains(m) <==> depends(graph@, m, task_id),
            order == dependents.keys(),
            p == |d: TaskId| !s.tasks[d].status.terminal(),
            f == |d: TaskId| skip_event(s, task_id, d),
            views(events@) == first + order.take(i as int).filter(p).map_values(f),
        decreases dependents.keys().len() - i,
    {
        let dependent: TaskId = *dependents.at(i);
        proof {
            assert(order.contains(dependent));
            assert(dependents@.contains(dependent));
            depends_from_a_node(s, dependent, task_id);
            filter_step(order, p, i as int);
        }
        if let Some(other) = state.tasks.get(&dependent) {
            if !other.status.is_terminal() {
                let mut text = "depends on ".to_owned();
                text.append(task.spec.key.as_str());
                text.append(", which failed");
                let event = EventKind::TaskStatusChanged {
                    task_id: dependent,
                    status: TaskStatus::Skipped,
                    reason: Some(text),
                };
                proof {
                    views_push(events@, event);
                    let kept = order.take(i as int).filter(p);
                    assert(event@ == f(dependent));
                    assert(first + kept.push(dependent).map_values(f) =~= (first + kept.map_values(
                        f,
                    )).push(f(dependent)));
                }
                events.push(event);
            }
        }
        i += 1;
    }
    assert(order.take(i as int) =~= order);
    events
}

proof fn depends_from_a_node(s: RunStateModel, a: TaskId, b: TaskId)
    requires
        depends(s.graph(), a, b),
    ensures
        s.tasks.dom().contains(a),
{
    let p = choose|p: Seq<TaskId>| crate::graph::leads(s.graph(), p, a, b);
    assert(s.graph().dom().contains(p[0]));
}

/// Where a task stands, in one word.
pub open spec fn status_word_spec(status: TaskStatus) -> Seq<char> {
    match status {
        TaskStatus::Pending => "pending"@,
        TaskStatus::Ready => "ready"@,
        TaskStatus::Running => "running"@,
        TaskStatus::Done => "done"@,
        TaskStatus::Failed => "failed"@,
        TaskStatus::Skipped => "skipped"@,
        TaskStatus::Cancelled => "cancelled"@,
    }
}

pub fn status_word(status: TaskStatus) -> (r: &'static str)
    ensures
        r@ == status_word_spec(status),
{
    match status {
        TaskStatus::Pending => "pending",
        TaskStatus::Ready => "ready",
        TaskStatus::Running => "running",
        TaskStatus::Done => "done",
        TaskStatus::Failed => "failed",
        TaskStatus::Skipped => "skipped",
        TaskStatus::Cancelled => "cancelled",
    }
}

/// Every task is finished.
pub open spec fn all_finished(s: RunStateModel) -> bool {
    forall|id: TaskId| #[trigger] s.tasks.dom().contains(id) ==> s.tasks[id].status.terminal()
}

/// The tasks that are not done, in id order.
pub open spec fn not_done(s: RunStateModel) -> Seq<TaskId> {
    s.task_order().filter(|id: TaskId| s.tasks[id].status != TaskStatus::Done)
}

/// How an unfinished task is reported.
pub open spec fn not_done_text(t: TaskStateModel) -> Seq<char> {
    t.spec.key + " ("@ + status_word_spec(t.status) + ")"@
}

/// A run's final status, and the reason where it failed.
pub open spec fn outcome_of(s: RunStateModel) -> Option<(RunStatus, Option<Seq<char>>)> {
    let left = not_done(s);
    if !all_finished(s) {
        None
    } else if left.len() == 0 {
        Some((RunStatus::Succeeded, None))
    } else {
        Some(
            (
                RunStatus::Failed,
                Some(
                    decimal(left.len() as int) + " of "@ + decimal(s.task_order().len() as int)
                        + " tasks did not complete: "@ + join(
                        left.map_values(|id: TaskId| not_done_text(s.tasks[id])),
                        ", "@,
                    ),
                ),
            ),
        )
    }
}

/// What a status with its reason stands for.
pub open spec fn seen_outcome(o: Option<(RunStatus, Option<String>)>) -> Option<
    (RunStatus, Option<Seq<char>>),
> {
    match o {
        Some((status, reason)) => Some((status, crate::text::seen(reason))),
        None => None,
    }
}

/// The run's final status once every task is terminal, or `None` while work
/// remains.
pub fn run_outcome(state: &RunState) -> (r: Option<(RunStatus, Option<String>)>)
    requires
        state.wf(),
    ensures
        seen_outcome(r) == outcome_of(state@),
{
    let ghost s = state@;
    let ghost order = state.tasks.order();
    let ghost p = |id: TaskId| s.tasks[id].status != TaskStatus::Done;
    let ghost f = |id: TaskId| not_done_text(s.tasks[id]);
    let mut unfinished: Vec<String> = Vec::new();
    proof {
        state.tasks.order_of_keys();
        crate::state::seen_map_dom(state.tasks@);
        filter_none(order, p);
        assert(texts(unfinished@) =~= order.take(0).filter(p).map_values(f));
    }
    let mut i: usize = 0;
    while i < state.tasks.len()
        invariant
            i <= state.tasks.order().len(),
            order == state.tasks.order(),
            order == s.task_order(),
            s.tasks.dom() == order.to_set(),
            state.wf(),
            s == state@,
            p == |id: TaskId| s.tasks[id].status != TaskStatus::Done,
            f == |id: TaskId| not_done_text(s.tasks[id]),
            forall|k: int| 0 <= k < i ==> s.tasks[#[trigger] order[k]].status.terminal(),
            texts(unfinished@) == order.take(i as int).filter(p).map_values(f),
        decreases state.tasks.order().len() - i,
    {
        let task = state.tasks.value_at(i);
        proof {
            state.tasks.position(i as int);
            assert(task@ == s.tasks[order[i as int]]);
            filter_step(order, p, i as int);
        }
        if !task.status.is_terminal() {
            proof {
                assert(s.tasks.dom().contains(order[i as int]));
            }
            return None;
        }
        if !matches!(task.status, TaskStatus::Done) {
            let mut text = task.spec.key.clone();
            text.append(" (");
            text.append(status_word(task.status));
            text.append(")");
            proof {
                let kept = order.take(i as int).filter(p);
                assert(text@ == f(order[i as int]));
                crate::text::texts_push(unfinished@, text);
                assert(kept.push(order[i as int]).map_values(f) =~= kept.map_values(f).push(
                    f(order[i as int]),
                ));
            }
            unfinished.push(text);
        }
        i += 1;
    }
    proof {
        assert(order.take(i as int) =~= order);
        assert(not_done(s) == order.filter(p));
        assert(texts(unfinished@).len() == not_done(s).len());
        assert forall|id: TaskId| #[trigger] s.tasks.dom().contains(id) implies s.tasks[id].status.terminal() by {
            assert(order.to_set().contains(id));
            let k = choose|k: int| 0 <= k < order.len() && order[k] == id;
            assert(s.tasks[order[k]].status.terminal());
        }
    }
    if unfinished.len() == 0 {
        Some((RunStatus::Succeeded, None))
    } else {
        let mut text = usize_text(unfinished.len());
        text.append(" of ");
        text.append(usize_text(state.tasks.len()).as_str());
        text.append(" tasks did not complete: ");
        text.append(join_texts(&unfinished, ", ").as_str());
        Some((RunStatus::Failed, Some(text)))
    }
}

/// A run ends exactly when every task is finished, and it succeeds exactly when
/// every task is done.
pub proof fn outcome_is_fair(s: RunStateModel)
    requires
        s.tasks.dom() == s.task_order().to_set(),
    ensures
        outcome_of(s) is Some <==> all_finished(s),
        outcome_of(s) matches Some((status, reason)) ==> (status == RunStatus::Succeeded <==> forall|
            id: TaskId,
        | #[trigger]
            s.tasks.dom().contains(id) ==> s.tasks[id].status == TaskStatus::Done),
{
    let p = |id: TaskId| s.tasks[id].status != TaskStatus::Done;
    let order = s.task_order();
    if outcome_of(s) is Some {
        if not_done(s).len() == 0 {
            assert forall|id: TaskId| #[trigger] s.tasks.dom().contains(id) implies s.tasks[id].status
                == TaskStatus::Done by {
                assert(order.to_set().contains(id));
                let k = choose|k: int| 0 <= k < order.len() && order[k] == id;
                if p(order[k]) {
                    order.lemma_filter_contains(p, k);
                    assert(order.filter(p).contains(order[k]));
                }
            }
        } else {
            order.lemma_filter_pred(p, 0);
            order.lemma_filter_contains_rev(p, order.filter(p)[0]);
            let id = order.filter(p)[0];
            assert(order.contains(id));
            assert(s.tasks.dom().contains(id));
        }
    }
}

/// How a failed check is told to the next attempt.
pub open spec fn failed_check_text(c: CheckResultModel) -> Seq<char> {
    "`"@ + c.name + "` ("@ + c.command + ") exited with "@ + (match c.exit_code {
        Some(code) => signed(code as int),
        None => "no exit code (timed out)"@,
    }) + ":\n```\n"@ + c.output_tail + "\n```"@
}

fn write_failed_check(c: &CheckResult) -> (r: String)
    ensures
        r@ == failed_check_text(c@),
{
    let mut r = "`".to_owned();
    r.append(c.name.as_str());
    r.append("` (");
    r.append(c.command.as_str());
    r.append(") exited with ");
    match c.exit_code {
        Some(code) => {
            r.append(i64_text(code as i64).as_str());
        },
        None => {
            r.append("no exit code (timed out)");
        },
    }
    r.append(":\n```\n");
    r.append(c.output_tail.as_str());
    r.append("\n```");
    r
}

/// The last failed checks, three at most, the latest first.
pub open spec fn recent_failures(checks: Seq<CheckResultModel>) -> Seq<CheckResultModel> {
    at_most(checks.reverse().filter(|c: CheckResultModel| !c.passed), 3)
}

fn failed_checks(checks: &Vec<CheckResult>) -> (r: Vec<String>)
    ensures
        texts(r@) == recent_failures(views(checks@)).map_values(
            |c: CheckResultModel| failed_check_text(c),
        ),
{
    let ghost back = views(checks@).reverse();
    let ghost p = |c: CheckResultModel| !c.passed;
    let ghost f = |c: CheckResultModel| failed_check_text(c);
    let mut r: Vec<String> = Vec::new();
    let mut i: usize = 0;
    proof {
        filter_none(back, p);
        assert(texts(r@) =~= back.take(0).filter(p).map_values(f));
    }
    while i < checks.len() && r.len() < 3
        invariant
            i <= checks.len(),
            back == views(checks@).reverse(),
            p == |c: CheckResultModel| !c.passed,
            f == |c: CheckResultModel| failed_check_text(c),
            r.len() <= 3,
            texts(r@) == back.take(i as int).filter(p).map_values(f),
        decreases checks.len() - i,
    {
        let c = &checks[checks.len() - 1 - i];
        proof {
            assert(back[i as int] == c@);
            filter_step(back, p, i as int);
        }
        if !c.passed {
            let text = write_failed_check(c);
            proof {
                let kept = back.take(i as int).filter(p);
                crate::text::texts_push(r@, text);
                assert(kept.push(c@).map_values(f) =~= kept.map_values(f).push(f(c@)));
            }
            r.push(text);
        }
        i += 1;
    }
    proof {
        let kept = back.take(i as int).filter(p);
        filter_is_prefix(back, p, i as int);
        assert(texts(r@).len() == kept.len());
        if i == checks.len() {
            assert(back.take(i as int) =~= back);
            assert(at_most(back.filter(p), 3) =~= back.filter(p));
        } else {
            assert(back.filter(p).take(3) =~= kept);
            if back.filter(p).len() == 3 {
                assert(back.filter(p) =~= kept);
            }
        }
    }
    r
}

/// What a filter keeps of the front comes first in what it keeps of all.
pub proof fn filter_is_prefix<T>(s: Seq<T>, p: spec_fn(T) -> bool, i: int)
    requires
        0 <= i <= s.len(),
    ensures
        s.take(i).filter(p).len() <= s.filter(p).len(),
        s.filter(p).take(s.take(i).filter(p).len() as int) == s.take(i).filter(p),
    decreases s.len() - i,
{
    if i == s.len() {
        assert(s.take(i) =~= s);
        assert(s.filter(p).take(s.filter(p).len() as int) =~= s.filter(p));
    } else {
        filter_is_prefix(s, p, i + 1);
        filter_step(s, p, i);
        let a = s.take(i).filter(p);
        let b = s.take(i + 1).filter(p);
        let all = s.filter(p);
        assert(b.take(a.len() as int) =~= a);
        assert(all.take(a.len() as int) =~= all.take(b.len() as int).take(a.len() as int));
    }
}

/// Told first: why the work could not be integrated, or how the attempt failed.
pub open spec fn failure_note(t: TaskStateModel, number: u32, outcome: Option<AttemptOutcomeModel>) -> Option<
    Seq<char>,
> {
    match t.last_integration_error {
        Some(error) => Some(
            "Your previous attempt passed its checks, but its changes could not be integrated with the work other agents finished in the meantime:\n"@
                + error
                + "\nYou are now starting from the latest integrated code. Redo the task on top of it."@,
        ),
        None => match outcome {
            Some(AttemptOutcomeModel::Failed { kind, message }) => Some(
                "Your previous attempt (attempt "@ + decimal(number as int) + ") failed ("@
                    + kind.label_spec() + "): "@ + message,
            ),
            _ => None,
        },
    }
}

/// Told next: the checks that failed, unless integration did.
pub open spec fn checks_note(t: TaskStateModel, checks: Seq<CheckResultModel>) -> Option<Seq<char>> {
    let failed = recent_failures(checks).map_values(|c: CheckResultModel| failed_check_text(c));
    if failed.len() > 0 && t.last_integration_error is None {
        Some("Failing checks:\n\n"@ + join(failed, "\n\n"@))
    } else {
        None
    }
}

/// Two notes, with an empty line between them.
pub open spec fn both_notes(a: Option<Seq<char>>, b: Option<Seq<char>>) -> Option<Seq<char>> {
    match (a, b) {
        (Some(x), Some(y)) => Some(x + "\n\n"@ + y),
        (Some(x), None) => Some(x),
        (None, y) => y,
    }
}

/// What the next attempt should know about the last one.
pub open spec fn feedback_of(s: RunStateModel, id: TaskId) -> Option<Seq<char>> {
    let t = s.tasks[id];
    let last = t.attempts.last();
    if !s.tasks.dom().contains(id) || t.attempts.len() == 0 || !s.attempts.dom().contains(last) {
        None
    } else {
        both_notes(
            failure_note(t, s.attempts[last].number, s.attempts[last].outcome),
            checks_note(t, s.attempts[last].checks),
        )
    }
}

/// What the next attempt at a task should know about the previous one,
/// derived from the log so it survives restarts.
pub fn feedback_for(state: &RunState, task_id: TaskId) -> (r: Option<String>)
    requires
        state.wf(),
    ensures
        crate::text::seen(r) == feedback_of(state@, task_id),
{
    let task = match state.tasks.get(&task_id) {
        Some(task) => task,
        None => {
            return None;
        },
    };
    if task.attempts.len() == 0 {
        return None;
    }
    let last = match state.attempts.get(&task.attempts[task.attempts.len() - 1]) {
        Some(last) => last,
        None => {
            return None;
        },
    };
    let failed = failed_checks(&last.checks);
    let first: Option<String> = match &task.last_integration_error {
        Some(error) => {
            let mut text =
                "Your previous attempt passed its checks, but its changes could not be integrated with the work other agents finished in the meantime:\n".to_owned();
            text.append(error.as_str());
            text.append(
                "\nYou are now starting from the latest integrated code. Redo the task on top of it.",
            );
            Some(text)
        },
        None => match &last.outcome {
            Some(AttemptOutcome::Failed { kind, message }) => {
                let mut text = "Your previous attempt (attempt ".to_owned();
                text.append(u64_text(last.number as u64).as_str());
                text.append(") failed (");
                text.append(kind.label());
                text.append("): ");
                text.append(message.as_str());
                Some(text)
            },
            _ => None,
        },
    };
    let second: Option<String> = if failed.len() > 0 && task.last_integration_error.is_none() {
        let mut text = "Failing checks:\n\n".to_owned();
        text.append(join_texts(&failed, "\n\n").as_str());
        Some(text)
    } else {
        None
    };
    proof {
        let m = recent_failures(last@.checks).map_values(|c: CheckResultModel| failed_check_text(c));
        assert(texts(failed@) == m);
        assert(texts(failed@).len() == failed@.len());
    }
    match (first, second) {
        (Some(mut a), Some(b)) => {
            a.append("\n\n");
            a.append(b.as_str());
            Some(a)
        },
        (Some(a), None) => Some(a),
        (None, b) => b,
    }
}

/// A check that failed is told by its name, its command and what it printed.
#[verifier::rlimit(60)]
proof fn failed_checks_are_told(c: CheckResultModel)
    ensures
        holds(failed_check_text(c), c.name),
        holds(failed_check_text(c), c.command),
        holds(failed_check_text(c), c.output_tail),
{
    let code = match c.exit_code {
        Some(code) => signed(code as int),
        None => "no exit code (timed out)"@,
    };
    let text = failed_check_text(c);
    let a = "`"@;
    let b = "` ("@;
    let d = ") exited with "@;
    let e = ":\n```\n"@;
    let f = "\n```"@;
    held_in_the_middle(a, c.name, b + c.command + d + code + e + c.output_tail + f);
    assert(a + c.name + (b + c.command + d + code + e + c.output_tail + f) =~= text);
    held_in_the_middle(a + c.name + b, c.command, d + code + e + c.output_tail + f);
    assert((a + c.name + b) + c.command + (d + code + e + c.output_tail + f) =~= text);
    held_in_the_middle(a + c.name + b + c.command + d + code + e, c.output_tail, f);
    assert((a + c.name + b + c.command + d + code + e) + c.output_tail + f =~= text);
}

/// Every part of a joined text is held by it.
pub proof fn joined_parts_are_held(parts: Seq<Seq<char>>, sep: Seq<char>, i: int)
    requires
        0 <= i < parts.len(),
    ensures
        holds(join(parts, sep), parts[i]),
    decreases parts.len(),
{
    let none = Seq::<char>::empty();
    let all = join(parts, sep);
    if parts.len() == 1 {
        held_in_the_middle(none, parts[0], none);
        assert(none + parts[0] + none =~= all);
    } else {
        let front = join(parts.drop_last(), sep);
        if i == parts.len() - 1 {
            held_in_the_middle(front + sep, parts[i], none);
            assert((front + sep) + parts[i] + none =~= all);
        } else {
            joined_parts_are_held(parts.drop_last(), sep, i);
            held_further(front, parts[i], none, sep + parts.last());
            assert(none + front + (sep + parts.last()) =~= all);
        }
    }
}

/// One of the last three checks is among those that are told, if it failed. None that
/// passed is, and never more than three.
pub proof fn recent_failures_are_failures(checks: Seq<CheckResultModel>, i: int)
    requires
        0 <= i < checks.len(),
    ensures
        checks.len() - i <= 3 && !checks[i].passed ==> recent_failures(checks).contains(checks[i]),
        recent_failures(checks).len() <= 3,
        forall|k: int|
            0 <= k < recent_failures(checks).len() ==> {
                let c = #[trigger] recent_failures(checks)[k];
                !c.passed && checks.contains(c)
            },
{
    let back = checks.reverse();
    let p = |c: CheckResultModel| !c.passed;
    let told = recent_failures(checks);
    let j = checks.len() - 1 - i;
    assert(back[j] == checks[i]);
    if checks.len() - i <= 3 && !checks[i].passed {
        filter_step(back, p, j);
        filter_is_prefix(back, p, j + 1);
        let kept = back.take(j + 1).filter(p);
        back.take(j).lemma_filter_len(p);
        let n = kept.len() - 1;
        assert(kept[n] == checks[i]);
        assert(back.filter(p).take(kept.len() as int)[n] == checks[i]);
        assert(told[n] == checks[i]);
    }
    assert forall|k: int| 0 <= k < told.len() implies !(#[trigger] told[k]).passed
        && checks.contains(told[k]) by {
        assert(told[k] == back.filter(p)[k]);
        back.lemma_filter_pred(p, k);
        back.lemma_filter_contains_rev(p, told[k]);
        let m = choose|m: int| 0 <= m < back.len() && back[m] == told[k];
        assert(checks[checks.len() - 1 - m] == told[k]);
    }
}

/// What the agent of the next attempt is told of the last one: why its work could not be
/// integrated; else the kind of its failure and the message, and each of its last three
/// checks that failed. A first attempt is told nothing, and neither is one that comes after
/// an attempt in which nothing failed.
#[verifier::rlimit(60)]
pub proof fn failures_are_passed_on(s: RunStateModel, id: TaskId, i: int)
    requires
        s.tasks.dom().contains(id),
        s.attempts.dom().contains(s.tasks[id].attempts.last()),
    ensures
        ({
            let t = s.tasks[id];
            let last = s.attempts[t.attempts.last()];
            let told = feedback_of(s, id);
            &&& t.attempts.len() == 0 ==> told is None
            &&& t.attempts.len() > 0 ==> {
                &&& t.last_integration_error matches Some(error) ==> (told matches Some(text)
                    && holds(text, error))
                &&& t.last_integration_error is None ==> {
                    &&& last.outcome matches Some(AttemptOutcomeModel::Failed { kind, message })
                        ==> (told matches Some(text) && holds(text, message) && holds(
                        text,
                        kind.label_spec(),
                    ) && holds(text, decimal(last.number as int)))
                    &&& 0 <= i < last.checks.len() && last.checks.len() - i <= 3
                        && !last.checks[i].passed ==> (told matches Some(text) && holds(
                        text,
                        last.checks[i].name,
                    ) && holds(text, last.checks[i].command) && holds(
                        text,
                        last.checks[i].output_tail,
                    ))
                    &&& !(last.outcome matches Some(AttemptOutcomeModel::Failed { .. })) && (
                    forall|k: int| 0 <= k < last.checks.len() ==> (#[trigger] last.checks[k]).passed)
                        ==> told is None
                }
            }
        }),
{
    let t = s.tasks[id];
    if t.attempts.len() > 0 {
        let last = s.attempts[t.attempts.last()];
        let first = failure_note(t, last.number, last.outcome);
        let second = checks_note(t, last.checks);
        let none = Seq::<char>::empty();
        let gap = "\n\n"@;
        let f = |c: CheckResultModel| failed_check_text(c);
        let kept = recent_failures(last.checks);
        let failed = kept.map_values(f);
        if t.last_integration_error is Some {
            let a = "Your previous attempt passed its checks, but its changes could not be integrated with the work other agents finished in the meantime:\n"@;
            let b = "\nYou are now starting from the latest integrated code. Redo the task on top of it."@;
            held_in_the_middle(a, t.last_integration_error->0, b);
        } else {
            if let Some(AttemptOutcomeModel::Failed { kind, message }) = last.outcome {
                let a = "Your previous attempt (attempt "@;
                let n = decimal(last.number as int);
                let b = ") failed ("@;
                let l = kind.label_spec();
                let c = "): "@;
                let note = a + n + b + l + c + message;
                assert(first == Some(note));
                held_in_the_middle(a + n + b + l + c, message, none);
                assert((a + n + b + l + c) + message + none =~= note);
                held_in_the_middle(a + n + b, l, c + message);
                assert((a + n + b) + l + (c + message) =~= note);
                held_in_the_middle(a, n, b + l + c + message);
                assert(a + n + (b + l + c + message) =~= note);
                if let Some(more) = second {
                    held_further(note, message, none, gap + more);
                    held_further(note, l, none, gap + more);
                    held_further(note, n, none, gap + more);
                    assert(none + note + (gap + more) =~= note + gap + more);
                }
            }
            if 0 <= i < last.checks.len() {
                recent_failures_are_failures(last.checks, i);
                if last.checks.len() - i <= 3 && !last.checks[i].passed {
                    let c = last.checks[i];
                    let k = choose|k: int| 0 <= k < kept.len() && kept[k] == c;
                    assert(failed[k] == failed_check_text(c));
                    let head = "Failing checks:\n\n"@;
                    let body = join(failed, gap);
                    let more = head + body;
                    assert(second == Some(more));
                    failed_checks_are_told(c);
                    joined_parts_are_held(failed, gap, k);
                    held_further(body, failed[k], head, none);
                    assert(head + body + none =~= more);
                    if let Some(note) = first {
                        held_further(more, failed[k], note + gap, none);
                        assert((note + gap) + more + none =~= note + gap + more);
                    }
                    let told = feedback_of(s, id)->0;
                    assert(holds(told, failed[k]));
                    held_within(told, failed[k], c.name);
                    held_within(told, failed[k], c.command);
                    held_within(told, failed[k], c.output_tail);
                }
            }
            if forall|k: int| 0 <= k < last.checks.len() ==> (#[trigger] last.checks[k]).passed {
                if last.checks.len() > 0 {
                    recent_failures_are_failures(last.checks, 0);
                    if kept.len() > 0 {
                        let c = kept[0];
                        let m = choose|m: int| 0 <= m < last.checks.len() && last.checks[m] == c;
                        assert(last.checks[m].passed);
                    }
                } else {
                    let back = last.checks.reverse();
                    back.lemma_filter_len(|c: CheckResultModel| !c.passed);
                }
            }
        }
    }
}

/// A task that is skipped says which task failed, and one that failed or is tried again
/// says after how many attempts and why.
pub proof fn changes_say_why(
    s: RunStateModel,
    id: TaskId,
    d: TaskId,
    reason: Seq<char>,
    retryable: bool,
    max_attempts: u32,
)
    ensures
        skip_event(s, id, d) matches EventKindModel::TaskStatusChanged {
            task_id,
            status,
            reason: Some(why),
        } && task_id == d && status == TaskStatus::Skipped && holds(why, s.tasks[id].spec.key),
        s.tasks.dom().contains(id) ==> (failure_events(s, id, reason, retryable, max_attempts)[0]
            matches EventKindModel::TaskStatusChanged { task_id, reason: Some(why), .. } && task_id
            == id && holds(why, reason) && (retryable ==> holds(
            why,
            decimal(attempts_used(s, id) as int),
        ))),
{
    let n = decimal(attempts_used(s, id) as int);
    three_are_held("depends on "@, s.tasks[id].spec.key, ", which failed"@);
    four_are_held("retrying after attempt "@, n, ": "@, reason);
    four_are_held("gave up after "@, n, " attempts: "@, reason);
    let none = Seq::<char>::empty();
    held_in_the_middle(none, reason, none);
    assert(none + reason + none =~= reason);
}

/// A run that failed names every task that did not get done, and how it ended.
pub proof fn missing_work_is_named(s: RunStateModel, id: TaskId)
    requires
        s.task_order().contains(id),
        s.tasks[id].status != TaskStatus::Done,
        all_finished(s),
    ensures
        outcome_of(s) matches Some((status, Some(why))) && status == RunStatus::Failed && holds(
            why,
            s.tasks[id].spec.key,
        ) && holds(why, status_word_spec(s.tasks[id].status)),
{
    let p = |id: TaskId| s.tasks[id].status != TaskStatus::Done;
    let order = s.task_order();
    let left = not_done(s);
    let at = choose|at: int| 0 <= at < order.len() && order[at] == id;
    order.lemma_filter_contains(p, at);
    let k = choose|k: int| 0 <= k < left.len() && left[k] == id;
    let texts = left.map_values(|id: TaskId| not_done_text(s.tasks[id]));
    let t = s.tasks[id];
    assert(texts[k] == not_done_text(t));
    joined_parts_are_held(texts, ", "@, k);
    four_are_held(t.spec.key, " ("@, status_word_spec(t.status), ")"@);
    let list = join(texts, ", "@);
    let a = decimal(left.len() as int);
    let b = decimal(order.len() as int);
    let why = a + " of "@ + b + " tasks did not complete: "@ + list;
    five_are_held(a, " of "@, b, " tasks did not complete: "@, list);
    assert(outcome_of(s) == Some((RunStatus::Failed, Some(why))));
    held_within(why, list, texts[k]);
    held_within(why, texts[k], t.spec.key);
    held_within(why, texts[k], status_word_spec(t.status));
}

/// Each status has a word of its own.
pub proof fn status_words_differ(a: TaskStatus, b: TaskStatus)
    requires
        status_word_spec(a) == status_word_spec(b),
    ensures
        a == b,
{
    crate::ui::status_words();
}

} // verus!
