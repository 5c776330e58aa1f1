//! What holds of runs as a whole: runs that are created can be replayed, ends
//! are final, failures settle what they touch, and a run never gets stuck.

use vstd::prelude::*;

use crate::config::{ConfigModel, PlanModel};
use crate::engine::{
    cancelled_attempts, cancelled_tasks, creation_kinds, finish_kinds, interrupted_kind,
    landed_kinds, reservation, restart_kinds, spec_of_run, task_kinds, NewRunModel,
};
use crate::attempt::{AttemptContextModel, AttemptReportModel};
use crate::events::{EventKindModel, EventModel};
use crate::graph::{acyclic, depends, depends_is_transitive, graph_of, leads};
use crate::ids::{AttemptId, RunId, TaskId, WorkspaceId};
use crate::model::{RunStatus, TaskStatus};
use crate::order::{in_order_is, in_order_lists, increasing, Key};
use crate::schedule::{all_finished, downstream, failure_events, outcome_of, skip_event, skipped};
use crate::state::{
    new_task, start_is_wf, step_keeps_shape, steps_compose, ApplyErrorModel, RunStateModel,
    TaskStateModel,
};
use crate::store::numbered;

verus! {

/// The first of numbered events, and the rest.
proof fn numbered_first(first: nat, id: RunId, at_ms: i64, kinds: Seq<EventKindModel>)
    requires
        kinds.len() > 0,
    ensures
        numbered(first, id, at_ms, kinds).len() == kinds.len(),
        numbered(first, id, at_ms, kinds)[0] == (EventModel {
            seq: first as u64,
            run_id: id,
            at_ms,
            kind: kinds[0],
        }),
        numbered(first, id, at_ms, kinds).drop_first() == numbered(
            first + 1,
            id,
            at_ms,
            kinds.drop_first(),
        ),
{
    assert(numbered(first, id, at_ms, kinds).drop_first() =~= numbered(
        first + 1,
        id,
        at_ms,
        kinds.drop_first(),
    ));
}

/// Numbering two stretches one after the other.
proof fn numbered_adds(
    first: nat,
    id: RunId,
    at_ms: i64,
    a: Seq<EventKindModel>,
    b: Seq<EventKindModel>,
)
    ensures
        numbered(first, id, at_ms, a + b) == numbered(first, id, at_ms, a) + numbered(
            first + a.len(),
            id,
            at_ms,
            b,
        ),
{
    assert(numbered(first, id, at_ms, a + b) =~= numbered(first, id, at_ms, a) + numbered(
        first + a.len(),
        id,
        at_ms,
        b,
    ));
}

/// The state after events of these kinds, recorded together.
pub open spec fn recorded(
    s: RunStateModel,
    first: nat,
    at_ms: i64,
    kinds: Seq<EventKindModel>,
) -> Result<RunStateModel, ApplyErrorModel> {
    s.steps(numbered(first, s.id, at_ms, kinds))
}

/// Events can be recorded from this number on: it is new, and there is room.
pub open spec fn has_room(s: RunStateModel, first: nat, n: nat) -> bool {
    s.last_seq < first && first + n <= u64::MAX
}

proof fn recorded_adds(
    s: RunStateModel,
    first: nat,
    at_ms: i64,
    a: Seq<EventKindModel>,
    b: Seq<EventKindModel>,
)
    ensures
        recorded(s, first, at_ms, a + b) == match recorded(s, first, at_ms, a) {
            Ok(t) => t.steps(numbered(first + a.len(), s.id, at_ms, b)),
            Err(e) => Err(e),
        },
{
    numbered_adds(first, s.id, at_ms, a, b);
    steps_compose(
        s,
        numbered(first, s.id, at_ms, a),
        numbered(first + a.len(), s.id, at_ms, b),
    );
}

/// The event sets the status of a task of the run.
pub open spec fn sets_status(s: RunStateModel, kind: EventKindModel) -> bool {
    kind matches EventKindModel::TaskStatusChanged { task_id, .. } && s.tasks.dom().contains(
        task_id,
    )
}

/// The status of a task after these events, where it had one before.
pub open spec fn status_after(kinds: Seq<EventKindModel>, id: TaskId, was: TaskStatus) -> TaskStatus
    decreases kinds.len(),
{
    if kinds.len() == 0 {
        was
    } else {
        status_after(
            kinds.drop_first(),
            id,
            match kinds[0] {
                EventKindModel::TaskStatusChanged { task_id, status, .. } => if task_id == id {
                    status
                } else {
                    was
                },
                _ => was,
            },
        )
    }
}

/// The event sets the task to this status.
pub open spec fn sets_to(kinds: Seq<EventKindModel>, i: int, id: TaskId, status: TaskStatus) -> bool {
    0 <= i < kinds.len() && (kinds[i] matches EventKindModel::TaskStatusChanged {
        task_id,
        status: st,
        ..
    } && task_id == id && st == status)
}

/// The event sets the status of the task.
pub open spec fn is_about(kinds: Seq<EventKindModel>, i: int, id: TaskId) -> bool {
    0 <= i < kinds.len() && (kinds[i] matches EventKindModel::TaskStatusChanged { task_id, .. }
        && task_id == id)
}

/// Some of the events is about the task.
pub open spec fn some_is_about(kinds: Seq<EventKindModel>, id: TaskId) -> bool {
    exists|i: int| is_about(kinds, i, id)
}

/// The status after some events is that of one of them, or what it was where
/// none is about the task.
proof fn status_after_is_set(kinds: Seq<EventKindModel>, id: TaskId, was: TaskStatus)
    ensures
        ({
            let now = status_after(kinds, id, was);
            ||| exists|i: int| sets_to(kinds, i, id, now)
            ||| now == was && forall|i: int| !is_about(kinds, i, id)
        }),
    decreases kinds.len(),
{
    if kinds.len() > 0 {
        let rest = kinds.drop_first();
        let then = match kinds[0] {
            EventKindModel::TaskStatusChanged { task_id, status, .. } => if task_id == id {
                status
            } else {
                was
            },
            _ => was,
        };
        status_after_is_set(rest, id, then);
        let now = status_after(kinds, id, was);
        if exists|i: int| sets_to(rest, i, id, now) {
            let i = choose|i: int| sets_to(rest, i, id, now);
            assert(sets_to(kinds, i + 1, id, now));
        } else {
            if is_about(kinds, 0, id) {
                assert(sets_to(kinds, 0, id, now));
            } else {
                assert forall|i: int| !is_about(kinds, i, id) by {
                    if is_about(kinds, i, id) {
                        assert(is_about(rest, i - 1, id));
                    }
                }
            }
        }
    }
}

/// The same task, but for its status.
pub open spec fn same_work(a: TaskStateModel, b: TaskStateModel) -> bool {
    &&& a.id == b.id
    &&& a.spec == b.spec
    &&& a.attempts == b.attempts
    &&& a.integrated_commit == b.integrated_commit
    &&& a.last_integration_error == b.last_integration_error
}

/// Only statuses of tasks changed.
pub open spec fn only_statuses(
    s: RunStateModel,
    t: RunStateModel,
    kinds: Seq<EventKindModel>,
) -> bool {
    &&& t.id == s.id
    &&& t.spec == s.spec
    &&& t.status == s.status
    &&& t.tasks.dom() == s.tasks.dom()
    &&& t.task_keys == s.task_keys
    &&& t.attempts == s.attempts
    &&& t.approvals == s.approvals
    &&& forall|id: TaskId| #[trigger]
        s.tasks.dom().contains(id) ==> same_work(t.tasks[id], s.tasks[id]) && t.tasks[id].status
            == status_after(kinds, id, s.tasks[id].status)
}

/// Events that set statuses are accepted, and change nothing else.
proof fn statuses_are_accepted(
    s: RunStateModel,
    first: nat,
    at_ms: i64,
    kinds: Seq<EventKindModel>,
)
    requires
        s.wf(),
        has_room(s, first, kinds.len()),
        forall|i: int| 0 <= i < kinds.len() ==> sets_status(s, #[trigger] kinds[i]),
    ensures
        recorded(s, first, at_ms, kinds) matches Ok(t) && t.wf() && only_statuses(s, t, kinds)
            && t.last_seq < first + kinds.len(),
    decreases kinds.len(),
{
    if kinds.len() > 0 {
        numbered_first(first, s.id, at_ms, kinds);
        let event = numbered(first, s.id, at_ms, kinds)[0];
        assert(sets_status(s, kinds[0]));
        let t = s.step(event)->Ok_0;
        step_keeps_shape(s, event);
        let rest = kinds.drop_first();
        assert(t.tasks.dom() =~= s.tasks.dom());
        assert forall|i: int| 0 <= i < rest.len() implies sets_status(t, #[trigger] rest[i]) by {
            assert(rest[i] == kinds[i + 1]);
        }
        statuses_are_accepted(t, first + 1, at_ms, rest);
    }
}

/// The event ends an attempt of the run.
pub open spec fn ends_attempt(s: RunStateModel, kind: EventKindModel) -> bool {
    kind matches EventKindModel::AttemptFinished { attempt_id, .. } && s.attempts.dom().contains(
        attempt_id,
    )
}

/// The event ends this attempt.
pub open spec fn ends_this(kinds: Seq<EventKindModel>, i: int, id: AttemptId) -> bool {
    0 <= i < kinds.len() && (kinds[i] matches EventKindModel::AttemptFinished { attempt_id, .. }
        && attempt_id == id)
}

/// Events that end attempts are accepted, and change nothing of the tasks.
proof fn ends_are_accepted(s: RunStateModel, first: nat, at_ms: i64, kinds: Seq<EventKindModel>)
    requires
        s.wf(),
        has_room(s, first, kinds.len()),
        forall|i: int| 0 <= i < kinds.len() ==> ends_attempt(s, #[trigger] kinds[i]),
    ensures
        recorded(s, first, at_ms, kinds) matches Ok(t) && {
            &&& t.wf()
            &&& t.last_seq < first + kinds.len()
            &&& t.id == s.id
            &&& t.spec == s.spec
            &&& t.status == s.status
            &&& t.tasks == s.tasks
            &&& t.task_keys == s.task_keys
            &&& t.approvals == s.approvals
            &&& t.attempts.dom() == s.attempts.dom()
            &&& forall|id: AttemptId| #[trigger]
                s.attempts.dom().contains(id) && s.attempts[id].outcome is Some
                    ==> t.attempts[id].outcome is Some
            &&& forall|id: AttemptId, i: int|
                s.attempts.dom().contains(id) && #[trigger] ends_this(kinds, i, id)
                    ==> t.attempts[id].outcome is Some
        },
    decreases kinds.len(),
{
    if kinds.len() > 0 {
        numbered_first(first, s.id, at_ms, kinds);
        let event = numbered(first, s.id, at_ms, kinds)[0];
        assert(ends_attempt(s, kinds[0]));
        let t = s.step(event)->Ok_0;
        step_keeps_shape(s, event);
        let rest = kinds.drop_first();
        assert(t.attempts.dom() =~= s.attempts.dom());
        assert forall|i: int| 0 <= i < rest.len() implies ends_attempt(t, #[trigger] rest[i]) by {
            assert(rest[i] == kinds[i + 1]);
        }
        ends_are_accepted(t, first + 1, at_ms, rest);
        let u = recorded(s, first, at_ms, kinds)->Ok_0;
        assert forall|id: AttemptId| #[trigger]
            s.attempts.dom().contains(id) && s.attempts[id].outcome is Some implies u.attempts[id].outcome is Some by {
            assert(t.attempts.dom().contains(id));
        }
        assert forall|id: AttemptId, i: int|
            s.attempts.dom().contains(id) && #[trigger] ends_this(kinds, i, id) implies u.attempts[id].outcome is Some by {
            assert(t.attempts.dom().contains(id));
            if i > 0 {
                assert(ends_this(rest, i - 1, id));
            }
        }
    }
}

/// The ids in order are all ids.
proof fn orders_list_all(s: RunStateModel)
    requires
        s.tasks.dom().finite(),
        s.attempts.dom().finite(),
    ensures
        s.tasks.dom() == s.task_order().to_set(),
        s.attempts.dom() == s.attempt_order().to_set(),
{
    in_order_lists::<TaskId>(s.tasks.dom());
    in_order_lists::<AttemptId>(s.attempts.dom());
}

/// An end is final: once a run has been ended, it has the status that was
/// decided, every attempt is finished and every task is, and a task that had
/// finished before keeps its status.
pub proof fn ended_runs_are_over(
    s: RunStateModel,
    status: RunStatus,
    reason: Option<Seq<char>>,
    first: nat,
    at_ms: i64,
)
    requires
        s.wf(),
        s.tasks.dom().finite(),
        s.attempts.dom().finite(),
        has_room(s, first, finish_kinds(s, status, reason, Seq::empty()).len()),
    ensures
        recorded(s, first, at_ms, finish_kinds(s, status, reason, Seq::empty())) matches Ok(t) && {
            &&& t.status == status
            &&& t.status_reason == reason
            &&& all_finished(t)
            &&& forall|id: AttemptId| #[trigger]
                t.attempts.dom().contains(id) ==> t.attempts[id].outcome is Some
            &&& forall|id: TaskId| #[trigger]
                s.tasks.dom().contains(id) && s.tasks[id].status.terminal() ==> t.tasks[id].status
                    == s.tasks[id].status
        },
{
    orders_list_all(s);
    let a = cancelled_attempts(s);
    let b = cancelled_tasks(s, reason);
    let c = seq![EventKindModel::RunStatusChanged { status, stage: None, reason }];
    let all = finish_kinds(s, status, reason, Seq::empty());
    assert(all =~= a + (b + c));
    let p = |id: AttemptId| s.attempts[id].outcome is None;
    let q = |id: TaskId| !s.tasks[id].status.terminal();
    assert forall|i: int| 0 <= i < a.len() implies ends_attempt(s, #[trigger] a[i]) by {
        s.attempt_order().lemma_filter_contains_rev(p, s.unfinished()[i]);
        assert(s.attempt_order().to_set().contains(s.unfinished()[i]));
    }
    assert forall|i: int| 0 <= i < b.len() implies sets_status(s, #[trigger] b[i]) by {
        s.task_order().lemma_filter_contains_rev(q, s.open_tasks()[i]);
        assert(s.task_order().to_set().contains(s.open_tasks()[i]));
    }
    recorded_adds(s, first, at_ms, a, b + c);
    ends_are_accepted(s, first, at_ms, a);
    let t1 = recorded(s, first, at_ms, a)->Ok_0;
    let mid = first + a.len();
    recorded_adds(t1, mid, at_ms, b, c);
    assert forall|i: int| 0 <= i < b.len() implies sets_status(t1, #[trigger] b[i]) by {
        assert(sets_status(s, b[i]));
    }
    statuses_are_accepted(t1, mid, at_ms, b);
    let t2 = recorded(t1, mid, at_ms, b)->Ok_0;
    numbered_first(mid + b.len(), s.id, at_ms, c);
    assert(c.drop_first() =~= Seq::<EventKindModel>::empty());
    let last = numbered(mid + b.len(), s.id, at_ms, c);
    assert(last.drop_first() =~= Seq::<EventModel>::empty());
    reveal_with_fuel(RunStateModel::steps, 2);
    let t = recorded(s, first, at_ms, all)->Ok_0;
    assert forall|id: TaskId| #[trigger] t.tasks.dom().contains(id) implies t.tasks[id].status.terminal()
        && (s.tasks[id].status.terminal() ==> t.tasks[id].status == s.tasks[id].status) by {
        let was = s.tasks[id].status;
        status_after_is_set(b, id, was);
        if was.terminal() {
            assert forall|i: int| !is_about(b, i, id) by {
                if is_about(b, i, id) {
                    s.task_order().lemma_filter_pred(q, i);
                }
            }
            if exists|i: int| sets_to(b, i, id, t.tasks[id].status) {
                let i = choose|i: int| sets_to(b, i, id, t.tasks[id].status);
                assert(is_about(b, i, id));
            }
        } else {
            assert(s.task_order().to_set().contains(id));
            let k = choose|k: int| 0 <= k < s.task_order().len() && s.task_order()[k] == id;
            s.task_order().lemma_filter_contains(q, k);
            let i = choose|i: int| 0 <= i < s.open_tasks().len() && s.open_tasks()[i] == id;
            assert(is_about(b, i, id));
        }
    }
    assert forall|id: AttemptId| #[trigger] t.attempts.dom().contains(id) implies t.attempts[id].outcome is Some by {
        assert(s.attempts.dom().contains(id));
        if s.attempts[id].outcome is None {
            assert(s.attempt_order().to_set().contains(id));
            let k = choose|k: int| 0 <= k < s.attempt_order().len() && s.attempt_order()[k] == id;
            s.attempt_order().lemma_filter_contains(p, k);
            let i = choose|i: int| 0 <= i < s.unfinished().len() && s.unfinished()[i] == id;
            assert(ends_this(a, i, id));
        }
    }
}


/// The tasks below a task, as they are listed.
proof fn downstream_lists(s: RunStateModel, id: TaskId)
    requires
        s.tasks.dom().finite(),
    ensures
        downstream(s, id).to_set() == Set::new(|m: TaskId| depends(s.graph(), m, id)),
        forall|m: TaskId| #[trigger] depends(s.graph(), m, id) ==> s.tasks.dom().contains(m),
{
    let below = Set::new(|m: TaskId| depends(s.graph(), m, id));
    assert forall|m: TaskId| #[trigger] depends(s.graph(), m, id) implies s.tasks.dom().contains(m) by {
        let p = choose|p: Seq<TaskId>| leads(s.graph(), p, m, id);
        assert(s.graph().dom().contains(p[0]));
    }
    assert(below.subset_of(s.tasks.dom()));
    vstd::set_lib::lemma_set_subset_finite(s.tasks.dom(), below);
    in_order_lists::<TaskId>(below);
}

/// Another attempt follows a failure.
pub open spec fn is_retried(s: RunStateModel, id: TaskId, retryable: bool, max_attempts: u32) -> bool {
    retryable && (s.tasks[id].attempts.len() as u32) < max_attempts
}

/// A failure settles its task: it is tried again, while attempts are left, or it
/// fails and with it ends all that directly or indirectly depends on it. No other
/// task is touched, and no finished task below it changes.
pub proof fn failures_settle(
    s: RunStateModel,
    id: TaskId,
    reason: Seq<char>,
    retryable: bool,
    max_attempts: u32,
    first: nat,
    at_ms: i64,
)
    requires
        s.wf(),
        s.tasks.dom().finite(),
        s.tasks.dom().contains(id),
        has_room(s, first, failure_events(s, id, reason, retryable, max_attempts).len()),
    ensures
        recorded(
            s,
            first,
            at_ms,
            failure_events(s, id, reason, retryable, max_attempts),
        ) matches Ok(t) && {
            &&& t.wf()
            &&& t.last_seq < first + failure_events(s, id, reason, retryable, max_attempts).len()
            &&& only_statuses(s, t, failure_events(s, id, reason, retryable, max_attempts))
            &&& is_retried(s, id, retryable, max_attempts) ==> t.tasks[id].status
                == TaskStatus::Ready
            &&& !is_retried(s, id, retryable, max_attempts) ==> (t.tasks[id].status
                == TaskStatus::Failed || t.tasks[id].status == TaskStatus::Skipped)
            &&& forall|m: TaskId| #[trigger]
                s.tasks.dom().contains(m) && m != id ==> {
                    let below = depends(s.graph(), m, id) && !is_retried(
                        s,
                        id,
                        retryable,
                        max_attempts,
                    ) && !s.tasks[m].status.terminal();
                    t.tasks[m].status == if below {
                        TaskStatus::Skipped
                    } else {
                        s.tasks[m].status
                    }
                }
        },
{
    let kinds = failure_events(s, id, reason, retryable, max_attempts);
    downstream_lists(s, id);
    let q = |d: TaskId| !s.tasks[d].status.terminal();
    let all = downstream(s, id);
    let kept = all.filter(q);
    let skips = skipped(s, id);
    let retried = is_retried(s, id, retryable, max_attempts);
    assert(skips.len() == kept.len());
    assert forall|k: int| 0 <= k < kept.len() implies #[trigger] skips[k] == skip_event(
        s,
        id,
        kept[k],
    ) && !s.tasks[kept[k]].status.terminal() && depends(s.graph(), kept[k], id) by {
        all.lemma_filter_pred(q, k);
        all.lemma_filter_contains_rev(q, kept[k]);
        assert(all.to_set().contains(kept[k]));
    }
    assert forall|i: int| 0 <= i < kinds.len() implies sets_status(s, #[trigger] kinds[i]) by {
        if i > 0 {
            assert(kinds[i] == skips[i - 1]);
            assert(depends(s.graph(), kept[i - 1], id));
        }
    }
    statuses_are_accepted(s, first, at_ms, kinds);
    let t = recorded(s, first, at_ms, kinds)->Ok_0;
    // The task itself.
    status_after_is_set(kinds, id, s.tasks[id].status);
    assert(is_about(kinds, 0, id));
    let now = t.tasks[id].status;
    let at = choose|i: int| sets_to(kinds, i, id, now);
    if at > 0 {
        assert(kinds[at] == skips[at - 1]);
    }
    assert forall|m: TaskId| #[trigger] s.tasks.dom().contains(m) && m != id implies t.tasks[m].status
        == if depends(s.graph(), m, id) && !retried && !s.tasks[m].status.terminal() {
        TaskStatus::Skipped
    } else {
        s.tasks[m].status
    } by {
        status_after_is_set(kinds, m, s.tasks[m].status);
        let st = t.tasks[m].status;
        if exists|i: int| sets_to(kinds, i, m, st) {
            let i = choose|i: int| sets_to(kinds, i, m, st);
            assert(i > 0);
            assert(kinds[i] == skips[i - 1]);
        } else if depends(s.graph(), m, id) && !retried && !s.tasks[m].status.terminal() {
            assert(all.to_set().contains(m));
            let x = choose|x: int| 0 <= x < all.len() && all[x] == m;
            all.lemma_filter_contains(q, x);
            let k = choose|k: int| 0 <= k < kept.len() && kept[k] == m;
            assert(kinds[k + 1] == skips[k]);
            assert(is_about(kinds, k + 1, m));
        }
    }
}

/// Of an unfinished task, nothing it depends on has ended without being done.
pub open spec fn settled(s: RunStateModel) -> bool {
    forall|id: TaskId, d: TaskId|
        s.tasks.dom().contains(id) && !s.tasks[id].status.terminal() && #[trigger] s.needs(id, d)
            ==> (s.tasks[d].status.terminal() ==> s.tasks[d].status == TaskStatus::Done)
}

/// The task runs, or has been done.
pub open spec fn had_its_turn(s: RunStateModel, id: TaskId) -> bool {
    s.tasks[id].status == TaskStatus::Running || s.tasks[id].status == TaskStatus::Done
}

/// All that a running task depends on is done, and all that a done task depends
/// on is.
pub open spec fn in_turn(s: RunStateModel) -> bool {
    forall|id: TaskId, d: TaskId|
        s.tasks.dom().contains(id) && had_its_turn(s, id) && #[trigger] s.needs(id, d)
            ==> s.tasks[d].status == TaskStatus::Done
}

/// How many attempts a task may have: the first one, and as many as the budget
/// allows.
pub open spec fn attempts_allowed(s: RunStateModel) -> int {
    if s.spec.budget.max_attempts_per_task == 0 {
        1
    } else {
        s.spec.budget.max_attempts_per_task as int
    }
}

/// No task has had more attempts than it may have, and one that waits may have
/// another.
pub open spec fn within_attempts(s: RunStateModel) -> bool {
    forall|id: TaskId| #[trigger]
        s.tasks.dom().contains(id) ==> {
            &&& s.tasks[id].attempts.len() <= attempts_allowed(s)
            &&& s.waits(id) ==> s.tasks[id].attempts.len() < attempts_allowed(s)
        }
}

/// A run that can go on: its tasks depend on each other without cycles, what
/// failed has ended all that depends on it, what runs or is done depends on
/// nothing that is not done, and no task has more attempts than it may have.
pub open spec fn sound(s: RunStateModel) -> bool {
    &&& s.wf()
    &&& s.tasks.dom().finite()
    &&& s.attempts.dom().finite()
    &&& acyclic(s.graph())
    &&& settled(s)
    &&& in_turn(s)
    &&& within_attempts(s)
}

/// What the tasks depend on does not change with their statuses.
proof fn same_graph(s: RunStateModel, t: RunStateModel)
    requires
        t.tasks.dom() == s.tasks.dom(),
        t.task_keys == s.task_keys,
        forall|id: TaskId| #[trigger]
            s.tasks.dom().contains(id) ==> t.tasks[id].spec == s.tasks[id].spec,
    ensures
        t.graph() == s.graph(),
        forall|id: TaskId, d: TaskId| s.tasks.dom().contains(id) ==> #[trigger] t.needs(id, d)
            == s.needs(id, d),
{
    assert forall|id: TaskId, d: TaskId| s.tasks.dom().contains(id) implies #[trigger] t.needs(
        id,
        d,
    ) == s.needs(id, d) by {
        assert(t.tasks[id].spec == s.tasks[id].spec);
    }
    assert forall|id: TaskId| s.tasks.dom().contains(id) implies #[trigger] t.graph()[id]
        == s.graph()[id] by {
        assert(t.graph()[id] =~= s.graph()[id]) by {
            assert forall|d: TaskId| t.graph()[id].contains(d) == #[trigger] s.graph()[id].contains(
                d,
            ) by {
                assert(t.needs(id, d) == s.needs(id, d));
            }
        }
    }
    assert(t.graph() =~= s.graph());
}

/// One step of needing is one step in the graph.
proof fn needs_is_depends(s: RunStateModel, id: TaskId, d: TaskId)
    requires
        s.tasks.dom().contains(id),
        s.needs(id, d),
    ensures
        depends(s.graph(), id, d),
{
    let p = seq![id, d];
    assert(s.graph()[id].contains(d));
    assert(leads(s.graph(), p, id, d));
}

/// A task that another one needs is a task of the run.
proof fn needed_is_there(s: RunStateModel, id: TaskId, d: TaskId)
    requires
        s.wf(),
        s.needs(id, d),
    ensures
        s.tasks.dom().contains(d),
{
    let key = choose|key: Seq<char>| #[trigger]
        s.tasks[id].spec.depends_on.contains(key) && s.task_keys.dom().contains(key)
            && s.task_keys[key] == d;
}

/// A failure leaves a sound run sound: among other things, a task is tried again
/// only while the budget allows another attempt.
pub proof fn failures_keep_runs_sound(
    s: RunStateModel,
    id: TaskId,
    reason: Seq<char>,
    retryable: bool,
    max_attempts: u32,
    first: nat,
    at_ms: i64,
)
    requires
        sound(s),
        s.tasks.dom().contains(id),
        !s.tasks[id].status.terminal(),
        max_attempts <= s.spec.budget.max_attempts_per_task,
        has_room(s, first, failure_events(s, id, reason, retryable, max_attempts).len()),
    ensures
        recorded(
            s,
            first,
            at_ms,
            failure_events(s, id, reason, retryable, max_attempts),
        ) matches Ok(t) && sound(t),
{
    let kinds = failure_events(s, id, reason, retryable, max_attempts);
    failures_settle(s, id, reason, retryable, max_attempts, first, at_ms);
    let t = recorded(s, first, at_ms, kinds)->Ok_0;
    same_graph(s, t);
    assert forall|m: TaskId, d: TaskId|
        t.tasks.dom().contains(m) && !t.tasks[m].status.terminal() && #[trigger] t.needs(
            m,
            d,
        ) && t.tasks[d].status.terminal() implies t.tasks[d].status == TaskStatus::Done by {
        assert(s.needs(m, d));
        needs_is_depends(s, m, d);
        assert(s.tasks.dom().contains(m));
        needed_is_there(s, m, d);
        if m == id {
            assert(!depends(s.graph(), m, m));
            if d != id && depends(s.graph(), d, id) {
                depends_is_transitive(s.graph(), m, d, m);
            }
        } else {
            assert(!s.tasks[m].status.terminal());
            if d == id {
                if !is_retried(s, id, retryable, max_attempts) {
                    assert(depends(s.graph(), m, id));
                }
            } else if depends(s.graph(), d, id) {
                depends_is_transitive(s.graph(), m, d, id);
            }
        }
    }
    assert forall|m: TaskId, d: TaskId|
        t.tasks.dom().contains(m) && had_its_turn(t, m) && #[trigger] t.needs(m, d) implies t.tasks[d].status == TaskStatus::Done by {
        assert(s.tasks.dom().contains(m));
        assert(s.needs(m, d));
        needed_is_there(s, m, d);
    }
    assert forall|m: TaskId| #[trigger] t.tasks.dom().contains(m) implies {
        &&& t.tasks[m].attempts.len() <= attempts_allowed(t)
        &&& t.waits(m) ==> t.tasks[m].attempts.len() < attempts_allowed(t)
    } by {
        assert(s.tasks.dom().contains(m));
    }
}

/// Setting one task of a sound run to a status that is not an end, or to done,
/// leaves it sound.
proof fn one_status_keeps_sound(s: RunStateModel, t: RunStateModel, id: TaskId)
    requires
        sound(s),
        t.wf(),
        t.tasks.dom() == s.tasks.dom(),
        t.attempts.dom().finite(),
        t.task_keys == s.task_keys,
        s.tasks.dom().contains(id),
        !s.tasks[id].status.terminal(),
        !t.tasks[id].status.terminal() || t.tasks[id].status == TaskStatus::Done,
        had_its_turn(t, id) ==> forall|d: TaskId| #[trigger]
            s.needs(id, d) ==> s.tasks[d].status == TaskStatus::Done,
        within_attempts(t),
        forall|m: TaskId| #[trigger]
            s.tasks.dom().contains(m) ==> t.tasks[m].spec == s.tasks[m].spec && (m != id
                ==> t.tasks[m].status == s.tasks[m].status),
    ensures
        sound(t),
{
    same_graph(s, t);
    assert forall|m: TaskId, d: TaskId|
        t.tasks.dom().contains(m) && !t.tasks[m].status.terminal() && #[trigger] t.needs(
            m,
            d,
        ) && t.tasks[d].status.terminal() implies t.tasks[d].status == TaskStatus::Done by {
        assert(s.needs(m, d));
        assert(s.tasks.dom().contains(m));
        needed_is_there(s, m, d);
    }
    assert forall|m: TaskId, d: TaskId|
        t.tasks.dom().contains(m) && had_its_turn(t, m) && #[trigger] t.needs(m, d) implies t.tasks[d].status == TaskStatus::Done by {
        assert(s.tasks.dom().contains(m));
        assert(s.needs(m, d));
        needed_is_there(s, m, d);
    }
}

/// Reserving an attempt of a ready task is accepted: the task runs and has one
/// more attempt, and a sound run stays sound. In particular, no task gets more
/// attempts than it may have.
pub proof fn reservations_are_accepted(
    s: RunStateModel,
    ctx: AttemptContextModel,
    workspace_id: WorkspaceId,
    first: nat,
    at_ms: i64,
)
    requires
        sound(s),
        s.tasks.dom().contains(ctx.task_id),
        s.is_ready(ctx.task_id),
        has_room(s, first, 2),
    ensures
        recorded(s, first, at_ms, reservation(ctx, workspace_id)) matches Ok(t) && {
            &&& sound(t)
            &&& t.tasks[ctx.task_id].status == TaskStatus::Running
            &&& t.tasks[ctx.task_id].attempts == s.tasks[ctx.task_id].attempts.push(ctx.attempt_id)
            &&& t.attempts.dom().contains(ctx.attempt_id)
            &&& t.attempts[ctx.attempt_id].outcome is None
        },
{
    let kinds = reservation(ctx, workspace_id);
    let events = numbered(first, s.id, at_ms, kinds);
    numbered_first(first, s.id, at_ms, kinds);
    let rest = kinds.drop_first();
    numbered_first(first + 1, s.id, at_ms, rest);
    assert(events.drop_first()[0].kind == kinds[1]);
    assert(events.drop_first().drop_first() =~= Seq::<EventModel>::empty());
    reveal_with_fuel(RunStateModel::steps, 3);
    let a = s.step(events[0])->Ok_0;
    step_keeps_shape(s, events[0]);
    let t = a.step(events.drop_first()[0])->Ok_0;
    step_keeps_shape(a, events.drop_first()[0]);
    assert(t.tasks.dom() =~= s.tasks.dom());
    assert(t.attempts.dom() =~= s.attempts.dom().insert(ctx.attempt_id));
    assert forall|m: TaskId| #[trigger] t.tasks.dom().contains(m) implies {
        &&& t.tasks[m].attempts.len() <= attempts_allowed(t)
        &&& t.waits(m) ==> t.tasks[m].attempts.len() < attempts_allowed(t)
    } by {
        assert(s.tasks.dom().contains(m));
    }
    one_status_keeps_sound(s, t, ctx.task_id);
}

/// Landed work is accepted: its task is done, with the commit that integrated
/// it, and a sound run stays sound.
pub proof fn landings_are_accepted(
    s: RunStateModel,
    report: AttemptReportModel,
    commit: Seq<char>,
    first: nat,
    at_ms: i64,
)
    requires
        sound(s),
        s.tasks.dom().contains(report.task_id),
        s.tasks[report.task_id].status == TaskStatus::Running,
        has_room(s, first, 2),
    ensures
        recorded(s, first, at_ms, landed_kinds(report, commit)) matches Ok(t) && {
            &&& sound(t)
            &&& t.tasks[report.task_id].status == TaskStatus::Done
            &&& t.tasks[report.task_id].integrated_commit == Some(commit)
        },
{
    let kinds = landed_kinds(report, commit);
    let events = numbered(first, s.id, at_ms, kinds);
    numbered_first(first, s.id, at_ms, kinds);
    let rest = kinds.drop_first();
    numbered_first(first + 1, s.id, at_ms, rest);
    assert(events.drop_first()[0].kind == kinds[1]);
    assert(events.drop_first().drop_first() =~= Seq::<EventModel>::empty());
    reveal_with_fuel(RunStateModel::steps, 3);
    let a = s.step(events[0])->Ok_0;
    step_keeps_shape(s, events[0]);
    let t = a.step(events.drop_first()[0])->Ok_0;
    step_keeps_shape(a, events.drop_first()[0]);
    assert(t.tasks.dom() =~= s.tasks.dom());
    assert forall|m: TaskId| #[trigger] t.tasks.dom().contains(m) implies {
        &&& t.tasks[m].attempts.len() <= attempts_allowed(t)
        &&& t.waits(m) ==> t.tasks[m].attempts.len() < attempts_allowed(t)
    } by {
        assert(s.tasks.dom().contains(m));
    }
    one_status_keeps_sound(s, t, report.task_id);
}

/// Whatever else is recorded leaves a sound run sound: what agents do, checks,
/// reviews, approvals, ends of attempts, failed integrations and the like.
pub proof fn other_events_keep_runs_sound(s: RunStateModel, event: EventModel)
    requires
        sound(s),
        s.step(event) is Ok,
        !(event.kind is TaskCreated),
        !(event.kind is TaskStatusChanged),
        !(event.kind is AttemptStarted),
    ensures
        sound(s.step(event)->Ok_0),
{
    let t = s.step(event)->Ok_0;
    step_keeps_shape(s, event);
    assert(t.tasks.dom() =~= s.tasks.dom());
    assert(t.attempts.dom() =~= s.attempts.dom());
    same_graph(s, t);
    assert forall|m: TaskId, d: TaskId|
        t.tasks.dom().contains(m) && !t.tasks[m].status.terminal() && #[trigger] t.needs(
            m,
            d,
        ) && t.tasks[d].status.terminal() implies t.tasks[d].status == TaskStatus::Done by {
        assert(s.needs(m, d));
        needed_is_there(s, m, d);
    }
    assert forall|m: TaskId, d: TaskId|
        t.tasks.dom().contains(m) && had_its_turn(t, m) && #[trigger] t.needs(m, d) implies t.tasks[d].status == TaskStatus::Done by {
        assert(s.needs(m, d));
        needed_is_there(s, m, d);
    }
    assert forall|m: TaskId| #[trigger] t.tasks.dom().contains(m) implies {
        &&& t.tasks[m].attempts.len() <= attempts_allowed(t)
        &&& t.waits(m) ==> t.tasks[m].attempts.len() < attempts_allowed(t)
    } by {
        assert(s.tasks.dom().contains(m));
    }
}

/// In an acyclic graph, some node of a set depends on none of the set.
proof fn lowest<M>(g: Map<M, Set<M>>, u: Set<M>, m: M) -> (r: M)
    requires
        u.finite(),
        u.contains(m),
        acyclic(g),
    ensures
        u.contains(r),
        forall|d: M| g.dom().contains(r) && #[trigger] g[r].contains(d) ==> !u.contains(d),
    decreases u.filter(|x: M| depends(g, m, x)).len(),
{
    if exists|d: M| g.dom().contains(m) && #[trigger] g[m].contains(d) && u.contains(d) {
        let d = choose|d: M| g.dom().contains(m) && #[trigger] g[m].contains(d) && u.contains(d);
        let p = seq![m, d];
        assert(leads(g, p, m, d));
        let below_m = u.filter(|x: M| depends(g, m, x));
        let below_d = u.filter(|x: M| depends(g, d, x));
        assert forall|x: M| #[trigger] below_d.contains(x) implies below_m.contains(x) by {
            depends_is_transitive(g, m, d, x);
        }
        assert(below_m.contains(d));
        assert(!depends(g, d, d));
        assert(!below_d.contains(d));
        assert(below_d.subset_of(below_m.remove(d)));
        vstd::set_lib::lemma_len_subset(below_d, below_m.remove(d));
        lowest(g, u, d)
    } else {
        m
    }
}

/// A sound run never gets stuck: where no task runs, a task can be started, or
/// every task has ended and the run has its outcome.
pub proof fn sound_runs_never_stall(s: RunStateModel)
    requires
        sound(s),
        forall|id: TaskId| #[trigger]
            s.tasks.dom().contains(id) ==> s.tasks[id].status != TaskStatus::Running,
    ensures
        s.ready().len() > 0 || outcome_of(s) is Some,
{
    if !all_finished(s) {
        let q = |id: TaskId| !s.tasks[id].status.terminal();
        let u = s.tasks.dom().filter(q);
        let m = choose|id: TaskId| #[trigger]
            s.tasks.dom().contains(id) && !s.tasks[id].status.terminal();
        let r = lowest(s.graph(), u, m);
        assert forall|d: TaskId| #[trigger] s.needs(r, d) implies s.tasks[d].status
            == TaskStatus::Done by {
            assert(s.graph()[r].contains(d));
            let key = choose|key: Seq<char>| #[trigger]
                s.tasks[r].spec.depends_on.contains(key) && s.task_keys.dom().contains(key)
                    && s.task_keys[key] == d;
            assert(s.tasks.dom().contains(d));
            assert(!u.contains(d));
        }
        assert(s.is_ready(r));
        orders_list_all(s);
        assert(s.task_order().to_set().contains(r));
        let k = choose|k: int| 0 <= k < s.task_order().len() && s.task_order()[k] == r;
        let p = |id: TaskId| s.is_ready(id);
        s.task_order().lemma_filter_contains(p, k);
    }
}


/// The first `k` tasks of a plan are in the run, and nothing else is.
pub open spec fn holds_tasks(s: RunStateModel, plan: PlanModel, ids: Seq<TaskId>, k: int) -> bool {
    &&& s.tasks.dom() == ids.take(k).to_set()
    &&& forall|i: int|
        0 <= i < k ==> s.tasks[#[trigger] ids[i]] == new_task(ids[i], plan.specs()[i])
    &&& forall|i: int|
        0 <= i < k ==> s.task_keys.dom().contains((#[trigger] plan.tasks[i]).key)
            && s.task_keys[plan.tasks[i].key] == ids[i]
    &&& forall|key: Seq<char>| #[trigger]
        s.task_keys.dom().contains(key) ==> exists|i: int|
            0 <= i < k && (#[trigger] plan.tasks[i]).key == key
    &&& s.attempts == Map::<AttemptId, crate::state::AttemptStateModel>::empty()
    &&& s.status == RunStatus::Pending
}

proof fn tasks_are_created(
    s: RunStateModel,
    plan: PlanModel,
    ids: Seq<TaskId>,
    k: int,
    first: nat,
    at_ms: i64,
)
    requires
        s.wf(),
        plan.keys_fine(plan.tasks.len() as int),
        ids.len() == plan.tasks.len(),
        ids.no_duplicates(),
        0 <= k <= ids.len(),
        holds_tasks(s, plan, ids, k),
        has_room(s, first, (ids.len() - k) as nat),
    ensures
        recorded(s, first, at_ms, task_kinds(plan, ids).skip(k)) matches Ok(t) && t.wf()
            && holds_tasks(t, plan, ids, ids.len() as int) && t.id == s.id && t.spec == s.spec
            && t.plan_summary == s.plan_summary && t.approvals == s.approvals,
    decreases ids.len() - k,
{
    let kinds = task_kinds(plan, ids).skip(k);
    if k < ids.len() {
        numbered_first(first, s.id, at_ms, kinds);
        let event = numbered(first, s.id, at_ms, kinds)[0];
        assert(kinds[0] == task_kinds(plan, ids)[k]);
        assert(plan.specs()[k].key == plan.tasks[k].key);
        assert(!plan.bad_key(k));
        assert(!s.task_keys.dom().contains(plan.tasks[k].key)) by {
            if s.task_keys.dom().contains(plan.tasks[k].key) {
                let i = choose|i: int|
                    0 <= i < k && (#[trigger] plan.tasks[i]).key == plan.tasks[k].key;
                assert(plan.repeats(k));
            }
        }
        let t = s.step(event)->Ok_0;
        step_keeps_shape(s, event);
        assert(t.tasks.dom() =~= ids.take(k + 1).to_set()) by {
            assert(ids.take(k + 1) =~= ids.take(k).push(ids[k]));
            ids.take(k).lemma_push_to_set_commute(ids[k]);
        }
        assert forall|i: int| 0 <= i < k + 1 implies t.tasks[#[trigger] ids[i]] == new_task(
            ids[i],
            plan.specs()[i],
        ) by {
            assert(i < k ==> ids[i] != ids[k]);
        }
        assert forall|i: int| 0 <= i < k + 1 implies t.task_keys.dom().contains(
            (#[trigger] plan.tasks[i]).key,
        ) && t.task_keys[plan.tasks[i].key] == ids[i] by {
            if i < k && plan.tasks[i].key == plan.tasks[k].key {
                assert(plan.repeats(k));
            }
        }
        assert forall|key: Seq<char>| #[trigger] t.task_keys.dom().contains(key) implies exists|
            i: int,
        |
            0 <= i < k + 1 && (#[trigger] plan.tasks[i]).key == key by {
            if key == plan.tasks[k].key {
            } else {
                assert(s.task_keys.dom().contains(key));
                let i = choose|i: int| 0 <= i < k && (#[trigger] plan.tasks[i]).key == key;
                assert(0 <= i < k + 1 && plan.tasks[i].key == key);
            }
        }
        assert(kinds.drop_first() =~= task_kinds(plan, ids).skip(k + 1));
        tasks_are_created(t, plan, ids, k + 1, first + 1, at_ms);
    } else {
        assert(numbered(first, s.id, at_ms, kinds) =~= Seq::<EventModel>::empty());
        assert(ids.take(k) =~= ids);
    }
}

/// A run that is created with a valid plan can be replayed. It waits, with
/// exactly the tasks of the plan, each under its key, no attempt, and the budget
/// and configuration that it was created with; and it is sound.
pub proof fn created_runs_are_sound(
    new: NewRunModel,
    config: ConfigModel,
    base_ref: Seq<char>,
    ids: Seq<TaskId>,
    run_id: RunId,
    first: nat,
    at_ms: i64,
)
    requires
        new.plan.valid(),
        ids.len() == new.plan.tasks.len(),
        ids.no_duplicates(),
        first + ids.len() + 2 <= u64::MAX,
    ensures
        RunStateModel::replayed(
            numbered(
                first,
                run_id,
                at_ms,
                creation_kinds(new, config, base_ref, ids),
            ),
        ) matches Ok(t) && {
            &&& sound(t)
            &&& t.id == run_id
            &&& t.spec == spec_of_run(new, config, base_ref)
            &&& t.plan_summary == Some(new.plan.summary)
            &&& holds_tasks(t, new.plan, ids, ids.len() as int)
        },
{
    let kinds = creation_kinds(new, config, base_ref, ids);
    let log = numbered(first, run_id, at_ms, kinds);
    let made = task_kinds(new.plan, ids);
    numbered_first(first, run_id, at_ms, kinds);
    let a = RunStateModel::start(log[0])->Ok_0;
    start_is_wf(log[0]);
    let rest = kinds.drop_first();
    assert(rest[0] == kinds[1]);
    numbered_first(first + 1, run_id, at_ms, rest);
    let event = log.drop_first()[0];
    let b = a.step(event)->Ok_0;
    step_keeps_shape(a, event);
    assert(rest.drop_first() =~= made.skip(0));
    assert(ids.take(0).to_set() =~= Set::<TaskId>::empty());
    assert(b.tasks.dom() =~= Set::<TaskId>::empty());
    tasks_are_created(b, new.plan, ids, 0, first + 2, at_ms);
    reveal_with_fuel(RunStateModel::steps, 2);
    let t = RunStateModel::replayed(log)->Ok_0;
    assert(ids.take(ids.len() as int) =~= ids);
    assert(t.tasks.dom().finite());
    let nodes = new.plan.nodes();
    let g = graph_of(nodes);
    let h = |id: TaskId| t.tasks[id].spec.key;
    assert forall|id: TaskId, d: TaskId|
        t.tasks.dom().contains(id) && #[trigger] t.needs(id, d) implies g.dom().contains(h(id))
        && g[h(id)].contains(h(d)) by {
        let i = choose|i: int| 0 <= i < ids.len() && ids[i] == id;
        let key = choose|key: Seq<char>| #[trigger]
            t.tasks[id].spec.depends_on.contains(key) && t.task_keys.dom().contains(key)
                && t.task_keys[key] == d;
        let j = choose|j: int| 0 <= j < ids.len() && (#[trigger] new.plan.tasks[j]).key == key;
        assert(t.tasks[ids[i]] == new_task(ids[i], new.plan.specs()[i]));
        assert(t.tasks[ids[j]] == new_task(ids[j], new.plan.specs()[j]));
        assert(nodes[i].0 == h(id) && nodes[i].1.contains(key));
        assert(crate::graph::names(nodes, h(id)));
        assert(crate::graph::lists(nodes, h(id), key));
    }
    assert forall|m: TaskId| !#[trigger] depends(t.graph(), m, m) by {
        if depends(t.graph(), m, m) {
            let p = choose|p: Seq<TaskId>| leads(t.graph(), p, m, m);
            let q = p.map_values(h);
            assert forall|x: int| 0 <= x < q.len() - 1 implies g.dom().contains(#[trigger] q[x])
                && g[q[x]].contains(q[x + 1]) by {
                assert(t.graph().dom().contains(p[x]) && t.graph()[p[x]].contains(p[x + 1]));
                assert(t.needs(p[x], p[x + 1]));
            }
            assert(leads(g, q, h(m), h(m)));
            assert(depends(g, h(m), h(m)));
        }
    }
    assert forall|id: TaskId, d: TaskId|
        t.tasks.dom().contains(id) && !t.tasks[id].status.terminal() && #[trigger] t.needs(
            id,
            d,
        ) && t.tasks[d].status.terminal() implies t.tasks[d].status == TaskStatus::Done by {
        let key = choose|key: Seq<char>| #[trigger]
            t.tasks[id].spec.depends_on.contains(key) && t.task_keys.dom().contains(key)
                && t.task_keys[key] == d;
        let j = choose|j: int| 0 <= j < ids.len() && (#[trigger] new.plan.tasks[j]).key == key;
        assert(t.tasks[ids[j]] == new_task(ids[j], new.plan.specs()[j]));
    }
    assert forall|id: TaskId| #[trigger] t.tasks.dom().contains(id) implies t.tasks[id].status
        == TaskStatus::Pending && t.tasks[id].attempts.len() == 0 by {
        let i = choose|i: int| 0 <= i < ids.len() && ids[i] == id;
        assert(t.tasks[ids[i]] == new_task(ids[i], new.plan.specs()[i]));
    }
}

/// Tasks come up in the order of the plan: where their ids are in that order, as
/// new ids are, it is the order in which ready tasks are listed.
pub proof fn plans_keep_their_order(s: RunStateModel, ids: Seq<TaskId>)
    requires
        increasing::<TaskId>(ids),
        s.tasks.dom() == ids.to_set(),
    ensures
        ids.no_duplicates(),
        s.task_order() == ids,
        s.ready() == ids.filter(|id: TaskId| s.is_ready(id)),
{
    assert forall|i: int, j: int| 0 <= i < ids.len() && 0 <= j < ids.len() && i != j implies ids[i]
        != ids[j] by {
        if i < j {
            assert(TaskId::before(ids[i], ids[j]));
        } else {
            assert(TaskId::before(ids[j], ids[i]));
        }
    }
    in_order_is::<TaskId>(ids);
}

/// Every attempt that was interrupted ends: once the interruptions are recorded,
/// no attempt is left unfinished, and nothing of the tasks has changed.
pub proof fn interruptions_end_attempts(s: RunStateModel, first: nat, at_ms: i64)
    requires
        s.wf(),
        s.tasks.dom().finite(),
        s.attempts.dom().finite(),
        has_room(s, first, s.unfinished().len()),
    ensures
        recorded(
            s,
            first,
            at_ms,
            s.unfinished().map_values(|id: AttemptId| interrupted_kind(s, id)),
        ) matches Ok(t) && {
            &&& t.wf()
            &&& t.tasks == s.tasks
            &&& forall|id: AttemptId| #[trigger]
                t.attempts.dom().contains(id) ==> t.attempts[id].outcome is Some
        },
{
    let kinds = s.unfinished().map_values(|id: AttemptId| interrupted_kind(s, id));
    let p = |id: AttemptId| s.attempts[id].outcome is None;
    orders_list_all(s);
    assert forall|i: int| 0 <= i < kinds.len() implies ends_attempt(s, #[trigger] kinds[i]) by {
        s.attempt_order().lemma_filter_contains_rev(p, s.unfinished()[i]);
        assert(s.attempt_order().to_set().contains(s.unfinished()[i]));
    }
    ends_are_accepted(s, first, at_ms, kinds);
    let t = recorded(s, first, at_ms, kinds)->Ok_0;
    assert forall|id: AttemptId| #[trigger] t.attempts.dom().contains(id) implies t.attempts[id].outcome is Some by {
        assert(s.attempts.dom().contains(id));
        if s.attempts[id].outcome is None {
            assert(s.attempt_order().to_set().contains(id));
            let k = choose|k: int| 0 <= k < s.attempt_order().len() && s.attempt_order()[k] == id;
            s.attempt_order().lemma_filter_contains(p, k);
            let i = choose|i: int| 0 <= i < s.unfinished().len() && s.unfinished()[i] == id;
            assert(ends_this(kinds, i, id));
        }
    }
}

/// Another attempt follows an interruption.
pub open spec fn resumes(s: RunStateModel, id: TaskId) -> bool {
    is_retried(s, id, true, s.spec.budget.max_attempts_per_task)
}

/// The task depends on one of these that is not tried again.
pub open spec fn falls(s: RunStateModel, ids: Seq<TaskId>, m: TaskId) -> bool {
    exists|r: TaskId| #[trigger]
        ids.contains(r) && !resumes(s, r) && depends(s.graph(), m, r)
}

/// What a restart may set a task to, where the tasks `ids` were interrupted: one
/// of them waits again or fails, and an unfinished task below one that fails is
/// skipped.
pub open spec fn may_become(s: RunStateModel, ids: Seq<TaskId>, m: TaskId, st: TaskStatus) -> bool {
    ||| ids.contains(m) && st == if resumes(s, m) {
        TaskStatus::Ready
    } else {
        TaskStatus::Failed
    }
    ||| st == TaskStatus::Skipped && !s.tasks[m].status.terminal() && falls(s, ids, m)
}

/// What a restart records sets statuses of tasks, to nothing but what they may
/// become, and is about every task that was interrupted or falls.
proof fn restarts_set_statuses(s: RunStateModel, ids: Seq<TaskId>)
    requires
        s.tasks.dom().finite(),
        forall|i: int| 0 <= i < ids.len() ==> s.tasks.dom().contains(#[trigger] ids[i]),
    ensures
        forall|i: int|
            0 <= i < restart_kinds(s, ids).len() ==> sets_status(
                s,
                #[trigger] restart_kinds(s, ids)[i],
            ),
        forall|i: int, m: TaskId, st: TaskStatus| #[trigger]
            sets_to(restart_kinds(s, ids), i, m, st) ==> may_become(s, ids, m, st),
        forall|m: TaskId|
            ids.contains(m) || (falls(s, ids, m) && !s.tasks[m].status.terminal())
                ==> #[trigger] some_is_about(restart_kinds(s, ids), m),
    decreases ids.len(),
{
    let kinds = restart_kinds(s, ids);
    if ids.len() > 0 {
        let rest = ids.drop_last();
        let id = ids.last();
        assert(ids[ids.len() - 1] == id);
        assert(ids.contains(id));
        assert forall|i: int| 0 <= i < rest.len() implies s.tasks.dom().contains(#[trigger] rest[i]) by {
            assert(rest[i] == ids[i]);
        }
        assert forall|m: TaskId| rest.contains(m) implies #[trigger] ids.contains(m) by {
            let i = choose|i: int| 0 <= i < rest.len() && rest[i] == m;
            assert(ids[i] == m);
        }
        restarts_set_statuses(s, rest);
        let a = restart_kinds(s, rest);
        let b = failure_events(
            s,
            id,
            "interrupted by a restart"@,
            true,
            s.spec.budget.max_attempts_per_task,
        );
        let skips = skipped(s, id);
        let q = |d: TaskId| !s.tasks[d].status.terminal();
        let all = downstream(s, id);
        let kept = all.filter(q);
        downstream_lists(s, id);
        assert(skips.len() == kept.len());
        assert forall|k: int| 0 <= k < kept.len() implies #[trigger] skips[k] == skip_event(
            s,
            id,
            kept[k],
        ) && !s.tasks[kept[k]].status.terminal() && depends(s.graph(), kept[k], id) by {
            all.lemma_filter_pred(q, k);
            all.lemma_filter_contains_rev(q, kept[k]);
            assert(all.to_set().contains(kept[k]));
        }
        assert forall|i: int, m: TaskId, st: TaskStatus| #[trigger] sets_to(b, i, m, st) implies may_become(
            s,
            ids,
            m,
            st,
        ) && s.tasks.dom().contains(m) by {
            if i > 0 {
                assert(b[i] == skips[i - 1]);
                assert(depends(s.graph(), m, id));
            }
        }
        assert forall|i: int| 0 <= i < b.len() implies sets_status(s, #[trigger] b[i]) by {
            if i > 0 {
                assert(b[i] == skips[i - 1]);
                assert(sets_to(b, i, kept[i - 1], TaskStatus::Skipped));
            }
        }
        assert forall|i: int| 0 <= i < kinds.len() implies sets_status(s, #[trigger] kinds[i]) by {
            if i < a.len() {
                assert(kinds[i] == a[i]);
            } else {
                assert(kinds[i] == b[i - a.len()]);
            }
        }
        assert forall|i: int, m: TaskId, st: TaskStatus| #[trigger] sets_to(
            kinds,
            i,
            m,
            st,
        ) implies may_become(s, ids, m, st) by {
            if i < a.len() {
                assert(kinds[i] == a[i]);
                assert(sets_to(a, i, m, st));
                if falls(s, rest, m) {
                    let r = choose|r: TaskId| #[trigger]
                        rest.contains(r) && !resumes(s, r) && depends(s.graph(), m, r);
                    assert(ids.contains(r));
                }
                if rest.contains(m) {
                    assert(ids.contains(m));
                }
            } else {
                assert(kinds[i] == b[i - a.len()]);
                assert(sets_to(b, i - a.len(), m, st));
            }
        }
        assert forall|m: TaskId|
            ids.contains(m) || (falls(s, ids, m)
                && !s.tasks[m].status.terminal()) implies #[trigger] some_is_about(kinds, m) by {
            if rest.contains(m) || (falls(s, rest, m) && !s.tasks[m].status.terminal()) {
                assert(some_is_about(a, m));
                let i = choose|i: int| is_about(a, i, m);
                assert(kinds[i] == a[i]);
                assert(is_about(kinds, i, m));
            } else if m == id {
                assert(kinds[a.len() as int] == b[0]);
                assert(is_about(kinds, a.len() as int, m));
            } else {
                if ids.contains(m) {
                    let i = choose|i: int| 0 <= i < ids.len() && ids[i] == m;
                    assert(rest[i] == m);
                }
                let r = choose|r: TaskId| #[trigger]
                    ids.contains(r) && !resumes(s, r) && depends(s.graph(), m, r);
                if r != id {
                    let i = choose|i: int| 0 <= i < ids.len() && ids[i] == r;
                    assert(rest[i] == r);
                    assert(rest.contains(r));
                }
                assert(all.to_set().contains(m));
                let x = choose|x: int| 0 <= x < all.len() && all[x] == m;
                all.lemma_filter_contains(q, x);
                let k = choose|k: int| 0 <= k < kept.len() && kept[k] == m;
                assert(b[k + 1] == skips[k]);
                assert(kinds[a.len() + k + 1] == b[k + 1]);
                assert(is_about(kinds, a.len() + k + 1, m));
            }
        }
    }
}

/// What had its turn depends on nothing that runs.
proof fn turns_are_over(s: RunStateModel, p: Seq<TaskId>)
    requires
        s.wf(),
        in_turn(s),
        crate::graph::is_path(s.graph(), p),
        p.len() >= 2,
        had_its_turn(s, p[0]),
    ensures
        s.tasks[p.last()].status == TaskStatus::Done,
    decreases p.len(),
{
    assert(s.graph().dom().contains(p[0]) && s.graph()[p[0]].contains(p[0int + 1]));
    assert(s.needs(p[0], p[1]));
    if p.len() > 2 {
        let q = p.drop_first();
        assert forall|i: int| 0 <= i < q.len() - 1 implies s.graph().dom().contains(#[trigger] q[i])
            && s.graph()[q[i]].contains(q[i + 1]) by {
            assert(q[i] == p[i + 1]);
            assert(q[i + 1] == p[i + 1 + 1]);
        }
        turns_are_over(s, q);
    }
}

/// After a restart no task is left running: what was interrupted waits for
/// another attempt, while the budget allows one, or has failed. A sound run stays
/// sound.
pub proof fn restarts_leave_nothing_running(s: RunStateModel, first: nat, at_ms: i64)
    requires
        sound(s),
        has_room(s, first, restart_kinds(s, s.tasks_at(TaskStatus::Running)).len()),
    ensures
        recorded(
            s,
            first,
            at_ms,
            restart_kinds(s, s.tasks_at(TaskStatus::Running)),
        ) matches Ok(t) && sound(t) && forall|id: TaskId| #[trigger]
            t.tasks.dom().contains(id) ==> {
                &&& t.tasks[id].status != TaskStatus::Running
                &&& s.tasks[id].status == TaskStatus::Running ==> t.tasks[id].status == if resumes(
                    s,
                    id,
                ) {
                    TaskStatus::Ready
                } else {
                    TaskStatus::Failed
                }
            },
{
    let ids = s.tasks_at(TaskStatus::Running);
    let kinds = restart_kinds(s, ids);
    let p = |id: TaskId| s.tasks[id].status == TaskStatus::Running;
    orders_list_all(s);
    assert forall|i: int| 0 <= i < ids.len() implies s.tasks.dom().contains(#[trigger] ids[i])
        && s.tasks[ids[i]].status == TaskStatus::Running by {
        s.task_order().lemma_filter_contains_rev(p, ids[i]);
        s.task_order().lemma_filter_pred(p, i);
        assert(s.task_order().to_set().contains(ids[i]));
    }
    assert forall|id: TaskId| s.tasks.dom().contains(id) implies #[trigger] ids.contains(id) == (
    s.tasks[id].status == TaskStatus::Running) by {
        if s.tasks[id].status == TaskStatus::Running {
            assert(s.task_order().to_set().contains(id));
            let k = choose|k: int| 0 <= k < s.task_order().len() && s.task_order()[k] == id;
            s.task_order().lemma_filter_contains(p, k);
        }
    }
    restarts_set_statuses(s, ids);
    statuses_are_accepted(s, first, at_ms, kinds);
    let t = recorded(s, first, at_ms, kinds)->Ok_0;
    // A task that had its turn depends on nothing that was interrupted.
    assert forall|m: TaskId| #[trigger] s.tasks.dom().contains(m) && had_its_turn(s, m) implies !falls(
        s,
        ids,
        m,
    ) by {
        if falls(s, ids, m) {
            let r = choose|r: TaskId| #[trigger]
                ids.contains(r) && !resumes(s, r) && depends(s.graph(), m, r);
            let path = choose|path: Seq<TaskId>| leads(s.graph(), path, m, r);
            turns_are_over(s, path);
            let i = choose|i: int| 0 <= i < ids.len() && ids[i] == r;
        }
    }
    assert forall|m: TaskId| #[trigger] s.tasks.dom().contains(m) implies t.tasks[m].status
        == if ids.contains(m) {
        if resumes(s, m) {
            TaskStatus::Ready
        } else {
            TaskStatus::Failed
        }
    } else if !s.tasks[m].status.terminal() && falls(s, ids, m) {
        TaskStatus::Skipped
    } else {
        s.tasks[m].status
    } by {
        status_after_is_set(kinds, m, s.tasks[m].status);
        let st = t.tasks[m].status;
        if exists|i: int| sets_to(kinds, i, m, st) {
            let i = choose|i: int| sets_to(kinds, i, m, st);
            assert(may_become(s, ids, m, st));
        } else {
            if ids.contains(m) || (falls(s, ids, m) && !s.tasks[m].status.terminal()) {
                assert(some_is_about(kinds, m));
                let i = choose|i: int| is_about(kinds, i, m);
            }
        }
    }
    same_graph(s, t);
    assert forall|m: TaskId, d: TaskId|
        t.tasks.dom().contains(m) && !t.tasks[m].status.terminal() && #[trigger] t.needs(
            m,
            d,
        ) && t.tasks[d].status.terminal() implies t.tasks[d].status == TaskStatus::Done by {
        assert(s.tasks.dom().contains(m));
        assert(s.needs(m, d));
        needed_is_there(s, m, d);
        needs_is_depends(s, m, d);
        if !s.tasks[d].status.terminal() {
            if ids.contains(d) {
                assert(ids.contains(d) && !resumes(s, d) && depends(s.graph(), m, d));
            } else {
                let r = choose|r: TaskId| #[trigger]
                    ids.contains(r) && !resumes(s, r) && depends(s.graph(), d, r);
                depends_is_transitive(s.graph(), m, d, r);
                assert(ids.contains(r) && !resumes(s, r) && depends(s.graph(), m, r));
            }
            assert(falls(s, ids, m));
            assert(had_its_turn(s, m) ==> !falls(s, ids, m));
        }
    }
    assert forall|m: TaskId, d: TaskId|
        t.tasks.dom().contains(m) && had_its_turn(t, m) && #[trigger] t.needs(m, d) implies t.tasks[d].status
        == TaskStatus::Done by {
        assert(s.tasks.dom().contains(m));
        assert(s.needs(m, d));
        needed_is_there(s, m, d);
    }
    assert forall|m: TaskId| #[trigger] t.tasks.dom().contains(m) implies {
        &&& t.tasks[m].attempts.len() <= attempts_allowed(t)
        &&& t.waits(m) ==> t.tasks[m].attempts.len() < attempts_allowed(t)
    } by {
        assert(s.tasks.dom().contains(m));
    }
}

} // verus!
