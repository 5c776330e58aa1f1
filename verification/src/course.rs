//! The course of a whole run: its driver, its attempts and what is recorded of it,
//! one happening after another, over crashes and restarts; and what holds however
//! it goes.

use vstd::prelude::*;

use crate::attempt::{
    after_checks, after_commit, after_head, check_kinds, gave_up, usage_after, AttemptContextModel,
    AttemptMoveModel, AttemptReportModel,
};
use crate::budget::{no_usage, Usage};
use crate::checks::{all_passed, is_result_of, never_passes, one_failure_is_enough, ran};
use crate::config::{CheckModel, ConfigModel};
use crate::drive::{
    DriveInputModel, DriveMoveModel, DriveNextModel, DriveStageModel, DriverModel,
};
use crate::engine::{
    cancelled_attempts, cancelled_tasks, creation_kinds, finish_kinds, idle_spec, in_force,
    report_failure, report_kinds, restart_kinds, NewRunModel,
};
use crate::events::{AgentEventModel, EventKindModel, EventModel};
use crate::git::GitErrorModel;
use crate::ids::{AttemptId, RunId, TaskId, WorkspaceId};
use crate::model::{
    AttemptOutcomeModel, CheckResultModel, FailureKind, RunStatus, TaskStatus,
};
use crate::order::in_order_lists;
use crate::progress::{created_runs_are_sound, recorded};
use crate::schedule::{attempts_used, failure_events, not_done, skipped};
use crate::state::{
    new_task, step_keeps_shape, steps_compose, AttemptStateModel, RunStateModel,
};
use crate::store::numbered;

verus! {

/// What an attempt is about.
#[allow(inconsistent_fields)]
#[verifier::ext_equal]
pub enum PhaseModel {
    /// The agent works.
    Working,
    /// Its work is being committed.
    Committing { success: bool, summary: Option<Seq<char>> },
    /// The head of its worktree is being read.
    Heading,
    /// The checks run.
    Checking { head: Seq<char> },
    /// The agent is being told what failed.
    Telling { results: Seq<CheckResultModel> },
    /// How the attempt ended is being recorded.
    Ending { outcome: AttemptOutcomeModel },
    /// It has ended.
    Ended { outcome: AttemptOutcomeModel },
}

/// An attempt that is under way.
#[verifier::ext_equal]
pub struct LiveAttemptModel {
    pub ctx: AttemptContextModel,
    pub usage: Usage,
    pub fix_round: u32,
    pub phase: PhaseModel,
}

/// What an attempt hears.
#[allow(inconsistent_fields)]
#[verifier::ext_equal]
pub enum NewsModel {
    /// The agent did something, or its session is over.
    Session { event: Option<AgentEventModel> },
    /// Its work was committed, or could not be.
    Committed { error: Option<GitErrorModel> },
    /// The head of its worktree.
    Headed { head: Result<Seq<char>, GitErrorModel> },
    /// The checks have run.
    Checked { results: Seq<CheckResultModel>, multi_turn: bool },
    /// The agent was told what failed.
    Told,
    /// The agent could not be told.
    NotTold,
    /// The attempt broke off: it could not start, or its time was up.
    Broken { outcome: AttemptOutcomeModel },
    /// How it ended was recorded.
    Recorded,
}

/// The checks failed, and the agent did not mend it.
pub open spec fn failed_checks(outcome: AttemptOutcomeModel) -> bool {
    outcome matches AttemptOutcomeModel::Failed { kind, .. } && kind == FailureKind::Verification
}

impl LiveAttemptModel {
    /// An attempt that starts.
    pub open spec fn fresh(ctx: AttemptContextModel) -> LiveAttemptModel {
        LiveAttemptModel { ctx, usage: no_usage(), fix_round: 0, phase: PhaseModel::Working }
    }

    pub open spec fn at(self, phase: PhaseModel) -> LiveAttemptModel {
        LiveAttemptModel { phase, ..self }
    }

    /// The attempt after a move; `results` is what the checks gave where they have
    /// run.
    pub open spec fn makes(
        self,
        m: AttemptMoveModel,
        results: Seq<CheckResultModel>,
    ) -> LiveAttemptModel {
        match m {
            AttemptMoveModel::Wait => self.at(PhaseModel::Working),
            AttemptMoveModel::Answer { .. } => self.at(PhaseModel::Working),
            AttemptMoveModel::Commit { success, summary, .. } => self.at(
                PhaseModel::Committing { success, summary },
            ),
            AttemptMoveModel::ReadHead => self.at(PhaseModel::Heading),
            AttemptMoveModel::Check { head } => self.at(PhaseModel::Checking { head }),
            AttemptMoveModel::Send { .. } => LiveAttemptModel {
                fix_round: (self.fix_round + 1) as u32,
                phase: PhaseModel::Telling { results },
                ..self
            },
            AttemptMoveModel::Interrupt { outcome } => self.at(PhaseModel::Ending { outcome }),
            AttemptMoveModel::Stop { outcome } => self.at(PhaseModel::Ending { outcome }),
        }
    }

    /// The attempt after what it hears, where it can hear that.
    pub open spec fn hears(self, news: NewsModel) -> Option<LiveAttemptModel> {
        match (self.phase, news) {
            (PhaseModel::Working, NewsModel::Session { event }) => if self.ctx.can_take(event) {
                let heard = LiveAttemptModel { usage: usage_after(self.usage, event), ..self };
                Some(heard.makes(self.ctx.next(event), Seq::empty()))
            } else {
                None
            },
            (PhaseModel::Committing { success, summary }, NewsModel::Committed { error }) => Some(
                self.makes(after_commit(success, summary, error), Seq::empty()),
            ),
            (PhaseModel::Heading, NewsModel::Headed { head }) => Some(
                self.makes(after_head(self.ctx.base_sha, head), Seq::empty()),
            ),
            (PhaseModel::Checking { head }, NewsModel::Checked { results, multi_turn }) => if ran(
                self.ctx.checks,
                ""@,
                results,
            ) {
                let m = after_checks(self.ctx.limits, multi_turn, self.fix_round, head, results);
                Some(self.makes(m, results))
            } else {
                None
            },
            (PhaseModel::Telling { .. }, NewsModel::Told) => Some(self.at(PhaseModel::Working)),
            (PhaseModel::Telling { results }, NewsModel::NotTold) => Some(
                self.at(PhaseModel::Ending { outcome: gave_up(self.fix_round, results) }),
            ),
            (PhaseModel::Ending { outcome }, NewsModel::Recorded) => Some(
                self.at(PhaseModel::Ended { outcome }),
            ),
            (_, NewsModel::Broken { outcome }) => if outcome is Failed && !failed_checks(outcome)
                && !(self.phase is Ending) && !(self.phase is Ended) {
                Some(self.at(PhaseModel::Ending { outcome }))
            } else {
                None
            },
            _ => None,
        }
    }

    /// What is recorded of what it hears.
    pub open spec fn tells(self, news: NewsModel) -> Seq<EventKindModel> {
        match (self.phase, news) {
            (_, NewsModel::Session { event: Some(event) }) => seq![
                EventKindModel::Agent { attempt_id: self.ctx.attempt_id, event },
            ],
            (_, NewsModel::Checked { results, .. }) => check_kinds(self.ctx.attempt_id, results),
            (PhaseModel::Ending { outcome }, NewsModel::Recorded) => seq![
                EventKindModel::AttemptFinished {
                    attempt_id: self.ctx.attempt_id,
                    outcome,
                    usage: self.usage,
                },
            ],
            _ => Seq::empty(),
        }
    }

    /// The report on an attempt that ended so.
    pub open spec fn report(self, outcome: AttemptOutcomeModel) -> AttemptReportModel {
        AttemptReportModel {
            task_id: self.ctx.task_id,
            attempt_id: self.ctx.attempt_id,
            branch: self.ctx.branch,
            outcome,
        }
    }
}

/// Something that is recorded beside driving and attempts, such as a request to a
/// human and the answer: it settles no task, no attempt and not the run.
pub open spec fn aside(kind: EventKindModel) -> bool {
    match kind {
        EventKindModel::RunStatusChanged { .. } => false,
        EventKindModel::TaskCreated { .. } => false,
        EventKindModel::TaskStatusChanged { .. } => false,
        EventKindModel::AttemptStarted { .. } => false,
        EventKindModel::AttemptFinished { .. } => false,
        EventKindModel::CheckCompleted { .. } => false,
        _ => true,
    }
}

/// Something that happens in the course of a run. What is recorded with it is
/// recorded `at` a number and a time; without them it was known before, or is lost.
#[allow(inconsistent_fields)]
#[verifier::ext_equal]
pub enum HappeningModel {
    /// Someone starts to drive the run, under a configuration of their own; whoever
    /// drove it before is gone, and their attempts with them.
    Opens { own: ConfigModel, agent: Option<Seq<char>>, dir: Seq<char> },
    /// The driver's move is made, and this comes of it.
    Drives {
        input: DriveInputModel,
        runtimes: Set<Seq<char>>,
        attempt_id: AttemptId,
        workspace_id: WorkspaceId,
        at: Option<(nat, i64)>,
    },
    /// An attempt hears something.
    Hears { id: AttemptId, news: NewsModel, at: Option<(nat, i64)> },
    /// Something is recorded aside.
    Aside { kinds: Seq<EventKindModel>, first: nat, at_ms: i64 },
}

impl HappeningModel {
    /// No check of this command passes in it.
    pub open spec fn fails(self, command: Seq<char>) -> bool {
        match self {
            HappeningModel::Drives { input: DriveInputModel::Checked(results), .. } => never_passes(
                command,
                results,
            ),
            HappeningModel::Hears { news: NewsModel::Checked { results, .. }, .. } => never_passes(
                command,
                results,
            ),
            _ => true,
        }
    }
}

/// The state once events are recorded, or as it was where they are not.
pub open spec fn written(
    s: RunStateModel,
    kinds: Seq<EventKindModel>,
    at: Option<(nat, i64)>,
) -> Option<RunStateModel> {
    match at {
        Some((first, at_ms)) => match recorded(s, first, at_ms, kinds) {
            Ok(t) => Some(t),
            Err(_) => None,
        },
        None => Some(s),
    }
}

/// Where a run stands.
#[verifier::ext_equal]
pub struct CourseModel {
    /// What is recorded of it adds up to this.
    pub state: RunStateModel,
    /// The state that the driver has read last.
    pub read: RunStateModel,
    /// The configuration that it is driven under.
    pub config: ConfigModel,
    pub driver: DriverModel,
    /// The move that the driver makes.
    pub doing: DriveMoveModel,
    /// The attempts that are under way.
    pub attempts: Map<AttemptId, LiveAttemptModel>,
    /// Something that an attempt had to tell could not be recorded.
    pub lost: bool,
}

impl CourseModel {
    /// A run that someone starts to drive.
    pub open spec fn open(
        s: RunStateModel,
        own: ConfigModel,
        agent: Option<Seq<char>>,
        dir: Seq<char>,
        lost: bool,
    ) -> CourseModel {
        CourseModel {
            state: s,
            read: s,
            config: in_force(s.status, s.spec.config, own, agent),
            driver: DriverModel::fresh(dir),
            doing: DriveMoveModel::Load,
            attempts: Map::empty(),
            lost,
        }
    }

    /// The run once the driver's move is made and this came of it, where it can.
    pub open spec fn made(self, input: DriveInputModel, at: Option<(nat, i64)>) -> Option<
        CourseModel,
    > {
        match (self.doing, input) {
            (DriveMoveModel::Load, DriveInputModel::Loaded) => Some(
                CourseModel { read: self.state, ..self },
            ),
            (DriveMoveModel::Append { events, key }, DriveInputModel::Done) => if at is None
                && key is None {
                None
            } else {
                match written(self.state, events, at) {
                    Some(t) => Some(CourseModel { state: t, ..self }),
                    None => None,
                }
            },
            (DriveMoveModel::Start(ctx), DriveInputModel::Done) => Some(
                CourseModel {
                    attempts: self.attempts.insert(ctx.attempt_id, LiveAttemptModel::fresh(ctx)),
                    ..self
                },
            ),
            (DriveMoveModel::Wait, DriveInputModel::Ended(report)) => {
                let live = self.attempts[report.attempt_id];
                if self.attempts.dom().contains(report.attempt_id) && live.phase == (
                PhaseModel::Ended { outcome: report.outcome }) && report == live.report(
                    report.outcome,
                ) {
                    Some(
                        CourseModel {
                            attempts: self.attempts.remove(report.attempt_id),
                            ..self
                        },
                    )
                } else {
                    None
                }
            },
            (DriveMoveModel::Wait, DriveInputModel::Crashed { attempt_id, .. }) =>
                if self.attempts.dom().contains(attempt_id) {
                    Some(CourseModel { attempts: self.attempts.remove(attempt_id), ..self })
                } else {
                    None
                },
            (DriveMoveModel::Wait, DriveInputModel::NoneLeft) => Some(self),
            (DriveMoveModel::StopAll, DriveInputModel::Done) => Some(
                CourseModel { attempts: Map::empty(), ..self },
            ),
            (DriveMoveModel::Check, DriveInputModel::Checked(results)) => if ran(
                self.config.checks,
                "integration:"@,
                results,
            ) {
                Some(self)
            } else {
                None
            },
            (DriveMoveModel::FindPlace, DriveInputModel::Found { .. }) => Some(self),
            (DriveMoveModel::MakePlace(_), DriveInputModel::Done) => Some(self),
            (DriveMoveModel::ReadHead, DriveInputModel::Head(_)) => Some(self),
            (DriveMoveModel::Merge { .. }, DriveInputModel::Merged(_)) => Some(self),
            (DriveMoveModel::Reset { .. }, DriveInputModel::Done) => Some(self),
            _ => None,
        }
    }

    /// The run after a step of its driver. An attempt that is reserved has an id of
    /// its own.
    pub open spec fn drives(
        self,
        input: DriveInputModel,
        runtimes: Set<Seq<char>>,
        attempt_id: AttemptId,
        workspace_id: WorkspaceId,
        at: Option<(nat, i64)>,
    ) -> Option<CourseModel> {
        match self.made(input, at) {
            Some(c) => if self.driver.awaits(input) && self.driver.suits(c.read)
                && !c.state.attempts.dom().contains(attempt_id) {
                match self.driver.step(
                    c.read,
                    c.config,
                    runtimes,
                    input,
                    attempt_id,
                    workspace_id,
                ) {
                    Some((driver, doing)) => Some(CourseModel { driver, doing, ..c }),
                    None => None,
                }
            } else {
                None
            },
            None => None,
        }
    }

    /// The run after one more happening, where that can happen.
    pub open spec fn after(self, h: HappeningModel) -> Option<CourseModel> {
        match h {
            HappeningModel::Opens { own, agent, dir } => Some(
                CourseModel::open(self.state, own, agent, dir, self.lost),
            ),
            HappeningModel::Drives { input, runtimes, attempt_id, workspace_id, at } =>
                self.drives(input, runtimes, attempt_id, workspace_id, at),
            HappeningModel::Hears { id, news, at } => if self.attempts.dom().contains(id) {
                let live = self.attempts[id];
                match (live.hears(news), written(self.state, live.tells(news), at)) {
                    (Some(next), Some(t)) => Some(
                        CourseModel {
                            state: t,
                            attempts: self.attempts.insert(id, next),
                            lost: self.lost || (at is None && live.tells(news).len() > 0),
                            ..self
                        },
                    ),
                    _ => None,
                }
            } else {
                None
            },
            HappeningModel::Aside { kinds, first, at_ms } => if forall|i: int|
                0 <= i < kinds.len() ==> aside(#[trigger] kinds[i]) {
                match written(self.state, kinds, Some((first, at_ms))) {
                    Some(t) => Some(CourseModel { state: t, ..self }),
                    None => None,
                }
            } else {
                None
            },
        }
    }

    /// The run after happenings, one after another, where they can happen.
    pub open spec fn goes(self, course: Seq<HappeningModel>) -> Option<CourseModel>
        decreases course.len(),
    {
        if course.len() == 0 {
            Some(self)
        } else {
            match self.after(course[0]) {
                Some(c) => c.goes(course.drop_first()),
                None => None,
            }
        }
    }
}

/// One of the checks has this command.
pub open spec fn has_command(checks: Seq<CheckModel>, command: Seq<char>) -> bool {
    exists|i: int| 0 <= i < checks.len() && (#[trigger] checks[i]).command == command
}

/// What is recorded of an attempt's checks: results of the given checks, none of
/// them passed of the one command; and where the attempt is told to have failed its
/// checks, one of them failed.
pub open spec fn shows_failures(
    attempt: AttemptStateModel,
    checks: Seq<CheckModel>,
    command: Seq<char>,
    all_told: bool,
) -> bool {
    &&& never_passes(command, attempt.checks)
    &&& forall|i: int|
        0 <= i < attempt.checks.len() ==> has_command(checks, (#[trigger] attempt.checks[i]).command)
    &&& all_told && attempt.outcome is Some && failed_checks(attempt.outcome->0) ==> !all_passed(
        attempt.checks,
    )
}

/// A run without hope, so far: nothing is done, and nothing passed of the one
/// command.
spec fn hopeless(
    s: RunStateModel,
    kept: ConfigModel,
    command: Seq<char>,
    all_told: bool,
) -> bool {
    &&& s.wf()
    &&& s.spec.config == Some(kept)
    &&& s.tasks.dom().finite()
    &&& s.tasks.dom().len() > 0
    &&& s.status != RunStatus::Succeeded
    &&& s.status != RunStatus::Cancelled
    &&& forall|id: TaskId| #[trigger]
        s.tasks.dom().contains(id) ==> s.tasks[id].status != TaskStatus::Done
    &&& forall|id: AttemptId| #[trigger]
        s.attempts.dom().contains(id) ==> shows_failures(
            s.attempts[id],
            kept.checks,
            command,
            all_told,
        )
}

/// An attempt of the run has a check that failed.
spec fn marked(s: RunStateModel, id: AttemptId) -> bool {
    s.attempts.dom().contains(id) && !all_passed(s.attempts[id].checks)
}

/// An event that brings no hope.
spec fn mild(
    kind: EventKindModel,
    kept: ConfigModel,
    command: Seq<char>,
    all_told: bool,
    ids: Set<AttemptId>,
) -> bool {
    match kind {
        EventKindModel::RunStatusChanged { status, .. } => status != RunStatus::Succeeded && status
            != RunStatus::Cancelled,
        EventKindModel::TaskStatusChanged { status, .. } => status != TaskStatus::Done,
        EventKindModel::CheckCompleted { result, .. } => has_command(kept.checks, result.command)
            && (result.command == command ==> !result.passed),
        EventKindModel::AttemptStarted { attempt_id, .. } => !ids.contains(attempt_id),
        EventKindModel::AttemptFinished { attempt_id, outcome, .. } => all_told && failed_checks(
            outcome,
        ) ==> ids.contains(attempt_id),
        _ => true,
    }
}

#[verifier::rlimit(40)]
proof fn step_brings_no_hope(
    s: RunStateModel,
    event: EventModel,
    kept: ConfigModel,
    command: Seq<char>,
    all_told: bool,
    ids: Set<AttemptId>,
)
    requires
        hopeless(s, kept, command, all_told),
        s.step(event) is Ok,
        mild(event.kind, kept, command, all_told, ids),
        forall|id: AttemptId| #[trigger] ids.contains(id) ==> marked(s, id),
    ensures
        hopeless(s.step(event)->Ok_0, kept, command, all_told),
        forall|id: AttemptId| #[trigger] ids.contains(id) ==> marked(s.step(event)->Ok_0, id),
        forall|id: AttemptId| #[trigger]
            s.attempts.dom().contains(id) ==> s.step(event)->Ok_0.attempts.dom().contains(id),
        forall|id: AttemptId| #[trigger]
            s.step(event)->Ok_0.attempts.dom().contains(id) ==> s.attempts.dom().contains(id) || (
            event.kind matches EventKindModel::AttemptStarted { attempt_id, .. } && attempt_id
                == id),
        event.kind matches EventKindModel::AttemptStarted { attempt_id, .. }
            ==> s.step(event)->Ok_0.attempts.dom().contains(attempt_id),
        !(event.kind is RunStatusChanged) ==> s.step(event)->Ok_0.status == s.status,
        event.kind matches EventKindModel::RunStatusChanged { status, .. }
            ==> s.step(event)->Ok_0.status == status,
{
    let t = s.step(event)->Ok_0;
    step_keeps_shape(s, event);
    assert forall|id: AttemptId| #[trigger] s.attempts.dom().contains(id) && !all_passed(
        s.attempts[id].checks,
    ) && !(event.kind matches EventKindModel::AttemptStarted { attempt_id, .. } && attempt_id
        == id) implies !all_passed(t.attempts[id].checks) by {
        let j = choose|j: int|
            0 <= j < s.attempts[id].checks.len() && !(#[trigger] s.attempts[id].checks[j]).passed;
        assert(t.attempts[id].checks[j] == s.attempts[id].checks[j]);
    }
    assert forall|id: AttemptId| #[trigger] t.attempts.dom().contains(id) implies shows_failures(
        t.attempts[id],
        kept.checks,
        command,
        all_told,
    ) by {
        if s.attempts.dom().contains(id) {
            assert(shows_failures(s.attempts[id], kept.checks, command, all_told));
        }
    }
    if let EventKindModel::TaskCreated { task_id, .. } = event.kind {
        assert(t.tasks.dom() =~= s.tasks.dom().insert(task_id));
    } else {
        assert(t.tasks.dom() =~= s.tasks.dom());
    }
}

proof fn steps_bring_no_hope(
    s: RunStateModel,
    events: Seq<EventModel>,
    kept: ConfigModel,
    command: Seq<char>,
    all_told: bool,
    ids: Set<AttemptId>,
)
    requires
        hopeless(s, kept, command, all_told),
        s.steps(events) is Ok,
        forall|i: int|
            0 <= i < events.len() ==> mild(
                (#[trigger] events[i]).kind,
                kept,
                command,
                all_told,
                ids,
            ),
        forall|id: AttemptId| #[trigger] ids.contains(id) ==> marked(s, id),
    ensures
        hopeless(s.steps(events)->Ok_0, kept, command, all_told),
        forall|id: AttemptId| #[trigger] ids.contains(id) ==> marked(s.steps(events)->Ok_0, id),
        forall|id: AttemptId| #[trigger]
            s.attempts.dom().contains(id) ==> s.steps(events)->Ok_0.attempts.dom().contains(id),
        (forall|i: int| 0 <= i < events.len() ==> !((#[trigger] events[i]).kind is AttemptStarted))
            ==> s.steps(events)->Ok_0.attempts.dom() == s.attempts.dom(),
        forall|i: int|
            0 <= i < events.len() ==> ((#[trigger] events[i]).kind matches
                EventKindModel::AttemptStarted { attempt_id, .. }
                ==> s.steps(events)->Ok_0.attempts.dom().contains(attempt_id)),
        (forall|i: int| 0 <= i < events.len() ==> !((#[trigger] events[i]).kind is RunStatusChanged))
            ==> s.steps(events)->Ok_0.status == s.status,
    decreases events.len(),
{
    if events.len() > 0 {
        let t = s.step(events[0])->Ok_0;
        let rest = events.drop_first();
        step_brings_no_hope(s, events[0], kept, command, all_told, ids);
        steps_bring_no_hope(t, rest, kept, command, all_told, ids);
        let u = s.steps(events)->Ok_0;
        assert forall|i: int| 0 <= i < events.len() implies ((#[trigger] events[i]).kind matches
            EventKindModel::AttemptStarted { attempt_id, .. }
            ==> u.attempts.dom().contains(attempt_id)) by {
            if i > 0 {
                assert(rest[i - 1] == events[i]);
            }
        }
        if forall|i: int|
            0 <= i < events.len() ==> !((#[trigger] events[i]).kind is AttemptStarted) {
            assert(!(events[0].kind is AttemptStarted));
            assert forall|i: int| 0 <= i < rest.len() implies !((#[trigger] rest[i]).kind is AttemptStarted) by {
                assert(rest[i] == events[i + 1]);
            }
            assert(t.attempts.dom() =~= s.attempts.dom());
        }
        if forall|i: int|
            0 <= i < events.len() ==> !((#[trigger] events[i]).kind is RunStatusChanged) {
            assert(!(events[0].kind is RunStatusChanged));
            assert forall|i: int| 0 <= i < rest.len() implies !((#[trigger] rest[i]).kind is RunStatusChanged) by {
                assert(rest[i] == events[i + 1]);
            }
        }
    }
}

/// Events of driving that bring no hope, start no attempt and do not end the run.
spec fn dull(kinds: Seq<EventKindModel>) -> bool {
    forall|i: int|
        0 <= i < kinds.len() ==> match #[trigger] kinds[i] {
            EventKindModel::TaskStatusChanged { status, .. } => status != TaskStatus::Done,
            EventKindModel::AttemptFinished { outcome, .. } => !failed_checks(outcome),
            EventKindModel::BudgetExceeded { .. } => true,
            _ => false,
        }
}

proof fn dull_adds(a: Seq<EventKindModel>, b: Seq<EventKindModel>)
    requires
        dull(a),
        dull(b),
    ensures
        dull(a + b),
{
    let all = a + b;
    assert forall|i: int| 0 <= i < all.len() implies match #[trigger] all[i] {
        EventKindModel::TaskStatusChanged { status, .. } => status != TaskStatus::Done,
        EventKindModel::AttemptFinished { outcome, .. } => !failed_checks(outcome),
        EventKindModel::BudgetExceeded { .. } => true,
        _ => false,
    } by {
        if i < a.len() {
            assert(all[i] == a[i]);
        } else {
            assert(all[i] == b[i - a.len()]);
        }
    }
}

proof fn failures_are_dull(
    s: RunStateModel,
    id: TaskId,
    reason: Seq<char>,
    retryable: bool,
    max_attempts: u32,
)
    ensures
        dull(failure_events(s, id, reason, retryable, max_attempts)),
{
    let skips = skipped(s, id);
    assert(dull(skips));
    let all = failure_events(s, id, reason, retryable, max_attempts);
    if all.len() > 0 {
        let first = seq![all[0]];
        assert(dull(first));
        if !(retryable && attempts_used(s, id) < max_attempts) {
            dull_adds(first, skips);
            assert(all =~= first + skips);
        } else {
            assert(all =~= first);
        }
    }
}

proof fn restarts_are_dull(s: RunStateModel, ids: Seq<TaskId>)
    ensures
        dull(restart_kinds(s, ids)),
    decreases ids.len(),
{
    if ids.len() > 0 {
        let max = s.spec.budget.max_attempts_per_task;
        restarts_are_dull(s, ids.drop_last());
        failures_are_dull(s, ids.last(), "interrupted by a restart"@, true, max);
        dull_adds(
            restart_kinds(s, ids.drop_last()),
            failure_events(s, ids.last(), "interrupted by a restart"@, true, max),
        );
    }
}

proof fn reports_are_dull(
    s: RunStateModel,
    report: AttemptReportModel,
    integration: Option<Seq<char>>,
)
    ensures
        dull(report_kinds(s, report, integration)),
{
    let max = s.spec.budget.max_attempts_per_task;
    match report_failure(report.outcome) {
        Some((reason, retryable)) => {
            failures_are_dull(s, report.task_id, reason, retryable, max);
        },
        None => {
            if integration is Some {
                failures_are_dull(s, report.task_id, integration->0, true, max);
            }
        },
    }
}

proof fn ends_are_dull(
    s: RunStateModel,
    status: RunStatus,
    reason: Option<Seq<char>>,
    first: Seq<EventKindModel>,
)
    requires
        dull(first),
    ensures
        finish_kinds(s, status, reason, first).len() > 0,
        dull(finish_kinds(s, status, reason, first).drop_last()),
        finish_kinds(s, status, reason, first).last() == (EventKindModel::RunStatusChanged {
            status,
            stage: None,
            reason,
        }),
{
    let a = cancelled_attempts(s);
    let b = cancelled_tasks(s, reason);
    assert(dull(a));
    assert(dull(b));
    dull_adds(first, a);
    dull_adds(first + a, b);
    assert(finish_kinds(s, status, reason, first).drop_last() =~= first + a + b);
}

/// The run without hope, where it is idle, fails.
proof fn idle_runs_fail(s: RunStateModel)
    requires
        s.tasks.dom().finite(),
        s.tasks.dom().len() > 0,
        forall|id: TaskId| #[trigger]
            s.tasks.dom().contains(id) ==> s.tasks[id].status != TaskStatus::Done,
    ensures
        idle_spec(s).0 == RunStatus::Failed,
{
    let all = s.task_order();
    let p = |id: TaskId| s.tasks[id].status != TaskStatus::Done;
    in_order_lists::<TaskId>(s.tasks.dom());
    let id = s.tasks.dom().choose();
    assert(s.tasks.dom().contains(id));
    assert(all.to_set().contains(id));
    assert(all.contains(id));
    all.lemma_filter_contains(p, all.index_of(id));
    assert(not_done(s).len() > 0);
}

/// What is told of the checks of an attempt is added to what was told before.
proof fn checks_are_told(
    s: RunStateModel,
    id: AttemptId,
    results: Seq<CheckResultModel>,
    first: nat,
    at_ms: i64,
)
    requires
        s.wf(),
        recorded(s, first, at_ms, check_kinds(id, results)) is Ok,
        s.attempts.dom().contains(id),
    ensures
        recorded(s, first, at_ms, check_kinds(id, results))->Ok_0.attempts.dom().contains(id),
        recorded(s, first, at_ms, check_kinds(id, results))->Ok_0.attempts[id].checks
            == s.attempts[id].checks + results,
    decreases results.len(),
{
    let kinds = check_kinds(id, results);
    let events = numbered(first, s.id, at_ms, kinds);
    if results.len() == 0 {
        assert(s.attempts[id].checks + results =~= s.attempts[id].checks);
    } else {
        let t = s.step(events[0])->Ok_0;
        step_keeps_shape(s, events[0]);
        let rest = results.drop_first();
        assert(events.drop_first() =~= numbered(first + 1, t.id, at_ms, check_kinds(id, rest)));
        checks_are_told(t, id, rest, first + 1, at_ms);
        assert(t.attempts[id].checks =~= s.attempts[id].checks.push(results[0]));
        assert(s.attempts[id].checks.push(results[0]) + rest =~= s.attempts[id].checks + results);
    }
}

/// What the driver goes on with brings no hope.
spec fn next_is_fine(next: DriveNextModel) -> bool {
    match next {
        DriveNextModel::Merge { .. } => false,
        DriveNextModel::End { status, first, .. } => status == RunStatus::Failed && dull(first),
        _ => true,
    }
}

/// What a live attempt is about calls for a check that failed.
spec fn is_failing(phase: PhaseModel) -> bool {
    match phase {
        PhaseModel::Telling { .. } => true,
        PhaseModel::Ending { outcome } => failed_checks(outcome),
        PhaseModel::Ended { outcome } => failed_checks(outcome),
        _ => false,
    }
}

/// The live attempts whose checks failed.
spec fn failing(attempts: Map<AttemptId, LiveAttemptModel>) -> Set<AttemptId> {
    Set::new(|id: AttemptId| attempts.dom().contains(id) && is_failing(attempts[id].phase))
}

impl CourseModel {
    /// An attempt that is under way works under the kept checks, and does not
    /// succeed.
    spec fn attempt_is_fine(self, id: AttemptId, kept: ConfigModel) -> bool {
        let live = self.attempts[id];
        &&& self.state.attempts.dom().contains(id)
        &&& live.ctx.attempt_id == id
        &&& live.ctx.checks == kept.checks
        &&& !(live.phase matches PhaseModel::Ending { outcome } && outcome is Succeeded)
        &&& !(live.phase matches PhaseModel::Ended { outcome } && outcome is Succeeded)
        &&& !self.lost && is_failing(live.phase) ==> marked(self.state, id)
    }

    spec fn move_is_fine(self, kept: ConfigModel, command: Seq<char>) -> bool {
        match self.doing {
            DriveMoveModel::Append { events, .. } => forall|i: int|
                0 <= i < events.len() ==> {
                    &&& mild(#[trigger] events[i], kept, command, true, Set::empty())
                    &&& events[i] matches EventKindModel::AttemptStarted { attempt_id, .. }
                        ==> !self.state.attempts.dom().contains(attempt_id)
                },
            DriveMoveModel::Start(ctx) => ctx.checks == kept.checks
                && self.state.attempts.dom().contains(ctx.attempt_id),
            _ => true,
        }
    }

    spec fn stage_is_fine(self, kept: ConfigModel) -> bool {
        match self.driver.stage {
            DriveStageModel::Loading(next) => {
                &&& next_is_fine(next)
                &&& self.doing is Load || (self.doing is Finished && next is Leave
                    && self.read.status == RunStatus::Failed)
                &&& next is Leave ==> self.state.status == RunStatus::Failed
            },
            DriveStageModel::Then(next) => {
                &&& next_is_fine(next)
                &&& !(next is Open)
                &&& !(self.doing is Finished)
                &&& next is Leave ==> (self.doing matches DriveMoveModel::Append { events, key }
                    && key is None && events.len() > 0 && (events.last() matches
                    EventKindModel::RunStatusChanged { status, .. } && status
                    == RunStatus::Failed))
            },
            DriveStageModel::Reserving { ctx, .. } => {
                &&& ctx.checks == kept.checks
                &&& self.doing matches DriveMoveModel::Append { events, key } && key is None
                    && events.len() == 2 && (events[1] matches EventKindModel::AttemptStarted {
                    attempt_id,
                    ..
                } && attempt_id == ctx.attempt_id)
            },
            DriveStageModel::Before { .. } => false,
            DriveStageModel::Merging { .. } => false,
            DriveStageModel::Checking { .. } => false,
            DriveStageModel::Judging { .. } => false,
            DriveStageModel::Resetting { .. } => false,
            _ => !(self.doing is Finished),
        }
    }

    /// The kept checks are in force, or nothing is left to do.
    spec fn config_is_fine(self, kept: ConfigModel) -> bool {
        ||| self.config.checks == kept.checks
        ||| self.driver.stage == DriveStageModel::Loading(DriveNextModel::Open)
            && self.state.status == RunStatus::Failed
        ||| self.doing is Finished
    }

    /// A run without hope, with all that is under way.
    spec fn is_hopeless(self, kept: ConfigModel, command: Seq<char>) -> bool {
        &&& hopeless(self.state, kept, command, !self.lost)
        &&& hopeless(self.read, kept, command, !self.lost)
        &&& self.stage_is_fine(kept)
        &&& self.move_is_fine(kept, command)
        &&& self.config_is_fine(kept)
        &&& forall|id: AttemptId| #[trigger]
            self.attempts.dom().contains(id) ==> self.attempt_is_fine(id, kept)
    }
}

/// Recording events that bring no hope leaves the run, and all that is under way,
/// without any.
proof fn recording_brings_no_hope(
    c: CourseModel,
    kinds: Seq<EventKindModel>,
    first: nat,
    at_ms: i64,
    kept: ConfigModel,
    command: Seq<char>,
)
    requires
        c.is_hopeless(kept, command),
        recorded(c.state, first, at_ms, kinds) is Ok,
        forall|i: int|
            0 <= i < kinds.len() ==> {
                &&& mild(#[trigger] kinds[i], kept, command, !c.lost, failing(c.attempts))
                &&& kinds[i] matches EventKindModel::AttemptStarted { attempt_id, .. }
                    ==> !c.state.attempts.dom().contains(attempt_id)
            },
    ensures
        ({
            let t = recorded(c.state, first, at_ms, kinds)->Ok_0;
            let n = CourseModel { state: t, ..c };
            &&& hopeless(t, kept, command, !c.lost)
            &&& forall|id: AttemptId| #[trigger]
                c.attempts.dom().contains(id) ==> n.attempt_is_fine(id, kept)
            &&& forall|id: AttemptId| #[trigger]
                c.state.attempts.dom().contains(id) ==> t.attempts.dom().contains(id)
            &&& forall|i: int|
                0 <= i < kinds.len() ==> (#[trigger] kinds[i] matches
                    EventKindModel::AttemptStarted { attempt_id, .. }
                    ==> t.attempts.dom().contains(attempt_id))
            &&& (forall|i: int| 0 <= i < kinds.len() ==> !(#[trigger] kinds[i] is AttemptStarted))
                ==> t.attempts.dom() == c.state.attempts.dom()
            &&& (forall|i: int|
                0 <= i < kinds.len() ==> !(#[trigger] kinds[i] is RunStatusChanged)) ==> t.status
                == c.state.status
        }),
{
    let ids = if c.lost {
        Set::empty()
    } else {
        failing(c.attempts)
    };
    let events = numbered(first, c.state.id, at_ms, kinds);
    let t = recorded(c.state, first, at_ms, kinds)->Ok_0;
    assert forall|id: AttemptId| #[trigger] ids.contains(id) implies marked(c.state, id) by {
        assert(c.attempt_is_fine(id, kept));
    }
    assert forall|i: int| 0 <= i < events.len() implies mild(
        (#[trigger] events[i]).kind,
        kept,
        command,
        !c.lost,
        ids,
    ) by {
        assert(events[i].kind == kinds[i]);
    }
    steps_bring_no_hope(c.state, events, kept, command, !c.lost, ids);
    let n = CourseModel { state: t, ..c };
    assert forall|id: AttemptId| #[trigger] c.attempts.dom().contains(id) implies n.attempt_is_fine(
        id,
        kept,
    ) by {
        assert(c.attempt_is_fine(id, kept));
        if !c.lost && is_failing(c.attempts[id].phase) {
            assert(ids.contains(id));
        }
    }
    assert forall|i: int| 0 <= i < kinds.len() implies (#[trigger] kinds[i] matches
        EventKindModel::AttemptStarted { attempt_id, .. } ==> t.attempts.dom().contains(
        attempt_id,
    )) by {
        assert(events[i].kind == kinds[i]);
    }
    if forall|i: int| 0 <= i < kinds.len() ==> !(#[trigger] kinds[i] is AttemptStarted) {
        assert forall|i: int| 0 <= i < events.len() implies !((#[trigger] events[i]).kind is AttemptStarted) by {
            assert(!(kinds[i] is AttemptStarted));
        }
    }
    if forall|i: int| 0 <= i < kinds.len() ==> !(#[trigger] kinds[i] is RunStatusChanged) {
        assert forall|i: int| 0 <= i < events.len() implies !((#[trigger] events[i]).kind is RunStatusChanged) by {
            assert(!(kinds[i] is RunStatusChanged));
        }
    }
}

/// Where the last of the events sets the run's status, that is its status.
proof fn last_status_holds(
    s: RunStateModel,
    kinds: Seq<EventKindModel>,
    first: nat,
    at_ms: i64,
)
    requires
        recorded(s, first, at_ms, kinds) is Ok,
        kinds.len() > 0,
        kinds.last() is RunStatusChanged,
    ensures
        kinds.last() matches EventKindModel::RunStatusChanged { status, .. } ==> recorded(
            s,
            first,
            at_ms,
            kinds,
        )->Ok_0.status == status,
{
    let events = numbered(first, s.id, at_ms, kinds);
    let last = seq![events.last()];
    assert(events =~= events.drop_last() + last);
    steps_compose(s, events.drop_last(), last);
    let t = s.steps(events.drop_last())->Ok_0;
    assert(last.drop_first() =~= Seq::<EventModel>::empty());
    reveal_with_fuel(RunStateModel::steps, 2);
    assert(t.steps(last) == t.step(last[0]));
}

/// Whatever comes of the driver's move brings no hope; an attempt that ended has
/// not succeeded.
proof fn moves_bring_no_hope(
    c: CourseModel,
    input: DriveInputModel,
    at: Option<(nat, i64)>,
    kept: ConfigModel,
    command: Seq<char>,
)
    requires
        c.is_hopeless(kept, command),
        c.made(input, at) is Some,
    ensures
        ({
            let n = c.made(input, at)->0;
            &&& hopeless(n.state, kept, command, !n.lost)
            &&& hopeless(n.read, kept, command, !n.lost)
            &&& n.lost == c.lost && n.config == c.config && n.driver == c.driver
            &&& c.doing is Load ==> n.read == c.state && n.state == c.state
            &&& input matches DriveInputModel::Ended(report) ==> !(report.outcome is Succeeded)
            &&& c.doing matches DriveMoveModel::Append { events, key } ==> {
                &&& key is None && events.len() > 0 && (events.last() matches
                    EventKindModel::RunStatusChanged { status, .. } && status == RunStatus::Failed)
                    ==> n.state.status == RunStatus::Failed
                &&& forall|i: int|
                    0 <= i < events.len() && key is None ==> (#[trigger] events[i] matches
                        EventKindModel::AttemptStarted { attempt_id, .. }
                        ==> n.state.attempts.dom().contains(attempt_id))
            }
            &&& forall|id: AttemptId| #[trigger]
                n.attempts.dom().contains(id) ==> n.attempt_is_fine(id, kept)
        }),
{
    let n = c.made(input, at)->0;
    match c.doing {
        DriveMoveModel::Append { events, key } => {
            if let Some((first, at_ms)) = at {
                assert forall|i: int| 0 <= i < events.len() implies {
                    &&& mild(#[trigger] events[i], kept, command, !c.lost, failing(c.attempts))
                    &&& events[i] matches EventKindModel::AttemptStarted { attempt_id, .. }
                        ==> !c.state.attempts.dom().contains(attempt_id)
                } by {
                    assert(mild(events[i], kept, command, true, Set::empty()));
                    if let EventKindModel::AttemptStarted { attempt_id, .. } = events[i] {
                        if failing(c.attempts).contains(attempt_id) {
                            assert(c.attempt_is_fine(attempt_id, kept));
                        }
                    }
                }
                recording_brings_no_hope(c, events, first, at_ms, kept, command);
                if events.len() > 0 && events.last() is RunStatusChanged {
                    last_status_holds(c.state, events, first, at_ms);
                }
            }
        },
        DriveMoveModel::Wait => {
            if let DriveInputModel::Ended(report) = input {
                assert(c.attempt_is_fine(report.attempt_id, kept));
            }
            assert forall|id: AttemptId| #[trigger] n.attempts.dom().contains(
                id,
            ) implies n.attempt_is_fine(id, kept) by {
                assert(c.attempt_is_fine(id, kept));
            }
        },
        DriveMoveModel::Start(ctx) => {
            assert forall|id: AttemptId| #[trigger] n.attempts.dom().contains(
                id,
            ) implies n.attempt_is_fine(id, kept) by {
                if id != ctx.attempt_id {
                    assert(c.attempt_is_fine(id, kept));
                }
            }
        },
        _ => {
            assert forall|id: AttemptId| #[trigger] n.attempts.dom().contains(
                id,
            ) implies n.attempt_is_fine(id, kept) by {
                assert(c.attempt_is_fine(id, kept));
            }
        },
    }
}

/// Dull events bring no hope and start nothing.
proof fn dull_is_mild(kinds: Seq<EventKindModel>, kept: ConfigModel, command: Seq<char>)
    requires
        dull(kinds),
    ensures
        forall|i: int|
            0 <= i < kinds.len() ==> mild(#[trigger] kinds[i], kept, command, true, Set::empty())
                && !(kinds[i] is AttemptStarted),
{
    assert forall|i: int| 0 <= i < kinds.len() implies mild(
        #[trigger] kinds[i],
        kept,
        command,
        true,
        Set::empty(),
    ) && !(kinds[i] is AttemptStarted) by {
        match kinds[i] {
            EventKindModel::TaskStatusChanged { .. } => {},
            EventKindModel::AttemptFinished { .. } => {},
            EventKindModel::BudgetExceeded { .. } => {},
            _ => {
                assert(false);
            },
        }
    }
}

/// A driver that has read the state of a run without hope brings none.
#[verifier::rlimit(40)]
proof fn reading_brings_no_hope(
    c: CourseModel,
    n: CourseModel,
    next: DriveNextModel,
    kept: ConfigModel,
    command: Seq<char>,
)
    requires
        c.driver.stage == DriveStageModel::Loading(next),
        c.doing is Load,
        c.stage_is_fine(kept),
        c.config_is_fine(kept),
        hopeless(c.state, kept, command, !c.lost),
        c.read == c.state,
        n == (CourseModel {
            driver: c.driver.loaded(next, c.read, c.config.limits).0,
            doing: c.driver.loaded(next, c.read, c.config.limits).1,
            ..c
        }),
    ensures
        n.stage_is_fine(kept),
        n.move_is_fine(kept, command),
        n.config_is_fine(kept),
{
    let s = c.read;
    match next {
        DriveNextModel::Open => {},
        DriveNextModel::Restart { status } => {
            let kinds = restart_kinds(s, s.tasks_at(TaskStatus::Running));
            restarts_are_dull(s, s.tasks_at(TaskStatus::Running));
            dull_is_mild(kinds, kept, command);
        },
        DriveNextModel::Turn => {
            if let Some(exceeded) = s.spec.budget.crossed(Usage::sum_of(s.usages()), 0) {
                assert(dull(seq![EventKindModel::BudgetExceeded { exceeded }]));
            }
        },
        DriveNextModel::Merge { .. } => {},
        DriveNextModel::Fail { report, reason } => {
            reports_are_dull(s, report, reason);
            dull_is_mild(report_kinds(s, report, reason), kept, command);
        },
        DriveNextModel::Idle => {
            idle_runs_fail(s);
        },
        DriveNextModel::End { status, reason, first } => {
            let kinds = finish_kinds(s, status, reason, first);
            ends_are_dull(s, status, reason, first);
            dull_is_mild(kinds.drop_last(), kept, command);
            assert forall|i: int| 0 <= i < kinds.len() implies mild(
                #[trigger] kinds[i],
                kept,
                command,
                true,
                Set::empty(),
            ) && !(kinds[i] is AttemptStarted) by {
                if i < kinds.len() - 1 {
                    assert(kinds[i] == kinds.drop_last()[i]);
                }
            }
        },
        DriveNextModel::Leave => {},
    }
}

/// A step of the driver brings no hope.
#[verifier::rlimit(40)]
proof fn driving_brings_no_hope(
    c: CourseModel,
    input: DriveInputModel,
    runtimes: Set<Seq<char>>,
    attempt_id: AttemptId,
    workspace_id: WorkspaceId,
    at: Option<(nat, i64)>,
    kept: ConfigModel,
    command: Seq<char>,
)
    requires
        c.is_hopeless(kept, command),
        c.drives(input, runtimes, attempt_id, workspace_id, at) is Some,
    ensures
        c.drives(input, runtimes, attempt_id, workspace_id, at)->0.is_hopeless(kept, command),
{
    let m = c.made(input, at)->0;
    let n = c.drives(input, runtimes, attempt_id, workspace_id, at)->0;
    moves_bring_no_hope(c, input, at, kept, command);
    assert forall|id: AttemptId| #[trigger] n.attempts.dom().contains(id) implies n.attempt_is_fine(
        id,
        kept,
    ) by {
        assert(m.attempt_is_fine(id, kept));
    }
    match c.driver.stage {
        DriveStageModel::Loading(next) => {
            reading_brings_no_hope(m, n, next, kept, command);
        },
        DriveStageModel::Reserving { ctx, .. } => {
            if let DriveMoveModel::Append { events, .. } = c.doing {
                assert(events[1] is AttemptStarted);
            }
        },
        _ => {},
    }
}

/// A check that never passes fails the attempt: once its checks have run, the agent
/// is told of the failure, while fix rounds are left, or the attempt ends as one that
/// failed its checks.
pub proof fn failing_checks_fail_attempts(
    live: LiveAttemptModel,
    results: Seq<CheckResultModel>,
    multi_turn: bool,
    k: int,
)
    requires
        live.phase is Checking,
        0 <= k < live.ctx.checks.len(),
        ran(live.ctx.checks, ""@, results),
        never_passes(live.ctx.checks[k].command, results),
    ensures
        live.hears(NewsModel::Checked { results, multi_turn }) matches Some(next) && if multi_turn
            && live.fix_round < live.ctx.limits.max_fix_rounds {
            next.phase == (PhaseModel::Telling { results }) && next.fix_round == live.fix_round + 1
        } else {
            next.phase == (PhaseModel::Ending { outcome: gave_up(live.fix_round, results) })
        },
{
    one_failure_is_enough(live.ctx.checks, ""@, results, k);
}

/// What an attempt hears brings no hope.
#[verifier::rlimit(40)]
proof fn news_bring_no_hope(
    c: CourseModel,
    id: AttemptId,
    news: NewsModel,
    at: Option<(nat, i64)>,
    kept: ConfigModel,
    k: int,
)
    requires
        0 <= k < kept.checks.len(),
        c.is_hopeless(kept, kept.checks[k].command),
        c.after(HappeningModel::Hears { id, news, at }) is Some,
        news matches NewsModel::Checked { results, .. } ==> never_passes(
            kept.checks[k].command,
            results,
        ),
    ensures
        c.after(HappeningModel::Hears { id, news, at })->0.is_hopeless(
            kept,
            kept.checks[k].command,
        ),
{
    let command = kept.checks[k].command;
    let live = c.attempts[id];
    let next = live.hears(news)->0;
    let kinds = live.tells(news);
    let n = c.after(HappeningModel::Hears { id, news, at })->0;
    assert(c.attempt_is_fine(id, kept));
    if let NewsModel::Checked { results, multi_turn } = news {
        failing_checks_fail_attempts(live, results, multi_turn, k);
        one_failure_is_enough(live.ctx.checks, ""@, results, k);
        assert forall|i: int| 0 <= i < results.len() implies has_command(
            kept.checks,
            (#[trigger] results[i]).command,
        ) by {
            assert(is_result_of(live.ctx.checks[i], ""@, results[i]));
            assert(kept.checks[i].command == results[i].command);
        }
    }
    if let Some((first, at_ms)) = at {
        assert forall|i: int| 0 <= i < kinds.len() implies {
            &&& mild(#[trigger] kinds[i], kept, command, !c.lost, failing(c.attempts))
            &&& !(kinds[i] is AttemptStarted)
            &&& !(kinds[i] is RunStatusChanged)
        } by {}
        recording_brings_no_hope(c, kinds, first, at_ms, kept, command);
        if let NewsModel::Checked { results, .. } = news {
            checks_are_told(c.state, id, results, first, at_ms);
            let j = choose|j: int| 0 <= j < results.len() && !(#[trigger] results[j]).passed;
            let was = c.state.attempts[id].checks;
            assert((was + results)[was.len() + j] == results[j]);
            assert(marked(n.state, id));
        }
    } else {
        assert(n.state == c.state);
    }
    assert(!n.lost && is_failing(next.phase) ==> marked(n.state, id));
    assert forall|a: AttemptId| #[trigger] n.attempts.dom().contains(a) implies n.attempt_is_fine(
        a,
        kept,
    ) by {
        assert(c.attempts.dom().contains(a));
        assert(c.attempt_is_fine(a, kept));
        if at is Some {
            assert(CourseModel { state: n.state, ..c }.attempt_is_fine(a, kept));
        }
    }
}

/// Starting to drive a run without hope brings none.
proof fn opening_brings_no_hope(
    s: RunStateModel,
    own: ConfigModel,
    agent: Option<Seq<char>>,
    dir: Seq<char>,
    lost: bool,
    kept: ConfigModel,
    command: Seq<char>,
)
    requires
        hopeless(s, kept, command, !lost),
    ensures
        CourseModel::open(s, own, agent, dir, lost).is_hopeless(kept, command),
{
}

/// Nothing that happens brings hope.
proof fn happenings_bring_no_hope(
    c: CourseModel,
    h: HappeningModel,
    kept: ConfigModel,
    k: int,
)
    requires
        0 <= k < kept.checks.len(),
        c.is_hopeless(kept, kept.checks[k].command),
        c.after(h) is Some,
        h.fails(kept.checks[k].command),
    ensures
        c.after(h)->0.is_hopeless(kept, kept.checks[k].command),
{
    let command = kept.checks[k].command;
    match h {
        HappeningModel::Opens { own, agent, dir } => {
            opening_brings_no_hope(c.state, own, agent, dir, c.lost, kept, command);
        },
        HappeningModel::Drives { input, runtimes, attempt_id, workspace_id, at } => {
            driving_brings_no_hope(
                c,
                input,
                runtimes,
                attempt_id,
                workspace_id,
                at,
                kept,
                command,
            );
        },
        HappeningModel::Hears { id, news, at } => {
            news_bring_no_hope(c, id, news, at, kept, k);
        },
        HappeningModel::Aside { kinds, first, at_ms } => {
            assert forall|i: int| 0 <= i < kinds.len() implies {
                &&& mild(#[trigger] kinds[i], kept, command, !c.lost, failing(c.attempts))
                &&& !(kinds[i] is AttemptStarted)
                &&& !(kinds[i] is RunStatusChanged)
            } by {
                assert(aside(kinds[i]));
            }
            recording_brings_no_hope(c, kinds, first, at_ms, kept, command);
        },
    }
}

/// A whole course of a run without hope brings none.
proof fn courses_bring_no_hope(
    c: CourseModel,
    course: Seq<HappeningModel>,
    kept: ConfigModel,
    k: int,
)
    requires
        0 <= k < kept.checks.len(),
        c.is_hopeless(kept, kept.checks[k].command),
        c.goes(course) is Some,
        forall|i: int|
            0 <= i < course.len() ==> (#[trigger] course[i]).fails(kept.checks[k].command),
    ensures
        c.goes(course)->0.is_hopeless(kept, kept.checks[k].command),
    decreases course.len(),
{
    if course.len() > 0 {
        happenings_bring_no_hope(c, course[0], kept, k);
        courses_bring_no_hope(c.after(course[0])->0, course.drop_first(), kept, k);
    }
}

/// A run keeps the configuration that it was created with, to its end: where one of
/// the checks that it keeps never passes, it does not succeed, whoever drives it,
/// under whatever configuration of their own, however often it is interrupted and
/// whatever its agents do. No task of it is ever done; once it is over, it has
/// failed. What is recorded of its attempts are results of the kept checks, none of
/// them passed of that one; and an attempt that is told to have failed its checks
/// shows one that failed.
pub proof fn kept_checks_decide(
    new: NewRunModel,
    kept: ConfigModel,
    base_ref: Seq<char>,
    ids: Seq<TaskId>,
    run_id: RunId,
    first: nat,
    at_ms: i64,
    own: ConfigModel,
    agent: Option<Seq<char>>,
    dir: Seq<char>,
    course: Seq<HappeningModel>,
    k: int,
)
    requires
        new.plan.valid(),
        ids.len() == new.plan.tasks.len(),
        ids.no_duplicates(),
        first + ids.len() + 2 <= u64::MAX,
        0 <= k < kept.checks.len(),
        forall|i: int|
            0 <= i < course.len() ==> (#[trigger] course[i]).fails(kept.checks[k].command),
    ensures
        RunStateModel::replayed(
            numbered(first, run_id, at_ms, creation_kinds(new, kept, base_ref, ids)),
        ) matches Ok(s) && (CourseModel::open(s, own, agent, dir, false).goes(course) matches Some(c)
            ==> {
            &&& c.state.status != RunStatus::Succeeded
            &&& c.doing is Finished ==> c.read.status == RunStatus::Failed
            &&& forall|id: TaskId| #[trigger]
                c.state.tasks.dom().contains(id) ==> c.state.tasks[id].status != TaskStatus::Done
            &&& forall|id: AttemptId| #[trigger]
                c.read.attempts.dom().contains(id) ==> shows_failures(
                    c.read.attempts[id],
                    kept.checks,
                    kept.checks[k].command,
                    !c.lost,
                )
        }),
{
    let command = kept.checks[k].command;
    created_runs_are_sound(new, kept, base_ref, ids, run_id, first, at_ms);
    let s = RunStateModel::replayed(
        numbered(first, run_id, at_ms, creation_kinds(new, kept, base_ref, ids)),
    )->Ok_0;
    assert(ids.take(ids.len() as int) =~= ids);
    assert(ids.to_set().contains(ids[0]));
    assert forall|id: TaskId| #[trigger] s.tasks.dom().contains(id) implies s.tasks[id].status
        != TaskStatus::Done by {
        assert(ids.contains(id));
        let i = ids.index_of(id);
        assert(s.tasks[ids[i]] == new_task(ids[i], new.plan.specs()[i]));
    }
    vstd::set::axiom_set_choose_len(s.tasks.dom());
    assert(hopeless(s, kept, command, true));
    opening_brings_no_hope(s, own, agent, dir, false, kept, command);
    let open = CourseModel::open(s, own, agent, dir, false);
    if open.goes(course) is Some {
        courses_bring_no_hope(open, course, kept, k);
    }
}

/// Where the run keeps one check and that never passes, the first result of every
/// attempt that has any is of its command and did not pass, and every attempt that is
/// told to have failed its checks has one.
pub proof fn the_only_check_shows(
    attempt: AttemptStateModel,
    check: CheckModel,
    all_told: bool,
)
    requires
        shows_failures(attempt, seq![check], check.command, all_told),
    ensures
        attempt.checks.len() > 0 ==> attempt.checks[0].command == check.command
            && !attempt.checks[0].passed,
        all_told && attempt.outcome is Some && failed_checks(attempt.outcome->0)
            ==> attempt.checks.len() > 0,
{
    if attempt.checks.len() > 0 {
        assert(has_command(seq![check], attempt.checks[0].command));
    }
}

} // verus!
