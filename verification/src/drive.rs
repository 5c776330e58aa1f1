//! Driving a run from start to finish, one step at a time.
//!
//! A [`Driver`] is told what came of its last move and says what to do next:
//! read the run's state, record events, ask git, start an attempt or wait for
//! one. Attempts run beside each other; what comes of them is settled one by
//! one, so that verified branches are merged as in a queue.

use vstd::prelude::*;

use crate::attempt::{
    check_events, check_kinds, finished_event, finished_key, AttemptContext, AttemptContextModel,
    AttemptReport, AttemptReportModel,
};
use crate::budget::{no_usage, Usage};
use crate::checks::all_passed;
use crate::config::{Config, ConfigModel, Limits};
use crate::engine::{
    broken_texts, budget_share, can_budget, claims, crashed, finish_events, finish_kinds,
    handle_report, idle_outcome, idle_spec, integration_failed, integration_place,
    interrupted_event, interrupted_kind, is_integrating, is_verified, landed_kinds, landing,
    left_of, merge_failure, merge_message, over_budget, prepare_attempt, prepared, report_failure,
    report_kinds, reservation, restart_events, restart_kinds, slots, start_events, start_kinds,
    total, turn, unfinished_attempts, unknown_runtime, EngineError, IntegrationPlace, Landing,
    Turn,
};
use crate::events::{EventKind, EventKindModel};
use crate::git::{seen_result, GitError, GitErrorModel, WorktreeInfo, WorktreeInfoModel};
use crate::ids::{has_version, AttemptId, TaskId, WorkspaceId};
use crate::model::{
    AttemptOutcomeModel, CheckResult, CheckResultModel, FailureKind, RunStatus, TaskStatus,
};
use crate::money::Usd;
use crate::order::{Key, OrdMap, OrdSet};
use crate::prompts::held_within;
use crate::schedule::{at_most, free_slots, joined_parts_are_held};
use crate::state::{seen_map_dom, RunState, RunStateModel};
use crate::text::{holds, join, seen, views};
use crate::ui::{four_are_held, two_are_held};

verus! {

/// What a run goes on with once its state has been read.
#[allow(inconsistent_fields)]
#[derive(Debug, PartialEq)]
pub enum DriveNext {
    /// Begin, unless the run is over.
    Open,
    /// Decide on the tasks whose attempts were interrupted.
    Restart { status: RunStatus },
    /// Look for tasks to start.
    Turn,
    /// Merge the branch of a verified attempt.
    Merge { report: AttemptReport, before: String },
    /// Decide on the task of an attempt that failed or could not land.
    Fail { report: AttemptReport, reason: Option<String> },
    /// Nothing runs any more: decide how the run ends.
    Idle,
    /// End the run.
    End { status: RunStatus, reason: Option<String>, first: Vec<EventKind> },
    /// The run is over.
    Leave,
}

/// What a value of type `DriveNext` stands for.
#[allow(inconsistent_fields)]
#[verifier::ext_equal]
pub enum DriveNextModel {
    Open,
    Restart { status: RunStatus },
    Turn,
    Merge { report: AttemptReportModel, before: Seq<char> },
    Fail { report: AttemptReportModel, reason: Option<Seq<char>> },
    Idle,
    End { status: RunStatus, reason: Option<Seq<char>>, first: Seq<EventKindModel> },
    Leave,
}

impl View for DriveNext {
    type V = DriveNextModel;

    open spec fn view(&self) -> DriveNextModel {
        match self {
            DriveNext::Open => DriveNextModel::Open,
            DriveNext::Restart { status } => DriveNextModel::Restart { status: *status },
            DriveNext::Turn => DriveNextModel::Turn,
            DriveNext::Merge { report, before } => DriveNextModel::Merge {
                report: report@,
                before: before@,
            },
            DriveNext::Fail { report, reason } => DriveNextModel::Fail {
                report: report@,
                reason: seen(*reason),
            },
            DriveNext::Idle => DriveNextModel::Idle,
            DriveNext::End { status, reason, first } => DriveNextModel::End {
                status: *status,
                reason: seen(*reason),
                first: views(first@),
            },
            DriveNext::Leave => DriveNextModel::Leave,
        }
    }
}

/// Where driving a run stands: what the last move was made for.
#[allow(inconsistent_fields)]
#[derive(Debug, PartialEq)]
pub enum DriveStage {
    /// The state is being read.
    Loading(DriveNext),
    /// Something is being done; then the state is read.
    Then(DriveNext),
    /// Interrupted attempts are being marked; these are left.
    Marking { status: RunStatus, left: Vec<AttemptId> },
    /// What follows from them is being recorded.
    Restarted { status: RunStatus },
    /// Git is asked for its worktrees.
    Finding { status: RunStatus },
    /// The worktree of the integration branch is being made.
    Placed { status: RunStatus },
    /// The head is being read to start the first of these tasks.
    Preparing { left: Vec<TaskId>, share: Option<Usd> },
    /// An attempt is being reserved.
    Reserving { left: Vec<TaskId>, share: Option<Usd>, ctx: AttemptContext },
    /// An attempt is being started.
    Starting { left: Vec<TaskId>, share: Option<Usd> },
    /// Attempts are running.
    Waiting,
    /// The head before a merge is being read.
    Before { report: AttemptReport },
    /// A branch is being merged.
    Merging { report: AttemptReport, before: String },
    /// The checks run on the merged code.
    Checking { report: AttemptReport, before: String, commit: String },
    /// Their results are being recorded.
    Judging {
        report: AttemptReport,
        before: String,
        commit: String,
        results: Vec<CheckResult>,
    },
    /// The merge is being undone.
    Resetting { report: AttemptReport, reason: String },
}

/// What a value of type `DriveStage` stands for.
#[allow(inconsistent_fields)]
#[verifier::ext_equal]
pub enum DriveStageModel {
    Loading(DriveNextModel),
    Then(DriveNextModel),
    Marking { status: RunStatus, left: Seq<AttemptId> },
    Restarted { status: RunStatus },
    Finding { status: RunStatus },
    Placed { status: RunStatus },
    Preparing { left: Seq<TaskId>, share: Option<Usd> },
    Reserving { left: Seq<TaskId>, share: Option<Usd>, ctx: AttemptContextModel },
    Starting { left: Seq<TaskId>, share: Option<Usd> },
    Waiting,
    Before { report: AttemptReportModel },
    Merging { report: AttemptReportModel, before: Seq<char> },
    Checking { report: AttemptReportModel, before: Seq<char>, commit: Seq<char> },
    Judging {
        report: AttemptReportModel,
        before: Seq<char>,
        commit: Seq<char>,
        results: Seq<CheckResultModel>,
    },
    Resetting { report: AttemptReportModel, reason: Seq<char> },
}

impl View for DriveStage {
    type V = DriveStageModel;

    open spec fn view(&self) -> DriveStageModel {
        match self {
            DriveStage::Loading(next) => DriveStageModel::Loading(next@),
            DriveStage::Then(next) => DriveStageModel::Then(next@),
            DriveStage::Marking { status, left } => DriveStageModel::Marking {
                status: *status,
                left: left@,
            },
            DriveStage::Restarted { status } => DriveStageModel::Restarted { status: *status },
            DriveStage::Finding { status } => DriveStageModel::Finding { status: *status },
            DriveStage::Placed { status } => DriveStageModel::Placed { status: *status },
            DriveStage::Preparing { left, share } => DriveStageModel::Preparing {
                left: left@,
                share: *share,
            },
            DriveStage::Reserving { left, share, ctx } => DriveStageModel::Reserving {
                left: left@,
                share: *share,
                ctx: ctx@,
            },
            DriveStage::Starting { left, share } => DriveStageModel::Starting {
                left: left@,
                share: *share,
            },
            DriveStage::Waiting => DriveStageModel::Waiting,
            DriveStage::Before { report } => DriveStageModel::Before { report: report@ },
            DriveStage::Merging { report, before } => DriveStageModel::Merging {
                report: report@,
                before: before@,
            },
            DriveStage::Checking { report, before, commit } => DriveStageModel::Checking {
                report: report@,
                before: before@,
                commit: commit@,
            },
            DriveStage::Judging { report, before, commit, results } => DriveStageModel::Judging {
                report: report@,
                before: before@,
                commit: commit@,
                results: views(results@),
            },
            DriveStage::Resetting { report, reason } => DriveStageModel::Resetting {
                report: report@,
                reason: reason@,
            },
        }
    }
}

/// What came of a move.
#[allow(inconsistent_fields)]
#[derive(Debug, PartialEq)]
pub enum DriveInput {
    /// It was made.
    Done,
    /// The state was read.
    Loaded,
    /// Git has these worktrees, and the integration branch or not.
    Found { worktrees: Vec<WorktreeInfo>, branch_exists: bool },
    /// The head of the integration branch.
    Head(String),
    /// An attempt ended.
    Ended(AttemptReport),
    /// An attempt crashed.
    Crashed { task_id: TaskId, attempt_id: AttemptId, error: String },
    /// No attempt is running.
    NoneLeft,
    /// The merge was made, as this commit, or not.
    Merged(Result<String, GitError>),
    /// The results of the checks.
    Checked(Vec<CheckResult>),
}

/// What a value of type `DriveInput` stands for.
#[allow(inconsistent_fields)]
#[verifier::ext_equal]
pub enum DriveInputModel {
    Done,
    Loaded,
    Found { worktrees: Seq<WorktreeInfoModel>, branch_exists: bool },
    Head(Seq<char>),
    Ended(AttemptReportModel),
    Crashed { task_id: TaskId, attempt_id: AttemptId, error: Seq<char> },
    NoneLeft,
    Merged(Result<Seq<char>, GitErrorModel>),
    Checked(Seq<CheckResultModel>),
}

impl View for DriveInput {
    type V = DriveInputModel;

    open spec fn view(&self) -> DriveInputModel {
        match self {
            DriveInput::Done => DriveInputModel::Done,
            DriveInput::Loaded => DriveInputModel::Loaded,
            DriveInput::Found { worktrees, branch_exists } => DriveInputModel::Found {
                worktrees: views(worktrees@),
                branch_exists: *branch_exists,
            },
            DriveInput::Head(commit) => DriveInputModel::Head(commit@),
            DriveInput::Ended(report) => DriveInputModel::Ended(report@),
            DriveInput::Crashed { task_id, attempt_id, error } => DriveInputModel::Crashed {
                task_id: *task_id,
                attempt_id: *attempt_id,
                error: error@,
            },
            DriveInput::NoneLeft => DriveInputModel::NoneLeft,
            DriveInput::Merged(r) => DriveInputModel::Merged(seen_result(*r)),
            DriveInput::Checked(results) => DriveInputModel::Checked(views(results@)),
        }
    }
}

/// What to do next. Every move but the last is answered with an input.
#[derive(Debug, PartialEq)]
pub enum DriveMove {
    /// Read the run's state.
    Load,
    /// Record events, under a key that keeps them from being recorded twice.
    Append { events: Vec<EventKind>, key: Option<String> },
    /// Ask git for its worktrees and for the integration branch.
    FindPlace,
    /// Have the worktree of the integration branch.
    MakePlace(IntegrationPlace),
    /// Read the head of the integration branch.
    ReadHead,
    /// Start an attempt beside those that run.
    Start(AttemptContext),
    /// Wait until an attempt ends.
    Wait,
    /// Stop all attempts.
    StopAll,
    /// Merge a branch into the integration branch.
    Merge { branch: String, message: String },
    /// Run the checks on the integration branch.
    Check,
    /// Put the integration branch back to a commit.
    Reset { commit: String },
    /// The run is over: its state is what was read last.
    Finished,
}

/// What a value of type `DriveMove` stands for.
#[verifier::ext_equal]
pub enum DriveMoveModel {
    Load,
    Append { events: Seq<EventKindModel>, key: Option<Seq<char>> },
    FindPlace,
    MakePlace(IntegrationPlace),
    ReadHead,
    Start(AttemptContextModel),
    Wait,
    StopAll,
    Merge { branch: Seq<char>, message: Seq<char> },
    Check,
    Reset { commit: Seq<char> },
    Finished,
}

impl View for DriveMove {
    type V = DriveMoveModel;

    open spec fn view(&self) -> DriveMoveModel {
        match self {
            DriveMove::Load => DriveMoveModel::Load,
            DriveMove::Append { events, key } => DriveMoveModel::Append {
                events: views(events@),
                key: seen(*key),
            },
            DriveMove::FindPlace => DriveMoveModel::FindPlace,
            DriveMove::MakePlace(place) => DriveMoveModel::MakePlace(*place),
            DriveMove::ReadHead => DriveMoveModel::ReadHead,
            DriveMove::Start(ctx) => DriveMoveModel::Start(ctx@),
            DriveMove::Wait => DriveMoveModel::Wait,
            DriveMove::StopAll => DriveMoveModel::StopAll,
            DriveMove::Merge { branch, message } => DriveMoveModel::Merge {
                branch: branch@,
                message: message@,
            },
            DriveMove::Check => DriveMoveModel::Check,
            DriveMove::Reset { commit } => DriveMoveModel::Reset { commit: commit@ },
            DriveMove::Finished => DriveMoveModel::Finished,
        }
    }
}

/// A run on its way.
#[derive(Debug, PartialEq)]
pub struct Driver {
    pub stage: DriveStage,
    /// How many attempts are running.
    pub running: usize,
    /// What each attempt may spend at most.
    pub caps: OrdMap<AttemptId, Usd>,
    /// The directory of the run's worktrees.
    pub dir: String,
}

/// What a value of type `Driver` stands for.
#[verifier::ext_equal]
pub struct DriverModel {
    pub stage: DriveStageModel,
    pub running: int,
    pub caps: Map<AttemptId, Usd>,
    pub dir: Seq<char>,
}

impl View for Driver {
    type V = DriverModel;

    open spec fn view(&self) -> DriverModel {
        DriverModel {
            stage: self.stage@,
            running: self.running as int,
            caps: self.caps@,
            dir: self.dir@,
        }
    }
}

/// What is recorded of an attempt that was running when the process died.
pub open spec fn interrupted_kinds(s: RunStateModel, id: AttemptId) -> Seq<EventKindModel> {
    if s.attempts.dom().contains(id) {
        seq![interrupted_kind(s, id)]
    } else {
        Seq::empty()
    }
}

/// The key under which the end of an attempt is recorded.
pub open spec fn end_key(id: AttemptId) -> Seq<char> {
    "attempt-finished:"@ + AttemptId::label(id)
}

/// The share of the remaining spend for each of the attempts that start now.
pub open spec fn share_of(s: RunStateModel, caps: Map<AttemptId, Usd>, starting: int) -> Option<
    Usd,
> {
    match s.spec.budget.max_cost_usd {
        None => None,
        Some(limit) => Some(
            Usd {
                nanos: (left_of(limit.nanos as int, total(claims(s, caps))) / starting) as i64,
            },
        ),
    }
}

/// The report on an attempt that crashed.
pub open spec fn crash_report(
    task_id: TaskId,
    attempt_id: AttemptId,
    error: Seq<char>,
) -> AttemptReportModel {
    AttemptReportModel {
        task_id,
        attempt_id,
        branch: Seq::empty(),
        outcome: AttemptOutcomeModel::Failed {
            kind: FailureKind::Infrastructure,
            message: "the attempt crashed: "@ + error,
        },
    }
}

/// Why code that was merged does not stay.
pub open spec fn broken_reason(results: Seq<CheckResultModel>) -> Seq<char> {
    "checks failed on the integrated code: "@ + join(broken_texts(results), "\n"@)
}

impl DriverModel {
    /// A driver that starts: it reads the state.
    pub open spec fn fresh(dir: Seq<char>) -> DriverModel {
        DriverModel {
            stage: DriveStageModel::Loading(DriveNextModel::Open),
            running: 0,
            caps: Map::empty(),
            dir,
        }
    }

    /// How many attempts are on their way to being started.
    pub open spec fn starting(self) -> int {
        match self.stage {
            DriveStageModel::Preparing { left, .. } => left.len() as int,
            DriveStageModel::Reserving { left, .. } => left.len() as int + 1,
            DriveStageModel::Starting { left, .. } => left.len() as int,
            _ => 0,
        }
    }

    pub open spec fn wf(self) -> bool {
        &&& 0 <= self.running
        &&& self.running + self.starting() <= usize::MAX
        &&& self.stage matches DriveStageModel::Preparing { left, .. } ==> left.len() > 0
        &&& self.stage matches DriveStageModel::Reserving { share, ctx, .. }
            ==> ctx.max_budget_usd == share
    }

    /// The attempt whose end is being settled.
    pub open spec fn settling(self) -> Option<AttemptReportModel> {
        match self.stage {
            DriveStageModel::Before { report } => Some(report),
            DriveStageModel::Then(DriveNextModel::Merge { report, .. }) => Some(report),
            DriveStageModel::Loading(DriveNextModel::Merge { report, .. }) => Some(report),
            DriveStageModel::Merging { report, .. } => Some(report),
            DriveStageModel::Checking { report, .. } => Some(report),
            DriveStageModel::Judging { report, .. } => Some(report),
            DriveStageModel::Resetting { report, .. } => Some(report),
            DriveStageModel::Then(DriveNextModel::Fail { report, .. }) => Some(report),
            DriveStageModel::Loading(DriveNextModel::Fail { report, .. }) => Some(report),
            _ => None,
        }
    }

    /// What can come of the last move.
    pub open spec fn awaits(self, input: DriveInputModel) -> bool {
        match self.stage {
            DriveStageModel::Loading(_) => input is Loaded,
            DriveStageModel::Finding { .. } => input is Found,
            DriveStageModel::Preparing { .. } => input is Head,
            DriveStageModel::Before { .. } => input is Head,
            DriveStageModel::Waiting => match input {
                DriveInputModel::Ended(_) => self.running > 0,
                DriveInputModel::Crashed { .. } => self.running > 0,
                DriveInputModel::NoneLeft => self.running == 0,
                _ => false,
            },
            DriveStageModel::Merging { .. } => input is Merged,
            DriveStageModel::Checking { .. } => input is Checked,
            _ => input is Done,
        }
    }

    /// The state that was read can be gone on with: tasks that are spoken of are
    /// there, and figures fit.
    pub open spec fn suits(self, s: RunStateModel) -> bool {
        match self.stage {
            DriveStageModel::Loading(DriveNextModel::Turn) => s.can_budget(),
            DriveStageModel::Loading(DriveNextModel::Merge { report, .. }) =>
                s.tasks.dom().contains(report.task_id),
            DriveStageModel::Preparing { left, .. } => {
                &&& s.tasks.dom().contains(left[0])
                &&& s.tasks[left[0]].attempts.len() < u32::MAX
                &&& Usage::sum_fits(s.usages())
            },
            _ => true,
        }
    }

    pub open spec fn at(self, stage: DriveStageModel) -> DriverModel {
        DriverModel { stage, ..self }
    }

    /// To read the state.
    pub open spec fn load(self, next: DriveNextModel) -> (DriverModel, DriveMoveModel) {
        (self.at(DriveStageModel::Loading(next)), DriveMoveModel::Load)
    }

    /// To record events.
    pub open spec fn append(self, events: Seq<EventKindModel>, stage: DriveStageModel) -> (
        DriverModel,
        DriveMoveModel,
    ) {
        (self.at(stage), DriveMoveModel::Append { events, key: None })
    }

    /// To mark the interrupted attempts, one by one.
    pub open spec fn mark(self, s: RunStateModel, status: RunStatus, left: Seq<AttemptId>) -> (
        DriverModel,
        DriveMoveModel,
    ) {
        if left.len() == 0 {
            self.load(DriveNextModel::Restart { status })
        } else {
            (
                self.at(DriveStageModel::Marking { status, left: left.skip(1) }),
                DriveMoveModel::Append {
                    events: interrupted_kinds(s, left[0]),
                    key: Some(end_key(left[0])),
                },
            )
        }
    }

    /// To start attempts for tasks, or to wait where there is none.
    pub open spec fn start(self, left: Seq<TaskId>, share: Option<Usd>) -> (
        DriverModel,
        DriveMoveModel,
    ) {
        if left.len() == 0 {
            (self.at(DriveStageModel::Waiting), DriveMoveModel::Wait)
        } else {
            (self.at(DriveStageModel::Preparing { left, share }), DriveMoveModel::ReadHead)
        }
    }

    /// To look for tasks to start.
    pub open spec fn turn(self, s: RunStateModel, limits: Limits) -> (DriverModel, DriveMoveModel) {
        match s.spec.budget.crossed(Usage::sum_of(s.usages()), 0) {
            Some(exceeded) => (
                self.at(
                    DriveStageModel::Then(
                        DriveNextModel::End {
                            status: RunStatus::Failed,
                            reason: Some("budget exceeded: "@ + exceeded.message_spec()),
                            first: seq![EventKindModel::BudgetExceeded { exceeded }],
                        },
                    ),
                ),
                DriveMoveModel::StopAll,
            ),
            None => {
                let tasks = at_most(s.ready(), free_slots(self.running, slots(limits)));
                self.start(tasks, share_of(s, self.caps, tasks.len() as int))
            },
        }
    }

    /// To record that verified work could not land.
    pub open spec fn unland(self, report: AttemptReportModel, reason: Seq<char>) -> (
        DriverModel,
        DriveMoveModel,
    ) {
        self.append(
            seq![
                EventKindModel::IntegrationFailed {
                    task_id: report.task_id,
                    attempt_id: report.attempt_id,
                    reason,
                },
            ],
            DriveStageModel::Then(DriveNextModel::Fail { report, reason: Some(reason) }),
        )
    }

    /// To keep merged code, or to undo the merge.
    pub open spec fn judge(
        self,
        report: AttemptReportModel,
        before: Seq<char>,
        commit: Seq<char>,
        results: Seq<CheckResultModel>,
    ) -> (DriverModel, DriveMoveModel) {
        if all_passed(results) {
            self.append(
                landed_kinds(report, commit),
                DriveStageModel::Then(DriveNextModel::Turn),
            )
        } else {
            (
                self.at(DriveStageModel::Resetting { report, reason: broken_reason(results) }),
                DriveMoveModel::Reset { commit: before },
            )
        }
    }

    /// To go on with a state that was read.
    pub open spec fn loaded(self, next: DriveNextModel, s: RunStateModel, limits: Limits) -> (
        DriverModel,
        DriveMoveModel,
    ) {
        match next {
            DriveNextModel::Open => if s.status.terminal() {
                (self.at(DriveStageModel::Loading(DriveNextModel::Leave)), DriveMoveModel::Finished)
            } else {
                self.mark(s, s.status, s.unfinished())
            },
            DriveNextModel::Restart { status } => self.append(
                restart_kinds(s, s.tasks_at(TaskStatus::Running)),
                DriveStageModel::Restarted { status },
            ),
            DriveNextModel::Turn => self.turn(s, limits),
            DriveNextModel::Merge { report, before } => (
                self.at(DriveStageModel::Merging { report, before }),
                DriveMoveModel::Merge {
                    branch: report.branch,
                    message: "bodega: integrate "@ + s.tasks[report.task_id].spec.key,
                },
            ),
            DriveNextModel::Fail { report, reason } => self.append(
                report_kinds(s, report, reason),
                DriveStageModel::Then(DriveNextModel::Turn),
            ),
            DriveNextModel::Idle => self.load(
                DriveNextModel::End {
                    status: idle_spec(s).0,
                    reason: idle_spec(s).1,
                    first: Seq::empty(),
                },
            ),
            DriveNextModel::End { status, reason, first } => self.append(
                finish_kinds(s, status, reason, first),
                DriveStageModel::Then(DriveNextModel::Leave),
            ),
            DriveNextModel::Leave => (
                self.at(DriveStageModel::Loading(DriveNextModel::Leave)),
                DriveMoveModel::Finished,
            ),
        }
    }

    /// To go on after waiting for attempts.
    pub open spec fn waited(self, input: DriveInputModel) -> (DriverModel, DriveMoveModel) {
        match input {
            DriveInputModel::Ended(report) => {
                let one_less = DriverModel { running: self.running - 1, ..self };
                if report_failure(report.outcome) is None {
                    (one_less.at(DriveStageModel::Before { report }), DriveMoveModel::ReadHead)
                } else {
                    one_less.load(DriveNextModel::Fail { report, reason: None })
                }
            },
            DriveInputModel::Crashed { task_id, attempt_id, error } => {
                let one_less = DriverModel { running: self.running - 1, ..self };
                let report = crash_report(task_id, attempt_id, error);
                (
                    one_less.at(
                        DriveStageModel::Then(DriveNextModel::Fail { report, reason: None }),
                    ),
                    DriveMoveModel::Append {
                        events: seq![
                            EventKindModel::AttemptFinished {
                                attempt_id,
                                outcome: report.outcome,
                                usage: no_usage(),
                            },
                        ],
                        key: Some(end_key(attempt_id)),
                    },
                )
            },
            _ => self.load(DriveNextModel::Idle),
        }
    }

    /// To go on after an attempt at merging.
    pub open spec fn merged(
        self,
        report: AttemptReportModel,
        before: Seq<char>,
        r: Result<Seq<char>, GitErrorModel>,
        limits: Limits,
    ) -> Option<(DriverModel, DriveMoveModel)> {
        match r {
            Ok(commit) => Some(
                if limits.verify_after_merge {
                    (
                        self.at(DriveStageModel::Checking { report, before, commit }),
                        DriveMoveModel::Check,
                    )
                } else {
                    self.judge(report, before, commit, Seq::empty())
                },
            ),
            Err(GitErrorModel::MergeConflict { files, .. }) => Some(
                self.unland(report, "merge conflict in "@ + join(files, ", "@)),
            ),
            Err(_) => None,
        }
    }

    /// To reserve an attempt for the first of the tasks that are left, where its
    /// runtime is known.
    pub open spec fn reserve(
        self,
        s: RunStateModel,
        config: ConfigModel,
        runtimes: Set<Seq<char>>,
        head: Seq<char>,
        attempt_id: AttemptId,
        workspace_id: WorkspaceId,
        left: Seq<TaskId>,
        share: Option<Usd>,
    ) -> Option<(DriverModel, DriveMoveModel)> {
        if runtimes.contains(config.agent(s.tasks[left[0]].spec.role).runtime) {
            let ctx = prepared(s, config, left[0], attempt_id, self.dir, head, share);
            Some(
                self.append(
                    reservation(ctx, workspace_id),
                    DriveStageModel::Reserving { left: left.skip(1), share, ctx },
                ),
            )
        } else {
            None
        }
    }

    /// The next move, from what came of the last one and from the state that was
    /// read last. `attempt_id` and `workspace_id` are for an attempt that is
    /// reserved. There is none where the runtime of a task is not known, or where
    /// git fails otherwise than by a conflict.
    pub open spec fn step(
        self,
        s: RunStateModel,
        config: ConfigModel,
        runtimes: Set<Seq<char>>,
        input: DriveInputModel,
        attempt_id: AttemptId,
        workspace_id: WorkspaceId,
    ) -> Option<(DriverModel, DriveMoveModel)> {
        match self.stage {
            DriveStageModel::Loading(next) => Some(self.loaded(next, s, config.limits)),
            DriveStageModel::Then(next) => Some(self.load(next)),
            DriveStageModel::Marking { status, left } => Some(self.mark(s, status, left)),
            DriveStageModel::Restarted { status } => Some(
                (self.at(DriveStageModel::Finding { status }), DriveMoveModel::FindPlace),
            ),
            DriveStageModel::Finding { status } => {
                let place = if is_integrating(input->worktrees, s.id) {
                    IntegrationPlace::Ready
                } else if input->branch_exists {
                    IntegrationPlace::Attach
                } else {
                    IntegrationPlace::Create
                };
                Some(
                    (
                        self.at(DriveStageModel::Placed { status }),
                        DriveMoveModel::MakePlace(place),
                    ),
                )
            },
            DriveStageModel::Placed { status } => Some(
                self.append(
                    start_kinds(status),
                    DriveStageModel::Then(DriveNextModel::Turn),
                ),
            ),
            DriveStageModel::Preparing { left, share } => self.reserve(
                s,
                config,
                runtimes,
                input->Head_0,
                attempt_id,
                workspace_id,
                left,
                share,
            ),
            DriveStageModel::Reserving { left, share, ctx } => Some(
                (
                    DriverModel {
                        stage: DriveStageModel::Starting { left, share },
                        running: self.running + 1,
                        caps: match share {
                            Some(cap) => self.caps.insert(ctx.attempt_id, cap),
                            None => self.caps,
                        },
                        ..self
                    },
                    DriveMoveModel::Start(ctx),
                ),
            ),
            DriveStageModel::Starting { left, share } => Some(self.start(left, share)),
            DriveStageModel::Waiting => Some(self.waited(input)),
            DriveStageModel::Before { report } => Some(
                self.load(DriveNextModel::Merge { report, before: input->Head_0 }),
            ),
            DriveStageModel::Merging { report, before } => self.merged(
                report,
                before,
                input->Merged_0,
                config.limits,
            ),
            DriveStageModel::Checking { report, before, commit } => {
                let results = input->Checked_0;
                Some(
                    self.append(
                        check_kinds(report.attempt_id, results),
                        DriveStageModel::Judging { report, before, commit, results },
                    ),
                )
            },
            DriveStageModel::Judging { report, before, commit, results } => Some(
                self.judge(report, before, commit, results),
            ),
            DriveStageModel::Resetting { report, reason } => Some(self.unland(report, reason)),
        }
    }

    /// Why there is no next move.
    pub open spec fn fails(
        self,
        s: RunStateModel,
        config: ConfigModel,
        runtimes: Set<Seq<char>>,
        input: DriveInputModel,
        e: EngineError,
    ) -> bool {
        match self.stage {
            DriveStageModel::Preparing { left, .. } => unknown_runtime(
                e,
                config.agent(s.tasks[left[0]].spec.role).runtime,
                runtimes,
            ),
            DriveStageModel::Merging { .. } => (e matches EngineError::Git(g) && input
                == DriveInputModel::Merged(Err(g@))),
            _ => false,
        }
    }
}

impl Driver {
    pub open spec fn wf(&self) -> bool {
        self@.wf() && self.caps.wf()
    }

    /// Starts to drive a run whose worktrees are in `dir`. The first move is to
    /// read its state.
    pub fn new(dir: String) -> (r: (Driver, DriveMove))
        ensures
            r.0.wf(),
            r.0@ == DriverModel::fresh(dir@),
            r.1@ == DriveMoveModel::Load,
    {
        let driver = Driver {
            stage: DriveStage::Loading(DriveNext::Open),
            running: 0,
            caps: OrdMap::new(),
            dir,
        };
        (driver, DriveMove::Load)
    }

    fn at(self, stage: DriveStage) -> (r: Driver)
        ensures
            r@ == self@.at(stage@),
            r.caps == self.caps,
    {
        Driver { stage, running: self.running, caps: self.caps, dir: self.dir }
    }

    fn load(self, next: DriveNext) -> (r: (Driver, DriveMove))
        ensures
            (r.0@, r.1@) == self@.load(next@),
            r.0.caps == self.caps,
    {
        (self.at(DriveStage::Loading(next)), DriveMove::Load)
    }

    fn append(self, events: Vec<EventKind>, stage: DriveStage) -> (r: (Driver, DriveMove))
        ensures
            (r.0@, r.1@) == self@.append(views(events@), stage@),
            r.0.caps == self.caps,
    {
        (self.at(stage), DriveMove::Append { events, key: None })
    }

    fn mark(self, state: &RunState, status: RunStatus, left: Vec<AttemptId>) -> (r: (
        Driver,
        DriveMove,
    ))
        requires
            state.wf(),
        ensures
            (r.0@, r.1@) == self@.mark(state@, status, left@),
            r.0.caps == self.caps,
    {
        let ghost all = left@;
        let mut left = left;
        if left.len() == 0 {
            return self.load(DriveNext::Restart { status });
        }
        let id = left.remove(0);
        assert(left@ =~= all.skip(1));
        let events = interrupted_event(state, id);
        let key = Some(finished_key(id));
        (self.at(DriveStage::Marking { status, left }), DriveMove::Append { events, key })
    }

    fn start(self, left: Vec<TaskId>, share: Option<Usd>) -> (r: (Driver, DriveMove))
        ensures
            (r.0@, r.1@) == self@.start(left@, share),
            r.0.caps == self.caps,
    {
        if left.len() == 0 {
            (self.at(DriveStage::Waiting), DriveMove::Wait)
        } else {
            (self.at(DriveStage::Preparing { left, share }), DriveMove::ReadHead)
        }
    }

    fn turn(self, state: &RunState, limits: &Limits) -> (r: (Driver, DriveMove))
        requires
            state.wf(),
            self.caps.wf(),
            state@.can_budget(),
        ensures
            (r.0@, r.1@) == self@.turn(state@, *limits),
            r.0.caps == self.caps,
    {
        match turn(state, limits, self.running) {
            Turn::OverBudget(exceeded) => {
                let (reason, first) = over_budget(exceeded);
                let end = DriveNext::End {
                    status: RunStatus::Failed,
                    reason: Some(reason),
                    first,
                };
                (self.at(DriveStage::Then(end)), DriveMove::StopAll)
            },
            Turn::Start(tasks) => {
                let mut share: Option<Usd> = None;
                if tasks.len() > 0 {
                    share = budget_share(state, &self.caps, tasks.len());
                    assert(share == share_of(state@, self.caps@, tasks@.len() as int));
                }
                self.start(tasks, share)
            },
        }
    }

    fn unland(self, report: AttemptReport, reason: String) -> (r: (Driver, DriveMove))
        ensures
            (r.0@, r.1@) == self@.unland(report@, reason@),
            r.0.caps == self.caps,
    {
        let events = integration_failed(&report, reason.as_str());
        self.append(
            events,
            DriveStage::Then(DriveNext::Fail { report, reason: Some(reason) }),
        )
    }

    fn judge(
        self,
        report: AttemptReport,
        before: String,
        commit: String,
        results: &Vec<CheckResult>,
    ) -> (r: (Driver, DriveMove))
        ensures
            (r.0@, r.1@) == self@.judge(report@, before@, commit@, views(results@)),
            r.0.caps == self.caps,
    {
        match landing(&report, commit, results) {
            Landing::Landed(events) => self.append(events, DriveStage::Then(DriveNext::Turn)),
            Landing::Undo(reason) => (
                self.at(DriveStage::Resetting { report, reason }),
                DriveMove::Reset { commit: before },
            ),
        }
    }

    fn loaded(self, next: DriveNext, state: &RunState, limits: &Limits) -> (r: (Driver, DriveMove))
        requires
            state.wf(),
            self.caps.wf(),
            self@.at(DriveStageModel::Loading(next@)).suits(state@),
        ensures
            (r.0@, r.1@) == self@.loaded(next@, state@, *limits),
            r.0.caps == self.caps,
    {
        match next {
            DriveNext::Open => {
                if state.status.is_terminal() {
                    (self.at(DriveStage::Loading(DriveNext::Leave)), DriveMove::Finished)
                } else {
                    self.mark(state, state.status, unfinished_attempts(state))
                }
            },
            DriveNext::Restart { status } => self.append(
                restart_events(state),
                DriveStage::Restarted { status },
            ),
            DriveNext::Turn => self.turn(state, limits),
            DriveNext::Merge { report, before } => {
                proof {
                    seen_map_dom(state.tasks@);
                }
                let message = match state.tasks.get(&report.task_id) {
                    Some(task) => merge_message(task.spec.key.as_str()),
                    None => {
                        assert(false);
                        String::new()
                    },
                };
                let branch = report.branch.clone();
                (
                    self.at(DriveStage::Merging { report, before }),
                    DriveMove::Merge { branch, message },
                )
            },
            DriveNext::Fail { report, reason } => {
                let why: Option<&str> = match &reason {
                    Some(text) => Some(text.as_str()),
                    None => None,
                };
                let events = handle_report(state, &report, why);
                self.append(events, DriveStage::Then(DriveNext::Turn))
            },
            DriveNext::Idle => {
                let (status, reason) = idle_outcome(state);
                let first: Vec<EventKind> = Vec::new();
                assert(views(first@) =~= Seq::<EventKindModel>::empty());
                self.load(DriveNext::End { status, reason, first })
            },
            DriveNext::End { status, reason, first } => self.append(
                finish_events(state, status, reason, first),
                DriveStage::Then(DriveNext::Leave),
            ),
            DriveNext::Leave => (
                self.at(DriveStage::Loading(DriveNext::Leave)),
                DriveMove::Finished,
            ),
        }
    }

    fn waited(self, input: DriveInput) -> (r: (Driver, DriveMove))
        requires
            self@.at(DriveStageModel::Waiting).awaits(input@),
        ensures
            (r.0@, r.1@) == self@.waited(input@),
            r.0.caps == self.caps,
    {
        match input {
            DriveInput::Ended(report) => {
                let one_less = Driver { running: self.running - 1, ..self };
                if is_verified(&report) {
                    (one_less.at(DriveStage::Before { report }), DriveMove::ReadHead)
                } else {
                    one_less.load(DriveNext::Fail { report, reason: None })
                }
            },
            DriveInput::Crashed { task_id, attempt_id, error } => {
                let one_less = Driver { running: self.running - 1, ..self };
                let report = crashed(task_id, attempt_id, error.as_str());
                let events = finished_event(attempt_id, &report.outcome, Usage::default());
                let key = Some(finished_key(attempt_id));
                (
                    one_less.at(DriveStage::Then(DriveNext::Fail { report, reason: None })),
                    DriveMove::Append { events, key },
                )
            },
            _ => self.load(DriveNext::Idle),
        }
    }

    fn merged(
        self,
        report: AttemptReport,
        before: String,
        r: Result<String, GitError>,
        limits: &Limits,
    ) -> (o: Result<(Driver, DriveMove), EngineError>)
        ensures
            match o {
                Ok(m) => self@.merged(report@, before@, seen_result(r), *limits) == Some(
                    (m.0@, m.1@),
                ) && m.0.caps == self.caps,
                Err(e) => self@.merged(report@, before@, seen_result(r), *limits) is None && (
                e matches EngineError::Git(g) && seen_result(r) == Err::<Seq<char>, _>(g@)),
            },
    {
        match r {
            Ok(commit) => if limits.verify_after_merge {
                Ok((self.at(DriveStage::Checking { report, before, commit }), DriveMove::Check))
            } else {
                let none: Vec<CheckResult> = Vec::new();
                assert(views(none@) =~= Seq::<CheckResultModel>::empty());
                Ok(self.judge(report, before, commit, &none))
            },
            Err(e) => match merge_failure(e) {
                Ok(reason) => Ok(self.unland(report, reason)),
                Err(e) => Err(EngineError::Git(e)),
            },
        }
    }

    fn reserve(
        self,
        state: &RunState,
        config: &Config,
        runtimes: &OrdSet<String>,
        head: String,
        attempt_id: AttemptId,
        workspace_id: WorkspaceId,
        left: Vec<TaskId>,
        share: Option<Usd>,
    ) -> (o: Result<(Driver, DriveMove), EngineError>)
        requires
            state.wf(),
            config.wf(),
            runtimes.wf(),
            left@.len() > 0,
            self@.at(DriveStageModel::Preparing { left: left@, share }).suits(state@),
        ensures
            ({
                let next = self@.reserve(
                    state@,
                    config@,
                    runtimes@,
                    head@,
                    attempt_id,
                    workspace_id,
                    left@,
                    share,
                );
                match o {
                    Ok(m) => next == Some((m.0@, m.1@)) && m.0.caps == self.caps,
                    Err(e) => next is None && unknown_runtime(
                        e,
                        config@.agent(state@.tasks[left@[0]].spec.role).runtime,
                        runtimes@,
                    ),
                }
            }),
    {
        let ghost all = left@;
        let mut left = left;
        let task_id = left.remove(0);
        assert(left@ =~= all.skip(1));
        let prepared = prepare_attempt(
            state,
            config,
            runtimes,
            task_id,
            attempt_id,
            workspace_id,
            self.dir.as_str(),
            head,
            share,
        );
        match prepared {
            Ok((ctx, events)) => Ok(
                self.append(events, DriveStage::Reserving { left, share, ctx }),
            ),
            Err(e) => Err(e),
        }
    }

    /// Whether a step can be made: the input answers the last move, and the state
    /// can be gone on with.
    pub fn can_step(&self, state: &RunState, input: &DriveInput) -> (b: bool)
        requires
            self.wf(),
            state.wf(),
        ensures
            b == (self@.awaits(input@) && self@.suits(state@)),
    {
        proof {
            seen_map_dom(state.tasks@);
        }
        match &self.stage {
            DriveStage::Loading(next) => matches!(input, DriveInput::Loaded) && match next {
                DriveNext::Turn => can_budget(state),
                DriveNext::Merge { report, .. } => state.tasks.contains_key(&report.task_id),
                _ => true,
            },
            DriveStage::Finding { .. } => matches!(input, DriveInput::Found { .. }),
            DriveStage::Preparing { left, .. } => matches!(input, DriveInput::Head(_))
                && match state.tasks.get(&left[0]) {
                Some(task) => task.attempts.len() < u32::MAX as usize
                    && state.checked_usage().is_some(),
                None => false,
            },
            DriveStage::Before { .. } => matches!(input, DriveInput::Head(_)),
            DriveStage::Waiting => match input {
                DriveInput::Ended(_) => self.running > 0,
                DriveInput::Crashed { .. } => self.running > 0,
                DriveInput::NoneLeft => self.running == 0,
                _ => false,
            },
            DriveStage::Merging { .. } => matches!(input, DriveInput::Merged(_)),
            DriveStage::Checking { .. } => matches!(input, DriveInput::Checked(_)),
            _ => matches!(input, DriveInput::Done),
        }
    }

    /// Makes the next move, from what came of the last one and from the state that
    /// was read last. `attempt_id` and `workspace_id` are for an attempt that is
    /// reserved.
    pub fn step(
        self,
        state: &RunState,
        config: &Config,
        runtimes: &OrdSet<String>,
        input: DriveInput,
        attempt_id: AttemptId,
        workspace_id: WorkspaceId,
    ) -> (r: Result<(Driver, DriveMove), EngineError>)
        requires
            self.wf(),
            state.wf(),
            config.wf(),
            runtimes.wf(),
            self@.awaits(input@),
            self@.suits(state@),
        ensures
            ({
                let next = self@.step(
                    state@,
                    config@,
                    runtimes@,
                    input@,
                    attempt_id,
                    workspace_id,
                );
                match r {
                    Ok((d, m)) => d.wf() && next == Some((d@, m@)),
                    Err(e) => next is None && self@.fails(state@, config@, runtimes@, input@, e),
                }
            }),
    {
        let Driver { stage, running, caps, dir } = self;
        let driver = Driver { stage: DriveStage::Waiting, running, caps, dir };
        let limits = &config.limits;
        match stage {
            DriveStage::Loading(next) => Ok(driver.loaded(next, state, limits)),
            DriveStage::Then(next) => Ok(driver.load(next)),
            DriveStage::Marking { status, left } => Ok(driver.mark(state, status, left)),
            DriveStage::Restarted { status } => Ok(
                (driver.at(DriveStage::Finding { status }), DriveMove::FindPlace),
            ),
            DriveStage::Finding { status } => match input {
                DriveInput::Found { worktrees, branch_exists } => {
                    let place = integration_place(state.id, &worktrees, branch_exists);
                    Ok((driver.at(DriveStage::Placed { status }), DriveMove::MakePlace(place)))
                },
                _ => {
                    assert(false);
                    Ok(driver.load(DriveNext::Leave))
                },
            },
            DriveStage::Placed { status } => Ok(
                driver.append(start_events(status), DriveStage::Then(DriveNext::Turn)),
            ),
            DriveStage::Preparing { left, share } => match input {
                DriveInput::Head(head) => driver.reserve(
                    state,
                    config,
                    runtimes,
                    head,
                    attempt_id,
                    workspace_id,
                    left,
                    share,
                ),
                _ => {
                    assert(false);
                    Ok(driver.load(DriveNext::Leave))
                },
            },
            DriveStage::Reserving { left, share, ctx } => {
                let mut driver = driver.at(DriveStage::Starting { left, share });
                driver.running = driver.running + 1;
                if let Some(cap) = share {
                    driver.caps.insert(ctx.attempt_id, cap);
                }
                Ok((driver, DriveMove::Start(ctx)))
            },
            DriveStage::Starting { left, share } => Ok(driver.start(left, share)),
            DriveStage::Waiting => Ok(driver.waited(input)),
            DriveStage::Before { report } => match input {
                DriveInput::Head(before) => Ok(driver.load(DriveNext::Merge { report, before })),
                _ => {
                    assert(false);
                    Ok(driver.load(DriveNext::Leave))
                },
            },
            DriveStage::Merging { report, before } => match input {
                DriveInput::Merged(merged) => driver.merged(report, before, merged, limits),
                _ => {
                    assert(false);
                    Ok(driver.load(DriveNext::Leave))
                },
            },
            DriveStage::Checking { report, before, commit } => match input {
                DriveInput::Checked(results) => {
                    let events = check_events(report.attempt_id, &results);
                    Ok(
                        driver.append(
                            events,
                            DriveStage::Judging { report, before, commit, results },
                        ),
                    )
                },
                _ => {
                    assert(false);
                    Ok(driver.load(DriveNext::Leave))
                },
            },
            DriveStage::Judging { report, before, commit, results } => Ok(
                driver.judge(report, before, commit, &results),
            ),
            DriveStage::Resetting { report, reason } => Ok(driver.unland(report, reason)),
        }
    }
}

impl Driver {
    /// Makes the next move, with fresh ids for an attempt that is reserved.
    pub fn advance(
        self,
        state: &RunState,
        config: &Config,
        runtimes: &OrdSet<String>,
        input: DriveInput,
    ) -> (r: Result<(Driver, DriveMove), EngineError>)
        requires
            self.wf(),
            state.wf(),
            config.wf(),
            runtimes.wf(),
            self@.awaits(input@),
            self@.suits(state@),
        ensures
            exists|attempt_id: AttemptId, workspace_id: WorkspaceId|
                {
                    let next = #[trigger] self@.step(
                        state@,
                        config@,
                        runtimes@,
                        input@,
                        attempt_id,
                        workspace_id,
                    );
                    &&& has_version(attempt_id.uuid as int, 7)
                    &&& has_version(workspace_id.uuid as int, 7)
                    &&& match r {
                        Ok((d, m)) => d.wf() && next == Some((d@, m@)),
                        Err(e) => next is None && self@.fails(
                            state@,
                            config@,
                            runtimes@,
                            input@,
                            e,
                        ),
                    }
                },
    {
        let attempt_id = AttemptId::new();
        let workspace_id = WorkspaceId::new();
        self.step(state, config, runtimes, input, attempt_id, workspace_id)
    }
}

/// Attempts that run, and those on their way to being started, never exceed the
/// number of agents that may run at once.
pub proof fn attempts_stay_within_slots(
    d: DriverModel,
    s: RunStateModel,
    config: ConfigModel,
    runtimes: Set<Seq<char>>,
    input: DriveInputModel,
    attempt_id: AttemptId,
    workspace_id: WorkspaceId,
)
    requires
        d.wf(),
        d.awaits(input),
        d.running + d.starting() <= slots(config.limits),
    ensures
        d.step(s, config, runtimes, input, attempt_id, workspace_id) matches Some((next, _))
            ==> next.wf() && next.running + next.starting() <= slots(config.limits),
{
}

/// No attempt is started before it is reserved: the events that reserve it are
/// recorded in the step before.
pub proof fn attempts_are_reserved_first(
    d: DriverModel,
    s: RunStateModel,
    config: ConfigModel,
    runtimes: Set<Seq<char>>,
    input: DriveInputModel,
    attempt_id: AttemptId,
    workspace_id: WorkspaceId,
)
    requires
        d.wf(),
        d.awaits(input),
    ensures
        d.step(s, config, runtimes, input, attempt_id, workspace_id) matches Some((next, m)) ==> {
            &&& m matches DriveMoveModel::Start(ctx) ==> (d.stage matches DriveStageModel::Reserving {
                ctx: reserved,
                ..
            } && reserved == ctx)
            &&& next.stage matches DriveStageModel::Reserving { ctx, .. } ==> m
                == (DriveMoveModel::Append { events: reservation(ctx, workspace_id), key: None })
        },
{
}

/// What an attempt may spend is remembered when it starts.
pub proof fn caps_are_remembered(
    d: DriverModel,
    s: RunStateModel,
    config: ConfigModel,
    runtimes: Set<Seq<char>>,
    input: DriveInputModel,
    attempt_id: AttemptId,
    workspace_id: WorkspaceId,
)
    requires
        d.wf(),
        d.awaits(input),
    ensures
        d.step(s, config, runtimes, input, attempt_id, workspace_id) matches Some((next, m)) ==> {
            next.caps == match m {
                DriveMoveModel::Start(ctx) => match ctx.max_budget_usd {
                    Some(cap) => d.caps.insert(ctx.attempt_id, cap),
                    None => d.caps,
                },
                _ => d.caps,
            }
        },
{
}

/// Attempts are settled one at a time, as in a queue: a branch is merged for the
/// attempt that is being settled, another one comes only after it, out of waiting,
/// and meanwhile nothing is started or waited for.
pub proof fn merges_queue_up(
    d: DriverModel,
    s: RunStateModel,
    config: ConfigModel,
    runtimes: Set<Seq<char>>,
    input: DriveInputModel,
    attempt_id: AttemptId,
    workspace_id: WorkspaceId,
)
    requires
        d.wf(),
        d.awaits(input),
    ensures
        d.step(s, config, runtimes, input, attempt_id, workspace_id) matches Some((next, m)) ==> {
            &&& m matches DriveMoveModel::Merge { branch, .. } ==> (d.settling() matches Some(report)
                && report.branch == branch && next.settling() == Some(report))
            &&& d.settling() is Some ==> {
                &&& next.settling() is None || next.settling() == d.settling()
                &&& !(m is Start) && !(m is Wait)
            }
            &&& d.settling() is None && next.settling() is Some ==> d.stage is Waiting
        },
{
}

/// A run that is over is left alone: nothing is recorded of it and nothing is done.
pub proof fn ended_runs_are_left_alone(
    d: DriverModel,
    s: RunStateModel,
    config: ConfigModel,
    runtimes: Set<Seq<char>>,
    attempt_id: AttemptId,
    workspace_id: WorkspaceId,
)
    requires
        d.stage == DriveStageModel::Loading(DriveNextModel::Open),
        s.status.terminal(),
    ensures
        d.step(s, config, runtimes, DriveInputModel::Loaded, attempt_id, workspace_id) matches Some(
            (_, m),
        ) && m is Finished,
{
}

/// A run that is over its budget starts nothing more: what runs is stopped, and
/// the run fails.
pub proof fn budgets_stop_runs(
    d: DriverModel,
    s: RunStateModel,
    config: ConfigModel,
    runtimes: Set<Seq<char>>,
    attempt_id: AttemptId,
    workspace_id: WorkspaceId,
)
    requires
        d.stage == DriveStageModel::Loading(DriveNextModel::Turn),
        s.spec.budget.crossed(Usage::sum_of(s.usages()), 0) is Some,
    ensures
        d.step(s, config, runtimes, DriveInputModel::Loaded, attempt_id, workspace_id) matches Some(
            (next, m),
        ) && m is StopAll && (next.stage matches DriveStageModel::Then(DriveNextModel::End {
            status,
            ..
        }) && status == RunStatus::Failed),
{
}

/// Work that succeeded goes through the queue: once its attempt ended, the head is
/// read, then its branch is merged, into nothing else than what was there before.
pub proof fn verified_work_is_merged(
    d: DriverModel,
    s: RunStateModel,
    config: ConfigModel,
    runtimes: Set<Seq<char>>,
    attempt_id: AttemptId,
    workspace_id: WorkspaceId,
    report: AttemptReportModel,
    head: Seq<char>,
)
    requires
        d.stage is Waiting,
        report.outcome is Succeeded,
    ensures
        d.step(
            s,
            config,
            runtimes,
            DriveInputModel::Ended(report),
            attempt_id,
            workspace_id,
        ) matches Some((e, m)) && m is ReadHead && e.running == d.running - 1 && {
            e.step(
                s,
                config,
                runtimes,
                DriveInputModel::Head(head),
                attempt_id,
                workspace_id,
            ) matches Some((f, n)) && n is Load && {
                f.step(
                    s,
                    config,
                    runtimes,
                    DriveInputModel::Loaded,
                    attempt_id,
                    workspace_id,
                ) matches Some((g, o)) && (o matches DriveMoveModel::Merge { branch, .. } && branch
                    == report.branch) && g.stage == (DriveStageModel::Merging {
                    report,
                    before: head,
                })
            }
        },
{
}

/// Work that did not succeed is never merged: the state is read and what follows the
/// failure is recorded, then tasks are looked for again.
pub proof fn failed_work_is_not_merged(
    d: DriverModel,
    s: RunStateModel,
    config: ConfigModel,
    runtimes: Set<Seq<char>>,
    attempt_id: AttemptId,
    workspace_id: WorkspaceId,
    report: AttemptReportModel,
)
    requires
        d.stage is Waiting,
        !(report.outcome is Succeeded),
    ensures
        d.step(
            s,
            config,
            runtimes,
            DriveInputModel::Ended(report),
            attempt_id,
            workspace_id,
        ) matches Some((e, m)) && m is Load && e.running == d.running - 1 && {
            e.step(
                s,
                config,
                runtimes,
                DriveInputModel::Loaded,
                attempt_id,
                workspace_id,
            ) matches Some((f, n)) && n == (DriveMoveModel::Append {
                events: report_kinds(s, report, None),
                key: None,
            }) && f.stage == DriveStageModel::Then(DriveNextModel::Turn)
        },
{
}

/// What was merged stays only where the checks of the merged code passed, or where none
/// are asked for: then its task is done. Otherwise the branch goes back to the commit
/// that it was at before, and that is told.
pub proof fn merged_work_is_checked(
    d: DriverModel,
    s: RunStateModel,
    config: ConfigModel,
    runtimes: Set<Seq<char>>,
    attempt_id: AttemptId,
    workspace_id: WorkspaceId,
    report: AttemptReportModel,
    before: Seq<char>,
    commit: Seq<char>,
    results: Seq<CheckResultModel>,
)
    requires
        d.stage == (DriveStageModel::Merging { report, before }),
    ensures
        ({
            let merged = d.step(
                s,
                config,
                runtimes,
                DriveInputModel::Merged(Ok(commit)),
                attempt_id,
                workspace_id,
            );
            let done = EventKindModel::TaskStatusChanged {
                task_id: report.task_id,
                status: TaskStatus::Done,
                reason: None,
            };
            let checked = d.at(DriveStageModel::Judging { report, before, commit, results });
            let judged = checked.step(
                s,
                config,
                runtimes,
                DriveInputModel::Done,
                attempt_id,
                workspace_id,
            );
            &&& config.limits.verify_after_merge ==> (merged matches Some((e, m)) && m is Check)
            &&& !config.limits.verify_after_merge ==> (merged matches Some((_, m)) && (m matches
                DriveMoveModel::Append { events, .. } && events.contains(done)))
            &&& (forall|i: int| 0 <= i < results.len() ==> (#[trigger] results[i]).passed) ==> (
            judged matches Some((_, m)) && (m matches DriveMoveModel::Append { events, .. }
                && events.contains(done) && events[0] == (EventKindModel::BranchIntegrated {
                task_id: report.task_id,
                branch: report.branch,
                commit,
            })))
            &&& (exists|i: int| 0 <= i < results.len() && !(#[trigger] results[i]).passed) ==> (
            judged matches Some((e, m)) && m == (DriveMoveModel::Reset { commit: before })
                && e.settling() == Some(report))
        }),
{
    let events = landed_kinds(report, commit);
    assert(events[1] == (EventKindModel::TaskStatusChanged {
        task_id: report.task_id,
        status: TaskStatus::Done,
        reason: None,
    }));
}

/// Work that cannot land is tried again: after a conflict, and after a merge that was
/// undone, the failed integration is recorded with its reason, and then what follows the
/// failure.
pub proof fn unlanded_work_is_tried_again(
    d: DriverModel,
    s: RunStateModel,
    config: ConfigModel,
    runtimes: Set<Seq<char>>,
    attempt_id: AttemptId,
    workspace_id: WorkspaceId,
    report: AttemptReportModel,
    before: Seq<char>,
    branch: Seq<char>,
    files: Seq<Seq<char>>,
    reason: Seq<char>,
)
    ensures
        d.at(DriveStageModel::Merging { report, before }).step(
            s,
            config,
            runtimes,
            DriveInputModel::Merged(Err(GitErrorModel::MergeConflict { branch, files })),
            attempt_id,
            workspace_id,
        ) matches Some((e, m)) && (m matches DriveMoveModel::Append { events, .. } && events.len()
            == 1 && (events[0] matches EventKindModel::IntegrationFailed {
            task_id,
            attempt_id: a,
            reason: why,
        } && task_id == report.task_id && a == report.attempt_id && crate::text::finishes(
            why,
            join(files, ", "@),
        ) && e.stage == DriveStageModel::Then(
            DriveNextModel::Fail { report, reason: Some(why) },
        ))),
        d.at(DriveStageModel::Resetting { report, reason }).step(
            s,
            config,
            runtimes,
            DriveInputModel::Done,
            attempt_id,
            workspace_id,
        ) matches Some((e, m)) && (m matches DriveMoveModel::Append { events, .. } && events
            == seq![
            EventKindModel::IntegrationFailed {
                task_id: report.task_id,
                attempt_id: report.attempt_id,
                reason,
            },
        ]) && e.stage == DriveStageModel::Then(
            DriveNextModel::Fail { report, reason: Some(reason) },
        ),
        d.at(
            DriveStageModel::Loading(DriveNextModel::Fail { report, reason: Some(reason) }),
        ).step(s, config, runtimes, DriveInputModel::Loaded, attempt_id, workspace_id) matches Some(
            (_, m),
        ) && m == (DriveMoveModel::Append {
            events: report_kinds(s, report, Some(reason)),
            key: None,
        }),
{
    let why = "merge conflict in "@ + join(files, ", "@);
    assert(why.skip(why.len() - join(files, ", "@).len()) =~= join(files, ", "@));
}

/// An attempt that crashed has failed, is recorded as such once, and is settled like any
/// other that failed.
pub proof fn crashes_are_failures(
    d: DriverModel,
    s: RunStateModel,
    config: ConfigModel,
    runtimes: Set<Seq<char>>,
    attempt_id: AttemptId,
    workspace_id: WorkspaceId,
    task_id: TaskId,
    id: AttemptId,
    error: Seq<char>,
)
    requires
        d.stage is Waiting,
    ensures
        d.step(
            s,
            config,
            runtimes,
            DriveInputModel::Crashed { task_id, attempt_id: id, error },
            attempt_id,
            workspace_id,
        ) matches Some((e, m)) && (m matches DriveMoveModel::Append { events, key } && key == Some(
            end_key(id),
        ) && events.len() == 1 && (events[0] matches EventKindModel::AttemptFinished {
            attempt_id: a,
            outcome,
            ..
        } && a == id && (outcome matches AttemptOutcomeModel::Failed { kind, .. } && kind
            == FailureKind::Infrastructure) && e.stage == DriveStageModel::Then(
            DriveNextModel::Fail {
                report: AttemptReportModel { task_id, attempt_id: id, branch: Seq::empty(), outcome },
                reason: None,
            },
        ))) && e.running == d.running - 1,
{
}

/// Attempts are prepared one after another, on the head that was read, and only where
/// the runtime of the task's role is known; each is started with what was reserved.
pub proof fn attempts_start_on_the_head(
    d: DriverModel,
    s: RunStateModel,
    config: ConfigModel,
    runtimes: Set<Seq<char>>,
    attempt_id: AttemptId,
    workspace_id: WorkspaceId,
    left: Seq<TaskId>,
    share: Option<Usd>,
    head: Seq<char>,
)
    requires
        d.stage == (DriveStageModel::Preparing { left, share }),
        left.len() > 0,
    ensures
        ({
            let known = runtimes.contains(config.agent(s.tasks[left[0]].spec.role).runtime);
            let next = d.step(
                s,
                config,
                runtimes,
                DriveInputModel::Head(head),
                attempt_id,
                workspace_id,
            );
            &&& !known ==> next is None
            &&& known ==> (next matches Some((e, _)) && (e.stage matches
                DriveStageModel::Reserving { left: rest, share: kept, ctx } && rest == left.skip(1)
                && kept == share && ctx.task_id == left[0] && ctx.attempt_id == attempt_id
                && ctx.base_sha == head && ctx.max_budget_usd == share))
        }),
{
}

/// A run that nothing is left to do of ends as its tasks ended, once no attempt runs; a
/// run over its budget ends failed; and once the end is recorded, it is left.
pub proof fn runs_end_as_their_tasks(
    d: DriverModel,
    s: RunStateModel,
    config: ConfigModel,
    runtimes: Set<Seq<char>>,
    attempt_id: AttemptId,
    workspace_id: WorkspaceId,
    status: RunStatus,
    reason: Option<Seq<char>>,
    first: Seq<EventKindModel>,
)
    requires
        s.tasks.dom() == s.task_order().to_set(),
    ensures
        d.at(DriveStageModel::Waiting).step(
            s,
            config,
            runtimes,
            DriveInputModel::NoneLeft,
            attempt_id,
            workspace_id,
        ) == Some(
            (d.at(DriveStageModel::Loading(DriveNextModel::Idle)), DriveMoveModel::Load),
        ),
        d.at(DriveStageModel::Loading(DriveNextModel::Idle)).step(
            s,
            config,
            runtimes,
            DriveInputModel::Loaded,
            attempt_id,
            workspace_id,
        ) matches Some((e, m)) && m is Load && (e.stage matches DriveStageModel::Loading(
            DriveNextModel::End { status: end, .. },
        ) && (end == RunStatus::Succeeded || end == RunStatus::Failed) && (end
            == RunStatus::Succeeded <==> forall|id: TaskId| #[trigger]
            s.tasks.dom().contains(id) ==> s.tasks[id].status == TaskStatus::Done)),
        d.at(DriveStageModel::Loading(DriveNextModel::End { status, reason, first })).step(
            s,
            config,
            runtimes,
            DriveInputModel::Loaded,
            attempt_id,
            workspace_id,
        ) matches Some((e, m)) && m == (DriveMoveModel::Append {
            events: finish_kinds(s, status, reason, first),
            key: None,
        }) && e.stage == DriveStageModel::Then(DriveNextModel::Leave),
        d.at(DriveStageModel::Then(DriveNextModel::Leave)).step(
            s,
            config,
            runtimes,
            DriveInputModel::Done,
            attempt_id,
            workspace_id,
        ) == Some(
            (d.at(DriveStageModel::Loading(DriveNextModel::Leave)), DriveMoveModel::Load),
        ),
        d.at(DriveStageModel::Loading(DriveNextModel::Leave)).step(
            s,
            config,
            runtimes,
            DriveInputModel::Loaded,
            attempt_id,
            workspace_id,
        ) matches Some((_, m)) && m is Finished,
{
    crate::schedule::outcome_is_fair(s);
    if forall|id: TaskId| #[trigger]
        s.tasks.dom().contains(id) ==> s.tasks[id].status == TaskStatus::Done {
        assert(crate::schedule::all_finished(s));
    }
}

/// As many tasks are started as can be and as there is room for: of those that are
/// ready, the first ones, up to the slots that no attempt takes.
pub proof fn free_slots_are_used(
    d: DriverModel,
    s: RunStateModel,
    config: ConfigModel,
    runtimes: Set<Seq<char>>,
    attempt_id: AttemptId,
    workspace_id: WorkspaceId,
)
    requires
        d.stage == DriveStageModel::Loading(DriveNextModel::Turn),
        s.spec.budget.crossed(Usage::sum_of(s.usages()), 0) is None,
        0 <= d.running <= slots(config.limits),
    ensures
        ({
            let free = slots(config.limits) - d.running;
            let next = d.step(
                s,
                config,
                runtimes,
                DriveInputModel::Loaded,
                attempt_id,
                workspace_id,
            );
            &&& free == 0 || s.ready().len() == 0 ==> (next matches Some((_, m)) && m is Wait)
            &&& free > 0 && s.ready().len() > 0 ==> (next matches Some((e, m)) && m is ReadHead && (
            e.stage matches DriveStageModel::Preparing { left, .. } && left == s.ready().take(
                if free < s.ready().len() {
                    free
                } else {
                    s.ready().len() as int
                },
            )))
        }),
{
    let all = s.ready();
    assert(all.take(all.len() as int) =~= all);
}

/// A run that is taken up again is put in order first: its unfinished attempts are
/// marked as interrupted, each under the key of its end, so that none is marked twice;
/// then its tasks are settled, its worktree is found or made, and it runs.
pub proof fn restarts_put_runs_in_order(
    d: DriverModel,
    s: RunStateModel,
    config: ConfigModel,
    runtimes: Set<Seq<char>>,
    attempt_id: AttemptId,
    workspace_id: WorkspaceId,
    status: RunStatus,
    left: Seq<AttemptId>,
    worktrees: Seq<WorktreeInfoModel>,
    branch_exists: bool,
)
    ensures
        !s.status.terminal() && s.unfinished().len() > 0 && s.attempts.dom().contains(
            s.unfinished()[0],
        ) ==> (d.at(DriveStageModel::Loading(DriveNextModel::Open)).step(
            s,
            config,
            runtimes,
            DriveInputModel::Loaded,
            attempt_id,
            workspace_id,
        ) matches Some((e, m)) && m == (DriveMoveModel::Append {
            events: seq![interrupted_kind(s, s.unfinished()[0])],
            key: Some("attempt-finished:"@ + AttemptId::label(s.unfinished()[0])),
        }) && e.stage == (DriveStageModel::Marking {
            status: s.status,
            left: s.unfinished().skip(1),
        })),
        left.len() > 0 && s.attempts.dom().contains(left[0]) ==> (d.at(
            DriveStageModel::Marking { status, left },
        ).step(s, config, runtimes, DriveInputModel::Done, attempt_id, workspace_id) matches Some(
            (e, m),
        ) && m == (DriveMoveModel::Append {
            events: seq![interrupted_kind(s, left[0])],
            key: Some("attempt-finished:"@ + AttemptId::label(left[0])),
        }) && e.stage == (DriveStageModel::Marking { status, left: left.skip(1) })),
        d.at(DriveStageModel::Loading(DriveNextModel::Restart { status })).step(
            s,
            config,
            runtimes,
            DriveInputModel::Loaded,
            attempt_id,
            workspace_id,
        ) matches Some((_, m)) && m == (DriveMoveModel::Append {
            events: restart_kinds(s, s.tasks_at(TaskStatus::Running)),
            key: None,
        }),
        d.at(DriveStageModel::Finding { status }).step(
            s,
            config,
            runtimes,
            DriveInputModel::Found { worktrees, branch_exists },
            attempt_id,
            workspace_id,
        ) matches Some((_, m)) && (m matches DriveMoveModel::MakePlace(place) && (place is Ready
            <==> exists|i: int|
            0 <= i < worktrees.len() && (#[trigger] worktrees[i]).branch == Some(
                crate::engine::integration_branch_text(s.id),
            )) && (place is Attach ==> branch_exists) && (place is Create ==> !branch_exists)),
{
}

/// What is left of a limited budget is shared out evenly: the attempts that start together
/// get no more than is left, and less than one unit each stays behind. Where nothing is
/// left there is nothing to spend, and where there is no limit there is no share.
pub proof fn shares_are_even(s: RunStateModel, caps: Map<AttemptId, Usd>, starting: int)
    requires
        starting > 0,
    ensures
        share_of(s, caps, starting) is Some <==> s.spec.budget.max_cost_usd is Some,
        s.spec.budget.max_cost_usd matches Some(limit) ==> {
            let share = share_of(s, caps, starting)->0.nanos as int;
            let left = limit.nanos - total(claims(s, caps));
            &&& share >= 0
            &&& left <= 0 ==> share == 0
            &&& left > 0 ==> starting * share <= left
            &&& 0 < left <= i64::MAX ==> left < starting * (share + 1)
        },
{
    if let Some(limit) = s.spec.budget.max_cost_usd {
        let left = left_of(limit.nanos as int, total(claims(s, caps)));
        let q = left / starting;
        assert(0 <= q <= left && starting * q <= left && left < starting * (q + 1)) by (
            nonlinear_arith)
            requires
                starting > 0,
                left >= 0,
                q == left / starting,
        ;
    }
}

/// A run that has spent more than it may starts nothing more: all its attempts are
/// stopped, and it ends as failed, with what was crossed on record.
pub proof fn overspent_runs_stop(
    d: DriverModel,
    s: RunStateModel,
    config: ConfigModel,
    runtimes: Set<Seq<char>>,
    attempt_id: AttemptId,
    workspace_id: WorkspaceId,
)
    requires
        d.stage == DriveStageModel::Loading(DriveNextModel::Turn),
        s.spec.budget.crossed(Usage::sum_of(s.usages()), 0) is Some,
    ensures
        d.step(s, config, runtimes, DriveInputModel::Loaded, attempt_id, workspace_id) matches Some(
            (e, m),
        ) && m is StopAll && (e.stage matches DriveStageModel::Then(
            DriveNextModel::End { status, reason, first },
        ) && status == RunStatus::Failed && reason is Some && first.len() == 1 && (
        first[0] matches EventKindModel::BudgetExceeded { exceeded } && s.spec.budget.crossed(
            Usage::sum_of(s.usages()),
            0,
        ) == Some(exceeded))),
{
}

/// Merged code that breaks checks is taken back for a reason that tells the command and the
/// output of each of them.
pub proof fn broken_merges_say_why(results: Seq<CheckResultModel>, i: int)
    requires
        0 <= i < results.len(),
        !results[i].passed,
    ensures
        holds(broken_reason(results), results[i].command),
        holds(broken_reason(results), results[i].output_tail),
{
    let p = |r: CheckResultModel| !r.passed;
    let bad = results.filter(p);
    let texts = broken_texts(results);
    let c = results[i];
    results.lemma_filter_contains(p, i);
    let k = choose|k: int| 0 <= k < bad.len() && bad[k] == c;
    let text = crate::engine::broken_text(c);
    assert(texts[k] == text);
    joined_parts_are_held(texts, "\n"@, k);
    four_are_held("`"@, c.command, "`:\n"@, c.output_tail);
    let list = join(texts, "\n"@);
    let why = broken_reason(results);
    two_are_held("checks failed on the integrated code: "@, list);
    held_within(why, list, text);
    held_within(why, text, c.command);
    held_within(why, text, c.output_tail);
}

} // verus!
