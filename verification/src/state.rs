//! Folding a run's event log into its current state.
//!
//! [`RunState::apply`] is the single place where events turn into state. The
//! engine uses it to decide what to do next, the server uses it to answer
//! queries, and replaying the log through it after a crash reproduces exactly
//! the state before the crash.

use vstd::prelude::*;

use crate::budget::{no_usage, Usage};
use crate::events::{AgentEvent, AgentEventModel, Event, EventKind, EventKindModel, EventModel};
use crate::graph::{available, DepGraph};
use crate::ids::{ApprovalId, AttemptId, RunId, TaskId, WorkspaceId};
use crate::model::{
    AgentRef, AgentRefModel, ApprovalKind, AttemptOutcome, AttemptOutcomeModel, CheckResult,
    CheckResultModel, Decision, Finding, FindingModel, ReviewVerdict, RunSpec, RunSpecModel,
    RunStatus, TaskSpec, TaskSpecModel, TaskStatus,
};
use crate::order::{in_order, models, Key, OrdMap, OrdSet};
use crate::text::{
    decimal, duplicate_all, duplicate_opt, seen, u64_text, views, views_push, Duplicate,
};

verus! {

fn copy_ids(v: &Vec<AttemptId>) -> (r: Vec<AttemptId>)
    ensures
        r@ == v@,
{
    let mut r: Vec<AttemptId> = Vec::new();
    let mut i: usize = 0;
    while i < v.len()
        invariant
            i <= v.len(),
            r@ == v@.take(i as int),
        decreases v.len() - i,
    {
        r.push(v[i]);
        assert(r@ =~= v@.take(i + 1));
        i += 1;
    }
    assert(r@ =~= v@);
    r
}

/// Why an event cannot be applied.
#[allow(inconsistent_fields)]
#[derive(Debug, PartialEq, Eq)]
pub enum ApplyError {
    /// The first event is of this type, not `run_created`.
    NotCreated(&'static str),
    AlreadyCreated,
    WrongRun { expected: RunId, got: RunId },
    OutOfOrder { last: u64, got: u64 },
    UnknownTask(TaskId),
    DuplicateTaskKey(String),
    UnknownAttempt(AttemptId),
    UnknownApproval(ApprovalId),
    AlreadyResolved(ApprovalId),
}

/// What a value of type `ApplyError` stands for.
#[allow(inconsistent_fields)]
pub enum ApplyErrorModel {
    NotCreated(Seq<char>),
    AlreadyCreated,
    WrongRun { expected: RunId, got: RunId },
    OutOfOrder { last: u64, got: u64 },
    UnknownTask(TaskId),
    DuplicateTaskKey(Seq<char>),
    UnknownAttempt(AttemptId),
    UnknownApproval(ApprovalId),
    AlreadyResolved(ApprovalId),
}

impl View for ApplyError {
    type V = ApplyErrorModel;

    open spec fn view(&self) -> ApplyErrorModel {
        match self {
            ApplyError::NotCreated(name) => ApplyErrorModel::NotCreated(name@),
            ApplyError::AlreadyCreated => ApplyErrorModel::AlreadyCreated,
            ApplyError::WrongRun { expected, got } => ApplyErrorModel::WrongRun {
                expected: *expected,
                got: *got,
            },
            ApplyError::OutOfOrder { last, got } => ApplyErrorModel::OutOfOrder {
                last: *last,
                got: *got,
            },
            ApplyError::UnknownTask(id) => ApplyErrorModel::UnknownTask(*id),
            ApplyError::DuplicateTaskKey(key) => ApplyErrorModel::DuplicateTaskKey(key@),
            ApplyError::UnknownAttempt(id) => ApplyErrorModel::UnknownAttempt(*id),
            ApplyError::UnknownApproval(id) => ApplyErrorModel::UnknownApproval(*id),
            ApplyError::AlreadyResolved(id) => ApplyErrorModel::AlreadyResolved(*id),
        }
    }
}

impl ApplyErrorModel {
    pub open spec fn message(self) -> Seq<char> {
        match self {
            ApplyErrorModel::NotCreated(name) =>
                "the first event of a run must be `run_created`, got `"@ + name + "`"@,
            ApplyErrorModel::AlreadyCreated => "run already created"@,
            ApplyErrorModel::WrongRun { expected, got } => "event for run "@ + RunId::label(got)
                + " applied to run "@ + RunId::label(expected),
            ApplyErrorModel::OutOfOrder { last, got } => "event seq "@ + decimal(got as int)
                + " is not after "@ + decimal(last as int),
            ApplyErrorModel::UnknownTask(id) => "unknown task "@ + TaskId::label(id),
            ApplyErrorModel::DuplicateTaskKey(key) => "task key `"@ + key + "` is already used"@,
            ApplyErrorModel::UnknownAttempt(id) => "unknown attempt "@ + AttemptId::label(id),
            ApplyErrorModel::UnknownApproval(id) => "unknown approval "@ + ApprovalId::label(id),
            ApplyErrorModel::AlreadyResolved(id) => "approval "@ + ApprovalId::label(id)
                + " is already resolved"@,
        }
    }
}

impl ApplyError {
    /// The error, in words.
    pub fn message(&self) -> (r: String)
        ensures
            r@ == self@.message(),
    {
        match self {
            ApplyError::NotCreated(name) => {
                let mut r = "the first event of a run must be `run_created`, got `".to_owned();
                r.append(name);
                r.append("`");
                r
            },
            ApplyError::AlreadyCreated => "run already created".to_owned(),
            ApplyError::WrongRun { expected, got } => {
                let mut r = "event for run ".to_owned();
                r.append(got.to_text().as_str());
                r.append(" applied to run ");
                r.append(expected.to_text().as_str());
                r
            },
            ApplyError::OutOfOrder { last, got } => {
                let mut r = "event seq ".to_owned();
                r.append(u64_text(*got).as_str());
                r.append(" is not after ");
                r.append(u64_text(*last).as_str());
                r
            },
            ApplyError::UnknownTask(id) => {
                let mut r = "unknown task ".to_owned();
                r.append(id.to_text().as_str());
                r
            },
            ApplyError::DuplicateTaskKey(key) => {
                let mut r = "task key `".to_owned();
                r.append(key.as_str());
                r.append("` is already used");
                r
            },
            ApplyError::UnknownAttempt(id) => {
                let mut r = "unknown attempt ".to_owned();
                r.append(id.to_text().as_str());
                r
            },
            ApplyError::UnknownApproval(id) => {
                let mut r = "unknown approval ".to_owned();
                r.append(id.to_text().as_str());
                r
            },
            ApplyError::AlreadyResolved(id) => {
                let mut r = "approval ".to_owned();
                r.append(id.to_text().as_str());
                r.append(" is already resolved");
                r
            },
        }
    }
}

/// The current state of a task.
#[derive(Debug, PartialEq)]
pub struct TaskState {
    pub id: TaskId,
    pub spec: TaskSpec,
    pub status: TaskStatus,
    pub status_reason: Option<String>,
    pub attempts: Vec<AttemptId>,
    /// Commit on the integration branch once the task's work has landed.
    pub integrated_commit: Option<String>,
    /// Why the last attempt's verified work could not be integrated.
    pub last_integration_error: Option<String>,
}

/// What a value of type `TaskState` stands for.
#[verifier::ext_equal]
pub struct TaskStateModel {
    pub id: TaskId,
    pub spec: TaskSpecModel,
    pub status: TaskStatus,
    pub status_reason: Option<Seq<char>>,
    pub attempts: Seq<AttemptId>,
    pub integrated_commit: Option<Seq<char>>,
    pub last_integration_error: Option<Seq<char>>,
}

impl View for TaskState {
    type V = TaskStateModel;

    open spec fn view(&self) -> TaskStateModel {
        TaskStateModel {
            id: self.id,
            spec: self.spec@,
            status: self.status,
            status_reason: seen(self.status_reason),
            attempts: self.attempts@,
            integrated_commit: seen(self.integrated_commit),
            last_integration_error: seen(self.last_integration_error),
        }
    }
}

impl Duplicate for TaskState {
    fn duplicate(&self) -> (r: TaskState) {
        TaskState {
            id: self.id,
            spec: self.spec.duplicate(),
            status: self.status,
            status_reason: duplicate_opt(&self.status_reason),
            attempts: copy_ids(&self.attempts),
            integrated_commit: duplicate_opt(&self.integrated_commit),
            last_integration_error: duplicate_opt(&self.last_integration_error),
        }
    }
}

impl Clone for TaskState {
    fn clone(&self) -> (r: TaskState)
        ensures
            r@ == self@,
    {
        self.duplicate()
    }
}

/// A review of an attempt.
#[derive(Debug, PartialEq)]
pub struct Review {
    pub reviewer: AgentRef,
    pub verdict: ReviewVerdict,
    pub findings: Vec<Finding>,
}

/// What a value of type `Review` stands for.
#[verifier::ext_equal]
pub struct ReviewModel {
    pub reviewer: AgentRefModel,
    pub verdict: ReviewVerdict,
    pub findings: Seq<FindingModel>,
}

impl View for Review {
    type V = ReviewModel;

    open spec fn view(&self) -> ReviewModel {
        ReviewModel {
            reviewer: self.reviewer@,
            verdict: self.verdict,
            findings: views(self.findings@),
        }
    }
}

impl Duplicate for Review {
    fn duplicate(&self) -> (r: Review) {
        Review {
            reviewer: self.reviewer.duplicate(),
            verdict: self.verdict,
            findings: duplicate_all(&self.findings),
        }
    }
}

impl Clone for Review {
    fn clone(&self) -> (r: Review)
        ensures
            r@ == self@,
    {
        self.duplicate()
    }
}

/// The current state of an attempt.
#[derive(Debug, PartialEq)]
pub struct AttemptState {
    pub id: AttemptId,
    pub task_id: TaskId,
    pub number: u32,
    pub agent: AgentRef,
    pub workspace_id: WorkspaceId,
    pub branch: String,
    /// The runtime's session id, once known (used to resume the session).
    pub session_id: Option<String>,
    pub started_at_ms: i64,
    pub finished_at_ms: Option<i64>,
    pub outcome: Option<AttemptOutcome>,
    /// Latest cumulative usage reported for this attempt.
    pub usage: Usage,
    pub checks: Vec<CheckResult>,
    pub reviews: Vec<Review>,
    /// Number of agent activity events seen (the events themselves stay in
    /// the log; the UI pages through them).
    pub activity_count: u64,
}

/// What a value of type `AttemptState` stands for.
#[verifier::ext_equal]
pub struct AttemptStateModel {
    pub id: AttemptId,
    pub task_id: TaskId,
    pub number: u32,
    pub agent: AgentRefModel,
    pub workspace_id: WorkspaceId,
    pub branch: Seq<char>,
    pub session_id: Option<Seq<char>>,
    pub started_at_ms: i64,
    pub finished_at_ms: Option<i64>,
    pub outcome: Option<AttemptOutcomeModel>,
    pub usage: Usage,
    pub checks: Seq<CheckResultModel>,
    pub reviews: Seq<ReviewModel>,
    pub activity_count: u64,
}

impl View for AttemptState {
    type V = AttemptStateModel;

    open spec fn view(&self) -> AttemptStateModel {
        AttemptStateModel {
            id: self.id,
            task_id: self.task_id,
            number: self.number,
            agent: self.agent@,
            workspace_id: self.workspace_id,
            branch: self.branch@,
            session_id: seen(self.session_id),
            started_at_ms: self.started_at_ms,
            finished_at_ms: self.finished_at_ms,
            outcome: seen(self.outcome),
            usage: self.usage,
            checks: views(self.checks@),
            reviews: views(self.reviews@),
            activity_count: self.activity_count,
        }
    }
}

impl Duplicate for AttemptState {
    fn duplicate(&self) -> (r: AttemptState) {
        AttemptState {
            id: self.id,
            task_id: self.task_id,
            number: self.number,
            agent: self.agent.duplicate(),
            workspace_id: self.workspace_id,
            branch: self.branch.clone(),
            session_id: duplicate_opt(&self.session_id),
            started_at_ms: self.started_at_ms,
            finished_at_ms: self.finished_at_ms,
            outcome: duplicate_opt(&self.outcome),
            usage: self.usage,
            checks: duplicate_all(&self.checks),
            reviews: duplicate_all(&self.reviews),
            activity_count: self.activity_count,
        }
    }
}

impl Clone for AttemptState {
    fn clone(&self) -> (r: AttemptState)
        ensures
            r@ == self@,
    {
        self.duplicate()
    }
}

impl AttemptState {
    pub fn is_finished(&self) -> (b: bool)
        ensures
            b == (self@.outcome is Some),
    {
        self.outcome.is_some()
    }
}

/// The answer to an approval.
#[derive(Debug, PartialEq)]
pub struct Resolution {
    pub decision: Decision,
    pub by: String,
    pub comment: Option<String>,
    pub at_ms: i64,
}

/// What a value of type `Resolution` stands for.
#[verifier::ext_equal]
pub struct ResolutionModel {
    pub decision: Decision,
    pub by: Seq<char>,
    pub comment: Option<Seq<char>>,
    pub at_ms: i64,
}

impl View for Resolution {
    type V = ResolutionModel;

    open spec fn view(&self) -> ResolutionModel {
        ResolutionModel {
            decision: self.decision,
            by: self.by@,
            comment: seen(self.comment),
            at_ms: self.at_ms,
        }
    }
}

impl Duplicate for Resolution {
    fn duplicate(&self) -> (r: Resolution) {
        Resolution {
            decision: self.decision,
            by: self.by.clone(),
            comment: duplicate_opt(&self.comment),
            at_ms: self.at_ms,
        }
    }
}

impl Clone for Resolution {
    fn clone(&self) -> (r: Resolution)
        ensures
            r@ == self@,
    {
        self.duplicate()
    }
}

/// The current state of an approval.
#[derive(Debug, PartialEq)]
pub struct ApprovalState {
    pub id: ApprovalId,
    pub kind: ApprovalKind,
    pub title: String,
    pub details: String,
    pub task_id: Option<TaskId>,
    pub requested_at_ms: i64,
    pub resolution: Option<Resolution>,
}

/// What a value of type `ApprovalState` stands for.
#[verifier::ext_equal]
pub struct ApprovalStateModel {
    pub id: ApprovalId,
    pub kind: ApprovalKind,
    pub title: Seq<char>,
    pub details: Seq<char>,
    pub task_id: Option<TaskId>,
    pub requested_at_ms: i64,
    pub resolution: Option<ResolutionModel>,
}

impl View for ApprovalState {
    type V = ApprovalStateModel;

    open spec fn view(&self) -> ApprovalStateModel {
        ApprovalStateModel {
            id: self.id,
            kind: self.kind,
            title: self.title@,
            details: self.details@,
            task_id: self.task_id,
            requested_at_ms: self.requested_at_ms,
            resolution: seen(self.resolution),
        }
    }
}

impl Duplicate for ApprovalState {
    fn duplicate(&self) -> (r: ApprovalState) {
        ApprovalState {
            id: self.id,
            kind: self.kind,
            title: self.title.clone(),
            details: self.details.clone(),
            task_id: self.task_id,
            requested_at_ms: self.requested_at_ms,
            resolution: duplicate_opt(&self.resolution),
        }
    }
}

impl Clone for ApprovalState {
    fn clone(&self) -> (r: ApprovalState)
        ensures
            r@ == self@,
    {
        self.duplicate()
    }
}

/// A pull request for the run.
#[derive(Debug, PartialEq)]
pub struct PullRequest {
    pub url: String,
    pub number: Option<u64>,
}

/// What a value of type `PullRequest` stands for.
#[verifier::ext_equal]
pub struct PullRequestModel {
    pub url: Seq<char>,
    pub number: Option<u64>,
}

impl View for PullRequest {
    type V = PullRequestModel;

    open spec fn view(&self) -> PullRequestModel {
        PullRequestModel {
            url: self.url@,
            number: self.number,
        }
    }
}

impl Duplicate for PullRequest {
    fn duplicate(&self) -> (r: PullRequest) {
        PullRequest {
            url: self.url.clone(),
            number: self.number,
        }
    }
}

impl Clone for PullRequest {
    fn clone(&self) -> (r: PullRequest)
        ensures
            r@ == self@,
    {
        self.duplicate()
    }
}

/// The current state of one run.
#[derive(Debug, PartialEq)]
pub struct RunState {
    pub id: RunId,
    pub spec: RunSpec,
    pub status: RunStatus,
    pub stage: Option<String>,
    pub status_reason: Option<String>,
    pub plan_summary: Option<String>,
    pub tasks: OrdMap<TaskId, TaskState>,
    pub attempts: OrdMap<AttemptId, AttemptState>,
    pub approvals: OrdMap<ApprovalId, ApprovalState>,
    pub pull_request: Option<PullRequest>,
    pub created_at_ms: i64,
    pub updated_at_ms: i64,
    /// Sequence number of the last event applied.
    pub last_seq: u64,
    /// Which task has a key.
    pub task_keys: OrdMap<String, TaskId>,
}

/// What a value of type `RunState` stands for.
#[verifier::ext_equal]
pub struct RunStateModel {
    pub id: RunId,
    pub spec: RunSpecModel,
    pub status: RunStatus,
    pub stage: Option<Seq<char>>,
    pub status_reason: Option<Seq<char>>,
    pub plan_summary: Option<Seq<char>>,
    pub tasks: Map<TaskId, TaskStateModel>,
    pub attempts: Map<AttemptId, AttemptStateModel>,
    pub approvals: Map<ApprovalId, ApprovalStateModel>,
    pub pull_request: Option<PullRequestModel>,
    pub created_at_ms: i64,
    pub updated_at_ms: i64,
    pub last_seq: u64,
    pub task_keys: Map<Seq<char>, TaskId>,
}

/// What the values of a map stand for.
pub open spec fn seen_map<K, T: View>(m: Map<K, T>) -> Map<K, T::V> {
    Map::new(|k: K| m.dom().contains(k), |k: K| m[k]@)
}

pub proof fn seen_map_insert<K, T: View>(m: Map<K, T>, k: K, t: T)
    ensures
        seen_map(m.insert(k, t)) == seen_map(m).insert(k, t@),
{
    assert(seen_map(m.insert(k, t)) =~= seen_map(m).insert(k, t@));
}

pub proof fn seen_map_dom<K, T: View>(m: Map<K, T>)
    ensures
        seen_map(m).dom() == m.dom(),
{
    assert(seen_map(m).dom() =~= m.dom());
}

impl View for RunState {
    type V = RunStateModel;

    open spec fn view(&self) -> RunStateModel {
        RunStateModel {
            id: self.id,
            spec: self.spec@,
            status: self.status,
            stage: seen(self.stage),
            status_reason: seen(self.status_reason),
            plan_summary: seen(self.plan_summary),
            tasks: seen_map(self.tasks@),
            attempts: seen_map(self.attempts@),
            approvals: seen_map(self.approvals@),
            pull_request: seen(self.pull_request),
            created_at_ms: self.created_at_ms,
            updated_at_ms: self.updated_at_ms,
            last_seq: self.last_seq,
            task_keys: self.task_keys@,
        }
    }
}

/// The state that a task has when it is created.
pub open spec fn new_task(id: TaskId, spec: TaskSpecModel) -> TaskStateModel {
    TaskStateModel {
        id,
        spec,
        status: TaskStatus::Pending,
        status_reason: None,
        attempts: Seq::empty(),
        integrated_commit: None,
        last_integration_error: None,
    }
}

impl RunStateModel {
    /// Every task, attempt and approval is held under its own id, every key
    /// points to a task, no attempt has more activity than the log has events,
    /// and the attempts of a task are attempts of the run.
    pub open spec fn wf(self) -> bool {
        &&& forall|id: TaskId| #[trigger] self.tasks.dom().contains(id) ==> self.tasks[id].id == id
        &&& forall|id: AttemptId| #[trigger]
            self.attempts.dom().contains(id) ==> self.attempts[id].id == id
                && self.attempts[id].activity_count <= self.last_seq
        &&& forall|id: ApprovalId| #[trigger]
            self.approvals.dom().contains(id) ==> self.approvals[id].id == id
        &&& forall|key: Seq<char>| #[trigger]
            self.task_keys.dom().contains(key) ==> self.tasks.dom().contains(self.task_keys[key])
        &&& forall|id: TaskId, a: AttemptId|
            self.tasks.dom().contains(id) && #[trigger] self.tasks[id].attempts.contains(a)
                ==> self.attempts.dom().contains(a)
    }

    /// The state after `run_created`.
    pub open spec fn start(event: EventModel) -> Result<RunStateModel, ApplyErrorModel> {
        match event.kind {
            EventKindModel::RunCreated { spec } => Ok(
                RunStateModel {
                    id: event.run_id,
                    spec,
                    status: RunStatus::Pending,
                    stage: None,
                    status_reason: None,
                    plan_summary: None,
                    tasks: Map::empty(),
                    attempts: Map::empty(),
                    approvals: Map::empty(),
                    pull_request: None,
                    created_at_ms: event.at_ms,
                    updated_at_ms: event.at_ms,
                    last_seq: event.seq,
                    task_keys: Map::empty(),
                },
            ),
            _ => Err(ApplyErrorModel::NotCreated(event.kind.name())),
        }
    }

    /// Sets one task.
    pub open spec fn put_task(self, task: TaskStateModel) -> RunStateModel {
        RunStateModel { tasks: self.tasks.insert(task.id, task), ..self }
    }

    /// Sets one attempt.
    pub open spec fn put_attempt(self, attempt: AttemptStateModel) -> RunStateModel {
        RunStateModel { attempts: self.attempts.insert(attempt.id, attempt), ..self }
    }

    /// What an agent's activity tells about its attempt.
    pub open spec fn note(attempt: AttemptStateModel, event: AgentEventModel) -> AttemptStateModel {
        let counted = AttemptStateModel {
            activity_count: (attempt.activity_count + 1) as u64,
            ..attempt
        };
        match event {
            AgentEventModel::SessionStarted { session_id, .. } => if session_id is Some {
                AttemptStateModel { session_id, ..counted }
            } else {
                counted
            },
            AgentEventModel::Usage { usage } => AttemptStateModel { usage, ..counted },
            AgentEventModel::Finished { usage, .. } => AttemptStateModel { usage, ..counted },
            _ => counted,
        }
    }

    /// What one kind of event changes, in a run that has been created.
    pub open spec fn change(self, at_ms: i64, kind: EventKindModel) -> Result<
        RunStateModel,
        ApplyErrorModel,
    > {
        match kind {
            EventKindModel::RunCreated { .. } => Err(ApplyErrorModel::AlreadyCreated),
            EventKindModel::RunStatusChanged { status, stage, reason } => Ok(
                RunStateModel { status, stage, status_reason: reason, ..self },
            ),
            EventKindModel::PlanProposed { summary, .. } => Ok(
                RunStateModel { plan_summary: Some(summary), ..self },
            ),
            EventKindModel::TaskCreated { task_id, spec } => if self.task_keys.dom().contains(
                spec.key,
            ) {
                Err(ApplyErrorModel::DuplicateTaskKey(spec.key))
            } else {
                Ok(
                    RunStateModel {
                        task_keys: self.task_keys.insert(spec.key, task_id),
                        ..self.put_task(new_task(task_id, spec))
                    },
                )
            },
            EventKindModel::TaskStatusChanged { task_id, status, reason } =>
                if self.tasks.dom().contains(task_id) {
                    Ok(
                        self.put_task(
                            TaskStateModel { status, status_reason: reason, ..self.tasks[task_id] },
                        ),
                    )
                } else {
                    Err(ApplyErrorModel::UnknownTask(task_id))
                },
            EventKindModel::AttemptStarted {
                attempt_id,
                task_id,
                number,
                agent,
                workspace_id,
                branch,
            } => if self.tasks.dom().contains(task_id) {
                Ok(
                    self.put_task(
                        TaskStateModel {
                            attempts: self.tasks[task_id].attempts.push(attempt_id),
                            last_integration_error: None,
                            ..self.tasks[task_id]
                        },
                    ).put_attempt(
                        AttemptStateModel {
                            id: attempt_id,
                            task_id,
                            number,
                            agent,
                            workspace_id,
                            branch,
                            session_id: None,
                            started_at_ms: at_ms,
                            finished_at_ms: None,
                            outcome: None,
                            usage: no_usage(),
                            checks: Seq::empty(),
                            reviews: Seq::empty(),
                            activity_count: 0,
                        },
                    ),
                )
            } else {
                Err(ApplyErrorModel::UnknownTask(task_id))
            },
            EventKindModel::Agent { attempt_id, event } => if self.attempts.dom().contains(
                attempt_id,
            ) {
                Ok(self.put_attempt(Self::note(self.attempts[attempt_id], event)))
            } else {
                Err(ApplyErrorModel::UnknownAttempt(attempt_id))
            },
            EventKindModel::CheckCompleted { attempt_id, result } =>
                if self.attempts.dom().contains(attempt_id) {
                    Ok(
                        self.put_attempt(
                            AttemptStateModel {
                                checks: self.attempts[attempt_id].checks.push(result),
                                ..self.attempts[attempt_id]
                            },
                        ),
                    )
                } else {
                    Err(ApplyErrorModel::UnknownAttempt(attempt_id))
                },
            EventKindModel::ReviewCompleted { attempt_id, reviewer, verdict, findings } =>
                if self.attempts.dom().contains(attempt_id) {
                    Ok(
                        self.put_attempt(
                            AttemptStateModel {
                                reviews: self.attempts[attempt_id].reviews.push(
                                    ReviewModel { reviewer, verdict, findings },
                                ),
                                ..self.attempts[attempt_id]
                            },
                        ),
                    )
                } else {
                    Err(ApplyErrorModel::UnknownAttempt(attempt_id))
                },
            EventKindModel::AttemptFinished { attempt_id, outcome, usage } =>
                if self.attempts.dom().contains(attempt_id) {
                    Ok(
                        self.put_attempt(
                            AttemptStateModel {
                                outcome: Some(outcome),
                                usage,
                                finished_at_ms: Some(at_ms),
                                ..self.attempts[attempt_id]
                            },
                        ),
                    )
                } else {
                    Err(ApplyErrorModel::UnknownAttempt(attempt_id))
                },
            EventKindModel::ApprovalRequested { approval_id, kind, title, details, task_id } => Ok(
                RunStateModel {
                    approvals: self.approvals.insert(
                        approval_id,
                        ApprovalStateModel {
                            id: approval_id,
                            kind,
                            title,
                            details,
                            task_id,
                            requested_at_ms: at_ms,
                            resolution: None,
                        },
                    ),
                    ..self
                },
            ),
            EventKindModel::ApprovalResolved { approval_id, decision, by, comment } =>
                if !self.approvals.dom().contains(approval_id) {
                    Err(ApplyErrorModel::UnknownApproval(approval_id))
                } else if self.approvals[approval_id].resolution is Some {
                    Err(ApplyErrorModel::AlreadyResolved(approval_id))
                } else {
                    Ok(
                        RunStateModel {
                            approvals: self.approvals.insert(
                                approval_id,
                                ApprovalStateModel {
                                    resolution: Some(
                                        ResolutionModel { decision, by, comment, at_ms },
                                    ),
                                    ..self.approvals[approval_id]
                                },
                            ),
                            ..self
                        },
                    )
                },
            EventKindModel::BranchIntegrated { task_id, commit, .. } =>
                if self.tasks.dom().contains(task_id) {
                    Ok(
                        self.put_task(
                            TaskStateModel {
                                integrated_commit: Some(commit),
                                ..self.tasks[task_id]
                            },
                        ),
                    )
                } else {
                    Err(ApplyErrorModel::UnknownTask(task_id))
                },
            EventKindModel::IntegrationFailed { task_id, reason, .. } =>
                if self.tasks.dom().contains(task_id) {
                    Ok(
                        self.put_task(
                            TaskStateModel {
                                last_integration_error: Some(reason),
                                ..self.tasks[task_id]
                            },
                        ),
                    )
                } else {
                    Err(ApplyErrorModel::UnknownTask(task_id))
                },
            EventKindModel::PullRequestOpened { url, number } => Ok(
                RunStateModel { pull_request: Some(PullRequestModel { url, number }), ..self },
            ),
            EventKindModel::BudgetExceeded { .. } => Ok(self),
        }
    }

    /// The state after one more event, or why the event cannot be applied.
    pub open spec fn step(self, event: EventModel) -> Result<RunStateModel, ApplyErrorModel> {
        if event.run_id != self.id {
            Err(ApplyErrorModel::WrongRun { expected: self.id, got: event.run_id })
        } else if event.seq <= self.last_seq {
            Err(ApplyErrorModel::OutOfOrder { last: self.last_seq, got: event.seq })
        } else {
            match self.change(event.at_ms, event.kind) {
                Ok(s) => Ok(
                    RunStateModel { last_seq: event.seq, updated_at_ms: event.at_ms, ..s },
                ),
                Err(e) => Err(e),
            }
        }
    }

    /// The state after more events, one after another, or the first refusal.
    pub open spec fn steps(self, events: Seq<EventModel>) -> Result<RunStateModel, ApplyErrorModel>
        decreases events.len(),
    {
        if events.len() == 0 {
            Ok(self)
        } else {
            match self.step(events[0]) {
                Ok(s) => s.steps(events.drop_first()),
                Err(e) => Err(e),
            }
        }
    }

    /// The state that a whole log gives.
    pub open spec fn replayed(events: Seq<EventModel>) -> Result<RunStateModel, ApplyErrorModel> {
        if events.len() == 0 {
            Err(ApplyErrorModel::NotCreated("<none>"@))
        } else {
            match Self::start(events[0]) {
                Ok(s) => s.steps(events.drop_first()),
                Err(e) => Err(e),
            }
        }
    }
}

/// Usage is reported as a running total: after a report, the attempt's usage is
/// what was reported, whatever was reported before. A report that is dropped or
/// repeated therefore never skews it.
pub proof fn reports_are_totals(s: RunStateModel, event: EventModel)
    requires
        s.wf(),
        s.step(event) is Ok,
    ensures
        event.kind matches EventKindModel::Agent {
            attempt_id,
            event: AgentEventModel::Usage { usage },
        } ==> s.step(event)->Ok_0.attempts[attempt_id].usage == usage,
        event.kind matches EventKindModel::Agent {
            attempt_id,
            event: AgentEventModel::Finished { usage, .. },
        } ==> s.step(event)->Ok_0.attempts[attempt_id].usage == usage,
        event.kind matches EventKindModel::AttemptFinished { attempt_id, usage, .. }
            ==> s.step(event)->Ok_0.attempts[attempt_id].usage == usage,
{
}

/// Applying events keeps a run's state well formed, in the same run, and moves
/// its position forward.
pub proof fn step_keeps_shape(s: RunStateModel, event: EventModel)
    requires
        s.wf(),
        s.step(event) is Ok,
    ensures
        s.step(event)->Ok_0.wf(),
        s.step(event)->Ok_0.id == s.id,
        s.step(event)->Ok_0.last_seq == event.seq,
        s.last_seq < event.seq,
        s.step(event)->Ok_0.spec == s.spec,
        s.step(event)->Ok_0.created_at_ms == s.created_at_ms,
{
    let t = s.step(event)->Ok_0;
    assert forall|id: AttemptId| #[trigger] t.attempts.dom().contains(id) implies t.attempts[id].id
        == id && t.attempts[id].activity_count <= t.last_seq by {
        if s.attempts.dom().contains(id) {
        }
    }
    assert forall|id: TaskId, a: AttemptId|
        t.tasks.dom().contains(id) && #[trigger] t.tasks[id].attempts.contains(
            a,
        ) implies t.attempts.dom().contains(a) by {
        if s.tasks.dom().contains(id) && s.tasks[id].attempts.contains(a) {
            assert(s.attempts.dom().contains(a));
        } else {
            let list = t.tasks[id].attempts;
            let k = choose|k: int| 0 <= k < list.len() && list[k] == a;
            if event.kind is AttemptStarted && s.tasks.dom().contains(id) {
                let old_list = s.tasks[id].attempts;
                if k < old_list.len() {
                    assert(old_list.contains(old_list[k]));
                }
            }
        }
    }
}

/// A decision is final: no event but a new request under the same id changes
/// the answer to an approval.
pub proof fn decisions_are_final(s: RunStateModel, event: EventModel, id: ApprovalId)
    requires
        s.step(event) is Ok,
        s.approvals.dom().contains(id),
        s.approvals[id].resolution is Some,
        !(event.kind matches EventKindModel::ApprovalRequested { approval_id, .. } && approval_id
            == id),
    ensures
        s.step(event)->Ok_0.approvals.dom().contains(id),
        s.step(event)->Ok_0.approvals[id] == s.approvals[id],
{
}

/// The state right after creation is well formed.
pub proof fn start_is_wf(event: EventModel)
    requires
        RunStateModel::start(event) is Ok,
    ensures
        RunStateModel::start(event)->Ok_0.wf(),
{
}

/// What a run was created with stays as it was, whatever is recorded later.
pub proof fn specs_never_change(s: RunStateModel, events: Seq<EventModel>)
    requires
        s.wf(),
        s.steps(events) is Ok,
    ensures
        s.steps(events)->Ok_0.spec == s.spec,
    decreases events.len(),
{
    if events.len() > 0 {
        step_keeps_shape(s, events[0]);
        specs_never_change(s.step(events[0])->Ok_0, events.drop_first());
    }
}

/// Folding two stretches of a log one after the other is the same as folding
/// them together: a cached state catches up to what a full replay gives.
pub proof fn steps_compose(s: RunStateModel, a: Seq<EventModel>, b: Seq<EventModel>)
    ensures
        s.steps(a + b) == match s.steps(a) {
            Ok(t) => t.steps(b),
            Err(e) => Err(e),
        },
    decreases a.len(),
{
    if a.len() == 0 {
        assert(a + b =~= b);
    } else {
        assert((a + b).drop_first() =~= a.drop_first() + b);
        match s.step(a[0]) {
            Ok(t) => {
                steps_compose(t, a.drop_first(), b);
            },
            Err(e) => {},
        }
    }
}

/// Replaying a log up to any point and applying the rest gives the same state
/// as replaying all of it.
pub proof fn replay_resumes(log: Seq<EventModel>, n: int)
    requires
        0 < n <= log.len(),
    ensures
        RunStateModel::replayed(log) == match RunStateModel::replayed(log.take(n)) {
            Ok(s) => s.steps(log.skip(n)),
            Err(e) => Err(e),
        },
{
    match RunStateModel::start(log[0]) {
        Ok(s) => {
            let a = log.take(n).drop_first();
            let b = log.skip(n);
            assert(log.drop_first() =~= a + b);
            steps_compose(s, a, b);
        },
        Err(e) => {},
    }
}

/// A log that replays is in strictly increasing order, and all of it belongs
/// to the run that its first event creates.
pub proof fn replayed_log_is_ordered(log: Seq<EventModel>)
    requires
        RunStateModel::replayed(log) is Ok,
    ensures
        forall|i: int, j: int| 0 <= i < j < log.len() ==> log[i].seq < log[j].seq,
        forall|i: int| 0 <= i < log.len() ==> (#[trigger] log[i]).run_id == log[0].run_id,
        RunStateModel::replayed(log)->Ok_0.last_seq == log.last().seq,
        RunStateModel::replayed(log)->Ok_0.wf(),
{
    let s = RunStateModel::start(log[0])->Ok_0;
    let rest = log.drop_first();
    steps_are_ordered(s, rest);
    assert forall|i: int, j: int| 0 <= i < j < log.len() implies log[i].seq < log[j].seq by {
        assert(log[j] == rest[j - 1]);
        if i > 0 {
            assert(log[i] == rest[i - 1]);
        }
    }
    assert forall|i: int| 0 <= i < log.len() implies (#[trigger] log[i]).run_id == log[0].run_id by {
        if i > 0 {
            assert(log[i] == rest[i - 1]);
        }
    }
    if rest.len() > 0 {
        assert(rest.last() == log.last());
    }
}

pub proof fn steps_are_ordered(s: RunStateModel, rest: Seq<EventModel>)
    requires
        s.wf(),
        s.steps(rest) is Ok,
    ensures
        forall|i: int, j: int| 0 <= i < j < rest.len() ==> rest[i].seq < rest[j].seq,
        forall|i: int|
            0 <= i < rest.len() ==> (#[trigger] rest[i]).run_id == s.id && rest[i].seq > s.last_seq,
        rest.len() > 0 ==> s.steps(rest)->Ok_0.last_seq == rest.last().seq,
        rest.len() == 0 ==> s.steps(rest)->Ok_0.last_seq == s.last_seq,
        s.steps(rest)->Ok_0.wf(),
        s.steps(rest)->Ok_0.id == s.id,
    decreases rest.len(),
{
    if rest.len() > 0 {
        let t = s.step(rest[0])->Ok_0;
        step_keeps_shape(s, rest[0]);
        let tail = rest.drop_first();
        steps_are_ordered(t, tail);
        assert forall|i: int, j: int| 0 <= i < j < rest.len() implies rest[i].seq < rest[j].seq by {
            assert(rest[j] == tail[j - 1]);
            if i > 0 {
                assert(rest[i] == tail[i - 1]);
            }
        }
        assert forall|i: int| 0 <= i < rest.len() implies (#[trigger] rest[i]).run_id == s.id
            && rest[i].seq > s.last_seq by {
            if i > 0 {
                assert(rest[i] == tail[i - 1]);
            }
        }
        if tail.len() > 0 {
            assert(tail.last() == rest.last());
        }
    }
}

impl RunState {
    /// The maps are in order, and their contents fit together.
    pub open spec fn wf(&self) -> bool {
        &&& self.tasks.wf()
        &&& self.attempts.wf()
        &&& self.approvals.wf()
        &&& self.task_keys.wf()
        &&& self@.wf()
    }

    /// Starts a run's state from its `run_created` event.
    pub fn new(event: &Event) -> (r: Result<RunState, ApplyError>)
        ensures
            match r {
                Ok(s) => s.wf() && RunStateModel::start(event@) == Ok::<_, ApplyErrorModel>(s@),
                Err(e) => RunStateModel::start(event@) == Err::<RunStateModel, _>(e@),
            },
    {
        match &event.kind {
            EventKind::RunCreated { spec } => {
                let s = RunState {
                    id: event.run_id,
                    spec: spec.duplicate(),
                    status: RunStatus::Pending,
                    stage: None,
                    status_reason: None,
                    plan_summary: None,
                    tasks: OrdMap::new(),
                    attempts: OrdMap::new(),
                    approvals: OrdMap::new(),
                    pull_request: None,
                    created_at_ms: event.at_ms,
                    updated_at_ms: event.at_ms,
                    last_seq: event.seq,
                    task_keys: OrdMap::new(),
                };
                assert(s@.tasks =~= Map::<TaskId, TaskStateModel>::empty());
                assert(s@.attempts =~= Map::<AttemptId, AttemptStateModel>::empty());
                assert(s@.approvals =~= Map::<ApprovalId, ApprovalStateModel>::empty());
                Ok(s)
            },
            other => Err(ApplyError::NotCreated(other.name())),
        }
    }

    /// Rebuilds a run's state from its full log.
    pub fn replay(events: &Vec<Event>) -> (r: Result<RunState, ApplyError>)
        ensures
            match r {
                Ok(s) => s.wf() && RunStateModel::replayed(views(events@)) == Ok::<
                    _,
                    ApplyErrorModel,
                >(s@),
                Err(e) => RunStateModel::replayed(views(events@)) == Err::<RunStateModel, _>(e@),
            },
    {
        if events.len() == 0 {
            return Err(ApplyError::NotCreated("<none>"));
        }
        let mut state = match RunState::new(&events[0]) {
            Ok(s) => s,
            Err(e) => {
                return Err(e);
            },
        };
        let ghost log = views(events@);
        let mut i: usize = 1;
        assert(log.skip(1) =~= log.drop_first());
        while i < events.len()
            invariant
                1 <= i <= events.len(),
                log == views(events@),
                state.wf(),
                RunStateModel::replayed(log) == state@.steps(log.skip(i as int)),
            decreases events.len() - i,
        {
            proof {
                assert(log.skip(i as int)[0] == log[i as int]);
                assert(log.skip(i as int).drop_first() =~= log.skip(i + 1));
            }
            match state.apply(&events[i]) {
                Ok(_) => {},
                Err(e) => {
                    return Err(e);
                },
            }
            i += 1;
        }
        Ok(state)
    }

    /// Applies one event. Events must belong to this run and arrive in order.
    /// An event that is refused changes nothing.
    pub fn apply(&mut self, event: &Event) -> (r: Result<(), ApplyError>)
        requires
            old(self).wf(),
        ensures
            final(self).wf(),
            match r {
                Ok(_) => old(self)@.step(event@) == Ok::<_, ApplyErrorModel>(final(self)@),
                Err(e) => {
                    &&& old(self)@.step(event@) == Err::<RunStateModel, _>(e@)
                    &&& final(self)@ == old(self)@
                },
            },
    {
        if event.run_id.uuid != self.id.uuid {
            return Err(ApplyError::WrongRun { expected: self.id, got: event.run_id });
        }
        if event.seq <= self.last_seq {
            return Err(ApplyError::OutOfOrder { last: self.last_seq, got: event.seq });
        }
        let ghost prior = *self;
        match &event.kind {
            EventKind::RunCreated { .. } => {
                return Err(ApplyError::AlreadyCreated);
            },
            EventKind::RunStatusChanged { status, stage, reason } => {
                self.status = *status;
                self.stage = duplicate_opt(stage);
                self.status_reason = duplicate_opt(reason);
            },
            EventKind::PlanProposed { summary, .. } => {
                self.plan_summary = Some(summary.clone());
            },
            EventKind::TaskCreated { task_id, spec } => {
                if self.task_keys.contains_key(&spec.key) {
                    return Err(ApplyError::DuplicateTaskKey(spec.key.clone()));
                }
                let task = TaskState {
                    id: *task_id,
                    spec: spec.duplicate(),
                    status: TaskStatus::Pending,
                    status_reason: None,
                    attempts: Vec::new(),
                    integrated_commit: None,
                    last_integration_error: None,
                };
                self.task_keys.insert(spec.key.clone(), *task_id);
                proof {
                    seen_map_insert(prior.tasks@, *task_id, task);
                }
                self.tasks.insert(*task_id, task);
            },
            EventKind::TaskStatusChanged { task_id, status, reason } => {
                match self.tasks.find(task_id) {
                    Ok(i) => {
                        let mut task = self.tasks.value_at(i).duplicate();
                        task.status = *status;
                        task.status_reason = duplicate_opt(reason);
                        proof {
                            seen_map_insert(prior.tasks@, *task_id, task);
                        }
                        self.tasks.set_at(i, task);
                    },
                    Err(_) => {
                        return Err(ApplyError::UnknownTask(*task_id));
                    },
                }
            },
            EventKind::AttemptStarted {
                attempt_id,
                task_id,
                number,
                agent,
                workspace_id,
                branch,
            } => {
                match self.tasks.find(task_id) {
                    Ok(i) => {
                        let mut task = self.tasks.value_at(i).duplicate();
                        task.attempts.push(*attempt_id);
                        task.last_integration_error = None;
                        proof {
                            seen_map_insert(prior.tasks@, *task_id, task);
                        }
                        self.tasks.set_at(i, task);
                        let attempt = AttemptState {
                            id: *attempt_id,
                            task_id: *task_id,
                            number: *number,
                            agent: agent.duplicate(),
                            workspace_id: *workspace_id,
                            branch: branch.clone(),
                            session_id: None,
                            started_at_ms: event.at_ms,
                            finished_at_ms: None,
                            outcome: None,
                            usage: Usage::default(),
                            checks: Vec::new(),
                            reviews: Vec::new(),
                            activity_count: 0,
                        };
                        proof {
                            assert(views(attempt.checks@) =~= Seq::<CheckResultModel>::empty());
                            assert(views(attempt.reviews@) =~= Seq::<ReviewModel>::empty());
                            seen_map_insert(prior.attempts@, *attempt_id, attempt);
                        }
                        self.attempts.insert(*attempt_id, attempt);
                    },
                    Err(_) => {
                        return Err(ApplyError::UnknownTask(*task_id));
                    },
                }
            },
            EventKind::Agent { attempt_id, event: agent_event } => {
                match self.attempts.find(attempt_id) {
                    Ok(i) => {
                        let mut attempt = self.attempts.value_at(i).duplicate();
                        proof {
                            assert(prior@.attempts.dom().contains(*attempt_id));
                        }
                        attempt.activity_count = attempt.activity_count + 1;
                        match agent_event {
                            AgentEvent::SessionStarted { session_id, .. } => {
                                if session_id.is_some() {
                                    attempt.session_id = duplicate_opt(session_id);
                                }
                            },
                            AgentEvent::Usage { usage } => {
                                attempt.usage = *usage;
                            },
                            AgentEvent::Finished { usage, .. } => {
                                attempt.usage = *usage;
                            },
                            _ => {},
                        }
                        proof {
                            seen_map_insert(prior.attempts@, *attempt_id, attempt);
                        }
                        self.attempts.set_at(i, attempt);
                    },
                    Err(_) => {
                        return Err(ApplyError::UnknownAttempt(*attempt_id));
                    },
                }
            },
            EventKind::CheckCompleted { attempt_id, result } => {
                match self.attempts.find(attempt_id) {
                    Ok(i) => {
                        let mut attempt = self.attempts.value_at(i).duplicate();
                        let copy = result.duplicate();
                        proof {
                            views_push(attempt.checks@, copy);
                        }
                        attempt.checks.push(copy);
                        proof {
                            seen_map_insert(prior.attempts@, *attempt_id, attempt);
                        }
                        self.attempts.set_at(i, attempt);
                    },
                    Err(_) => {
                        return Err(ApplyError::UnknownAttempt(*attempt_id));
                    },
                }
            },
            EventKind::ReviewCompleted { attempt_id, reviewer, verdict, findings } => {
                match self.attempts.find(attempt_id) {
                    Ok(i) => {
                        let mut attempt = self.attempts.value_at(i).duplicate();
                        let review = Review {
                            reviewer: reviewer.duplicate(),
                            verdict: *verdict,
                            findings: duplicate_all(findings),
                        };
                        proof {
                            views_push(attempt.reviews@, review);
                        }
                        attempt.reviews.push(review);
                        proof {
                            seen_map_insert(prior.attempts@, *attempt_id, attempt);
                        }
                        self.attempts.set_at(i, attempt);
                    },
                    Err(_) => {
                        return Err(ApplyError::UnknownAttempt(*attempt_id));
                    },
                }
            },
            EventKind::AttemptFinished { attempt_id, outcome, usage } => {
                match self.attempts.find(attempt_id) {
                    Ok(i) => {
                        let mut attempt = self.attempts.value_at(i).duplicate();
                        attempt.outcome = Some(outcome.duplicate());
                        attempt.usage = *usage;
                        attempt.finished_at_ms = Some(event.at_ms);
                        proof {
                            seen_map_insert(prior.attempts@, *attempt_id, attempt);
                        }
                        self.attempts.set_at(i, attempt);
                    },
                    Err(_) => {
                        return Err(ApplyError::UnknownAttempt(*attempt_id));
                    },
                }
            },
            EventKind::ApprovalRequested { approval_id, kind, title, details, task_id } => {
                let approval = ApprovalState {
                    id: *approval_id,
                    kind: *kind,
                    title: title.clone(),
                    details: details.clone(),
                    task_id: *task_id,
                    requested_at_ms: event.at_ms,
                    resolution: None,
                };
                proof {
                    seen_map_insert(prior.approvals@, *approval_id, approval);
                }
                self.approvals.insert(*approval_id, approval);
            },
            EventKind::ApprovalResolved { approval_id, decision, by, comment } => {
                match self.approvals.find(approval_id) {
                    Ok(i) => {
                        if self.approvals.value_at(i).resolution.is_some() {
                            return Err(ApplyError::AlreadyResolved(*approval_id));
                        }
                        let mut approval = self.approvals.value_at(i).duplicate();
                        approval.resolution = Some(
                            Resolution {
                                decision: *decision,
                                by: by.clone(),
                                comment: duplicate_opt(comment),
                                at_ms: event.at_ms,
                            },
                        );
                        proof {
                            seen_map_insert(prior.approvals@, *approval_id, approval);
                        }
                        self.approvals.set_at(i, approval);
                    },
                    Err(_) => {
                        return Err(ApplyError::UnknownApproval(*approval_id));
                    },
                }
            },
            EventKind::BranchIntegrated { task_id, commit, .. } => {
                match self.tasks.find(task_id) {
                    Ok(i) => {
                        let mut task = self.tasks.value_at(i).duplicate();
                        task.integrated_commit = Some(commit.clone());
                        proof {
                            seen_map_insert(prior.tasks@, *task_id, task);
                        }
                        self.tasks.set_at(i, task);
                    },
                    Err(_) => {
                        return Err(ApplyError::UnknownTask(*task_id));
                    },
                }
            },
            EventKind::IntegrationFailed { task_id, reason, .. } => {
                match self.tasks.find(task_id) {
                    Ok(i) => {
                        let mut task = self.tasks.value_at(i).duplicate();
                        task.last_integration_error = Some(reason.clone());
                        proof {
                            seen_map_insert(prior.tasks@, *task_id, task);
                        }
                        self.tasks.set_at(i, task);
                    },
                    Err(_) => {
                        return Err(ApplyError::UnknownTask(*task_id));
                    },
                }
            },
            EventKind::PullRequestOpened { url, number } => {
                self.pull_request = Some(PullRequest { url: url.clone(), number: *number });
            },
            EventKind::BudgetExceeded { .. } => {},
        }
        self.last_seq = event.seq;
        self.updated_at_ms = event.at_ms;
        proof {
            assert(prior@.step(event@)->Ok_0 =~= self@);
            step_keeps_shape(prior@, event@);
        }
        Ok(())
    }
}

impl RunStateModel {
    /// The tasks, in id order.
    pub open spec fn task_order(self) -> Seq<TaskId> {
        in_order::<TaskId>(self.tasks.dom())
    }

    /// The attempts, in id order.
    pub open spec fn attempt_order(self) -> Seq<AttemptId> {
        in_order::<AttemptId>(self.attempts.dom())
    }

    /// The approvals, in id order.
    pub open spec fn approval_order(self) -> Seq<ApprovalId> {
        in_order::<ApprovalId>(self.approvals.dom())
    }

    /// Task `id` lists a key of task `d`, another task.
    pub open spec fn needs(self, id: TaskId, d: TaskId) -> bool {
        &&& d != id
        &&& exists|key: Seq<char>| #[trigger]
            self.tasks[id].spec.depends_on.contains(key) && self.task_keys.dom().contains(key)
                && self.task_keys[key] == d
    }

    /// Each task with the tasks that it depends on.
    pub open spec fn graph(self) -> Map<TaskId, Set<TaskId>> {
        Map::new(
            |id: TaskId| self.tasks.dom().contains(id),
            |id: TaskId| Set::new(|d: TaskId| self.needs(id, d)),
        )
    }

    /// The task waits to be run.
    pub open spec fn waits(self, id: TaskId) -> bool {
        self.tasks[id].status == TaskStatus::Pending || self.tasks[id].status == TaskStatus::Ready
    }

    /// The task waits, and all that it depends on is done.
    pub open spec fn is_ready(self, id: TaskId) -> bool {
        &&& self.waits(id)
        &&& forall|d: TaskId| #[trigger] self.needs(id, d) ==> self.tasks[d].status == TaskStatus::Done
    }

    /// The ready tasks, in id order.
    pub open spec fn ready(self) -> Seq<TaskId> {
        self.task_order().filter(|id: TaskId| self.is_ready(id))
    }

    /// The approvals still waiting for a human, in id order.
    pub open spec fn pending(self) -> Seq<ApprovalStateModel> {
        self.approval_order().filter(
            |id: ApprovalId| self.approvals[id].resolution is None,
        ).map_values(|id: ApprovalId| self.approvals[id])
    }

    /// The latest usage of each attempt, in id order.
    pub open spec fn usages(self) -> Seq<Usage> {
        self.attempt_order().map_values(|id: AttemptId| self.attempts[id].usage)
    }

    /// The task with a key.
    pub open spec fn by_key(self, key: Seq<char>) -> Option<TaskStateModel> {
        if self.task_keys.dom().contains(key) {
            Some(self.tasks[self.task_keys[key]])
        } else {
            None
        }
    }
}

/// A task never becomes ready before what it depends on is done, and a ready
/// task is one that waits.
pub proof fn ready_tasks_have_done_dependencies(s: RunStateModel, i: int, d: TaskId)
    requires
        s.wf(),
        0 <= i < s.ready().len(),
        s.graph()[s.ready()[i]].contains(d),
        s.graph().dom().contains(s.ready()[i]),
    ensures
        s.tasks[d].status == TaskStatus::Done,
        s.waits(s.ready()[i]),
{
    let p = |id: TaskId| s.is_ready(id);
    s.task_order().lemma_filter_pred(p, i);
    assert(s.is_ready(s.ready()[i]));
}

impl RunState {
    pub fn task_by_key(&self, key: &str) -> (r: Option<&TaskState>)
        requires
            self.wf(),
        ensures
            match r {
                Some(t) => self@.by_key(key@) == Some(t@),
                None => self@.by_key(key@) is None,
            },
    {
        let key: String = key.to_owned();
        match self.task_keys.get(&key) {
            Some(id) => {
                assert(self@.task_keys.dom().contains(key@));
                self.tasks.get(id)
            },
            None => None,
        }
    }

    /// The task dependency graph, keyed by task id.
    pub fn graph(&self) -> (r: DepGraph<TaskId>)
        requires
            self.wf(),
        ensures
            r.wf(),
            r@ == self@.graph(),
            r.order() == self@.task_order(),
    {
        let ghost s = self@;
        let mut graph: DepGraph<TaskId> = DepGraph::new();
        let mut i: usize = 0;
        proof {
            self.tasks.order_of_keys();
            seen_map_dom(self.tasks@);
        }
        while i < self.tasks.len()
            invariant
                i <= self.tasks.order().len(),
                self.wf(),
                graph.wf(),
                forall|id: TaskId| #[trigger]
                    graph@.dom().contains(id) <==> self.tasks.order().take(i as int).contains(id),
                forall|id: TaskId|
                    graph@.dom().contains(id) ==> #[trigger] graph@[id] == Set::<TaskId>::empty(),
            decreases self.tasks.order().len() - i,
        {
            let ghost before = graph@;
            graph.add_node(*self.tasks.key_at(i));
            proof {
                let prev = self.tasks.order().take(i as int);
                let next = self.tasks.order().take(i + 1);
                let here = self.tasks.order()[i as int];
                assert(next =~= prev.push(here));
                assert forall|id: TaskId| #[trigger]
                    graph@.dom().contains(id) <==> next.contains(id) by {
                    assert(before.dom().contains(id) <==> prev.contains(id));
                    if prev.contains(id) {
                        let k = choose|k: int| 0 <= k < prev.len() && prev[k] == id;
                        assert(next[k] == id);
                    }
                    assert(next[i as int] == here);
                    if next.contains(id) && id != here {
                        let k = choose|k: int| 0 <= k < next.len() && next[k] == id;
                        assert(prev[k] == id);
                    }
                }
            }
            i += 1;
        }
        let ghost order = self.tasks.order();
        proof {
            assert(order.take(i as int) =~= order);
            assert forall|id: TaskId| #[trigger]
                graph@.dom().contains(id) <==> s.tasks.dom().contains(id) by {
                assert(order.contains(id) <==> order.to_set().contains(id));
            }
        }
        let mut k: usize = 0;
        while k < self.tasks.len()
            invariant
                k <= self.tasks.order().len(),
                self.wf(),
                s == self@,
                order == self.tasks.order(),
                graph.wf(),
                forall|id: TaskId| #[trigger]
                    graph@.dom().contains(id) <==> s.tasks.dom().contains(id),
                forall|j: int, d: TaskId|
                    0 <= j < order.len() ==> (#[trigger] graph@[order[j]].contains(d) <==> (j < k
                        && s.needs(order[j], d))),
            decreases self.tasks.order().len() - k,
        {
            let id: TaskId = *self.tasks.key_at(k);
            let task = self.tasks.value_at(k);
            proof {
                self.tasks.position(k as int);
                assert(s.tasks.dom().contains(id));
            }
            let ghost deps = s.tasks[id].spec.depends_on;
            let ghost before = graph@;
            let mut j: usize = 0;
            while j < task.spec.depends_on.len()
                invariant
                    j <= task.spec.depends_on.len(),
                    self.wf(),
                    s == self@,
                    graph.wf(),
                    s.tasks.dom().contains(id),
                    deps == s.tasks[id].spec.depends_on,
                    deps == views(task.spec.depends_on@),
                    forall|x: TaskId| #[trigger]
                        graph@.dom().contains(x) <==> s.tasks.dom().contains(x),
                    forall|x: TaskId|
                        x != id && s.tasks.dom().contains(x) ==> #[trigger] graph@[x] == before[x],
                    forall|d: TaskId| #[trigger]
                        graph@[id].contains(d) <==> d != id && (exists|m: int|
                            0 <= m < j && s.task_keys.dom().contains(#[trigger] deps[m])
                                && s.task_keys[deps[m]] == d),
                decreases task.spec.depends_on.len() - j,
            {
                let ghost cur = graph@;
                let key = &task.spec.depends_on[j];
                assert(deps[j as int] == key@);
                if let Some(dep) = self.task_keys.get(key) {
                    let dep: TaskId = *dep;
                    assert(s.task_keys.dom().contains(key@));
                    assert(s.tasks.dom().contains(dep));
                    let added = graph.add_dependency(&id, dep);
                    proof {
                        assert forall|d: TaskId| #[trigger] graph@[id].contains(d) <==> d != id && (
                        exists|m: int|
                            0 <= m < j + 1 && s.task_keys.dom().contains(#[trigger] deps[m])
                                && s.task_keys[deps[m]] == d) by {
                            assert(cur[id].contains(d) <==> d != id && (exists|m: int|
                                0 <= m < j && s.task_keys.dom().contains(#[trigger] deps[m])
                                    && s.task_keys[deps[m]] == d));
                            if d == dep && d != id {
                                assert(s.task_keys.dom().contains(deps[j as int]));
                            }
                        }
                    }
                } else {
                    proof {
                        assert forall|d: TaskId| #[trigger] graph@[id].contains(d) <==> d != id && (
                        exists|m: int|
                            0 <= m < j + 1 && s.task_keys.dom().contains(#[trigger] deps[m])
                                && s.task_keys[deps[m]] == d) by {
                            assert(!s.task_keys.dom().contains(deps[j as int]));
                        }
                    }
                }
                j += 1;
            }
            proof {
                assert forall|x: int, d: TaskId| 0 <= x < order.len() implies (#[trigger] graph@[order[x]].contains(
                    d,
                ) <==> (x < k + 1 && s.needs(order[x], d))) by {
                    self.tasks.position(x);
                    if x == k {
                        if graph@[id].contains(d) {
                            let m = choose|m: int|
                                0 <= m < deps.len() && s.task_keys.dom().contains(#[trigger] deps[m])
                                    && s.task_keys[deps[m]] == d;
                            assert(deps.contains(deps[m]));
                        }
                        if s.needs(id, d) {
                            let key = choose|key: Seq<char>| #[trigger]
                                deps.contains(key) && s.task_keys.dom().contains(key)
                                    && s.task_keys[key] == d;
                            let m = choose|m: int| 0 <= m < deps.len() && deps[m] == key;
                            assert(s.task_keys.dom().contains(deps[m]));
                        }
                    } else {
                        if order[x] == id {
                            crate::order::increasing_index::<TaskId>(order, x);
                            crate::order::increasing_index::<TaskId>(order, k as int);
                        }
                        assert(before[order[x]].contains(d) <==> (x < k && s.needs(order[x], d)));
                    }
                }
            }
            k += 1;
        }
        proof {
            assert forall|id: TaskId| s.tasks.dom().contains(id) implies #[trigger] graph@[id]
                == s.graph()[id] by {
                assert(order.to_set().contains(id));
                let x = choose|x: int| 0 <= x < order.len() && order[x] == id;
                assert forall|d: TaskId| graph@[id].contains(d) <==> s.needs(id, d) by {
                    assert(graph@[order[x]].contains(d) <==> s.needs(order[x], d));
                }
                assert(graph@[id] =~= s.graph()[id]);
            }
            assert(graph@ =~= s.graph());
            crate::order::in_order_is::<TaskId>(graph.order());
        }
        graph
    }

    /// Tasks that are not yet running or finished and whose dependencies are
    /// all done, in a stable order.
    pub fn ready_tasks(&self) -> (r: Vec<TaskId>)
        requires
            self.wf(),
        ensures
            r@ == self@.ready(),
    {
        let ghost s = self@;
        let mut done: OrdSet<TaskId> = OrdSet::new();
        let mut not_waiting: OrdSet<TaskId> = OrdSet::new();
        let mut i: usize = 0;
        let ghost order = self.tasks.order();
        proof {
            self.tasks.order_of_keys();
            seen_map_dom(self.tasks@);
        }
        while i < self.tasks.len()
            invariant
                i <= self.tasks.order().len(),
                order == self.tasks.order(),
                self.wf(),
                s == self@,
                done.wf(),
                not_waiting.wf(),
                forall|id: TaskId| #[trigger]
                    done@.contains(id) <==> order.take(i as int).contains(id)
                        && s.tasks[id].status == TaskStatus::Done,
                forall|id: TaskId| #[trigger]
                    not_waiting@.contains(id) <==> order.take(i as int).contains(id) && !s.waits(
                        id,
                    ),
            decreases self.tasks.order().len() - i,
        {
            let task = self.tasks.value_at(i);
            proof {
                self.tasks.position(i as int);
                assert(s.tasks.dom().contains(order[i as int]));
                assert(task.id == order[i as int]);
                let prev = order.take(i as int);
                let next = order.take(i + 1);
                assert(next =~= prev.push(order[i as int]));
                assert forall|id: TaskId| next.contains(id) <==> prev.contains(id) || id
                    == order[i as int] by {
                    if prev.contains(id) {
                        let k = choose|k: int| 0 <= k < prev.len() && prev[k] == id;
                        assert(next[k] == id);
                    }
                    assert(next[i as int] == order[i as int]);
                    if next.contains(id) && id != order[i as int] {
                        let k = choose|k: int| 0 <= k < next.len() && next[k] == id;
                        assert(prev[k] == id);
                    }
                }
            }
            if matches!(task.status, TaskStatus::Done) {
                done.insert(task.id);
            }
            if !matches!(task.status, TaskStatus::Pending | TaskStatus::Ready) {
                not_waiting.insert(task.id);
            }
            i += 1;
        }
        let graph = self.graph();
        let r = graph.ready(&done, &not_waiting);
        proof {
            assert(order.take(i as int) =~= order);
            let g = s.graph();
            let p = |n: TaskId| available(g, done@, n) && !not_waiting@.contains(n);
            let q = |id: TaskId| s.is_ready(id);
            assert forall|k: int| 0 <= k < order.len() implies p(#[trigger] order[k]) == q(
                order[k],
            ) by {
                let id = order[k];
                self.tasks.position(k);
                assert(order.contains(id));
                assert(s.tasks.dom().contains(id));
                if p(id) {
                    assert forall|d: TaskId| #[trigger] s.needs(id, d) implies s.tasks[d].status
                        == TaskStatus::Done by {
                        assert(g[id].contains(d));
                        assert(done@.contains(d));
                    }
                }
                if q(id) {
                    assert forall|d: TaskId| g[id].contains(d) implies done@.contains(d) by {
                        assert(s.needs(id, d));
                        let key = choose|key: Seq<char>| #[trigger]
                            s.tasks[id].spec.depends_on.contains(key)
                                && s.task_keys.dom().contains(key) && s.task_keys[key] == d;
                        assert(s.tasks.dom().contains(d));
                        assert(order.to_set().contains(d));
                    }
                    assert(!done@.contains(id));
                    assert(available(g, done@, id));
                }
            }
            crate::order::filter_agrees(order, p, q);
            assert(models(r@) =~= r@);
        }
        r
    }

    /// Approvals still waiting for a human.
    pub fn pending_approvals(&self) -> (r: Vec<&ApprovalState>)
        requires
            self.wf(),
        ensures
            views(r@) == self@.pending(),
    {
        let ghost s = self@;
        let ghost order = self.approvals.order();
        let ghost p = |id: ApprovalId| s.approvals[id].resolution is None;
        let ghost f = |id: ApprovalId| s.approvals[id];
        let mut r: Vec<&ApprovalState> = Vec::new();
        let mut i: usize = 0;
        proof {
            self.approvals.order_of_keys();
            seen_map_dom(self.approvals@);
            crate::order::filter_none(order, p);
            assert(views(r@) =~= order.take(0).filter(p).map_values(f));
        }
        while i < self.approvals.len()
            invariant
                i <= self.approvals.order().len(),
                order == self.approvals.order(),
                self.wf(),
                s == self@,
                p == |id: ApprovalId| s.approvals[id].resolution is None,
                f == |id: ApprovalId| s.approvals[id],
                views(r@) == order.take(i as int).filter(p).map_values(f),
            decreases self.approvals.order().len() - i,
        {
            let approval = self.approvals.value_at(i);
            proof {
                self.approvals.position(i as int);
                crate::order::filter_step(order, p, i as int);
                assert(approval@ == s.approvals[order[i as int]]);
            }
            if approval.resolution.is_none() {
                proof {
                    let kept = order.take(i as int).filter(p);
                    views_push(r@, approval);
                    assert(kept.push(order[i as int]).map_values(f) =~= kept.map_values(f).push(
                        f(order[i as int]),
                    ));
                }
                r.push(approval);
            }
            i += 1;
        }
        assert(order.take(i as int) =~= order);
        r
    }

    /// The latest usage of each attempt, in id order.
    pub fn usages(&self) -> (r: Vec<Usage>)
        requires
            self.wf(),
        ensures
            r@ == self@.usages(),
    {
        let ghost order = self.attempts.order();
        proof {
            self.attempts.order_of_keys();
            seen_map_dom(self.attempts@);
        }
        let mut r: Vec<Usage> = Vec::new();
        let mut i: usize = 0;
        while i < self.attempts.len()
            invariant
                i <= self.attempts.order().len(),
                order == self.attempts.order(),
                order == self@.attempt_order(),
                self.wf(),
                r@ == self@.usages().take(i as int),
            decreases self.attempts.order().len() - i,
        {
            proof {
                self.attempts.position(i as int);
            }
            r.push(self.attempts.value_at(i).usage);
            assert(r@ =~= self@.usages().take(i + 1));
            i += 1;
        }
        assert(r@ =~= self@.usages());
        r
    }

    /// Usage summed over every attempt in the run.
    pub fn total_usage(&self) -> (r: Usage)
        requires
            self.wf(),
            Usage::sum_fits(self@.usages()),
        ensures
            r == Usage::sum_of(self@.usages()),
    {
        Usage::sum(&self.usages())
    }

    /// Usage summed over every attempt in the run, unless a figure runs out of
    /// room.
    pub fn checked_usage(&self) -> (r: Option<Usage>)
        requires
            self.wf(),
        ensures
            match r {
                Some(u) => Usage::sum_fits(self@.usages()) && u == Usage::sum_of(self@.usages()),
                None => !Usage::sum_fits(self@.usages()),
            },
    {
        Usage::checked_sum(&self.usages())
    }
}

impl RunState {
    /// Another state of the same run, that stands for the same.
    pub fn copy(&self) -> (r: RunState)
        requires
            self.wf(),
        ensures
            r.wf(),
            r@ == self@,
    {
        let r = RunState {
            id: self.id,
            spec: self.spec.duplicate(),
            status: self.status,
            stage: duplicate_opt(&self.stage),
            status_reason: duplicate_opt(&self.status_reason),
            plan_summary: duplicate_opt(&self.plan_summary),
            tasks: self.tasks.duplicate(),
            attempts: self.attempts.duplicate(),
            approvals: self.approvals.duplicate(),
            pull_request: duplicate_opt(&self.pull_request),
            created_at_ms: self.created_at_ms,
            updated_at_ms: self.updated_at_ms,
            last_seq: self.last_seq,
            task_keys: self.task_keys.duplicate(),
        };
        proof {
            assert(r@.tasks =~= self@.tasks);
            assert(r@.attempts =~= self@.attempts);
            assert(r@.approvals =~= self@.approvals);
            assert(r@.task_keys =~= self@.task_keys) by {
                assert forall|key: Seq<char>| self.task_keys@.dom().contains(
                    key,
                ) implies r.task_keys@[key] == self.task_keys@[key] by {
                    assert(r.task_keys@[key]@ == self.task_keys@[key]@);
                }
            }
        }
        r
    }
}

/// The task that an event names.
pub open spec fn task_named(kind: EventKindModel) -> Option<TaskId> {
    match kind {
        EventKindModel::TaskCreated { task_id, .. } => Some(task_id),
        EventKindModel::TaskStatusChanged { task_id, .. } => Some(task_id),
        EventKindModel::AttemptStarted { task_id, .. } => Some(task_id),
        EventKindModel::BranchIntegrated { task_id, .. } => Some(task_id),
        EventKindModel::IntegrationFailed { task_id, .. } => Some(task_id),
        _ => None,
    }
}

/// The attempt that an event names.
pub open spec fn attempt_named(kind: EventKindModel) -> Option<AttemptId> {
    match kind {
        EventKindModel::AttemptStarted { attempt_id, .. } => Some(attempt_id),
        EventKindModel::Agent { attempt_id, .. } => Some(attempt_id),
        EventKindModel::CheckCompleted { attempt_id, .. } => Some(attempt_id),
        EventKindModel::ReviewCompleted { attempt_id, .. } => Some(attempt_id),
        EventKindModel::AttemptFinished { attempt_id, .. } => Some(attempt_id),
        _ => None,
    }
}

/// An event changes nothing but what it names: no other task, no other attempt, no
/// approval that it does not speak of, and of the run itself only what it says. Time and
/// position move with it.
pub proof fn events_leave_the_rest(s: RunStateModel, event: EventModel)
    requires
        s.wf(),
        s.step(event) is Ok,
    ensures
        ({
            let t = s.step(event)->Ok_0;
            &&& t.id == s.id && t.spec == s.spec && t.created_at_ms == s.created_at_ms
            &&& t.last_seq == event.seq && t.updated_at_ms == event.at_ms
            &&& forall|id: TaskId| task_named(event.kind) != Some(id) ==> t.tasks.dom().contains(id)
                == #[trigger] s.tasks.dom().contains(id) && (s.tasks.dom().contains(id)
                ==> t.tasks[id] == s.tasks[id])
            &&& forall|id: AttemptId| attempt_named(event.kind) != Some(id)
                ==> t.attempts.dom().contains(id) == #[trigger] s.attempts.dom().contains(id)
                && (s.attempts.dom().contains(id) ==> t.attempts[id] == s.attempts[id])
            &&& !(event.kind is ApprovalRequested) && !(event.kind is ApprovalResolved)
                ==> t.approvals == s.approvals
            &&& !(event.kind is RunStatusChanged) ==> t.status == s.status && t.stage == s.stage
                && t.status_reason == s.status_reason
            &&& !(event.kind is PlanProposed) ==> t.plan_summary == s.plan_summary
            &&& !(event.kind is PullRequestOpened) ==> t.pull_request == s.pull_request
            &&& !(event.kind is TaskCreated) ==> t.task_keys == s.task_keys
        }),
{
}

/// What events say of tasks and of the run is what the state holds: the status with its
/// reason, what was integrated and what could not be; nothing else of the task changes.
pub proof fn task_events_take_effect(s: RunStateModel, event: EventModel)
    requires
        s.wf(),
        s.step(event) is Ok,
    ensures
        ({
            let t = s.step(event)->Ok_0;
            &&& event.kind matches EventKindModel::RunStatusChanged { status, stage, reason }
                ==> t.status == status && t.stage == stage && t.status_reason == reason
            &&& event.kind matches EventKindModel::PlanProposed { summary, .. } ==> t.plan_summary
                == Some(summary)
            &&& event.kind matches EventKindModel::TaskCreated { task_id, spec } ==> {
                let task = t.tasks[task_id];
                &&& t.tasks.dom().contains(task_id)
                &&& !s.task_keys.dom().contains(spec.key)
                &&& t.task_keys == s.task_keys.insert(spec.key, task_id)
                &&& task.id == task_id && task.spec == spec && task.status == TaskStatus::Pending
                &&& task.attempts.len() == 0
                &&& task.integrated_commit is None && task.last_integration_error is None
            }
            &&& event.kind matches EventKindModel::TaskStatusChanged { task_id, status, reason }
                ==> {
                let was = s.tasks[task_id];
                let task = t.tasks[task_id];
                &&& s.tasks.dom().contains(task_id) && t.tasks.dom().contains(task_id)
                &&& task.status == status && task.status_reason == reason
                &&& task.id == was.id && task.spec == was.spec && task.attempts == was.attempts
                &&& task.integrated_commit == was.integrated_commit
                &&& task.last_integration_error == was.last_integration_error
            }
            &&& event.kind matches EventKindModel::BranchIntegrated { task_id, commit, .. } ==> {
                let was = s.tasks[task_id];
                let task = t.tasks[task_id];
                &&& task.integrated_commit == Some(commit)
                &&& task.status == was.status && task.attempts == was.attempts && task.spec
                    == was.spec
            }
            &&& event.kind matches EventKindModel::IntegrationFailed { task_id, reason, .. } ==> {
                let was = s.tasks[task_id];
                let task = t.tasks[task_id];
                &&& task.last_integration_error == Some(reason)
                &&& task.status == was.status && task.attempts == was.attempts && task.spec
                    == was.spec
                &&& task.integrated_commit == was.integrated_commit
            }
            &&& event.kind matches EventKindModel::PullRequestOpened { url, number }
                ==> t.pull_request is Some && t.pull_request->0.url == url
                && t.pull_request->0.number == number
        }),
{
}

/// What events say of attempts is what the state holds. An attempt that starts is one
/// more of its task, has used nothing and has no outcome; what it does, its checks and
/// its reviews are added one by one; how it ended is kept with what it used.
pub proof fn attempt_events_take_effect(s: RunStateModel, event: EventModel)
    requires
        s.wf(),
        s.step(event) is Ok,
    ensures
        ({
            let t = s.step(event)->Ok_0;
            &&& event.kind matches EventKindModel::AttemptStarted {
                attempt_id,
                task_id,
                number,
                agent,
                branch,
                workspace_id,
            } ==> {
                let a = t.attempts[attempt_id];
                &&& t.tasks[task_id].attempts == s.tasks[task_id].attempts.push(attempt_id)
                &&& t.tasks[task_id].last_integration_error is None
                &&& t.tasks[task_id].status == s.tasks[task_id].status
                &&& t.attempts.dom().contains(attempt_id)
                &&& a.task_id == task_id && a.number == number && a.agent == agent && a.branch
                    == branch && a.workspace_id == workspace_id
                &&& a.outcome is None && a.checks.len() == 0 && a.session_id is None
                &&& a.usage.cost_usd.nanos == 0 && a.usage.tokens() == 0
                &&& a.started_at_ms == event.at_ms && a.finished_at_ms is None
            }
            &&& event.kind matches EventKindModel::Agent { attempt_id, event: e } ==> {
                let was = s.attempts[attempt_id];
                let a = t.attempts[attempt_id];
                &&& s.attempts.dom().contains(attempt_id)
                &&& a.outcome == was.outcome && a.checks == was.checks && a.branch == was.branch
                &&& a.task_id == was.task_id && a.number == was.number
                &&& was.activity_count < u64::MAX ==> a.activity_count == was.activity_count + 1
                &&& e matches AgentEventModel::Usage { usage } ==> a.usage == usage
                &&& e matches AgentEventModel::Finished { usage, .. } ==> a.usage == usage
                &&& !(e is Usage) && !(e is Finished) ==> a.usage == was.usage
                &&& e matches AgentEventModel::SessionStarted { session_id, .. } ==> a.session_id
                    == if session_id is Some {
                    session_id
                } else {
                    was.session_id
                }
                &&& !(e is SessionStarted) ==> a.session_id == was.session_id
            }
            &&& event.kind matches EventKindModel::CheckCompleted { attempt_id, result } ==> {
                let was = s.attempts[attempt_id];
                let a = t.attempts[attempt_id];
                &&& s.attempts.dom().contains(attempt_id)
                &&& a.checks == was.checks.push(result)
                &&& a.outcome == was.outcome && a.usage == was.usage
            }
            &&& event.kind matches EventKindModel::ReviewCompleted { attempt_id, .. } ==> {
                &&& s.attempts.dom().contains(attempt_id)
                &&& t.attempts[attempt_id].reviews.len() == s.attempts[attempt_id].reviews.len() + 1
                &&& t.attempts[attempt_id].outcome == s.attempts[attempt_id].outcome
                &&& t.attempts[attempt_id].usage == s.attempts[attempt_id].usage
            }
            &&& event.kind matches EventKindModel::AttemptFinished { attempt_id, outcome, usage }
                ==> {
                let was = s.attempts[attempt_id];
                let a = t.attempts[attempt_id];
                &&& s.attempts.dom().contains(attempt_id)
                &&& a.outcome == Some(outcome) && a.usage == usage && a.finished_at_ms == Some(
                    event.at_ms,
                )
                &&& a.checks == was.checks && a.task_id == was.task_id && a.branch == was.branch
            }
        }),
{
}

/// What events say of approvals is what the state holds: a request waits until it is
/// answered, and the answer stays with it.
pub proof fn approval_events_take_effect(s: RunStateModel, event: EventModel)
    requires
        s.step(event) is Ok,
    ensures
        ({
            let t = s.step(event)->Ok_0;
            &&& event.kind matches EventKindModel::ApprovalRequested {
                approval_id,
                kind,
                title,
                details,
                task_id,
            } ==> {
                let a = t.approvals[approval_id];
                &&& t.approvals.dom() == s.approvals.dom().insert(approval_id)
                &&& a.kind == kind && a.title == title && a.details == details && a.task_id
                    == task_id
                &&& a.requested_at_ms == event.at_ms && a.resolution is None
            }
            &&& event.kind matches EventKindModel::ApprovalResolved {
                approval_id,
                decision,
                by,
                comment,
            } ==> {
                let a = t.approvals[approval_id];
                &&& s.approvals.dom().contains(approval_id)
                &&& s.approvals[approval_id].resolution is None
                &&& a.resolution is Some
                &&& a.resolution->0.decision == decision && a.resolution->0.by == by
                &&& a.resolution->0.comment == comment && a.resolution->0.at_ms == event.at_ms
                &&& a.title == s.approvals[approval_id].title
            }
        }),
{
    let t = s.step(event)->Ok_0;
    if let EventKindModel::ApprovalRequested { approval_id, .. } = event.kind {
        assert(t.approvals.dom() =~= s.approvals.dom().insert(approval_id));
    }
}

/// When an event is refused: it is of another run, not after the last one, a second
/// creation, a task under a key that is taken, or it names a task, an attempt or an
/// approval that is not there, or one that is answered already; and in no other case.
pub proof fn refused_events_do_not_fit(s: RunStateModel, event: EventModel)
    ensures
        s.step(event) is Err <==> {
            ||| event.run_id != s.id
            ||| event.seq <= s.last_seq
            ||| event.kind is RunCreated
            ||| (event.kind matches EventKindModel::TaskCreated { spec, .. }
                && s.task_keys.dom().contains(spec.key))
            ||| (!(event.kind is TaskCreated) && task_named(event.kind) is Some
                && !s.tasks.dom().contains(task_named(event.kind)->0))
            ||| (!(event.kind is AttemptStarted) && attempt_named(event.kind) is Some
                && !s.attempts.dom().contains(attempt_named(event.kind)->0))
            ||| (event.kind matches EventKindModel::ApprovalResolved { approval_id, .. } && (
            !s.approvals.dom().contains(approval_id) || s.approvals[approval_id].resolution is Some))
        },
{
}

/// A run starts with its creation, and with nothing else: it waits, without tasks,
/// attempts or approvals.
pub proof fn runs_start_empty(event: EventModel)
    ensures
        RunStateModel::start(event) is Ok <==> event.kind is RunCreated,
        RunStateModel::start(event) matches Ok(s) ==> {
            &&& event.kind matches EventKindModel::RunCreated { spec } && s.spec == spec
            &&& s.id == event.run_id && s.last_seq == event.seq
            &&& s.created_at_ms == event.at_ms && s.updated_at_ms == event.at_ms
            &&& s.status == RunStatus::Pending
            &&& forall|id: TaskId| !#[trigger] s.tasks.dom().contains(id)
            &&& forall|id: AttemptId| !#[trigger] s.attempts.dom().contains(id)
            &&& forall|id: ApprovalId| !#[trigger] s.approvals.dom().contains(id)
        },
{
}

/// The tasks that can start are those of the run that have not started, or are to be
/// tried again, and whose dependencies are all done; no other task is among them, and
/// none of them is left out.
pub proof fn ready_tasks_can_start(s: RunStateModel, id: TaskId)
    requires
        s.tasks.dom().finite(),
    ensures
        s.ready().contains(id) <==> {
            &&& s.tasks.dom().contains(id)
            &&& s.tasks[id].status is Pending || s.tasks[id].status is Ready
            &&& forall|key: Seq<char>| #[trigger]
                s.tasks[id].spec.depends_on.contains(key) && s.task_keys.dom().contains(key)
                    && s.task_keys[key] != id ==> s.tasks[s.task_keys[key]].status
                    == TaskStatus::Done
        },
{
    let p = |id: TaskId| s.is_ready(id);
    let all = s.task_order();
    crate::order::in_order_lists::<TaskId>(s.tasks.dom());
    assert(all.to_set().contains(id) == all.contains(id));
    if s.ready().contains(id) {
        all.lemma_filter_contains_rev(p, id);
        let i = s.ready().index_of(id);
        all.lemma_filter_pred(p, i);
        assert(s.is_ready(id));
        assert forall|key: Seq<char>| #[trigger]
            s.tasks[id].spec.depends_on.contains(key) && s.task_keys.dom().contains(key)
                && s.task_keys[key] != id implies s.tasks[s.task_keys[key]].status
            == TaskStatus::Done by {
            assert(s.needs(id, s.task_keys[key]));
        }
    }
    if s.tasks.dom().contains(id) && s.is_ready(id) {
        let i = all.index_of(id);
        all.lemma_filter_contains(p, i);
    }
}

/// Approvals that wait for a human are those without an answer, in the order in which
/// ids come.
pub proof fn pending_approvals_wait(s: RunStateModel, id: ApprovalId)
    requires
        s.approvals.dom().finite(),
    ensures
        s.approvals.dom().contains(id) && s.approvals[id].resolution is None
            ==> s.pending().contains(s.approvals[id]),
        forall|i: int|
            0 <= i < s.pending().len() ==> (#[trigger] s.pending()[i]).resolution is None,
{
    let p = |id: ApprovalId| s.approvals[id].resolution is None;
    let all = s.approval_order();
    crate::order::in_order_lists::<ApprovalId>(s.approvals.dom());
    if s.approvals.dom().contains(id) && s.approvals[id].resolution is None {
        assert(all.to_set().contains(id));
        let i = all.index_of(id);
        all.lemma_filter_contains(p, i);
        let k = all.filter(p).index_of(id);
        assert(s.pending()[k] == s.approvals[id]);
    }
    assert forall|i: int| 0 <= i < s.pending().len() implies (#[trigger] s.pending()[i]).resolution is None by {
        all.lemma_filter_pred(p, i);
    }
}

/// What a run has used is what each of its attempts reported last, all together, once
/// each.
pub proof fn every_attempt_counts(s: RunStateModel, id: AttemptId)
    requires
        s.attempts.dom().finite(),
        s.attempts.dom().contains(id),
    ensures
        s.usages().len() == s.attempts.dom().len(),
        s.usages().contains(s.attempts[id].usage),
{
    let all = s.attempt_order();
    crate::order::in_order_lists::<AttemptId>(s.attempts.dom());
    assert(all.to_set().contains(id));
    let i = all.index_of(id);
    assert(s.usages()[i] == s.attempts[id].usage);
    assert(all.no_duplicates()) by {
        assert forall|i: int, j: int| 0 <= i < all.len() && 0 <= j < all.len() && i
            != j implies all[i] != all[j] by {
            crate::order::increasing_index::<AttemptId>(all, i);
            crate::order::increasing_index::<AttemptId>(all, j);
        }
    }
    all.unique_seq_to_set();
}

} // verus!
