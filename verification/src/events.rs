//! Events: the only way state changes.
//!
//! Every change to a run is an [`EventKind`] appended to the run's log. The
//! log is the source of truth for crash recovery, for the live UI (which
//! subscribes to it) and for replay.

use vstd::prelude::*;

use crate::budget::{BudgetExceeded, Usage};
use crate::ids::{ApprovalId, AttemptId, RunId, TaskId, WorkspaceId};
use crate::json::{Json, JsonModel};
use crate::model::{
    AgentRef, AgentRefModel, ApprovalKind, AttemptOutcome, AttemptOutcomeModel, CheckResult,
    CheckResultModel, Decision, Finding, FindingModel, ReviewVerdict, RunSpec, RunSpecModel,
    RunStatus, TaskSpec, TaskSpecModel, TaskStatus,
};
use crate::text::{duplicate_all, duplicate_opt, seen, views, Duplicate};

verus! {

/// How much a diagnostic matters.
#[derive(Debug, Clone, Copy, PartialEq, Eq, Structural)]
pub enum LogLevel {
    Debug,
    Info,
    Warn,
    Error,
}

/// What an agent did, normalized across command-line agents, ACP agents and
/// any other runtime. Adapters map their native stream into these.
#[allow(inconsistent_fields)]
#[derive(Debug, PartialEq)]
pub enum AgentEvent {
    SessionStarted {
        /// The runtime's own session id, used to resume.
        session_id: Option<String>,
        model: Option<String>,
    },
    /// Assistant-visible text.
    Message {
        text: String,
    },
    /// Reasoning summary or progress note, when the runtime exposes one.
    Thinking {
        text: String,
    },
    ToolCall {
        call_id: String,
        tool: String,
        input: Json,
    },
    ToolResult {
        call_id: String,
        output: String,
        is_error: bool,
    },
    /// The agent is blocked waiting for a permission decision.
    PermissionRequested {
        request_id: String,
        tool: String,
        input: Json,
    },
    /// Cumulative usage for the attempt so far (not a delta), so a dropped or
    /// repeated report never skews totals.
    Usage {
        usage: Usage,
    },
    /// Diagnostics that are not part of the conversation (stderr, warnings).
    Log {
        level: LogLevel,
        message: String,
    },
    /// The agent's turn ended.
    Finished {
        success: bool,
        summary: Option<String>,
        usage: Usage,
    },
}

/// What a value of type `AgentEvent` stands for.
#[allow(inconsistent_fields)]
#[verifier::ext_equal]
pub enum AgentEventModel {
    SessionStarted { session_id: Option<Seq<char>>, model: Option<Seq<char>> },
    Message { text: Seq<char> },
    Thinking { text: Seq<char> },
    ToolCall { call_id: Seq<char>, tool: Seq<char>, input: JsonModel },
    ToolResult { call_id: Seq<char>, output: Seq<char>, is_error: bool },
    PermissionRequested { request_id: Seq<char>, tool: Seq<char>, input: JsonModel },
    Usage { usage: Usage },
    Log { level: LogLevel, message: Seq<char> },
    Finished { success: bool, summary: Option<Seq<char>>, usage: Usage },
}

impl View for AgentEvent {
    type V = AgentEventModel;

    open spec fn view(&self) -> AgentEventModel {
        match self {
            AgentEvent::SessionStarted { session_id, model } => AgentEventModel::SessionStarted {
                session_id: seen(*session_id),
                model: seen(*model),
            },
            AgentEvent::Message { text } => AgentEventModel::Message {
                text: text@,
            },
            AgentEvent::Thinking { text } => AgentEventModel::Thinking {
                text: text@,
            },
            AgentEvent::ToolCall { call_id, tool, input } => AgentEventModel::ToolCall {
                call_id: call_id@,
                tool: tool@,
                input: input@,
            },
            AgentEvent::ToolResult { call_id, output, is_error } => AgentEventModel::ToolResult {
                call_id: call_id@,
                output: output@,
                is_error: *is_error,
            },
            AgentEvent::PermissionRequested { request_id, tool, input } => AgentEventModel::PermissionRequested {
                request_id: request_id@,
                tool: tool@,
                input: input@,
            },
            AgentEvent::Usage { usage } => AgentEventModel::Usage {
                usage: *usage,
            },
            AgentEvent::Log { level, message } => AgentEventModel::Log {
                level: *level,
                message: message@,
            },
            AgentEvent::Finished { success, summary, usage } => AgentEventModel::Finished {
                success: *success,
                summary: seen(*summary),
                usage: *usage,
            },
        }
    }
}

impl Duplicate for AgentEvent {
    fn duplicate(&self) -> (r: AgentEvent) {
        match self {
            AgentEvent::SessionStarted { session_id, model } => AgentEvent::SessionStarted {
                session_id: duplicate_opt(session_id),
                model: duplicate_opt(model),
            },
            AgentEvent::Message { text } => AgentEvent::Message {
                text: text.clone(),
            },
            AgentEvent::Thinking { text } => AgentEvent::Thinking {
                text: text.clone(),
            },
            AgentEvent::ToolCall { call_id, tool, input } => AgentEvent::ToolCall {
                call_id: call_id.clone(),
                tool: tool.clone(),
                input: input.duplicate(),
            },
            AgentEvent::ToolResult { call_id, output, is_error } => AgentEvent::ToolResult {
                call_id: call_id.clone(),
                output: output.clone(),
                is_error: *is_error,
            },
            AgentEvent::PermissionRequested { request_id, tool, input } => AgentEvent::PermissionRequested {
                request_id: request_id.clone(),
                tool: tool.clone(),
                input: input.duplicate(),
            },
            AgentEvent::Usage { usage } => AgentEvent::Usage {
                usage: *usage,
            },
            AgentEvent::Log { level, message } => AgentEvent::Log {
                level: *level,
                message: message.clone(),
            },
            AgentEvent::Finished { success, summary, usage } => AgentEvent::Finished {
                success: *success,
                summary: duplicate_opt(summary),
                usage: *usage,
            },
        }
    }
}

impl Clone for AgentEvent {
    fn clone(&self) -> (r: AgentEvent)
        ensures
            r@ == self@,
    {
        self.duplicate()
    }
}

/// A change to a run.
#[allow(inconsistent_fields)]
#[derive(Debug, PartialEq)]
pub enum EventKind {
    RunCreated {
        spec: RunSpec,
    },
    RunStatusChanged {
        status: RunStatus,
        /// The pipeline stage the run is in, when running.
        stage: Option<String>,
        reason: Option<String>,
    },
    PlanProposed {
        summary: String,
        tasks: Vec<TaskSpec>,
    },
    TaskCreated {
        task_id: TaskId,
        spec: TaskSpec,
    },
    TaskStatusChanged {
        task_id: TaskId,
        status: TaskStatus,
        reason: Option<String>,
    },
    AttemptStarted {
        attempt_id: AttemptId,
        task_id: TaskId,
        /// 1-based attempt number for its task.
        number: u32,
        agent: AgentRef,
        workspace_id: WorkspaceId,
        branch: String,
    },
    /// Something the agent did, normalized across runtimes.
    Agent {
        attempt_id: AttemptId,
        event: AgentEvent,
    },
    CheckCompleted {
        attempt_id: AttemptId,
        result: CheckResult,
    },
    ReviewCompleted {
        attempt_id: AttemptId,
        reviewer: AgentRef,
        verdict: ReviewVerdict,
        findings: Vec<Finding>,
    },
    AttemptFinished {
        attempt_id: AttemptId,
        outcome: AttemptOutcome,
        usage: Usage,
    },
    ApprovalRequested {
        approval_id: ApprovalId,
        kind: ApprovalKind,
        title: String,
        details: String,
        task_id: Option<TaskId>,
    },
    ApprovalResolved {
        approval_id: ApprovalId,
        decision: Decision,
        by: String,
        comment: Option<String>,
    },
    BranchIntegrated {
        task_id: TaskId,
        branch: String,
        commit: String,
    },
    /// A verified attempt could not be integrated (merge conflict, or checks
    /// failing on the combined code); the task will be retried on top of the
    /// new integration head.
    IntegrationFailed {
        task_id: TaskId,
        attempt_id: AttemptId,
        reason: String,
    },
    PullRequestOpened {
        url: String,
        number: Option<u64>,
    },
    BudgetExceeded {
        exceeded: BudgetExceeded,
    },
}

/// What a value of type `EventKind` stands for.
#[allow(inconsistent_fields)]
#[verifier::ext_equal]
pub enum EventKindModel {
    RunCreated { spec: RunSpecModel },
    RunStatusChanged { status: RunStatus, stage: Option<Seq<char>>, reason: Option<Seq<char>> },
    PlanProposed { summary: Seq<char>, tasks: Seq<TaskSpecModel> },
    TaskCreated { task_id: TaskId, spec: TaskSpecModel },
    TaskStatusChanged { task_id: TaskId, status: TaskStatus, reason: Option<Seq<char>> },
    AttemptStarted { attempt_id: AttemptId, task_id: TaskId, number: u32, agent: AgentRefModel, workspace_id: WorkspaceId, branch: Seq<char> },
    Agent { attempt_id: AttemptId, event: AgentEventModel },
    CheckCompleted { attempt_id: AttemptId, result: CheckResultModel },
    ReviewCompleted { attempt_id: AttemptId, reviewer: AgentRefModel, verdict: ReviewVerdict, findings: Seq<FindingModel> },
    AttemptFinished { attempt_id: AttemptId, outcome: AttemptOutcomeModel, usage: Usage },
    ApprovalRequested { approval_id: ApprovalId, kind: ApprovalKind, title: Seq<char>, details: Seq<char>, task_id: Option<TaskId> },
    ApprovalResolved { approval_id: ApprovalId, decision: Decision, by: Seq<char>, comment: Option<Seq<char>> },
    BranchIntegrated { task_id: TaskId, branch: Seq<char>, commit: Seq<char> },
    IntegrationFailed { task_id: TaskId, attempt_id: AttemptId, reason: Seq<char> },
    PullRequestOpened { url: Seq<char>, number: Option<u64> },
    BudgetExceeded { exceeded: BudgetExceeded },
}

impl View for EventKind {
    type V = EventKindModel;

    open spec fn view(&self) -> EventKindModel {
        match self {
            EventKind::RunCreated { spec } => EventKindModel::RunCreated {
                spec: spec@,
            },
            EventKind::RunStatusChanged { status, stage, reason } => EventKindModel::RunStatusChanged {
                status: *status,
                stage: seen(*stage),
                reason: seen(*reason),
            },
            EventKind::PlanProposed { summary, tasks } => EventKindModel::PlanProposed {
                summary: summary@,
                tasks: views(tasks@),
            },
            EventKind::TaskCreated { task_id, spec } => EventKindModel::TaskCreated {
                task_id: *task_id,
                spec: spec@,
            },
            EventKind::TaskStatusChanged { task_id, status, reason } => EventKindModel::TaskStatusChanged {
                task_id: *task_id,
                status: *status,
                reason: seen(*reason),
            },
            EventKind::AttemptStarted { attempt_id, task_id, number, agent, workspace_id, branch } => EventKindModel::AttemptStarted {
                attempt_id: *attempt_id,
                task_id: *task_id,
                number: *number,
                agent: agent@,
                workspace_id: *workspace_id,
                branch: branch@,
            },
            EventKind::Agent { attempt_id, event } => EventKindModel::Agent {
                attempt_id: *attempt_id,
                event: event@,
            },
            EventKind::CheckCompleted { attempt_id, result } => EventKindModel::CheckCompleted {
                attempt_id: *attempt_id,
                result: result@,
            },
            EventKind::ReviewCompleted { attempt_id, reviewer, verdict, findings } => EventKindModel::ReviewCompleted {
                attempt_id: *attempt_id,
                reviewer: reviewer@,
                verdict: *verdict,
                findings: views(findings@),
            },
            EventKind::AttemptFinished { attempt_id, outcome, usage } => EventKindModel::AttemptFinished {
                attempt_id: *attempt_id,
                outcome: outcome@,
                usage: *usage,
            },
            EventKind::ApprovalRequested { approval_id, kind, title, details, task_id } => EventKindModel::ApprovalRequested {
                approval_id: *approval_id,
                kind: *kind,
                title: title@,
                details: details@,
                task_id: *task_id,
            },
            EventKind::ApprovalResolved { approval_id, decision, by, comment } => EventKindModel::ApprovalResolved {
                approval_id: *approval_id,
                decision: *decision,
                by: by@,
                comment: seen(*comment),
            },
            EventKind::BranchIntegrated { task_id, branch, commit } => EventKindModel::BranchIntegrated {
                task_id: *task_id,
                branch: branch@,
                commit: commit@,
            },
            EventKind::IntegrationFailed { task_id, attempt_id, reason } => EventKindModel::IntegrationFailed {
                task_id: *task_id,
                attempt_id: *attempt_id,
                reason: reason@,
            },
            EventKind::PullRequestOpened { url, number } => EventKindModel::PullRequestOpened {
                url: url@,
                number: *number,
            },
            EventKind::BudgetExceeded { exceeded } => EventKindModel::BudgetExceeded {
                exceeded: *exceeded,
            },
        }
    }
}

impl Duplicate for EventKind {
    fn duplicate(&self) -> (r: EventKind) {
        match self {
            EventKind::RunCreated { spec } => EventKind::RunCreated {
                spec: spec.duplicate(),
            },
            EventKind::RunStatusChanged { status, stage, reason } => EventKind::RunStatusChanged {
                status: *status,
                stage: duplicate_opt(stage),
                reason: duplicate_opt(reason),
            },
            EventKind::PlanProposed { summary, tasks } => EventKind::PlanProposed {
                summary: summary.clone(),
                tasks: duplicate_all(tasks),
            },
            EventKind::TaskCreated { task_id, spec } => EventKind::TaskCreated {
                task_id: *task_id,
                spec: spec.duplicate(),
            },
            EventKind::TaskStatusChanged { task_id, status, reason } => EventKind::TaskStatusChanged {
                task_id: *task_id,
                status: *status,
                reason: duplicate_opt(reason),
            },
            EventKind::AttemptStarted { attempt_id, task_id, number, agent, workspace_id, branch } => EventKind::AttemptStarted {
                attempt_id: *attempt_id,
                task_id: *task_id,
                number: *number,
                agent: agent.duplicate(),
                workspace_id: *workspace_id,
                branch: branch.clone(),
            },
            EventKind::Agent { attempt_id, event } => EventKind::Agent {
                attempt_id: *attempt_id,
                event: event.duplicate(),
            },
            EventKind::CheckCompleted { attempt_id, result } => EventKind::CheckCompleted {
                attempt_id: *attempt_id,
                result: result.duplicate(),
            },
            EventKind::ReviewCompleted { attempt_id, reviewer, verdict, findings } => EventKind::ReviewCompleted {
                attempt_id: *attempt_id,
                reviewer: reviewer.duplicate(),
                verdict: *verdict,
                findings: duplicate_all(findings),
            },
            EventKind::AttemptFinished { attempt_id, outcome, usage } => EventKind::AttemptFinished {
                attempt_id: *attempt_id,
                outcome: outcome.duplicate(),
                usage: *usage,
            },
            EventKind::ApprovalRequested { approval_id, kind, title, details, task_id } => EventKind::ApprovalRequested {
                approval_id: *approval_id,
                kind: *kind,
                title: title.clone(),
                details: details.clone(),
                task_id: *task_id,
            },
            EventKind::ApprovalResolved { approval_id, decision, by, comment } => EventKind::ApprovalResolved {
                approval_id: *approval_id,
                decision: *decision,
                by: by.clone(),
                comment: duplicate_opt(comment),
            },
            EventKind::BranchIntegrated { task_id, branch, commit } => EventKind::BranchIntegrated {
                task_id: *task_id,
                branch: branch.clone(),
                commit: commit.clone(),
            },
            EventKind::IntegrationFailed { task_id, attempt_id, reason } => EventKind::IntegrationFailed {
                task_id: *task_id,
                attempt_id: *attempt_id,
                reason: reason.clone(),
            },
            EventKind::PullRequestOpened { url, number } => EventKind::PullRequestOpened {
                url: url.clone(),
                number: *number,
            },
            EventKind::BudgetExceeded { exceeded } => EventKind::BudgetExceeded {
                exceeded: *exceeded,
            },
        }
    }
}

impl Clone for EventKind {
    fn clone(&self) -> (r: EventKind)
        ensures
            r@ == self@,
    {
        self.duplicate()
    }
}

impl EventKindModel {
    /// The type tag of an event.
    pub open spec fn name(self) -> Seq<char> {
        match self {
            EventKindModel::RunCreated { .. } => "run_created"@,
            EventKindModel::RunStatusChanged { .. } => "run_status_changed"@,
            EventKindModel::PlanProposed { .. } => "plan_proposed"@,
            EventKindModel::TaskCreated { .. } => "task_created"@,
            EventKindModel::TaskStatusChanged { .. } => "task_status_changed"@,
            EventKindModel::AttemptStarted { .. } => "attempt_started"@,
            EventKindModel::Agent { .. } => "agent"@,
            EventKindModel::CheckCompleted { .. } => "check_completed"@,
            EventKindModel::ReviewCompleted { .. } => "review_completed"@,
            EventKindModel::AttemptFinished { .. } => "attempt_finished"@,
            EventKindModel::ApprovalRequested { .. } => "approval_requested"@,
            EventKindModel::ApprovalResolved { .. } => "approval_resolved"@,
            EventKindModel::BranchIntegrated { .. } => "branch_integrated"@,
            EventKindModel::IntegrationFailed { .. } => "integration_failed"@,
            EventKindModel::PullRequestOpened { .. } => "pull_request_opened"@,
            EventKindModel::BudgetExceeded { .. } => "budget_exceeded"@,
        }
    }
}

impl EventKind {
    /// The event's type tag, handy for logs and indexing.
    pub fn name(&self) -> (r: &'static str)
        ensures
            r@ == self@.name(),
    {
        match self {
            EventKind::RunCreated { .. } => "run_created",
            EventKind::RunStatusChanged { .. } => "run_status_changed",
            EventKind::PlanProposed { .. } => "plan_proposed",
            EventKind::TaskCreated { .. } => "task_created",
            EventKind::TaskStatusChanged { .. } => "task_status_changed",
            EventKind::AttemptStarted { .. } => "attempt_started",
            EventKind::Agent { .. } => "agent",
            EventKind::CheckCompleted { .. } => "check_completed",
            EventKind::ReviewCompleted { .. } => "review_completed",
            EventKind::AttemptFinished { .. } => "attempt_finished",
            EventKind::ApprovalRequested { .. } => "approval_requested",
            EventKind::ApprovalResolved { .. } => "approval_resolved",
            EventKind::BranchIntegrated { .. } => "branch_integrated",
            EventKind::IntegrationFailed { .. } => "integration_failed",
            EventKind::PullRequestOpened { .. } => "pull_request_opened",
            EventKind::BudgetExceeded { .. } => "budget_exceeded",
        }
    }
}

/// A stored event: a change plus where it sits in the log.
#[derive(Debug, PartialEq)]
pub struct Event {
    /// Position in the global log. Strictly increasing, so a client that saw
    /// `seq = n` resumes with "everything after n".
    pub seq: u64,
    pub run_id: RunId,
    /// Unix time in milliseconds.
    pub at_ms: i64,
    pub kind: EventKind,
}

/// What a value of type `Event` stands for.
#[verifier::ext_equal]
pub struct EventModel {
    pub seq: u64,
    pub run_id: RunId,
    pub at_ms: i64,
    pub kind: EventKindModel,
}

impl View for Event {
    type V = EventModel;

    open spec fn view(&self) -> EventModel {
        EventModel {
            seq: self.seq,
            run_id: self.run_id,
            at_ms: self.at_ms,
            kind: self.kind@,
        }
    }
}

impl Duplicate for Event {
    fn duplicate(&self) -> (r: Event) {
        Event {
            seq: self.seq,
            run_id: self.run_id,
            at_ms: self.at_ms,
            kind: self.kind.duplicate(),
        }
    }
}

impl Clone for Event {
    fn clone(&self) -> (r: Event)
        ensures
            r@ == self@,
    {
        self.duplicate()
    }
}

} // verus!
