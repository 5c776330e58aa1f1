//! One attempt: an agent session working on one task in its own worktree,
//! followed by deterministic checks and bounded fix rounds.
//!
//! The session, the worktree and the checks are run by the caller. What was
//! seen of them comes in here, and what to do next goes out.

use vstd::prelude::*;

use crate::agent::{PermissionDecision, PermissionDecisionModel, PermissionMode, StartRequest};
use crate::budget::{Budget, Usage};
use crate::checks::{all_passed, passed};
use crate::config::{
    AgentConfig, AgentConfigModel, Check, CheckModel, Limits, PermissionModeSetting,
    PermissionPolicy, PermissionPolicyModel, PolicyDecision, PolicyDecisionModel,
};
use crate::events::{AgentEvent, AgentEventModel, EventKind, EventKindModel};
use crate::git::{GitError, GitErrorModel};
use crate::ids::{session_text, is_session_name, ApprovalId, AttemptId, RunId, TaskId};
use crate::json::{json_pretty, json_print_pretty, Json, JsonModel};
use crate::model::{
    ApprovalKind, AttemptOutcome, AttemptOutcomeModel, CheckResult, CheckResultModel, Decision,
    FailureKind, RunSpec, RunSpecModel, TaskSpec, TaskSpecModel,
};
use crate::money::Usd;
use crate::order::{filter_none, filter_step, Key, OrdMap};
use crate::prompts::{
    check_failure_feedback, failure_sections, failures_are_told, held_further, prompt_text,
    task_prompt, IMPLEMENTER_SYSTEM,
};
use crate::schedule::joined_parts_are_held;
use crate::text::{
    decimal, duplicate_all, duplicate_opt, holds, join, join_texts, same, seen, texts, u64_text,
    views, views_push, Duplicate,
};
use crate::ui::seven_are_held;

verus! {

/// Everything an attempt needs to run.
#[derive(Debug, PartialEq)]
pub struct AttemptContext {
    pub run_id: RunId,
    pub run: RunSpec,
    pub task_id: TaskId,
    pub task: TaskSpec,
    pub attempt_id: AttemptId,
    pub number: u32,
    pub branch: String,
    pub worktree_path: String,
    /// The integration head that the attempt starts from.
    pub base_sha: String,
    pub agent: AgentConfig,
    pub checks: Vec<Check>,
    pub policy: PermissionPolicy,
    pub limits: Limits,
    /// This attempt's share of the run's remaining spend, enforced by the agent
    /// itself where the runtime supports it, so a single long turn cannot
    /// overshoot the run's budget.
    pub max_budget_usd: Option<Usd>,
    pub feedback: Option<String>,
    /// The run's budget, and what the rest of the run had spent when this
    /// attempt started.
    pub budget: Budget,
    pub spent_before: Usage,
}

/// What a value of type `AttemptContext` stands for.
#[verifier::ext_equal]
pub struct AttemptContextModel {
    pub run_id: RunId,
    pub run: RunSpecModel,
    pub task_id: TaskId,
    pub task: TaskSpecModel,
    pub attempt_id: AttemptId,
    pub number: u32,
    pub branch: Seq<char>,
    pub worktree_path: Seq<char>,
    pub base_sha: Seq<char>,
    pub agent: AgentConfigModel,
    pub checks: Seq<CheckModel>,
    pub policy: PermissionPolicyModel,
    pub limits: Limits,
    pub max_budget_usd: Option<Usd>,
    pub feedback: Option<Seq<char>>,
    pub budget: Budget,
    pub spent_before: Usage,
}

impl View for AttemptContext {
    type V = AttemptContextModel;

    open spec fn view(&self) -> AttemptContextModel {
        AttemptContextModel {
            run_id: self.run_id,
            run: self.run@,
            task_id: self.task_id,
            task: self.task@,
            attempt_id: self.attempt_id,
            number: self.number,
            branch: self.branch@,
            worktree_path: self.worktree_path@,
            base_sha: self.base_sha@,
            agent: self.agent@,
            checks: views(self.checks@),
            policy: self.policy@,
            limits: self.limits,
            max_budget_usd: self.max_budget_usd,
            feedback: seen(self.feedback),
            budget: self.budget,
            spent_before: self.spent_before,
        }
    }
}

impl Duplicate for AttemptContext {
    fn duplicate(&self) -> (r: AttemptContext) {
        AttemptContext {
            run_id: self.run_id,
            run: self.run.duplicate(),
            task_id: self.task_id,
            task: self.task.duplicate(),
            attempt_id: self.attempt_id,
            number: self.number,
            branch: self.branch.clone(),
            worktree_path: self.worktree_path.clone(),
            base_sha: self.base_sha.clone(),
            agent: self.agent.duplicate(),
            checks: duplicate_all(&self.checks),
            policy: self.policy.duplicate(),
            limits: self.limits,
            max_budget_usd: self.max_budget_usd,
            feedback: duplicate_opt(&self.feedback),
            budget: self.budget,
            spent_before: self.spent_before,
        }
    }
}

impl Clone for AttemptContext {
    fn clone(&self) -> (r: AttemptContext)
        ensures
            r@ == self@,
    {
        self.duplicate()
    }
}

/// How an attempt ended.
#[derive(Debug, PartialEq)]
pub struct AttemptReport {
    pub task_id: TaskId,
    pub attempt_id: AttemptId,
    pub branch: String,
    pub outcome: AttemptOutcome,
}

/// What a value of type `AttemptReport` stands for.
#[verifier::ext_equal]
pub struct AttemptReportModel {
    pub task_id: TaskId,
    pub attempt_id: AttemptId,
    pub branch: Seq<char>,
    pub outcome: AttemptOutcomeModel,
}

impl View for AttemptReport {
    type V = AttemptReportModel;

    open spec fn view(&self) -> AttemptReportModel {
        AttemptReportModel {
            task_id: self.task_id,
            attempt_id: self.attempt_id,
            branch: self.branch@,
            outcome: self.outcome@,
        }
    }
}

impl Duplicate for AttemptReport {
    fn duplicate(&self) -> (r: AttemptReport) {
        AttemptReport {
            task_id: self.task_id,
            attempt_id: self.attempt_id,
            branch: self.branch.clone(),
            outcome: self.outcome.duplicate(),
        }
    }
}

impl Clone for AttemptReport {
    fn clone(&self) -> (r: AttemptReport)
        ensures
            r@ == self@,
    {
        self.duplicate()
    }
}

/// What to do next in an attempt.
#[allow(inconsistent_fields)]
#[derive(Debug, PartialEq)]
pub enum AttemptMove {
    /// Wait for the next event of the session.
    Wait,
    /// Answer a permission request of the agent.
    Answer {
        request_id: String,
        tool: String,
        input: Json,
    },
    /// Commit the agent's work under this message, then go on with
    /// [`AttemptRun::committed`].
    Commit {
        message: String,
        success: bool,
        summary: Option<String>,
    },
    /// Read the head of the worktree, then go on with [`AttemptRun::headed`].
    ReadHead,
    /// Run the checks, then go on with [`AttemptRun::verified`].
    Check {
        head: String,
    },
    /// Send the feedback to the agent. Where that fails, go on with
    /// [`AttemptRun::unsent`].
    Send {
        feedback: String,
    },
    /// Interrupt the agent; the attempt is over.
    Interrupt {
        outcome: AttemptOutcome,
    },
    /// The attempt is over.
    Stop {
        outcome: AttemptOutcome,
    },
}

/// What a value of type `AttemptMove` stands for.
#[allow(inconsistent_fields)]
#[verifier::ext_equal]
pub enum AttemptMoveModel {
    Wait,
    Answer { request_id: Seq<char>, tool: Seq<char>, input: JsonModel },
    Commit { message: Seq<char>, success: bool, summary: Option<Seq<char>> },
    ReadHead,
    Check { head: Seq<char> },
    Send { feedback: Seq<char> },
    Interrupt { outcome: AttemptOutcomeModel },
    Stop { outcome: AttemptOutcomeModel },
}

impl View for AttemptMove {
    type V = AttemptMoveModel;

    open spec fn view(&self) -> AttemptMoveModel {
        match self {
            AttemptMove::Wait => AttemptMoveModel::Wait,
            AttemptMove::Answer { request_id, tool, input } => AttemptMoveModel::Answer {
                request_id: request_id@,
                tool: tool@,
                input: input@,
            },
            AttemptMove::Commit { message, success, summary } => AttemptMoveModel::Commit {
                message: message@,
                success: *success,
                summary: seen(*summary),
            },
            AttemptMove::ReadHead => AttemptMoveModel::ReadHead,
            AttemptMove::Check { head } => AttemptMoveModel::Check {
                head: head@,
            },
            AttemptMove::Send { feedback } => AttemptMoveModel::Send {
                feedback: feedback@,
            },
            AttemptMove::Interrupt { outcome } => AttemptMoveModel::Interrupt {
                outcome: outcome@,
            },
            AttemptMove::Stop { outcome } => AttemptMoveModel::Stop {
                outcome: outcome@,
            },
        }
    }
}

impl Duplicate for AttemptMove {
    fn duplicate(&self) -> (r: AttemptMove) {
        match self {
            AttemptMove::Wait => AttemptMove::Wait,
            AttemptMove::Answer { request_id, tool, input } => AttemptMove::Answer {
                request_id: request_id.clone(),
                tool: tool.clone(),
                input: input.duplicate(),
            },
            AttemptMove::Commit { message, success, summary } => AttemptMove::Commit {
                message: message.clone(),
                success: *success,
                summary: duplicate_opt(summary),
            },
            AttemptMove::ReadHead => AttemptMove::ReadHead,
            AttemptMove::Check { head } => AttemptMove::Check {
                head: head.clone(),
            },
            AttemptMove::Send { feedback } => AttemptMove::Send {
                feedback: feedback.clone(),
            },
            AttemptMove::Interrupt { outcome } => AttemptMove::Interrupt {
                outcome: outcome.duplicate(),
            },
            AttemptMove::Stop { outcome } => AttemptMove::Stop {
                outcome: outcome.duplicate(),
            },
        }
    }
}

impl Clone for AttemptMove {
    fn clone(&self) -> (r: AttemptMove)
        ensures
            r@ == self@,
    {
        self.duplicate()
    }
}

/// What to do about a permission request.
#[allow(inconsistent_fields)]
#[derive(Debug, PartialEq)]
pub enum PermissionMove {
    Reply {
        decision: PermissionDecision,
    },
    /// Ask a human.
    Ask {
        title: String,
        details: String,
    },
}

/// What a value of type `PermissionMove` stands for.
#[allow(inconsistent_fields)]
#[verifier::ext_equal]
pub enum PermissionMoveModel {
    Reply { decision: PermissionDecisionModel },
    Ask { title: Seq<char>, details: Seq<char> },
}

impl View for PermissionMove {
    type V = PermissionMoveModel;

    open spec fn view(&self) -> PermissionMoveModel {
        match self {
            PermissionMove::Reply { decision } => PermissionMoveModel::Reply {
                decision: decision@,
            },
            PermissionMove::Ask { title, details } => PermissionMoveModel::Ask {
                title: title@,
                details: details@,
            },
        }
    }
}

impl Duplicate for PermissionMove {
    fn duplicate(&self) -> (r: PermissionMove) {
        match self {
            PermissionMove::Reply { decision } => PermissionMove::Reply {
                decision: decision.duplicate(),
            },
            PermissionMove::Ask { title, details } => PermissionMove::Ask {
                title: title.clone(),
                details: details.clone(),
            },
        }
    }
}

impl Clone for PermissionMove {
    fn clone(&self) -> (r: PermissionMove)
        ensures
            r@ == self@,
    {
        self.duplicate()
    }
}

/// A failed attempt.
pub open spec fn failure(kind: FailureKind, message: Seq<char>) -> AttemptOutcomeModel {
    AttemptOutcomeModel::Failed { kind, message }
}

pub fn failed(kind: FailureKind, message: &str) -> (r: AttemptOutcome)
    ensures
        r@ == failure(kind, message@),
{
    AttemptOutcome::Failed { kind, message: message.to_owned() }
}

fn failed_with(kind: FailureKind, prefix: &str, message: String) -> (r: AttemptOutcome)
    ensures
        r@ == failure(kind, prefix@ + message@),
{
    let mut text = prefix.to_owned();
    text.append(message.as_str());
    AttemptOutcome::Failed { kind, message: text }
}

/// The key under which the end of an attempt is recorded, so that it is
/// recorded once.
pub fn finished_key(attempt_id: AttemptId) -> (r: String)
    ensures
        r@ == "attempt-finished:"@ + AttemptId::label(attempt_id),
{
    let mut r = "attempt-finished:".to_owned();
    r.append(attempt_id.to_text().as_str());
    r
}

/// The event that ends an attempt.
pub fn finished_event(attempt_id: AttemptId, outcome: &AttemptOutcome, usage: Usage) -> (r: Vec<
    EventKind,
>)
    ensures
        views(r@) == seq![
            EventKindModel::AttemptFinished { attempt_id, outcome: outcome@, usage },
        ],
{
    let mut r: Vec<EventKind> = Vec::new();
    r.push(EventKind::AttemptFinished { attempt_id, outcome: outcome.duplicate(), usage });
    assert(views(r@) =~= seq![
        EventKindModel::AttemptFinished { attempt_id, outcome: outcome@, usage },
    ]);
    r
}

/// Something the agent did, as an event of the run.
pub fn agent_event(attempt_id: AttemptId, event: &AgentEvent) -> (r: Vec<EventKind>)
    ensures
        views(r@) == seq![EventKindModel::Agent { attempt_id, event: event@ }],
{
    let mut r: Vec<EventKind> = Vec::new();
    r.push(EventKind::Agent { attempt_id, event: event.duplicate() });
    assert(views(r@) =~= seq![EventKindModel::Agent { attempt_id, event: event@ }]);
    r
}

/// The checks that ran, as events of the run.
pub open spec fn check_kinds(
    attempt_id: AttemptId,
    results: Seq<CheckResultModel>,
) -> Seq<EventKindModel> {
    Seq::new(
        results.len(),
        |i: int| EventKindModel::CheckCompleted { attempt_id, result: results[i] },
    )
}

pub fn check_events(attempt_id: AttemptId, results: &Vec<CheckResult>) -> (r: Vec<EventKind>)
    ensures
        views(r@) == check_kinds(attempt_id, views(results@)),
{
    let ghost all = check_kinds(attempt_id, views(results@));
    let mut r: Vec<EventKind> = Vec::new();
    let mut i: usize = 0;
    assert(views(r@) =~= all.take(0));
    while i < results.len()
        invariant
            i <= results.len(),
            all == check_kinds(attempt_id, views(results@)),
            views(r@) == all.take(i as int),
        decreases results.len() - i,
    {
        let event = EventKind::CheckCompleted { attempt_id, result: results[i].duplicate() };
        proof {
            views_push(r@, event);
            assert(all.take(i + 1) =~= all.take(i as int).push(event@));
        }
        r.push(event);
        i += 1;
    }
    assert(all.take(i as int) =~= all);
    r
}

/// Successful work lives on in its branch; a failed worktree is kept for
/// inspection.
pub fn removes_worktree(outcome: &AttemptOutcome) -> (b: bool)
    ensures
        b == (outcome@ is Succeeded),
{
    matches!(outcome, AttemptOutcome::Succeeded { .. })
}

/// The report of an attempt that ended.
pub fn report(ctx: &AttemptContext, outcome: AttemptOutcome) -> (r: AttemptReport)
    ensures
        r@ == (AttemptReportModel {
            task_id: ctx@.task_id,
            attempt_id: ctx@.attempt_id,
            branch: ctx@.branch,
            outcome: outcome@,
        }),
{
    AttemptReport {
        task_id: ctx.task_id,
        attempt_id: ctx.attempt_id,
        branch: ctx.branch.clone(),
        outcome,
    }
}

/// The attempt has no worktree to run in.
pub fn no_worktree(error: &GitError) -> (r: AttemptOutcome)
    ensures
        r@ == failure(
            FailureKind::Infrastructure,
            "could not create the worktree: "@ + error@.message(),
        ),
        crate::engine::report_failure(r@) matches Some((_, again)) && again,
{
    failed_with(FailureKind::Infrastructure, "could not create the worktree: ", error.message())
}

/// The agent could not be started.
pub fn no_session(runtime: &str, error: &str) -> (r: AttemptOutcome)
    ensures
        r@ == failure(
            FailureKind::Infrastructure,
            "could not start "@ + runtime@ + ": "@ + error@,
        ),
        crate::engine::report_failure(r@) matches Some((_, again)) && again,
{
    let mut text = "could not start ".to_owned();
    text.append(runtime);
    text.append(": ");
    text.append(error);
    AttemptOutcome::Failed { kind: FailureKind::Infrastructure, message: text }
}

/// The attempt took longer than it may.
pub fn timed_out(limits: &Limits) -> (r: AttemptOutcome)
    ensures
        r@ == failure(
            FailureKind::Timeout,
            "the attempt did not finish within "@ + decimal(limits.attempt_timeout_secs as int)
                + "s"@,
        ),
        crate::engine::report_failure(r@) matches Some((_, again)) && again,
{
    let mut text = "the attempt did not finish within ".to_owned();
    text.append(u64_text(limits.attempt_timeout_secs).as_str());
    text.append("s");
    AttemptOutcome::Failed { kind: FailureKind::Timeout, message: text }
}

/// What the agent is told on top of its own instructions.
pub open spec fn system_text(agent: AgentConfigModel) -> Seq<char> {
    match agent.append_system_prompt {
        Some(extra) => IMPLEMENTER_SYSTEM@ + "\n\n"@ + extra,
        None => IMPLEMENTER_SYSTEM@,
    }
}

/// The mode that a setting asks for.
pub open spec fn mode_of(setting: PermissionModeSetting) -> PermissionMode {
    match setting {
        PermissionModeSetting::Ask => PermissionMode::Ask,
        PermissionModeSetting::AcceptEdits => PermissionMode::AcceptEdits,
        PermissionModeSetting::Plan => PermissionMode::Plan,
    }
}

/// The request starts this attempt, in a fresh session of the given name.
pub open spec fn starts(r: StartRequest, ctx: AttemptContextModel, session_id: Seq<char>) -> bool {
    &&& r.workdir@ == ctx.worktree_path
    &&& r.prompt@ == prompt_text(ctx.run, ctx.task, ctx.checks, ctx.feedback)
    &&& seen(r.append_system_prompt) == Some(system_text(ctx.agent))
    &&& seen(r.model) == ctx.agent.model
    &&& seen(r.session_id) == Some(session_id)
    &&& r.resume is None
    &&& r.permission_mode == mode_of(ctx.agent.permission_mode)
    &&& views(r.allowed_tools@) == ctx.agent.allowed_tools
    &&& views(r.disallowed_tools@) == ctx.agent.disallowed_tools
    &&& r.env.wf()
    &&& r.env@ == Map::<Seq<char>, String>::empty()
    &&& r.max_turns == ctx.agent.max_turns
    &&& r.max_budget_usd == ctx.max_budget_usd
}

/// The request for a session of the given name.
pub fn start_request(ctx: &AttemptContext, session_id: String) -> (r: StartRequest)
    ensures
        starts(r, ctx@, session_id@),
{
    let feedback: Option<&str> = match &ctx.feedback {
        Some(text) => Some(text.as_str()),
        None => None,
    };
    let system: String = match &ctx.agent.append_system_prompt {
        Some(extra) => {
            let mut text = IMPLEMENTER_SYSTEM.to_owned();
            text.append("\n\n");
            text.append(extra.as_str());
            text
        },
        None => IMPLEMENTER_SYSTEM.to_owned(),
    };
    StartRequest {
        workdir: ctx.worktree_path.clone(),
        prompt: task_prompt(&ctx.run, &ctx.task, &ctx.checks, feedback),
        append_system_prompt: Some(system),
        model: duplicate_opt(&ctx.agent.model),
        session_id: Some(session_id),
        resume: None,
        permission_mode: match ctx.agent.permission_mode {
            PermissionModeSetting::Ask => PermissionMode::Ask,
            PermissionModeSetting::AcceptEdits => PermissionMode::AcceptEdits,
            PermissionModeSetting::Plan => PermissionMode::Plan,
        },
        allowed_tools: duplicate_all(&ctx.agent.allowed_tools),
        disallowed_tools: duplicate_all(&ctx.agent.disallowed_tools),
        env: OrdMap::new(),
        max_turns: ctx.agent.max_turns,
        max_budget_usd: ctx.max_budget_usd,
    }
}

/// The request for a new session, which gets a random name.
pub fn start_attempt(ctx: &AttemptContext) -> (r: StartRequest)
    ensures
        exists|session_id: Seq<char>|
            starts(r, ctx@, session_id) && is_session_name(session_id),
{
    let session_id = session_text();
    let ghost name = session_id@;
    let r = start_request(ctx, session_id);
    assert(starts(r, ctx@, name));
    r
}

impl AttemptContextModel {
    /// The usage can be counted together with what the rest of the run spent.
    pub open spec fn can_count(self, usage: Usage) -> bool {
        self.spent_before.fits_with(usage) && self.budget.can_count(self.spent_before.with(usage))
    }

    /// What the event reports can be counted.
    pub open spec fn can_take(self, event: Option<AgentEventModel>) -> bool {
        match event {
            Some(AgentEventModel::Usage { usage }) => self.can_count(usage),
            Some(AgentEventModel::Finished { usage, .. }) => self.can_count(usage),
            _ => true,
        }
    }

    /// The limit of the run that is crossed with the attempt's own usage.
    pub open spec fn crossed(self, usage: Usage) -> Option<crate::budget::BudgetExceeded> {
        self.budget.crossed(self.spent_before.with(usage), 0)
    }

    /// The message under which the agent's work is committed.
    pub open spec fn commit_message(self) -> Seq<char> {
        "bodega: "@ + self.task.key + " "@ + self.task.title + " (attempt "@ + decimal(
            self.number as int,
        ) + ")"@
    }

    /// What to do about an event of the session, or about its end.
    pub open spec fn next(self, event: Option<AgentEventModel>) -> AttemptMoveModel {
        match event {
            None => AttemptMoveModel::Stop {
                outcome: failure(
                    FailureKind::Agent,
                    "the agent stopped without finishing its turn"@,
                ),
            },
            Some(AgentEventModel::PermissionRequested { request_id, tool, input }) =>
                AttemptMoveModel::Answer { request_id, tool, input },
            Some(AgentEventModel::Usage { usage }) => match self.crossed(usage) {
                Some(e) => AttemptMoveModel::Interrupt {
                    outcome: failure(FailureKind::Budget, e.message_spec()),
                },
                None => AttemptMoveModel::Wait,
            },
            Some(AgentEventModel::Finished { success, summary, usage }) => match self.crossed(
                usage,
            ) {
                Some(e) => AttemptMoveModel::Stop {
                    outcome: failure(FailureKind::Budget, e.message_spec()),
                },
                None => AttemptMoveModel::Commit {
                    message: self.commit_message(),
                    success,
                    summary,
                },
            },
            _ => AttemptMoveModel::Wait,
        }
    }
}

/// The usage known after an event.
pub open spec fn usage_after(usage: Usage, event: Option<AgentEventModel>) -> Usage {
    match event {
        Some(AgentEventModel::Usage { usage: total }) => total,
        Some(AgentEventModel::Finished { usage: total, .. }) => total,
        _ => usage,
    }
}

/// What to do after the agent's work was committed, or could not be.
pub open spec fn after_commit(
    success: bool,
    summary: Option<Seq<char>>,
    error: Option<GitErrorModel>,
) -> AttemptMoveModel {
    match error {
        Some(e) => AttemptMoveModel::Stop {
            outcome: failure(
                FailureKind::Infrastructure,
                "could not commit the agent's work: "@ + e.message(),
            ),
        },
        None => if success {
            AttemptMoveModel::ReadHead
        } else {
            AttemptMoveModel::Stop {
                outcome: failure(
                    FailureKind::Agent,
                    match summary {
                        Some(text) => text,
                        None => "the agent reported a failure"@,
                    },
                ),
            }
        },
    }
}

/// What to do once the head of the worktree is known.
pub open spec fn after_head(
    base_sha: Seq<char>,
    head: Result<Seq<char>, GitErrorModel>,
) -> AttemptMoveModel {
    match head {
        Err(e) => AttemptMoveModel::Stop {
            outcome: failure(FailureKind::Infrastructure, e.message()),
        },
        Ok(head) => if head == base_sha {
            AttemptMoveModel::Stop {
                outcome: failure(
                    FailureKind::Agent,
                    "the agent finished without changing any files"@,
                ),
            }
        } else {
            AttemptMoveModel::Check { head }
        },
    }
}

/// The names of the checks that failed.
pub open spec fn failing_names(results: Seq<CheckResultModel>) -> Seq<Seq<char>> {
    results.filter(|r: CheckResultModel| !r.passed).map_values(|r: CheckResultModel| r.name)
}

/// The checks fail and no fix round is left.
pub open spec fn gave_up(fix_round: u32, results: Seq<CheckResultModel>) -> AttemptOutcomeModel {
    failure(
        FailureKind::Verification,
        "checks still failing after "@ + decimal(fix_round as int) + " fix round(s): "@ + join(
            failing_names(results),
            ", "@,
        ),
    )
}

/// What to do once the checks have run.
pub open spec fn after_checks(
    limits: Limits,
    multi_turn: bool,
    fix_round: u32,
    head: Seq<char>,
    results: Seq<CheckResultModel>,
) -> AttemptMoveModel {
    if all_passed(results) {
        AttemptMoveModel::Stop { outcome: AttemptOutcomeModel::Succeeded { commit: Some(head) } }
    } else if fix_round < limits.max_fix_rounds && multi_turn {
        AttemptMoveModel::Send {
            feedback: "Verification failed (fix round "@ + decimal(fix_round + 1) + " of "@
                + decimal(limits.max_fix_rounds as int)
                + "). Fix the problems below, then finish again with a short summary.\n\n"@
                + failure_sections(results),
        }
    } else {
        AttemptMoveModel::Stop { outcome: gave_up(fix_round, results) }
    }
}

/// Fix rounds are bounded: feedback is sent only while rounds are left, so no
/// more than the configured number is ever sent.
pub proof fn fix_rounds_are_bounded(
    limits: Limits,
    multi_turn: bool,
    fix_round: u32,
    head: Seq<char>,
    results: Seq<CheckResultModel>,
)
    requires
        after_checks(limits, multi_turn, fix_round, head, results) is Send,
    ensures
        fix_round + 1 <= limits.max_fix_rounds,
        !all_passed(results),
{
}

/// Success is earned: an attempt succeeds only after the agent reported success,
/// its work was committed on top of the base, and every check passed.
pub proof fn success_is_earned(
    ctx: AttemptContextModel,
    event: Option<AgentEventModel>,
    success: bool,
    summary: Option<Seq<char>>,
    commit: Option<GitErrorModel>,
    head: Result<Seq<char>, GitErrorModel>,
    multi_turn: bool,
    fix_round: u32,
    commit_id: Seq<char>,
    results: Seq<CheckResultModel>,
)
    ensures
        !(ctx.next(event) matches AttemptMoveModel::Stop { outcome } && outcome is Succeeded),
        !(ctx.next(event) matches AttemptMoveModel::Interrupt { outcome } && outcome is Succeeded),
        !(after_commit(success, summary, commit) matches AttemptMoveModel::Stop { outcome }
            && outcome is Succeeded),
        after_commit(success, summary, commit) is ReadHead ==> success && commit is None,
        !(after_head(ctx.base_sha, head) matches AttemptMoveModel::Stop { outcome }
            && outcome is Succeeded),
        after_head(ctx.base_sha, head) matches AttemptMoveModel::Check { head: h } ==> head == Ok::<
            _,
            GitErrorModel,
        >(h) && h != ctx.base_sha,
        (after_checks(
            ctx.limits,
            multi_turn,
            fix_round,
            commit_id,
            results,
        ) matches AttemptMoveModel::Stop { outcome } && outcome is Succeeded) ==> all_passed(
            results,
        ) && after_checks(ctx.limits, multi_turn, fix_round, commit_id, results)
            == (AttemptMoveModel::Stop {
            outcome: AttemptOutcomeModel::Succeeded { commit: Some(commit_id) },
        }),
{
}

/// How far an attempt has come.
#[derive(Debug, Clone, Copy, PartialEq, Eq, Structural)]
pub struct AttemptRun {
    /// What the attempt has used so far.
    pub usage: Usage,
    /// The fix rounds that were used.
    pub fix_round: u32,
}

impl AttemptRun {
    pub fn new() -> (r: AttemptRun)
        ensures
            r.usage == crate::budget::no_usage(),
            r.fix_round == 0,
    {
        AttemptRun { usage: Usage::default(), fix_round: 0 }
    }

    /// Whether what the event reports can be counted.
    pub fn can_take(ctx: &AttemptContext, event: Option<&AgentEvent>) -> (b: bool)
        ensures
            b == ctx@.can_take(
                match event {
                    Some(e) => Some(e@),
                    None => None,
                },
            ),
    {
        let total: Usage = match event {
            Some(AgentEvent::Usage { usage }) => *usage,
            Some(AgentEvent::Finished { usage, .. }) => *usage,
            _ => {
                return true;
            },
        };
        match ctx.spent_before.checked_plus(total) {
            Some(sum) => {
                let crossed = match ctx.budget.max_cost_usd {
                    Some(limit) => sum.cost_usd.nanos > limit.nanos,
                    None => false,
                };
                ctx.budget.max_tokens.is_none() || crossed || sum.checked_tokens().is_some()
            },
            None => false,
        }
    }

    /// Takes the next event of the session, or its end.
    pub fn take(&mut self, ctx: &AttemptContext, event: Option<AgentEvent>) -> (r: AttemptMove)
        requires
            ctx@.can_take(seen(event)),
        ensures
            r@ == ctx@.next(seen(event)),
            final(self).usage == usage_after(old(self).usage, seen(event)),
            final(self).fix_round == old(self).fix_round,
    {
        match event {
            None => AttemptMove::Stop {
                outcome: failed(FailureKind::Agent, "the agent stopped without finishing its turn"),
            },
            Some(AgentEvent::PermissionRequested { request_id, tool, input }) =>
                AttemptMove::Answer { request_id, tool, input },
            Some(AgentEvent::Usage { usage }) => {
                self.usage = usage;
                match ctx.budget.check(&ctx.spent_before.plus(usage), 0) {
                    Some(exceeded) => AttemptMove::Interrupt {
                        outcome: failed(FailureKind::Budget, exceeded.message().as_str()),
                    },
                    None => AttemptMove::Wait,
                }
            },
            Some(AgentEvent::Finished { success, summary, usage }) => {
                self.usage = usage;
                match ctx.budget.check(&ctx.spent_before.plus(usage), 0) {
                    Some(exceeded) => AttemptMove::Stop {
                        outcome: failed(FailureKind::Budget, exceeded.message().as_str()),
                    },
                    None => {
                        let mut message = "bodega: ".to_owned();
                        message.append(ctx.task.key.as_str());
                        message.append(" ");
                        message.append(ctx.task.title.as_str());
                        message.append(" (attempt ");
                        message.append(u64_text(ctx.number as u64).as_str());
                        message.append(")");
                        AttemptMove::Commit { message, success, summary }
                    },
                }
            },
            _ => AttemptMove::Wait,
        }
    }

    /// Goes on after the agent's work was committed, or could not be.
    pub fn committed(success: bool, summary: Option<String>, error: Option<&GitError>) -> (r:
        AttemptMove)
        ensures
            r@ == after_commit(
                success,
                seen(summary),
                match error {
                    Some(e) => Some(e@),
                    None => None,
                },
            ),
    {
        if let Some(e) = error {
            return AttemptMove::Stop {
                outcome: failed_with(
                    FailureKind::Infrastructure,
                    "could not commit the agent's work: ",
                    e.message(),
                ),
            };
        }
        if success {
            return AttemptMove::ReadHead;
        }
        match summary {
            Some(text) => AttemptMove::Stop {
                outcome: AttemptOutcome::Failed { kind: FailureKind::Agent, message: text },
            },
            None => AttemptMove::Stop {
                outcome: failed(FailureKind::Agent, "the agent reported a failure"),
            },
        }
    }

    /// Goes on once the head of the worktree is known.
    pub fn headed(ctx: &AttemptContext, head: Result<String, GitError>) -> (r: AttemptMove)
        ensures
            r@ == after_head(
                ctx@.base_sha,
                match head {
                    Ok(h) => Ok(h@),
                    Err(e) => Err(e@),
                },
            ),
    {
        match head {
            Err(e) => AttemptMove::Stop {
                outcome: failed(FailureKind::Infrastructure, e.message().as_str()),
            },
            Ok(head) => {
                if same(head.as_str(), ctx.base_sha.as_str()) {
                    AttemptMove::Stop {
                        outcome: failed(
                            FailureKind::Agent,
                            "the agent finished without changing any files",
                        ),
                    }
                } else {
                    AttemptMove::Check { head }
                }
            },
        }
    }

    /// Goes on once the checks have run.
    pub fn verified(
        &mut self,
        ctx: &AttemptContext,
        multi_turn: bool,
        head: String,
        results: &Vec<CheckResult>,
    ) -> (r: AttemptMove)
        ensures
            r@ == after_checks(
                ctx@.limits,
                multi_turn,
                old(self).fix_round,
                head@,
                views(results@),
            ),
            final(self).usage == old(self).usage,
            final(self).fix_round == old(self).fix_round + if r@ is Send {
                1int
            } else {
                0
            },
    {
        if passed(results) {
            return AttemptMove::Stop { outcome: AttemptOutcome::Succeeded { commit: Some(head) } };
        }
        if self.fix_round < ctx.limits.max_fix_rounds && multi_turn {
            self.fix_round = self.fix_round + 1;
            return AttemptMove::Send {
                feedback: check_failure_feedback(
                    results,
                    self.fix_round,
                    ctx.limits.max_fix_rounds,
                ),
            };
        }
        AttemptMove::Stop { outcome: self.unsent(results) }
    }

    /// How the attempt ends when checks fail and the agent is told no more.
    pub fn unsent(&self, results: &Vec<CheckResult>) -> (r: AttemptOutcome)
        ensures
            r@ == gave_up(self.fix_round, views(results@)),
    {
        let names = failing(results);
        let mut text = "checks still failing after ".to_owned();
        text.append(u64_text(self.fix_round as u64).as_str());
        text.append(" fix round(s): ");
        text.append(join_texts(&names, ", ").as_str());
        AttemptOutcome::Failed { kind: FailureKind::Verification, message: text }
    }
}

fn failing(results: &Vec<CheckResult>) -> (r: Vec<String>)
    ensures
        texts(r@) == failing_names(views(results@)),
{
    let ghost all = views(results@);
    let ghost p = |r: CheckResultModel| !r.passed;
    let ghost f = |r: CheckResultModel| r.name;
    let mut r: Vec<String> = Vec::new();
    let mut i: usize = 0;
    proof {
        filter_none(all, p);
        assert(texts(r@) =~= all.take(0).filter(p).map_values(f));
    }
    while i < results.len()
        invariant
            i <= results.len(),
            all == views(results@),
            p == |r: CheckResultModel| !r.passed,
            f == |r: CheckResultModel| r.name,
            texts(r@) == all.take(i as int).filter(p).map_values(f),
        decreases results.len() - i,
    {
        proof {
            assert(all[i as int] == results@[i as int]@);
            filter_step(all, p, i as int);
        }
        if !results[i].passed {
            let name = results[i].name.clone();
            proof {
                crate::text::texts_push(r@, name);
                assert(all.take(i + 1).filter(p).map_values(f) =~= all.take(i as int).filter(
                    p,
                ).map_values(f).push(name@));
            }
            r.push(name);
        }
        i += 1;
    }
    assert(all.take(i as int) =~= all);
    r
}

/// A refusal that lets the agent go on.
pub open spec fn refusal(message: Seq<char>) -> PermissionDecisionModel {
    PermissionDecisionModel::Deny { message, interrupt: false }
}

/// Consent to the call as it is.
pub open spec fn consent() -> PermissionDecisionModel {
    PermissionDecisionModel::Allow { updated_input: None }
}

/// What to do about a request, from what the policy says of it.
pub open spec fn permission_move(
    task_key: Seq<char>,
    tool: Seq<char>,
    details: Seq<char>,
    decision: PolicyDecisionModel,
) -> PermissionMoveModel {
    match decision {
        PolicyDecisionModel::Allow => PermissionMoveModel::Reply { decision: consent() },
        PolicyDecisionModel::Deny { rule } => PermissionMoveModel::Reply {
            decision: refusal(
                "Bodega's permission policy denies this (rule `"@ + rule + "`)."@,
            ),
        },
        PolicyDecisionModel::Escalate => PermissionMoveModel::Ask {
            title: task_key + ": allow `"@ + tool + "`?"@,
            details,
        },
    }
}

fn refused(message: &str) -> (r: PermissionDecision)
    ensures
        r@ == refusal(message@),
{
    PermissionDecision::Deny { message: message.to_owned(), interrupt: false }
}

/// What to do about a request that the policy decides like this.
pub fn permission_step(
    task_key: &str,
    tool: &str,
    details: String,
    decision: PolicyDecision,
) -> (r: PermissionMove)
    ensures
        r@ == permission_move(task_key@, tool@, details@, decision@),
{
    match decision {
        PolicyDecision::Allow => PermissionMove::Reply {
            decision: PermissionDecision::Allow { updated_input: None },
        },
        PolicyDecision::Deny { rule } => {
            let mut text = "Bodega's permission policy denies this (rule `".to_owned();
            text.append(rule.as_str());
            text.append("`).");
            PermissionMove::Reply { decision: refused(text.as_str()) }
        },
        PolicyDecision::Escalate => {
            let mut title = task_key.to_owned();
            title.append(": allow `");
            title.append(tool);
            title.append("`?");
            PermissionMove::Ask { title, details }
        },
    }
}

/// Answers a permission request from policy, escalating to a human when the
/// policy has no rule for it. Never auto-approves unknown requests.
pub fn decide_permission(ctx: &AttemptContext, tool: &str, input: &Json) -> (r: PermissionMove)
    ensures
        r@ == permission_move(
            ctx@.task.key,
            tool@,
            json_pretty(input@),
            ctx@.policy.decision(tool@, input@),
        ),
{
    let decision = ctx.policy.decide(tool, input);
    permission_step(ctx.task.key.as_str(), tool, json_print_pretty(input), decision)
}

/// The request for a human's decision, as an event of the run.
pub fn approval_event(
    ctx: &AttemptContext,
    approval_id: ApprovalId,
    title: String,
    details: String,
) -> (r: Vec<EventKind>)
    ensures
        views(r@) == seq![
            EventKindModel::ApprovalRequested {
                approval_id,
                kind: ApprovalKind::Permission,
                title: title@,
                details: details@,
                task_id: Some(ctx@.task_id),
            },
        ],
{
    let mut r: Vec<EventKind> = Vec::new();
    let ghost all = seq![
        EventKindModel::ApprovalRequested {
            approval_id,
            kind: ApprovalKind::Permission,
            title: title@,
            details: details@,
            task_id: Some(ctx@.task_id),
        },
    ];
    r.push(
        EventKind::ApprovalRequested {
            approval_id,
            kind: ApprovalKind::Permission,
            title,
            details,
            task_id: Some(ctx.task_id),
        },
    );
    assert(views(r@) =~= all);
    r
}

/// The answer where no human could be asked.
pub fn not_asked() -> (r: PermissionDecision)
    ensures
        r@ == refusal("Bodega could not ask a human for approval."@),
{
    refused("Bodega could not ask a human for approval.")
}

/// The answer that a human's decision stands for.
pub open spec fn human_answer(
    decision: Option<(Decision, Option<Seq<char>>)>,
) -> PermissionDecisionModel {
    match decision {
        Some((Decision::Approved, _)) => consent(),
        Some((Decision::Rejected, Some(comment))) => refusal(comment),
        Some((Decision::Rejected, None)) => refusal("A human denied this request."@),
        None => refusal("The approval could not be read."@),
    }
}

/// The answer to a request, from the decision that was waited for.
pub fn answer_from(decision: Option<(Decision, Option<String>)>) -> (r: PermissionDecision)
    ensures
        r@ == human_answer(
            match decision {
                Some((d, comment)) => Some((d, seen(comment))),
                None => None,
            },
        ),
{
    match decision {
        Some((Decision::Approved, _)) => PermissionDecision::Allow { updated_input: None },
        Some((Decision::Rejected, Some(comment))) => PermissionDecision::Deny {
            message: comment,
            interrupt: false,
        },
        Some((Decision::Rejected, None)) => refused("A human denied this request."),
        None => refused("The approval could not be read."),
    }
}

/// A request is allowed without a human only where the policy allows it, and
/// after asking one only where the answer was yes.
pub proof fn nothing_is_approved_unasked(
    key: Seq<char>,
    tool: Seq<char>,
    details: Seq<char>,
    policy: PermissionPolicyModel,
    input: JsonModel,
    answer: Option<(Decision, Option<Seq<char>>)>,
)
    ensures
        (permission_move(key, tool, details, policy.decision(tool, input)) matches
            PermissionMoveModel::Reply { decision } && decision is Allow) ==> policy.decision(
            tool,
            input,
        ) is Allow,
        human_answer(answer) is Allow ==> (answer matches Some((d, _)) && d == Decision::Approved),
{
}

/// Good work succeeds: where the agent reports success within the budget, its work is
/// committed as something new, and the checks pass, the attempt succeeds with that
/// commit, in whatever fix round it is.
pub proof fn good_work_succeeds(
    ctx: AttemptContextModel,
    summary: Option<Seq<char>>,
    usage: Usage,
    head: Seq<char>,
    multi_turn: bool,
    fix_round: u32,
    results: Seq<CheckResultModel>,
)
    requires
        ctx.budget.max_cost_usd matches Some(most) ==> ctx.spent_before.with(usage).cost_usd.nanos
            <= most.nanos,
        ctx.budget.max_tokens matches Some(most) ==> ctx.spent_before.with(usage).tokens() <= most,
        head != ctx.base_sha,
        forall|i: int| 0 <= i < results.len() ==> (#[trigger] results[i]).passed,
    ensures
        ctx.next(Some(AgentEventModel::Finished { success: true, summary, usage })) matches
            AttemptMoveModel::Commit { success, .. } && success,
        after_commit(true, summary, None) is ReadHead,
        after_head(ctx.base_sha, Ok(head)) == (AttemptMoveModel::Check { head }),
        after_checks(ctx.limits, multi_turn, fix_round, head, results) == (AttemptMoveModel::Stop {
            outcome: AttemptOutcomeModel::Succeeded { commit: Some(head) },
        }),
{
}

/// What an attempt fails for: the agent's doing where its session or its turn ends
/// without success or without work; not the agent's where git cannot be had; the checks
/// where they fail and no fix round is left.
pub proof fn failures_have_their_kind(
    ctx: AttemptContextModel,
    summary: Option<Seq<char>>,
    error: GitErrorModel,
    success: bool,
    head: Seq<char>,
    multi_turn: bool,
    fix_round: u32,
    results: Seq<CheckResultModel>,
)
    ensures
        ctx.next(None) matches AttemptMoveModel::Stop { outcome } && (outcome matches
            AttemptOutcomeModel::Failed { kind, .. } && kind == FailureKind::Agent),
        after_commit(false, summary, None) matches AttemptMoveModel::Stop { outcome } && (
        outcome matches AttemptOutcomeModel::Failed { kind, message } && kind == FailureKind::Agent
            && (summary matches Some(text) ==> message == text)),
        after_commit(success, summary, Some(error)) matches AttemptMoveModel::Stop { outcome } && (
        outcome matches AttemptOutcomeModel::Failed { kind, .. } && kind
            == FailureKind::Infrastructure),
        after_head(ctx.base_sha, Err(error)) matches AttemptMoveModel::Stop { outcome } && (
        outcome matches AttemptOutcomeModel::Failed { kind, .. } && kind
            == FailureKind::Infrastructure),
        after_head(ctx.base_sha, Ok(ctx.base_sha)) matches AttemptMoveModel::Stop { outcome } && (
        outcome matches AttemptOutcomeModel::Failed { kind, .. } && kind == FailureKind::Agent),
        !all_passed(results) && !(multi_turn && fix_round < ctx.limits.max_fix_rounds) ==> (
        after_checks(ctx.limits, multi_turn, fix_round, head, results) matches
            AttemptMoveModel::Stop { outcome } && (outcome matches AttemptOutcomeModel::Failed {
            kind,
            ..
        } && kind == FailureKind::Verification)),
        !all_passed(results) && multi_turn && fix_round < ctx.limits.max_fix_rounds
            ==> after_checks(ctx.limits, multi_turn, fix_round, head, results) is Send,
{
}

/// Spending is watched while an attempt works: with the first report that takes the
/// run's cost or its tokens above a limit, what the rest of the run has used included,
/// the attempt is interrupted, or ends with its turn, for the budget; until then nothing
/// is done about reports.
pub proof fn overspending_stops_attempts(
    ctx: AttemptContextModel,
    usage: Usage,
    success: bool,
    summary: Option<Seq<char>>,
)
    requires
        ctx.spent_before.fits_with(usage),
        ctx.budget.max_wall_clock_secs is None,
    ensures
        ({
            let over = {
                ||| (ctx.budget.max_cost_usd matches Some(most)
                    && ctx.spent_before.cost_usd.nanos + usage.cost_usd.nanos > most.nanos)
                ||| (ctx.budget.max_tokens matches Some(most) && ctx.spent_before.tokens()
                    + usage.tokens() > most)
            };
            let report = ctx.next(Some(AgentEventModel::Usage { usage }));
            let end = ctx.next(Some(AgentEventModel::Finished { success, summary, usage }));
            &&& over ==> (report matches AttemptMoveModel::Interrupt { outcome } && (
            outcome matches AttemptOutcomeModel::Failed { kind, .. } && kind
                == FailureKind::Budget))
            &&& !over ==> report is Wait
            &&& over ==> (end matches AttemptMoveModel::Stop { outcome } && (outcome matches
                AttemptOutcomeModel::Failed { kind, .. } && kind == FailureKind::Budget))
            &&& !over ==> (end matches AttemptMoveModel::Commit {
                success: good,
                summary: told,
                message,
            } && good == success && told == summary && message == ctx.commit_message())
        }),
{
}

/// A request for permission is answered and nothing else is done about it; what the
/// agent says, thinks or calls is only waited out.
pub proof fn requests_are_answered(
    ctx: AttemptContextModel,
    request_id: Seq<char>,
    tool: Seq<char>,
    input: JsonModel,
    text: Seq<char>,
)
    ensures
        ctx.next(Some(AgentEventModel::PermissionRequested { request_id, tool, input })) == (
        AttemptMoveModel::Answer { request_id, tool, input }),
        ctx.next(Some(AgentEventModel::ToolCall { call_id: text, tool, input })) is Wait,
{
}

/// How the policy's decision is put into effect: what is allowed is allowed as it was
/// asked; what is denied is denied, with the rule, and the agent goes on; what is
/// escalated is put to a human, with the tool and the task in the question.
pub proof fn decisions_are_put_into_effect(
    key: Seq<char>,
    tool: Seq<char>,
    details: Seq<char>,
    rule: Seq<char>,
)
    ensures
        permission_move(key, tool, details, PolicyDecisionModel::Allow) matches
            PermissionMoveModel::Reply { decision } && (decision matches
            PermissionDecisionModel::Allow { updated_input } && updated_input is None),
        permission_move(key, tool, details, PolicyDecisionModel::Deny { rule }) matches
            PermissionMoveModel::Reply { decision } && (decision matches
            PermissionDecisionModel::Deny { message, interrupt } && !interrupt && exists|a: Seq<char>, b: Seq<char>|
            message == #[trigger] (a + rule + b)),
        permission_move(key, tool, details, PolicyDecisionModel::Escalate) matches
            PermissionMoveModel::Ask { title, details: told } && told == details && crate::text::begins(
            title,
            key,
        ) && exists|a: Seq<char>, b: Seq<char>| title == #[trigger] (a + tool + b),
{
    let deny = permission_move(key, tool, details, PolicyDecisionModel::Deny { rule });
    if let PermissionMoveModel::Reply { decision } = deny {
        if let PermissionDecisionModel::Deny { message, .. } = decision {
            let a = "Bodega's permission policy denies this (rule `"@;
            let b = "`)."@;
            assert(message =~= a + rule + b);
        }
    }
    let ask = permission_move(key, tool, details, PolicyDecisionModel::Escalate);
    if let PermissionMoveModel::Ask { title, .. } = ask {
        let a = key + ": allow `"@;
        let b = "`?"@;
        assert(title =~= a + tool + b);
        assert(title.take(key.len() as int) =~= key);
    }
}

/// A human's yes allows, and anything else denies: a no, with its comment where there is
/// one, and an answer that could not be read. Neither stops the agent.
pub proof fn humans_decide(comment: Option<Seq<char>>)
    ensures
        human_answer(Some((Decision::Approved, comment))) matches PermissionDecisionModel::Allow {
            updated_input,
        } && updated_input is None,
        human_answer(Some((Decision::Rejected, comment))) matches PermissionDecisionModel::Deny {
            message,
            interrupt,
        } && !interrupt && (comment matches Some(text) ==> message == text),
        human_answer(None) matches PermissionDecisionModel::Deny { interrupt, .. } && !interrupt,
{
}

/// A session starts as the agent is configured: where the attempt works, with its prompt,
/// its model, its tools, its permission mode, its turns and its share of the budget; it
/// is a new one.
pub proof fn sessions_start_as_configured(
    r: StartRequest,
    ctx: AttemptContextModel,
    session_id: Seq<char>,
)
    requires
        starts(r, ctx, session_id),
    ensures
        r.workdir@ == ctx.worktree_path,
        seen(r.model) == ctx.agent.model,
        seen(r.session_id) == Some(session_id),
        r.resume is None,
        r.max_budget_usd == ctx.max_budget_usd,
        r.max_turns == ctx.agent.max_turns,
        views(r.allowed_tools@) == ctx.agent.allowed_tools,
        views(r.disallowed_tools@) == ctx.agent.disallowed_tools,
        r.permission_mode is Ask <==> ctx.agent.permission_mode is Ask,
        r.permission_mode is AcceptEdits <==> ctx.agent.permission_mode is AcceptEdits,
        r.permission_mode is Plan <==> ctx.agent.permission_mode is Plan,
        seen(r.append_system_prompt) matches Some(text) && crate::text::begins(
            text,
            IMPLEMENTER_SYSTEM@,
        ) && (ctx.agent.append_system_prompt matches Some(extra) ==> crate::text::finishes(
            text,
            extra,
        )),
{
    let text = system_text(ctx.agent);
    assert(text.take(IMPLEMENTER_SYSTEM@.len() as int) =~= IMPLEMENTER_SYSTEM@);
    if let Some(extra) = ctx.agent.append_system_prompt {
        assert(text.skip(text.len() - extra.len()) =~= extra);
    }
}

/// Every result of the checks is recorded for its attempt, in order.
pub proof fn every_check_is_recorded(
    attempt_id: AttemptId,
    results: Seq<CheckResultModel>,
    i: int,
)
    requires
        0 <= i < results.len(),
    ensures
        check_kinds(attempt_id, results).len() == results.len(),
        check_kinds(attempt_id, results)[i] == (EventKindModel::CheckCompleted {
            attempt_id,
            result: results[i],
        }),
{
}

/// What an attempt has used is what its agent reported last, and nothing else that the
/// agent says changes it.
pub proof fn last_reports_count(before: Usage, reported: Usage, event: AgentEventModel)
    ensures
        event matches AgentEventModel::Usage { usage } ==> usage_after(before, Some(event)) == usage,
        event matches AgentEventModel::Finished { usage, .. } ==> usage_after(before, Some(event))
            == usage,
        !(event is Usage) && !(event is Finished) ==> usage_after(before, Some(event)) == before,
        usage_after(before, None) == before,
        usage_after(usage_after(before, Some(AgentEventModel::Usage { usage: reported })), None)
            == reported,
{
}

/// Failing checks go back to an agent that can take another turn, with the command and the
/// output of each, as long as there are rounds left. After the last round they fail the
/// attempt, which names them.
#[verifier::rlimit(60)]
pub proof fn failing_checks_go_back(
    limits: Limits,
    multi_turn: bool,
    fix_round: u32,
    head: Seq<char>,
    results: Seq<CheckResultModel>,
    i: int,
)
    requires
        0 <= i < results.len(),
        !results[i].passed,
    ensures
        ({
            let next = after_checks(limits, multi_turn, fix_round, head, results);
            let again = multi_turn && fix_round < limits.max_fix_rounds;
            &&& again ==> (next matches AttemptMoveModel::Send { feedback } && holds(
                feedback,
                results[i].command,
            ) && holds(feedback, results[i].output_tail))
            &&& !again ==> (next matches AttemptMoveModel::Stop { outcome } && (outcome matches
                AttemptOutcomeModel::Failed { kind, message } && kind == FailureKind::Verification
                && holds(message, results[i].name)))
        }),
{
    assert(!all_passed(results));
    let none = Seq::<char>::empty();
    failures_are_told(results, i);
    let a = "Verification failed (fix round "@ + decimal(fix_round + 1) + " of "@ + decimal(
        limits.max_fix_rounds as int,
    ) + "). Fix the problems below, then finish again with a short summary.\n\n"@;
    let b = failure_sections(results);
    held_further(b, results[i].command, a, none);
    held_further(b, results[i].output_tail, a, none);
    assert(a + b + none =~= a + b);
    let names = failing_names(results);
    let p = |r: CheckResultModel| !r.passed;
    results.lemma_filter_contains(p, i);
    let bad = results.filter(p);
    let k = choose|k: int| 0 <= k < bad.len() && bad[k] == results[i];
    assert(names[k] == results[i].name);
    joined_parts_are_held(names, ", "@, k);
    let c = "checks still failing after "@ + decimal(fix_round as int) + " fix round(s): "@;
    held_further(join(names, ", "@), results[i].name, c, none);
    assert(c + join(names, ", "@) + none =~= c + join(names, ", "@));
}

/// What an attempt commits is told by the key and the title of its task and by its number.
pub proof fn commits_tell_their_task(ctx: AttemptContextModel)
    ensures
        holds(ctx.commit_message(), ctx.task.key),
        holds(ctx.commit_message(), ctx.task.title),
        holds(ctx.commit_message(), decimal(ctx.number as int)),
        crate::text::begins(ctx.commit_message(), "bodega: "@),
{
    let n = decimal(ctx.number as int);
    let all = ctx.commit_message();
    seven_are_held("bodega: "@, ctx.task.key, " "@, ctx.task.title, " (attempt "@, n, ")"@);
    assert(all.take("bodega: "@.len() as int) =~= "bodega: "@);
}

} // verus!
