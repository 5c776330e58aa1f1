//! The domain model: runs, tasks, attempts, checks, reviews and approvals.
//!
//! These are plain data types. State changes happen only by appending
//! [`crate::events::EventKind`]s; [`crate::state::RunState`] folds them into
//! the current picture.

use vstd::prelude::*;

use crate::budget::Budget;
use crate::config::{Config, ConfigModel};
use crate::text::{duplicate_all, duplicate_opt, seen, views, Duplicate};

verus! {

/// Where a run's work came from.
#[allow(inconsistent_fields)]
#[derive(Debug, PartialEq)]
pub enum WorkSource {
    /// Typed into the CLI or UI.
    Manual,
    GithubIssue {
        repo: String,
        number: u64,
    },
    Linear {
        key: String,
    },
    /// A task file checked into the repository.
    File {
        path: String,
    },
}

/// What a value of type `WorkSource` stands for.
#[allow(inconsistent_fields)]
#[verifier::ext_equal]
pub enum WorkSourceModel {
    Manual,
    GithubIssue { repo: Seq<char>, number: u64 },
    Linear { key: Seq<char> },
    File { path: Seq<char> },
}

impl View for WorkSource {
    type V = WorkSourceModel;

    open spec fn view(&self) -> WorkSourceModel {
        match self {
            WorkSource::Manual => WorkSourceModel::Manual,
            WorkSource::GithubIssue { repo, number } => WorkSourceModel::GithubIssue {
                repo: repo@,
                number: *number,
            },
            WorkSource::Linear { key } => WorkSourceModel::Linear {
                key: key@,
            },
            WorkSource::File { path } => WorkSourceModel::File {
                path: path@,
            },
        }
    }
}

impl Duplicate for WorkSource {
    fn duplicate(&self) -> (r: WorkSource) {
        match self {
            WorkSource::Manual => WorkSource::Manual,
            WorkSource::GithubIssue { repo, number } => WorkSource::GithubIssue {
                repo: repo.clone(),
                number: *number,
            },
            WorkSource::Linear { key } => WorkSource::Linear {
                key: key.clone(),
            },
            WorkSource::File { path } => WorkSource::File {
                path: path.clone(),
            },
        }
    }
}

impl Clone for WorkSource {
    fn clone(&self) -> (r: WorkSource)
        ensures
            r@ == self@,
    {
        self.duplicate()
    }
}

/// Everything needed to start a run.
#[derive(Debug, PartialEq)]
pub struct RunSpec {
    pub title: String,
    /// The request itself: an issue body, a feature description, a bug report.
    pub request: String,
    pub source: WorkSource,
    /// Branch or commit the run's work forks from.
    pub base_ref: String,
    /// Name of the pipeline (stages and gates) this run follows.
    pub pipeline: String,
    pub budget: Budget,
    /// The configuration the run was created with. It stays in force when the run
    /// is continued under another one.
    pub config: Option<Config>,
}

/// What a value of type `RunSpec` stands for.
#[verifier::ext_equal]
pub struct RunSpecModel {
    pub title: Seq<char>,
    pub request: Seq<char>,
    pub source: WorkSourceModel,
    pub base_ref: Seq<char>,
    pub pipeline: Seq<char>,
    pub budget: Budget,
    pub config: Option<ConfigModel>,
}

impl View for RunSpec {
    type V = RunSpecModel;

    open spec fn view(&self) -> RunSpecModel {
        RunSpecModel {
            title: self.title@,
            request: self.request@,
            source: self.source@,
            base_ref: self.base_ref@,
            pipeline: self.pipeline@,
            budget: self.budget,
            config: seen(self.config),
        }
    }
}

impl Duplicate for RunSpec {
    fn duplicate(&self) -> (r: RunSpec) {
        RunSpec {
            title: self.title.clone(),
            request: self.request.clone(),
            source: self.source.duplicate(),
            base_ref: self.base_ref.clone(),
            pipeline: self.pipeline.clone(),
            budget: self.budget,
            config: duplicate_opt(&self.config),
        }
    }
}

impl Clone for RunSpec {
    fn clone(&self) -> (r: RunSpec)
        ensures
            r@ == self@,
    {
        self.duplicate()
    }
}

/// Where a run stands.
#[derive(Debug, Clone, Copy, PartialEq, Eq, Structural)]
pub enum RunStatus {
    Pending,
    Running,
    /// Blocked on a human decision.
    WaitingForApproval,
    Succeeded,
    Failed,
    Cancelled,
}

impl RunStatus {
    pub open spec fn terminal(self) -> bool {
        self == RunStatus::Succeeded || self == RunStatus::Failed || self == RunStatus::Cancelled
    }

    pub fn is_terminal(self) -> (b: bool)
        ensures
            b == self.terminal(),
    {
        matches!(self, RunStatus::Succeeded | RunStatus::Failed | RunStatus::Cancelled)
    }
}

/// One unit of work in a run's plan.
#[derive(Debug, PartialEq)]
pub struct TaskSpec {
    /// Stable, human-readable key within the run (e.g. `T001`). Plans refer to
    /// dependencies by key so they can be written before ids exist.
    pub key: String,
    pub title: String,
    pub description: String,
    /// Which agent role executes the task (e.g. `implementer`).
    pub role: String,
    pub depends_on: Vec<String>,
    /// Acceptance criteria that review and the converge step check against.
    pub acceptance: Vec<String>,
}

/// What a value of type `TaskSpec` stands for.
#[verifier::ext_equal]
pub struct TaskSpecModel {
    pub key: Seq<char>,
    pub title: Seq<char>,
    pub description: Seq<char>,
    pub role: Seq<char>,
    pub depends_on: Seq<Seq<char>>,
    pub acceptance: Seq<Seq<char>>,
}

impl View for TaskSpec {
    type V = TaskSpecModel;

    open spec fn view(&self) -> TaskSpecModel {
        TaskSpecModel {
            key: self.key@,
            title: self.title@,
            description: self.description@,
            role: self.role@,
            depends_on: views(self.depends_on@),
            acceptance: views(self.acceptance@),
        }
    }
}

impl Duplicate for TaskSpec {
    fn duplicate(&self) -> (r: TaskSpec) {
        TaskSpec {
            key: self.key.clone(),
            title: self.title.clone(),
            description: self.description.clone(),
            role: self.role.clone(),
            depends_on: duplicate_all(&self.depends_on),
            acceptance: duplicate_all(&self.acceptance),
        }
    }
}

impl Clone for TaskSpec {
    fn clone(&self) -> (r: TaskSpec)
        ensures
            r@ == self@,
    {
        self.duplicate()
    }
}

/// Where a task stands.
#[derive(Debug, Clone, Copy, PartialEq, Eq, PartialOrd, Ord, Hash, Structural)]
pub enum TaskStatus {
    /// Waiting for dependencies.
    Pending,
    /// Dependencies done; waiting for a free agent slot.
    Ready,
    Running,
    Done,
    /// Out of attempts or failed in a way retries cannot fix.
    Failed,
    /// Not run because something it depends on failed.
    Skipped,
    Cancelled,
}

impl TaskStatus {
    pub open spec fn terminal(self) -> bool {
        self == TaskStatus::Done || self == TaskStatus::Failed || self == TaskStatus::Skipped
            || self == TaskStatus::Cancelled
    }

    pub fn is_terminal(self) -> (b: bool)
        ensures
            b == self.terminal(),
    {
        matches!(
            self,
            TaskStatus::Done | TaskStatus::Failed | TaskStatus::Skipped | TaskStatus::Cancelled
        )
    }
}

/// Which agent runtime (and model) did something.
#[derive(Debug, PartialEq)]
pub struct AgentRef {
    /// Adapter name, e.g. `code-cli`, `codex`, `acp:gemini`.
    pub runtime: String,
    pub model: Option<String>,
}

/// What a value of type `AgentRef` stands for.
#[verifier::ext_equal]
pub struct AgentRefModel {
    pub runtime: Seq<char>,
    pub model: Option<Seq<char>>,
}

impl View for AgentRef {
    type V = AgentRefModel;

    open spec fn view(&self) -> AgentRefModel {
        AgentRefModel {
            runtime: self.runtime@,
            model: seen(self.model),
        }
    }
}

impl Duplicate for AgentRef {
    fn duplicate(&self) -> (r: AgentRef) {
        AgentRef {
            runtime: self.runtime.clone(),
            model: duplicate_opt(&self.model),
        }
    }
}

impl Clone for AgentRef {
    fn clone(&self) -> (r: AgentRef)
        ensures
            r@ == self@,
    {
        self.duplicate()
    }
}

/// Why an attempt failed. The engine's retry policy keys off this.
#[derive(Debug, Clone, Copy, PartialEq, Eq, Structural)]
pub enum FailureKind {
    /// The agent crashed, errored or gave up.
    Agent,
    /// Deterministic checks (build, lint, tests) failed.
    Verification,
    /// A review requested changes and the fix-loop cap was reached.
    Review,
    Budget,
    Timeout,
    /// Our side broke (sandbox, git, network), not the agent's fault.
    Infrastructure,
    MergeConflict,
}

impl FailureKind {
    /// Whether another attempt could plausibly succeed.
    pub fn is_retryable(self) -> (b: bool)
        ensures
            b == (self != FailureKind::Budget),
    {
        !matches!(self, FailureKind::Budget)
    }

    pub open spec fn label_spec(self) -> Seq<char> {
        match self {
            FailureKind::Agent => "Agent"@,
            FailureKind::Verification => "Verification"@,
            FailureKind::Review => "Review"@,
            FailureKind::Budget => "Budget"@,
            FailureKind::Timeout => "Timeout"@,
            FailureKind::Infrastructure => "Infrastructure"@,
            FailureKind::MergeConflict => "MergeConflict"@,
        }
    }

    /// The name of the variant.
    pub fn label(self) -> (r: &'static str)
        ensures
            r@ == self.label_spec(),
    {
        match self {
            FailureKind::Agent => "Agent",
            FailureKind::Verification => "Verification",
            FailureKind::Review => "Review",
            FailureKind::Budget => "Budget",
            FailureKind::Timeout => "Timeout",
            FailureKind::Infrastructure => "Infrastructure",
            FailureKind::MergeConflict => "MergeConflict",
        }
    }
}

/// How an attempt ended.
#[allow(inconsistent_fields)]
#[derive(Debug, PartialEq)]
pub enum AttemptOutcome {
    Succeeded {
        /// Commit holding the attempt's work, if it changed anything.
        commit: Option<String>,
    },
    Failed {
        kind: FailureKind,
        message: String,
    },
    Cancelled,
}

/// What a value of type `AttemptOutcome` stands for.
#[allow(inconsistent_fields)]
#[verifier::ext_equal]
pub enum AttemptOutcomeModel {
    Succeeded { commit: Option<Seq<char>> },
    Failed { kind: FailureKind, message: Seq<char> },
    Cancelled,
}

impl View for AttemptOutcome {
    type V = AttemptOutcomeModel;

    open spec fn view(&self) -> AttemptOutcomeModel {
        match self {
            AttemptOutcome::Succeeded { commit } => AttemptOutcomeModel::Succeeded {
                commit: seen(*commit),
            },
            AttemptOutcome::Failed { kind, message } => AttemptOutcomeModel::Failed {
                kind: *kind,
                message: message@,
            },
            AttemptOutcome::Cancelled => AttemptOutcomeModel::Cancelled,
        }
    }
}

impl Duplicate for AttemptOutcome {
    fn duplicate(&self) -> (r: AttemptOutcome) {
        match self {
            AttemptOutcome::Succeeded { commit } => AttemptOutcome::Succeeded {
                commit: duplicate_opt(commit),
            },
            AttemptOutcome::Failed { kind, message } => AttemptOutcome::Failed {
                kind: *kind,
                message: message.clone(),
            },
            AttemptOutcome::Cancelled => AttemptOutcome::Cancelled,
        }
    }
}

impl Clone for AttemptOutcome {
    fn clone(&self) -> (r: AttemptOutcome)
        ensures
            r@ == self@,
    {
        self.duplicate()
    }
}

/// Result of a deterministic check (build, lint, test command).
#[derive(Debug, PartialEq)]
pub struct CheckResult {
    pub name: String,
    pub command: String,
    pub passed: bool,
    pub exit_code: Option<i32>,
    pub duration_ms: u64,
    /// The last lines of combined output, for display and for feeding back to
    /// the agent on failure.
    pub output_tail: String,
}

/// What a value of type `CheckResult` stands for.
#[verifier::ext_equal]
pub struct CheckResultModel {
    pub name: Seq<char>,
    pub command: Seq<char>,
    pub passed: bool,
    pub exit_code: Option<i32>,
    pub duration_ms: u64,
    pub output_tail: Seq<char>,
}

impl View for CheckResult {
    type V = CheckResultModel;

    open spec fn view(&self) -> CheckResultModel {
        CheckResultModel {
            name: self.name@,
            command: self.command@,
            passed: self.passed,
            exit_code: self.exit_code,
            duration_ms: self.duration_ms,
            output_tail: self.output_tail@,
        }
    }
}

impl Duplicate for CheckResult {
    fn duplicate(&self) -> (r: CheckResult) {
        CheckResult {
            name: self.name.clone(),
            command: self.command.clone(),
            passed: self.passed,
            exit_code: self.exit_code,
            duration_ms: self.duration_ms,
            output_tail: self.output_tail.clone(),
        }
    }
}

impl Clone for CheckResult {
    fn clone(&self) -> (r: CheckResult)
        ensures
            r@ == self@,
    {
        self.duplicate()
    }
}

/// What a review concludes.
#[derive(Debug, Clone, Copy, PartialEq, Eq, Structural)]
pub enum ReviewVerdict {
    Approve,
    RequestChanges,
    /// The task or spec itself seems wrong; a human decides.
    Escalate,
}

impl ReviewVerdict {
    pub open spec fn label_spec(self) -> Seq<char> {
        match self {
            ReviewVerdict::Approve => "Approve"@,
            ReviewVerdict::RequestChanges => "RequestChanges"@,
            ReviewVerdict::Escalate => "Escalate"@,
        }
    }

    /// The name of the variant.
    pub fn label(self) -> (r: &'static str)
        ensures
            r@ == self.label_spec(),
    {
        match self {
            ReviewVerdict::Approve => "Approve",
            ReviewVerdict::RequestChanges => "RequestChanges",
            ReviewVerdict::Escalate => "Escalate",
        }
    }
}

/// How a review finding should be handled (triage categories).
#[derive(Debug, Clone, Copy, PartialEq, Eq, Structural)]
pub enum FindingKind {
    /// A defect in the change; send back to the implementer.
    Patch,
    /// The spec or plan is wrong or incomplete.
    BadSpec,
    /// The change does not match what was asked for; needs a human.
    IntentGap,
    /// Real but out of scope; file as follow-up work.
    Defer,
    /// Not actually a problem.
    Reject,
}

/// One remark of a review.
#[derive(Debug, PartialEq)]
pub struct Finding {
    pub kind: FindingKind,
    pub message: String,
    pub file: Option<String>,
    pub line: Option<u32>,
}

/// What a value of type `Finding` stands for.
#[verifier::ext_equal]
pub struct FindingModel {
    pub kind: FindingKind,
    pub message: Seq<char>,
    pub file: Option<Seq<char>>,
    pub line: Option<u32>,
}

impl View for Finding {
    type V = FindingModel;

    open spec fn view(&self) -> FindingModel {
        FindingModel {
            kind: self.kind,
            message: self.message@,
            file: seen(self.file),
            line: self.line,
        }
    }
}

impl Duplicate for Finding {
    fn duplicate(&self) -> (r: Finding) {
        Finding {
            kind: self.kind,
            message: self.message.clone(),
            file: duplicate_opt(&self.file),
            line: self.line,
        }
    }
}

impl Clone for Finding {
    fn clone(&self) -> (r: Finding)
        ensures
            r@ == self@,
    {
        self.duplicate()
    }
}

/// What a human is asked.
#[derive(Debug, Clone, Copy, PartialEq, Eq, Structural)]
pub enum ApprovalKind {
    Plan,
    Merge,
    /// An agent asked a question only a human can answer.
    Question,
    /// An agent wants to run a tool its policy does not allow by default.
    Permission,
}

impl ApprovalKind {
    pub open spec fn label_spec(self) -> Seq<char> {
        match self {
            ApprovalKind::Plan => "Plan"@,
            ApprovalKind::Merge => "Merge"@,
            ApprovalKind::Question => "Question"@,
            ApprovalKind::Permission => "Permission"@,
        }
    }

    /// The name of the variant.
    pub fn label(self) -> (r: &'static str)
        ensures
            r@ == self.label_spec(),
    {
        match self {
            ApprovalKind::Plan => "Plan",
            ApprovalKind::Merge => "Merge",
            ApprovalKind::Question => "Question",
            ApprovalKind::Permission => "Permission",
        }
    }
}

/// A human's answer.
#[derive(Debug, Clone, Copy, PartialEq, Eq, Structural)]
pub enum Decision {
    Approved,
    Rejected,
}

impl Decision {
    pub open spec fn label_spec(self) -> Seq<char> {
        match self {
            Decision::Approved => "Approved"@,
            Decision::Rejected => "Rejected"@,
        }
    }

    /// The name of the variant.
    pub fn label(self) -> (r: &'static str)
        ensures
            r@ == self.label_spec(),
    {
        match self {
            Decision::Approved => "Approved",
            Decision::Rejected => "Rejected",
        }
    }
}

/// A task is finished once it is done, has failed, was skipped or cancelled, and in no
/// other status; a run once it has succeeded, failed or was cancelled.
pub proof fn finished_is_final(task: TaskStatus, run: RunStatus)
    ensures
        task.terminal() <==> !(task is Pending) && !(task is Ready) && !(task is Running),
        run.terminal() <==> !(run is Pending) && !(run is Running) && !(run is WaitingForApproval),
{
}

/// Different kinds of failures have different names.
pub proof fn failures_have_names(a: FailureKind, b: FailureKind)
    requires
        a.label_spec() == b.label_spec(),
    ensures
        a == b,
{
    reveal_strlit("Agent");
    reveal_strlit("Verification");
    reveal_strlit("Review");
    reveal_strlit("Budget");
    reveal_strlit("Timeout");
    reveal_strlit("Infrastructure");
    reveal_strlit("MergeConflict");
    assert("Agent"@.len() == 5 && "Verification"@.len() == 12 && "Review"@.len() == 6);
    assert("Timeout"@.len() == 7 && "Infrastructure"@.len() == 14 && "MergeConflict"@.len() == 13);
    assert("Budget"@[0] == 'B' && "Review"@[0] == 'R');
}

} // verus!
