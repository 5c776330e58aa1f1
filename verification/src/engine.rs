//! The decisions that drive a run from start to finish.
//!
//! 1. Ready tasks (dependencies integrated) are dispatched to agents, up to
//!    the concurrency limit. Each attempt gets its own worktree and branch,
//!    starting from the run's integration branch, so it sees the work of the
//!    tasks it depends on.
//! 2. When an agent finishes, its work is committed and the configured checks
//!    run. Failing checks go back to the same agent session as feedback, for a
//!    bounded number of fix rounds.
//! 3. Verified branches are merged into the integration branch one at a time
//!    (a merge queue). Checks run again on the merged code; a conflict or a
//!    failure sends the task back for another attempt on top of the new head.
//! 4. Tasks that run out of attempts fail, and everything downstream of them
//!    is skipped. The run ends when every task is finished.
//!
//! Every step is an event in the log, so a crashed run resumes where it was.

use vstd::prelude::*;

use crate::attempt::{AttemptContext, AttemptContextModel, AttemptReport, AttemptReportModel};
use crate::budget::{Budget, BudgetExceeded, Usage};
use crate::checks::{all_passed, passed};
use crate::config::{
    overridden, override_covers_every_role, seen_str, Config, ConfigError, ConfigModel, Limits, Plan,
    PlanModel,
};
use crate::events::{EventKind, EventKindModel, EventModel};
use crate::git::{is_checked_out, GitError, GitErrorModel, WorktreeInfo};
use crate::ids::{
    are_fresh, fresh_uuids, has_version, hex_digits, uuid_simple, ApprovalId, AttemptId, RunId,
    TaskId, WorkspaceId,
};
use crate::model::{
    AgentRef, AgentRefModel, AttemptOutcome, AttemptOutcomeModel, CheckResult, CheckResultModel,
    Decision, FailureKind, RunSpec, RunSpecModel, RunStatus, TaskStatus, WorkSource,
    WorkSourceModel,
};
use crate::money::Usd;
use crate::order::{
    filter_none, filter_step, in_order, in_order_is, increasing, models, Key, OrdMap, OrdSet,
};
use crate::schedule::{
    after_failure, at_most, failure_events, feedback_for, feedback_of, free_slots, outcome_of,
    run_outcome, tasks_to_start,
};
use crate::state::{
    specs_never_change, start_is_wf, AttemptStateModel, RunState, RunStateModel,
};
use crate::store::StoreError;
use crate::text::{
    all_digits, begins, chars_of, decimal, decimals_differ, decimals_read_back, duplicate_all, duplicate_opt,
    finishes, is_digit, join, join_texts, seen, text_of, texts, u64_text, views, views_push,
    Duplicate,
};

verus! {

/// What can go wrong with a run.
#[derive(Debug, PartialEq)]
pub enum EngineError {
    Store(StoreError),
    Git(GitError),
    Plan(ConfigError),
    UnknownRun(RunId),
    /// No runtime of the first name is registered; the second lists those that
    /// are.
    UnknownRuntime(String, String),
}

impl EngineError {
    pub open spec fn message_spec(&self) -> Seq<char> {
        match self {
            EngineError::Store(e) => e.message_spec(),
            EngineError::Git(e) => e@.message(),
            EngineError::Plan(e) => "invalid plan: "@ + e.message_spec(),
            EngineError::UnknownRun(id) => "run "@ + RunId::label(*id) + " does not exist"@,
            EngineError::UnknownRuntime(name, known) => "no agent runtime named `"@ + name@
                + "` is registered (known: "@ + known@ + ")"@,
        }
    }

    /// The error, in words.
    pub fn message(&self) -> (r: String)
        ensures
            r@ == self.message_spec(),
    {
        match self {
            EngineError::Store(e) => e.message(),
            EngineError::Git(e) => e.message(),
            EngineError::Plan(e) => {
                let mut r = "invalid plan: ".to_owned();
                r.append(e.message().as_str());
                r
            },
            EngineError::UnknownRun(id) => {
                let mut r = "run ".to_owned();
                r.append(id.to_text().as_str());
                r.append(" does not exist");
                r
            },
            EngineError::UnknownRuntime(name, known) => {
                let mut r = "no agent runtime named `".to_owned();
                r.append(name.as_str());
                r.append("` is registered (known: ");
                r.append(known.as_str());
                r.append(")");
                r
            },
        }
    }
}

/// What to start a run with.
#[derive(Debug, PartialEq)]
pub struct NewRun {
    pub title: String,
    pub request: String,
    pub source: WorkSource,
    /// Branch to build on; defaults to the configured base or the current
    /// branch.
    pub base_ref: Option<String>,
    pub plan: Plan,
    pub max_cost_usd: Option<Usd>,
    pub max_tokens: Option<u64>,
}

/// What a value of type `NewRun` stands for.
#[verifier::ext_equal]
pub struct NewRunModel {
    pub title: Seq<char>,
    pub request: Seq<char>,
    pub source: WorkSourceModel,
    pub base_ref: Option<Seq<char>>,
    pub plan: PlanModel,
    pub max_cost_usd: Option<Usd>,
    pub max_tokens: Option<u64>,
}

impl View for NewRun {
    type V = NewRunModel;

    open spec fn view(&self) -> NewRunModel {
        NewRunModel {
            title: self.title@,
            request: self.request@,
            source: self.source@,
            base_ref: seen(self.base_ref),
            plan: self.plan@,
            max_cost_usd: self.max_cost_usd,
            max_tokens: self.max_tokens,
        }
    }
}

impl Duplicate for NewRun {
    fn duplicate(&self) -> (r: NewRun) {
        NewRun {
            title: self.title.clone(),
            request: self.request.clone(),
            source: self.source.duplicate(),
            base_ref: duplicate_opt(&self.base_ref),
            plan: self.plan.duplicate(),
            max_cost_usd: self.max_cost_usd,
            max_tokens: self.max_tokens,
        }
    }
}

impl Clone for NewRun {
    fn clone(&self) -> (r: NewRun)
        ensures
            r@ == self@,
    {
        self.duplicate()
    }
}

/// What to do in one turn of driving a run.
#[derive(Debug, PartialEq)]
pub enum Turn {
    /// The run is over its budget: stop everything and end it.
    OverBudget(BudgetExceeded),
    /// Start an attempt for each of these tasks, then wait for a report.
    Start(Vec<TaskId>),
}

/// How the worktree of the integration branch comes about.
#[derive(Debug, Clone, Copy, PartialEq, Eq, Structural)]
pub enum IntegrationPlace {
    /// It is there.
    Ready,
    /// The branch is there: check it out.
    Attach,
    /// Make the branch on the run's base.
    Create,
}

/// No runtime is registered under the name.
pub open spec fn unknown_runtime(e: EngineError, name: Seq<char>, runtimes: Set<Seq<char>>) -> bool {
    e matches EngineError::UnknownRuntime(n, known) && n@ == name && known@ == join(
        in_order::<String>(runtimes),
        ", "@,
    )
}

/// The name of the runtime that does the work of a role.
pub fn runtime_for(config: &Config, runtimes: &OrdSet<String>, role: &str) -> (r: Result<
    String,
    EngineError,
>)
    requires
        config.wf(),
        runtimes.wf(),
    ensures
        match r {
            Ok(name) => name@ == config@.agent(role@).runtime && runtimes@.contains(name@),
            Err(e) => !runtimes@.contains(config@.agent(role@).runtime) && unknown_runtime(
                e,
                config@.agent(role@).runtime,
                runtimes@,
            ),
        },
{
    let name = config.agent_for(role).runtime;
    if runtimes.contains(&name) {
        Ok(name)
    } else {
        let names = runtimes.to_vec();
        proof {
            in_order_is::<String>(runtimes.keys());
            assert(texts(names@) =~= models(names@));
        }
        Err(EngineError::UnknownRuntime(name, join_texts(&names, ", ")))
    }
}

/// The runtime of every task of the plan is registered.
pub open spec fn runtimes_known(
    plan: PlanModel,
    config: ConfigModel,
    runtimes: Set<Seq<char>>,
    n: int,
) -> bool {
    forall|i: int|
        0 <= i < n ==> runtimes.contains(config.agent((#[trigger] plan.tasks[i]).role).runtime)
}

/// Whether a run can be created: its plan is valid and there is a runtime for
/// each of its tasks.
pub fn check_new_run(new: &NewRun, config: &Config, runtimes: &OrdSet<String>) -> (r: Result<
    (),
    EngineError,
>)
    requires
        config.wf(),
        runtimes.wf(),
    ensures
        r is Ok <==> new@.plan.valid() && runtimes_known(
            new@.plan,
            config@,
            runtimes@,
            new@.plan.tasks.len() as int,
        ),
        r matches Err(e) ==> if !new@.plan.valid() {
            e matches EngineError::Plan(c) && new@.plan.refused(c)
        } else {
            exists|i: int|
                0 <= i < new@.plan.tasks.len() && runtimes_known(
                    new@.plan,
                    config@,
                    runtimes@,
                    i,
                ) && #[trigger] unknown_runtime(
                    e,
                    config@.agent(new@.plan.tasks[i].role).runtime,
                    runtimes@,
                ) && !runtimes@.contains(config@.agent(new@.plan.tasks[i].role).runtime)
        },
{
    match new.plan.validate() {
        Ok(_) => {},
        Err(e) => {
            return Err(EngineError::Plan(e));
        },
    }
    let tasks = &new.plan.tasks;
    let mut i: usize = 0;
    while i < tasks.len()
        invariant
            i <= tasks.len(),
            config.wf(),
            runtimes.wf(),
            new@.plan.valid(),
            *tasks == new.plan.tasks,
            runtimes_known(new@.plan, config@, runtimes@, i as int),
        decreases tasks.len() - i,
    {
        assert(new@.plan.tasks[i as int] == tasks@[i as int]@);
        match runtime_for(config, runtimes, tasks[i].role.as_str()) {
            Ok(_) => {},
            Err(e) => {
                proof {
                    assert(unknown_runtime(
                        e,
                        config@.agent(new@.plan.tasks[i as int].role).runtime,
                        runtimes@,
                    ));
                }
                return Err(e);
            },
        }
        i += 1;
    }
    Ok(())
}

/// The base that was asked for, of the run or of the configuration. Where there
/// is none, it is the current branch.
pub fn wanted_base(new: &NewRun, config: &Config) -> (r: Option<String>)
    ensures
        seen(r) == match new@.base_ref {
            Some(base) => Some(base),
            None => config@.project.base_ref,
        },
{
    match &new.base_ref {
        Some(base) => Some(base.clone()),
        None => duplicate_opt(&config.project.base_ref),
    }
}

/// The current branch as a base, or the head where no branch is checked out.
pub fn base_of_branch(current: Option<String>) -> (r: String)
    ensures
        r@ == match seen(current) {
            Some(branch) => branch,
            None => "HEAD"@,
        },
{
    match current {
        Some(branch) => branch,
        None => "HEAD".to_owned(),
    }
}

/// The budget of a new run: its own limits, and the configured ones where it has
/// none.
pub open spec fn budget_of(new: NewRunModel, limits: Limits) -> Budget {
    Budget {
        max_cost_usd: match new.max_cost_usd {
            Some(limit) => Some(limit),
            None => limits.max_cost_usd,
        },
        max_tokens: match new.max_tokens {
            Some(limit) => Some(limit),
            None => limits.max_tokens,
        },
        max_wall_clock_secs: None,
        max_attempts_per_task: limits.max_attempts_per_task,
    }
}

/// What a new run is created with.
pub open spec fn spec_of_run(
    new: NewRunModel,
    config: ConfigModel,
    base_ref: Seq<char>,
) -> RunSpecModel {
    RunSpecModel {
        title: new.title,
        request: new.request,
        source: new.source,
        base_ref,
        pipeline: "default"@,
        budget: budget_of(new, config.limits),
        config: Some(config),
    }
}

/// The events that record a new run with its plan.
pub open spec fn creation_kinds(
    new: NewRunModel,
    config: ConfigModel,
    base_ref: Seq<char>,
    ids: Seq<TaskId>,
) -> Seq<EventKindModel> {
    seq![
        EventKindModel::RunCreated { spec: spec_of_run(new, config, base_ref) },
        EventKindModel::PlanProposed { summary: new.plan.summary, tasks: new.plan.specs() },
    ] + task_kinds(new.plan, ids)
}

/// The events that create the tasks of a plan.
pub open spec fn task_kinds(plan: PlanModel, ids: Seq<TaskId>) -> Seq<EventKindModel> {
    Seq::new(
        plan.tasks.len(),
        |i: int| EventKindModel::TaskCreated { task_id: ids[i], spec: plan.specs()[i] },
    )
}

/// Fresh ids for the tasks of a plan, in the order of the plan.
pub fn new_task_ids(plan: &Plan) -> (r: Vec<TaskId>)
    ensures
        r@.len() == plan@.tasks.len(),
        increasing::<TaskId>(r@),
        forall|i: int| 0 <= i < r@.len() ==> has_version((#[trigger] r@[i]).uuid as int, 7),
{
    let fresh = fresh_uuids(plan.tasks.len());
    let mut r: Vec<TaskId> = Vec::new();
    let mut i: usize = 0;
    assert(plan@.tasks.len() == plan.tasks@.len());
    while i < fresh.len()
        invariant
            i <= fresh.len(),
            r@.len() == i,
            are_fresh(fresh@),
            forall|k: int| 0 <= k < i ==> (#[trigger] r@[k]).uuid == fresh@[k],
        decreases fresh.len() - i,
    {
        r.push(TaskId::from_uuid(fresh[i]));
        i += 1;
    }
    r
}

/// The events that record a new run: its creation, its plan and its tasks. The
/// configuration is kept with the run.
pub fn creation_events(
    new: &NewRun,
    config: &Config,
    base_ref: String,
    ids: &Vec<TaskId>,
) -> (r: Vec<EventKind>)
    requires
        ids@.len() == new@.plan.tasks.len(),
    ensures
        views(r@) == creation_kinds(new@, config@, base_ref@, ids@),
{
    let ghost goal = creation_kinds(new@, config@, base_ref@, ids@);
    let budget = Budget {
        max_cost_usd: match new.max_cost_usd {
            Some(limit) => Some(limit),
            None => config.limits.max_cost_usd,
        },
        max_tokens: match new.max_tokens {
            Some(limit) => Some(limit),
            None => config.limits.max_tokens,
        },
        max_wall_clock_secs: None,
        max_attempts_per_task: config.limits.max_attempts_per_task,
    };
    let spec = RunSpec {
        title: new.title.clone(),
        request: new.request.clone(),
        source: new.source.duplicate(),
        base_ref,
        pipeline: "default".to_owned(),
        budget,
        config: Some(config.duplicate()),
    };
    let tasks = new.plan.task_specs();
    let mut r: Vec<EventKind> = Vec::new();
    r.push(EventKind::RunCreated { spec });
    r.push(
        EventKind::PlanProposed {
            summary: new.plan.summary.clone(),
            tasks: new.plan.task_specs(),
        },
    );
    assert(views(r@) =~= goal.take(2));
    assert(views(tasks@).len() == tasks@.len());
    let mut i: usize = 0;
    while i < tasks.len()
        invariant
            i <= tasks.len(),
            views(tasks@) == new@.plan.specs(),
            tasks@.len() == new@.plan.tasks.len(),
            ids@.len() == tasks@.len(),
            goal.len() == 2 + tasks@.len(),
            forall|k: int|
                0 <= k < tasks@.len() ==> #[trigger] goal[k + 2] == (EventKindModel::TaskCreated {
                    task_id: ids@[k],
                    spec: new@.plan.specs()[k],
                }),
            views(r@) == goal.take(i + 2),
        decreases tasks.len() - i,
    {
        let event = EventKind::TaskCreated { task_id: ids[i], spec: tasks[i].duplicate() };
        proof {
            assert(views(tasks@)[i as int] == tasks@[i as int]@);
            assert(goal[i as int + 2] == event@);
            views_push(r@, event);
            assert(goal.take(i + 3) =~= goal.take(i + 2).push(event@));
        }
        r.push(event);
        i += 1;
    }
    assert(goal.take(i + 2) =~= goal);
    r
}

/// The configuration that a run in this status follows: the one that it has kept,
/// with `agent` put in as the runtime of every role, and `own` where it has kept
/// none or nothing of it is left to do.
pub open spec fn in_force(
    status: RunStatus,
    kept: Option<ConfigModel>,
    own: ConfigModel,
    agent: Option<Seq<char>>,
) -> ConfigModel {
    match kept {
        Some(c) if !status.terminal() => c.with_agents(agent, None),
        _ => own,
    }
}

/// The configuration that a run in this status follows, given the one that it was
/// created with and the one of whoever continues it.
pub fn config_in_force(
    status: RunStatus,
    kept: Option<Config>,
    own: &Config,
    agent: Option<&str>,
) -> (r: Config)
    ensures
        r.wf(),
        r@ == in_force(status, seen(kept), own@, seen_str(agent)),
{
    if status.is_terminal() {
        return own.duplicate();
    }
    match kept {
        Some(c) => {
            let mut c = c.duplicate();
            c.override_agents(agent, None);
            c
        },
        None => own.duplicate(),
    }
}

/// A run keeps the configuration that it was created with: whatever is recorded of
/// it later, and whoever continues it, under whatever configuration of their own,
/// its project, limits, checks and permissions stay in force until it has ended, and
/// so do its agents, but for the runtime that was asked for.
pub proof fn runs_keep_their_config(
    new: NewRunModel,
    config: ConfigModel,
    base_ref: Seq<char>,
    ids: Seq<TaskId>,
    log: Seq<EventModel>,
    own: ConfigModel,
    agent: Option<Seq<char>>,
)
    requires
        log.len() > 0,
        log[0].kind == creation_kinds(new, config, base_ref, ids)[0],
        RunStateModel::replayed(log) is Ok,
    ensures
        ({
            let s = RunStateModel::replayed(log)->Ok_0;
            let c = in_force(s.status, s.spec.config, own, agent);
            &&& s.spec == spec_of_run(new, config, base_ref)
            &&& !s.status.terminal() ==> {
                &&& c == config.with_agents(agent, None)
                &&& c.project == config.project
                &&& c.limits == config.limits
                &&& c.checks == config.checks
                &&& c.permissions == config.permissions
                &&& forall|role: Seq<char>| #[trigger]
                    c.agent(role) == overridden(config.agent(role), agent, None)
            }
        }),
{
    let start = RunStateModel::start(log[0])->Ok_0;
    start_is_wf(log[0]);
    specs_never_change(start, log.drop_first());
    let s = RunStateModel::replayed(log)->Ok_0;
    let c = in_force(s.status, s.spec.config, own, agent);
    if !s.status.terminal() {
        assert forall|role: Seq<char>| #[trigger] c.agent(role) == overridden(
            config.agent(role),
            agent,
            None,
        ) by {
            override_covers_every_role(config, agent, None, role);
        }
    }
}

/// The last eight digits of a run's id.
pub open spec fn short_text(id: RunId) -> Seq<char> {
    hex_digits(id.uuid as int, 32).skip(24)
}

/// A short, stable, branch-friendly id for a run (its random tail).
pub fn short_id(run_id: RunId) -> (r: String)
    ensures
        r@ == short_text(run_id),
        r@.len() == 8,
{
    let digits = chars_of(uuid_simple(run_id.uuid).as_str());
    proof {
        crate::ids::hex_digits_are_hex(run_id.uuid as int, 32);
    }
    assert(digits@.subrange(24, 32) =~= digits@.skip(24));
    text_of(&digits, 24, 32)
}

/// The branch holding a run's integrated work.
pub open spec fn integration_branch_text(id: RunId) -> Seq<char> {
    "bodega/"@ + short_text(id) + "/integration"@
}

/// The branch of an attempt.
pub open spec fn attempt_branch_text(id: RunId, key: Seq<char>, number: int) -> Seq<char> {
    "bodega/"@ + short_text(id) + "/"@ + key + "-"@ + decimal(number)
}

/// The branch holding a run's integrated work.
pub fn integration_branch(run_id: RunId) -> (r: String)
    ensures
        r@ == integration_branch_text(run_id),
{
    let mut r = "bodega/".to_owned();
    r.append(short_id(run_id).as_str());
    r.append("/integration");
    r
}

/// The branch that an attempt works on.
pub fn attempt_branch(run_id: RunId, key: &str, number: u32) -> (r: String)
    ensures
        r@ == attempt_branch_text(run_id, key@, number as int),
{
    let mut r = "bodega/".to_owned();
    r.append(short_id(run_id).as_str());
    r.append("/");
    r.append(attempt_dir(key, number).as_str());
    r
}

/// The directory of an attempt's worktree, within that of its run.
pub fn attempt_dir(key: &str, number: u32) -> (r: String)
    ensures
        r@ == key@ + "-"@ + decimal(number as int),
{
    let mut r = key.to_owned();
    r.append("-");
    r.append(u64_text(number as u64).as_str());
    r
}

/// The events with which driving a run starts.
pub open spec fn start_kinds(status: RunStatus) -> Seq<EventKindModel> {
    if status != RunStatus::Running {
        seq![
            EventKindModel::RunStatusChanged {
                status: RunStatus::Running,
                stage: Some("implement"@),
                reason: None,
            },
        ]
    } else {
        Seq::empty()
    }
}

/// The events with which driving a run starts.
pub fn start_events(status: RunStatus) -> (r: Vec<EventKind>)
    ensures
        views(r@) == start_kinds(status),
{
    let mut r: Vec<EventKind> = Vec::new();
    if status != RunStatus::Running {
        r.push(
            EventKind::RunStatusChanged {
                status: RunStatus::Running,
                stage: Some("implement".to_owned()),
                reason: None,
            },
        );
    }
    assert(views(r@) =~= start_kinds(status));
    r
}

impl RunStateModel {
    /// The run's whole usage can be counted against its budget.
    pub open spec fn can_budget(self) -> bool {
        Usage::sum_fits(self.usages()) && self.spec.budget.can_count(Usage::sum_of(self.usages()))
    }
}

/// Whether a run's whole usage can be counted against its budget.
pub fn can_budget(state: &RunState) -> (b: bool)
    requires
        state.wf(),
    ensures
        b == state@.can_budget(),
{
    match state.checked_usage() {
        Some(sum) => {
            let crossed = match state.spec.budget.max_cost_usd {
                Some(limit) => sum.cost_usd.nanos > limit.nanos,
                None => false,
            };
            state.spec.budget.max_tokens.is_none() || crossed || sum.checked_tokens().is_some()
        },
        None => false,
    }
}

/// How many agents may run at once: at least one.
pub open spec fn slots(limits: Limits) -> int {
    if limits.max_parallel_agents == 0 {
        1
    } else {
        limits.max_parallel_agents as int
    }
}

/// What to do next in a run with `running` attempts under way.
pub fn turn(state: &RunState, limits: &Limits, running: usize) -> (r: Turn)
    requires
        state.wf(),
        state@.can_budget(),
    ensures
        match r {
            Turn::OverBudget(e) => state@.spec.budget.crossed(
                Usage::sum_of(state@.usages()),
                0,
            ) == Some(e),
            Turn::Start(tasks) => {
                &&& state@.spec.budget.crossed(Usage::sum_of(state@.usages()), 0) is None
                &&& tasks@ == at_most(
                    state@.ready(),
                    free_slots(running as int, slots(*limits)),
                )
            },
        },
{
    let spent = state.total_usage();
    match state.spec.budget.check(&spent, 0) {
        Some(exceeded) => Turn::OverBudget(exceeded),
        None => {
            let most: usize = if limits.max_parallel_agents == 0 {
                1
            } else {
                limits.max_parallel_agents
            };
            Turn::Start(tasks_to_start(state, running, most))
        },
    }
}

/// How a run that is over its budget ends: the reason, and what is recorded
/// first.
pub fn over_budget(exceeded: BudgetExceeded) -> (r: (String, Vec<EventKind>))
    ensures
        r.0@ == "budget exceeded: "@ + exceeded.message_spec(),
        views(r.1@) == seq![EventKindModel::BudgetExceeded { exceeded }],
{
    let mut reason = "budget exceeded: ".to_owned();
    reason.append(exceeded.message().as_str());
    let mut first: Vec<EventKind> = Vec::new();
    first.push(EventKind::BudgetExceeded { exceeded });
    assert(views(first@) =~= seq![EventKindModel::BudgetExceeded { exceeded }]);
    (reason, first)
}

/// How a run ends in which nothing runs and nothing can be started.
pub open spec fn idle_spec(s: RunStateModel) -> (RunStatus, Option<Seq<char>>) {
    match outcome_of(s) {
        Some(outcome) => outcome,
        None => (RunStatus::Failed, Some("no task can make progress"@)),
    }
}

/// How a run ends in which nothing runs and nothing can be started.
pub fn idle_outcome(state: &RunState) -> (r: (RunStatus, Option<String>))
    requires
        state.wf(),
    ensures
        (r.0, seen(r.1)) == idle_spec(state@),
{
    match run_outcome(state) {
        Some(outcome) => outcome,
        None => (RunStatus::Failed, Some("no task can make progress".to_owned())),
    }
}

/// The report of an attempt that crashed.
pub fn crashed(task_id: TaskId, attempt_id: AttemptId, error: &str) -> (r: AttemptReport)
    ensures
        r@ == (AttemptReportModel {
            task_id,
            attempt_id,
            branch: Seq::empty(),
            outcome: AttemptOutcomeModel::Failed {
                kind: FailureKind::Infrastructure,
                message: "the attempt crashed: "@ + error@,
            },
        }),
        report_failure(r@.outcome) matches Some((_, again)) && again,
{
    let mut message = "the attempt crashed: ".to_owned();
    message.append(error);
    let r = AttemptReport {
        task_id,
        attempt_id,
        branch: String::new(),
        outcome: AttemptOutcome::Failed { kind: FailureKind::Infrastructure, message },
    };
    assert(r@.branch =~= Seq::<char>::empty());
    r
}

impl RunStateModel {
    /// The attempts that are not finished, in id order.
    pub open spec fn unfinished(self) -> Seq<AttemptId> {
        self.attempt_order().filter(|id: AttemptId| self.attempts[id].outcome is None)
    }

    /// The tasks with this status, in id order.
    pub open spec fn tasks_at(self, status: TaskStatus) -> Seq<TaskId> {
        self.task_order().filter(|id: TaskId| self.tasks[id].status == status)
    }

    /// The tasks that are not finished, in id order.
    pub open spec fn open_tasks(self) -> Seq<TaskId> {
        self.task_order().filter(|id: TaskId| !self.tasks[id].status.terminal())
    }
}

/// The attempts that are not finished, in id order.
pub fn unfinished_attempts(state: &RunState) -> (r: Vec<AttemptId>)
    requires
        state.wf(),
    ensures
        r@ == state@.unfinished(),
{
    let ghost s = state@;
    let ghost order = state.attempts.order();
    let ghost p = |id: AttemptId| s.attempts[id].outcome is None;
    let mut r: Vec<AttemptId> = Vec::new();
    let mut i: usize = 0;
    proof {
        state.attempts.order_of_keys();
        crate::state::seen_map_dom(state.attempts@);
        filter_none(order, p);
        assert(r@ =~= order.take(0).filter(p));
    }
    while i < state.attempts.len()
        invariant
            i <= state.attempts.order().len(),
            order == state.attempts.order(),
            state.wf(),
            s == state@,
            p == |id: AttemptId| s.attempts[id].outcome is None,
            r@ == order.take(i as int).filter(p),
        decreases state.attempts.order().len() - i,
    {
        proof {
            state.attempts.position(i as int);
            assert(state.attempts.held()[i as int]@ == s.attempts[order[i as int]]);
            filter_step(order, p, i as int);
        }
        if !state.attempts.value_at(i).is_finished() {
            r.push(*state.attempts.key_at(i));
        }
        i += 1;
    }
    assert(order.take(i as int) =~= order);
    r
}

fn open_tasks(state: &RunState) -> (r: Vec<TaskId>)
    requires
        state.wf(),
    ensures
        r@ == state@.open_tasks(),
{
    let ghost s = state@;
    let ghost order = state.tasks.order();
    let ghost p = |id: TaskId| !s.tasks[id].status.terminal();
    let mut r: Vec<TaskId> = Vec::new();
    let mut i: usize = 0;
    proof {
        state.tasks.order_of_keys();
        crate::state::seen_map_dom(state.tasks@);
        filter_none(order, p);
        assert(r@ =~= order.take(0).filter(p));
    }
    while i < state.tasks.len()
        invariant
            i <= state.tasks.order().len(),
            order == state.tasks.order(),
            state.wf(),
            s == state@,
            p == |id: TaskId| !s.tasks[id].status.terminal(),
            r@ == order.take(i as int).filter(p),
        decreases state.tasks.order().len() - i,
    {
        proof {
            state.tasks.position(i as int);
            assert(state.tasks.held()[i as int]@ == s.tasks[order[i as int]]);
            filter_step(order, p, i as int);
        }
        if !state.tasks.value_at(i).status.is_terminal() {
            r.push(*state.tasks.key_at(i));
        }
        i += 1;
    }
    assert(order.take(i as int) =~= order);
    r
}

fn running_tasks(state: &RunState) -> (r: Vec<TaskId>)
    requires
        state.wf(),
    ensures
        r@ == state@.tasks_at(TaskStatus::Running),
{
    let ghost s = state@;
    let ghost order = state.tasks.order();
    let ghost p = |id: TaskId| s.tasks[id].status == TaskStatus::Running;
    let mut r: Vec<TaskId> = Vec::new();
    let mut i: usize = 0;
    proof {
        state.tasks.order_of_keys();
        crate::state::seen_map_dom(state.tasks@);
        filter_none(order, p);
        assert(r@ =~= order.take(0).filter(p));
    }
    while i < state.tasks.len()
        invariant
            i <= state.tasks.order().len(),
            order == state.tasks.order(),
            state.wf(),
            s == state@,
            p == |id: TaskId| s.tasks[id].status == TaskStatus::Running,
            r@ == order.take(i as int).filter(p),
        decreases state.tasks.order().len() - i,
    {
        proof {
            state.tasks.position(i as int);
            assert(state.tasks.held()[i as int]@ == s.tasks[order[i as int]]);
            filter_step(order, p, i as int);
        }
        if state.tasks.value_at(i).status == TaskStatus::Running {
            r.push(*state.tasks.key_at(i));
        }
        i += 1;
    }
    assert(order.take(i as int) =~= order);
    r
}


/// How an attempt ends that was running when the process died.
pub open spec fn interrupted_kind(s: RunStateModel, id: AttemptId) -> EventKindModel {
    EventKindModel::AttemptFinished {
        attempt_id: id,
        outcome: AttemptOutcomeModel::Failed {
            kind: FailureKind::Infrastructure,
            message: "interrupted: Bodega stopped while this attempt was running"@,
        },
        usage: s.attempts[id].usage,
    }
}

/// Marks an attempt that was running when the process died as failed.
pub fn interrupted_event(state: &RunState, attempt_id: AttemptId) -> (r: Vec<EventKind>)
    requires
        state.wf(),
    ensures
        views(r@) == if state@.attempts.dom().contains(attempt_id) {
            seq![interrupted_kind(state@, attempt_id)]
        } else {
            Seq::empty()
        },
{
    let mut r: Vec<EventKind> = Vec::new();
    proof {
        crate::state::seen_map_dom(state.attempts@);
    }
    match state.attempts.get(&attempt_id) {
        Some(attempt) => {
            r.push(
                EventKind::AttemptFinished {
                    attempt_id,
                    outcome: AttemptOutcome::Failed {
                        kind: FailureKind::Infrastructure,
                        message:
                            "interrupted: Bodega stopped while this attempt was running".to_owned(),
                    },
                    usage: attempt.usage,
                },
            );
            assert(views(r@) =~= seq![interrupted_kind(state@, attempt_id)]);
        },
        None => {
            assert(views(r@) =~= Seq::<EventKindModel>::empty());
        },
    }
    r
}

/// What becomes of tasks that were running when the process died, one after
/// another.
pub open spec fn restart_kinds(s: RunStateModel, ids: Seq<TaskId>) -> Seq<EventKindModel>
    decreases ids.len(),
{
    if ids.len() == 0 {
        Seq::empty()
    } else {
        restart_kinds(s, ids.drop_last()) + failure_events(
            s,
            ids.last(),
            "interrupted by a restart"@,
            true,
            s.spec.budget.max_attempts_per_task,
        )
    }
}

/// What becomes of the tasks whose attempts were interrupted: they are retried
/// while attempts remain.
pub fn restart_events(state: &RunState) -> (r: Vec<EventKind>)
    requires
        state.wf(),
    ensures
        views(r@) == restart_kinds(state@, state@.tasks_at(TaskStatus::Running)),
{
    let tasks = running_tasks(state);
    let mut r: Vec<EventKind> = Vec::new();
    let mut i: usize = 0;
    assert(views(r@) =~= restart_kinds(state@, tasks@.take(0)));
    while i < tasks.len()
        invariant
            i <= tasks.len(),
            state.wf(),
            views(r@) == restart_kinds(state@, tasks@.take(i as int)),
        decreases tasks.len() - i,
    {
        let mut more = after_failure(
            state,
            tasks[i],
            "interrupted by a restart",
            true,
            state.spec.budget.max_attempts_per_task,
        );
        proof {
            assert(tasks@.take(i + 1).drop_last() =~= tasks@.take(i as int));
            assert(tasks@.take(i + 1).last() == tasks@[i as int]);
        }
        let ghost a = r@;
        let ghost b = more@;
        r.append(&mut more);
        assert(views(r@) =~= views(a) + views(b));
        i += 1;
    }
    assert(tasks@.take(i as int) =~= tasks@);
    r
}

/// Some worktree has the run's integration branch checked out.
pub open spec fn is_integrating(list: Seq<crate::git::WorktreeInfoModel>, id: RunId) -> bool {
    exists|i: int|
        0 <= i < list.len() && (#[trigger] list[i]).branch == Some(integration_branch_text(id))
}

/// How the worktree of a run's integration branch comes about, from the
/// worktrees that are there and from whether the branch is.
pub fn integration_place(run_id: RunId, worktrees: &Vec<WorktreeInfo>, branch_exists: bool) -> (r:
    IntegrationPlace)
    ensures
        r == if is_integrating(views(worktrees@), run_id) {
            IntegrationPlace::Ready
        } else if branch_exists {
            IntegrationPlace::Attach
        } else {
            IntegrationPlace::Create
        },
{
    let branch = integration_branch(run_id);
    assert(views(worktrees@).len() == worktrees@.len());
    if is_checked_out(worktrees, branch.as_str()) {
        IntegrationPlace::Ready
    } else if branch_exists {
        IntegrationPlace::Attach
    } else {
        IntegrationPlace::Create
    }
}

/// A directory within another one, on a system whose paths have slashes.
pub open spec fn path_in(dir: Seq<char>, name: Seq<char>) -> Seq<char> {
    if dir.len() == 0 || dir.last() == '/' {
        dir + name
    } else {
        dir + "/"@ + name
    }
}

/// The path of `name` within `dir`.
pub fn join_path(dir: &str, name: &str) -> (r: String)
    ensures
        r@ == path_in(dir@, name@),
{
    let mut r = dir.to_owned();
    proof {
        reveal_strlit("/");
        reveal_strlit("");
        if dir@.len() > 0 {
            assert((crate::text::finishes(dir@, "/"@)) == (dir@.last() == '/')) by {
                let end = dir@.skip(dir@.len() - 1);
                assert(end[0] == dir@.last());
                assert(dir@.last() == '/' ==> end =~= "/"@);
            }
        }
    }
    if !dir.is_empty() && !crate::text::ends_with(dir, "/") {
        r.append("/");
    }
    r.append(name);
    r
}

/// The directory of a run's worktrees, within the state directory.
pub fn run_dir(state_dir: &str, run_id: RunId) -> (r: String)
    ensures
        r@ == path_in(path_in(state_dir@, "worktrees"@), RunId::label(run_id)),
{
    join_path(join_path(state_dir, "worktrees").as_str(), run_id.to_text().as_str())
}

/// What an attempt may come to cost: its cap while it runs, or what it has cost
/// where that is more.
pub open spec fn claim(a: AttemptStateModel, caps: Map<AttemptId, Usd>) -> int {
    if a.outcome is None && caps.dom().contains(a.id) && caps[a.id].nanos > a.usage.cost_usd.nanos {
        caps[a.id].nanos as int
    } else {
        a.usage.cost_usd.nanos as int
    }
}

/// What each attempt may come to cost, in id order.
pub open spec fn claims(s: RunStateModel, caps: Map<AttemptId, Usd>) -> Seq<int> {
    s.attempt_order().map_values(|id: AttemptId| claim(s.attempts[id], caps))
}

/// The sum.
pub open spec fn total(all: Seq<int>) -> int
    decreases all.len(),
{
    if all.len() == 0 {
        0
    } else {
        total(all.drop_last()) + all.last()
    }
}

/// What is left of a limit, as far as an amount can be that large.
pub open spec fn left_of(limit: int, committed: int) -> int {
    if committed >= limit {
        0
    } else if limit - committed > i64::MAX {
        i64::MAX as int
    } else {
        limit - committed
    }
}

/// What all attempts so far may come to cost.
fn committed(state: &RunState, caps: &OrdMap<AttemptId, Usd>) -> (r: i128)
    requires
        state.wf(),
        caps.wf(),
    ensures
        r == total(claims(state@, caps@)),
{
    let ghost s = state@;
    let ghost all = claims(s, caps@);
    let ghost order = state.attempts.order();
    let mut sum: i128 = 0;
    let n: usize = state.attempts.len();
    let mut i: usize = 0;
    proof {
        state.attempts.order_of_keys();
        crate::state::seen_map_dom(state.attempts@);
    }
    while i < n
        invariant
            i <= n,
            n == state.attempts.order().len(),
            order == state.attempts.order(),
            order == s.attempt_order(),
            state.wf(),
            caps.wf(),
            s == state@,
            all == claims(s, caps@),
            sum == total(all.take(i as int)),
            -0x8000_0000_0000_0000 * i <= sum <= 0x8000_0000_0000_0000 * i,
        decreases state.attempts.order().len() - i,
    {
        let attempt = state.attempts.value_at(i);
        proof {
            state.attempts.position(i as int);
            assert(attempt@ == s.attempts[order[i as int]]);
            assert(s.attempts.dom().contains(order[i as int]));
            assert(all.take(i + 1).drop_last() =~= all.take(i as int));
            assert(all.take(i + 1).last() == claim(attempt@, caps@));
        }
        let mut cost: i64 = attempt.usage.cost_usd.nanos;
        if !attempt.is_finished() {
            if let Some(cap) = caps.get(&attempt.id) {
                if cap.nanos > cost {
                    cost = cap.nanos;
                }
            }
        }
        sum = sum + cost as i128;
        i += 1;
    }
    assert(all.take(i as int) =~= all);
    sum
}

/// The share of the run's remaining spend for each of the attempts that start
/// now, where the spend is limited: what is left after all that earlier attempts
/// have spent, or may still spend under the caps of those that run, split
/// evenly.
pub fn budget_share(state: &RunState, caps: &OrdMap<AttemptId, Usd>, starting: usize) -> (r: Option<
    Usd,
>)
    requires
        state.wf(),
        caps.wf(),
        starting > 0,
    ensures
        match state@.spec.budget.max_cost_usd {
            None => r is None,
            Some(limit) => r matches Some(share) && share.nanos == left_of(
                limit.nanos as int,
                total(claims(state@, caps@)),
            ) / starting as int,
        },
{
    match state.spec.budget.max_cost_usd {
        None => None,
        Some(limit) => {
            let sum = committed(state, caps);
            let left: u64 = if sum >= limit.nanos as i128 {
                0
            } else if sum < limit.nanos as i128 - i64::MAX as i128 {
                i64::MAX as u64
            } else {
                (limit.nanos as i128 - sum) as u64
            };
            let share: u64 = left / starting as u64;
            proof {
                let n = starting as int;
                assert(0 <= left / starting as u64 <= left) by (nonlinear_arith)
                    requires
                        starting as u64 > 0,
                ;
            }
            Some(Usd { nanos: share as i64 })
        },
    }
}

/// What an attempt of a task is prepared with.
pub open spec fn prepared(
    s: RunStateModel,
    config: ConfigModel,
    task_id: TaskId,
    attempt_id: AttemptId,
    dir: Seq<char>,
    base_sha: Seq<char>,
    share: Option<Usd>,
) -> AttemptContextModel {
    let task = s.tasks[task_id];
    let number = task.attempts.len() + 1;
    AttemptContextModel {
        run_id: s.id,
        run: s.spec,
        task_id,
        task: task.spec,
        attempt_id,
        number: number as u32,
        branch: attempt_branch_text(s.id, task.spec.key, number as int),
        worktree_path: path_in(dir, task.spec.key + "-"@ + decimal(number as int)),
        base_sha,
        agent: config.agent(task.spec.role),
        checks: config.checks,
        policy: config.permissions,
        limits: config.limits,
        max_budget_usd: share,
        feedback: feedback_of(s, task_id),
        budget: s.spec.budget,
        spent_before: Usage::sum_of(s.usages()),
    }
}

/// An attempt of a run that goes on works under the checks, the permissions and the
/// limits that the run was created with, and with the agent that it names for the
/// task's role, but for the runtime that was asked for.
pub proof fn attempts_keep_their_config(
    s: RunStateModel,
    kept: ConfigModel,
    own: ConfigModel,
    agent: Option<Seq<char>>,
    task_id: TaskId,
    attempt_id: AttemptId,
    dir: Seq<char>,
    base_sha: Seq<char>,
    share: Option<Usd>,
)
    requires
        s.spec.config == Some(kept),
        !s.status.terminal(),
    ensures
        ({
            let config = in_force(s.status, s.spec.config, own, agent);
            let ctx = prepared(s, config, task_id, attempt_id, dir, base_sha, share);
            &&& ctx.checks == kept.checks
            &&& ctx.policy == kept.permissions
            &&& ctx.limits == kept.limits
            &&& ctx.agent == overridden(kept.agent(s.tasks[task_id].spec.role), agent, None)
        }),
{
    override_covers_every_role(kept, agent, None, s.tasks[task_id].spec.role);
}

/// The events that reserve an attempt, so that its task is not dispatched twice.
pub open spec fn reservation(ctx: AttemptContextModel, workspace_id: WorkspaceId) -> Seq<
    EventKindModel,
> {
    seq![
        EventKindModel::TaskStatusChanged {
            task_id: ctx.task_id,
            status: TaskStatus::Running,
            reason: None,
        },
        EventKindModel::AttemptStarted {
            attempt_id: ctx.attempt_id,
            task_id: ctx.task_id,
            number: ctx.number,
            agent: AgentRefModel { runtime: ctx.agent.runtime, model: ctx.agent.model },
            workspace_id,
            branch: ctx.branch,
        },
    ]
}

/// Builds everything an attempt needs to run, and the events that reserve it.
pub fn prepare_attempt(
    state: &RunState,
    config: &Config,
    runtimes: &OrdSet<String>,
    task_id: TaskId,
    attempt_id: AttemptId,
    workspace_id: WorkspaceId,
    dir: &str,
    base_sha: String,
    share: Option<Usd>,
) -> (r: Result<(AttemptContext, Vec<EventKind>), EngineError>)
    requires
        state.wf(),
        config.wf(),
        runtimes.wf(),
        state@.tasks.dom().contains(task_id),
        state@.tasks[task_id].attempts.len() < u32::MAX,
        Usage::sum_fits(state@.usages()),
    ensures
        ({
            let name = config@.agent(state@.tasks[task_id].spec.role).runtime;
            match r {
                Ok((ctx, events)) => {
                    &&& runtimes@.contains(name)
                    &&& ctx@ == prepared(
                        state@,
                        config@,
                        task_id,
                        attempt_id,
                        dir@,
                        base_sha@,
                        share,
                    )
                    &&& views(events@) == reservation(ctx@, workspace_id)
                },
                Err(e) => !runtimes@.contains(name) && unknown_runtime(e, name, runtimes@),
            }
        }),
{
    proof {
        crate::state::seen_map_dom(state.tasks@);
    }
    let task = match state.tasks.get(&task_id) {
        Some(task) => task,
        None => {
            assert(false);
            return Err(EngineError::UnknownRun(state.id));
        },
    };
    let role = task.spec.role.as_str();
    match runtime_for(config, runtimes, role) {
        Ok(_) => {},
        Err(e) => {
            return Err(e);
        },
    }
    let agent = config.agent_for(role);
    let number: u32 = task.attempts.len() as u32 + 1;
    let key = task.spec.key.as_str();
    let branch = attempt_branch(state.id, key, number);
    let mut events: Vec<EventKind> = Vec::new();
    events.push(
        EventKind::TaskStatusChanged { task_id, status: TaskStatus::Running, reason: None },
    );
    events.push(
        EventKind::AttemptStarted {
            attempt_id,
            task_id,
            number,
            agent: AgentRef { runtime: agent.runtime.clone(), model: duplicate_opt(&agent.model) },
            workspace_id,
            branch: branch.clone(),
        },
    );
    let ctx = AttemptContext {
        run_id: state.id,
        run: state.spec.duplicate(),
        task_id,
        task: task.spec.duplicate(),
        attempt_id,
        number,
        branch,
        worktree_path: join_path(dir, attempt_dir(key, number).as_str()),
        base_sha,
        agent,
        checks: duplicate_all(&config.checks),
        policy: config.permissions.duplicate(),
        limits: config.limits,
        max_budget_usd: share,
        feedback: feedback_for(state, task_id),
        budget: state.spec.budget,
        spent_before: state.total_usage(),
    };
    assert(views(events@) =~= reservation(ctx@, workspace_id));
    Ok((ctx, events))
}

/// Why an attempt that did not succeed failed, and whether another one could do
/// better.
pub open spec fn report_failure(outcome: AttemptOutcomeModel) -> Option<(Seq<char>, bool)> {
    match outcome {
        AttemptOutcomeModel::Succeeded { .. } => None,
        AttemptOutcomeModel::Failed { kind, message } => Some(
            (kind.label_spec() + ": "@ + message, kind != FailureKind::Budget),
        ),
        AttemptOutcomeModel::Cancelled => Some(("cancelled"@, true)),
    }
}

/// What follows a report: nothing where verified work landed, else what follows
/// the failure of the attempt or of its integration.
pub open spec fn report_kinds(
    s: RunStateModel,
    report: AttemptReportModel,
    integration: Option<Seq<char>>,
) -> Seq<EventKindModel> {
    let max = s.spec.budget.max_attempts_per_task;
    match report_failure(report.outcome) {
        Some((reason, retryable)) => failure_events(s, report.task_id, reason, retryable, max),
        None => match integration {
            Some(reason) => failure_events(s, report.task_id, reason, true, max),
            None => Seq::empty(),
        },
    }
}

/// Whether an attempt's work goes to the merge queue.
pub fn is_verified(report: &AttemptReport) -> (b: bool)
    ensures
        b == (report@.outcome is Succeeded),
        b == (report_failure(report@.outcome) is None),
{
    matches!(report.outcome, AttemptOutcome::Succeeded { .. })
}

/// Decides what happens after a report. `integration` is the reason why verified
/// work could not land.
pub fn handle_report(state: &RunState, report: &AttemptReport, integration: Option<&str>) -> (r: Vec<
    EventKind,
>)
    requires
        state.wf(),
    ensures
        views(r@) == report_kinds(state@, report@, crate::config::seen_str(integration)),
{
    let max: u32 = state.spec.budget.max_attempts_per_task;
    match &report.outcome {
        AttemptOutcome::Succeeded { .. } => match integration {
            Some(reason) => after_failure(state, report.task_id, reason, true, max),
            None => {
                let r: Vec<EventKind> = Vec::new();
                assert(views(r@) =~= Seq::<EventKindModel>::empty());
                r
            },
        },
        AttemptOutcome::Failed { kind, message } => {
            let mut reason = kind.label().to_owned();
            reason.append(": ");
            reason.append(message.as_str());
            after_failure(state, report.task_id, reason.as_str(), kind.is_retryable(), max)
        },
        AttemptOutcome::Cancelled => after_failure(state, report.task_id, "cancelled", true, max),
    }
}

/// The message of the merge that integrates a task.
pub fn merge_message(key: &str) -> (r: String)
    ensures
        r@ == "bodega: integrate "@ + key@,
{
    let mut r = "bodega: integrate ".to_owned();
    r.append(key);
    r
}

/// How a check that fails on the integrated code is told.
pub open spec fn broken_text(c: CheckResultModel) -> Seq<char> {
    "`"@ + c.command + "`:\n"@ + c.output_tail
}

/// The checks that fail on the integrated code.
pub open spec fn broken_texts(results: Seq<CheckResultModel>) -> Seq<Seq<char>> {
    results.filter(|r: CheckResultModel| !r.passed).map_values(
        |r: CheckResultModel| broken_text(r),
    )
}

/// The work landed.
pub open spec fn landed_kinds(report: AttemptReportModel, commit: Seq<char>) -> Seq<EventKindModel> {
    seq![
        EventKindModel::BranchIntegrated {
            task_id: report.task_id,
            branch: report.branch,
            commit,
        },
        EventKindModel::TaskStatusChanged {
            task_id: report.task_id,
            status: TaskStatus::Done,
            reason: None,
        },
    ]
}

/// What to do once a branch has been merged and the checks have run.
#[derive(Debug, PartialEq)]
pub enum Landing {
    /// The work is in: record this.
    Landed(Vec<EventKind>),
    /// The combined code fails: undo the merge, for this reason.
    Undo(String),
}

/// What to do once a branch has been merged and the checks have run.
pub fn landing(report: &AttemptReport, commit: String, results: &Vec<CheckResult>) -> (r: Landing)
    ensures
        match r {
            Landing::Landed(events) => all_passed(views(results@)) && views(events@)
                == landed_kinds(report@, commit@),
            Landing::Undo(reason) => !all_passed(views(results@)) && reason@
                == "checks failed on the integrated code: "@ + join(
                broken_texts(views(results@)),
                "\n"@,
            ),
        },
{
    if passed(results) {
        let ghost goal = landed_kinds(report@, commit@);
        let mut events: Vec<EventKind> = Vec::new();
        events.push(
            EventKind::BranchIntegrated {
                task_id: report.task_id,
                branch: report.branch.clone(),
                commit,
            },
        );
        events.push(
            EventKind::TaskStatusChanged {
                task_id: report.task_id,
                status: TaskStatus::Done,
                reason: None,
            },
        );
        assert(views(events@) =~= goal);
        Landing::Landed(events)
    } else {
        let broken = broken(results);
        let mut reason = "checks failed on the integrated code: ".to_owned();
        reason.append(join_texts(&broken, "\n").as_str());
        Landing::Undo(reason)
    }
}

fn broken(results: &Vec<CheckResult>) -> (r: Vec<String>)
    ensures
        texts(r@) == broken_texts(views(results@)),
{
    let ghost all = views(results@);
    let ghost p = |r: CheckResultModel| !r.passed;
    let ghost f = |r: CheckResultModel| broken_text(r);
    let mut r: Vec<String> = Vec::new();
    let mut i: usize = 0;
    proof {
        filter_none(all, p);
        assert(texts(r@) =~= all.take(0).filter(p).map_values(f));
    }
    while i < results.len()
        invariant
            i <= results.len(),
            all == views(results@),
            p == |r: CheckResultModel| !r.passed,
            f == |r: CheckResultModel| broken_text(r),
            texts(r@) == all.take(i as int).filter(p).map_values(f),
        decreases results.len() - i,
    {
        proof {
            assert(all[i as int] == results@[i as int]@);
            filter_step(all, p, i as int);
        }
        if !results[i].passed {
            let mut text = "`".to_owned();
            text.append(results[i].command.as_str());
            text.append("`:\n");
            text.append(results[i].output_tail.as_str());
            proof {
                crate::text::texts_push(r@, text);
                assert(all.take(i + 1).filter(p).map_values(f) =~= all.take(i as int).filter(
                    p,
                ).map_values(f).push(text@));
            }
            r.push(text);
        }
        i += 1;
    }
    assert(all.take(i as int) =~= all);
    r
}

/// Why a merge could not be made: a conflict is a reason to try again on the new
/// head; anything else is an error.
pub fn merge_failure(error: GitError) -> (r: Result<String, GitError>)
    ensures
        match r {
            Ok(reason) => error@ matches GitErrorModel::MergeConflict { files, .. } && reason@
                == "merge conflict in "@ + join(files, ", "@),
            Err(e) => !(error@ is MergeConflict) && e == error,
        },
{
    match error {
        GitError::MergeConflict { branch, files } => {
            let mut reason = "merge conflict in ".to_owned();
            proof {
                assert(texts(files@) =~= views(files@));
            }
            reason.append(join_texts(&files, ", ").as_str());
            Ok(reason)
        },
        e => Err(e),
    }
}

/// Records that verified work could not land.
pub fn integration_failed(report: &AttemptReport, reason: &str) -> (r: Vec<EventKind>)
    ensures
        views(r@) == seq![
            EventKindModel::IntegrationFailed {
                task_id: report@.task_id,
                attempt_id: report@.attempt_id,
                reason: reason@,
            },
        ],
{
    let mut r: Vec<EventKind> = Vec::new();
    r.push(
        EventKind::IntegrationFailed {
            task_id: report.task_id,
            attempt_id: report.attempt_id,
            reason: reason.to_owned(),
        },
    );
    assert(views(r@) =~= seq![
        EventKindModel::IntegrationFailed {
            task_id: report@.task_id,
            attempt_id: report@.attempt_id,
            reason: reason@,
        },
    ]);
    r
}

/// The attempts that are cancelled when a run ends.
pub open spec fn cancelled_attempts(s: RunStateModel) -> Seq<EventKindModel> {
    s.unfinished().map_values(
        |id: AttemptId|
            EventKindModel::AttemptFinished {
                attempt_id: id,
                outcome: AttemptOutcomeModel::Cancelled,
                usage: s.attempts[id].usage,
            },
    )
}

/// The tasks that are cancelled when a run ends.
pub open spec fn cancelled_tasks(s: RunStateModel, reason: Option<Seq<char>>) -> Seq<
    EventKindModel,
> {
    s.open_tasks().map_values(
        |id: TaskId|
            EventKindModel::TaskStatusChanged {
                task_id: id,
                status: TaskStatus::Cancelled,
                reason,
            },
    )
}

/// The events that end a run: what is still under way is cancelled.
pub open spec fn finish_kinds(
    s: RunStateModel,
    status: RunStatus,
    reason: Option<Seq<char>>,
    first: Seq<EventKindModel>,
) -> Seq<EventKindModel> {
    first + cancelled_attempts(s) + cancelled_tasks(s, reason) + seq![
        EventKindModel::RunStatusChanged { status, stage: None, reason },
    ]
}

fn push_cancelled_attempts(state: &RunState, events: &mut Vec<EventKind>)
    requires
        state.wf(),
    ensures
        views(final(events)@) == views(old(events)@) + cancelled_attempts(state@),
{
    let ghost s = state@;
    let ghost before = views(events@);
    let ghost all = cancelled_attempts(s);
    let attempts = unfinished_attempts(state);
    proof {
        crate::state::seen_map_dom(state.attempts@);
        state.attempts.order_of_keys();
        assert(before + all.take(0) =~= before);
    }
    let mut i: usize = 0;
    while i < attempts.len()
        invariant
            i <= attempts.len(),
            state.wf(),
            s == state@,
            attempts@ == s.unfinished(),
            s.attempt_order() == state.attempts.order(),
            state.attempts@.dom() == state.attempts.order().to_set(),
            all == cancelled_attempts(s),
            views(events@) == before + all.take(i as int),
        decreases attempts.len() - i,
    {
        proof {
            let p = |id: AttemptId| s.attempts[id].outcome is None;
            s.attempt_order().lemma_filter_contains_rev(p, attempts@[i as int]);
            assert(state.attempts.order().to_set().contains(attempts@[i as int]));
        }
        if let Some(attempt) = state.attempts.get(&attempts[i]) {
            let event = EventKind::AttemptFinished {
                attempt_id: attempts[i],
                outcome: AttemptOutcome::Cancelled,
                usage: attempt.usage,
            };
            proof {
                views_push(events@, event);
                assert(event@ == all[i as int]);
                assert(before + all.take(i + 1) =~= (before + all.take(i as int)).push(event@));
            }
            events.push(event);
        }
        i += 1;
    }
    assert(all.take(i as int) =~= all);
}

fn push_cancelled_tasks(state: &RunState, reason: &Option<String>, events: &mut Vec<EventKind>)
    requires
        state.wf(),
    ensures
        views(final(events)@) == views(old(events)@) + cancelled_tasks(state@, seen(*reason)),
{
    let ghost s = state@;
    let ghost before = views(events@);
    let ghost all = cancelled_tasks(s, seen(*reason));
    let tasks = open_tasks(state);
    let mut i: usize = 0;
    assert(before + all.take(0) =~= before);
    while i < tasks.len()
        invariant
            i <= tasks.len(),
            s == state@,
            tasks@ == s.open_tasks(),
            all == cancelled_tasks(s, seen(*reason)),
            views(events@) == before + all.take(i as int),
        decreases tasks.len() - i,
    {
        let event = EventKind::TaskStatusChanged {
            task_id: tasks[i],
            status: TaskStatus::Cancelled,
            reason: duplicate_opt(reason),
        };
        proof {
            views_push(events@, event);
            assert(event@ == all[i as int]);
            assert(before + all.take(i + 1) =~= (before + all.take(i as int)).push(event@));
        }
        events.push(event);
        i += 1;
    }
    assert(all.take(i as int) =~= all);
}

/// The events that end a run: attempts and tasks that are not finished are
/// cancelled, then the run gets its final status.
pub fn finish_events(
    state: &RunState,
    status: RunStatus,
    reason: Option<String>,
    first: Vec<EventKind>,
) -> (r: Vec<EventKind>)
    requires
        state.wf(),
    ensures
        views(r@) == finish_kinds(state@, status, seen(reason), views(first@)),
{
    let ghost why = seen(reason);
    let ghost start = views(first@);
    let mut events = first;
    push_cancelled_attempts(state, &mut events);
    push_cancelled_tasks(state, &reason, &mut events);
    let last = EventKind::RunStatusChanged { status, stage: None, reason };
    proof {
        views_push(events@, last);
        assert(finish_kinds(state@, status, why, start) =~= (start + cancelled_attempts(state@)
            + cancelled_tasks(state@, why)).push(last@));
    }
    events.push(last);
    events
}

/// The decision on an approval, once there is one.
pub open spec fn decision_spec(s: RunStateModel, id: ApprovalId) -> Option<
    (Decision, Option<Seq<char>>),
> {
    if s.approvals.dom().contains(id) {
        match s.approvals[id].resolution {
            Some(r) => Some((r.decision, r.comment)),
            None => None,
        }
    } else {
        None
    }
}

/// The decision on an approval, once a human has resolved it.
pub fn decision_of(state: &RunState, approval_id: ApprovalId) -> (r: Option<
    (Decision, Option<String>),
>)
    requires
        state.wf(),
    ensures
        (match r {
            Some((d, comment)) => Some((d, seen(comment))),
            None => None,
        }) == decision_spec(state@, approval_id),
{
    proof {
        crate::state::seen_map_dom(state.approvals@);
    }
    match state.approvals.get(&approval_id) {
        Some(approval) => match &approval.resolution {
            Some(resolution) => Some((resolution.decision, duplicate_opt(&resolution.comment))),
            None => None,
        },
        None => None,
    }
}

/// The event that resolves a pending approval.
pub fn resolution_event(
    approval_id: ApprovalId,
    decision: Decision,
    by: &str,
    comment: Option<String>,
) -> (r: Vec<EventKind>)
    ensures
        views(r@) == seq![
            EventKindModel::ApprovalResolved {
                approval_id,
                decision,
                by: by@,
                comment: seen(comment),
            },
        ],
{
    let ghost goal = seq![
        EventKindModel::ApprovalResolved { approval_id, decision, by: by@, comment: seen(comment) },
    ];
    let mut r: Vec<EventKind> = Vec::new();
    r.push(
        EventKind::ApprovalResolved { approval_id, decision, by: by.to_owned(), comment },
    );
    assert(views(r@) =~= goal);
    r
}

/// What follows a report on an attempt, while attempts are left: a failure of any kind
/// but one, and a cancelled attempt, is followed by one event alone, which makes the
/// task ready again and tells why; only a failure for the budget fails the task at
/// once.
pub proof fn failures_are_tried_again(
    s: RunStateModel,
    report: AttemptReportModel,
    integration: Option<Seq<char>>,
)
    requires
        s.tasks.dom().contains(report.task_id),
        s.tasks[report.task_id].attempts.len() < s.spec.budget.max_attempts_per_task,
    ensures
        ({
            let kinds = report_kinds(s, report, integration);
            let again = kinds.len() == 1 && (kinds[0] matches EventKindModel::TaskStatusChanged {
                task_id,
                status,
                reason,
            } && task_id == report.task_id && status == TaskStatus::Ready && reason is Some);
            let over = kinds.len() >= 1 && (kinds[0] matches EventKindModel::TaskStatusChanged {
                task_id,
                status,
                reason,
            } && task_id == report.task_id && status == TaskStatus::Failed && reason is Some);
            match report.outcome {
                AttemptOutcomeModel::Failed { kind, message } => {
                    &&& !(kind is Budget) ==> again
                    &&& kind is Budget ==> over
                    &&& finishes(
                        kinds[0]->TaskStatusChanged_reason->0,
                        kind.label_spec() + ": "@ + message,
                    )
                },
                AttemptOutcomeModel::Cancelled => again,
                AttemptOutcomeModel::Succeeded { .. } => match integration {
                    Some(why) => again && finishes(
                        kinds[0]->TaskStatusChanged_reason->0,
                        why,
                    ),
                    None => kinds.len() == 0,
                },
            }
        }),
{
    let kinds = report_kinds(s, report, integration);
    let used = s.tasks[report.task_id].attempts.len();
    assert(used as u32 == used);
    match report.outcome {
        AttemptOutcomeModel::Failed { kind, message } => {
            let text = kinds[0]->TaskStatusChanged_reason->0;
            let told = kind.label_spec() + ": "@ + message;
            assert(text.skip(text.len() - told.len()) =~= told);
        },
        AttemptOutcomeModel::Succeeded { .. } => {
            if integration is Some {
                let text = kinds[0]->TaskStatusChanged_reason->0;
                assert(text.skip(text.len() - integration->0.len()) =~= integration->0);
            }
        },
        AttemptOutcomeModel::Cancelled => {},
    }
}

/// Once the attempts are used up, every failure fails the task for good: its status
/// changes to failed, and whatever else changes is the status of another task, to
/// skipped.
pub proof fn used_up_tasks_fail(
    s: RunStateModel,
    report: AttemptReportModel,
    integration: Option<Seq<char>>,
)
    requires
        s.tasks.dom().contains(report.task_id),
        s.spec.budget.max_attempts_per_task <= s.tasks[report.task_id].attempts.len() <= u32::MAX,
        !(report.outcome is Succeeded) || integration is Some,
    ensures
        ({
            let kinds = report_kinds(s, report, integration);
            &&& kinds.len() >= 1
            &&& kinds[0] matches EventKindModel::TaskStatusChanged { task_id, status, .. }
                && task_id == report.task_id && status == TaskStatus::Failed
            &&& forall|i: int|
                1 <= i < kinds.len() ==> (#[trigger] kinds[i] matches
                    EventKindModel::TaskStatusChanged { task_id, status, .. } && status
                    == TaskStatus::Skipped)
        }),
{
}

/// A run is limited whenever its request or the configuration limits it: its own limit
/// counts where it has one, the configured one where it has none. The number of
/// attempts is the configured one. Beyond that a run is what was asked for.
pub proof fn runs_are_limited(new: NewRunModel, config: ConfigModel, base_ref: Seq<char>)
    ensures
        ({
            let spec = spec_of_run(new, config, base_ref);
            &&& new.max_cost_usd is Some ==> spec.budget.max_cost_usd == new.max_cost_usd
            &&& new.max_cost_usd is None ==> spec.budget.max_cost_usd == config.limits.max_cost_usd
            &&& new.max_tokens is Some ==> spec.budget.max_tokens == new.max_tokens
            &&& new.max_tokens is None ==> spec.budget.max_tokens == config.limits.max_tokens
            &&& spec.budget.max_attempts_per_task == config.limits.max_attempts_per_task
            &&& spec.title == new.title
            &&& spec.request == new.request
            &&& spec.source == new.source
            &&& spec.base_ref == base_ref
            &&& spec.config == Some(config)
        }),
{
}

/// A run that is created under a limit of its own or of the configuration is over its
/// budget as soon as its attempts together have cost more, or used more tokens,
/// whatever has happened since.
pub proof fn limited_runs_go_over_budget(
    new: NewRunModel,
    config: ConfigModel,
    base_ref: Seq<char>,
    ids: Seq<TaskId>,
    log: Seq<EventModel>,
    dearest: Usd,
    most: u64,
)
    requires
        log.len() > 0,
        log[0].kind == creation_kinds(new, config, base_ref, ids)[0],
        RunStateModel::replayed(log) is Ok,
    ensures
        ({
            let s = RunStateModel::replayed(log)->Ok_0;
            let spent = Usage::sum_of(s.usages());
            &&& (new.max_cost_usd == Some(dearest) || (new.max_cost_usd is None
                && config.limits.max_cost_usd == Some(dearest))) && spent.cost_usd.nanos
                > dearest.nanos ==> s.spec.budget.crossed(spent, 0) == Some(
                BudgetExceeded::Cost { limit: dearest, spent: spent.cost_usd },
            )
            &&& (new.max_tokens == Some(most) || (new.max_tokens is None
                && config.limits.max_tokens == Some(most))) && spent.input_tokens
                + spent.output_tokens + spent.cache_read_tokens + spent.cache_write_tokens > most
                ==> s.spec.budget.crossed(spent, 0) is Some
            &&& new.max_cost_usd is None && config.limits.max_cost_usd is None && new.max_tokens is None
                && config.limits.max_tokens is None ==> s.spec.budget.crossed(spent, 0) is None
        }),
{
    runs_keep_their_config(new, config, base_ref, ids, log, config, None);
}

/// At least one agent may run, and as many as the limit says where it says one or more.
pub proof fn one_agent_may_run(limits: Limits)
    ensures
        slots(limits) >= 1,
        limits.max_parallel_agents > 0 ==> slots(limits) == limits.max_parallel_agents,
{
}

/// Driving a run makes it run, whatever its status was.
pub proof fn driven_runs_run(s: RunStateModel, first: nat, at_ms: i64)
    requires
        s.last_seq < first,
        first < u64::MAX,
    ensures
        s.steps(crate::store::numbered(first, s.id, at_ms, start_kinds(s.status))) matches Ok(t)
            && t.status == RunStatus::Running,
{
    reveal_with_fuel(RunStateModel::steps, 3);
    let events = crate::store::numbered(first, s.id, at_ms, start_kinds(s.status));
    if s.status != RunStatus::Running {
        assert(events.len() == 1);
        assert(events.drop_first() =~= Seq::<EventModel>::empty());
    }
}

/// What an attempt is prepared with: it is the next of its task, it starts from the
/// given commit, with its share of what is left, under the run's budget, after what all
/// attempts of the run have used so far, with what came of the one before as feedback.
pub proof fn attempts_are_the_next(
    s: RunStateModel,
    config: ConfigModel,
    task_id: TaskId,
    attempt_id: AttemptId,
    dir: Seq<char>,
    base_sha: Seq<char>,
    share: Option<Usd>,
)
    requires
        s.tasks[task_id].attempts.len() < u32::MAX,
    ensures
        ({
            let ctx = prepared(s, config, task_id, attempt_id, dir, base_sha, share);
            &&& ctx.number == s.tasks[task_id].attempts.len() + 1
            &&& ctx.task_id == task_id && ctx.attempt_id == attempt_id && ctx.run_id == s.id
            &&& ctx.task == s.tasks[task_id].spec && ctx.run == s.spec
            &&& ctx.base_sha == base_sha
            &&& ctx.max_budget_usd == share
            &&& ctx.budget == s.spec.budget
            &&& ctx.spent_before == Usage::sum_of(s.usages())
            &&& ctx.feedback == feedback_of(s, task_id)
        }),
{
}

/// Attempts do not share a branch or a worktree: within a run, another task or another
/// number is another name, and none is that of the integration branch.
pub proof fn attempts_have_their_own_branches(
    run: RunId,
    a: Seq<char>,
    b: Seq<char>,
    m: int,
    n: int,
)
    requires
        0 <= m,
        0 <= n,
        attempt_branch_text(run, a, m) == attempt_branch_text(run, b, n),
    ensures
        a == b,
        m == n,
{
    let head = "bodega/"@ + short_text(run) + "/"@;
    let x = a + "-"@ + decimal(m);
    let y = b + "-"@ + decimal(n);
    assert(attempt_branch_text(run, a, m) =~= head + x);
    assert(attempt_branch_text(run, b, n) =~= head + y);
    same_below(head, x, y);
    numbered_names_differ(a, b, m, n);
}

proof fn same_below(head: Seq<char>, x: Seq<char>, y: Seq<char>)
    requires
        head + x == head + y,
    ensures
        x == y,
{
    assert((head + x).skip(head.len() as int) =~= x);
    assert((head + y).skip(head.len() as int) =~= y);
}

proof fn numbered_names_differ(a: Seq<char>, b: Seq<char>, m: int, n: int)
    requires
        0 <= m,
        0 <= n,
        a + "-"@ + decimal(m) == b + "-"@ + decimal(n),
    ensures
        a == b,
        m == n,
{
    reveal_strlit("-");
    assert("-"@ =~= seq!['-']);
    decimals_read_back(m);
    decimals_read_back(n);
    digits_part_from_names(a, decimal(m), b, decimal(n));
    decimals_differ(m, n);
}

proof fn digits_part_from_names(a: Seq<char>, d: Seq<char>, b: Seq<char>, e: Seq<char>)
    requires
        all_digits(d),
        all_digits(e),
        a + seq!['-'] + d == b + seq!['-'] + e,
    ensures
        a == b,
        d == e,
{
    let x = a + seq!['-'] + d;
    let y = b + seq!['-'] + e;
    let p = a.len() as int;
    let q = b.len() as int;
    assert(x.len() == p + 1 + d.len());
    assert(y.len() == q + 1 + e.len());
    assert(x[p] == '-');
    assert(y[q] == '-');
    if p < q {
        assert(x[q] == d[q - p - 1]);
        assert(is_digit(d[q - p - 1]));
    } else if q < p {
        assert(y[p] == e[p - q - 1]);
        assert(is_digit(e[p - q - 1]));
    }
    assert(x.take(p) =~= a);
    assert(y.take(q) =~= b);
    assert(x.skip(p + 1) =~= d);
    assert(y.skip(q + 1) =~= e);
}

/// The integration branch is none of those on which attempts work.
pub proof fn integration_has_its_own_branch(run: RunId, key: Seq<char>, n: int)
    requires
        0 <= n,
    ensures
        integration_branch_text(run) != attempt_branch_text(run, key, n),
{
    reveal_strlit("/integration");
    let a = integration_branch_text(run);
    let b = attempt_branch_text(run, key, n);
    decimals_read_back(n);
    assert(is_digit(decimal(n).last()));
    assert(b.last() == decimal(n).last());
    assert(a.last() == 'n');
}

/// What a human decided is what is read of it: nothing before there is a decision,
/// then the decision with its comment.
pub proof fn decisions_are_read_back(s: RunStateModel, event: EventModel)
    requires
        s.step(event) is Ok,
    ensures
        event.kind matches EventKindModel::ApprovalRequested { approval_id, .. } ==> decision_spec(
            s.step(event)->Ok_0,
            approval_id,
        ) is None,
        event.kind matches EventKindModel::ApprovalResolved { approval_id, decision, comment, .. }
            ==> decision_spec(s.step(event)->Ok_0, approval_id) == Some((decision, comment)),
        event.kind is TaskStatusChanged ==> forall|id: ApprovalId| #[trigger]
            decision_spec(s.step(event)->Ok_0, id) == decision_spec(s, id),
{
}

/// An attempt that was interrupted has failed for a reason that is not the agent's, so
/// that its task is tried again; what it used still counts.
pub proof fn interruptions_are_nobodys_fault(
    s: RunStateModel,
    id: AttemptId,
    report: AttemptReportModel,
)
    requires
        interrupted_kind(s, id) matches EventKindModel::AttemptFinished { outcome, .. }
            && report.outcome == outcome,
        s.tasks.dom().contains(report.task_id),
        s.tasks[report.task_id].attempts.len() < s.spec.budget.max_attempts_per_task,
    ensures
        interrupted_kind(s, id) matches EventKindModel::AttemptFinished {
            attempt_id,
            outcome,
            usage,
        } && attempt_id == id && usage == s.attempts[id].usage && (outcome matches
            AttemptOutcomeModel::Failed { kind, .. } && kind == FailureKind::Infrastructure),
        report_kinds(s, report, None).len() == 1,
{
    failures_are_tried_again(s, report, None);
}

/// Whatever is still under way when a run ends is cancelled, not failed or done: every
/// attempt without an outcome, with what it used, and every task that is not finished.
pub proof fn ends_cancel_the_rest(
    s: RunStateModel,
    status: RunStatus,
    reason: Option<Seq<char>>,
    first: Seq<EventKindModel>,
)
    ensures
        ({
            let kinds = finish_kinds(s, status, reason, first);
            &&& kinds.len() == first.len() + s.unfinished().len() + s.open_tasks().len() + 1
            &&& kinds.take(first.len() as int) == first
            &&& forall|i: int|
                0 <= i < s.unfinished().len() ==> #[trigger] kinds[first.len() + i] == (
                EventKindModel::AttemptFinished {
                    attempt_id: s.unfinished()[i],
                    outcome: AttemptOutcomeModel::Cancelled,
                    usage: s.attempts[s.unfinished()[i]].usage,
                })
            &&& kinds.last() matches EventKindModel::RunStatusChanged {
                status: at_last,
                reason: why,
                ..
            } && at_last == status && why == reason
        }),
{
    let kinds = finish_kinds(s, status, reason, first);
    assert(kinds.take(first.len() as int) =~= first);
}

/// Attempts of different tasks, and different attempts of one task, work in directories of
/// their own below the one of the run. Each is done by the agent of its task's role, under
/// the configured permissions and limits, and has to pass every configured check.
#[verifier::rlimit(60)]
pub proof fn attempts_work_apart(
    s: RunStateModel,
    config: ConfigModel,
    x: TaskId,
    y: TaskId,
    attempt_id: AttemptId,
    dir: Seq<char>,
    base_sha: Seq<char>,
    share: Option<Usd>,
)
    requires
        s.tasks[x].attempts.len() < u32::MAX,
        s.tasks[y].attempts.len() < u32::MAX,
    ensures
        ({
            let a = prepared(s, config, x, attempt_id, dir, base_sha, share);
            let b = prepared(s, config, y, attempt_id, dir, base_sha, share);
            &&& a.worktree_path == b.worktree_path ==> s.tasks[x].spec.key == s.tasks[y].spec.key
                && a.number == b.number
            &&& a.branch == b.branch ==> s.tasks[x].spec.key == s.tasks[y].spec.key && a.number
                == b.number
            &&& begins(a.worktree_path, dir)
            &&& dir.len() > 0 && dir.last() != '/' ==> a.worktree_path[dir.len() as int] == '/'
            &&& a.agent == config.agent(s.tasks[x].spec.role)
            &&& a.checks == config.checks
            &&& a.policy == config.permissions
            &&& a.limits == config.limits
        }),
{
    let m = s.tasks[x].attempts.len() + 1;
    let n = s.tasks[y].attempts.len() + 1;
    let k = s.tasks[x].spec.key;
    let l = s.tasks[y].spec.key;
    let p = k + "-"@ + decimal(m as int);
    let q = l + "-"@ + decimal(n as int);
    paths_are_below(dir, p, q);
    if path_in(dir, p) == path_in(dir, q) {
        numbered_names_differ(k, l, m as int, n as int);
    }
    if attempt_branch_text(s.id, k, m as int) == attempt_branch_text(s.id, l, n as int) {
        attempts_have_their_own_branches(s.id, k, l, m as int, n as int);
    }
}

proof fn paths_are_below(dir: Seq<char>, p: Seq<char>, q: Seq<char>)
    ensures
        begins(path_in(dir, p), dir),
        dir.len() > 0 && dir.last() != '/' ==> path_in(dir, p)[dir.len() as int] == '/',
        path_in(dir, p) == path_in(dir, q) ==> p == q,
{
    reveal_strlit("/");
    let head = if dir.len() == 0 || dir.last() == '/' {
        dir
    } else {
        dir + "/"@
    };
    assert(path_in(dir, p).take(dir.len() as int) =~= dir);
    if path_in(dir, p) == path_in(dir, q) {
        same_below(head, p, q);
    }
}

/// An attempt that is running has claimed all that it may spend, and whatever it spends
/// beyond that; one that has ended, what it has spent.
pub proof fn running_attempts_keep_their_share(a: AttemptStateModel, caps: Map<AttemptId, Usd>)
    ensures
        claim(a, caps) >= a.usage.cost_usd.nanos,
        a.outcome is None && caps.dom().contains(a.id) ==> claim(a, caps) >= caps[a.id].nanos,
        a.outcome is Some ==> claim(a, caps) == a.usage.cost_usd.nanos,
        !caps.dom().contains(a.id) ==> claim(a, caps) == a.usage.cost_usd.nanos,
        claim(a, caps) == a.usage.cost_usd.nanos || claim(a, caps) == caps[a.id].nanos,
{
}

/// A run in which nothing is left to do ends as its tasks did, and one that cannot go on
/// fails and says so.
pub proof fn stuck_runs_fail(s: RunStateModel)
    ensures
        !crate::schedule::all_finished(s) ==> idle_spec(s).0 == RunStatus::Failed && idle_spec(s).1
            is Some,
        idle_spec(s).0 == RunStatus::Succeeded || idle_spec(s).0 == RunStatus::Failed,
        idle_spec(s).0 == RunStatus::Failed ==> idle_spec(s).1 is Some,
{
}

/// The work of a run is being put together where a worktree has the run's own branch, and
/// nowhere else.
pub proof fn places_have_the_branch(list: Seq<crate::git::WorktreeInfoModel>, id: RunId, i: int)
    ensures
        0 <= i < list.len() && list[i].branch == Some(integration_branch_text(id))
            ==> is_integrating(list, id),
        (forall|k: int|
            0 <= k < list.len() ==> (#[trigger] list[k]).branch != Some(
                integration_branch_text(id),
            )) ==> !is_integrating(list, id),
        list.len() == 0 ==> !is_integrating(list, id),
{
}

} // verus!
