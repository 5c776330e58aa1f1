use bodega::agent::{PermissionDecision, PermissionMode};
use bodega::attempt::{
    agent_event, answer_from, approval_event, check_events, decide_permission, finished_event,
    finished_key, no_session, no_worktree, not_asked, removes_worktree, report, start_attempt,
    start_request, timed_out, AttemptContext, AttemptMove, AttemptReport, AttemptRun,
    PermissionMove,
};
use bodega::budget::{BudgetExceeded, Usage};
use bodega::config::{
    AgentConfig, Config, Limits, OnUnknown, PermissionModeSetting, Plan, PlanTask,
};
use bodega::engine::{
    base_of_branch, budget_share, can_budget, check_new_run, config_in_force, crashed,
    creation_events, decision_of, finish_events, handle_report, idle_outcome, integration_branch,
    integration_failed, integration_place, interrupted_event, is_verified, landing,
    merge_failure, merge_message, new_task_ids, over_budget, prepare_attempt, resolution_event,
    restart_events, run_dir, start_events, turn, unfinished_attempts, wanted_base, EngineError,
    IntegrationPlace, Landing, NewRun, Turn,
};
use bodega::events::{AgentEvent, EventKind};
use bodega::git::{parse_worktree_list, GitError};
use bodega::ids::{ApprovalId, AttemptId, RunId, TaskId, WorkspaceId};
use bodega::json::Json;
use bodega::model::{
    AttemptOutcome, CheckResult, Decision, FailureKind, RunStatus, TaskStatus, WorkSource,
};
use bodega::money::Usd;
use bodega::order::{OrdMap, OrdSet};
use bodega::state::{ApplyError, RunState};
use bodega::store::EventStore;

fn plan(tasks: &[(&str, &[&str])]) -> Plan {
    Plan {
        summary: "s".into(),
        tasks: tasks
            .iter()
            .map(|(key, deps)| PlanTask {
                key: key.to_string(),
                title: key.to_lowercase(),
                description: String::new(),
                role: "implementer".into(),
                depends_on: deps.iter().map(|d| d.to_string()).collect(),
                acceptance: Vec::new(),
            })
            .collect(),
    }
}

fn mock_config() -> Config {
    let mut config = Config::default();
    let agent = AgentConfig { runtime: "mock".into(), ..AgentConfig::default() };
    config.agents.insert("default".to_string(), agent);
    config.limits.max_attempts_per_task = 2;
    config
}

fn runtimes() -> OrdSet<String> {
    OrdSet::of(vec!["mock".to_string(), "code-cli".to_string()])
}

fn new_run(tasks: &[(&str, &[&str])], max_cost_usd: Option<Usd>) -> NewRun {
    NewRun {
        title: "Test run".into(),
        request: "Build the thing".into(),
        source: WorkSource::Manual,
        base_ref: Some("main".into()),
        plan: plan(tasks),
        max_cost_usd,
        max_tokens: None,
    }
}

/// A run in a log, driven by hand.
struct Harness {
    store: EventStore,
    config: Config,
    run: RunId,
}

impl Harness {
    fn new(tasks: &[(&str, &[&str])], max_cost_usd: Option<Usd>) -> Self {
        let config = mock_config();
        let new = new_run(tasks, max_cost_usd);
        check_new_run(&new, &config, &runtimes()).unwrap();
        let ids = new_task_ids(&new.plan);
        let events = creation_events(&new, &config, "main".into(), &ids);
        let mut h = Self { store: EventStore::open_in_memory(), config, run: RunId::new() };
        h.append(events);
        let status = h.state().status;
        h.append(start_events(status));
        h
    }

    fn append(&mut self, events: Vec<EventKind>) {
        self.store.append(self.run, 0, events, None).unwrap();
    }

    fn state(&self) -> &RunState {
        self.store.run(self.run).unwrap()
    }

    fn id(&self, key: &str) -> TaskId {
        self.state().task_by_key(key).unwrap().id
    }

    fn status(&self, key: &str) -> TaskStatus {
        self.state().task_by_key(key).unwrap().status
    }

    fn begin(&mut self, key: &str, share: Option<Usd>) -> AttemptContext {
        let (ctx, events) = prepare_attempt(
            self.state(),
            &self.config,
            &runtimes(),
            self.id(key),
            AttemptId::new(),
            WorkspaceId::new(),
            "/state/worktrees/run",
            "base".into(),
            share,
        )
        .unwrap();
        self.append(events);
        ctx
    }

    fn end(&mut self, ctx: &AttemptContext, outcome: AttemptOutcome, usage: Usage) -> AttemptReport {
        self.append(finished_event(ctx.attempt_id, &outcome, usage));
        report(ctx, outcome)
    }

    fn to_start(&self, running: usize) -> Vec<TaskId> {
        match turn(self.state(), &self.config.limits, running) {
            Turn::Start(tasks) => tasks,
            other => panic!("unexpected {other:?}"),
        }
    }

    fn succeed(&mut self, key: &str) {
        let ctx = self.begin(key, None);
        let outcome = AttemptOutcome::Succeeded { commit: Some("abc".into()) };
        let done = self.end(&ctx, outcome, Usage::default());
        match landing(&done, "merge".into(), &Vec::new()) {
            Landing::Landed(events) => self.append(events),
            other => panic!("unexpected {other:?}"),
        }
    }

    fn fail(&mut self, key: &str) {
        let ctx = self.begin(key, None);
        let outcome = AttemptOutcome::Failed {
            kind: FailureKind::Verification,
            message: "tests failed".into(),
        };
        let ended = self.end(&ctx, outcome, Usage::default());
        let events = handle_report(self.state(), &ended, None);
        self.append(events);
    }

    fn finish(&mut self) {
        let (status, reason) = idle_outcome(self.state());
        let events = finish_events(self.state(), status, reason, Vec::new());
        self.append(events);
    }
}

fn result(name: &str, passed: bool) -> CheckResult {
    CheckResult {
        name: name.into(),
        command: format!("run {name}"),
        passed,
        exit_code: Some(if passed { 0 } else { 1 }),
        duration_ms: 1,
        output_tail: "out".into(),
    }
}

#[test]
fn a_diamond_runs_in_parallel_and_in_order() {
    let mut h = Harness::new(&[("A", &[]), ("B", &[]), ("C", &["A", "B"]), ("D", &["C"])], None);
    assert_eq!(h.state().status, RunStatus::Running);
    assert_eq!(h.to_start(0), vec![h.id("A"), h.id("B")]);
    h.succeed("A");
    assert_eq!(h.to_start(0), vec![h.id("B")]);
    h.succeed("B");
    assert_eq!(h.to_start(0), vec![h.id("C")]);
    h.succeed("C");
    h.succeed("D");
    assert!(h.to_start(0).is_empty());
    h.finish();
    assert_eq!(h.state().status, RunStatus::Succeeded);
    for key in ["A", "B", "C", "D"] {
        let task = h.state().task_by_key(key).unwrap();
        assert_eq!(task.status, TaskStatus::Done, "{key}");
        assert_eq!(task.attempts.len(), 1, "{key} needed one attempt");
        assert_eq!(task.integrated_commit.as_deref(), Some("merge"));
    }
}

#[test]
fn a_failing_task_skips_its_dependents() {
    let mut h = Harness::new(&[("A", &[]), ("B", &["A"]), ("X", &[])], None);
    h.fail("A");
    assert_eq!(h.status("A"), TaskStatus::Ready);
    h.fail("A");
    assert_eq!(h.status("A"), TaskStatus::Failed);
    assert_eq!(h.status("B"), TaskStatus::Skipped);
    h.succeed("X");
    h.finish();
    assert_eq!(h.state().status, RunStatus::Failed);
    assert_eq!(
        h.state().status_reason.as_deref(),
        Some("2 of 3 tasks did not complete: A (failed), B (skipped)")
    );
    assert_eq!(h.state().task_by_key("A").unwrap().attempts.len(), 2);
}

#[test]
fn conflicts_are_retried_on_top_of_the_new_head() {
    let mut h = Harness::new(&[("P", &[]), ("Q", &[])], None);
    let ctx = h.begin("Q", None);
    let outcome = AttemptOutcome::Succeeded { commit: Some("abc".into()) };
    let done = h.end(&ctx, outcome, Usage::default());
    assert!(is_verified(&done));
    let error = GitError::MergeConflict { branch: "b".into(), files: vec!["shared.txt".into()] };
    let reason = merge_failure(error).unwrap();
    assert_eq!(reason, "merge conflict in shared.txt");
    h.append(integration_failed(&done, &reason));
    let events = handle_report(h.state(), &done, Some(&reason));
    h.append(events);
    assert_eq!(h.status("Q"), TaskStatus::Ready);
    let second = h.begin("Q", None);
    assert_eq!(second.number, 2);
    assert!(second.feedback.unwrap().contains("merge conflict in shared.txt"));
    let gone = GitError::Spawn { message: "no git".into() };
    assert_eq!(merge_failure(gone.clone()), Err(gone));
    assert_eq!(merge_message("Q"), "bodega: integrate Q");
}

#[test]
fn combined_code_that_fails_is_undone() {
    let h = Harness::new(&[("A", &[])], None);
    let done = AttemptReport {
        task_id: h.id("A"),
        attempt_id: AttemptId::new(),
        branch: "b".into(),
        outcome: AttemptOutcome::Succeeded { commit: None },
    };
    let results = vec![result("integration:a", true), result("integration:b", false)];
    assert_eq!(
        landing(&done, "abc".into(), &results),
        Landing::Undo(
            "checks failed on the integrated code: `run integration:b`:\nout".into()
        )
    );
    assert_eq!(check_events(done.attempt_id, &results).len(), 2);
}

#[test]
fn attempts_interrupted_by_a_crash_are_tried_again() {
    let mut h = Harness::new(&[("T1", &[]), ("T2", &["T1"])], None);
    let ctx = h.begin("T1", None);
    assert_eq!(unfinished_attempts(h.state()), vec![ctx.attempt_id]);
    for id in unfinished_attempts(h.state()) {
        let events = interrupted_event(h.state(), id);
        let key = finished_key(id);
        h.store.append(h.run, 0, events.clone(), Some(&key)).unwrap();
        // Recording it again writes nothing.
        let (_, fresh) = h.store.append(h.run, 0, events, Some(&key)).unwrap();
        assert!(!fresh);
    }
    let events = restart_events(h.state());
    h.append(events);
    assert!(unfinished_attempts(h.state()).is_empty());
    assert_eq!(h.status("T1"), TaskStatus::Ready);
    let state = h.state();
    assert!(matches!(
        &state.attempts.get(&ctx.attempt_id).unwrap().outcome,
        Some(AttemptOutcome::Failed { kind: FailureKind::Infrastructure, message })
            if message.starts_with("interrupted")
    ));
    assert!(interrupted_event(state, AttemptId::new()).is_empty());
}

#[test]
fn a_run_that_ends_cancels_what_is_left() {
    let mut h = Harness::new(&[("A", &[]), ("B", &["A"])], None);
    let ctx = h.begin("A", None);
    let exceeded = BudgetExceeded::Tokens { limit: 1, spent: 2 };
    let (reason, first) = over_budget(exceeded);
    assert_eq!(reason, "budget exceeded: 2 tokens exceeded the 1-token budget");
    let events = finish_events(h.state(), RunStatus::Failed, Some(reason.clone()), first);
    assert_eq!(events.len(), 5);
    h.append(events);
    let state = h.state();
    assert_eq!(state.status, RunStatus::Failed);
    assert_eq!(state.status_reason, Some(reason));
    assert_eq!(h.status("A"), TaskStatus::Cancelled);
    assert_eq!(h.status("B"), TaskStatus::Cancelled);
    assert_eq!(
        state.attempts.get(&ctx.attempt_id).unwrap().outcome,
        Some(AttemptOutcome::Cancelled)
    );
}

#[test]
fn plans_need_a_known_runtime() {
    let mut config = mock_config();
    config.override_agents(Some("nope"), None);
    let err = check_new_run(&new_run(&[("T1", &[])], None), &config, &runtimes()).unwrap_err();
    assert_eq!(
        err.message(),
        "no agent runtime named `nope` is registered (known: code-cli, mock)"
    );
    let cyclic = new_run(&[("A", &["B"]), ("B", &["A"])], None);
    let err = check_new_run(&cyclic, &config, &runtimes()).unwrap_err();
    assert!(matches!(err, EngineError::Plan(_)));
    assert!(err.message().contains("cycle"));
    let id = RunId::from_uuid(1);
    assert!(EngineError::UnknownRun(id).message().ends_with("does not exist"));
    let git = EngineError::Git(GitError::Spawn { message: "x".into() });
    assert_eq!(git.message(), "failed to run git: x");
}

#[test]
fn parallel_attempts_share_the_budget() {
    let limit = Usd::from_nanos(1_000_000_000);
    let mut h = Harness::new(&[("A", &[]), ("B", &[]), ("C", &["A", "B"])], Some(limit));
    let mut caps: OrdMap<AttemptId, Usd> = OrdMap::new();
    let share = budget_share(h.state(), &caps, 2);
    assert_eq!(share, Some(Usd::from_nanos(500_000_000)));
    let spent = Usage { cost_usd: Usd::from_nanos(10_000_000), ..Usage::default() };
    let mut running = Vec::new();
    for key in ["A", "B"] {
        let ctx = h.begin(key, share);
        assert_eq!(ctx.max_budget_usd, share);
        caps.insert(ctx.attempt_id, share.unwrap());
        running.push(ctx);
    }
    // While both run, nothing is left for a third.
    assert_eq!(budget_share(h.state(), &caps, 1), Some(Usd::from_nanos(0)));
    for ctx in &running {
        let outcome = AttemptOutcome::Succeeded { commit: None };
        let done = h.end(ctx, outcome, spent);
        match landing(&done, "m".into(), &Vec::new()) {
            Landing::Landed(events) => h.append(events),
            other => panic!("unexpected {other:?}"),
        }
    }
    assert_eq!(budget_share(h.state(), &caps, 1), Some(Usd::from_nanos(980_000_000)));
    let free = Harness::new(&[("A", &[])], None);
    assert_eq!(budget_share(free.state(), &OrdMap::new(), 1), None);
}

#[test]
fn a_run_over_its_budget_starts_nothing() {
    let mut h = Harness::new(&[("A", &[]), ("B", &[])], Some(Usd::from_nanos(5)));
    let ctx = h.begin("A", None);
    let usage = Usage { cost_usd: Usd::from_nanos(6), ..Usage::default() };
    h.end(&ctx, AttemptOutcome::Cancelled, usage);
    assert!(can_budget(h.state()));
    assert!(matches!(
        turn(h.state(), &h.config.limits, 0),
        Turn::OverBudget(BudgetExceeded::Cost { .. })
    ));
    // There is always a slot for one agent.
    let free = Harness::new(&[("A", &[]), ("B", &[])], None);
    let none = Limits { max_parallel_agents: 0, ..Limits::default() };
    assert_eq!(turn(free.state(), &none, 0), Turn::Start(vec![free.id("A")]));
}

#[test]
fn a_run_without_progress_says_so() {
    let mut h = Harness::new(&[("A", &[]), ("B", &["A"])], None);
    let (status, reason) = idle_outcome(h.state());
    assert_eq!(status, RunStatus::Failed);
    assert_eq!(reason.as_deref(), Some("no task can make progress"));
    h.succeed("A");
    h.succeed("B");
    assert_eq!(idle_outcome(h.state()), (RunStatus::Succeeded, None));
}

#[test]
fn runs_keep_what_they_were_created_with() {
    let mut config = mock_config();
    config.limits.max_tokens = Some(7);
    config.project.base_ref = Some("develop".into());
    let mut new = new_run(&[("A", &[])], Some(Usd::from_nanos(3)));
    assert_eq!(wanted_base(&new, &config).as_deref(), Some("main"));
    new.base_ref = None;
    assert_eq!(wanted_base(&new, &config).as_deref(), Some("develop"));
    assert_eq!(base_of_branch(None), "HEAD");
    assert_eq!(base_of_branch(Some("x".into())), "x");
    let ids = new_task_ids(&new.plan);
    let events = creation_events(&new, &config, "develop".into(), &ids);
    let mut store = EventStore::open_in_memory();
    let run = RunId::new();
    store.append(run, 0, events, None).unwrap();
    let state = store.run(run).unwrap();
    assert_eq!(state.spec.config, Some(config));
    assert_eq!(state.spec.base_ref, "develop");
    assert_eq!(state.spec.pipeline, "default");
    assert_eq!(state.spec.budget.max_tokens, Some(7));
    assert_eq!(state.spec.budget.max_cost_usd, Some(Usd::from_nanos(3)));
    assert_eq!(state.spec.budget.max_attempts_per_task, 2);
    assert_eq!(state.plan_summary.as_deref(), Some("s"));
}

#[test]
fn the_kept_config_is_in_force_until_the_run_ends() {
    let kept = mock_config();
    let mut own = Config::default();
    own.limits.max_fix_rounds = 9;
    let under = |status, kept: Option<&Config>, agent| {
        config_in_force(status, kept.cloned(), &own, agent)
    };
    assert_eq!(under(RunStatus::Pending, Some(&kept), None), kept);
    assert_eq!(under(RunStatus::Running, Some(&kept), None), kept);
    assert_eq!(under(RunStatus::Running, None, Some("other")), own);
    for ended in [RunStatus::Succeeded, RunStatus::Failed, RunStatus::Cancelled] {
        assert_eq!(under(ended, Some(&kept), Some("other")), own);
    }
    // A runtime that was asked for takes the place of the kept ones, nothing else.
    let mut other = kept.clone();
    other.override_agents(Some("other"), None);
    assert_ne!(other, kept);
    assert_eq!(under(RunStatus::Running, Some(&kept), Some("other")), other);
    assert_eq!(other.agent_for("any").runtime, "other");
    assert_eq!(other.checks, kept.checks);
}

#[test]
fn decisions_of_humans_are_read() {
    let mut h = Harness::new(&[("A", &[])], None);
    let ctx = h.begin("A", None);
    let id = ApprovalId::new();
    h.append(approval_event(&ctx, id, "title".into(), "details".into()));
    assert_eq!(decision_of(h.state(), id), None);
    let no = resolution_event(id, Decision::Rejected, "abil", Some("too risky".into()));
    h.append(no.clone());
    assert_eq!(
        decision_of(h.state(), id),
        Some((Decision::Rejected, Some("too risky".into())))
    );
    let again = h.store.append(h.run, 0, no, None).unwrap_err();
    assert_eq!(again, ApplyError::AlreadyResolved(id));
    let denied = |message: &str| PermissionDecision::Deny {
        message: message.into(),
        interrupt: false,
    };
    assert_eq!(answer_from(decision_of(h.state(), id)), denied("too risky"));
    assert_eq!(
        answer_from(Some((Decision::Rejected, None))),
        denied("A human denied this request.")
    );
    assert_eq!(
        answer_from(Some((Decision::Approved, None))),
        PermissionDecision::Allow { updated_input: None }
    );
    assert_eq!(answer_from(None), denied("The approval could not be read."));
    assert_eq!(not_asked(), denied("Bodega could not ask a human for approval."));
}

#[test]
fn requests_follow_the_policy() {
    let mut h = Harness::new(&[("A", &[])], None);
    h.config.permissions.allow = vec!["Read".into()];
    h.config.permissions.deny = vec!["WebFetch".into()];
    let mut ctx = h.begin("A", None);
    let input = Json::Object(vec![
        ("b".into(), Json::Number("1".into())),
        ("a".into(), Json::Text("curl".into())),
    ]);
    assert_eq!(
        decide_permission(&ctx, "Read", &input),
        PermissionMove::Reply { decision: PermissionDecision::Allow { updated_input: None } }
    );
    assert_eq!(
        decide_permission(&ctx, "WebFetch", &input),
        PermissionMove::Reply {
            decision: PermissionDecision::Deny {
                message: "Bodega's permission policy denies this (rule `WebFetch`).".into(),
                interrupt: false
            }
        }
    );
    assert_eq!(
        decide_permission(&ctx, "Bash", &input),
        PermissionMove::Ask {
            title: "A: allow `Bash`?".into(),
            details: "{\n  \"a\": \"curl\",\n  \"b\": 1\n}".into()
        }
    );
    ctx.policy.on_unknown = OnUnknown::Deny;
    assert!(matches!(
        decide_permission(&ctx, "Bash", &input),
        PermissionMove::Reply { decision: PermissionDecision::Deny { .. } }
    ));
}

#[test]
fn a_session_is_started_with_what_the_task_needs() {
    let mut h = Harness::new(&[("A", &[])], None);
    let agent = AgentConfig {
        runtime: "mock".into(),
        model: Some("m".into()),
        permission_mode: PermissionModeSetting::Plan,
        allowed_tools: vec!["Read".into()],
        append_system_prompt: Some("Be brief.".into()),
        max_turns: Some(3),
        ..AgentConfig::default()
    };
    h.config.agents.insert("implementer".to_string(), agent);
    let ctx = h.begin("A", Some(Usd::from_nanos(9)));
    assert_eq!(ctx.branch, format!("{}A-1", integration_branch(h.run).replace("integration", "")));
    assert_eq!(ctx.worktree_path, "/state/worktrees/run/A-1");
    let request = start_request(&ctx, "s1".into());
    assert_eq!(request.workdir, ctx.worktree_path);
    assert!(request.prompt.starts_with("# Task: A — a"));
    assert!(request.append_system_prompt.as_deref().unwrap().ends_with("\n\nBe brief."));
    assert_eq!(request.session_id.as_deref(), Some("s1"));
    assert_eq!(request.resume, None);
    assert_eq!(request.permission_mode, PermissionMode::Plan);
    assert_eq!(request.allowed_tools, ["Read"]);
    assert_eq!(request.max_turns, Some(3));
    assert_eq!(request.max_budget_usd, Some(Usd::from_nanos(9)));
    let (one, two) = (start_attempt(&ctx), start_attempt(&ctx));
    assert_ne!(one.session_id, two.session_id);
    let name = one.session_id.unwrap();
    let parsed = uuid::Uuid::parse_str(&name).unwrap();
    assert_eq!((parsed.to_string(), parsed.get_version_num()), (name, 4));
    assert_eq!(one.prompt, two.prompt);
}

#[test]
fn an_attempt_is_verified_step_by_step() {
    let mut h = Harness::new(&[("A", &[])], None);
    let ctx = h.begin("A", None);
    let mut run = AttemptRun::new();
    let usage = Usage { input_tokens: 5, ..Usage::default() };
    let finished = |success, summary: Option<&str>| AgentEvent::Finished {
        success,
        summary: summary.map(str::to_owned),
        usage,
    };
    let event = finished(true, Some("done"));
    assert!(AttemptRun::can_take(&ctx, Some(&event)));
    assert_eq!(
        run.take(&ctx, Some(event)),
        AttemptMove::Commit {
            message: "bodega: A a (attempt 1)".into(),
            success: true,
            summary: Some("done".into())
        }
    );
    assert_eq!(run.usage, usage);
    assert_eq!(AttemptRun::committed(true, None, None), AttemptMove::ReadHead);
    assert_eq!(
        AttemptRun::headed(&ctx, Ok("new".into())),
        AttemptMove::Check { head: "new".into() }
    );
    // The first two failures go back to the agent, the third ends the attempt.
    let bad = vec![result("test", false)];
    for round in 1..=2 {
        assert!(matches!(
            run.verified(&ctx, true, "new".into(), &bad),
            AttemptMove::Send { feedback } if feedback.starts_with(&format!(
                "Verification failed (fix round {round} of 2)."
            ))
        ));
    }
    let gave_up = AttemptOutcome::Failed {
        kind: FailureKind::Verification,
        message: "checks still failing after 2 fix round(s): test".into(),
    };
    assert_eq!(
        run.verified(&ctx, true, "new".into(), &bad),
        AttemptMove::Stop { outcome: gave_up.clone() }
    );
    assert_eq!(run.unsent(&bad), gave_up);
    assert_eq!(
        run.verified(&ctx, true, "new".into(), &vec![result("test", true)]),
        AttemptMove::Stop { outcome: AttemptOutcome::Succeeded { commit: Some("new".into()) } }
    );
    // An agent that takes no further input gets no fix round.
    assert!(matches!(
        AttemptRun::new().verified(&ctx, false, "new".into(), &bad),
        AttemptMove::Stop { .. }
    ));
}

#[test]
fn attempts_fail_for_many_reasons() {
    let mut h = Harness::new(&[("A", &[])], Some(Usd::from_nanos(10)));
    let ctx = h.begin("A", None);
    let failed = |kind, message: &str| AttemptOutcome::Failed { kind, message: message.into() };
    let stop = |kind, message: &str| AttemptMove::Stop { outcome: failed(kind, message) };
    let mut run = AttemptRun::new();
    assert_eq!(
        run.take(&ctx, None),
        stop(FailureKind::Agent, "the agent stopped without finishing its turn")
    );
    let dear = Usage { cost_usd: Usd::from_nanos(11), ..Usage::default() };
    assert!(matches!(
        run.take(&ctx, Some(AgentEvent::Usage { usage: dear })),
        AttemptMove::Interrupt {
            outcome: AttemptOutcome::Failed { kind: FailureKind::Budget, .. }
        }
    ));
    let over = AgentEvent::Finished { success: true, summary: None, usage: dear };
    assert!(matches!(run.take(&ctx, Some(over)), AttemptMove::Stop { .. }));
    assert_eq!(
        run.take(&ctx, Some(AgentEvent::Message { text: "hi".into() })),
        AttemptMove::Wait
    );
    let error = GitError::Spawn { message: "x".into() };
    assert_eq!(
        AttemptRun::committed(true, None, Some(&error)),
        stop(
            FailureKind::Infrastructure,
            "could not commit the agent's work: failed to run git: x"
        )
    );
    assert_eq!(
        AttemptRun::committed(false, None, None),
        stop(FailureKind::Agent, "the agent reported a failure")
    );
    assert_eq!(
        AttemptRun::committed(false, Some("why".into()), None),
        stop(FailureKind::Agent, "why")
    );
    assert_eq!(
        AttemptRun::headed(&ctx, Ok("base".into())),
        stop(FailureKind::Agent, "the agent finished without changing any files")
    );
    assert_eq!(
        AttemptRun::headed(&ctx, Err(error.clone())),
        stop(FailureKind::Infrastructure, "failed to run git: x")
    );
    assert_eq!(
        no_worktree(&error),
        failed(
            FailureKind::Infrastructure,
            "could not create the worktree: failed to run git: x"
        )
    );
    assert_eq!(
        no_session("mock", "gone"),
        failed(FailureKind::Infrastructure, "could not start mock: gone")
    );
    assert_eq!(
        timed_out(&Limits::default()),
        failed(FailureKind::Timeout, "the attempt did not finish within 3600s")
    );
    let report = crashed(h.id("A"), ctx.attempt_id, "panic");
    assert_eq!(
        report.outcome,
        failed(FailureKind::Infrastructure, "the attempt crashed: panic")
    );
    assert!(!removes_worktree(&report.outcome));
    assert!(removes_worktree(&AttemptOutcome::Succeeded { commit: None }));
    assert_eq!(agent_event(ctx.attempt_id, &AgentEvent::Message { text: "x".into() }).len(), 1);
}

#[test]
fn budget_failures_are_not_retried() {
    let mut h = Harness::new(&[("A", &[])], None);
    let ctx = h.begin("A", None);
    let outcome = AttemptOutcome::Failed { kind: FailureKind::Budget, message: "spent".into() };
    let ended = h.end(&ctx, outcome, Usage::default());
    let events = handle_report(h.state(), &ended, None);
    h.append(events);
    assert_eq!(h.status("A"), TaskStatus::Failed);
    assert_eq!(
        h.state().task_by_key("A").unwrap().status_reason.as_deref(),
        Some("Budget: spent")
    );
}

#[test]
fn the_integration_worktree_is_found_or_made() {
    let run = RunId::from_uuid(0xabcdef01);
    let list = parse_worktree_list(
        "worktree /r\nHEAD abc\nbranch refs/heads/bodega/abcdef01/integration\n",
    );
    assert_eq!(integration_place(run, &list, true), IntegrationPlace::Ready);
    assert_eq!(integration_place(run, &Vec::new(), true), IntegrationPlace::Attach);
    assert_eq!(integration_place(run, &Vec::new(), false), IntegrationPlace::Create);
    assert_eq!(
        run_dir("/repo/.bodega", run),
        "/repo/.bodega/worktrees/run_000000000000000000000000abcdef01"
    );
    assert!(run_dir("/s/", run).starts_with("/s/worktrees/"));
}

#[test]
fn tasks_keep_the_order_of_their_plan() {
    let keys: Vec<String> = (0..60).map(|i| format!("k{}", 59 - i)).collect();
    let tasks: Vec<(&str, &[&str])> = keys.iter().map(|k| (k.as_str(), &[][..])).collect();
    let ids = new_task_ids(&plan(&tasks));
    assert_eq!(ids.len(), 60);
    assert!(ids.windows(2).all(|w| w[0] < w[1]));
    assert!(ids.iter().all(|id| uuid::Uuid::from_u128(id.as_uuid()).get_version_num() == 7));
    let h = Harness::new(&tasks, None);
    let key_of = |id: &TaskId| h.state().tasks.get(id).unwrap().spec.key.clone();
    let listed: Vec<String> = h.state().ready_tasks().iter().map(key_of).collect();
    assert_eq!(listed, keys);
}

#[test]
fn shares_stay_within_the_limit() {
    let mut h =
        Harness::new(&[("A", &[]), ("B", &[]), ("C", &[])], Some(Usd::from_nanos(100)));
    let mut caps: OrdMap<AttemptId, Usd> = OrdMap::new();
    let share = budget_share(h.state(), &caps, 3).unwrap();
    assert_eq!(share, Usd::from_nanos(33));
    let a = h.begin("A", Some(share));
    caps.insert(a.attempt_id, share);
    // What one attempt may spend is not offered to the next ones.
    assert_eq!(budget_share(h.state(), &caps, 2), Some(Usd::from_nanos(33)));
    let cheap = Usage { cost_usd: Usd::from_nanos(10), ..Usage::default() };
    h.end(&a, AttemptOutcome::Cancelled, cheap);
    assert_eq!(budget_share(h.state(), &caps, 2), Some(Usd::from_nanos(45)));
    // Nor is what it has spent beyond its cap.
    let b = h.begin("B", Some(Usd::from_nanos(45)));
    caps.insert(b.attempt_id, Usd::from_nanos(45));
    let dear = Usage { cost_usd: Usd::from_nanos(80), ..Usage::default() };
    h.append(agent_event(b.attempt_id, &AgentEvent::Usage { usage: dear }));
    assert_eq!(budget_share(h.state(), &caps, 1), Some(Usd::from_nanos(10)));
    h.end(&b, AttemptOutcome::Cancelled, Usage { cost_usd: Usd::from_nanos(95), ..dear });
    assert_eq!(budget_share(h.state(), &caps, 1), Some(Usd::from_nanos(0)));
}

#[test]
fn a_restart_leaves_nothing_running() {
    let mut h = Harness::new(&[("A", &[]), ("B", &[]), ("C", &["B"]), ("D", &[])], None);
    h.succeed("D");
    h.fail("B");
    h.begin("A", None);
    h.begin("B", None);
    for id in unfinished_attempts(h.state()) {
        let events = interrupted_event(h.state(), id);
        h.append(events);
    }
    let events = restart_events(h.state());
    h.append(events);
    assert_eq!(h.status("A"), TaskStatus::Ready);
    assert_eq!(h.status("B"), TaskStatus::Failed);
    assert_eq!(h.status("C"), TaskStatus::Skipped);
    assert_eq!(h.status("D"), TaskStatus::Done);
    assert!(unfinished_attempts(h.state()).is_empty());
    assert_eq!(restart_events(h.state()).len(), 0);
}

#[test]
fn a_run_never_stalls() {
    let mut h = Harness::new(
        &[("A", &[]), ("B", &["A"]), ("C", &["A"]), ("D", &["B", "C"]), ("E", &["C"])],
        None,
    );
    let mut steps = 0;
    while idle_outcome(h.state()).1.as_deref() == Some("no task can make progress") {
        let ready = h.to_start(0);
        assert!(!ready.is_empty() && ready.len() <= h.config.limits.max_parallel_agents);
        let key = h.state().tasks.get(&ready[0]).unwrap().spec.key.clone();
        if key == "B" {
            h.fail(&key);
        } else {
            h.succeed(&key);
        }
        steps += 1;
    }
    assert_eq!(steps, 5);
    h.finish();
    assert_eq!(h.state().status, RunStatus::Failed);
    assert_eq!(
        h.state().status_reason.as_deref(),
        Some("2 of 5 tasks did not complete: B (failed), D (skipped)")
    );
    assert!(h.to_start(0).is_empty());
}
