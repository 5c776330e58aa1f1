//! Whole runs, with an integration branch, agents and a clock that are only
//! played.

use std::collections::BTreeMap;

use bodega::agent::PermissionDecision;
use bodega::attempt::{
    agent_event, answer_from, approval_event, check_events, decide_permission, finished_event,
    finished_key, report, start_attempt, AttemptContext, AttemptMove, AttemptReport, AttemptRun,
    PermissionMove,
};
use bodega::budget::Usage;
use bodega::checks::{check_result, next_check, CheckOutcome};
use bodega::config::{AgentConfig, Check, Config, OnUnknown, Plan, PlanTask};
use bodega::drive::{DriveInput, DriveMove, DriveNext, DriveStage, Driver};
use bodega::engine::{
    check_new_run, config_in_force, creation_events, decision_of, new_task_ids, resolution_event,
    run_dir, EngineError, IntegrationPlace, NewRun,
};
use bodega::events::{Event, EventKind};
use bodega::git::GitError;
use bodega::ids::{ApprovalId, AttemptId, RunId, TaskId, WorkspaceId};
use bodega::json::Json;
use bodega::mock::{
    denied_turn, finished_turn, permission_request, session_started, MockCall, MockTurn,
};
use bodega::model::{
    AgentRef, AttemptOutcome, CheckResult, Decision, FailureKind, RunStatus, TaskStatus,
    WorkSource,
};
use bodega::money::Usd;
use bodega::order::OrdSet;
use bodega::state::RunState;
use bodega::store::EventStore;

type Files = BTreeMap<String, String>;
type Agent = Box<dyn FnMut(&MockCall) -> MockTurn>;

fn mock_config() -> Config {
    let mut config = Config::default();
    let agent = AgentConfig { runtime: "mock".into(), ..AgentConfig::default() };
    config.agents.insert("default".to_string(), agent);
    config.limits.max_parallel_agents = 2;
    config.limits.max_attempts_per_task = 2;
    config.limits.max_fix_rounds = 1;
    config.limits.attempt_timeout_secs = 60;
    config.checks = vec![Check {
        name: "no-broken".into(),
        command: "sh no-broken.sh".into(),
        timeout_secs: 30,
    }];
    config.permissions.allow = vec!["Read".into()];
    config.permissions.on_unknown = OnUnknown::Escalate;
    config
}

fn new_run(tasks: &[(&str, &[&str])], max_cost_usd: Option<Usd>) -> NewRun {
    let tasks = tasks
        .iter()
        .map(|(key, deps)| PlanTask {
            key: key.to_string(),
            title: key.to_lowercase(),
            description: String::new(),
            role: "implementer".into(),
            depends_on: deps.iter().map(|d| d.to_string()).collect(),
            acceptance: Vec::new(),
        })
        .collect();
    NewRun {
        title: "Test run".into(),
        request: "Build the thing".into(),
        source: WorkSource::Manual,
        base_ref: Some("main".into()),
        plan: Plan { summary: String::new(), tasks },
        max_cost_usd,
        max_tokens: None,
    }
}

/// The task key from the first line of a task prompt (`# Task: KEY — …`).
fn task_key(prompt: &str) -> Option<&str> {
    prompt.lines().next()?.strip_prefix("# Task: ")?.split_whitespace().next()
}

fn writes(files: &[(&str, &str)]) -> MockTurn {
    MockTurn::writes(files.iter().map(|(p, c)| (p.to_string(), c.to_string())).collect())
}

struct World {
    store: EventStore,
    config: Config,
    run: RunId,
    agent: Agent,
    /// The runtime that is asked for.
    runtime: Option<&'static str>,
    /// What a human says to requests.
    human: Decision,
    /// The trees of all commits, by number.
    commits: Vec<Files>,
    head: usize,
    /// Branches: the commit they start from, and the one they are at.
    branches: BTreeMap<String, (usize, usize)>,
    /// Attempts with the time at which they end.
    running: Vec<(u64, AttemptContext)>,
    most_running: usize,
    crash_once: bool,
}

impl World {
    fn new(config: Config, new: NewRun, agent: Agent) -> Self {
        let runtimes = OrdSet::of(vec!["mock".to_string()]);
        check_new_run(&new, &config, &runtimes).unwrap();
        let ids = new_task_ids(&new.plan);
        let events = creation_events(&new, &config, "main".into(), &ids);
        let run = RunId::new();
        let mut store = EventStore::open_in_memory();
        store.append(run, 0, events, None).unwrap();
        Self {
            store,
            config,
            run,
            agent,
            runtime: None,
            human: Decision::Approved,
            commits: vec![Files::new()],
            head: 0,
            branches: BTreeMap::new(),
            running: Vec::new(),
            most_running: 0,
            crash_once: false,
        }
    }

    fn state(&self) -> RunState {
        self.store.run(self.run).unwrap().copy()
    }

    fn append(&mut self, events: Vec<EventKind>, key: Option<&str>) {
        self.store.append(self.run, 0, events, key).unwrap();
    }

    fn events(&self) -> Vec<Event> {
        self.store.run_events(self.run, 0, 100_000)
    }

    fn integrated(&self, path: &str) -> Option<&str> {
        self.commits[self.head].get(path).map(String::as_str)
    }

    fn commit(&mut self, tree: Files) -> usize {
        self.commits.push(tree);
        self.commits.len() - 1
    }

    fn checks(&self, checks: &Vec<Check>, tree: &Files, prefix: &str) -> Vec<CheckResult> {
        let mut results = Vec::new();
        while let Some(i) = next_check(checks, &results) {
            let broken = checks[i].command == "false"
                || tree.values().any(|text| text.contains("BROKEN"));
            let outcome = CheckOutcome::Ran {
                success: !broken,
                code: Some(broken as i32),
                stdout: if broken { "found BROKEN" } else { "" }.into(),
                stderr: String::new(),
            };
            results.push(check_result(&checks[i], prefix, &outcome, 1));
        }
        results
    }

    fn merge(&mut self, branch: &str) -> Result<String, GitError> {
        let (base, tip) = self.branches[branch];
        let (base, tip) = (self.commits[base].clone(), self.commits[tip].clone());
        let mut tree = self.commits[self.head].clone();
        let mut files = Vec::new();
        for (path, text) in tip {
            if base.get(&path) == Some(&text) || tree.get(&path) == Some(&text) {
                continue;
            }
            if tree.get(&path) != base.get(&path) {
                files.push(path);
            } else {
                tree.insert(path, text);
            }
        }
        if !files.is_empty() {
            return Err(GitError::MergeConflict { branch: branch.into(), files });
        }
        self.head = self.commit(tree);
        Ok(self.head.to_string())
    }

    /// Asks the policy, and a human where it says so.
    fn decide(&mut self, ctx: &AttemptContext, tool: &str, input: &Json) -> PermissionDecision {
        match decide_permission(ctx, tool, input) {
            PermissionMove::Reply { decision } => decision,
            PermissionMove::Ask { title, details } => {
                let id = ApprovalId::new();
                self.append(approval_event(ctx, id, title, details), None);
                let pending = self.state();
                assert_eq!(pending.pending_approvals().len(), 1);
                self.append(resolution_event(id, self.human, "tester", None), None);
                answer_from(decision_of(&self.state(), id))
            }
        }
    }

    /// Plays an attempt from its first turn to its end.
    fn play(&mut self, ctx: &AttemptContext) -> AttemptOutcome {
        let request = start_attempt(ctx);
        let session = request.session_id.clone().unwrap();
        let base: usize = ctx.base_sha.parse().unwrap();
        let mut tree = self.commits[base].clone();
        let mut tip = base;
        let mut total = Usage::default();
        let mut run = AttemptRun::new();
        let mut input = request.prompt;
        let mut results = Vec::new();
        for turn_number in 1.. {
            let call = MockCall {
                turn: turn_number,
                input,
                workdir: ctx.worktree_path.clone(),
                session_id: session.clone(),
                max_budget_usd: request.max_budget_usd,
            };
            let turn = (self.agent)(&call);
            let mut events = vec![session_started(&session, None)];
            let mut denied = None;
            if let Some((tool, asked)) = &turn.ask_permission {
                let request = permission_request(&call, tool, asked);
                self.append(agent_event(ctx.attempt_id, &request), None);
                let AttemptMove::Answer { tool, input, .. } = run.take(ctx, Some(request)) else {
                    panic!("a request is answered");
                };
                if let PermissionDecision::Deny { message, .. } = self.decide(ctx, &tool, &input) {
                    denied = Some(denied_turn(&message, total));
                }
            }
            match denied {
                Some(end) => events.extend(end),
                None => {
                    tree.extend(turn.writes.iter().cloned());
                    let (end, spent) = finished_turn(&turn, total);
                    total = spent;
                    events.extend(end);
                }
            }
            let mut next = AttemptMove::Wait;
            for event in events {
                self.append(agent_event(ctx.attempt_id, &event), None);
                assert!(AttemptRun::can_take(ctx, Some(&event)));
                next = run.take(ctx, Some(event));
                if next != AttemptMove::Wait {
                    break;
                }
            }
            let feedback = loop {
                next = match next {
                    AttemptMove::Commit { success, summary, .. } => {
                        if self.commits[tip] != tree {
                            tip = self.commit(tree.clone());
                        }
                        AttemptRun::committed(success, summary, None)
                    }
                    AttemptMove::ReadHead => AttemptRun::headed(ctx, Ok(tip.to_string())),
                    AttemptMove::Check { head } => {
                        results = self.checks(&ctx.checks, &tree, "");
                        self.append(check_events(ctx.attempt_id, &results), None);
                        run.verified(ctx, true, head, &results)
                    }
                    AttemptMove::Send { feedback } => break feedback,
                    AttemptMove::Stop { outcome } | AttemptMove::Interrupt { outcome } => {
                        self.branches.insert(ctx.branch.clone(), (base, tip));
                        let events = finished_event(ctx.attempt_id, &outcome, run.usage);
                        self.append(events, Some(&finished_key(ctx.attempt_id)));
                        return outcome;
                    }
                    other => panic!("unexpected {other:?}"),
                };
            };
            assert!(!results.is_empty());
            input = feedback;
        }
        unreachable!()
    }

    /// The attempt that ends first.
    fn wait(&mut self) -> DriveInput {
        if self.running.is_empty() {
            return DriveInput::NoneLeft;
        }
        let times: Vec<u64> = self.running.iter().map(|(at, _)| *at).collect();
        let first = times.iter().position(|t| t == times.iter().min().unwrap()).unwrap();
        let (_, ctx) = self.running.remove(first);
        if std::mem::take(&mut self.crash_once) {
            return DriveInput::Crashed {
                task_id: ctx.task_id,
                attempt_id: ctx.attempt_id,
                error: "panicked".into(),
            };
        }
        let outcome = self.play(&ctx);
        DriveInput::Ended(report(&ctx, outcome))
    }

    fn drive(&mut self, delay: impl Fn(&str) -> u64) -> Result<RunState, EngineError> {
        let runtimes = OrdSet::of(vec!["mock".to_string()]);
        let (mut driver, mut next) = Driver::new(run_dir("/state", self.run));
        let mut state = self.state();
        let kept = state.spec.config.clone();
        let config = config_in_force(state.status, kept, &self.config, self.runtime);
        let mut places = Vec::new();
        loop {
            let input = match next {
                DriveMove::Load => {
                    state = self.state();
                    DriveInput::Loaded
                }
                DriveMove::Append { events, key } => {
                    self.append(events, key.as_deref());
                    DriveInput::Done
                }
                DriveMove::FindPlace => {
                    DriveInput::Found { worktrees: Vec::new(), branch_exists: false }
                }
                DriveMove::MakePlace(place) => {
                    places.push(place);
                    DriveInput::Done
                }
                DriveMove::ReadHead => DriveInput::Head(self.head.to_string()),
                DriveMove::Start(ctx) => {
                    let ends = delay(&ctx.task.key) + self.running.len() as u64;
                    self.running.push((ends, ctx));
                    self.most_running = self.most_running.max(self.running.len());
                    DriveInput::Done
                }
                DriveMove::Wait => self.wait(),
                DriveMove::StopAll => {
                    self.running.clear();
                    DriveInput::Done
                }
                DriveMove::Merge { branch, message } => {
                    assert!(message.starts_with("bodega: integrate "));
                    DriveInput::Merged(self.merge(&branch))
                }
                DriveMove::Check => {
                    let tree = self.commits[self.head].clone();
                    DriveInput::Checked(self.checks(&config.checks, &tree, "integration:"))
                }
                DriveMove::Reset { commit } => {
                    self.head = commit.parse().unwrap();
                    DriveInput::Done
                }
                DriveMove::Finished => {
                    assert!(places.is_empty() || places == [IntegrationPlace::Create]);
                    return Ok(state);
                }
            };
            assert!(driver.can_step(&state, &input), "{driver:?} {input:?}");
            (driver, next) = driver.advance(&state, &config, &runtimes, input)?;
        }
    }
}

fn seq_of(events: &[Event], pred: impl Fn(&EventKind) -> bool) -> u64 {
    events.iter().find(|e| pred(&e.kind)).map(|e| e.seq).expect("event not found")
}

fn id_of(state: &RunState, key: &str) -> TaskId {
    state.task_by_key(key).unwrap().id
}

#[test]
fn diamond_plan_runs_in_parallel_with_a_fix_round() {
    // B's first turn leaves a broken file; the check fails, the agent gets the
    // output as feedback and fixes it in a second turn.
    let agent: Agent = Box::new(|call| {
        if call.turn > 1 {
            let mut turn = writes(&[("B.txt", "fixed")]);
            turn.message = "Fixed the broken file.".into();
            return turn;
        }
        let key = task_key(&call.input).unwrap_or("?").to_owned();
        let content = if key == "B" { "BROKEN" } else { key.as_str() };
        writes(&[(&format!("{key}.txt"), content)])
    });
    let tasks: [(&str, &[&str]); 4] =
        [("A", &[]), ("B", &[]), ("C", &["A", "B"]), ("D", &["C"])];
    let mut world = World::new(mock_config(), new_run(&tasks, None), agent);
    let state = world.drive(|_| 150).unwrap();
    assert_eq!(state.status, RunStatus::Succeeded, "{:?}", state.status_reason);
    for key in ["A", "B", "C", "D"] {
        let task = state.task_by_key(key).unwrap();
        assert_eq!(task.status, TaskStatus::Done, "{key}");
        assert_eq!(task.attempts.len(), 1, "{key} needed one attempt");
        assert!(task.integrated_commit.is_some());
    }
    assert_eq!(world.integrated("A.txt"), Some("A"));
    assert_eq!(world.integrated("B.txt"), Some("fixed"));
    assert_eq!(world.integrated("D.txt"), Some("D"));

    // B: failed check, fix round, passing check, then integration check.
    let b = state.attempts.get(&state.task_by_key("B").unwrap().attempts[0]).unwrap();
    let results: Vec<(&str, bool)> =
        b.checks.iter().map(|c| (c.name.as_str(), c.passed)).collect();
    assert_eq!(
        results,
        [("no-broken", false), ("no-broken", true), ("integration:no-broken", true)]
    );
    assert!(b.usage.input_tokens >= 2_000, "two turns of usage");

    // A and B ran at the same time; C started only after both landed.
    assert_eq!(world.most_running, 2);
    let events = world.events();
    let started = |key: &str| {
        let id = id_of(&state, key);
        seq_of(
            &events,
            |k| matches!(k, EventKind::AttemptStarted { task_id, .. } if *task_id == id),
        )
    };
    let landed = |key: &str| {
        let id = id_of(&state, key);
        seq_of(
            &events,
            |k| matches!(k, EventKind::BranchIntegrated { task_id, .. } if *task_id == id),
        )
    };
    let first = state.task_by_key("A").unwrap().attempts[0];
    let a_finished = seq_of(
        &events,
        |k| matches!(k, EventKind::AttemptFinished { attempt_id, .. } if *attempt_id == first),
    );
    assert!(started("B") < a_finished, "B started before A finished");
    assert!(started("C") > landed("A") && started("C") > landed("B"));
    assert_eq!(state.total_usage().cost_usd, Usd::from_nanos(50_000_000));
}

#[test]
fn a_run_keeps_the_config_it_was_created_with() {
    // Created under a config whose check always fails...
    let mut strict = mock_config();
    strict.limits.max_attempts_per_task = 1;
    strict.checks[0].command = "false".into();
    let agent: Agent = Box::new(|_| writes(&[("x.txt", "x")]));
    let mut world = World::new(strict, new_run(&[("T1", &[])], None), agent);

    // ...and resumed under one with no checks at all (as if another branch were
    // checked out). The run's own rules still apply.
    let mut lax = Config::default();
    let agent = AgentConfig { runtime: "mock".into(), ..AgentConfig::default() };
    lax.agents.insert("default".to_string(), agent);
    assert!(lax.checks.is_empty());
    world.config = lax;
    let state = world.drive(|_| 0).unwrap();
    assert_eq!(state.status, RunStatus::Failed);
    assert_eq!(state.attempts.len(), 1);
    let attempt = state.attempts.value_at(0);
    assert_eq!(attempt.checks[0].command, "false");
    assert!(!attempt.checks[0].passed);
}

#[test]
fn a_task_that_keeps_failing_skips_its_dependents() {
    let agent: Agent = Box::new(|call| {
        let key = task_key(&call.input).unwrap_or("fix").to_owned();
        if key == "A" || call.turn > 1 {
            return writes(&[("A.txt", "still BROKEN")]);
        }
        writes(&[(&format!("{key}.txt"), &key)])
    });
    let tasks: [(&str, &[&str]); 3] = [("A", &[]), ("B", &["A"]), ("X", &[])];
    let mut world = World::new(mock_config(), new_run(&tasks, None), agent);
    let state = world.drive(|_| 0).unwrap();
    assert_eq!(state.status, RunStatus::Failed);
    assert_eq!(state.task_by_key("A").unwrap().status, TaskStatus::Failed);
    assert_eq!(state.task_by_key("A").unwrap().attempts.len(), 2);
    assert_eq!(state.task_by_key("B").unwrap().status, TaskStatus::Skipped);
    assert_eq!(state.task_by_key("X").unwrap().status, TaskStatus::Done);
    assert_eq!(
        state.status_reason.as_deref(),
        Some("2 of 3 tasks did not complete: A (failed), B (skipped)")
    );
    let second = state.attempts.get(&state.task_by_key("A").unwrap().attempts[1]).unwrap();
    assert!(matches!(
        second.outcome,
        Some(AttemptOutcome::Failed { kind: FailureKind::Verification, .. })
    ));
    assert_eq!(world.integrated("X.txt"), Some("X"));
    assert_eq!(world.integrated("A.txt"), None);
}

#[test]
fn merge_conflicts_are_retried_on_top_of_the_new_head() {
    let agent: Agent = Box::new(|call| {
        let key = task_key(&call.input).unwrap_or("?").to_owned();
        writes(&[("shared.txt", &format!("written by {key}"))])
    });
    let tasks: [(&str, &[&str]); 2] = [("P", &[]), ("Q", &[])];
    let mut world = World::new(mock_config(), new_run(&tasks, None), agent);
    let state = world.drive(|key| if key == "P" { 50 } else { 400 }).unwrap();
    assert_eq!(state.status, RunStatus::Succeeded, "{:?}", state.status_reason);
    let q = state.task_by_key("Q").unwrap();
    assert_eq!(q.attempts.len(), 2, "Q conflicted once and was retried");
    assert!(world.events().iter().any(|e| matches!(
        &e.kind,
        EventKind::IntegrationFailed { reason, .. }
            if reason.contains("merge conflict in shared.txt")
    )));
    assert_eq!(world.integrated("shared.txt"), Some("written by Q"));
}

#[test]
fn unknown_tool_requests_wait_for_a_human() {
    let asking = |_: &MockCall| MockTurn {
        ask_permission: Some((
            "Bash".into(),
            Json::Object(vec![(
                "command".into(),
                Json::Text("curl https://example.com".into()),
            )]),
        )),
        ..writes(&[("fetched.txt", "data")])
    };
    let tasks: [(&str, &[&str]); 1] = [("T1", &[])];
    let mut world = World::new(mock_config(), new_run(&tasks, None), Box::new(asking));
    let state = world.drive(|_| 0).unwrap();
    assert_eq!(state.status, RunStatus::Succeeded);
    assert_eq!(world.integrated("fetched.txt"), Some("data"));
    let asked = world.events().into_iter().find_map(|e| match e.kind {
        EventKind::ApprovalRequested { title, details, .. } => Some((title, details)),
        _ => None,
    });
    let (title, details) = asked.unwrap();
    assert!(title.contains("Bash") && details.contains("curl"), "{title} {details}");

    let mut world = World::new(mock_config(), new_run(&tasks, None), Box::new(asking));
    world.human = Decision::Rejected;
    assert_eq!(world.drive(|_| 0).unwrap().status, RunStatus::Failed);
    assert_eq!(world.integrated("fetched.txt"), None);
}

#[test]
fn denied_requests_fail_the_attempt() {
    let mut config = mock_config();
    config.limits.max_attempts_per_task = 1;
    config.permissions.on_unknown = OnUnknown::Deny;
    let agent: Agent = Box::new(|_| MockTurn {
        ask_permission: Some((
            "Bash".into(),
            Json::Object(vec![("command".into(), Json::Text("rm -rf build".into()))]),
        )),
        ..writes(&[("x.txt", "x")])
    });
    let mut world = World::new(config, new_run(&[("T1", &[])], None), agent);
    let state = world.drive(|_| 0).unwrap();
    assert_eq!(state.status, RunStatus::Failed);
    let attempt = state.attempts.get(&state.task_by_key("T1").unwrap().attempts[0]).unwrap();
    assert!(matches!(
        &attempt.outcome,
        Some(AttemptOutcome::Failed { kind: FailureKind::Agent, message })
            if message.contains("permission denied")
    ));
}

#[test]
fn attempts_interrupted_by_a_crash_are_retried() {
    let agent: Agent = Box::new(|_| writes(&[("done.txt", "ok")]));
    let mut world = World::new(mock_config(), new_run(&[("T1", &[])], None), agent);
    // A process died in the middle of an attempt.
    let task_id = id_of(&world.state(), "T1");
    world.append(
        vec![
            EventKind::RunStatusChanged {
                status: RunStatus::Running,
                stage: Some("implement".into()),
                reason: None,
            },
            EventKind::TaskStatusChanged { task_id, status: TaskStatus::Running, reason: None },
            EventKind::AttemptStarted {
                attempt_id: AttemptId::new(),
                task_id,
                number: 1,
                agent: AgentRef { runtime: "mock".into(), model: None },
                workspace_id: WorkspaceId::new(),
                branch: "bodega/dead/T1-1".into(),
            },
        ],
        None,
    );
    let state = world.drive(|_| 0).unwrap();
    assert_eq!(state.status, RunStatus::Succeeded);
    let task = state.task_by_key("T1").unwrap();
    assert_eq!(task.attempts.len(), 2);
    assert!(matches!(
        &state.attempts.get(&task.attempts[0]).unwrap().outcome,
        Some(AttemptOutcome::Failed { kind: FailureKind::Infrastructure, message })
            if message.starts_with("interrupted")
    ));
    // Driving a finished run is a no-op.
    let again = world.drive(|_| 0).unwrap();
    assert_eq!(again.last_seq, state.last_seq);
}

#[test]
fn parallel_attempts_share_the_budget_without_overcommitting_it() {
    let caps = std::rc::Rc::new(std::cell::RefCell::new(Vec::new()));
    let seen = std::rc::Rc::clone(&caps);
    let agent: Agent = Box::new(move |call| {
        let key = task_key(&call.input).unwrap_or("?").to_owned();
        seen.borrow_mut().push((key.clone(), call.max_budget_usd));
        writes(&[(&format!("{key}.txt"), &key)])
    });
    let tasks: [(&str, &[&str]); 3] = [("A", &[]), ("B", &[]), ("C", &["A", "B"])];
    let limit = Some(Usd::from_nanos(1_000_000_000));
    let mut world = World::new(mock_config(), new_run(&tasks, limit), agent);
    let state = world.drive(|_| 100).unwrap();
    assert_eq!(state.status, RunStatus::Succeeded, "{:?}", state.status_reason);
    // A and B ran together and split the whole budget; C got what was left after
    // their actual spend ($0.01 each).
    let cap = |nanos| Some(Usd::from_nanos(nanos));
    assert_eq!(
        *caps.borrow(),
        [
            ("A".to_string(), cap(500_000_000)),
            ("B".to_string(), cap(500_000_000)),
            ("C".to_string(), cap(980_000_000)),
        ]
    );
}

#[test]
fn a_run_over_its_budget_is_stopped() {
    let agent: Agent = Box::new(|call| {
        let key = task_key(&call.input).unwrap_or("?").to_owned();
        let mut turn = writes(&[(&format!("{key}.txt"), &key)]);
        turn.usage.cost_usd = Usd::from_nanos(30);
        turn
    });
    let tasks: [(&str, &[&str]); 3] = [("A", &[]), ("B", &[]), ("C", &["A"])];
    let limit = Some(Usd::from_nanos(20));
    let mut world = World::new(mock_config(), new_run(&tasks, limit), agent);
    let state = world.drive(|_| 0).unwrap();
    assert_eq!(state.status, RunStatus::Failed);
    assert!(state.status_reason.as_deref().unwrap().starts_with("budget exceeded: "));
    assert!(world.running.is_empty());
    // The attempt that crossed the limit failed for good; the other one was stopped.
    assert_eq!(state.task_by_key("A").unwrap().status, TaskStatus::Failed);
    assert_eq!(state.task_by_key("B").unwrap().status, TaskStatus::Cancelled);
    assert!(world.events().iter().any(|e| matches!(e.kind, EventKind::BudgetExceeded { .. })));
}

#[test]
fn combined_code_that_breaks_is_taken_back() {
    // Without checks on the merged code, work lands as it is.
    let agent: Agent = Box::new(|_| writes(&[("a.txt", "x")]));
    let mut config = mock_config();
    config.limits.verify_after_merge = false;
    let mut world = World::new(config, new_run(&[("A", &[])], None), agent);
    let state = world.drive(|_| 0).unwrap();
    assert_eq!(state.status, RunStatus::Succeeded);
    let landed = state.attempts.get(&state.task_by_key("A").unwrap().attempts[0]).unwrap();
    assert_eq!(landed.checks.len(), 1);

    // Where the combined code fails, the merge is undone.
    let (mut driver, _) = Driver::new("/d".into());
    driver.stage = DriveStage::Merging {
        report: AttemptReport {
            task_id: id_of(&state, "A"),
            attempt_id: AttemptId::new(),
            branch: "b".into(),
            outcome: AttemptOutcome::Succeeded { commit: None },
        },
        before: "old".into(),
    };
    let runtimes = OrdSet::of(vec!["mock".to_string()]);
    let config = mock_config();
    let merged = DriveInput::Merged(Ok("new".into()));
    let (driver, next) = driver.advance(&state, &config, &runtimes, merged).unwrap();
    assert_eq!(next, DriveMove::Check);
    let failed = CheckResult {
        name: "integration:no-broken".into(),
        command: "sh no-broken.sh".into(),
        passed: false,
        exit_code: Some(1),
        duration_ms: 1,
        output_tail: "found BROKEN".into(),
    };
    let checked = DriveInput::Checked(vec![failed]);
    let (driver, next) = driver.advance(&state, &config, &runtimes, checked).unwrap();
    assert!(matches!(&next, DriveMove::Append { events, key: None } if events.len() == 1));
    let (driver, next) =
        driver.advance(&state, &config, &runtimes, DriveInput::Done).unwrap();
    assert_eq!(next, DriveMove::Reset { commit: "old".into() });
    let (driver, next) =
        driver.advance(&state, &config, &runtimes, DriveInput::Done).unwrap();
    assert!(matches!(
        &next,
        DriveMove::Append { events, .. } if matches!(
            &events[0],
            EventKind::IntegrationFailed { reason, .. } if reason
                == "checks failed on the integrated code: `sh no-broken.sh`:\nfound BROKEN"
        )
    ));
    assert!(matches!(driver.stage, DriveStage::Then(DriveNext::Fail { .. })));
}

#[test]
fn crashed_attempts_are_recorded_and_retried() {
    let agent: Agent = Box::new(|_| writes(&[("done.txt", "ok")]));
    let mut world = World::new(mock_config(), new_run(&[("T1", &[])], None), agent);
    world.crash_once = true;
    let state = world.drive(|_| 0).unwrap();
    assert_eq!(state.status, RunStatus::Succeeded);
    let task = state.task_by_key("T1").unwrap();
    assert_eq!(
        state.attempts.get(&task.attempts[0]).unwrap().outcome,
        Some(AttemptOutcome::Failed {
            kind: FailureKind::Infrastructure,
            message: "the attempt crashed: panicked".into()
        })
    );
    assert_eq!(task.attempts.len(), 2);
}

#[test]
fn driving_stops_at_errors_of_git_and_unknown_runtimes() {
    let agent: Agent = Box::new(|_| writes(&[("done.txt", "ok")]));
    let mut world = World::new(mock_config(), new_run(&[("T1", &[])], None), agent);
    world.runtime = Some("nope");
    let err = world.drive(|_| 0).unwrap_err();
    assert_eq!(err.message(), "no agent runtime named `nope` is registered (known: mock)");
    let state = world.state();
    let (mut driver, first) = Driver::new("/d".into());
    assert_eq!(first, DriveMove::Load);
    driver.stage = DriveStage::Merging {
        report: AttemptReport {
            task_id: id_of(&state, "T1"),
            attempt_id: AttemptId::new(),
            branch: "b".into(),
            outcome: AttemptOutcome::Succeeded { commit: None },
        },
        before: "old".into(),
    };
    assert!(!driver.can_step(&state, &DriveInput::Done), "a merge is answered");
    let gone = GitError::Spawn { message: "no git".into() };
    let runtimes = OrdSet::of(vec!["mock".to_string()]);
    let merged = DriveInput::Merged(Err(gone.clone()));
    assert!(driver.can_step(&state, &merged));
    assert_eq!(
        driver.advance(&state, &mock_config(), &runtimes, merged),
        Err(EngineError::Git(gone))
    );
}
