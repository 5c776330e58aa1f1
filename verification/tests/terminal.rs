use bodega::budget::{BudgetExceeded, Usage};
use bodega::cli::{
    approval_text, approvals_lines, config_source, event_line, events_are_over, find_approval,
    find_run, ignores_state_dir, indent, pad, pad_left, request_parts, run_lines, runs_lines,
    runtimes_of, summary_line, with_ignored_state, ConfigSource,
};
use bodega::agent::{PermissionDecision, ProbeReport};
use bodega::config::{AgentConfig, Check, Config, Plan, PlanTask};
use bodega::doctor::{diagnosis, no_repository_line, runtime_line};
use bodega::engine::{creation_events, new_task_ids, short_id, NewRun};
use bodega::events::{AgentEvent, Event, EventKind, LogLevel};
use bodega::ids::{ApprovalId, AttemptId, RunId, TaskId, WorkspaceId};
use bodega::json::Json;
use bodega::mock::{
    denied_turn, finished_turn, mock_capabilities, mock_probe, permission_request,
    session_started, write_call, write_result, MockCall, MockInput, MockMove, MockPlay, MockTurn,
};
use bodega::model::{
    AgentRef, ApprovalKind, AttemptOutcome, CheckResult, Decision, FailureKind, ReviewVerdict,
    RunStatus, TaskStatus, WorkSource,
};
use bodega::money::Usd;
use bodega::order::OrdMap;
use bodega::store::EventStore;
use bodega::text::is_white;
use bodega::ui::{
    bold, cyan, describe, dim, green, one_line, paint, red, run_status, task_status, yellow,
};

fn store_with_run(run: RunId) -> (EventStore, Vec<TaskId>) {
    let task = |key: &str, deps: &[&str]| PlanTask {
        key: key.into(),
        title: format!("title {key}"),
        description: String::new(),
        role: "implementer".into(),
        depends_on: deps.iter().map(|d| d.to_string()).collect(),
        acceptance: Vec::new(),
    };
    let new = NewRun {
        title: "Two tasks".into(),
        request: "r".into(),
        source: WorkSource::Manual,
        base_ref: None,
        plan: Plan { summary: "s".into(), tasks: vec![task("LAST", &["A"]), task("A", &[])] },
        max_cost_usd: None,
        max_tokens: None,
    };
    let ids = new_task_ids(&new.plan);
    let events = creation_events(&new, &Config::default(), "main".into(), &ids);
    let mut store = EventStore::open_in_memory();
    store.append(run, 0, events, None).unwrap();
    (store, ids)
}

#[test]
fn colors_are_used_only_where_there_are_any() {
    assert_eq!(paint(true, "1", "x"), "\x1b[1mx\x1b[0m");
    assert_eq!(paint(false, "1", "x"), "x");
    assert_eq!(bold(true, "x"), "\x1b[1mx\x1b[0m");
    assert_eq!(dim(true, "x"), "\x1b[2mx\x1b[0m");
    assert_eq!(green(true, "x"), "\x1b[32mx\x1b[0m");
    assert_eq!(red(true, "x"), "\x1b[31mx\x1b[0m");
    assert_eq!(yellow(true, "x"), "\x1b[33mx\x1b[0m");
    assert_eq!(cyan(true, "x"), "\x1b[36mx\x1b[0m");
    assert_eq!(run_status(false, RunStatus::WaitingForApproval), "waiting for approval");
    assert_eq!(task_status(true, TaskStatus::Skipped), "\x1b[33mskipped\x1b[0m");
}

#[test]
fn long_texts_are_cut_to_one_line() {
    assert_eq!(one_line(" a\n b\tc ", 10), "a b c");
    assert_eq!(one_line("éééé", 2), "éé…");
    assert_eq!(one_line("", 2), "");
}

#[test]
fn white_space_is_what_unicode_says() {
    for c in (0..=0x10ffffu32).filter_map(char::from_u32) {
        assert_eq!(is_white(c), c.is_whitespace(), "{c:?}");
    }
}

#[test]
fn events_are_described() {
    let run = RunId::from_uuid(7);
    let (mut store, ids) = store_with_run(run);
    let attempt_id = AttemptId::new();
    let started = EventKind::AttemptStarted {
        attempt_id,
        task_id: ids[1],
        number: 1,
        agent: AgentRef { runtime: "mock".into(), model: Some("m".into()) },
        workspace_id: WorkspaceId::new(),
        branch: "b".into(),
    };
    store.append(run, 0, vec![started.clone()], None).unwrap();
    let state = store.run(run).unwrap();
    let line = |kind: EventKind, verbose: bool, figure: &str| {
        let event = Event { seq: 1, run_id: run, at_ms: 0, kind };
        describe(&event, state, false, verbose, figure)
    };
    let text = |kind: EventKind| line(kind, true, "").unwrap();
    let status = |status, reason: Option<&str>| EventKind::TaskStatusChanged {
        task_id: ids[1],
        status,
        reason: reason.map(str::to_owned),
    };
    assert_eq!(text(started), "▶ A attempt 1 (mock, m)");
    assert_eq!(line(status(TaskStatus::Running, None), true, ""), None);
    assert_eq!(line(status(TaskStatus::Ready, None), true, ""), None);
    assert_eq!(line(status(TaskStatus::Pending, None), true, ""), None);
    assert_eq!(text(status(TaskStatus::Ready, Some("again"))), "↻ A again");
    assert_eq!(text(status(TaskStatus::Done, None)), "✓ A done");
    assert_eq!(text(status(TaskStatus::Failed, Some("no\nluck"))), "✗ A failed — no luck");
    assert_eq!(text(status(TaskStatus::Skipped, None)), "✗ A skipped");
    let run_changed = |reason: Option<&str>| EventKind::RunStatusChanged {
        status: RunStatus::Failed,
        stage: None,
        reason: reason.map(str::to_owned),
    };
    assert_eq!(text(run_changed(None)), "run failed");
    assert_eq!(text(run_changed(Some("why"))), "run failed — why");
    let plan = EventKind::PlanProposed { summary: "s".into(), tasks: Vec::new() };
    assert_eq!(text(plan), "plan: 0 task(s)");
    let said = |event| EventKind::Agent { attempt_id, event };
    let message = AgentEvent::Message { text: "hello".into() };
    assert_eq!(line(said(message.clone()), false, ""), None);
    assert_eq!(text(said(message)), "  A hello");
    let call = AgentEvent::ToolCall {
        call_id: "1".into(),
        tool: "Bash".into(),
        input: Json::Object(vec![("command".into(), Json::Text("make".into()))]),
    };
    assert_eq!(text(said(call)), "  A · Bash make");
    let log = AgentEvent::Log { level: LogLevel::Warn, message: "slow".into() };
    assert_eq!(text(said(log)), "  A slow");
    assert_eq!(line(said(AgentEvent::Thinking { text: "x".into() }), true, ""), None);
    let check = EventKind::CheckCompleted {
        attempt_id,
        result: CheckResult {
            name: "test".into(),
            command: "c".into(),
            passed: true,
            exit_code: Some(0),
            duration_ms: 1200,
            output_tail: String::new(),
        },
    };
    assert_eq!(line(check, false, "1.2s").unwrap(), "  A check test passed (1.2s)");
    let ended = |outcome| EventKind::AttemptFinished {
        attempt_id,
        outcome,
        usage: Usage::default(),
    };
    assert_eq!(
        line(ended(AttemptOutcome::Succeeded { commit: None }), false, "$0.01").unwrap(),
        "  A verified ($0.01)"
    );
    let failed =
        AttemptOutcome::Failed { kind: FailureKind::Verification, message: "x y".into() };
    assert_eq!(text(ended(failed)), "  A attempt failed (Verification): x y");
    assert_eq!(text(ended(AttemptOutcome::Cancelled)), "  A attempt cancelled");
    let unknown = EventKind::BranchIntegrated {
        task_id: TaskId::new(),
        branch: "b".into(),
        commit: "c".into(),
    };
    assert_eq!(text(unknown), "  ? merged into the integration branch");
    let approval_id = ApprovalId::from_uuid(1);
    let asked = EventKind::ApprovalRequested {
        approval_id,
        kind: ApprovalKind::Permission,
        title: "allow?".into(),
        details: String::new(),
        task_id: None,
    };
    let id = approval_id.to_text();
    assert_eq!(
        text(asked),
        format!(
            "⏸ approval needed: allow?\n    approve: forgeline approve {id}\n    deny:    \
             forgeline approve {id} --deny"
        )
    );
    let resolved = EventKind::ApprovalResolved {
        approval_id,
        decision: Decision::Approved,
        by: "abil".into(),
        comment: None,
    };
    assert_eq!(text(resolved), "  approval Approved by abil");
    let spent =
        EventKind::BudgetExceeded { exceeded: BudgetExceeded::Tokens { limit: 1, spent: 2 } };
    assert_eq!(text(spent), "budget: 2 tokens exceeded the 1-token budget");
    let review = EventKind::ReviewCompleted {
        attempt_id,
        reviewer: AgentRef { runtime: "mock".into(), model: None },
        verdict: ReviewVerdict::Approve,
        findings: Vec::new(),
    };
    assert_eq!(text(review), "  A review: Approve");
    let stuck = EventKind::IntegrationFailed {
        task_id: ids[1],
        attempt_id,
        reason: "conflict".into(),
    };
    assert_eq!(text(stuck), "  A could not be integrated: conflict");
    let pull = EventKind::PullRequestOpened { url: "u".into(), number: None };
    assert_eq!(text(pull), "pull request: u");
}

#[test]
fn a_run_is_shown_with_its_tasks_in_order() {
    let run = RunId::from_uuid(0xabcdef01);
    let (mut store, ids) = store_with_run(run);
    let attempt_id = AttemptId::new();
    let approval_id = ApprovalId::from_uuid(1);
    store
        .append(
            run,
            0,
            vec![
                EventKind::AttemptStarted {
                    attempt_id,
                    task_id: ids[1],
                    number: 1,
                    agent: AgentRef { runtime: "mock".into(), model: None },
                    workspace_id: WorkspaceId::new(),
                    branch: "b".into(),
                },
                EventKind::ApprovalRequested {
                    approval_id,
                    kind: ApprovalKind::Permission,
                    title: "allow?".into(),
                    details: "one\ntwo".into(),
                    task_id: None,
                },
                EventKind::RunStatusChanged {
                    status: RunStatus::Succeeded,
                    stage: None,
                    reason: Some("why".into()),
                },
            ],
            None,
        )
        .unwrap();
    let state = store.run(run).unwrap();
    let mut spent: OrdMap<AttemptId, String> = OrdMap::new();
    spent.insert(attempt_id, "$0.01".to_string());
    let branch = "bodega/abcdef01/integration";
    let id = approval_id.to_text();
    assert_eq!(
        run_lines(false, state, "$0.02", &spent),
        vec![
            format!("Two tasks {}  succeeded", run.to_text()),
            "  why".to_string(),
            format!("  base main  →  integration branch {branch}"),
            "  spent $0.02".to_string(),
            String::new(),
            "  A     pending   title A".to_string(),
            "        #1 running  b  $0.01  ".to_string(),
            "  LAST  pending   title LAST ← A".to_string(),
            String::new(),
            format!("  waiting: allow?  →  forgeline approve {id}"),
            String::new(),
            format!("  Review: git log --oneline main..{branch}"),
            format!("  Merge:  git merge {branch}"),
        ]
    );
    let pending = state.pending_approvals();
    assert_eq!(
        approval_text(false, pending[0]),
        format!("{id}  Permission  allow?\n    one\n    two\n")
    );
    let listed = store.list_runs();
    assert_eq!(
        summary_line(false, &listed[0], "$0.02"),
        "abcdef01  succeeded               0/2 tasks  $0.02  Two tasks"
    );
}

#[test]
fn runs_are_found_by_their_short_id() {
    let runs: Vec<RunId> = [0x1111_0000u128, 0x1112_0000].map(RunId::from_uuid).to_vec();
    assert_eq!(find_run("11110", &runs), Ok(runs[0]));
    assert_eq!(find_run(&short_id(runs[1]), &runs), Ok(runs[1]));
    assert_eq!(find_run(&runs[1].to_text(), &Vec::new()), Ok(runs[1]));
    assert_eq!(
        find_run("111", &runs),
        Err("`111` matches several runs; use more characters".to_string())
    );
    assert_eq!(
        find_run("9", &runs),
        Err("no run matches `9` (see `forgeline runs`)".to_string())
    );
}

#[test]
fn setting_up_twice_changes_nothing() {
    let once = with_ignored_state("target").unwrap();
    assert_eq!(
        once,
        "target\n\n# Forgeline state (database, agent worktrees)\n.forgeline/\n"
    );
    assert_eq!(with_ignored_state(&once), None);
    assert_eq!(with_ignored_state("  .forgeline/  \n"), None);
    assert!(with_ignored_state("").unwrap().starts_with("\n# Forgeline"));
    assert!(ignores_state_dir("a\n .bodega/ \n", ".bodega"));
    assert!(ignores_state_dir(".bodega", ".bodega//"));
    assert!(!ignores_state_dir("bodega", ".bodega"));
}

#[test]
fn requests_and_lines_are_laid_out() {
    let parts = |given: &str, file: Option<&str>| request_parts(given, file.map(str::to_owned));
    let pair = |a: &str, b: &str| (a.to_string(), b.to_string());
    assert_eq!(parts("title\nmore", None), pair("title", "title\nmore"));
    assert_eq!(parts("title\nmore", Some("body")), pair("title\nmore", "body"));
    assert_eq!(parts("", None), pair("", ""));
    assert_eq!(indent("a\nb\n"), "    a\n    b");
    assert_eq!((pad("é", 3), pad("abcd", 3)), pair("é  ", "abcd"));
    assert_eq!((pad_left("7", 3), pad_left("1234", 3)), pair("  7", "1234"));
    assert_eq!(event_line(false, 42, "x"), "    42 x");
    assert!(events_are_over(false, false, false));
    assert!(events_are_over(true, true, true));
    assert!(!events_are_over(true, true, false) && !events_are_over(true, false, true));
}

#[test]
fn each_runtime_is_probed_once() {
    let mut config = Config::default();
    assert_eq!(runtimes_of(&config).to_vec(), ["code-cli"]);
    for (role, runtime) in [("a", "mock"), ("b", "codex"), ("c", "mock")] {
        let agent = AgentConfig { runtime: runtime.into(), ..AgentConfig::default() };
        config.agents.insert(role.to_string(), agent);
    }
    assert_eq!(runtimes_of(&config).to_vec(), ["codex", "mock"]);
}

fn call(turn: u32) -> MockCall {
    MockCall {
        turn,
        input: "build it".into(),
        workdir: "/w".into(),
        session_id: "s1".into(),
        max_budget_usd: None,
    }
}

#[test]
fn the_mock_agent_adds_up_its_usage() {
    let turn = MockTurn::writes(vec![("x.txt".into(), "x".into())]);
    assert!(turn.success);
    let (events, total) = finished_turn(&turn, Usage::default());
    assert_eq!(events.len(), 3);
    let (events, total) = finished_turn(&turn, total);
    assert_eq!(total.input_tokens, 2_000, "usage is cumulative");
    assert_eq!(total.cost_usd, Usd::from_nanos(20_000_000));
    assert_eq!(
        events.last(),
        Some(&AgentEvent::Finished {
            success: true,
            summary: Some("Done.".into()),
            usage: total
        })
    );
    assert!(!MockTurn::default().success);
}

#[test]
fn the_mock_agent_tells_what_it_does() {
    assert_eq!(
        session_started("s1", None),
        AgentEvent::SessionStarted { session_id: Some("s1".into()), model: Some("mock".into()) }
    );
    let input = Json::Object(Vec::new());
    assert!(matches!(
        permission_request(&call(2), "Bash", &input),
        AgentEvent::PermissionRequested { request_id, .. } if request_id == "perm-s1-2"
    ));
    let denied = denied_turn("not in policy", Usage::default());
    assert_eq!(
        denied[0],
        AgentEvent::Message { text: "Permission denied: not in policy".into() }
    );
    assert!(matches!(
        &denied[1],
        AgentEvent::Finished { success: false, summary: Some(s), .. } if s == "permission denied"
    ));
    assert_eq!(
        write_call(1, 0, "a.txt", 3),
        AgentEvent::ToolCall {
            call_id: "call-1-0".into(),
            tool: "write_file".into(),
            input: Json::Object(vec![
                ("bytes".into(), Json::Number("3".into())),
                ("path".into(), Json::Text("a.txt".into())),
            ]),
        }
    );
    assert_eq!(
        write_result(1, 0, "a.txt", Some("full")),
        AgentEvent::ToolResult {
            call_id: "call-1-0".into(),
            output: "failed to write a.txt: full".into(),
            is_error: true,
        }
    );
    assert!(matches!(
        write_result(1, 0, "a.txt", None),
        AgentEvent::ToolResult { output, is_error: false, .. } if output == "wrote a.txt"
    ));
    let demo = MockTurn::demo(&call(1));
    assert_eq!(
        demo.writes,
        [(".bodega-demo/s1-turn1.md".to_string(), "# Mock agent notes\n\nbuild it\n".to_string())]
    );
    assert_eq!(demo.message, "Recorded the request (turn 1).");
    assert_eq!(demo.delay_ms, 300);
    assert!(mock_capabilities().multi_turn && !mock_capabilities().interrupt);
    assert_eq!(mock_probe("0.1").version.as_deref(), Some("0.1"));
}

#[test]
fn lists_say_when_they_are_empty() {
    let mut store = EventStore::open_in_memory();
    assert_eq!(
        runs_lines(false, &store.list_runs(), &Vec::new()),
        ["No runs yet. Start one with `forgeline run \"…\"`."]
    );
    assert_eq!(approvals_lines(false, &Vec::new()), ["Nothing is waiting for you."]);
    let (a, b) = (RunId::from_uuid(0xa), RunId::from_uuid(0xb));
    let approval_id = ApprovalId::from_uuid(1);
    for run in [a, b] {
        let (one, _) = store_with_run(run);
        let events = one.events_after(0, 100).into_iter().map(|e| e.kind).collect();
        store.append(run, 0, events, None).unwrap();
    }
    let states = || vec![store.run(a).unwrap().copy(), store.run(b).unwrap().copy()];
    assert_eq!(approvals_lines(false, &states()), ["Nothing is waiting for you."]);
    assert_eq!(
        find_approval(approval_id, &states()),
        Err(format!("no pending approval {}", approval_id.to_text()))
    );
    let asked = EventKind::ApprovalRequested {
        approval_id,
        kind: ApprovalKind::Plan,
        title: "ok?".into(),
        details: "x".into(),
        task_id: None,
    };
    store.append(b, 0, vec![asked], None).unwrap();
    let states = vec![store.run(a).unwrap().copy(), store.run(b).unwrap().copy()];
    assert_eq!(find_approval(approval_id, &states), Ok(b));
    assert_eq!(
        approvals_lines(false, &states),
        [format!("{}  Plan  ok?\n    x\n", approval_id.to_text())]
    );
    let runs = store.list_runs();
    let spent = vec!["$1".to_string(), "$2".to_string()];
    let lines = runs_lines(false, &runs, &spent);
    assert_eq!(lines[1], summary_line(false, &runs[1], "$2"));
    assert_eq!(lines.len(), 2);
}

#[test]
fn the_doctor_says_what_is_missing() {
    let mut config = Config::default();
    assert_eq!(
        diagnosis(false, "/r", None, &config, "target\n"),
        [
            "✓ git repository /r",
            "✓ bodega.toml valid",
            "! checks none configured: work is integrated without verification. Add [[checks]] to \
             forgeline.toml.",
            "! state directory add `.bodega/` to .gitignore (forgeline init does this)",
        ]
    );
    config.checks.push(Check { name: "t".into(), command: "c".into(), timeout_secs: 1 });
    let lines = diagnosis(true, "/r", Some("line 1".into()), &config, ".bodega");
    assert_eq!(lines[1], "\x1b[31m✗\x1b[0m bodega.toml line 1");
    assert_eq!(lines[2], "\x1b[32m✓\x1b[0m checks \x1b[2m1 configured\x1b[0m");
    assert_eq!(
        lines[3],
        "\x1b[32m✓\x1b[0m state directory ignored by git \x1b[2m.bodega\x1b[0m"
    );
    assert_eq!(no_repository_line(false, "x"), "✗ git repository x");
    let report = |available, version: Option<&str>, detail: Option<&str>| {
        Some(ProbeReport {
            runtime: "mock".into(),
            available,
            version: version.map(str::to_owned),
            detail: detail.map(str::to_owned),
        })
    };
    assert_eq!(runtime_line(false, "x", &None), "✗ agent `x` unknown runtime");
    assert_eq!(runtime_line(false, "m", &report(true, Some("1"), None)), "✓ agent `m` 1");
    assert_eq!(runtime_line(false, "m", &report(true, None, None)), "✓ agent `m` ");
    assert_eq!(runtime_line(false, "m", &report(false, None, None)), "✗ agent `m` not available");
    assert_eq!(runtime_line(false, "m", &report(false, None, Some("no"))), "✗ agent `m` no");
}

#[test]
fn the_committed_configuration_comes_first() {
    assert_eq!(config_source(true, true), ConfigSource::Committed);
    assert_eq!(config_source(true, false), ConfigSource::Committed);
    assert_eq!(config_source(false, true), ConfigSource::WorkingTree);
    assert_eq!(config_source(false, false), ConfigSource::BuiltIn);
}

fn one_file() -> MockTurn {
    MockTurn::writes(vec![("é.txt".to_string(), "né".to_string())])
}

#[test]
fn a_turn_of_the_mock_agent_is_played() {
    let mut turn = one_file();
    turn.delay_ms = 5;
    let mut play = MockPlay::new(call(1), turn, Usage::default()).unwrap();
    assert_eq!(play.step(MockInput::Done), MockMove::Rest(5));
    assert_eq!(
        play.step(MockInput::Done),
        MockMove::Write {
            call: write_call(1, 0, "é.txt", 3),
            path: "é.txt".into(),
            content: "né".into()
        }
    );
    assert_eq!(
        play.step(MockInput::Wrote(Some("full".into()))),
        MockMove::Tell(vec![write_result(1, 0, "é.txt", Some("full"))])
    );
    let (events, total) = finished_turn(&one_file(), Usage::default());
    assert_eq!(play.step(MockInput::Done), MockMove::Tell(events));
    assert_eq!(play.step(MockInput::Done), MockMove::Finished);
    assert_eq!(play.total, total);
}

#[test]
fn a_refused_turn_writes_nothing() {
    let asking = || {
        let mut turn = one_file();
        turn.ask_permission = Some(("Bash".to_string(), Json::Null));
        MockPlay::new(call(2), turn, Usage::default()).unwrap()
    };
    let mut play = asking();
    assert_eq!(
        play.step(MockInput::Done),
        MockMove::Ask(permission_request(&call(2), "Bash", &Json::Null))
    );
    let no = PermissionDecision::Deny { message: "no".into(), interrupt: false };
    assert_eq!(
        play.step(MockInput::Decided(no)),
        MockMove::Tell(denied_turn("no", Usage::default()))
    );
    assert_eq!(play.step(MockInput::Done), MockMove::Finished);
    assert_eq!(play.total, Usage::default());
    let mut play = asking();
    play.step(MockInput::Done);
    let yes = PermissionDecision::Allow { updated_input: None };
    assert!(matches!(play.step(MockInput::Decided(yes)), MockMove::Write { .. }));
    let full = Usage { input_tokens: u64::MAX, ..Usage::default() };
    assert_eq!(MockPlay::new(call(3), one_file(), full), None);
}
