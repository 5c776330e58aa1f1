use bodega::budget::{Budget, BudgetExceeded, Usage};
use bodega::events::{AgentEvent, Event, EventKind};
use bodega::ids::{ApprovalId, AttemptId, RunId, TaskId, WorkspaceId};
use bodega::model::{
    AgentRef, ApprovalKind, AttemptOutcome, CheckResult, Decision, FailureKind, ReviewVerdict,
    RunSpec, RunStatus, TaskSpec, TaskStatus, WorkSource,
};
use bodega::money::Usd;
use bodega::order::OrdSet;
use bodega::state::{ApplyError, RunState};

struct Log {
    run_id: RunId,
    events: Vec<Event>,
}

impl Log {
    fn new() -> Self {
        let mut log = Self { run_id: RunId::new(), events: Vec::new() };
        log.push(EventKind::RunCreated {
            spec: RunSpec {
                title: "Add dark mode".into(),
                request: "Users want dark mode".into(),
                source: WorkSource::Manual,
                base_ref: "main".into(),
                pipeline: "default".into(),
                budget: Budget::default(),
                config: None,
            },
        });
        log
    }

    fn push(&mut self, kind: EventKind) {
        let seq = self.events.len() as u64 + 1;
        self.events.push(Event { seq, run_id: self.run_id, at_ms: 1_000 * seq as i64, kind });
    }

    fn task(&mut self, key: &str, deps: &[&str]) -> TaskId {
        let task_id = TaskId::new();
        self.push(EventKind::TaskCreated {
            task_id,
            spec: TaskSpec {
                key: key.into(),
                title: key.into(),
                description: String::new(),
                role: "implementer".into(),
                depends_on: deps.iter().map(|d| d.to_string()).collect(),
                acceptance: Vec::new(),
            },
        });
        task_id
    }

    fn status(&mut self, task_id: TaskId, status: TaskStatus) {
        self.push(EventKind::TaskStatusChanged { task_id, status, reason: None });
    }

    fn attempt(&mut self, task_id: TaskId, branch: &str) -> AttemptId {
        let attempt_id = AttemptId::new();
        self.push(EventKind::AttemptStarted {
            attempt_id,
            task_id,
            number: 1,
            agent: AgentRef { runtime: "mock".into(), model: None },
            workspace_id: WorkspaceId::new(),
            branch: branch.into(),
        });
        attempt_id
    }

    fn state(&self) -> RunState {
        RunState::replay(&self.events).unwrap()
    }
}

#[test]
fn replays_tasks_attempts_and_usage() {
    let mut log = Log::new();
    let a = log.task("T1", &[]);
    let b = log.task("T2", &["T1"]);
    log.status(a, TaskStatus::Running);
    let attempt_id = log.attempt(a, "fl/t1-1");
    log.push(EventKind::Agent {
        attempt_id,
        event: AgentEvent::SessionStarted { session_id: Some("sess-1".into()), model: None },
    });
    let usage = Usage {
        input_tokens: 100,
        output_tokens: 20,
        cost_usd: Usd::from_nanos(10_000_000),
        ..Usage::default()
    };
    log.push(EventKind::Agent { attempt_id, event: AgentEvent::Usage { usage } });
    log.push(EventKind::AttemptFinished {
        attempt_id,
        outcome: AttemptOutcome::Succeeded { commit: Some("abc".into()) },
        usage,
    });
    log.status(a, TaskStatus::Done);

    let state = log.state();
    assert_eq!(state.tasks.get(&a).unwrap().status, TaskStatus::Done);
    assert_eq!(state.tasks.get(&a).unwrap().attempts, vec![attempt_id]);
    let attempt = state.attempts.get(&attempt_id).unwrap();
    assert_eq!(attempt.session_id.as_deref(), Some("sess-1"));
    assert_eq!(attempt.activity_count, 2);
    assert!(attempt.is_finished());
    assert_eq!(state.total_usage(), usage);
    assert_eq!(state.ready_tasks(), vec![b]);
    assert_eq!(state.task_by_key("T2").unwrap().id, b);
    assert_eq!(state.last_seq, log.events.len() as u64);
}

#[test]
fn ready_tasks_wait_for_dependencies_and_skip_active_ones() {
    let mut log = Log::new();
    let a = log.task("A", &[]);
    let b = log.task("B", &[]);
    let c = log.task("C", &["A", "B"]);
    assert_eq!(log.state().ready_tasks(), vec![a, b]);

    log.status(a, TaskStatus::Running);
    assert_eq!(log.state().ready_tasks(), vec![b]);

    log.status(a, TaskStatus::Done);
    log.status(b, TaskStatus::Failed);
    assert!(log.state().ready_tasks().is_empty());
    assert_eq!(log.state().graph().transitive_dependents(&b), OrdSet::of(vec![c]));
}

#[test]
fn approvals_resolve() {
    let mut log = Log::new();
    let approval_id = ApprovalId::new();
    log.push(EventKind::ApprovalRequested {
        approval_id,
        kind: ApprovalKind::Plan,
        title: "Approve plan".into(),
        details: "3 tasks".into(),
        task_id: None,
    });
    assert_eq!(log.state().pending_approvals().len(), 1);
    log.push(EventKind::ApprovalResolved {
        approval_id,
        decision: Decision::Approved,
        by: "abil".into(),
        comment: None,
    });
    let state = log.state();
    assert_eq!(state.pending_approvals().len(), 0);
    assert_eq!(
        state.approvals.get(&approval_id).unwrap().resolution.as_ref().unwrap().decision,
        Decision::Approved
    );
}

#[test]
fn rejects_inconsistent_logs() {
    let mut log = Log::new();
    let mut state = log.state();
    let ghost = TaskId::new();
    let bad = Event {
        seq: 2,
        run_id: log.run_id,
        at_ms: 0,
        kind: EventKind::TaskStatusChanged {
            task_id: ghost,
            status: TaskStatus::Done,
            reason: None,
        },
    };
    assert_eq!(state.apply(&bad), Err(ApplyError::UnknownTask(ghost)));

    let stale = Event { seq: 1, ..bad.clone() };
    assert_eq!(state.apply(&stale), Err(ApplyError::OutOfOrder { last: 1, got: 1 }));

    let other_run = Event { run_id: RunId::new(), ..bad };
    assert!(matches!(state.apply(&other_run), Err(ApplyError::WrongRun { .. })));

    log.task("T1", &[]);
    log.task("T1", &[]);
    assert_eq!(
        RunState::replay(&log.events),
        Err(ApplyError::DuplicateTaskKey("T1".into()))
    );
}

#[test]
fn failed_attempt_outcome_is_recorded() {
    let mut log = Log::new();
    let t = log.task("T1", &[]);
    let attempt_id = log.attempt(t, "b");
    log.push(EventKind::AttemptFinished {
        attempt_id,
        outcome: AttemptOutcome::Failed {
            kind: FailureKind::Verification,
            message: "tests failed".into(),
        },
        usage: Usage::default(),
    });
    let state = log.state();
    assert!(matches!(
        state.attempts.get(&attempt_id).unwrap().outcome,
        Some(AttemptOutcome::Failed { kind: FailureKind::Verification, .. })
    ));
}

#[test]
fn a_decision_cannot_be_taken_twice() {
    let mut log = Log::new();
    let approval_id = ApprovalId::new();
    let resolved = |decision| EventKind::ApprovalResolved {
        approval_id,
        decision,
        by: "abil".into(),
        comment: None,
    };
    log.push(resolved(Decision::Approved));
    assert_eq!(
        RunState::replay(&log.events),
        Err(ApplyError::UnknownApproval(approval_id))
    );
    log.events.pop();
    log.push(EventKind::ApprovalRequested {
        approval_id,
        kind: ApprovalKind::Question,
        title: "?".into(),
        details: String::new(),
        task_id: None,
    });
    log.push(resolved(Decision::Approved));
    log.push(resolved(Decision::Rejected));
    assert_eq!(
        RunState::replay(&log.events),
        Err(ApplyError::AlreadyResolved(approval_id))
    );
}

#[test]
fn a_log_starts_with_its_creation() {
    assert_eq!(RunState::replay(&Vec::new()), Err(ApplyError::NotCreated("<none>")));
    let mut log = Log::new();
    log.task("T1", &[]);
    log.events.remove(0);
    assert_eq!(RunState::replay(&log.events), Err(ApplyError::NotCreated("task_created")));
    let mut twice = Log::new();
    let first = twice.events[0].clone();
    twice.push(first.kind);
    assert_eq!(RunState::replay(&twice.events), Err(ApplyError::AlreadyCreated));
    let mut lost = Log::new();
    let attempt_id = AttemptId::new();
    lost.push(EventKind::Agent { attempt_id, event: AgentEvent::Message { text: "hi".into() } });
    assert_eq!(RunState::replay(&lost.events), Err(ApplyError::UnknownAttempt(attempt_id)));
}

#[test]
fn rejections_read_well() {
    assert_eq!(
        ApplyError::OutOfOrder { last: 4, got: 3 }.message(),
        "event seq 3 is not after 4"
    );
    assert_eq!(ApplyError::DuplicateTaskKey("T1".into()).message(), "task key `T1` is already used");
}

#[test]
fn a_cached_state_catches_up_to_a_full_replay() {
    let mut log = Log::new();
    let a = log.task("A", &[]);
    let early = RunState::replay(&log.events).unwrap();
    let mut caught_up = early.copy();
    log.status(a, TaskStatus::Done);
    log.push(EventKind::RunStatusChanged {
        status: RunStatus::Succeeded,
        stage: None,
        reason: None,
    });
    for event in &log.events[2..] {
        caught_up.apply(event).unwrap();
    }
    assert_eq!(caught_up, log.state());
    assert_ne!(caught_up, early);
}

#[test]
fn an_integration_failure_is_kept_until_the_next_attempt() {
    let mut log = Log::new();
    let a = log.task("A", &[]);
    let attempt_id = log.attempt(a, "b");
    log.push(EventKind::IntegrationFailed {
        task_id: a,
        attempt_id,
        reason: "merge conflict in x".into(),
    });
    let task = |state: &RunState| state.tasks.get(&a).unwrap().clone();
    assert_eq!(
        task(&log.state()).last_integration_error.as_deref(),
        Some("merge conflict in x")
    );
    log.attempt(a, "b2");
    assert_eq!(task(&log.state()).last_integration_error, None);
    log.push(EventKind::BranchIntegrated {
        task_id: a,
        branch: "b2".into(),
        commit: "abc".into(),
    });
    assert_eq!(task(&log.state()).integrated_commit.as_deref(), Some("abc"));
}

#[test]
fn reports_of_usage_are_totals() {
    let mut log = Log::new();
    let task = log.task("T1", &[]);
    let attempt_id = log.attempt(task, "b");
    for tokens in [10, 25] {
        let usage = Usage { input_tokens: tokens, ..Usage::default() };
        log.push(EventKind::Agent { attempt_id, event: AgentEvent::Usage { usage } });
        assert_eq!(log.state().total_usage().input_tokens, tokens);
    }
}

#[test]
fn events_are_named_by_their_tag() {
    let mut log = Log::new();
    let task_id = log.task("T1", &[]);
    log.status(task_id, TaskStatus::Running);
    let attempt_id = log.attempt(task_id, "b");
    let approval_id = ApprovalId::new();
    for kind in [
        EventKind::RunStatusChanged { status: RunStatus::Running, stage: None, reason: None },
        EventKind::PlanProposed { summary: String::new(), tasks: Vec::new() },
        EventKind::Agent { attempt_id, event: AgentEvent::Message { text: "x".into() } },
        EventKind::CheckCompleted {
            attempt_id,
            result: CheckResult {
                name: "n".into(),
                command: "c".into(),
                passed: true,
                exit_code: None,
                duration_ms: 0,
                output_tail: String::new(),
            },
        },
        EventKind::ReviewCompleted {
            attempt_id,
            reviewer: AgentRef { runtime: "mock".into(), model: None },
            verdict: ReviewVerdict::Approve,
            findings: Vec::new(),
        },
        EventKind::AttemptFinished {
            attempt_id,
            outcome: AttemptOutcome::Cancelled,
            usage: Usage::default(),
        },
        EventKind::ApprovalRequested {
            approval_id,
            kind: ApprovalKind::Plan,
            title: String::new(),
            details: String::new(),
            task_id: None,
        },
        EventKind::ApprovalResolved {
            approval_id,
            decision: Decision::Approved,
            by: "x".into(),
            comment: None,
        },
        EventKind::BranchIntegrated { task_id, branch: "b".into(), commit: "c".into() },
        EventKind::IntegrationFailed { task_id, attempt_id, reason: "r".into() },
        EventKind::PullRequestOpened { url: "u".into(), number: None },
        EventKind::BudgetExceeded { exceeded: BudgetExceeded::Tokens { limit: 1, spent: 2 } },
    ] {
        log.push(kind);
    }
    assert_eq!(log.state().last_seq, 16);
    let names: Vec<&str> = log.events.iter().map(|e| e.kind.name()).collect();
    assert_eq!(
        names,
        [
            "run_created",
            "task_created",
            "task_status_changed",
            "attempt_started",
            "run_status_changed",
            "plan_proposed",
            "agent",
            "check_completed",
            "review_completed",
            "attempt_finished",
            "approval_requested",
            "approval_resolved",
            "branch_integrated",
            "integration_failed",
            "pull_request_opened",
            "budget_exceeded",
        ]
    );
}
