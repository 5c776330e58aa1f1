use bodega::budget::{Budget, Usage};
use bodega::checks::{check_result, next_check, passed, tail, CheckOutcome};
use bodega::config::Check;
use bodega::events::{Event, EventKind};
use bodega::ids::{AttemptId, RunId, TaskId, WorkspaceId};
use bodega::model::{
    AgentRef, AttemptOutcome, CheckResult, FailureKind, RunSpec, RunStatus, TaskSpec, TaskStatus,
    WorkSource,
};
use bodega::prompts::{check_failure_feedback, task_prompt};
use bodega::schedule::{after_failure, feedback_for, run_outcome, status_word, tasks_to_start};
use bodega::state::RunState;

struct Log {
    state: RunState,
    seq: u64,
}

impl Log {
    fn new(tasks: &[(&str, &[&str])]) -> (Self, Vec<TaskId>) {
        let run_id = RunId::new();
        let mut log = Self {
            state: RunState::new(&Event {
                seq: 1,
                run_id,
                at_ms: 0,
                kind: EventKind::RunCreated {
                    spec: RunSpec {
                        title: "t".into(),
                        request: "r".into(),
                        source: WorkSource::Manual,
                        base_ref: "main".into(),
                        pipeline: "default".into(),
                        budget: Budget::default(),
                        config: None,
                    },
                },
            })
            .unwrap(),
            seq: 1,
        };
        let ids = tasks
            .iter()
            .map(|(key, deps)| {
                let task_id = TaskId::new();
                log.push(EventKind::TaskCreated {
                    task_id,
                    spec: TaskSpec {
                        key: key.to_string(),
                        title: key.to_string(),
                        description: String::new(),
                        role: "implementer".into(),
                        depends_on: deps.iter().map(|d| d.to_string()).collect(),
                        acceptance: Vec::new(),
                    },
                });
                task_id
            })
            .collect();
        (log, ids)
    }

    fn push(&mut self, kind: EventKind) {
        self.seq += 1;
        let event = Event { seq: self.seq, run_id: self.state.id, at_ms: 0, kind };
        self.state.apply(&event).unwrap();
    }

    fn status(&mut self, task_id: TaskId, status: TaskStatus) {
        self.push(EventKind::TaskStatusChanged { task_id, status, reason: None });
    }

    fn attempts(&self, task_id: TaskId) -> &Vec<AttemptId> {
        &self.state.tasks.get(&task_id).unwrap().attempts
    }

    fn failed_attempt(&mut self, task_id: TaskId, check_output: &str) {
        let attempt_id = AttemptId::new();
        let number = self.attempts(task_id).len() as u32 + 1;
        self.push(EventKind::AttemptStarted {
            attempt_id,
            task_id,
            number,
            agent: AgentRef { runtime: "mock".into(), model: None },
            workspace_id: WorkspaceId::new(),
            branch: "b".into(),
        });
        self.push(EventKind::CheckCompleted {
            attempt_id,
            result: CheckResult {
                name: "test".into(),
                command: "cargo test".into(),
                passed: false,
                exit_code: Some(101),
                duration_ms: 5,
                output_tail: check_output.into(),
            },
        });
        self.push(EventKind::AttemptFinished {
            attempt_id,
            outcome: AttemptOutcome::Failed {
                kind: FailureKind::Verification,
                message: "checks failed".into(),
            },
            usage: Usage::default(),
        });
    }
}

#[test]
fn starts_ready_tasks_up_to_the_free_slots() {
    let (mut log, ids) = Log::new(&[("A", &[]), ("B", &[]), ("C", &[]), ("D", &["A"])]);
    assert_eq!(tasks_to_start(&log.state, 0, 2), &ids[..2]);
    assert_eq!(tasks_to_start(&log.state, 2, 2), Vec::<TaskId>::new());
    log.status(ids[0], TaskStatus::Running);
    assert_eq!(tasks_to_start(&log.state, 1, 4), &ids[1..3]);
    log.status(ids[0], TaskStatus::Done);
    assert_eq!(tasks_to_start(&log.state, 0, 4), vec![ids[1], ids[2], ids[3]]);
}

#[test]
fn retries_then_fails_and_skips_dependents() {
    let (mut log, ids) = Log::new(&[("A", &[]), ("B", &["A"]), ("C", &["B"]), ("X", &[])]);
    log.failed_attempt(ids[0], "boom");
    let retry = after_failure(&log.state, ids[0], "checks failed", true, 2);
    assert!(matches!(
        retry.as_slice(),
        [EventKind::TaskStatusChanged { status: TaskStatus::Ready, .. }]
    ));

    log.failed_attempt(ids[0], "boom again");
    let give_up = after_failure(&log.state, ids[0], "checks failed", true, 2);
    let statuses: Vec<_> = give_up
        .iter()
        .map(|e| match e {
            EventKind::TaskStatusChanged { task_id, status, .. } => (*task_id, *status),
            other => panic!("unexpected {other:?}"),
        })
        .collect();
    assert_eq!(
        statuses,
        vec![
            (ids[0], TaskStatus::Failed),
            (ids[1], TaskStatus::Skipped),
            (ids[2], TaskStatus::Skipped)
        ]
    );
}

#[test]
fn non_retryable_failures_fail_immediately() {
    let (mut log, ids) = Log::new(&[("A", &[])]);
    log.failed_attempt(ids[0], "x");
    let events = after_failure(&log.state, ids[0], "budget", false, 5);
    assert!(matches!(
        events.as_slice(),
        [EventKind::TaskStatusChanged { status: TaskStatus::Failed, .. }]
    ));
}

#[test]
fn failures_are_explained() {
    let (mut log, ids) = Log::new(&[("A", &[]), ("B", &["A"])]);
    log.failed_attempt(ids[0], "x");
    let reason = |events: &[EventKind], i: usize| match &events[i] {
        EventKind::TaskStatusChanged { reason, .. } => reason.clone().unwrap(),
        other => panic!("unexpected {other:?}"),
    };
    let retry = after_failure(&log.state, ids[0], "boom", true, 2);
    assert_eq!(reason(&retry, 0), "retrying after attempt 1: boom");
    let end = after_failure(&log.state, ids[0], "boom", true, 1);
    assert_eq!(reason(&end, 0), "gave up after 1 attempts: boom");
    assert_eq!(reason(&end, 1), "depends on A, which failed");
    let hard = after_failure(&log.state, ids[0], "boom", false, 9);
    assert_eq!(reason(&hard, 0), "boom");
    assert!(after_failure(&log.state, TaskId::new(), "boom", true, 2).is_empty());
}

#[test]
fn run_outcome_waits_for_all_tasks() {
    let (mut log, ids) = Log::new(&[("A", &[]), ("B", &[])]);
    assert_eq!(run_outcome(&log.state), None);
    log.status(ids[0], TaskStatus::Done);
    assert_eq!(run_outcome(&log.state), None);
    log.status(ids[1], TaskStatus::Done);
    assert_eq!(run_outcome(&log.state), Some((RunStatus::Succeeded, None)));
    log.status(ids[1], TaskStatus::Failed);
    let (status, reason) = run_outcome(&log.state).unwrap();
    assert_eq!(status, RunStatus::Failed);
    assert_eq!(reason.as_deref(), Some("1 of 2 tasks did not complete: B (failed)"));
}

#[test]
fn feedback_comes_from_the_last_attempt() {
    let (mut log, ids) = Log::new(&[("A", &[])]);
    assert_eq!(feedback_for(&log.state, ids[0]), None);
    log.failed_attempt(ids[0], "assertion failed: left == right");
    let feedback = feedback_for(&log.state, ids[0]).unwrap();
    assert!(feedback.contains("attempt 1"), "{feedback}");
    assert!(feedback.contains("assertion failed"), "{feedback}");

    let attempt_id = *log.attempts(ids[0]).last().unwrap();
    log.push(EventKind::IntegrationFailed {
        task_id: ids[0],
        attempt_id,
        reason: "merge conflict in src/lib.rs".into(),
    });
    let feedback = feedback_for(&log.state, ids[0]).unwrap();
    assert!(feedback.contains("could not be integrated"), "{feedback}");
    assert!(feedback.contains("src/lib.rs"), "{feedback}");
    assert!(!feedback.contains("assertion failed"), "{feedback}");
}

#[test]
fn every_status_has_a_word() {
    assert_eq!(status_word(TaskStatus::Pending), "pending");
    assert_eq!(status_word(TaskStatus::Skipped), "skipped");
    assert_eq!(status_word(TaskStatus::Cancelled), "cancelled");
}

#[test]
fn task_prompt_includes_scope_checks_and_feedback() {
    let run = RunSpec {
        title: "Dark mode".into(),
        request: "Users want a dark theme.".into(),
        source: WorkSource::Manual,
        base_ref: "main".into(),
        pipeline: "default".into(),
        budget: Budget::default(),
        config: None,
    };
    let task = TaskSpec {
        key: "T2".into(),
        title: "Theme toggle".into(),
        description: "Add a toggle to the header.".into(),
        role: "implementer".into(),
        depends_on: vec!["T1".into()],
        acceptance: vec!["The choice persists across reloads".into()],
    };
    let checks =
        vec![Check { name: "test".into(), command: "npm test".into(), timeout_secs: 60 }];
    let prompt = task_prompt(&run, &task, &checks, Some("tests failed"));
    assert!(prompt.starts_with("# Task: T2 — Theme toggle"));
    assert!(prompt.contains("- The choice persists across reloads"));
    assert!(prompt.contains("Users want a dark theme."));
    assert!(prompt.contains("- `npm test`"));
    assert!(prompt.contains("## What happened on the previous attempt\n\ntests failed"));
}

fn check(command: &str) -> Check {
    Check { name: "c".into(), command: command.into(), timeout_secs: 1 }
}

#[test]
fn tail_keeps_the_end() {
    let long: String = (0..200).map(|i| format!("line {i}\n")).collect();
    let t = tail(&long);
    assert!(t.starts_with("… (140 earlier lines omitted)"));
    assert!(t.ends_with("line 199"));
}

#[test]
fn tail_is_bounded_in_bytes_too() {
    let wide = "é".repeat(4000);
    let t = tail(&wide);
    assert!(t.len() <= 6010, "{}", t.len());
    assert!(t.ends_with("éé"));
    assert_eq!(tail("short\n"), "short");
}

#[test]
fn results_of_checks_are_told() {
    let ran = |success, code, stdout: &str, stderr: &str| CheckOutcome::Ran {
        success,
        code,
        stdout: stdout.into(),
        stderr: stderr.into(),
    };
    let ok = check_result(&check("echo hello"), "", &ran(true, Some(0), "hello\n", ""), 7);
    assert!(ok.passed);
    assert_eq!(ok.exit_code, Some(0));
    assert_eq!(ok.output_tail, "hello");
    assert_eq!(ok.duration_ms, 7);
    let bad = check_result(&check("x"), "x:", &ran(false, Some(3), "out", "err\n"), 7);
    assert!(!bad.passed);
    assert_eq!(bad.exit_code, Some(3));
    assert_eq!(bad.name, "x:c");
    assert_eq!(bad.output_tail, "out\nerr");
    let slow = check_result(&check("sleep 30"), "", &CheckOutcome::TimedOut, 1000);
    assert_eq!(slow.exit_code, None);
    assert_eq!(slow.output_tail, "timed out after 1s");
    let lost =
        check_result(&check("x"), "", &CheckOutcome::NotStarted { error: "no sh".into() }, 5);
    assert_eq!(lost.output_tail, "could not start the check: no sh");
    assert_eq!(lost.duration_ms, 0);
    let broken = check_result(&check("x"), "", &CheckOutcome::Broken { error: "e".into() }, 5);
    assert_eq!(broken.output_tail, "the check failed to run: e");
}

#[test]
fn checks_stop_at_the_first_failure() {
    let all = vec![check("true"), check("false"), check("true")];
    let result = |ok: bool| {
        let outcome = CheckOutcome::Ran {
            success: ok,
            code: Some(if ok { 0 } else { 1 }),
            stdout: String::new(),
            stderr: String::new(),
        };
        check_result(&check("c"), "", &outcome, 0)
    };
    let mut results = Vec::new();
    while let Some(i) = next_check(&all, &results) {
        results.push(result(all[i].command == "true"));
    }
    assert_eq!(results.len(), 2);
    assert!(!passed(&results));
}

#[test]
fn failing_checks_are_sent_back() {
    let failing = CheckResult {
        name: "test".into(),
        command: "npm test".into(),
        passed: false,
        exit_code: Some(1),
        duration_ms: 1,
        output_tail: "boom".into(),
    };
    let text = check_failure_feedback(&vec![failing], 1, 2);
    assert_eq!(
        text,
        "Verification failed (fix round 1 of 2). Fix the problems below, then finish again with a \
         short summary.\n\n### `npm test` exited with 1\n\n```\nboom\n```\n\n"
    );
}

#[test]
fn agents_never_exceed_their_number() {
    let (log, _) = Log::new(&[("A", &[]), ("B", &[]), ("C", &[])]);
    for running in 0..6 {
        for max in 0..6 {
            let started = tasks_to_start(&log.state, running, max).len();
            assert!(started == 0 || running + started <= max);
            assert_eq!(started, max.saturating_sub(running).min(3));
        }
    }
}
