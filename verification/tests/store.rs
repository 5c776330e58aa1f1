use bodega::budget::Budget;
use bodega::events::EventKind;
use bodega::ids::{ApprovalId, RunId, TaskId};
use bodega::model::{ApprovalKind, RunSpec, RunStatus, TaskSpec, TaskStatus, WorkSource};
use bodega::server::Cursor;
use bodega::state::ApplyError;
use bodega::store::{needs_setup, EventStore, StoreError, SCHEMA_VERSION};

fn created(title: &str) -> EventKind {
    EventKind::RunCreated {
        spec: RunSpec {
            title: title.into(),
            request: "do the thing".into(),
            source: WorkSource::Manual,
            base_ref: "main".into(),
            pipeline: "default".into(),
            budget: Budget::default(),
            config: None,
        },
    }
}

fn task(task_id: TaskId, key: &str) -> EventKind {
    EventKind::TaskCreated {
        task_id,
        spec: TaskSpec {
            key: key.into(),
            title: key.into(),
            description: String::new(),
            role: "implementer".into(),
            depends_on: Vec::new(),
            acceptance: Vec::new(),
        },
    }
}

fn status(task_id: TaskId, status: TaskStatus) -> EventKind {
    EventKind::TaskStatusChanged { task_id, status, reason: None }
}

#[test]
fn appends_are_sequenced_validated_and_projected() {
    let mut store = EventStore::open_in_memory();
    let run = RunId::new();
    let t1 = TaskId::new();
    let (stored, fresh) =
        store.append(run, 10, vec![created("first"), task(t1, "T1")], None).unwrap();
    assert!(fresh);
    assert_eq!(stored.iter().map(|e| e.seq).collect::<Vec<_>>(), [1, 2]);

    // An event the projection rejects rolls back the whole batch.
    let ghost = TaskId::new();
    let err = store
        .append(run, 20, vec![status(t1, TaskStatus::Running), status(ghost, TaskStatus::Done)], None)
        .unwrap_err();
    assert!(matches!(err, ApplyError::UnknownTask(_)));
    assert_eq!(store.last_seq(), 2);
    let state = store.run(run).unwrap();
    assert_eq!(state.tasks.get(&t1).unwrap().status, TaskStatus::Pending);

    // The sequence stays gapless after the rollback.
    let (next, _) = store.append(run, 30, vec![status(t1, TaskStatus::Done)], None).unwrap();
    assert_eq!(next[0].seq, 3);

    let summaries = store.list_runs();
    assert_eq!(summaries.len(), 1);
    assert_eq!(summaries[0].title, "first");
    assert_eq!(summaries[0].tasks_total, 1);
    assert_eq!(summaries[0].tasks_done, 1);
    assert_eq!(summaries[0].last_seq, 3);
}

#[test]
fn first_event_must_create_the_run() {
    let mut store = EventStore::open_in_memory();
    let err = store.append(RunId::new(), 0, vec![task(TaskId::new(), "T1")], None).unwrap_err();
    assert!(matches!(err, ApplyError::NotCreated(_)));
    assert_eq!(store.last_seq(), 0);
}

#[test]
fn idempotency_keys_prevent_double_writes() {
    let mut store = EventStore::open_in_memory();
    let run = RunId::new();
    let (first, _) = store.append(run, 0, vec![created("x")], Some("create-x")).unwrap();
    let (again, fresh) = store.append(run, 5, vec![created("x")], Some("create-x")).unwrap();
    assert_eq!(first, again);
    assert_eq!(store.last_seq(), 1);
    assert!(!fresh, "a replayed append is not re-broadcast");
}

#[test]
fn a_retry_after_other_appends_still_writes_nothing() {
    let mut store = EventStore::open_in_memory();
    let (a, b) = (RunId::new(), RunId::new());
    let (first, _) = store.append(a, 0, vec![created("a")], Some("k")).unwrap();
    store.append(b, 0, vec![created("b")], None).unwrap();
    // A batch that is known needs no room.
    assert!(store.can_append(usize::MAX, Some("k")));
    assert!(!store.can_append(usize::MAX, Some("other")));
    assert!(!store.can_append(usize::MAX, None));
    assert!(store.can_append(usize::MAX - 2, None));
    let (again, fresh) = store.append(b, 9, Vec::new(), Some("k")).unwrap();
    assert_eq!((again, fresh), (first, false));
    let (none, fresh) = store.append(b, 9, Vec::new(), None).unwrap();
    assert!(none.is_empty() && !fresh);
    assert_eq!(store.last_seq(), 2);
}

#[test]
fn readers_can_resume_from_the_log() {
    let mut store = EventStore::open_in_memory();
    let (a, b) = (RunId::new(), RunId::new());
    store.append(a, 0, vec![created("a")], None).unwrap();
    store.append(b, 0, vec![created("b")], None).unwrap();
    let after_first = store.events_after(1, 100);
    assert_eq!(after_first.len(), 1);
    assert_eq!(after_first[0].run_id, b);
    assert_eq!(store.run_events(a, 0, 100).len(), 1);
    assert_eq!(store.events_after(0, 1).len(), 1);
    assert!(store.events_after(2, 100).is_empty());
}

#[test]
fn a_second_copy_of_the_log_catches_up() {
    let mut first = EventStore::open_in_memory();
    let mut second = EventStore::open_in_memory();
    let run = RunId::new();
    let t1 = TaskId::new();
    first.append(run, 0, vec![created("shared"), task(t1, "T1")], Some("k")).unwrap();
    for event in first.events_after(0, 100) {
        second.absorb(event).unwrap();
    }
    second.absorb_key("k", 1, 2);
    assert_eq!(second, first);
    second.append(run, 1, vec![status(t1, TaskStatus::Ready)], None).unwrap();
    // An event that is not the next one, or that the run rejects, is refused.
    let late = second.events_after(2, 1).remove(0);
    let mut early = late.clone();
    early.seq = 9;
    assert_eq!(first.absorb(early), Err(ApplyError::OutOfOrder { last: 2, got: 9 }));
    let mut wrong = late.clone();
    wrong.kind = status(TaskId::new(), TaskStatus::Done);
    assert!(matches!(first.absorb(wrong), Err(ApplyError::UnknownTask(_))));
    first.absorb(late).unwrap();
    assert_eq!(first, second);
    let (again, fresh) = second.append(run, 2, vec![created("x")], Some("k")).unwrap();
    assert_eq!((again.len(), fresh), (2, false));
}

#[test]
fn runs_are_listed_most_recent_first() {
    let mut store = EventStore::open_in_memory();
    let ids: Vec<RunId> = (1..=4).map(RunId::from_uuid).collect();
    for (id, at) in ids.iter().zip([30, 10, 30, 20]) {
        store.append(*id, at, vec![created("r")], None).unwrap();
    }
    let approval_id = ApprovalId::new();
    store
        .append(
            ids[1],
            10,
            vec![EventKind::ApprovalRequested {
                approval_id,
                kind: ApprovalKind::Plan,
                title: "?".into(),
                details: String::new(),
                task_id: None,
            }],
            None,
        )
        .unwrap();
    assert!(store.can_list());
    let listed = store.list_runs();
    let order: Vec<RunId> = listed.iter().map(|r| r.run_id).collect();
    assert_eq!(order, [ids[2], ids[0], ids[3], ids[1]]);
    assert_eq!(listed[3].pending_approvals, 1);
    assert_eq!(listed[0].status, RunStatus::Pending);
}

#[test]
fn newer_databases_are_left_alone() {
    assert_eq!(needs_setup(0), Ok(true));
    assert_eq!(needs_setup(SCHEMA_VERSION), Ok(false));
    let e = needs_setup(2).unwrap_err();
    assert_eq!(
        e.message(),
        "database was created by a newer Forgeline (schema 2, supported 1)"
    );
}

#[test]
fn store_errors_read_well() {
    let id = RunId::from_uuid(1);
    assert_eq!(
        StoreError::UnknownRun(id).message(),
        "run run_00000000000000000000000000000001 does not exist"
    );
    assert_eq!(StoreError::Sqlite("locked".into()).message(), "locked");
    assert_eq!(
        StoreError::Payload { seq: 7, message: "bad".into() }.message(),
        "corrupt event payload at seq 7: bad"
    );
    assert_eq!(
        StoreError::Rejected(ApplyError::AlreadyCreated).message(),
        "event rejected: run already created"
    );
    assert_eq!(StoreError::Worker.message(), "store worker panicked");
}

#[test]
fn a_stream_sends_every_event_once() {
    let mut store = EventStore::open_in_memory();
    let (a, b) = (RunId::new(), RunId::new());
    let mut live = Vec::new();
    for (run, title) in [(a, "1"), (b, "2")] {
        live.extend(store.append(run, 0, vec![created(title)], None).unwrap().0);
    }
    let mut cursor = Cursor::new(0, Some(a));
    let mut sent = Vec::new();
    while cursor.behind {
        let batch = store.events_after(cursor.after, 1);
        sent.extend(cursor.take_batch(batch));
    }
    assert_eq!((cursor.after, sent.len()), (2, 1));
    // What was caught up from the log is not sent again.
    for event in live {
        assert_eq!(cursor.take_live(event), None);
    }
    let (more, _) = store
        .append(a, 0, vec![task(TaskId::new(), "A"), task(TaskId::new(), "B")], None)
        .unwrap();
    // The first of two is lost: the second shows the gap.
    assert_eq!(cursor.take_live(more[1].clone()), None);
    assert!(cursor.behind);
    let batch = store.events_after(cursor.after, 100);
    assert_eq!(cursor.take_batch(batch), more);
    assert!(cursor.take_batch(store.events_after(cursor.after, 100)).is_empty());
    assert!(!cursor.behind);
    let (next, _) = store.append(a, 0, vec![task(TaskId::new(), "C")], None).unwrap();
    assert_eq!(cursor.take_live(next[0].clone()), Some(next[0].clone()));
    cursor.fall_behind();
    assert!(cursor.behind);
}
