use bodega::config::{Config, Plan};
use bodega::engine::{creation_events, new_task_ids, EngineError, NewRun};
use bodega::events::EventKind;
use bodega::ids::{ApprovalId, RunId};
use bodega::git::GitError;
use bodega::model::{ApprovalKind, Decision, RunStatus, WorkSource};
use bodega::money::Usd;
use bodega::server::{
    approval_not_found, check_resume, constant_time_eq, default_limit, eq_ignore_case, host_name,
    is_local_host, owns_approval, page_limit, parse_approval_id, parse_run_id, pending_of,
    presented_token, require_token, run_not_found, stream_start, ApiError, CreateRun, Resolve,
    CONFLICT, INTERNAL_SERVER_ERROR, SERVICE,
};
use bodega::state::ApplyError;
use bodega::store::{EventStore, StoreError};

#[test]
fn without_a_token_only_local_callers_are_served() {
    let served = |host: &str, loopback: bool| {
        require_token(None, is_local_host(Some(host), loopback), None, None)
    };
    let refused = served("evil.example:7777", false).unwrap_err();
    assert_eq!(refused.status, 403);
    assert_eq!(
        refused.message,
        "requests must address localhost (or run the server with --token)"
    );
    for (host, loopback) in [
        ("localhost:7777", false),
        ("127.0.0.1:7777", true),
        ("[::1]:7777", true),
        ("LOCALHOST", false),
    ] {
        assert!(served(host, loopback).is_ok(), "{host}");
    }
    assert!(!is_local_host(None, true));
}

#[test]
fn hosts_are_named_without_their_port() {
    for (host, name) in [
        ("localhost:7777", "localhost"),
        ("localhost", "localhost"),
        ("[::1]:7777", "::1"),
        ("[::1", "::1"),
        ("a:b:1", "a:b"),
        ("", ""),
    ] {
        assert_eq!(host_name(host), name);
    }
    assert!(eq_ignore_case("LocalHost", "localhost"));
    assert!(!eq_ignore_case("local", "localhost"));
    assert!(!eq_ignore_case("[", "{"));
}

#[test]
fn a_token_protects_every_request() {
    let ask = |header: Option<&str>, query: Option<&str>| {
        require_token(Some("s3cret"), true, header, query).map_err(|e| (e.status, e.message))
    };
    let refused = Err((401, "missing or invalid token".to_string()));
    assert_eq!(ask(None, None), refused);
    assert_eq!(ask(Some("Bearer nope"), None), refused);
    assert_eq!(ask(Some("Bearer s3cret"), None), Ok(()));
    assert_eq!(ask(None, Some("token=s3cret")), Ok(()));
    assert_eq!(ask(None, Some("after=3&token=s3cret&token=x")), Ok(()));
    assert_eq!(ask(Some("Basic s3cret"), Some("token=s3cret")), Ok(()));
    assert_eq!(ask(Some("Bearer x"), Some("token=s3cret")), refused);
    assert_eq!(presented_token(None, Some("a=1")), "");
    assert!(constant_time_eq(b"abc", b"abc"));
    assert!(!constant_time_eq(b"abc", b"abd") && !constant_time_eq(b"abc", b"ab"));
}

#[test]
fn errors_have_useful_statuses() {
    let rejected = || StoreError::Rejected(ApplyError::AlreadyCreated);
    let e = ApiError::from_store(rejected());
    assert_eq!((e.status, e.message.as_str()), (CONFLICT, "run already created"));
    assert_eq!(ApiError::from_store(StoreError::Worker).status, INTERNAL_SERVER_ERROR);
    let status = |e: EngineError| ApiError::from_engine(e).status;
    assert_eq!(status(EngineError::UnknownRun(RunId::new())), 404);
    assert_eq!(status(EngineError::UnknownRuntime("a".into(), "b".into())), 400);
    assert_eq!(status(EngineError::Git(GitError::Spawn { message: "x".into() })), 400);
    assert_eq!(status(EngineError::Store(rejected())), 409);
    assert_eq!(status(EngineError::Store(StoreError::Worker)), 500);
    let cyclic = Plan { summary: String::new(), tasks: Vec::new() }.validate().unwrap_err();
    assert_eq!(status(EngineError::Plan(cyclic)), 400);
}

#[test]
fn requests_name_runs_and_approvals() {
    let id = RunId::new();
    assert_eq!(parse_run_id(&id.to_text()), Ok(id));
    let e = parse_run_id("nope").unwrap_err();
    assert_eq!((e.status, e.message.as_str()), (400, "invalid run id `nope`"));
    assert_eq!(parse_approval_id("x").unwrap_err().message, "invalid apr id `x`");
    let one = RunId::from_uuid(1);
    let missing = run_not_found(one);
    assert_eq!(missing.status, 404);
    assert_eq!(missing.message, "run run_00000000000000000000000000000001 not found");
    let lost = approval_not_found(ApprovalId::from_uuid(1));
    assert_eq!(lost.message, "approval apr_00000000000000000000000000000001 not found");
}

#[test]
fn a_run_needs_a_title() {
    let body = |title: &str| CreateRun {
        title: title.into(),
        request: None,
        plan: None,
        base_ref: None,
        max_cost_usd: Some(Usd::from_nanos(1)),
    };
    let e = body(" \n").into_new_run().unwrap_err();
    assert_eq!((e.status, e.message.as_str()), (400, "title is required"));
    let new = body("Needs a human").into_new_run().unwrap();
    assert_eq!(new.request, "Needs a human");
    assert_eq!(new.plan, Plan::single("Needs a human", "Needs a human"));
    assert_eq!(new.max_cost_usd, Some(Usd::from_nanos(1)));
    let more = CreateRun { request: Some("all of it".into()), ..body("t") };
    assert_eq!(more.into_new_run().unwrap().plan.tasks[0].description, "all of it");
}

#[test]
fn pages_are_bounded() {
    assert_eq!(default_limit(), 500);
    assert_eq!((page_limit(0), page_limit(7), page_limit(9999)), (1, 7, 5000));
    assert_eq!(SERVICE, "forgeline");
}

#[test]
fn streams_resume_after_the_last_event_seen() {
    assert_eq!(stream_start(Some("7"), Some(3)), 7);
    assert_eq!(stream_start(Some("x"), Some(3)), 3);
    assert_eq!(stream_start(None, None), 0);
}

#[test]
fn approvals_are_listed_and_finished_runs_stay_finished() {
    let new = NewRun {
        title: "Needs a human".into(),
        request: "r".into(),
        source: WorkSource::Manual,
        base_ref: None,
        plan: Plan::single("t", "r"),
        max_cost_usd: None,
        max_tokens: None,
    };
    let mut store = EventStore::open_in_memory();
    let run = RunId::new();
    let ids = new_task_ids(&new.plan);
    let events = creation_events(&new, &Config::default(), "main".into(), &ids);
    store.append(run, 0, events, None).unwrap();
    let id = ApprovalId::new();
    store
        .append(
            run,
            0,
            vec![EventKind::ApprovalRequested {
                approval_id: id,
                kind: ApprovalKind::Permission,
                title: "allow?".into(),
                details: "make deploy".into(),
                task_id: None,
            }],
            None,
        )
        .unwrap();
    let state = store.run(run).unwrap();
    let pending = pending_of(state);
    assert_eq!(pending.len(), 1);
    assert_eq!(pending[0].run_id, run);
    assert_eq!(pending[0].run_title, "Needs a human");
    assert_eq!(pending[0].approval.details, "make deploy");
    assert!(owns_approval(state, id) && !owns_approval(state, ApprovalId::new()));
    assert!(check_resume(state).is_ok());
    store
        .append(
            run,
            0,
            vec![EventKind::RunStatusChanged {
                status: RunStatus::Succeeded,
                stage: None,
                reason: None,
            }],
            None,
        )
        .unwrap();
    let e = check_resume(store.run(run).unwrap()).unwrap_err();
    assert_eq!(e.status, 409);
    assert!(e.message.ends_with("already finished"));
    let by = |by: Option<&str>| Resolve {
        decision: Decision::Approved,
        comment: None,
        by: by.map(str::to_owned),
    };
    assert_eq!(by(None).resolver(), "api");
    assert_eq!(by(Some("abil")).resolver(), "abil");
}
