use bodega::engine::{attempt_branch, integration_branch, short_id};
use bodega::ids::{ApprovalId, AttemptId, RunId, TaskId, WorkspaceId};

#[test]
fn display_uses_prefix_and_round_trips() {
    let id = RunId::new();
    let rendered = id.to_text();
    assert!(rendered.starts_with("run_"));
    assert_eq!(rendered.parse::<RunId>().unwrap(), id);
}

#[test]
fn parses_bare_uuid() {
    let id = TaskId::new();
    let bare = uuid::Uuid::from_u128(id.as_uuid()).to_string();
    assert_eq!(bare.parse::<TaskId>().unwrap(), id);
}

#[test]
fn rejects_garbage() {
    let err = "run_nope".parse::<RunId>().unwrap_err();
    assert_eq!(err.message(), "invalid run id `run_nope`");
}

#[test]
fn ids_sort_by_creation_time() {
    let a = AttemptId::new();
    let b = AttemptId::new();
    assert!(a < b);
}

#[test]
fn every_kind_of_id_has_its_own_prefix() {
    let n: u128 = 0x0123_4567_89ab_cdef_0011_2233_4455_66ff;
    let digits = "0123456789abcdef00112233445566ff";
    assert_eq!(RunId::from_uuid(n).to_text(), format!("run_{digits}"));
    assert_eq!(TaskId::from_uuid(n).to_text(), format!("task_{digits}"));
    assert_eq!(AttemptId::from_uuid(n).to_text(), format!("att_{digits}"));
    assert_eq!(WorkspaceId::from_uuid(n).to_text(), format!("ws_{digits}"));
    assert_eq!(ApprovalId::from_uuid(n).to_text(), format!("apr_{digits}"));
    assert!(format!("task_{digits}").parse::<RunId>().is_err());
}

#[test]
fn every_written_form_of_a_uuid_is_read() {
    let n: u128 = 0x0123_4567_89ab_cdef_0011_2233_4455_66ff;
    let u = uuid::Uuid::from_u128(n);
    for text in [
        u.simple().to_string(),
        u.hyphenated().to_string(),
        u.braced().to_string(),
        u.urn().to_string(),
        u.hyphenated().to_string().to_uppercase(),
        format!("run_{}", u.hyphenated()),
    ] {
        assert_eq!(RunId::parse(&text).map(|id| id.as_uuid()), Ok(n), "{text}");
    }
    for text in ["", "run_", "0123", "run_0123456789abcdef00112233445566fg", "{0123}"] {
        assert!(RunId::parse(text).is_err(), "{text}");
    }
}

#[test]
fn branches_carry_the_tail_of_the_run_id() {
    let id = RunId::from_uuid(0x0123_4567_89ab_cdef_0011_2233_4455_66ff);
    assert_eq!(short_id(id), "445566ff");
    assert_eq!(integration_branch(id), "bodega/445566ff/integration");
    assert_eq!(attempt_branch(id, "T1", 2), "bodega/445566ff/T1-2");
}

#[test]
fn new_ids_hold_the_time_they_were_made() {
    for id in [RunId::new().as_uuid(), RunId::default().as_uuid(), TaskId::new().as_uuid()] {
        assert_eq!(uuid::Uuid::from_u128(id).get_version_num(), 7);
    }
    for id in [ApprovalId::new().as_uuid(), WorkspaceId::new().as_uuid()] {
        assert_eq!(uuid::Uuid::from_u128(id).get_version_num(), 7);
    }
}
