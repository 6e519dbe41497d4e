use ken::process;
use ken::protocol::AgentRequest;
use ken::request::handle_request_with_storage;
use ken::session::{Session, SessionStatus};
use ken::status;
use ken::storage::Storage;
use ken::trigger::{Trigger, TriggerTemplate};
use ken::wake;

fn create_test_storage() -> (tempfile::TempDir, Storage) {
    let dir = tempfile::tempdir().unwrap();
    let db_path = dir.path().join("ken.db");
    let storage = Storage::create(db_path.to_str().unwrap()).unwrap();
    (dir, storage)
}

fn now_pair() -> (String, i64) {
    let now = chrono::Utc::now();
    (now.to_rfc3339(), now.timestamp())
}

fn tick(storage: &mut Storage) -> ken::process::TickOutcome {
    let (now, secs) = now_pair();
    process::run(storage, &now, secs).unwrap()
}

#[test]
fn test_process_activates_pending_session() {
    let (_dir, mut storage) = create_test_storage();

    let session = Session::with_id("test-123", "test/ken", "do something", None);
    storage.insert_session(&session).unwrap();

    let (now, secs) = now_pair();
    let result = process::run(&mut storage, &now, secs);

    assert!(result.is_ok());

    let updated = storage.get_session("test-123").unwrap();
    assert_eq!(updated.status, SessionStatus::Active);
}

#[test]
fn test_process_wakes_sleeping_session_when_trigger_satisfied() {
    let (_dir, mut storage) = create_test_storage();

    let mut child = Session::with_id("child-1", "child/ken", "child task", None);
    child.status = SessionStatus::Complete;
    storage.insert_session(&child).unwrap();

    let mut parent = Session::with_id("parent-1", "parent/ken", "parent task", None);
    parent.status = SessionStatus::Sleeping;
    parent.trigger = Some(r#"{"all_complete":["child-1"]}"#.to_string());
    parent.checkpoint = Some("saved state".to_string());
    storage.insert_session(&parent).unwrap();

    let (now, secs) = now_pair();
    let result = process::run(&mut storage, &now, secs);

    assert!(result.is_ok());

    let updated = storage.get_session("parent-1").unwrap();
    assert_eq!(updated.status, SessionStatus::Active);
}

#[test]
fn test_process_does_not_wake_if_trigger_not_satisfied() {
    let (_dir, mut storage) = create_test_storage();

    let mut child = Session::with_id("child-1", "child/ken", "child task", None);
    child.status = SessionStatus::Active;
    storage.insert_session(&child).unwrap();

    let mut parent = Session::with_id("parent-1", "parent/ken", "parent task", None);
    parent.status = SessionStatus::Sleeping;
    parent.trigger = Some(r#"{"all_complete":["child-1"]}"#.to_string());
    storage.insert_session(&parent).unwrap();

    let (now, secs) = now_pair();
    let result = process::run(&mut storage, &now, secs);

    assert!(result.is_ok());

    let updated = storage.get_session("parent-1").unwrap();
    assert_eq!(updated.status, SessionStatus::Sleeping);
}

#[test]
fn test_process_activates_at_most_one() {
    let (_dir, mut storage) = create_test_storage();
    storage
        .insert_session(&Session::with_id("p1", "k1", "t1", None))
        .unwrap();
    storage
        .insert_session(&Session::with_id("p2", "k2", "t2", None))
        .unwrap();

    let out = tick(&mut storage);
    assert!(out.activated.is_some());

    let active = storage.get_sessions_by_status(SessionStatus::Active).unwrap();
    assert_eq!(active.len(), 1);
    let pending = storage.get_sessions_by_status(SessionStatus::Pending).unwrap();
    assert_eq!(pending.len(), 1);
}

#[test]
fn test_process_wake_bumps_updated_at() {
    let (_dir, mut storage) = create_test_storage();
    let mut sleeper = Session::with_id("s1", "k", "t", None);
    sleeper.status = SessionStatus::Sleeping;
    sleeper.trigger = Some("{\"timeout_seconds\":0}".to_string());
    sleeper.updated_at = "2020-01-01T00:00:00+00:00".to_string();
    storage.insert_session(&sleeper).unwrap();

    let out = tick(&mut storage);
    assert_eq!(out.woken, vec!["s1".to_string()]);

    let after = storage.get_session("s1").unwrap();
    assert!(after.updated_at > "2020-01-01T00:00:00+00:00".to_string());
}

#[test]
fn test_process_logs_parse_error_and_continues() {
    let (_dir, mut storage) = create_test_storage();
    let mut bad = Session::with_id("bad-1", "k", "t", None);
    bad.status = SessionStatus::Sleeping;
    bad.trigger = Some("not a trigger".to_string());
    storage.insert_session(&bad).unwrap();
    storage
        .insert_session(&Session::with_id("ok-1", "k2", "t2", None))
        .unwrap();

    let out = tick(&mut storage);
    assert!(out.activated.is_some());
    assert_eq!(storage.get_session("bad-1").unwrap().status, SessionStatus::Sleeping);
}

#[test]
fn test_has_work_returns_true_with_pending() {
    let (_dir, mut storage) = create_test_storage();

    let session = Session::with_id("test-123", "test/ken", "task", None);
    storage.insert_session(&session).unwrap();

    let result = process::has_work_with_storage(&storage).unwrap();

    assert!(result);
}

#[test]
fn test_has_work_returns_false_when_all_complete() {
    let (_dir, mut storage) = create_test_storage();

    let mut session = Session::with_id("test-123", "test/ken", "task", None);
    session.status = SessionStatus::Complete;
    storage.insert_session(&session).unwrap();

    let result = process::has_work_with_storage(&storage).unwrap();

    assert!(!result);
}

#[test]
fn test_process_outputs_none_when_no_work() {
    let (_dir, mut storage) = create_test_storage();

    let (now, secs) = now_pair();
    let result = process::run(&mut storage, &now, secs);

    assert!(result.is_ok());
    assert!(result.unwrap().activated.is_none());
}

#[test]
fn test_handle_complete_request() {
    let (_dir, mut storage) = create_test_storage();

    let mut session = Session::with_id("test-123", "test/ken", "do something", None);
    session.status = SessionStatus::Active;
    storage.insert_session(&session).unwrap();

    let request = AgentRequest::Complete {
        session_id: "test-123".to_string(),
        result: "all done".to_string(),
    };

    let (now, _) = now_pair();
    let response = handle_request_with_storage(&mut storage, request, &now).unwrap();

    assert!(response.ok);

    let updated = storage.get_session("test-123").unwrap();
    assert_eq!(updated.status, SessionStatus::Complete);
    assert_eq!(updated.result, Some("all done".to_string()));
}

#[test]
fn test_handle_complete_fails_if_not_active() {
    let (_dir, mut storage) = create_test_storage();

    let session = Session::with_id("test-123", "test/ken", "do something", None);
    storage.insert_session(&session).unwrap();

    let request = AgentRequest::Complete {
        session_id: "test-123".to_string(),
        result: "all done".to_string(),
    };

    let (now, _) = now_pair();
    let response = handle_request_with_storage(&mut storage, request, &now).unwrap();

    assert!(!response.ok);
    assert!(response.error.unwrap().contains("not active"));
}

#[test]
fn test_handle_spawn_and_sleep() {
    let (_dir, mut storage) = create_test_storage();

    let mut session = Session::with_id("parent-123", "parent/ken", "parent task", None);
    session.status = SessionStatus::Active;
    storage.insert_session(&session).unwrap();

    let request = AgentRequest::SpawnAndSleep {
        session_id: "parent-123".to_string(),
        children: vec![
            ken::protocol::ChildSpec {
                ken: "child/ken1".to_string(),
                task: "task1".to_string(),
            },
            ken::protocol::ChildSpec {
                ken: "child/ken2".to_string(),
                task: "task2".to_string(),
            },
        ],
        trigger: TriggerTemplate::AllChildren,
        checkpoint: "my checkpoint data".to_string(),
    };

    let (now, _) = now_pair();
    let response = handle_request_with_storage(&mut storage, request, &now).unwrap();

    assert!(response.ok);

    let parent = storage.get_session("parent-123").unwrap();
    assert_eq!(parent.status, SessionStatus::Sleeping);
    assert_eq!(parent.checkpoint, Some("my checkpoint data".to_string()));

    let children = storage.get_children("parent-123").unwrap();
    assert_eq!(children.len(), 2);

    let child_ids = response.data.unwrap();
    assert_eq!(child_ids.len(), 2);
}

#[test]
fn test_handle_sleep() {
    let (_dir, mut storage) = create_test_storage();

    let mut session = Session::with_id("test-123", "test/ken", "do something", None);
    session.status = SessionStatus::Active;
    storage.insert_session(&session).unwrap();

    let request = AgentRequest::Sleep {
        session_id: "test-123".to_string(),
        trigger: TriggerTemplate::Live(Trigger::TimeoutSeconds(60)),
        checkpoint: "waiting for timeout".to_string(),
    };

    let (now, _) = now_pair();
    let response = handle_request_with_storage(&mut storage, request, &now).unwrap();

    assert!(response.ok);

    let updated = storage.get_session("test-123").unwrap();
    assert_eq!(updated.status, SessionStatus::Sleeping);
    assert_eq!(updated.checkpoint, Some("waiting for timeout".to_string()));
    assert_eq!(updated.trigger, Some("{\"timeout_seconds\":60}".to_string()));
}

#[test]
fn test_wake_creates_session() {
    let (_dir, mut storage) = create_test_storage();

    let (now, _) = now_pair();
    let result = wake::run(&mut storage, "test/ken", "do something", &now);

    assert!(result.is_ok());

    let sessions = storage.get_all_sessions().unwrap();
    assert_eq!(sessions.len(), 1);
    assert_eq!(sessions[0].ken, "test/ken");
    assert_eq!(sessions[0].task, "do something");
}

#[test]
fn test_wake_creates_pending_session() {
    let (_dir, mut storage) = create_test_storage();

    let (now, _) = now_pair();
    wake::run(&mut storage, "test/ken", "do something", &now).unwrap();

    let sessions = storage.get_all_sessions().unwrap();
    assert_eq!(sessions[0].status, SessionStatus::Pending);
}

#[test]
fn test_status_with_no_sessions() {
    let (_dir, storage) = create_test_storage();

    let result = status::run(&storage);

    assert!(result.is_ok());
}

#[test]
fn test_status_with_sessions() {
    let (_dir, mut storage) = create_test_storage();

    let s1 = Session::with_id("pending-1", "ken1", "task1", None);
    storage.insert_session(&s1).unwrap();

    let mut s2 = Session::with_id("active-1", "ken2", "task2", None);
    s2.status = SessionStatus::Active;
    storage.insert_session(&s2).unwrap();

    let mut s3 = Session::with_id("complete-1", "ken3", "task3", None);
    s3.status = SessionStatus::Complete;
    storage.insert_session(&s3).unwrap();

    let result = status::run(&storage);

    assert!(result.is_ok());
}

#[test]
fn test_status_json() {
    let (_dir, mut storage) = create_test_storage();

    let session = Session::with_id("test-1", "test/ken", "test task", None);
    storage.insert_session(&session).unwrap();

    let result = status::run_json_with_storage(&storage);

    assert!(result.is_ok());
    let line = result.unwrap();
    assert!(line.contains("\"test-1\""));
    assert!(line.contains("\"pending\""));
}

#[test]
fn test_status_counts_correctly() {
    let (_dir, mut storage) = create_test_storage();

    let s1 = Session::with_id("pending-1", "ken1", "task1", None);
    storage.insert_session(&s1).unwrap();

    let s2 = Session::with_id("pending-2", "ken2", "task2", None);
    storage.insert_session(&s2).unwrap();

    let mut s3 = Session::with_id("active-1", "ken3", "task3", None);
    s3.status = SessionStatus::Active;
    storage.insert_session(&s3).unwrap();

    let mut s4 = Session::with_id("complete-1", "ken4", "task4", None);
    s4.status = SessionStatus::Complete;
    storage.insert_session(&s4).unwrap();

    let result = status::run(&storage);

    assert!(result.is_ok());
    let rep = result.unwrap();
    assert_eq!(rep.pending, 2);
    assert_eq!(rep.active, 1);
    assert_eq!(rep.complete, 1);
    assert_eq!(rep.sleeping, 0);
    assert_eq!(rep.failed, 0);
}
