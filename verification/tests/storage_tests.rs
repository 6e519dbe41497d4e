use ken::session::{Event, Session, SessionStatus};
use ken::storage::Storage;

fn create_test_storage() -> (Storage, tempfile::TempDir) {
    let dir = tempfile::tempdir().unwrap();
    let db_path = dir.path().join("ken.db");
    let storage = Storage::create(db_path.to_str().unwrap()).unwrap();
    (storage, dir)
}

fn now() -> String {
    chrono::Utc::now().to_rfc3339()
}

#[test]
fn test_create_storage() {
    let (storage, _dir) = create_test_storage();
    let sessions = storage.get_all_sessions().unwrap();
    assert!(sessions.is_empty());
}

#[test]
fn test_insert_and_get_session() {
    let (mut storage, _dir) = create_test_storage();

    let session = Session::new("test-ken", "test task", None);
    storage.insert_session(&session).unwrap();

    let retrieved = storage.get_session(&session.id).unwrap();
    assert_eq!(retrieved.id, session.id);
    assert_eq!(retrieved.ken, "test-ken");
    assert_eq!(retrieved.task, "test task");
    assert_eq!(retrieved.status, SessionStatus::Pending);
}

#[test]
fn test_get_session_unknown_id() {
    let (storage, _dir) = create_test_storage();
    match storage.get_session("no-such-id") {
        Err(ken::error::KenError::SessionNotFound(id)) => assert_eq!(id, "no-such-id"),
        _ => panic!("expected a session-not-found error"),
    }
}

#[test]
fn test_get_sessions_by_status() {
    let (mut storage, _dir) = create_test_storage();

    let s1 = Session::new("ken1", "task1", None);
    let mut s2 = Session::new("ken2", "task2", None);
    s2.status = SessionStatus::Active;

    storage.insert_session(&s1).unwrap();
    storage.insert_session(&s2).unwrap();

    let pending = storage.get_sessions_by_status(SessionStatus::Pending).unwrap();
    assert_eq!(pending.len(), 1);
    assert_eq!(pending[0].ken, "ken1");

    let active = storage.get_sessions_by_status(SessionStatus::Active).unwrap();
    assert_eq!(active.len(), 1);
    assert_eq!(active[0].ken, "ken2");
}

#[test]
fn test_update_session_status() {
    let (mut storage, _dir) = create_test_storage();

    let session = Session::new("test-ken", "test task", None);
    storage.insert_session(&session).unwrap();

    storage
        .update_session_status(&session.id, SessionStatus::Active, &now())
        .unwrap();

    let retrieved = storage.get_session(&session.id).unwrap();
    assert_eq!(retrieved.status, SessionStatus::Active);
}

#[test]
fn test_complete_session() {
    let (mut storage, _dir) = create_test_storage();

    let mut session = Session::new("test-ken", "test task", None);
    session.status = SessionStatus::Active;
    storage.insert_session(&session).unwrap();

    storage.complete_session(&session.id, "done!", &now()).unwrap();

    let retrieved = storage.get_session(&session.id).unwrap();
    assert_eq!(retrieved.status, SessionStatus::Complete);
    assert_eq!(retrieved.result, Some("done!".to_string()));
}

#[test]
fn test_sleep_session() {
    let (mut storage, _dir) = create_test_storage();

    let mut session = Session::new("test-ken", "test task", None);
    session.status = SessionStatus::Active;
    storage.insert_session(&session).unwrap();

    let trigger = r#"{"all_complete":["child1","child2"]}"#;
    storage
        .sleep_session(&session.id, trigger, "my checkpoint", &now())
        .unwrap();

    let retrieved = storage.get_session(&session.id).unwrap();
    assert_eq!(retrieved.status, SessionStatus::Sleeping);
    assert_eq!(retrieved.trigger, Some(trigger.to_string()));
    assert_eq!(retrieved.checkpoint, Some("my checkpoint".to_string()));
}

#[test]
fn test_get_children() {
    let (mut storage, _dir) = create_test_storage();

    let parent = Session::new("parent-ken", "parent task", None);
    storage.insert_session(&parent).unwrap();

    let child1 = Session::new("child-ken1", "child task 1", Some(parent.id.clone()));
    let child2 = Session::new("child-ken2", "child task 2", Some(parent.id.clone()));
    storage.insert_session(&child1).unwrap();
    storage.insert_session(&child2).unwrap();

    let children = storage.get_children(&parent.id).unwrap();
    assert_eq!(children.len(), 2);
}

#[test]
fn test_spawn_and_sleep_atomic() {
    let (mut storage, _dir) = create_test_storage();

    let mut parent = Session::new("parent-ken", "parent task", None);
    parent.status = SessionStatus::Active;
    storage.insert_session(&parent).unwrap();

    let child1 = Session::new("child-ken1", "child task 1", Some(parent.id.clone()));
    let child2 = Session::new("child-ken2", "child task 2", Some(parent.id.clone()));

    let trigger = r#"{"all_complete":"__CHILDREN__"}"#;
    let child_ids = storage
        .spawn_and_sleep(
            &parent.id,
            vec![child1, child2],
            trigger,
            "checkpoint content",
            &now(),
        )
        .unwrap();

    assert_eq!(child_ids.len(), 2);

    let parent = storage.get_session(&parent.id).unwrap();
    assert_eq!(parent.status, SessionStatus::Sleeping);

    let children = storage.get_children(&parent.id).unwrap();
    assert_eq!(children.len(), 2);
    for child in children {
        assert_eq!(child.status, SessionStatus::Pending);
    }
}

#[test]
fn test_insert_event() {
    let (mut storage, _dir) = create_test_storage();

    let session = Session::with_id("test-session", "test/ken", "test task", None);
    storage.insert_session(&session).unwrap();

    let event = Event {
        ts: now(),
        session_id: Some("test-session".to_string()),
        event_type: "test_event".to_string(),
        data: Some(r#"{"key":"value"}"#.to_string()),
    };

    storage.insert_event(&event).unwrap();
}

#[test]
fn test_insert_event_without_session() {
    let (mut storage, _dir) = create_test_storage();

    let event = Event {
        ts: now(),
        session_id: None,
        event_type: "system_event".to_string(),
        data: Some("system started".to_string()),
    };

    storage.insert_event(&event).unwrap();
}

#[test]
fn test_insert_duplicate_id_fails() {
    let (mut storage, _dir) = create_test_storage();
    let session = Session::with_id("dup-1", "k", "t", None);
    storage.insert_session(&session).unwrap();
    let again = Session::with_id("dup-1", "k2", "t2", None);
    match storage.insert_session(&again) {
        Err(ken::error::KenError::Database(_)) => {}
        _ => panic!("expected a database error for a duplicate id"),
    }
}

#[test]
fn test_cas_second_call_returns_false() {
    let (mut storage, _dir) = create_test_storage();
    let session = Session::with_id("cas-1", "k", "t", None);
    storage.insert_session(&session).unwrap();

    let first = storage
        .try_update_session_status("cas-1", SessionStatus::Pending, SessionStatus::Active, &now())
        .unwrap();
    assert!(first);

    let before = storage.get_session("cas-1").unwrap();
    let second = storage
        .try_update_session_status("cas-1", SessionStatus::Pending, SessionStatus::Active, &now())
        .unwrap();
    assert!(!second);

    let after = storage.get_session("cas-1").unwrap();
    assert_eq!(after.status, SessionStatus::Active);
    assert_eq!(after.updated_at, before.updated_at);
}

#[test]
fn test_cas_fails_on_wrong_expectation() {
    let (mut storage, _dir) = create_test_storage();
    let session = Session::with_id("cas-2", "k", "t", None);
    storage.insert_session(&session).unwrap();
    let moved = storage
        .try_update_session_status("cas-2", SessionStatus::Sleeping, SessionStatus::Pending, &now())
        .unwrap();
    assert!(!moved);
    let s = storage.get_session("cas-2").unwrap();
    assert_eq!(s.status, SessionStatus::Pending);
}
