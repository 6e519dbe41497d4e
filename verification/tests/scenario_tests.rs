use ken::process;
use ken::request;
use ken::session::SessionStatus;
use ken::storage::Storage;

fn create_test_storage() -> (tempfile::TempDir, Storage) {
    let dir = tempfile::tempdir().unwrap();
    let db_path = dir.path().join("ken.db");
    let storage = Storage::create(db_path.to_str().unwrap()).unwrap();
    (dir, storage)
}

fn now_pair() -> (String, i64) {
    let now = chrono::Utc::now();
    (now.to_rfc3339(), now.timestamp())
}

fn tick(storage: &mut Storage) -> ken::process::TickOutcome {
    let (now, secs) = now_pair();
    process::run(storage, &now, secs).unwrap()
}

fn send(storage: &mut Storage, json: &str) -> String {
    let (now, _) = now_pair();
    request::run(storage, json, &now).unwrap()
}

#[test]
fn test_scenario_wake_then_tick() {
    let (_dir, mut storage) = create_test_storage();
    let (now, _) = now_pair();
    let id = ken::wake::run(&mut storage, "core/cli", "build parser", &now).unwrap();

    assert_eq!(storage.get_session(&id).unwrap().status, SessionStatus::Pending);

    let out = tick(&mut storage);
    let activated = out.activated.expect("one session should be activated");
    assert_eq!(activated.id, id);

    let line = process::render_spawn_json(&activated);
    let expected = format!(
        "{{\"action\":\"spawn\",\"session\":{{\"id\":\"{}\",\"ken\":\"core/cli\",\"task\":\"build parser\",\"checkpoint\":null}}}}",
        id
    );
    assert_eq!(line, expected);

    assert_eq!(storage.get_session(&id).unwrap().status, SessionStatus::Active);
}

#[test]
fn test_scenario_complete() {
    let (_dir, mut storage) = create_test_storage();
    let (now, _) = now_pair();
    let id = ken::wake::run(&mut storage, "core/cli", "build parser", &now).unwrap();
    tick(&mut storage);

    let json = format!(
        "{{\"type\":\"complete\",\"session_id\":\"{}\",\"result\":\"done\"}}",
        id
    );
    let line = send(&mut storage, &json);
    assert_eq!(line, "{\"ok\":true}");

    let s = storage.get_session(&id).unwrap();
    assert_eq!(s.status, SessionStatus::Complete);
    assert_eq!(s.result, Some("done".to_string()));
}

#[test]
fn test_scenario_spawn_and_sleep() {
    let (_dir, mut storage) = create_test_storage();
    let (now, _) = now_pair();
    let id = ken::wake::run(&mut storage, "core/cli", "build parser", &now).unwrap();
    tick(&mut storage);

    let json = format!(
        "{{\"type\":\"spawn_and_sleep\",\"session_id\":\"{}\",\"children\":[{{\"ken\":\"a\",\"task\":\"A\"}},{{\"ken\":\"b\",\"task\":\"B\"}}],\"trigger\":{{\"all_complete\":\"__CHILDREN__\"}},\"checkpoint\":\"cp\"}}",
        id
    );
    let line = send(&mut storage, &json);
    assert!(line.starts_with("{\"ok\":true,\"data\":{\"children\":[\""));

    let parent = storage.get_session(&id).unwrap();
    assert_eq!(parent.status, SessionStatus::Sleeping);
    assert_eq!(parent.checkpoint, Some("cp".to_string()));

    let children = storage.get_children(&id).unwrap();
    assert_eq!(children.len(), 2);
    for c in &children {
        assert_eq!(c.status, SessionStatus::Pending);
        assert_eq!(c.parent_id, Some(id.clone()));
    }

    let trigger = parent.trigger.unwrap();
    assert!(trigger.starts_with("{\"all_complete\":[\""));
    assert!(!trigger.contains("__CHILDREN__"));
    for c in &children {
        assert!(trigger.contains(&c.id));
    }
}

#[test]
fn test_scenario_trigger_satisfaction() {
    let (_dir, mut storage) = create_test_storage();
    let (now, _) = now_pair();
    let id = ken::wake::run(&mut storage, "core/cli", "build parser", &now).unwrap();
    tick(&mut storage);
    let json = format!(
        "{{\"type\":\"spawn_and_sleep\",\"session_id\":\"{}\",\"children\":[{{\"ken\":\"a\",\"task\":\"A\"}},{{\"ken\":\"b\",\"task\":\"B\"}}],\"trigger\":{{\"all_complete\":\"__CHILDREN__\"}},\"checkpoint\":\"cp\"}}",
        id
    );
    send(&mut storage, &json);

    // complete both children via alternating tick and complete requests
    for _ in 0..2 {
        let out = tick(&mut storage);
        let child = out.activated.expect("a child should be activated");
        assert_ne!(child.id, id);
        let complete = format!(
            "{{\"type\":\"complete\",\"session_id\":\"{}\",\"result\":\"ok\"}}",
            child.id
        );
        let line = send(&mut storage, &complete);
        assert_eq!(line, "{\"ok\":true}");
    }

    // the next tick wakes the parent and activates it in the same call
    let out = tick(&mut storage);
    assert_eq!(out.woken, vec![id.clone()]);
    let activated = out.activated.expect("the parent should be activated");
    assert_eq!(activated.id, id);
    assert_eq!(activated.checkpoint, Some("cp".to_string()));
    let line = process::render_spawn_json(&activated);
    assert!(line.contains("\"checkpoint\":\"cp\""));

    assert_eq!(storage.get_session(&id).unwrap().status, SessionStatus::Active);
}

#[test]
fn test_scenario_sleep_on_timeout() {
    let (_dir, mut storage) = create_test_storage();
    let (now, _) = now_pair();
    let id = ken::wake::run(&mut storage, "core/cli", "build parser", &now).unwrap();
    tick(&mut storage);

    let json = format!(
        "{{\"type\":\"sleep\",\"session_id\":\"{}\",\"trigger\":{{\"timeout_seconds\":0}},\"checkpoint\":\"t\"}}",
        id
    );
    let line = send(&mut storage, &json);
    assert_eq!(line, "{\"ok\":true}");
    assert_eq!(storage.get_session(&id).unwrap().status, SessionStatus::Sleeping);

    let out = tick(&mut storage);
    assert_eq!(out.woken, vec![id.clone()]);
    let activated = out.activated.expect("the sleeper should be activated");
    assert_eq!(activated.id, id);
    assert_eq!(storage.get_session(&id).unwrap().status, SessionStatus::Active);
}

#[test]
fn test_scenario_complete_on_non_active() {
    let (_dir, mut storage) = create_test_storage();
    let (now, _) = now_pair();
    let id = ken::wake::run(&mut storage, "core/cli", "build parser", &now).unwrap();

    let json = format!(
        "{{\"type\":\"complete\",\"session_id\":\"{}\",\"result\":\"x\"}}",
        id
    );
    let line = send(&mut storage, &json);
    let expected = format!(
        "{{\"ok\":false,\"error\":\"Session {} is not active (status: pending)\"}}",
        id
    );
    assert_eq!(line, expected);
    assert_eq!(storage.get_session(&id).unwrap().status, SessionStatus::Pending);
}

#[test]
fn test_scenario_unknown_session() {
    let (_dir, mut storage) = create_test_storage();
    let line = send(
        &mut storage,
        "{\"type\":\"complete\",\"session_id\":\"ghost\",\"result\":\"x\"}",
    );
    assert_eq!(line, "{\"ok\":false,\"error\":\"Session ghost not found\"}");
}
