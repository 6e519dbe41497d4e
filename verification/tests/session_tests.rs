use ken::protocol::AgentResponse;
use ken::session::{Session, SessionStatus};
use ken::trigger::{StatusSnapshot, Trigger};

#[test]
fn test_session_new() {
    let session = Session::new("core/cli", "build parser", None);
    assert!(!session.id.is_empty());
    assert_eq!(session.ken, "core/cli");
    assert_eq!(session.task, "build parser");
    assert_eq!(session.status, SessionStatus::Pending);
    assert!(session.parent_id.is_none());
}

#[test]
fn test_session_with_parent() {
    let parent = Session::new("parent", "parent task", None);
    let child = Session::new("child", "child task", Some(parent.id.clone()));
    assert_eq!(child.parent_id, Some(parent.id));
}

#[test]
fn test_session_ids_are_fresh() {
    let a = Session::new("k", "t", None);
    let b = Session::new("k", "t", None);
    assert_eq!(a.id.len(), 36);
    assert_ne!(a.id, b.id);
}

#[test]
fn test_session_status_roundtrip() {
    for status in [
        SessionStatus::Pending,
        SessionStatus::Active,
        SessionStatus::Sleeping,
        SessionStatus::Complete,
        SessionStatus::Failed,
    ] {
        let s = status.as_str();
        let recovered = SessionStatus::from_str(s);
        assert_eq!(recovered, status);
    }
}

#[test]
fn test_status_strings_exact() {
    assert_eq!(SessionStatus::Pending.as_str(), "pending");
    assert_eq!(SessionStatus::Active.as_str(), "active");
    assert_eq!(SessionStatus::Sleeping.as_str(), "sleeping");
    assert_eq!(SessionStatus::Complete.as_str(), "complete");
    assert_eq!(SessionStatus::Failed.as_str(), "failed");
    assert_eq!(SessionStatus::from_str("unknown"), SessionStatus::Pending);
}

fn snapshot(entries: Vec<(&str, SessionStatus)>) -> StatusSnapshot {
    let mut snap = StatusSnapshot::new();
    for (id, st) in entries {
        snap.push(id.to_string(), st);
    }
    snap
}

#[test]
fn test_trigger_all_complete_satisfied() {
    let trigger = Trigger::AllComplete(vec!["a".to_string(), "b".to_string()]);
    let snap = snapshot(vec![
        ("a", SessionStatus::Complete),
        ("b", SessionStatus::Complete),
    ]);
    let satisfied = trigger.is_satisfied(&snap, 0, None);
    assert!(satisfied);
}

#[test]
fn test_trigger_all_complete_not_satisfied() {
    let trigger = Trigger::AllComplete(vec!["a".to_string(), "b".to_string()]);
    let snap = snapshot(vec![
        ("a", SessionStatus::Complete),
        ("b", SessionStatus::Active),
    ]);
    let satisfied = trigger.is_satisfied(&snap, 0, None);
    assert!(!satisfied);
}

#[test]
fn test_trigger_any_complete_satisfied() {
    let trigger = Trigger::AnyComplete(vec!["a".to_string(), "b".to_string()]);
    let snap = snapshot(vec![
        ("a", SessionStatus::Complete),
        ("b", SessionStatus::Active),
    ]);
    let satisfied = trigger.is_satisfied(&snap, 0, None);
    assert!(satisfied);
}

#[test]
fn test_trigger_all_complete_unknown_id_not_satisfied() {
    let trigger = Trigger::AllComplete(vec!["a".to_string(), "missing".to_string()]);
    let snap = snapshot(vec![("a", SessionStatus::Complete)]);
    assert!(!trigger.is_satisfied(&snap, 0, None));
}

#[test]
fn test_trigger_timeout_elapsed() {
    let trigger = Trigger::TimeoutSeconds(60);
    let snap = snapshot(vec![]);
    assert!(trigger.is_satisfied(&snap, 1000, Some(900)));
    assert!(trigger.is_satisfied(&snap, 960, Some(900)));
    assert!(!trigger.is_satisfied(&snap, 959, Some(900)));
    assert!(!trigger.is_satisfied(&snap, 1000, None));
}

#[test]
fn test_trigger_json_roundtrip_all() {
    let t = Trigger::AllComplete(vec!["a".to_string(), "b".to_string()]);
    let json = t.to_json();
    assert_eq!(json, "{\"all_complete\":[\"a\",\"b\"]}");
    let back = Trigger::from_json(&json).unwrap();
    assert_eq!(back, t);
}

#[test]
fn test_trigger_json_roundtrip_any() {
    let t = Trigger::AnyComplete(vec![]);
    let back = Trigger::from_json(&t.to_json()).unwrap();
    assert_eq!(back, t);
}

#[test]
fn test_trigger_json_roundtrip_timeout() {
    let t = Trigger::TimeoutSeconds(60);
    let json = t.to_json();
    assert_eq!(json, "{\"timeout_seconds\":60}");
    let back = Trigger::from_json(&json).unwrap();
    assert_eq!(back, t);
}

#[test]
fn test_trigger_parse_tolerates_whitespace() {
    let t = Trigger::from_json(" { \"all_complete\" : [ \"x\" , \"y\" ] } ").unwrap();
    assert_eq!(
        t,
        Trigger::AllComplete(vec!["x".to_string(), "y".to_string()])
    );
}

#[test]
fn test_trigger_parse_rejects_placeholder() {
    let r = Trigger::from_json("{\"all_complete\":\"__CHILDREN__\"}");
    assert!(r.is_err());
    let r2 = Trigger::from_json("{\"any_complete\":[\"__CHILDREN__\"]}");
    assert!(r2.is_err());
}

#[test]
fn test_trigger_parse_rejects_garbage() {
    assert!(Trigger::from_json("not json").is_err());
    assert!(Trigger::from_json("{\"elapsed\":3}").is_err());
    assert!(Trigger::from_json("{\"timeout_seconds\":\"x\"}").is_err());
}

#[test]
fn test_agent_response_success() {
    let resp = AgentResponse::success(Some(vec!["test".to_string()]));
    assert!(resp.ok);
    assert!(resp.data.is_some());
    assert!(resp.error.is_none());
}

#[test]
fn test_agent_response_error() {
    let resp = AgentResponse::error("something went wrong");
    assert!(!resp.ok);
    assert!(resp.data.is_none());
    assert_eq!(resp.error, Some("something went wrong".to_string()));
}
