use ken::protocol::{parse_agent_request, resolve_trigger, AgentRequest, AgentResponse};
use ken::trigger::{Trigger, TriggerTemplate};

#[test]
fn test_parse_valid_complete_request() {
    let json = r#"{"type":"complete","session_id":"abc123","result":"done"}"#;
    let request: AgentRequest = parse_agent_request(json).unwrap();

    match request {
        AgentRequest::Complete { session_id, result } => {
            assert_eq!(session_id, "abc123");
            assert_eq!(result, "done");
        }
        _ => panic!("Expected Complete request"),
    }
}

#[test]
fn test_agent_request_parse_complete() {
    let json = r#"{"type":"complete","session_id":"abc123","result":"done"}"#;
    let req: AgentRequest = parse_agent_request(json).unwrap();
    match req {
        AgentRequest::Complete { session_id, result } => {
            assert_eq!(session_id, "abc123");
            assert_eq!(result, "done");
        }
        _ => panic!("wrong variant"),
    }
}

#[test]
fn test_agent_request_parse_spawn_and_sleep() {
    let json = r#"{
            "type":"spawn_and_sleep",
            "session_id":"abc123",
            "children":[{"ken":"child/ken","task":"do stuff"}],
            "trigger":{"all_complete":"__CHILDREN__"},
            "checkpoint":"my checkpoint"
        }"#;
    let req: AgentRequest = parse_agent_request(json).unwrap();
    match req {
        AgentRequest::SpawnAndSleep {
            session_id,
            children,
            checkpoint,
            ..
        } => {
            assert_eq!(session_id, "abc123");
            assert_eq!(children.len(), 1);
            assert_eq!(children[0].ken, "child/ken");
            assert_eq!(checkpoint, "my checkpoint");
        }
        _ => panic!("wrong variant"),
    }
}

#[test]
fn test_agent_request_parse_sleep_with_timeout() {
    let json = r#"{"type":"sleep","session_id":"s1","trigger":{"timeout_seconds":60},"checkpoint":"cp"}"#;
    let req = parse_agent_request(json).unwrap();
    match req {
        AgentRequest::Sleep {
            session_id,
            trigger,
            checkpoint,
        } => {
            assert_eq!(session_id, "s1");
            assert_eq!(trigger, TriggerTemplate::Live(Trigger::TimeoutSeconds(60)));
            assert_eq!(checkpoint, "cp");
        }
        _ => panic!("wrong variant"),
    }
}

#[test]
fn test_agent_request_parse_any_field_order() {
    let json = r#"{"result":"done","session_id":"abc","type":"complete"}"#;
    let req = parse_agent_request(json).unwrap();
    match req {
        AgentRequest::Complete { session_id, result } => {
            assert_eq!(session_id, "abc");
            assert_eq!(result, "done");
        }
        _ => panic!("wrong variant"),
    }
}

#[test]
fn test_agent_request_parse_invalid() {
    assert!(parse_agent_request("not json").is_err());
    assert!(parse_agent_request("{}").is_err());
    assert!(parse_agent_request(r#"{"type":"destroy","session_id":"x"}"#).is_err());
    assert!(parse_agent_request(r#"{"type":"complete","session_id":"x"}"#).is_err());
    match parse_agent_request("{{") {
        Err(ken::error::KenError::InvalidRequest(_)) => {}
        _ => panic!("expected an invalid-request error"),
    }
}

#[test]
fn test_resolve_trigger_replaces_children() {
    let trigger = TriggerTemplate::AllChildren.to_json();
    let child_ids = vec!["id1".to_string(), "id2".to_string()];

    let resolved = resolve_trigger(&trigger, &child_ids);

    assert!(resolved.contains("id1"));
    assert!(resolved.contains("id2"));
    assert!(!resolved.contains("__CHILDREN__"));
}

#[test]
fn test_resolve_trigger_exact_text() {
    let trigger = TriggerTemplate::AllChildren.to_json();
    assert_eq!(trigger, "{\"all_complete\":\"__CHILDREN__\"}");
    let child_ids = vec!["id1".to_string(), "id2".to_string()];
    let resolved = resolve_trigger(&trigger, &child_ids);
    assert_eq!(resolved, "{\"all_complete\":[\"id1\",\"id2\"]}");
}

#[test]
fn test_resolve_trigger_without_placeholder_is_identity() {
    let text = "{\"timeout_seconds\":5}";
    let resolved = resolve_trigger(text, &vec!["id1".to_string()]);
    assert_eq!(resolved, text);
}

#[test]
fn test_response_json_forms() {
    assert_eq!(AgentResponse::success(None).to_json(), "{\"ok\":true}");
    assert_eq!(
        AgentResponse::success(Some(vec!["a".to_string()])).to_json(),
        "{\"ok\":true,\"data\":{\"children\":[\"a\"]}}"
    );
    assert_eq!(
        AgentResponse::error("oops").to_json(),
        "{\"ok\":false,\"error\":\"oops\"}"
    );
}

#[test]
fn test_json_string_escaping_roundtrip() {
    let t = Trigger::AllComplete(vec!["a\"b\\c".to_string()]);
    let json = t.to_json();
    assert_eq!(json, "{\"all_complete\":[\"a\\\"b\\\\c\"]}");
    let back = Trigger::from_json(&json).unwrap();
    assert_eq!(back, t);
}
