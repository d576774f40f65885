use bible_site::traffic::{client_ip, log_destination, log_step, user_agent, LogAction, LogDestination};

#[test]
fn log_step_halts_first() {
    assert!(matches!(log_step(true, Some("x".to_string())), LogAction::Stop));
    assert!(matches!(log_step(true, None), LogAction::Stop));
}

#[test]
fn log_step_writes_or_waits() {
    match log_step(false, Some("line".to_string())) {
        LogAction::Write(l) => assert_eq!(l, "line"),
        _ => panic!("expected a write"),
    }
    assert!(matches!(log_step(false, None), LogAction::Wait));
}

#[test]
fn log_destination_needs_client_and_connection() {
    assert!(matches!(log_destination(true, true), LogDestination::Redis));
    assert!(matches!(log_destination(true, false), LogDestination::Memory));
    assert!(matches!(log_destination(false, false), LogDestination::Memory));
}

#[test]
fn client_ip_prefers_header_then_peer() {
    assert_eq!(client_ip(Some("1.2.3.4".to_string()), Some("5.6.7.8".to_string())), "1.2.3.4");
    assert_eq!(client_ip(None, Some("5.6.7.8".to_string())), "5.6.7.8");
    assert_eq!(client_ip(None, None), "unknown");
}

#[test]
fn user_agent_defaults_to_empty() {
    assert_eq!(user_agent(Some("curl".to_string())), "curl");
    assert_eq!(user_agent(None), "");
}

#[test]
fn log_record_is_a_json_object() {
    let record = bible_site::traffic::log_record("curl/8", "1.2.3.4", "/book/genesis", "GET");
    assert_eq!(
        record,
        r#"{"method":"GET","path":"/book/genesis","user_agent":"curl/8","user_ip":"1.2.3.4"}"#
    );
}

#[test]
fn log_record_escapes_strings() {
    let record = bible_site::traffic::log_record("a \"b\"\n", "", "/", "GET");
    assert_eq!(record, r#"{"method":"GET","path":"/","user_agent":"a \"b\"\n","user_ip":""}"#);
}
