use fpvjp_app::json::{parse_envelope, Envelope};
use fpvjp_app::protocol::{ClientType, SENDER_ERROR};
use fpvjp_app::registry::{AppState, AuthInfo};
use fpvjp_app::relay::{get_target_session_id, Notice};

fn empty_envelope() -> Envelope {
    Envelope { msg_type: None, platform: None, gpu: None, ws1_id: None, ws2_id: None }
}

#[test]
fn envelope_fields_are_read_by_type() {
    let env = parse_envelope(r#"{"type":110,"platform":"linux","gpu":7,"ws1Id":"abc","ws2Id":null}"#).unwrap();
    assert_eq!(env.msg_type, Some(110));
    assert_eq!(env.platform.as_deref(), Some("linux"));
    assert_eq!(env.gpu, None);
    assert_eq!(env.ws1_id.as_deref(), Some("abc"));
    assert_eq!(env.ws2_id, None);
}

#[test]
fn envelope_type_must_be_unsigned_integer() {
    assert_eq!(parse_envelope(r#"{"type":-1}"#).unwrap().msg_type, None);
    assert_eq!(parse_envelope(r#"{"type":"110"}"#).unwrap().msg_type, None);
    assert_eq!(parse_envelope(r#"{"type":1.5}"#).unwrap().msg_type, None);
}

#[test]
fn non_object_json_has_no_fields() {
    let env = parse_envelope("[1,2,3]").unwrap();
    assert_eq!(env.msg_type, None);
    assert_eq!(env.ws1_id, None);
    assert!(parse_envelope("42").is_ok());
}

#[test]
fn invalid_json_is_an_error() {
    assert!(parse_envelope("").is_err());
    assert!(parse_envelope("{\"a\":").is_err());
    assert!(!parse_envelope("{").unwrap_err().is_empty());
}

#[test]
fn target_session_by_client_type() {
    let env = Envelope { ws1_id: Some("s".to_string()), ws2_id: Some("r".to_string()), ..empty_envelope() };
    assert_eq!(get_target_session_id(&env, ClientType::Receiver).as_deref(), Some("s"));
    assert_eq!(get_target_session_id(&env, ClientType::Sender).as_deref(), Some("r"));
    assert_eq!(get_target_session_id(&empty_envelope(), ClientType::Sender), None);
}

#[test]
fn apply_message_with_parser_error_reports_it() {
    let mut s = AppState::new(false, false);
    s.connect("s1".to_string(), ClientType::Sender, AuthInfo::default(), 0);
    let out = s.apply_message(&"s1".to_string(), ClientType::Sender, "x", Err("bad input".to_string()), 1);
    assert_eq!(out.len(), 1);
    assert!(matches!(&out[0].notice, Notice::Failure { code, message } if *code == SENDER_ERROR && message == "bad input"));
}

#[test]
fn apply_message_records_platform() {
    let mut s = AppState::new(false, false);
    s.connect("r1".to_string(), ClientType::Receiver, AuthInfo::default(), 0);
    s.connect("s1".to_string(), ClientType::Sender, AuthInfo::default(), 0);
    let env = Envelope {
        msg_type: Some(110),
        platform: Some("win".to_string()),
        gpu: Some("amd".to_string()),
        ..empty_envelope()
    };
    let out = s.apply_message(&"s1".to_string(), ClientType::Sender, "ignored", Ok(env), 2);
    assert_eq!(out.len(), 1);
    assert_eq!(out[0].to, "r1");
    let senders = s.get_senders(&None);
    assert_eq!(senders[0].platform.as_deref(), Some("win"));
    assert_eq!(senders[0].gpu.as_deref(), Some("amd"));
}

#[test]
fn apply_message_relays_the_raw_text() {
    let mut s = AppState::new(false, false);
    s.connect("s1".to_string(), ClientType::Sender, AuthInfo::default(), 0);
    s.connect("r1".to_string(), ClientType::Receiver, AuthInfo::default(), 0);
    let env = Envelope { ws1_id: Some("s1".to_string()), ..empty_envelope() };
    let out = s.apply_message(&"r1".to_string(), ClientType::Receiver, "raw text", Ok(env), 3);
    assert_eq!(out.len(), 1);
    assert_eq!(out[0].to, "s1");
    assert!(matches!(&out[0].notice, Notice::Relay { text } if text == "raw text"));
}

#[test]
fn platform_info_from_unregistered_sender_lists_all() {
    let mut s = AppState::new(false, false);
    s.connect("r1".to_string(), ClientType::Receiver, AuthInfo::default(), 0);
    let env = Envelope { msg_type: Some(110), ..empty_envelope() };
    let out = s.apply_message(&"gone".to_string(), ClientType::Sender, "{}", Ok(env), 0);
    assert_eq!(out.len(), 1);
    assert_eq!(out[0].to, "r1");
}

#[test]
fn parser_error_names_line_and_column() {
    let message = parse_envelope("{\n  \"a\" 1}").unwrap_err();
    assert!(message.contains("line 2"));
    assert!(message.contains("column"));
}

#[test]
fn handle_message_reads_the_clients_own_text() {
    let mut s = AppState::new(false, false);
    s.connect("s1".to_string(), ClientType::Sender, AuthInfo::default(), 0);
    s.connect("r1".to_string(), ClientType::Receiver, AuthInfo::default(), 0);
    let out = s.handle_message(&"r1".to_string(), ClientType::Receiver, r#"{"ws1Id":"s1"}"#, 0);
    assert!(matches!(&out[0].notice, Notice::Relay { .. }));
    let out = s.handle_message(&"r1".to_string(), ClientType::Receiver, r#"{"ws1Id":"nobody"}"#, 0);
    assert!(matches!(&out[0].notice, Notice::Failure { .. }));
}
