use fpvjp_app::protocol::{
    get_target_protocol, ClientType, RECEIVER_ERROR, RECEIVER_SENDER_CLOSE, RECEIVER_SENDER_LIST,
    RECEIVER_SESSION_ID, SENDER_ERROR, SENDER_RECEIVER_CLOSE, SENDER_SESSION_ID,
};
use fpvjp_app::registry::{AppState, AuthInfo};
use fpvjp_app::relay::{Notice, Outgoing};

fn auth(sub: Option<&str>) -> AuthInfo {
    AuthInfo { sub: sub.map(String::from), email: None, name: None }
}

fn id(s: &str) -> String {
    s.to_string()
}

fn list_ids(notice: &Notice) -> Vec<String> {
    match notice {
        Notice::SenderList { senders } | Notice::ReceiverSession { senders, .. } => {
            senders.iter().map(|s| s.id.clone()).collect()
        }
        _ => panic!("not a sender list"),
    }
}

#[test]
fn from_protocol_ignores_case() {
    assert_eq!(ClientType::from_protocol("sender"), Some(ClientType::Sender));
    assert_eq!(ClientType::from_protocol("SeNdEr"), Some(ClientType::Sender));
    assert_eq!(ClientType::from_protocol("RECEIVER"), Some(ClientType::Receiver));
    assert_eq!(ClientType::from_protocol("viewer"), None);
    assert_eq!(ClientType::from_protocol(""), None);
    assert_eq!(ClientType::from_protocol("sender "), None);
}

#[test]
fn from_lowercase_name_is_exact() {
    assert_eq!(ClientType::from_lowercase_name(&id("receiver")), Some(ClientType::Receiver));
    assert_eq!(ClientType::from_lowercase_name(&id("Receiver")), None);
}

#[test]
fn protocol_name_round_trip() {
    for ct in [ClientType::Sender, ClientType::Receiver] {
        assert_eq!(ClientType::from_protocol(ct.as_str()), Some(ct));
    }
    assert_eq!(ClientType::Sender.as_str(), "sender");
    assert_eq!(ClientType::Receiver.as_str(), "receiver");
}

#[test]
fn target_protocol_is_the_other_type() {
    assert_eq!(get_target_protocol(ClientType::Sender), ClientType::Receiver);
    assert_eq!(get_target_protocol(ClientType::Receiver), ClientType::Sender);
}

#[test]
fn auth_defaults_to_anonymous() {
    let a = AuthInfo::default();
    assert!(!a.is_authenticated());
    assert!(auth(Some("u1")).is_authenticated());
    let named = AuthInfo { sub: None, email: None, name: Some("Ann".to_string()) };
    assert!(named.is_authenticated());
}

#[test]
fn sender_connect_notifies_receivers_then_itself() {
    let mut s = AppState::new(false, false);
    let out = s.connect(id("r1"), ClientType::Receiver, auth(None), 0);
    assert_eq!(out.len(), 1);
    assert_eq!(out[0].to, "r1");
    match &out[0].notice {
        Notice::ReceiverSession { session_id, senders } => {
            assert_eq!(session_id, "r1");
            assert!(senders.is_empty());
        }
        _ => panic!("expected the receiver's session id"),
    }
    assert_eq!(out[0].notice.type_code(), Some(RECEIVER_SESSION_ID));

    let out = s.connect(id("s1"), ClientType::Sender, auth(None), 0);
    assert_eq!(out.len(), 2);
    assert_eq!(out[0].to, "r1");
    assert_eq!(out[0].notice.type_code(), Some(RECEIVER_SENDER_LIST));
    assert_eq!(list_ids(&out[0].notice), vec![id("s1")]);
    assert_eq!(out[1].to, "s1");
    assert!(matches!(&out[1].notice, Notice::SenderSession { session_id } if session_id == "s1"));
    assert_eq!(out[1].notice.type_code(), Some(SENDER_SESSION_ID));
    assert_eq!(s.client_count(), 2);
}

#[test]
fn receiver_connect_lists_existing_senders_in_order() {
    let mut s = AppState::new(false, false);
    s.connect(id("s1"), ClientType::Sender, auth(None), 0);
    s.connect(id("s2"), ClientType::Sender, auth(None), 0);
    let out = s.connect(id("r1"), ClientType::Receiver, auth(None), 0);
    assert_eq!(list_ids(&out[0].notice), vec![id("s1"), id("s2")]);
    let senders = s.get_senders(&None);
    assert_eq!(senders.len(), 2);
    assert_eq!(senders[0].platform, None);
}

#[test]
fn subject_separates_sender_lists() {
    let mut s = AppState::new(false, false);
    s.connect(id("ra"), ClientType::Receiver, auth(Some("alice")), 0);
    s.connect(id("rb"), ClientType::Receiver, auth(Some("bob")), 0);
    let out = s.connect(id("sa"), ClientType::Sender, auth(Some("alice")), 0);
    assert_eq!(out.len(), 2);
    assert_eq!(out[0].to, "ra");
    assert_eq!(list_ids(&out[0].notice), vec![id("sa")]);
    s.connect(id("sb"), ClientType::Sender, auth(Some("bob")), 0);
    let out = s.connect(id("rb2"), ClientType::Receiver, auth(Some("bob")), 0);
    assert_eq!(list_ids(&out[0].notice), vec![id("sb")]);
    assert_eq!(s.get_senders(&Some(id("alice"))).len(), 1);
    assert_eq!(s.get_senders(&None).len(), 2);
    let bob = s.get_senders(&Some(id("bob")));
    assert_eq!(bob[0].id, "sb");
    assert_eq!(bob[0].sub.as_deref(), Some("bob"));
}

#[test]
fn anonymous_sender_is_announced_to_every_receiver() {
    let mut s = AppState::new(false, false);
    s.connect(id("ra"), ClientType::Receiver, auth(Some("alice")), 0);
    s.connect(id("rn"), ClientType::Receiver, auth(None), 0);
    let out = s.connect(id("s"), ClientType::Sender, auth(None), 0);
    let tos: Vec<&str> = out.iter().map(|o| o.to.as_str()).collect();
    assert_eq!(tos, vec!["ra", "rn", "s"]);
}

#[test]
fn message_is_relayed_to_named_sender_and_pairs() {
    let mut s = AppState::new(false, false);
    s.connect(id("s1"), ClientType::Sender, auth(None), 0);
    s.connect(id("r1"), ClientType::Receiver, auth(None), 0);
    let raw = r#"{"type":1,"ws1Id":"s1","sdp":"offer"}"#;
    let out = s.handle_message(&id("r1"), ClientType::Receiver, raw, 5);
    assert_eq!(out.len(), 1);
    assert_eq!(out[0].to, "s1");
    assert!(matches!(&out[0].notice, Notice::Relay { text } if text == raw));
    assert_eq!(out[0].notice.type_code(), None);
    assert_eq!(s.pair_target(&id("r1")), Some(id("s1")));

    let answer = r#"{"ws2Id":"r1","sdp":"answer"}"#;
    let out = s.handle_message(&id("s1"), ClientType::Sender, answer, 6);
    assert_eq!(out.len(), 1);
    assert_eq!(out[0].to, "r1");
    assert_eq!(s.pair_target(&id("s1")), Some(id("r1")));
}

#[test]
fn message_to_same_type_is_not_relayed() {
    let mut s = AppState::new(false, false);
    s.connect(id("r1"), ClientType::Receiver, auth(None), 0);
    s.connect(id("r2"), ClientType::Receiver, auth(None), 0);
    let out = s.handle_message(&id("r1"), ClientType::Receiver, r#"{"ws1Id":"r2"}"#, 0);
    assert_eq!(out.len(), 1);
    assert_eq!(out[0].to, "r1");
    match &out[0].notice {
        Notice::Failure { code, message } => {
            assert_eq!(*code, RECEIVER_ERROR);
            assert_eq!(message, "Target not found");
        }
        _ => panic!("expected an error"),
    }
    // the pairing is recorded all the same
    assert_eq!(s.pair_target(&id("r1")), Some(id("r2")));
}

#[test]
fn message_without_addressee_is_an_error() {
    let mut s = AppState::new(false, false);
    s.connect(id("s1"), ClientType::Sender, auth(None), 0);
    let out = s.handle_message(&id("s1"), ClientType::Sender, r#"{"ws1Id":"x"}"#, 0);
    assert_eq!(out.len(), 1);
    assert!(matches!(&out[0].notice, Notice::Failure { code, message }
        if *code == SENDER_ERROR && message == "Target not found"));
    assert_eq!(s.pair_target(&id("s1")), None);
}

#[test]
fn invalid_json_gets_parser_error() {
    let mut s = AppState::new(false, false);
    s.connect(id("s1"), ClientType::Sender, auth(None), 0);
    let out = s.handle_message(&id("s1"), ClientType::Sender, "{not json", 0);
    assert_eq!(out.len(), 1);
    assert_eq!(out[0].to, "s1");
    match &out[0].notice {
        Notice::Failure { code, message } => {
            assert_eq!(*code, SENDER_ERROR);
            assert!(!message.is_empty());
        }
        _ => panic!("expected an error"),
    }
}

#[test]
fn unregistered_session_gets_no_error() {
    let mut s = AppState::new(false, false);
    let out = s.handle_message(&id("ghost"), ClientType::Sender, "nope", 0);
    assert!(out.is_empty());
    let out = s.handle_message(&id("ghost"), ClientType::Receiver, r#"{"ws1Id":"x"}"#, 0);
    assert!(out.is_empty());
}

#[test]
fn non_string_addressee_is_ignored() {
    let mut s = AppState::new(false, false);
    s.connect(id("r1"), ClientType::Receiver, auth(None), 0);
    let out = s.handle_message(&id("r1"), ClientType::Receiver, r#"{"ws1Id":7}"#, 0);
    assert!(matches!(&out[0].notice, Notice::Failure { .. }));
    assert_eq!(s.pair_target(&id("r1")), None);
}

#[test]
fn platform_info_updates_sender_list() {
    let mut s = AppState::new(false, false);
    s.connect(id("r1"), ClientType::Receiver, auth(None), 0);
    s.connect(id("s1"), ClientType::Sender, auth(None), 0);
    let raw = r#"{"type":110,"platform":"linux","gpu":"nvidia"}"#;
    let out = s.handle_message(&id("s1"), ClientType::Sender, raw, 0);
    assert_eq!(out.len(), 1);
    assert_eq!(out[0].to, "r1");
    match &out[0].notice {
        Notice::SenderList { senders } => {
            assert_eq!(senders.len(), 1);
            assert_eq!(senders[0].platform.as_deref(), Some("linux"));
            assert_eq!(senders[0].gpu.as_deref(), Some("nvidia"));
        }
        _ => panic!("expected a sender list"),
    }
}

#[test]
fn platform_info_from_receiver_is_an_ordinary_message() {
    let mut s = AppState::new(false, false);
    s.connect(id("r1"), ClientType::Receiver, auth(None), 0);
    let out = s.handle_message(&id("r1"), ClientType::Receiver, r#"{"type":110,"platform":"x"}"#, 0);
    assert_eq!(out.len(), 1);
    assert!(matches!(&out[0].notice, Notice::Failure { code, .. } if *code == RECEIVER_ERROR));
}

#[test]
fn receiver_leaving_tells_paired_sender() {
    let mut s = AppState::new(false, false);
    s.connect(id("s1"), ClientType::Sender, auth(None), 0);
    s.connect(id("r1"), ClientType::Receiver, auth(None), 0);
    s.handle_message(&id("r1"), ClientType::Receiver, r#"{"ws1Id":"s1"}"#, 0);
    s.handle_message(&id("s1"), ClientType::Sender, r#"{"ws2Id":"r1"}"#, 0);
    let out = s.disconnect(&id("r1"), ClientType::Receiver);
    assert_eq!(out.len(), 1);
    assert_eq!(out[0].to, "s1");
    assert!(matches!(&out[0].notice, Notice::PeerClosed { code } if *code == SENDER_RECEIVER_CLOSE));
    assert!(!s.is_registered(&id("r1")));
    assert_eq!(s.pair_target(&id("r1")), None);
    assert_eq!(s.pair_target(&id("s1")), None);
    assert!(s.is_registered(&id("s1")));
}

#[test]
fn sender_leaving_tells_paired_receiver_and_updates_lists() {
    let mut s = AppState::new(false, false);
    s.connect(id("s1"), ClientType::Sender, auth(None), 0);
    s.connect(id("r1"), ClientType::Receiver, auth(None), 0);
    s.connect(id("r2"), ClientType::Receiver, auth(None), 0);
    s.handle_message(&id("s1"), ClientType::Sender, r#"{"ws2Id":"r1"}"#, 0);
    let out = s.disconnect(&id("s1"), ClientType::Sender);
    assert_eq!(out.len(), 3);
    assert_eq!(out[0].to, "r1");
    assert!(matches!(&out[0].notice, Notice::PeerClosed { code } if *code == RECEIVER_SENDER_CLOSE));
    assert_eq!(out[1].to, "r1");
    assert!(list_ids(&out[1].notice).is_empty());
    assert_eq!(out[2].to, "r2");
    assert_eq!(s.client_count(), 2);
}

#[test]
fn connect_then_disconnect_restores_state() {
    let mut s = AppState::new(false, false);
    s.connect(id("r1"), ClientType::Receiver, auth(None), 0);
    s.connect(id("s1"), ClientType::Sender, auth(None), 1);
    s.disconnect(&id("s1"), ClientType::Sender);
    assert_eq!(s.client_count(), 1);
    assert!(s.is_registered(&id("r1")));
    assert!(!s.is_registered(&id("s1")));
    assert!(s.get_senders(&None).is_empty());
}

#[test]
fn reconnect_under_same_id_replaces_client() {
    let mut s = AppState::new(false, false);
    s.connect(id("x"), ClientType::Sender, auth(None), 0);
    s.connect(id("x"), ClientType::Receiver, auth(None), 0);
    assert_eq!(s.client_count(), 1);
    assert!(s.get_senders(&None).is_empty());
}

const SEC: u64 = 1_000_000_000;

#[test]
fn idle_sessions_are_swept() {
    let hour: u64 = 3600 * SEC;
    let mut s = AppState::new(false, false);
    s.connect(id("old"), ClientType::Sender, auth(None), 0);
    s.connect(id("new"), ClientType::Receiver, auth(None), hour);
    s.handle_message(&id("new"), ClientType::Receiver, r#"{"ws1Id":"old"}"#, hour);
    // up to one hour and a fraction of a second idle is still active
    assert!(s.remove_inactive(hour + SEC - 1).is_empty());
    let swept = s.remove_inactive(hour + SEC);
    assert_eq!(swept, vec![id("old")]);
    assert!(!s.is_registered(&id("old")));
    assert!(s.is_registered(&id("new")));
    // pairings of the swept session are kept: only its own key is dropped
    assert_eq!(s.pair_target(&id("new")), Some(id("old")));
}

#[test]
fn sweep_drops_pairing_of_idle_session_and_its_peer() {
    let mut s = AppState::new(false, false);
    s.connect(id("a"), ClientType::Sender, auth(None), 0);
    s.connect(id("b"), ClientType::Receiver, auth(None), 10_000 * SEC);
    s.handle_message(&id("a"), ClientType::Sender, r#"{"ws2Id":"b"}"#, 0);
    s.handle_message(&id("b"), ClientType::Receiver, r#"{"ws1Id":"a"}"#, 10_000 * SEC);
    let swept = s.remove_inactive(10_000 * SEC);
    assert_eq!(swept, vec![id("a")]);
    assert_eq!(s.pair_target(&id("a")), None);
    assert_eq!(s.pair_target(&id("b")), None);
}

#[test]
fn messages_keep_session_active() {
    let mut s = AppState::new(false, false);
    s.connect(id("s"), ClientType::Sender, auth(None), 0);
    s.handle_message(&id("s"), ClientType::Sender, "{}", 3_000 * SEC);
    assert!(s.remove_inactive(3_000 * SEC + 3_601 * SEC - 1).is_empty());
    assert_eq!(s.remove_inactive(3_000 * SEC + 3_601 * SEC), vec![id("s")]);
}

#[test]
fn clock_going_backwards_counts_as_no_idle_time() {
    let mut s = AppState::new(false, false);
    s.connect(id("s"), ClientType::Sender, auth(None), 10_000 * SEC);
    assert!(s.remove_inactive(0).is_empty());
}

#[test]
fn open_session_draws_url_safe_id() {
    let mut s = AppState::new(true, true);
    let (sid, out) = s.open_session(ClientType::Sender, auth(None), 0);
    assert_eq!(sid.chars().count(), 8);
    assert!(sid.chars().all(|c| c.is_ascii_alphanumeric() || c == '_' || c == '-'));
    assert_eq!(out.len(), 1);
    assert_eq!(out[0].to, sid);
    assert!(s.is_registered(&sid));
    assert!(s.debug() && s.keep_alive());
}

#[test]
fn send_error_only_reaches_registered_sessions() {
    let mut s = AppState::new(false, false);
    s.connect(id("r"), ClientType::Receiver, auth(None), 0);
    let out: Vec<Outgoing> = s.send_error(&id("r"), ClientType::Receiver, id("boom"));
    assert_eq!(out.len(), 1);
    assert!(matches!(&out[0].notice, Notice::Failure { code, message } if *code == RECEIVER_ERROR && message == "boom"));
    assert!(s.send_error(&id("q"), ClientType::Receiver, id("boom")).is_empty());
    assert!(s.find_client_sender(ClientType::Receiver, &id("r")));
    assert!(!s.find_client_sender(ClientType::Sender, &id("r")));
}

#[test]
fn notify_sender_list_without_receivers_is_empty() {
    let mut s = AppState::new(false, false);
    s.connect(id("s"), ClientType::Sender, auth(None), 0);
    assert!(s.notify_sender_list(&None).is_empty());
}

#[test]
fn subject_lists_ignore_order_and_other_subjects() {
    let mut a = AppState::new(false, false);
    a.connect(id("r1"), ClientType::Receiver, auth(Some("u")), 0);
    a.connect(id("x"), ClientType::Sender, auth(Some("other")), 0);
    a.connect(id("s1"), ClientType::Sender, auth(Some("u")), 0);
    a.connect(id("s2"), ClientType::Sender, auth(Some("u")), 0);
    a.connect(id("r2"), ClientType::Receiver, auth(Some("u")), 0);

    let mut b = AppState::new(false, false);
    b.connect(id("s2"), ClientType::Sender, auth(Some("u")), 7 * SEC);
    b.connect(id("r2"), ClientType::Receiver, auth(Some("u")), 0);
    b.connect(id("y"), ClientType::Receiver, auth(None), 0);
    b.connect(id("r1"), ClientType::Receiver, auth(Some("u")), 3 * SEC);
    b.connect(id("s1"), ClientType::Sender, auth(Some("u")), 0);

    let sub = Some(id("u"));
    let summary = |s: &AppState| {
        let out = s.notify_sender_list(&sub);
        let mut tos: Vec<String> = out.iter().map(|o| o.to.clone()).collect();
        tos.sort();
        let mut lists: Vec<Vec<String>> = out
            .iter()
            .map(|o| {
                let mut ids = list_ids(&o.notice);
                ids.sort();
                ids
            })
            .collect();
        lists.dedup();
        (tos, lists)
    };
    let (tos_a, lists_a) = summary(&a);
    let (tos_b, lists_b) = summary(&b);
    assert_eq!(tos_a, vec![id("r1"), id("r2")]);
    assert_eq!(tos_a, tos_b);
    assert_eq!(lists_a, vec![vec![id("s1"), id("s2")]]);
    assert_eq!(lists_a, lists_b);
}
