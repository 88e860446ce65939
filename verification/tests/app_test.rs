use nostr_sdk::{Keys, ToBech32};
use rs_p2_gateway::app::{
    dm_sent, forward, handle_broker_text, handle_socket, key_saved, BrokerAction, BrokerMessage,
    ChannelEvent, ForwardStep, KeyAssigned, SocketFrame, SocketStep,
};
use rs_p2_gateway::error::AppError;
use rs_p2_gateway::keys::{KeyPair, KeyStore, KeysFile, StoredKeys};
use rs_p2_gateway::relay::RelayPool;

fn store(keys: Vec<KeyPair>) -> KeyStore {
    let parsed = Some(KeysFile { version: 1, keys });
    KeyStore::new("keys.json".to_string(), StoredKeys::Found { text: String::new(), parsed }).unwrap()
}

fn pool() -> RelayPool<u32> {
    RelayPool::new(vec!["wss://relay".to_string()])
}

fn pair(npub: &str, nsec: &str, cwd: &str) -> KeyPair {
    KeyPair {
        npub: npub.to_string(),
        nsec: nsec.to_string(),
        cwd: cwd.to_string(),
        created_at: "now".to_string(),
    }
}

fn request(cwd: &str) -> Result<BrokerMessage, String> {
    Ok(BrokerMessage::RequestKey { cwd: cwd.to_string() })
}

fn register(npub: &str) -> Result<BrokerMessage, String> {
    Ok(BrokerMessage::Register { npub: npub.to_string() })
}

fn send(from: &str, to: &str) -> Result<BrokerMessage, String> {
    Ok(BrokerMessage::SendDm {
        from_npub: from.to_string(),
        to_npub: to.to_string(),
        content: "hello".to_string(),
    })
}

#[test]
fn a_text_that_does_not_parse_is_an_error() {
    let mut keys = store(vec![]);
    match handle_broker_text(Err("expected value at line 1".to_string()), &mut keys, &pool()) {
        Err(AppError::Json(text)) => {
            assert_eq!(text, "failed to parse broker message: expected value at line 1")
        }
        _ => panic!("expected an error"),
    };
    assert_eq!(keys.len(), 0);
}

#[test]
fn a_known_key_is_sent_at_once() {
    let mut keys = store(vec![pair("npub1a", "nsec1a", "/a\"b")]);
    match handle_broker_text(request("/a\"b"), &mut keys, &pool()).unwrap() {
        BrokerAction::Reply(text) => assert_eq!(
            text,
            r#"{"type":"key_assigned","cwd":"/a\"b","npub":"npub1a","nsec":"nsec1a"}"#
        ),
        _ => panic!("expected a reply"),
    };
    assert_eq!(keys.len(), 1);
}

#[test]
fn a_new_key_is_saved_and_then_sent() {
    let mut keys = store(vec![]);
    let pool = pool();
    let (file, assigned) = match handle_broker_text(request("/new"), &mut keys, &pool).unwrap() {
        BrokerAction::SaveKey(file, assigned) => (file, assigned),
        _ => panic!("expected a file to write"),
    };
    assert_eq!(assigned.cwd, "/new");
    assert_eq!(keys.get_nsec_by_npub(&assigned.npub), Some(assigned.nsec.clone()));
    let parsed: serde_json::Value = serde_json::from_str(&file).unwrap();
    assert_eq!(parsed["keys"][0]["npub"].as_str().unwrap(), assigned.npub);
    let reply = key_saved(&assigned, Ok(())).unwrap();
    match handle_broker_text(request("/new"), &mut keys, &pool).unwrap() {
        BrokerAction::Reply(again) => assert_eq!(again, reply),
        _ => panic!("expected a reply"),
    };
    let value: serde_json::Value = serde_json::from_str(&reply).unwrap();
    assert_eq!(value["type"], "key_assigned");
    assert_eq!(value["nsec"].as_str().unwrap(), assigned.nsec);
}

#[test]
fn a_key_that_could_not_be_saved_is_an_error() {
    let assigned = KeyAssigned {
        cwd: "/a".to_string(),
        npub: "n".to_string(),
        nsec: "s".to_string(),
    };
    match key_saved(&assigned, Err(AppError::Io("disk full".to_string()))) {
        Err(e) => assert_eq!(e.to_string(), "key error: io error: disk full"),
        Ok(_) => panic!("expected an error"),
    }
}

#[test]
fn registering_a_key_brings_up_its_client() {
    let secret = Keys::generate();
    let npub = secret.public_key().to_bech32().unwrap();
    let nsec = secret.secret_key().to_bech32().unwrap();
    let mut keys = store(vec![pair(&npub, &nsec, "/a"), pair("npub1bad", "nsec1bad", "/b")]);
    let mut pool = pool();
    match handle_broker_text(register(&npub), &mut keys, &pool).unwrap() {
        BrokerAction::Connect(dial) => {
            assert_eq!(dial.secret, secret.secret_key().to_secret_bytes());
            assert_eq!(dial.client.subscription().public_key, secret.public_key().to_bytes());
        }
        _ => panic!("expected a client to bring up"),
    };
    pool.connected(&npub, 1);
    assert!(matches!(
        handle_broker_text(register(&npub), &mut keys, &pool),
        Ok(BrokerAction::AlreadyRegistered)
    ));
    assert!(matches!(
        handle_broker_text(register("npub1xxxx"), &mut keys, &pool),
        Ok(BrokerAction::UnknownKey)
    ));
    match handle_broker_text(register("npub1bad"), &mut keys, &pool).unwrap() {
        BrokerAction::UnusableKey(e) => {
            assert_eq!(e.to_string(), "nostr error: parse nsec failed: Invalid secret key")
        }
        _ => panic!("expected a key that cannot be used"),
    };
}

#[test]
fn a_key_is_requested_registered_and_used() {
    let mut keys = store(vec![]);
    let mut pool = pool();
    let assigned = match handle_broker_text(request("/work"), &mut keys, &pool).unwrap() {
        BrokerAction::SaveKey(_, assigned) => assigned,
        _ => panic!("expected a file to write"),
    };
    let secret = match handle_broker_text(register(&assigned.npub), &mut keys, &pool).unwrap() {
        BrokerAction::Connect(dial) => dial.secret,
        _ => panic!("expected a client to bring up"),
    };
    let own = Keys::parse(&assigned.nsec).unwrap();
    assert_eq!(secret, own.secret_key().to_secret_bytes());
    pool.connected(&assigned.npub, 3);
    assert!(matches!(
        handle_broker_text(register(&assigned.npub), &mut keys, &pool),
        Ok(BrokerAction::AlreadyRegistered)
    ));
    match handle_broker_text(send(&assigned.npub, &assigned.npub), &mut keys, &pool).unwrap() {
        BrokerAction::SendDm(client, message) => {
            assert_eq!(*client, 3);
            assert_eq!(message.recipient, own.public_key().to_bytes());
        }
        _ => panic!("expected a message to send"),
    };
}

#[test]
fn a_message_from_a_registered_key_is_sent() {
    let to = Keys::generate().public_key();
    let mut keys = store(vec![]);
    let mut pool = pool();
    pool.connected("npub1me", 7);
    match handle_broker_text(send("npub1me", &to.to_bech32().unwrap()), &mut keys, &pool).unwrap() {
        BrokerAction::SendDm(client, message) => {
            assert_eq!(*client, 7);
            assert_eq!(message.recipient, to.to_bytes());
            assert_eq!(message.content, "hello");
        }
        _ => panic!("expected a message to send"),
    };
}

#[test]
fn a_message_that_cannot_be_sent_is_answered_with_the_error() {
    let mut keys = store(vec![]);
    let mut pool = pool();
    match handle_broker_text(send("npub1me", "npub1xxxx"), &mut keys, &pool).unwrap() {
        BrokerAction::Reply(text) => assert_eq!(
            text,
            r#"{"type":"dm_sent","ok":false,"error":"nostr error: no client for npub1me"}"#
        ),
        _ => panic!("expected a reply"),
    };
    pool.connected("npub1me", 7);
    match handle_broker_text(send("npub1me", "npub1xxxx"), &mut keys, &pool).unwrap() {
        BrokerAction::Reply(text) => assert_eq!(
            text,
            r#"{"type":"dm_sent","ok":false,"error":"nostr error: invalid npub: Invalid public key"}"#
        ),
        _ => panic!("expected a reply"),
    };
}

#[test]
fn the_outcome_of_sending_is_told() {
    assert_eq!(dm_sent(Ok(())).unwrap(), r#"{"type":"dm_sent","ok":true}"#);
    assert_eq!(
        dm_sent(Err(AppError::Nostr("relay \"x\" not connected".to_string()))).unwrap(),
        r#"{"type":"dm_sent","ok":false,"error":"nostr error: relay \"x\" not connected"}"#
    );
}

#[test]
fn every_character_is_escaped_as_serde_json_does() {
    for code in (0u32..0x300).chain([0x2028, 0x2029, 0xffff, 0x1f600]) {
        let c = match char::from_u32(code) {
            Some(c) => c,
            None => continue,
        };
        let reply = dm_sent(Err(AppError::Io(c.to_string()))).unwrap();
        let expected = serde_json::to_string(&format!("io error: {}", c)).unwrap();
        assert_eq!(reply, format!(r#"{{"type":"dm_sent","ok":false,"error":{}}}"#, expected));
    }
}

#[test]
fn control_characters_have_their_documented_escapes() {
    let reply = dm_sent(Err(AppError::Io("\u{8}\t\n\u{c}\r\u{0}\u{1f}\"\\/\u{7f}".to_string())));
    assert_eq!(
        reply.unwrap(),
        concat_texts(&[
            r#"{"type":"dm_sent","ok":false,"error":"io error: "#,
            r#"\b\t\n\f\r\u0000\u001f\"\\/"#,
            "\u{7f}\"}",
        ])
    );
}

fn concat_texts(texts: &[&str]) -> String {
    texts.concat()
}

#[test]
fn frames_of_the_broker_connection() {
    match handle_socket(SocketFrame::Text("{}".to_string())) {
        SocketStep::Dispatch(text) => assert_eq!(text, "{}"),
        _ => panic!("expected a text to deal with"),
    }
    assert!(matches!(handle_socket(SocketFrame::Close), SocketStep::Stop));
    assert!(matches!(handle_socket(SocketFrame::Failed("reset".to_string())), SocketStep::Stop));
    assert!(matches!(handle_socket(SocketFrame::Other), SocketStep::Skip));
}

#[test]
fn the_channel_is_drained_until_it_is_closed() {
    match forward(ChannelEvent::Message("{}".to_string())) {
        ForwardStep::Send(text) => assert_eq!(text, "{}"),
        _ => panic!("expected a message to send"),
    }
    assert!(matches!(forward(ChannelEvent::Lagged), ForwardStep::Skip));
    assert!(matches!(forward(ChannelEvent::Closed), ForwardStep::Stop));
}
