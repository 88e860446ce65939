use nostr_sdk::{Keys, ToBech32};
use rs_p2_gateway::error::AppError;
use rs_p2_gateway::keys::KeyPair;
use rs_p2_gateway::relay::{
    dial_for, message_for, AddKey, Gift, NostrClient, RelayPool, StartStep, Subscription,
    GIFT_WRAP_KIND,
};
use rs_p2_gateway::seen::{SeenEvents, MAX_SEEN, SEEN_TTL};

const NSEC: &str = "nsec1vl029mgpspedva04g90vltkh6fvh240zqtv9k0t9af8935ke9laqsnlfe5";
const SECRET_HEX: &str = "67dea2ed018072d675f5415ecfaed7d2597555e202d85b3d65ea4e58d2d92ffa";

fn relays() -> Vec<String> {
    vec!["wss://a".to_string(), "wss://b".to_string()]
}

fn event_id(n: u32) -> [u8; 32] {
    let mut id = [0u8; 32];
    id[28..].copy_from_slice(&n.to_be_bytes());
    id
}

fn client() -> NostrClient {
    NostrClient::connect("npub1me", NSEC, &relays()).unwrap().client
}

fn key(nsec: &str) -> KeyPair {
    KeyPair {
        npub: format!("npub of {}", nsec),
        nsec: nsec.to_string(),
        cwd: "/".to_string(),
        created_at: "now".to_string(),
    }
}

#[test]
fn a_client_is_dialled_with_its_own_key() {
    let dial = NostrClient::connect("npub1me", NSEC, &relays()).unwrap();
    assert_eq!(hex::encode(dial.secret), SECRET_HEX);
    assert_eq!(dial.relays, relays());
    let expected = Keys::parse(NSEC).unwrap().public_key().to_bytes();
    assert_eq!(dial.client.subscription().public_key, expected);
}

#[test]
fn a_malformed_secret_key_cannot_be_dialled() {
    for bad in ["", "nsec1", "npub1xxxx", "0000", "not a key"] {
        match NostrClient::connect("npub1me", bad, &relays()) {
            Err(AppError::Nostr(text)) => {
                assert_eq!(text, "parse nsec failed: Invalid secret key")
            }
            _ => panic!("expected an error for {}", bad),
        }
    }
}

#[test]
fn a_subscription_reaches_two_days_back() {
    let subscription = Subscription::gift_wraps([7; 32], 1_000_000, [0, 1, 15, 16, 255, 171, 0, 9]);
    assert_eq!(subscription.id, "00010f10ffab0009");
    assert_eq!(subscription.kind, 1059);
    assert_eq!(subscription.public_key, [7; 32]);
    assert_eq!(subscription.since, 827_200);
    assert_eq!(Subscription::gift_wraps([7; 32], 172_800, [0; 8]).since, 0);
    assert_eq!(Subscription::gift_wraps([7; 32], 172_799, [0; 8]).since, 0);
    assert_eq!(Subscription::gift_wraps([7; 32], u64::MAX, [0; 8]).since, u64::MAX - 172_800);
}

#[test]
fn a_live_subscription_is_recent_and_unique() {
    let client = client();
    let first = client.subscription();
    let second = client.subscription();
    assert_eq!(first.kind, GIFT_WRAP_KIND);
    assert_eq!(first.id.len(), 16);
    assert!(first.id.chars().all(|c| c.is_ascii_hexdigit()));
    assert_ne!(first.id, second.id);
    let now = nostr_sdk::Timestamp::now().as_u64();
    assert!(first.since <= now - 172_800 && first.since + 60 >= now - 172_800);
}

#[test]
fn an_event_is_unwrapped_once() {
    let mut client = client();
    assert!(client.listen(GIFT_WRAP_KIND, &event_id(1), 0));
    assert!(!client.listen(GIFT_WRAP_KIND, &event_id(1), 1));
    assert!(client.listen(GIFT_WRAP_KIND, &event_id(2), 2));
    assert!(!client.listen(GIFT_WRAP_KIND, &event_id(1), SEEN_TTL * 10));
}

#[test]
fn other_kinds_are_ignored_and_not_remembered() {
    let mut client = client();
    assert!(!client.listen(1, &event_id(1), 0));
    assert!(!client.listen(1058, &event_id(1), 0));
    assert!(client.listen(GIFT_WRAP_KIND, &event_id(1), 0));
}

#[test]
fn expired_events_are_forgotten_above_the_limit() {
    let mut seen = SeenEvents::new();
    for i in 0..MAX_SEEN {
        assert!(seen.observe(format!("{}", i), 10));
    }
    // At the limit nothing is forgotten, however old.
    assert!(!seen.observe("0".to_string(), 10 + SEEN_TTL));
    // One more, and the expired ones go.
    assert!(seen.observe("more".to_string(), 10 + SEEN_TTL));
    assert!(!seen.observe("more".to_string(), 10 + SEEN_TTL));
    assert!(seen.observe("0".to_string(), 10 + SEEN_TTL));
}

#[test]
fn the_oldest_event_goes_when_none_has_expired() {
    let mut seen = SeenEvents::new();
    for i in 0..MAX_SEEN {
        assert!(seen.observe(format!("{}", i), 11));
    }
    assert!(seen.observe("more".to_string(), 10 + SEEN_TTL));
    assert!(!seen.observe("more".to_string(), 10 + SEEN_TTL));
    for i in 1..MAX_SEEN {
        assert!(!seen.observe(format!("{}", i), 10 + SEEN_TTL));
    }
    assert!(seen.observe("0".to_string(), 10 + SEEN_TTL));
    assert!(seen.observe("1".to_string(), 10 + SEEN_TTL));
    assert!(!seen.observe("more".to_string(), 10 + SEEN_TTL));
}

#[test]
fn no_more_events_than_the_limit_are_remembered() {
    let mut seen = SeenEvents::new();
    let total = MAX_SEEN + 10;
    for i in 0..total {
        assert!(seen.observe(format!("{}", i), 0));
    }
    for i in 10..total {
        assert!(!seen.observe(format!("{}", i), 1));
    }
    for i in 0..10 {
        assert!(seen.observe(format!("{}", i), 1));
    }
}

#[test]
fn a_client_remembers_no_more_than_the_limit() {
    let mut client = client();
    for n in 0..5001 {
        assert!(client.listen(GIFT_WRAP_KIND, &event_id(n), 0));
    }
    assert!(!client.listen(GIFT_WRAP_KIND, &event_id(5000), 0));
    assert!(!client.listen(GIFT_WRAP_KIND, &event_id(1), 0));
    assert!(client.listen(GIFT_WRAP_KIND, &event_id(0), 0));
}

#[test]
fn what_follows_a_parsed_key() {
    let secret = Keys::parse(NSEC).unwrap().secret_key().to_secret_bytes();
    let dial = dial_for("npub1me", Ok(secret), &relays()).unwrap();
    assert_eq!(dial.secret, secret);
    assert_eq!(dial.relays, relays());
    match dial_for("npub1me", Err("why".to_string()), &relays()) {
        Err(AppError::Nostr(text)) => assert_eq!(text, "parse nsec failed: why"),
        _ => panic!("expected an error"),
    }
    let message = message_for(Ok([9; 32]), "hi").unwrap();
    assert_eq!(message.recipient, [9; 32]);
    assert_eq!(message.content, "hi");
    match message_for(Err("why".to_string()), "hi") {
        Err(AppError::Nostr(text)) => assert_eq!(text, "invalid npub: why"),
        _ => panic!("expected an error"),
    }
}

#[test]
fn a_private_message_is_told_to_the_broker() {
    let sender = Keys::generate().public_key();
    let content = "say \"hi\"\n\\ \u{1}é".to_string();
    let gift = Gift { sender: sender.to_bytes(), content: content.clone() };
    let text = client().received(Some(gift)).unwrap().unwrap();
    let mut map = serde_json::Map::new();
    map.insert("type".to_string(), serde_json::Value::from("dm_received"));
    map.insert(
        "from_npub".to_string(),
        serde_json::Value::from(sender.to_bech32().unwrap()),
    );
    map.insert("to_npub".to_string(), serde_json::Value::from("npub1me"));
    map.insert("content".to_string(), serde_json::Value::from(content));
    assert_eq!(text, serde_json::Value::Object(map).to_string());
}

#[test]
fn a_message_for_somebody_else_is_not_told() {
    assert!(client().received(None).unwrap().is_none());
}

#[test]
fn a_private_message_is_prepared() {
    let recipient = Keys::generate().public_key();
    for to in [
        recipient.to_bech32().unwrap(),
        recipient.to_hex(),
        format!("nostr:{}", recipient.to_bech32().unwrap()),
    ] {
        let message = NostrClient::send_dm(&to, "hello").unwrap();
        assert_eq!(message.recipient, recipient.to_bytes());
        assert_eq!(message.content, "hello");
    }
}

#[test]
fn a_malformed_recipient_is_refused() {
    match NostrClient::send_dm("npub1xxxx", "hello") {
        Err(AppError::Nostr(text)) => assert_eq!(text, "invalid npub: Invalid public key"),
        _ => panic!("expected an error"),
    }
}

#[test]
fn a_registered_key_is_left_alone() {
    let mut pool: RelayPool<u32> = RelayPool::new(relays());
    match pool.add_key("npub1me", NSEC).unwrap() {
        AddKey::Connect(dial) => assert_eq!(dial.relays, relays()),
        AddKey::AlreadyRegistered => panic!("nothing is registered yet"),
    }
    pool.connected("npub1me", 1);
    assert!(matches!(pool.add_key("npub1me", NSEC), Ok(AddKey::AlreadyRegistered)));
    assert!(matches!(pool.add_key("npub1me", "bad"), Ok(AddKey::AlreadyRegistered)));
    assert!(matches!(pool.add_key("npub1you", "bad"), Err(AppError::Nostr(_))));
    assert_eq!(pool.all_npubs(), vec!["npub1me"]);
}

#[test]
fn a_second_client_replaces_the_first() {
    let mut pool: RelayPool<u32> = RelayPool::new(relays());
    let to = Keys::generate().public_key().to_bech32().unwrap();
    pool.connected("npub1me", 1);
    pool.connected("npub1me", 2);
    pool.connected("npub1you", 3);
    assert_eq!(*pool.send_dm("npub1me", &to, "x").unwrap().0, 2);
    let mut npubs = pool.all_npubs();
    npubs.sort();
    assert_eq!(npubs, vec!["npub1me", "npub1you"]);
}

#[test]
fn a_message_needs_a_client_and_a_recipient() {
    let mut pool: RelayPool<u32> = RelayPool::new(relays());
    let to = Keys::generate().public_key();
    let npub = to.to_bech32().unwrap();
    match pool.send_dm("npub1me", "npub1xxxx", "x") {
        Err(AppError::Nostr(text)) => assert_eq!(text, "no client for npub1me"),
        _ => panic!("expected an error"),
    }
    pool.connected("npub1me", 1);
    match pool.send_dm("npub1me", "npub1xxxx", "x") {
        Err(AppError::Nostr(text)) => assert_eq!(text, "invalid npub: Invalid public key"),
        _ => panic!("expected an error"),
    }
    let (client, message) = pool.send_dm("npub1me", &npub, "x").unwrap();
    assert_eq!(*client, 1);
    assert_eq!(message.recipient, to.to_bytes());
    assert_eq!(message.content, "x");
}

#[test]
fn all_keys_are_registered_in_order() {
    let mut pool: RelayPool<usize> = RelayPool::new(relays());
    let secret = || Keys::generate().secret_key().to_bech32().unwrap();
    let first = key(&secret());
    let keys = vec![first.clone(), first, key(&secret())];
    let mut order = vec![];
    let mut from = 0;
    while let StartStep::Connect(index, dial) = pool.start(&keys, from).unwrap() {
        let parsed = Keys::parse(&keys[index].nsec).unwrap();
        assert_eq!(dial.secret, parsed.secret_key().to_secret_bytes());
        pool.connected(&keys[index].npub, index);
        order.push(index);
        from = index + 1;
    }
    assert_eq!(order, vec![0, 2]);
    assert!(matches!(pool.start(&keys, 0), Ok(StartStep::Done)));
}

#[test]
fn starting_stops_at_a_key_that_cannot_be_used() {
    let mut pool: RelayPool<usize> = RelayPool::new(relays());
    let keys = vec![key(NSEC), key("bad"), key(NSEC)];
    pool.connected(&keys[0].npub, 0);
    assert!(matches!(pool.start(&keys, 0), Err(AppError::Nostr(_))));
}
