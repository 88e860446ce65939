//! The clients of the gateway's keys and what each does with relay events.
//!
//! Connecting, subscribing and sending are left to the caller. This module
//! says what to connect with, what to subscribe to, which events to look into
//! and what to tell the broker.

use rand::RngCore;
use vstd::hash_map::StringHashMap;
use vstd::prelude::*;
use vstd::string::*;

use crate::error::AppError;
use crate::json::{append_json, json_string};
use crate::keys::{KeyPair, KeyPairModel, key_models};
use crate::nostr::{
    event_id_to_hex, is_secret_key, npub_text, parse_public_key, parse_secret_key, parsed_public, parsed_secret,
    public_key, public_key_of, public_key_to_bech32, unix_now, ClockReading,
};
use crate::seen::{after_event, event_ids, is_seen_list, SeenEvents};
use crate::text::{hex_text, texts};

verus! {

/// The kind of the events that carry private messages.
pub const GIFT_WRAP_KIND: u16 = 1059;

/// How far back a subscription reaches, in seconds: two days, as gift wraps
/// are backdated by up to that much.
pub const SUBSCRIPTION_SPAN: u64 = 172_800;

/// Copies a list of texts.
fn copy_texts(list: &Vec<String>) -> (copy: Vec<String>)
    ensures
        texts(copy@) == texts(list@),
{
    let mut copy: Vec<String> = Vec::new();
    let mut i: usize = 0;
    while i < list.len()
        invariant
            i <= list.len(),
            copy.len() == i,
            forall|j: int| 0 <= j < i ==> #[trigger] copy[j]@ == list[j]@,
        decreases list.len() - i,
    {
        copy.push(list[i].clone());
        i = i + 1;
    }
    assert(texts(copy@) =~= texts(list@));
    copy
}

/// `hex::encode`: two lowercase hexadecimal digits for each byte.
#[verifier::external_body]
fn hex_encode(bytes: &[u8; 8]) -> (text: String)
    ensures
        text@ == hex_text(bytes@),
{
    hex::encode(bytes)
}

/// Eight bytes that were drawn at random.
pub struct DrawnBytes {
    bytes: [u8; 8],
}

impl View for DrawnBytes {
    type V = Seq<u8>;

    closed spec fn view(&self) -> Seq<u8> {
        self.bytes@
    }
}

impl DrawnBytes {
    /// The bytes.
    pub fn bytes(&self) -> (bytes: &[u8; 8])
        ensures
            bytes@ == self@,
    {
        &self.bytes
    }
}

/// `OsRng::fill_bytes` on eight bytes. The bytes are random; nothing is
/// claimed of them.
#[verifier::external_body]
fn random_bytes() -> (bytes: DrawnBytes) {
    let mut bytes = [0u8; 8];
    rand::rngs::OsRng.fill_bytes(&mut bytes);
    DrawnBytes { bytes }
}

/// What a client asks its relays for: the events of one kind that are
/// addressed to a public key and not older than a time.
pub struct Subscription {
    pub id: String,
    pub kind: u16,
    pub public_key: [u8; 32],
    pub since: u64,
    /// The clock's time and the random bytes that the subscription was made
    /// with, where they were taken for it.
    pub made_with: Option<(ClockReading, DrawnBytes)>,
}

/// The time from which a subscription made at some time reaches.
pub open spec fn subscription_start(now: u64) -> u64 {
    if now >= SUBSCRIPTION_SPAN {
        (now - SUBSCRIPTION_SPAN) as u64
    } else {
        0
    }
}

/// Whether a subscription is the one for a public key, at a time, with an
/// identifier made of some bytes.
pub open spec fn is_gift_wrap_subscription(
    subscription: Subscription,
    public: Seq<u8>,
    now: u64,
    id: Seq<u8>,
) -> bool {
    &&& subscription.id@ == hex_text(id)
    &&& subscription.kind == GIFT_WRAP_KIND
    &&& subscription.public_key@ == public
    &&& subscription.since == subscription_start(now)
}

impl Subscription {
    /// The subscription to the private messages for a public key.
    pub fn gift_wraps(public_key: [u8; 32], now: u64, id: [u8; 8]) -> (subscription: Self)
        ensures
            is_gift_wrap_subscription(subscription, public_key@, now, id@),
    {
        let since: u64 = if now >= SUBSCRIPTION_SPAN {
            now - SUBSCRIPTION_SPAN
        } else {
            0
        };
        Subscription {
            id: hex_encode(&id),
            kind: GIFT_WRAP_KIND,
            public_key,
            since,
            made_with: None,
        }
    }
}

/// A private message that was unwrapped: who wrote it, and its text.
pub struct Gift {
    pub sender: [u8; 32],
    pub content: String,
}

/// A private message to send.
pub struct DirectMessage {
    pub recipient: [u8; 32],
    pub content: String,
}

/// What it takes to bring up a client: its state, the secret key to sign with,
/// and the relays to connect to, in their order.
pub struct Dial {
    pub client: NostrClient,
    pub secret: [u8; 32],
    pub relays: Vec<String>,
}

/// Whether a dial is the one for a public key text, a secret key and a list of
/// relays.
pub open spec fn is_dial(
    dial: Dial,
    npub: Seq<char>,
    secret: Seq<u8>,
    relays: Seq<Seq<char>>,
) -> bool {
    &&& dial.client.wf()
    &&& dial.client.npub_text() == npub
    &&& dial.client.public_key_bytes() == public_key_of(secret)
    &&& dial.client.seen_events() == Seq::<(Seq<char>, u128)>::empty()
    &&& dial.secret@ == secret
    &&& texts(dial.relays@) == relays
}

/// The outcome of preparing a client for a key: a dial if the secret key text
/// holds a secret key, and an error otherwise.
pub open spec fn is_connect_outcome(
    outcome: Result<Dial, AppError>,
    npub: Seq<char>,
    nsec: Seq<char>,
    relays: Seq<Seq<char>>,
) -> bool {
    match parsed_secret(nsec) {
        Some(secret) => outcome is Ok && is_dial(outcome->Ok_0, npub, secret, relays),
        None => outcome matches Err(AppError::Nostr(text)) && text@ == bad_nsec_text(),
    }
}

/// What is said of a text that holds no secret key.
pub open spec fn bad_nsec_text() -> Seq<char> {
    "parse nsec failed: "@ + "Invalid secret key"@
}

/// What is said of a recipient that is no public key.
pub open spec fn bad_npub_text() -> Seq<char> {
    "invalid npub: "@ + "Invalid public key"@
}

/// What is said of a sender that has no client.
pub open spec fn no_client_text(npub: Seq<char>) -> Seq<char> {
    "no client for "@ + npub
}

/// The outcome of preparing a private message: the message if the recipient's
/// text holds a public key, and an error otherwise.
pub open spec fn is_message_outcome(
    outcome: Result<DirectMessage, AppError>,
    to_npub: Seq<char>,
    content: Seq<char>,
) -> bool {
    match parsed_public(to_npub) {
        Some(public) => {
            &&& outcome is Ok
            &&& outcome->Ok_0.recipient@ == public
            &&& outcome->Ok_0.content@ == content
        },
        None => outcome matches Err(AppError::Nostr(text)) && text@ == bad_npub_text(),
    }
}

/// What the broker is told of a private message that came in.
pub open spec fn dm_received_text(
    from_npub: Seq<char>,
    to_npub: Seq<char>,
    content: Seq<char>,
) -> Seq<char> {
    "{\"content\":"@ + (json_string(content) + (",\"from_npub\":"@ + (json_string(from_npub) + (
    ",\"to_npub\":"@ + (json_string(to_npub) + ",\"type\":\"dm_received\"}"@)))))
}

/// The state of the client of one key.
pub struct NostrClient {
    npub: String,
    public_key: [u8; 32],
    seen: SeenEvents,
}

impl NostrClient {
    /// Whether the client's state is sound.
    pub closed spec fn wf(&self) -> bool {
        self.seen.wf()
    }

    /// The public key text that the client was made for.
    pub closed spec fn npub_text(&self) -> Seq<char> {
        self.npub@
    }

    /// The public key that the client receives messages for.
    pub closed spec fn public_key_bytes(&self) -> Seq<u8> {
        self.public_key@
    }

    /// The events that the client remembers, with their times, in the order of
    /// arrival.
    pub closed spec fn seen_events(&self) -> Seq<(Seq<char>, u128)> {
        self.seen@
    }

    /// Prepares the client of a key.
    pub fn connect(npub: &str, nsec: &str, relays: &Vec<String>) -> (dial: Result<Dial, AppError>)
        ensures
            is_connect_outcome(dial, npub@, nsec@, texts(relays@)),
    {
        dial_for(npub, parse_secret_key(nsec), relays)
    }

    /// The subscription to make once the client is connected: its own private
    /// messages, as of the clock's time, under a new random identifier.
    pub fn subscription(&self) -> (subscription: Subscription)
        ensures
            subscription.made_with is Some,
            subscription.made_with->Some_0.1@.len() == 8,
            is_gift_wrap_subscription(
                subscription,
                self.public_key_bytes(),
                subscription.made_with->Some_0.0@,
                subscription.made_with->Some_0.1@,
            ),
    {
        let now = unix_now();
        let id = random_bytes();
        let subscription = Subscription::gift_wraps(self.public_key, now.seconds(), *id.bytes());
        Subscription { made_with: Some((now, id)), ..subscription }
    }

    /// Takes note of an event from a relay and tells whether to unwrap it: it
    /// has to be a gift wrap that was not seen before.
    pub fn listen(&mut self, kind: u16, id: &[u8; 32], now: u128) -> (unwrap: bool)
        requires
            old(self).wf(),
        ensures
            final(self).wf(),
            final(self).npub_text() == old(self).npub_text(),
            final(self).public_key_bytes() == old(self).public_key_bytes(),
            is_seen_list(final(self).seen_events()),
            unwrap == (kind == GIFT_WRAP_KIND && !event_ids(old(self).seen_events()).contains(
                hex_text(id@),
            )),
            final(self).seen_events() == if kind == GIFT_WRAP_KIND {
                after_event(old(self).seen_events(), hex_text(id@), now)
            } else {
                old(self).seen_events()
            },
    {
        if kind != GIFT_WRAP_KIND {
            return false;
        }
        let eid: String = event_id_to_hex(id);
        self.seen.observe(eid, now)
    }

    /// What to tell the broker of an event that was unwrapped. An event that
    /// could not be unwrapped is for somebody else, and nothing is told.
    pub fn received(&self, gift: Option<Gift>) -> (text: Result<Option<String>, AppError>)
        ensures
            text is Ok,
            match gift {
                Some(gift) => text->Ok_0 is Some && text->Ok_0->Some_0@ == dm_received_text(
                    npub_text(gift.sender@),
                    self.npub_text(),
                    gift.content@,
                ),
                None => text->Ok_0 is None,
            },
    {
        match gift {
            Some(gift) => {
                let from_npub: String = public_key_to_bech32(&gift.sender);
                let mut out = "{\"content\":".to_owned();
                append_json(&mut out, gift.content.as_str())?;
                out.append(",\"from_npub\":");
                append_json(&mut out, from_npub.as_str())?;
                out.append(",\"to_npub\":");
                append_json(&mut out, self.npub.as_str())?;
                out.append(",\"type\":\"dm_received\"}");
                assert(out@ =~= dm_received_text(
                    npub_text(gift.sender@),
                    self.npub_text(),
                    gift.content@,
                ));
                Ok(Some(out))
            },
            None => Ok(None),
        }
    }

    /// Prepares a private message.
    pub fn send_dm(to_npub: &str, content: &str) -> (message: Result<DirectMessage, AppError>)
        ensures
            is_message_outcome(message, to_npub@, content@),
    {
        message_for(parse_public_key(to_npub), content)
    }
}

/// Prepares the client of a key, given the secret key that its text was parsed
/// into or the reason why it does not parse.
pub fn dial_for(
    npub: &str,
    parsed: Result<[u8; 32], String>,
    relays: &Vec<String>,
) -> (dial: Result<Dial, AppError>)
    requires
        parsed is Ok ==> is_secret_key(parsed->Ok_0@),
    ensures
        match parsed {
            Ok(secret) => dial is Ok && is_dial(dial->Ok_0, npub@, secret@, texts(relays@)),
            Err(reason) => match dial {
                Err(AppError::Nostr(text)) => text@ == "parse nsec failed: "@ + reason@,
                _ => false,
            },
        },
{
    match parsed {
        Ok(secret) => {
            let client = NostrClient {
                npub: npub.to_owned(),
                public_key: public_key(&secret),
                seen: SeenEvents::new(),
            };
            Ok(Dial { client, secret, relays: copy_texts(relays) })
        },
        Err(reason) => Err(
            AppError::Nostr("parse nsec failed: ".to_owned().concat(reason.as_str())),
        ),
    }
}

/// Prepares a private message, given the public key that the recipient's text
/// was parsed into or the reason why it does not parse.
pub fn message_for(parsed: Result<[u8; 32], String>, content: &str) -> (message: Result<
    DirectMessage,
    AppError,
>)
    ensures
        match parsed {
            Ok(recipient) => {
                &&& message is Ok
                &&& message->Ok_0.recipient@ == recipient@
                &&& message->Ok_0.content@ == content@
            },
            Err(reason) => match message {
                Err(AppError::Nostr(text)) => text@ == "invalid npub: "@ + reason@,
                _ => false,
            },
        },
{
    match parsed {
        Ok(recipient) => Ok(DirectMessage { recipient, content: content.to_owned() }),
        Err(reason) => Err(AppError::Nostr("invalid npub: ".to_owned().concat(reason.as_str()))),
    }
}

/// What to do to register a key.
pub enum AddKey {
    /// The key is registered, and there is nothing to do.
    AlreadyRegistered,
    /// A client is to be brought up and then handed to the pool.
    Connect(Dial),
}

/// What to do next to register a list of keys.
pub enum StartStep {
    /// All keys are registered.
    Done,
    /// A client is to be brought up for the key at an index and then handed to
    /// the pool.
    Connect(usize, Dial),
}

/// The clients of the registered keys, by their public key texts. A client is
/// whatever the caller uses to reach it.
#[verifier::reject_recursive_types(C)]
pub struct RelayPool<C> {
    clients: StringHashMap<C>,
    npubs: Vec<String>,
    relays: Vec<String>,
}

impl<C> View for RelayPool<C> {
    type V = Map<Seq<char>, C>;

    closed spec fn view(&self) -> Map<Seq<char>, C> {
        self.clients@
    }
}

/// Whether a list names each key of a map once.
pub open spec fn names_keys<C>(npubs: Seq<Seq<char>>, clients: Map<Seq<char>, C>) -> bool {
    &&& npubs.no_duplicates()
    &&& forall|npub: Seq<char>| #[trigger] npubs.contains(npub) <==> clients.contains_key(npub)
}

/// Whether the keys from one index up to another are registered.
pub open spec fn registered<C>(
    clients: Map<Seq<char>, C>,
    keys: Seq<KeyPairModel>,
    from: int,
    to: int,
) -> bool {
    forall|i: int| from <= i < to ==> clients.contains_key((#[trigger] keys[i]).npub)
}

/// Whether an error is that of the first key from an index on that is not
/// registered, whose secret key text holds no secret key.
pub open spec fn is_start_failure<C>(
    e: AppError,
    clients: Map<Seq<char>, C>,
    keys: Seq<KeyPairModel>,
    from: int,
    relays: Seq<Seq<char>>,
) -> bool {
    exists|index: int|
        from <= index < keys.len() && registered(clients, keys, from, index)
            && !clients.contains_key((#[trigger] keys[index]).npub) && is_connect_outcome(
            Err(e),
            keys[index].npub,
            keys[index].nsec,
            relays,
        )
}

impl<C> RelayPool<C> {
    /// Whether the pool's list of names and its clients agree.
    pub closed spec fn wf(&self) -> bool {
        names_keys(texts(self.npubs@), self.clients@)
    }

    /// The relays that clients are connected to.
    pub closed spec fn relay_texts(&self) -> Seq<Seq<char>> {
        texts(self.relays@)
    }

    /// A pool without clients.
    pub fn new(relays: Vec<String>) -> (pool: Self)
        ensures
            pool.wf(),
            pool@ == Map::<Seq<char>, C>::empty(),
            pool.relay_texts() == texts(relays@),
    {
        RelayPool { clients: StringHashMap::new(), npubs: Vec::new(), relays }
    }

    /// The next step on the way to register a list of keys, of which those
    /// before an index are dealt with. It is about the first key that is not
    /// registered, and fails if that key's secret key text holds no secret key.
    pub fn start(&self, keys: &Vec<KeyPair>, from: usize) -> (step: Result<StartStep, AppError>)
        requires
            from <= keys.len(),
        ensures
            step matches Ok(StartStep::Done) ==> registered(
                self@,
                key_models(keys@),
                from as int,
                keys.len() as int,
            ),
            step matches Ok(StartStep::Connect(index, dial)) ==> {
                &&& from <= index < keys.len()
                &&& registered(self@, key_models(keys@), from as int, index as int)
                &&& !self@.contains_key(keys[index as int].npub@)
                &&& is_connect_outcome(
                    Ok(dial),
                    keys[index as int].npub@,
                    keys[index as int].nsec@,
                    self.relay_texts(),
                )
            },
            step matches Err(e) ==> is_start_failure(
                e,
                self@,
                key_models(keys@),
                from as int,
                self.relay_texts(),
            ),
    {
        let mut i: usize = from;
        while i < keys.len()
            invariant
                from <= i <= keys.len(),
                registered(self@, key_models(keys@), from as int, i as int),
            decreases keys.len() - i,
        {
            match self.add_key(keys[i].npub.as_str(), keys[i].nsec.as_str()) {
                Ok(AddKey::AlreadyRegistered) => {
                    assert(key_models(keys@)[i as int].npub == keys[i as int].npub@);
                },
                Ok(AddKey::Connect(dial)) => {
                    return Ok(StartStep::Connect(i, dial));
                },
                Err(e) => {
                    assert(key_models(keys@)[i as int] == keys[i as int]@);
                    return Err(e);
                },
            }
            i = i + 1;
        }
        Ok(StartStep::Done)
    }

    /// What to do to register a key. Nothing if it is registered; otherwise a
    /// client is to be brought up, which fails if the secret key text holds no
    /// secret key.
    pub fn add_key(&self, npub: &str, nsec: &str) -> (step: Result<AddKey, AppError>)
        ensures
            self@.contains_key(npub@) ==> step == Ok::<AddKey, AppError>(
                AddKey::AlreadyRegistered,
            ),
            !self@.contains_key(npub@) ==> match step {
                Ok(AddKey::AlreadyRegistered) => false,
                Ok(AddKey::Connect(dial)) => is_connect_outcome(
                    Ok(dial),
                    npub@,
                    nsec@,
                    self.relay_texts(),
                ),
                Err(e) => is_connect_outcome(Err(e), npub@, nsec@, self.relay_texts()),
            },
    {
        if self.clients.contains_key(npub) {
            return Ok(AddKey::AlreadyRegistered);
        }
        match NostrClient::connect(npub, nsec, &self.relays) {
            Ok(dial) => Ok(AddKey::Connect(dial)),
            Err(e) => Err(e),
        }
    }

    /// Registers the client that was brought up for a key. It takes the place
    /// of one that was registered meanwhile.
    pub fn connected(&mut self, npub: &str, client: C)
        requires
            old(self).wf(),
        ensures
            final(self).wf(),
            final(self)@ == old(self)@.insert(npub@, client),
            final(self).relay_texts() == old(self).relay_texts(),
    {
        let name: String = npub.to_owned();
        if !self.clients.contains_key(npub) {
            self.npubs.push(name.clone());
            proof {
                let before = texts(old(self).npubs@);
                let names = texts(self.npubs@);
                assert(names =~= before.push(npub@));
                assert(!before.contains(npub@));
                assert forall|other: Seq<char>| #[trigger]
                    names.contains(other) == (before.contains(other) || other == npub@) by {
                    if before.contains(other) {
                        let i = choose|i: int| 0 <= i < before.len() && before[i] == other;
                        assert(names[i] == other);
                    }
                    assert(names[before.len() as int] == npub@);
                }
            }
        }
        self.clients.insert(name, client);
    }

    /// Prepares a private message from a registered key: the client to send it
    /// with, and the message.
    pub fn send_dm(&self, from_npub: &str, to_npub: &str, content: &str) -> (outcome: Result<
        (&C, DirectMessage),
        AppError,
    >)
        ensures
            !self@.contains_key(from_npub@) ==> match outcome {
                Err(AppError::Nostr(text)) => text@ == no_client_text(from_npub@),
                _ => false,
            },
            self@.contains_key(from_npub@) ==> match outcome {
                Ok((client, message)) => {
                    &&& *client == self@[from_npub@]
                    &&& is_message_outcome(Ok(message), to_npub@, content@)
                },
                Err(e) => is_message_outcome(Err(e), to_npub@, content@),
            },
    {
        match self.clients.get(from_npub) {
            Some(client) => match NostrClient::send_dm(to_npub, content) {
                Ok(message) => Ok((client, message)),
                Err(e) => Err(e),
            },
            None => Err(AppError::Nostr("no client for ".to_owned().concat(from_npub))),
        }
    }

    /// The public key texts of the registered keys, each once.
    pub fn all_npubs(&self) -> (npubs: Vec<String>)
        requires
            self.wf(),
        ensures
            names_keys(texts(npubs@), self@),
    {
        copy_texts(&self.npubs)
    }
}

}
