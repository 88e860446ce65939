//! What the gateway does with the broker's messages, and its channel to the
//! broker.

use tokio::sync::broadcast;
use vstd::prelude::*;
use vstd::string::*;

use crate::broker::BrokerSender as BrokerSenderTrait;
use crate::error::{error_message, AppError};
use crate::json::{append_json, json_string};
use crate::keys::{
    is_made_for, key_for_cwd, key_for_npub, key_requested, KeyPairModel, KeyStore, KeysModel,
};
use crate::nostr::{parsed_public, parsed_secret};
use crate::relay::{
    bad_npub_text, bad_nsec_text, is_dial, no_client_text, AddKey, Dial, DirectMessage, RelayPool,
};

verus! {

/// A message from the broker.
#[derive(Debug)]
pub enum BrokerMessage {
    /// Asks for the key of a working directory.
    RequestKey { cwd: String },
    /// Asks to bring up the client of a key.
    Register { npub: String },
    /// Asks to send a private message.
    SendDm { from_npub: String, to_npub: String, content: String },
}

/// The answer to a request for a key.
pub struct KeyAssigned {
    pub cwd: String,
    pub npub: String,
    pub nsec: String,
}

/// The answer to a request to send a private message: the error, if it failed.
pub struct DmSent {
    pub error: Option<String>,
}

/// The text of the answer to a request for a key.
pub open spec fn key_assigned_text(
    cwd: Seq<char>,
    npub: Seq<char>,
    nsec: Seq<char>,
) -> Seq<char> {
    "{\"type\":\"key_assigned\",\"cwd\":"@ + (json_string(cwd) + (",\"npub\":"@ + (json_string(npub)
        + (",\"nsec\":"@ + (json_string(nsec) + "}"@)))))
}

/// The text of the answer to a request to send a private message.
pub open spec fn dm_sent_text(error: Option<Seq<char>>) -> Seq<char> {
    match error {
        None => "{\"type\":\"dm_sent\",\"ok\":true}"@,
        Some(text) => "{\"type\":\"dm_sent\",\"ok\":false,\"error\":"@ + (json_string(text) + "}"@),
    }
}

impl KeyAssigned {
    /// The text of the answer.
    pub fn to_text(&self) -> (text: Result<String, AppError>)
        ensures
            text is Ok,
            text->Ok_0@ == key_assigned_text(self.cwd@, self.npub@, self.nsec@),
    {
        let mut out = "{\"type\":\"key_assigned\",\"cwd\":".to_owned();
        append_json(&mut out, self.cwd.as_str())?;
        out.append(",\"npub\":");
        append_json(&mut out, self.npub.as_str())?;
        out.append(",\"nsec\":");
        append_json(&mut out, self.nsec.as_str())?;
        out.append("}");
        assert(out@ =~= key_assigned_text(self.cwd@, self.npub@, self.nsec@));
        Ok(out)
    }
}

impl DmSent {
    /// The text of the error, if there is one.
    pub open spec fn error_text(&self) -> Option<Seq<char>> {
        match self.error {
            Some(text) => Some(text@),
            None => None,
        }
    }

    /// The text of the answer.
    pub fn to_text(&self) -> (text: Result<String, AppError>)
        ensures
            text is Ok,
            text->Ok_0@ == dm_sent_text(self.error_text()),
    {
        match &self.error {
            None => Ok("{\"type\":\"dm_sent\",\"ok\":true}".to_owned()),
            Some(error) => {
                let mut out = "{\"type\":\"dm_sent\",\"ok\":false,\"error\":".to_owned();
                append_json(&mut out, error.as_str())?;
                out.append("}");
                assert(out@ =~= dm_sent_text(self.error_text()));
                Ok(out)
            },
        }
    }
}

/// What to do next about a message from the broker.
pub enum BrokerAction<'a, C> {
    /// Send a text to the broker.
    Reply(String),
    /// Write the keys file with this text, and go on with `key_saved`.
    SaveKey(String, KeyAssigned),
    /// Bring up a client, and hand it to the pool if that succeeds.
    Connect(Dial),
    /// Send a private message with a client, and go on with `dm_sent`.
    SendDm(&'a C, DirectMessage),
    /// Nothing: the key to register is registered.
    AlreadyRegistered,
    /// Nothing: the key to register is not in the key store.
    UnknownKey,
    /// Nothing: the key to register cannot be used.
    UnusableKey(AppError),
}

/// Whether an action answers a request for a key. A key that the store has is
/// sent at once; a new one is the last of the store, and its file is written
/// first.
pub open spec fn answers_request_key<C>(
    action: BrokerAction<'_, C>,
    before: KeysModel,
    cwd: Seq<char>,
    after: KeysModel,
) -> bool {
    match key_for_cwd(before.keys, cwd) {
        Some(pair) => {
            &&& after == before
            &&& action matches BrokerAction::Reply(text)
            &&& text@ == key_assigned_text(cwd, pair.npub, pair.nsec)
        },
        None => {
            &&& action matches BrokerAction::SaveKey(file, assigned)
            &&& key_requested(before, cwd, after, after.keys.last(), Some(file@))
            &&& assigned.cwd@ == cwd
            &&& assigned.npub@ == after.keys.last().npub
            &&& assigned.nsec@ == after.keys.last().nsec
        },
    }
}

/// Whether an action answers a request to register a key.
pub open spec fn answers_register<C>(
    action: BrokerAction<'_, C>,
    keys: Seq<KeyPairModel>,
    clients: Map<Seq<char>, C>,
    relays: Seq<Seq<char>>,
    npub: Seq<char>,
) -> bool {
    match key_for_npub(keys, npub) {
        None => action is UnknownKey,
        Some(pair) => if clients.contains_key(npub) {
            action is AlreadyRegistered
        } else {
            match parsed_secret(pair.nsec) {
                Some(secret) => {
                    &&& action matches BrokerAction::Connect(dial)
                    &&& is_dial(dial, npub, secret, relays)
                },
                None => {
                    &&& action matches BrokerAction::UnusableKey(AppError::Nostr(text))
                    &&& text@ == bad_nsec_text()
                },
            }
        },
    }
}

/// Whether an action is to send an error of a kind as the outcome of sending a
/// private message.
pub open spec fn replies_dm_error<C>(action: BrokerAction<'_, C>, reason: Seq<char>) -> bool {
    &&& action matches BrokerAction::Reply(text)
    &&& text@ == dm_sent_text(Some("nostr error: "@ + reason))
}

/// Whether an action answers a request to send a private message.
pub open spec fn answers_send_dm<C>(
    action: BrokerAction<'_, C>,
    clients: Map<Seq<char>, C>,
    from_npub: Seq<char>,
    to_npub: Seq<char>,
    content: Seq<char>,
) -> bool {
    if !clients.contains_key(from_npub) {
        replies_dm_error(action, no_client_text(from_npub))
    } else {
        match parsed_public(to_npub) {
            None => replies_dm_error(action, bad_npub_text()),
            Some(recipient) => {
                &&& action matches BrokerAction::SendDm(client, message)
                &&& *client == clients[from_npub]
                &&& message.recipient@ == recipient
                &&& message.content@ == content
            },
        }
    }
}

/// Decides what to do about a text from the broker, given the message that it
/// was parsed into or the reason why it does not parse.
pub fn handle_broker_text<'a, C>(
    parsed: Result<BrokerMessage, String>,
    key_store: &mut KeyStore,
    relay_pool: &'a RelayPool<C>,
) -> (action: Result<BrokerAction<'a, C>, AppError>)
    ensures
        final(key_store).path_text() == old(key_store).path_text(),
        match parsed {
            Err(reason) => {
                &&& final(key_store)@ == old(key_store)@
                &&& action matches Err(AppError::Json(text))
                &&& text@ == "failed to parse broker message: "@ + reason@
            },
            Ok(BrokerMessage::RequestKey { cwd }) => {
                &&& action is Ok
                &&& answers_request_key(
                    action->Ok_0,
                    old(key_store)@,
                    cwd@,
                    final(key_store)@,
                )
                &&& key_for_cwd(old(key_store)@.keys, cwd@) is Some ==> final(key_store).making()
                    == old(key_store).making()
                &&& key_for_cwd(old(key_store)@.keys, cwd@) is None ==> {
                    &&& final(key_store).making() is Some
                    &&& is_made_for(
                        final(key_store)@.keys.last(),
                        final(key_store).making()->Some_0,
                        old(key_store)@.keys,
                    )
                }
            },
            Ok(BrokerMessage::Register { npub }) => {
                &&& final(key_store)@ == old(key_store)@
                &&& action is Ok
                &&& answers_register(
                    action->Ok_0,
                    old(key_store)@.keys,
                    relay_pool@,
                    relay_pool.relay_texts(),
                    npub@,
                )
            },
            Ok(BrokerMessage::SendDm { from_npub, to_npub, content }) => {
                &&& final(key_store)@ == old(key_store)@
                &&& action is Ok
                &&& answers_send_dm(
                    action->Ok_0,
                    relay_pool@,
                    from_npub@,
                    to_npub@,
                    content@,
                )
            },
        },
{
    let msg = match parsed {
        Ok(msg) => msg,
        Err(reason) => return Err(
            AppError::Json("failed to parse broker message: ".to_owned().concat(reason.as_str())),
        ),
    };
    match msg {
        BrokerMessage::RequestKey { cwd } => {
            let request = match key_store.get_or_create_key(cwd.as_str()) {
                Ok(request) => request,
                Err(e) => return Err(AppError::Keys(e.to_string())),
            };
            let assigned = KeyAssigned { cwd, npub: request.pair.npub, nsec: request.pair.nsec };
            match request.file {
                Some(file) => Ok(BrokerAction::SaveKey(file, assigned)),
                None => Ok(BrokerAction::Reply(assigned.to_text()?)),
            }
        },
        BrokerMessage::Register { npub } => {
            match key_store.get_nsec_by_npub(npub.as_str()) {
                Some(nsec) => match relay_pool.add_key(npub.as_str(), nsec.as_str()) {
                    Ok(AddKey::AlreadyRegistered) => Ok(BrokerAction::AlreadyRegistered),
                    Ok(AddKey::Connect(dial)) => Ok(BrokerAction::Connect(dial)),
                    Err(e) => Ok(BrokerAction::UnusableKey(e)),
                },
                None => Ok(BrokerAction::UnknownKey),
            }
        },
        BrokerMessage::SendDm { from_npub, to_npub, content } => {
            match relay_pool.send_dm(from_npub.as_str(), to_npub.as_str(), content.as_str()) {
                Ok((client, message)) => Ok(BrokerAction::SendDm(client, message)),
                Err(e) => Ok(BrokerAction::Reply(dm_sent(Err(e))?)),
            }
        },
    }
}

/// What to tell the broker once the file of a new key was written, or an error
/// if it could not be written.
pub fn key_saved(assigned: &KeyAssigned, saved: Result<(), AppError>) -> (reply: Result<
    String,
    AppError,
>)
    ensures
        match saved {
            Ok(_) => reply is Ok && reply->Ok_0@ == key_assigned_text(
                assigned.cwd@,
                assigned.npub@,
                assigned.nsec@,
            ),
            Err(e) => match reply {
                Err(AppError::Keys(text)) => text@ == error_message(e),
                _ => false,
            },
        },
{
    match saved {
        Ok(_) => assigned.to_text(),
        Err(e) => Err(AppError::Keys(e.to_string())),
    }
}

/// What to tell the broker once a private message was sent or failed to be.
pub fn dm_sent(sent: Result<(), AppError>) -> (reply: Result<String, AppError>)
    ensures
        reply is Ok,
        reply->Ok_0@ == dm_sent_text(
            match sent {
                Ok(_) => None,
                Err(e) => Some(error_message(e)),
            },
        ),
{
    let answer = match sent {
        Ok(_) => DmSent { error: None },
        Err(e) => DmSent { error: Some(e.to_string()) },
    };
    answer.to_text()
}

/// What comes in on the broker's connection.
pub enum SocketFrame {
    /// A text.
    Text(String),
    /// The broker closes the connection.
    Close,
    /// The connection failed, for the reason given.
    Failed(String),
    /// Anything else.
    Other,
}

/// What to do about what came in on the broker's connection.
pub enum SocketStep {
    /// Deal with a text and read on.
    Dispatch(String),
    /// Stop reading.
    Stop,
    /// Read on.
    Skip,
}

/// Decides what to do about what came in on the broker's connection.
pub fn handle_socket(frame: SocketFrame) -> (step: SocketStep)
    ensures
        step == match frame {
            SocketFrame::Text(text) => SocketStep::Dispatch(text),
            SocketFrame::Close => SocketStep::Stop,
            SocketFrame::Failed(_) => SocketStep::Stop,
            SocketFrame::Other => SocketStep::Skip,
        },
{
    match frame {
        SocketFrame::Text(text) => SocketStep::Dispatch(text),
        SocketFrame::Close => SocketStep::Stop,
        SocketFrame::Failed(_) => SocketStep::Stop,
        SocketFrame::Other => SocketStep::Skip,
    }
}

/// What a broker's connection finds in the channel to the broker.
pub enum ChannelEvent {
    /// A message.
    Message(String),
    /// The connection was too slow, and some messages are gone.
    Lagged,
    /// There will be no more messages.
    Closed,
}

/// What to do about what was found in the channel to the broker.
pub enum ForwardStep {
    /// Send a message over the connection and look for the next.
    Send(String),
    /// Look for the next message.
    Skip,
    /// Stop looking.
    Stop,
}

/// Decides what to do about what was found in the channel to the broker. The
/// channel is drained until it is closed; messages that are gone are skipped.
pub fn forward(event: ChannelEvent) -> (step: ForwardStep)
    ensures
        step == match event {
            ChannelEvent::Message(text) => ForwardStep::Send(text),
            ChannelEvent::Lagged => ForwardStep::Skip,
            ChannelEvent::Closed => ForwardStep::Stop,
        },
{
    match event {
        ChannelEvent::Message(text) => ForwardStep::Send(text),
        ChannelEvent::Lagged => ForwardStep::Skip,
        ChannelEvent::Closed => ForwardStep::Stop,
    }
}

/// `tokio::sync::broadcast::Sender`, a handle to a channel that other threads
/// share.
#[verifier::external_type_specification]
#[verifier::external_body]
#[verifier::reject_recursive_types(T)]
pub struct ExSender<T>(broadcast::Sender<T>);

/// `tokio::sync::broadcast::Receiver`, a subscription to such a channel.
#[verifier::external_type_specification]
#[verifier::external_body]
#[verifier::reject_recursive_types(T)]
pub struct ExReceiver<T>(broadcast::Receiver<T>);

/// The messages that are handed to a channel over its life, whether or not
/// there is a receiver for them.
pub uninterp spec fn sent_messages(tx: broadcast::Sender<String>) -> Set<Seq<char>>;

/// The capacity that was asked for when a channel was made.
pub uninterp spec fn channel_capacity(tx: broadcast::Sender<String>) -> nat;

/// The messages that a receiver is given over its life.
pub uninterp spec fn received_messages(rx: broadcast::Receiver<String>) -> Set<Seq<char>>;

/// `tokio::sync::broadcast::channel`, of which the sending half is kept: a
/// channel that holds at least so many messages for a receiver. A capacity of
/// zero is not allowed, and space is set aside for it at once, so that it has
/// to be small.
#[verifier::external_body]
fn broadcast_channel(capacity: usize) -> (tx: broadcast::Sender<String>)
    requires
        0 < capacity <= 65_536,
    ensures
        channel_capacity(tx) == capacity,
{
    broadcast::channel(capacity).0
}

/// `Sender::send`. Whether there is a receiver depends on other threads: with
/// none, the message is handed back; otherwise it is kept for the receivers,
/// of which there is at least one. How many there are, and when each of them
/// takes the message, is not said.
#[verifier::external_body]
fn broadcast_send(tx: &broadcast::Sender<String>, message: String) -> (sent: Result<usize, String>)
    ensures
        match sent {
            Ok(receivers) => receivers >= 1 && sent_messages(*tx).contains(message@),
            Err(back) => back@ == message@ && sent_messages(*tx).contains(message@),
        },
{
    tx.send(message).map_err(|e| e.0)
}

/// `Sender::subscribe`: a receiver of what is sent from now on. All that it is
/// ever given was sent through this channel. Which of the messages it is given
/// depends on other threads, and is not said.
#[verifier::external_body]
fn broadcast_subscribe(tx: &broadcast::Sender<String>) -> (rx: broadcast::Receiver<String>)
    ensures
        received_messages(rx).subset_of(sent_messages(*tx)),
{
    tx.subscribe()
}

/// The messages that the channel to the broker holds for a slow connection.
pub const BROKER_CAPACITY: usize = 100;

/// The gateway's end of the channel to the broker.
pub struct BrokerSender {
    tx: broadcast::Sender<String>,
}

impl BrokerSender {
    /// The messages that are sent over the life of the channel.
    pub closed spec fn messages(&self) -> Set<Seq<char>> {
        sent_messages(self.tx)
    }

    /// The number of messages that are held at least for a slow connection.
    pub closed spec fn capacity(&self) -> nat {
        channel_capacity(self.tx)
    }

    /// A channel to which no broker is connected.
    pub fn new() -> (sender: Self)
        ensures
            sender.capacity() == BROKER_CAPACITY == 100,
    {
        BrokerSender { tx: broadcast_channel(BROKER_CAPACITY) }
    }

    /// Sends a message to every broker that is connected. With none, the
    /// message is dropped, which is no error.
    pub fn send(&self, msg: &str) -> (sent: Result<(), AppError>)
        ensures
            sent is Ok,
            self.messages().contains(msg@),
    {
        let _ = broadcast_send(&self.tx, msg.to_owned());
        Ok(())
    }

    /// The messages for a broker that connects now. They are messages that
    /// were sent with this sender.
    pub fn subscribe(&self) -> (rx: broadcast::Receiver<String>)
        ensures
            received_messages(rx).subset_of(self.messages()),
    {
        broadcast_subscribe(&self.tx)
    }
}

impl Default for BrokerSender {
    fn default() -> (sender: Self)
        ensures
            sender.capacity() == BROKER_CAPACITY,
    {
        BrokerSender::new()
    }
}

impl BrokerSenderTrait for BrokerSender {
    fn send(&self, msg: &str) -> (sent: Result<(), AppError>)
        ensures
            sent is Ok,
            self.messages().contains(msg@),
    {
        BrokerSender::send(self, msg)
    }
}

}
