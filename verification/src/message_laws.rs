//! What holds of the exchange with the broker as a whole.

use vstd::prelude::*;

use crate::app::{
    answers_register, answers_request_key, answers_send_dm, dm_sent_text, key_assigned_text,
    BrokerAction,
};
use crate::json::{json_string, law_json_string_cancel};
use crate::json_object::{
    json_member, law_json_member_of_object, lemma_unescaped, member_of, members_text, object_text,
    scalar_text, JsonScalar,
};
use crate::key_laws::{law_nsec_of_new_key, law_requested_key_is_held};
use crate::keys::{
    is_new_pair, is_pair_of, key_for_cwd, key_for_npub, KeyPairModel, KeysModel,
};
use crate::nostr::{npub_text, nsec_text, parsed_public, public_key_of};
use crate::relay::{dm_received_text, registered};
use crate::text::lemma_prefix_cancel;

verus! {

/// The answer to a request for a key tells the directory and both texts of the
/// key.
pub proof fn law_key_assigned_text_injective(
    cwd: Seq<char>,
    npub: Seq<char>,
    nsec: Seq<char>,
    other_cwd: Seq<char>,
    other_npub: Seq<char>,
    other_nsec: Seq<char>,
)
    requires
        key_assigned_text(cwd, npub, nsec) == key_assigned_text(other_cwd, other_npub, other_nsec),
    ensures
        cwd == other_cwd,
        npub == other_npub,
        nsec == other_nsec,
{
    let p1 = "{\"type\":\"key_assigned\",\"cwd\":"@;
    let p2 = ",\"npub\":"@;
    let p3 = ",\"nsec\":"@;
    let end = "}"@;
    let (a2, b2) = (p3 + (json_string(nsec) + end), p3 + (json_string(other_nsec) + end));
    let (a1, b1) = (p2 + (json_string(npub) + a2), p2 + (json_string(other_npub) + b2));
    lemma_prefix_cancel(p1, json_string(cwd) + a1, json_string(other_cwd) + b1);
    law_json_string_cancel(cwd, a1, other_cwd, b1);
    lemma_prefix_cancel(p2, json_string(npub) + a2, json_string(other_npub) + b2);
    law_json_string_cancel(npub, a2, other_npub, b2);
    lemma_prefix_cancel(p3, json_string(nsec) + end, json_string(other_nsec) + end);
    law_json_string_cancel(nsec, end, other_nsec, end);
}

/// The answer to a request to send a private message tells whether it failed
/// and why.
pub proof fn law_dm_sent_text_injective(error: Option<Seq<char>>, other: Option<Seq<char>>)
    requires
        dm_sent_text(error) == dm_sent_text(other),
    ensures
        error == other,
{
    let failed = "{\"type\":\"dm_sent\",\"ok\":false,\"error\":"@;
    let end = "}"@;
    reveal_strlit("{\"type\":\"dm_sent\",\"ok\":true}");
    reveal_strlit("{\"type\":\"dm_sent\",\"ok\":false,\"error\":");
    match (error, other) {
        (Some(a), Some(b)) => {
            lemma_prefix_cancel(failed, json_string(a) + end, json_string(b) + end);
            law_json_string_cancel(a, end, b, end);
        },
        (None, Some(_)) => {
            assert(dm_sent_text(error)[23] == 't');
            assert(dm_sent_text(other)[23] == 'f');
        },
        (Some(_), None) => {
            assert(dm_sent_text(error)[23] == 'f');
            assert(dm_sent_text(other)[23] == 't');
        },
        (None, None) => {},
    }
}

/// What the broker is told of a private message tells who wrote it, to whom,
/// and what.
pub proof fn law_dm_received_text_injective(
    from_npub: Seq<char>,
    to_npub: Seq<char>,
    content: Seq<char>,
    other_from: Seq<char>,
    other_to: Seq<char>,
    other_content: Seq<char>,
)
    requires
        dm_received_text(from_npub, to_npub, content) == dm_received_text(
            other_from,
            other_to,
            other_content,
        ),
    ensures
        from_npub == other_from,
        to_npub == other_to,
        content == other_content,
{
    let p1 = "{\"content\":"@;
    let p2 = ",\"from_npub\":"@;
    let p3 = ",\"to_npub\":"@;
    let end = ",\"type\":\"dm_received\"}"@;
    let (a2, b2) = (p3 + (json_string(to_npub) + end), p3 + (json_string(other_to) + end));
    let (a1, b1) = (p2 + (json_string(from_npub) + a2), p2 + (json_string(other_from) + b2));
    lemma_prefix_cancel(p1, json_string(content) + a1, json_string(other_content) + b1);
    law_json_string_cancel(content, a1, other_content, b1);
    lemma_prefix_cancel(p2, json_string(from_npub) + a2, json_string(other_from) + b2);
    law_json_string_cancel(from_npub, a2, other_from, b2);
    lemma_prefix_cancel(p3, json_string(to_npub) + end, json_string(other_to) + end);
    law_json_string_cancel(to_npub, end, other_to, end);
}

/// A broker that asks again for the key of a directory is sent the same text
/// that it was sent, or would have been sent once the file was written, the
/// first time; and the store stays as it is.
pub proof fn law_same_request_same_reply<C>(
    first: BrokerAction<'_, C>,
    second: BrokerAction<'_, C>,
    before: KeysModel,
    cwd: Seq<char>,
    between: KeysModel,
    after: KeysModel,
)
    requires
        answers_request_key(first, before, cwd, between),
        answers_request_key(second, between, cwd, after),
    ensures
        after == between,
        match (first, second) {
            (BrokerAction::Reply(text), BrokerAction::Reply(again)) => again@ == text@,
            (BrokerAction::SaveKey(_, assigned), BrokerAction::Reply(again)) => again@
                == key_assigned_text(assigned.cwd@, assigned.npub@, assigned.nsec@),
            _ => false,
        },
{
    if key_for_cwd(before.keys, cwd) is None {
        let file = first->SaveKey_0@;
        law_requested_key_is_held(before, cwd, between, between.keys.last(), Some(file));
    }
}

/// A key that was newly handed out can be registered: unless its public key
/// text already led to another secret key or has a client, the answer is to
/// bring up a client with the key's own secret key, which listens for the key's
/// own public key.
pub proof fn law_new_key_can_be_registered<C>(
    requested: BrokerAction<'_, C>,
    before: KeysModel,
    cwd: Seq<char>,
    after: KeysModel,
    action: BrokerAction<'_, C>,
    clients: Map<Seq<char>, C>,
    relays: Seq<Seq<char>>,
)
    requires
        key_for_cwd(before.keys, cwd) is None,
        answers_request_key(requested, before, cwd, after),
        key_for_npub(before.keys, after.keys.last().npub) is Some ==> key_for_npub(
            before.keys,
            after.keys.last().npub,
        )->Some_0.nsec == after.keys.last().nsec,
        !clients.contains_key(after.keys.last().npub),
        answers_register(action, after.keys, clients, relays, after.keys.last().npub),
    ensures
        action is Connect,
        action->Connect_0.client.npub_text() == after.keys.last().npub,
        action->Connect_0.client.public_key_bytes() == public_key_of(action->Connect_0.secret@),
        npub_text(public_key_of(action->Connect_0.secret@)) == after.keys.last().npub,
        nsec_text(action->Connect_0.secret@) == after.keys.last().nsec,
{
    let pair = after.keys.last();
    law_nsec_of_new_key(before, cwd, after, pair, Some(requested->SaveKey_0@));
    let secret = choose|secret: Seq<u8>| is_pair_of(pair, secret);
    assert(is_pair_of(pair, secret));
}

/// Registering is idempotent: once the client of a key that the store has was
/// handed to the pool, there is nothing to do to register the key again.
pub proof fn law_registered_key_is_left_alone<C>(
    action: BrokerAction<'_, C>,
    keys: Seq<KeyPairModel>,
    clients: Map<Seq<char>, C>,
    relays: Seq<Seq<char>>,
    npub: Seq<char>,
    client: C,
)
    requires
        key_for_npub(keys, npub) is Some,
        answers_register(action, keys, clients.insert(npub, client), relays, npub),
    ensures
        action is AlreadyRegistered,
{
}

/// A key whose client was registered can send: a private message from it to a
/// valid recipient is sent with that client.
pub proof fn law_registered_key_can_send<C>(
    action: BrokerAction<'_, C>,
    clients: Map<Seq<char>, C>,
    npub: Seq<char>,
    client: C,
    to_npub: Seq<char>,
    content: Seq<char>,
)
    requires
        parsed_public(to_npub) is Some,
        answers_send_dm(action, clients.insert(npub, client), npub, to_npub, content),
    ensures
        action is SendDm,
        *action->SendDm_0 == client,
        action->SendDm_1.content@ == content,
        Some(action->SendDm_1.recipient@) == parsed_public(to_npub),
{
}

/// A private message to a key that the store made goes to the public key of
/// that pair's secret key.
pub proof fn law_message_reaches_new_key<C>(
    action: BrokerAction<'_, C>,
    clients: Map<Seq<char>, C>,
    from_npub: Seq<char>,
    pair: KeyPairModel,
    cwd: Seq<char>,
    content: Seq<char>,
)
    requires
        is_new_pair(pair, cwd),
        clients.contains_key(from_npub),
        answers_send_dm(action, clients, from_npub, pair.npub, content),
    ensures
        action is SendDm,
        exists|secret: Seq<u8>|
            #[trigger] is_pair_of(pair, secret) && action->SendDm_1.recipient@ == public_key_of(
                secret,
            ),
{
    let secret = choose|secret: Seq<u8>| is_pair_of(pair, secret);
    assert(is_pair_of(pair, secret));
}

/// Registering a list of keys gets on: once the client for the next key that
/// is not registered is handed to the pool, the keys up to that one are
/// registered.
pub proof fn law_start_gets_on<C>(
    clients: Map<Seq<char>, C>,
    keys: Seq<KeyPairModel>,
    from: int,
    index: int,
    client: C,
)
    requires
        0 <= from <= index < keys.len(),
        registered(clients, keys, 0, from),
        registered(clients, keys, from, index),
    ensures
        registered(clients.insert(keys[index].npub, client), keys, 0, index + 1),
{
    let more = clients.insert(keys[index].npub, client);
    assert forall|i: int| 0 <= i < index + 1 implies more.contains_key(
        (#[trigger] keys[i]).npub,
    ) by {
        if i < from {
            assert(clients.contains_key(keys[i].npub));
        }
    }
}

/// What the broker is told of a private message is the JSON object whose
/// members are the message's text, its sender, its recipient and the kind of
/// message; read as such, each member has the value that its name says.
pub proof fn law_dm_received_members(
    from_npub: Seq<char>,
    to_npub: Seq<char>,
    content: Seq<char>,
)
    ensures
        dm_received_text(from_npub, to_npub, content) == object_text(
            seq![
                ("content"@, JsonScalar::Text(content)),
                ("from_npub"@, JsonScalar::Text(from_npub)),
                ("to_npub"@, JsonScalar::Text(to_npub)),
                ("type"@, JsonScalar::Text("dm_received"@)),
            ],
        ),
        json_member(dm_received_text(from_npub, to_npub, content), "content"@) == Some(
            JsonScalar::Text(content),
        ),
        json_member(dm_received_text(from_npub, to_npub, content), "from_npub"@) == Some(
            JsonScalar::Text(from_npub),
        ),
        json_member(dm_received_text(from_npub, to_npub, content), "to_npub"@) == Some(
            JsonScalar::Text(to_npub),
        ),
        json_member(dm_received_text(from_npub, to_npub, content), "type"@) == Some(
            JsonScalar::Text("dm_received"@),
        ),
{
    reveal_strlit("content");
    reveal_strlit("from_npub");
    reveal_strlit("to_npub");
    reveal_strlit("type");
    reveal_strlit("dm_received");
    reveal_strlit("{\"content\":");
    reveal_strlit(",\"from_npub\":");
    reveal_strlit(",\"to_npub\":");
    reveal_strlit(",\"type\":\"dm_received\"}");
    lemma_unescaped("content"@);
    lemma_unescaped("from_npub"@);
    lemma_unescaped("to_npub"@);
    lemma_unescaped("type"@);
    lemma_unescaped("dm_received"@);
    let m4 = seq![("type"@, JsonScalar::Text("dm_received"@))];
    let m3 = seq![("to_npub"@, JsonScalar::Text(to_npub))] + m4;
    let m2 = seq![("from_npub"@, JsonScalar::Text(from_npub))] + m3;
    let m1 = seq![("content"@, JsonScalar::Text(content))] + m2;
    lemma_drop(m1, m2);
    lemma_drop(m2, m3);
    lemma_drop(m3, m4);
    lemma_drop(m4, Seq::empty());
    let t4 = ",\"type\":\"dm_received\"}"@;
    let t3 = ",\"to_npub\":"@ + (json_string(to_npub) + t4);
    let t2 = ",\"from_npub\":"@ + (json_string(from_npub) + t3);
    assert(seq![','] + members_text(m4) =~= t4);
    assert(",\"to_npub\":"@ =~= seq![','] + (json_string("to_npub"@) + seq![':']));
    assert(seq![','] + members_text(m3) =~= t3);
    assert(",\"from_npub\":"@ =~= seq![','] + (json_string("from_npub"@) + seq![':']));
    assert(seq![','] + members_text(m2) =~= t2);
    assert("{\"content\":"@ =~= seq!['{'] + (json_string("content"@) + seq![':']));
    assert(object_text(m1) =~= dm_received_text(from_npub, to_npub, content));
    assert(m1 =~= seq![
        ("content"@, JsonScalar::Text(content)),
        ("from_npub"@, JsonScalar::Text(from_npub)),
        ("to_npub"@, JsonScalar::Text(to_npub)),
        ("type"@, JsonScalar::Text("dm_received"@)),
    ]);
    law_json_member_of_object(m1, "content"@);
    law_json_member_of_object(m1, "from_npub"@);
    law_json_member_of_object(m1, "to_npub"@);
    law_json_member_of_object(m1, "type"@);
    assert("content"@[0] == 'c' && "from_npub"@[0] == 'f');
    assert("to_npub"@.len() == 7 && "content"@.len() == 7 && "to_npub"@[0] == 't');
    assert("type"@.len() == 4);
    assert(member_of(m2, "from_npub"@) == Some(JsonScalar::Text(from_npub)));
    assert(member_of(m3, "to_npub"@) == Some(JsonScalar::Text(to_npub)));
    assert(member_of(m2, "to_npub"@) == member_of(m3, "to_npub"@));
    assert(member_of(m4, "type"@) == Some(JsonScalar::Text("dm_received"@)));
    assert(member_of(m3, "type"@) == member_of(m4, "type"@));
    assert(member_of(m2, "type"@) == member_of(m3, "type"@));
}

proof fn lemma_drop(
    members: Seq<(Seq<char>, JsonScalar)>,
    rest: Seq<(Seq<char>, JsonScalar)>,
)
    requires
        members.len() == rest.len() + 1,
        forall|i: int| 0 <= i < rest.len() ==> members[i + 1] == #[trigger] rest[i],
    ensures
        members.drop_first() == rest,
{
    assert(members.drop_first() =~= rest);
}

/// The answer to a request for a key is the JSON object whose members are the
/// kind of message, the directory, the public key and the secret key; read as
/// such, each member has the value that its name says.
pub proof fn law_key_assigned_members(cwd: Seq<char>, npub: Seq<char>, nsec: Seq<char>)
    ensures
        key_assigned_text(cwd, npub, nsec) == object_text(
            seq![
                ("type"@, JsonScalar::Text("key_assigned"@)),
                ("cwd"@, JsonScalar::Text(cwd)),
                ("npub"@, JsonScalar::Text(npub)),
                ("nsec"@, JsonScalar::Text(nsec)),
            ],
        ),
        json_member(key_assigned_text(cwd, npub, nsec), "type"@) == Some(
            JsonScalar::Text("key_assigned"@),
        ),
        json_member(key_assigned_text(cwd, npub, nsec), "cwd"@) == Some(JsonScalar::Text(cwd)),
        json_member(key_assigned_text(cwd, npub, nsec), "npub"@) == Some(JsonScalar::Text(npub)),
        json_member(key_assigned_text(cwd, npub, nsec), "nsec"@) == Some(JsonScalar::Text(nsec)),
{
    reveal_strlit("type");
    reveal_strlit("key_assigned");
    reveal_strlit("cwd");
    reveal_strlit("npub");
    reveal_strlit("nsec");
    reveal_strlit("{\"type\":\"key_assigned\",\"cwd\":");
    reveal_strlit(",\"npub\":");
    reveal_strlit(",\"nsec\":");
    reveal_strlit("}");
    lemma_unescaped("type"@);
    lemma_unescaped("key_assigned"@);
    lemma_unescaped("cwd"@);
    lemma_unescaped("npub"@);
    lemma_unescaped("nsec"@);
    let m4 = seq![("nsec"@, JsonScalar::Text(nsec))];
    let m3 = seq![("npub"@, JsonScalar::Text(npub))] + m4;
    let m2 = seq![("cwd"@, JsonScalar::Text(cwd))] + m3;
    let m1 = seq![("type"@, JsonScalar::Text("key_assigned"@))] + m2;
    lemma_drop(m1, m2);
    lemma_drop(m2, m3);
    lemma_drop(m3, m4);
    lemma_drop(m4, Seq::empty());
    let t4 = ",\"nsec\":"@ + (json_string(nsec) + "}"@);
    let t3 = ",\"npub\":"@ + (json_string(npub) + t4);
    assert("}"@ =~= seq!['}']);
    assert(",\"nsec\":"@ =~= seq![','] + (json_string("nsec"@) + seq![':']));
    assert(seq![','] + members_text(m4) =~= t4);
    assert(",\"npub\":"@ =~= seq![','] + (json_string("npub"@) + seq![':']));
    assert(seq![','] + members_text(m3) =~= t3);
    assert("{\"type\":\"key_assigned\",\"cwd\":"@ =~= seq!['{'] + (json_string("type"@) + (seq![':'] + (
    json_string("key_assigned"@) + (seq![','] + (json_string("cwd"@) + seq![':']))))));
    assert(members_text(m2) =~= json_string("cwd"@) + (seq![':'] + (json_string(cwd) + t3)));
    assert(object_text(m1) =~= key_assigned_text(cwd, npub, nsec));
    assert(m1 =~= seq![
        ("type"@, JsonScalar::Text("key_assigned"@)),
        ("cwd"@, JsonScalar::Text(cwd)),
        ("npub"@, JsonScalar::Text(npub)),
        ("nsec"@, JsonScalar::Text(nsec)),
    ]);
    law_json_member_of_object(m1, "type"@);
    law_json_member_of_object(m1, "cwd"@);
    law_json_member_of_object(m1, "npub"@);
    law_json_member_of_object(m1, "nsec"@);
    assert("cwd"@.len() == 3 && "type"@[0] == 't' && "npub"@[0] == 'n' && "nsec"@[0] == 'n');
    assert("npub"@[1] == 'p' && "nsec"@[1] == 's');
    assert(member_of(m2, "cwd"@) == Some(JsonScalar::Text(cwd)));
    assert(member_of(m3, "npub"@) == Some(JsonScalar::Text(npub)));
    assert(member_of(m2, "npub"@) == member_of(m3, "npub"@));
    assert(member_of(m4, "nsec"@) == Some(JsonScalar::Text(nsec)));
    assert(member_of(m3, "nsec"@) == member_of(m4, "nsec"@));
    assert(member_of(m2, "nsec"@) == member_of(m3, "nsec"@));
}

/// The answer to a request to send a private message is a JSON object. Of a
/// message that was sent it says that all is well and no more; of one that was
/// not it says so, and why.
pub proof fn law_dm_sent_members(error: Seq<char>)
    ensures
        dm_sent_text(None) == object_text(
            seq![("type"@, JsonScalar::Text("dm_sent"@)), ("ok"@, JsonScalar::Flag(true))],
        ),
        dm_sent_text(Some(error)) == object_text(
            seq![
                ("type"@, JsonScalar::Text("dm_sent"@)),
                ("ok"@, JsonScalar::Flag(false)),
                ("error"@, JsonScalar::Text(error)),
            ],
        ),
        json_member(dm_sent_text(None), "type"@) == Some(JsonScalar::Text("dm_sent"@)),
        json_member(dm_sent_text(None), "ok"@) == Some(JsonScalar::Flag(true)),
        json_member(dm_sent_text(None), "error"@) is None,
        json_member(dm_sent_text(Some(error)), "type"@) == Some(JsonScalar::Text("dm_sent"@)),
        json_member(dm_sent_text(Some(error)), "ok"@) == Some(JsonScalar::Flag(false)),
        json_member(dm_sent_text(Some(error)), "error"@) == Some(JsonScalar::Text(error)),
{
    reveal_strlit("type");
    reveal_strlit("dm_sent");
    reveal_strlit("ok");
    reveal_strlit("error");
    reveal_strlit("{\"type\":\"dm_sent\",\"ok\":true}");
    reveal_strlit("{\"type\":\"dm_sent\",\"ok\":false,\"error\":");
    reveal_strlit("}");
    lemma_unescaped("type"@);
    lemma_unescaped("dm_sent"@);
    lemma_unescaped("ok"@);
    lemma_unescaped("error"@);
    let s2 = seq![("ok"@, JsonScalar::Flag(true))];
    let s1 = seq![("type"@, JsonScalar::Text("dm_sent"@))] + s2;
    lemma_drop(s1, s2);
    lemma_drop(s2, Seq::empty());
    assert(members_text(s2) =~= json_string("ok"@) + (seq![':'] + (scalar_text(
        JsonScalar::Flag(true),
    ) + seq!['}'])));
    assert(object_text(s1) =~= dm_sent_text(None));
    assert(s1 =~= seq![("type"@, JsonScalar::Text("dm_sent"@)), ("ok"@, JsonScalar::Flag(true))]);
    let f3 = seq![("error"@, JsonScalar::Text(error))];
    let f2 = seq![("ok"@, JsonScalar::Flag(false))] + f3;
    let f1 = seq![("type"@, JsonScalar::Text("dm_sent"@))] + f2;
    lemma_drop(f1, f2);
    lemma_drop(f2, f3);
    lemma_drop(f3, Seq::empty());
    let end = json_string(error) + "}"@;
    assert("}"@ =~= seq!['}']);
    assert(members_text(f3) =~= json_string("error"@) + (seq![':'] + end));
    assert(members_text(f2) =~= json_string("ok"@) + (seq![':'] + (scalar_text(
        JsonScalar::Flag(false),
    ) + (seq![','] + (json_string("error"@) + (seq![':'] + end))))));
    assert("{\"type\":\"dm_sent\",\"ok\":false,\"error\":"@ =~= seq!['{'] + (json_string("type"@) + (
    seq![':'] + (json_string("dm_sent"@) + (seq![','] + (json_string("ok"@) + (seq![':'] + (
    scalar_text(JsonScalar::Flag(false)) + (seq![','] + (json_string("error"@) + seq![':']))))))))));
    assert(object_text(f1) =~= dm_sent_text(Some(error)));
    assert(f1 =~= seq![
        ("type"@, JsonScalar::Text("dm_sent"@)),
        ("ok"@, JsonScalar::Flag(false)),
        ("error"@, JsonScalar::Text(error)),
    ]);
    law_json_member_of_object(s1, "type"@);
    law_json_member_of_object(s1, "ok"@);
    law_json_member_of_object(s1, "error"@);
    law_json_member_of_object(f1, "type"@);
    law_json_member_of_object(f1, "ok"@);
    law_json_member_of_object(f1, "error"@);
    assert("type"@.len() == 4 && "ok"@.len() == 2 && "error"@.len() == 5);
    assert(member_of(s2, "ok"@) == Some(JsonScalar::Flag(true)));
    assert(member_of(s2, "error"@) == member_of(Seq::empty(), "error"@));
    assert(member_of(f2, "ok"@) == Some(JsonScalar::Flag(false)));
    assert(member_of(f3, "error"@) == Some(JsonScalar::Text(error)));
    assert(member_of(f2, "error"@) == member_of(f3, "error"@));
}

}
