//! What holds of calls, in terms of what goes in and what comes out.
//!
//! Each law speaks of a function of the library by what a call of it ensures,
//! and of what the call took and gave by its own fields.

use vstd::prelude::*;

use crate::app::{
    dm_sent, forward, handle_broker_text, handle_socket, key_saved, BrokerAction, BrokerMessage,
    BrokerSender, ChannelEvent, ForwardStep, KeyAssigned, SocketFrame, SocketStep,
};
use crate::config::{all_digits, number, parse_port, without_plus, CliArgs, Config, EnvVars};
use crate::error::AppError;
use crate::json::json_string;
use crate::json_object::{
    indented_list, indented_member, indented_object, json_member, JsonScalar,
};
use crate::key_laws::{
    law_key_for_cwd_is_the_first, law_key_for_npub_is_the_first, law_keys_file_members,
    law_keys_file_text_injective,
};
use crate::keys::{
    is_pair_of, key_for_npub, key_models, keys_file_text, KeyPair, KeyPairModel, KeyRequest,
    KeyStore, KeysFile, KeysModel, StoredKeys,
};
use crate::message_laws::{
    law_dm_received_members, law_dm_sent_members, law_key_assigned_members,
};
use crate::nostr::{
    is_secret_key, npub_text, nsec_text, parsed_public, parsed_secret, public_key_of,
    public_keys_tell_apart,
};
use crate::relay::{
    AddKey, Dial, DirectMessage, Gift, NostrClient, RelayPool, StartStep, Subscription,
};
use crate::text::{
    comma_joined, comma_pieces, decimal, decimal_text, digit_char, hex_text, law_comma_pieces,
    law_hex_text_injective, texts,
};

verus! {

// Keys.

/// A directory without a key gets a new one: it belongs to the directory, no
/// pair that the store held has its secret key text or its public key text, it
/// is added behind the others, and the text of the file with it is to be
/// written.
pub proof fn law_new_key_is_new(
    store: &mut KeyStore,
    cwd: &str,
    request: Result<KeyRequest, AppError>,
)
    requires
        call_ensures(KeyStore::get_or_create_key, (store, cwd), request),
        forall|i: int| 0 <= i < old(store)@.keys.len() ==> (#[trigger] old(store)@.keys[i]).cwd != cwd@,
    ensures
        request is Ok,
        request->Ok_0.pair.cwd@ == cwd@,
        forall|i: int|
            0 <= i < old(store)@.keys.len() ==> (#[trigger] old(store)@.keys[i]).nsec
                != request->Ok_0.pair.nsec@,
        public_keys_tell_apart() ==> forall|i: int|
            0 <= i < old(store)@.keys.len() ==> (#[trigger] old(store)@.keys[i]).npub
                != request->Ok_0.pair.npub@,
        final(store)@.keys == old(store)@.keys.push(request->Ok_0.pair@),
        final(store)@.version == old(store)@.version,
        request->Ok_0.file is Some,
        request->Ok_0.file->Some_0@ == keys_file_text(final(store)@),
{
    law_key_for_cwd_is_the_first(old(store)@.keys, cwd@);
}

/// The same in terms of what the store lists before and after: if no pair that
/// it lists belongs to the directory, the list grows by one pair, which has
/// another secret key text and another public key text than all that were
/// listed.
pub proof fn law_new_key_is_new_among_the_listed(
    store: &mut KeyStore,
    cwd: &str,
    request: Result<KeyRequest, AppError>,
    before: &KeyStore,
    listed: Vec<KeyPair>,
    after: &KeyStore,
    listed_after: Vec<KeyPair>,
)
    requires
        call_ensures(KeyStore::get_or_create_key, (store, cwd), request),
        *before == *old(store),
        call_ensures(KeyStore::all_keys, (before,), listed),
        *after == *final(store),
        call_ensures(KeyStore::all_keys, (after,), listed_after),
        forall|i: int| 0 <= i < listed.len() ==> (#[trigger] listed[i]).cwd@ != cwd@,
    ensures
        request is Ok,
        request->Ok_0.pair.cwd@ == cwd@,
        forall|i: int|
            0 <= i < listed.len() ==> (#[trigger] listed[i]).nsec@ != request->Ok_0.pair.nsec@,
        public_keys_tell_apart() ==> forall|i: int|
            0 <= i < listed.len() ==> (#[trigger] listed[i]).npub@ != request->Ok_0.pair.npub@,
        listed_after.len() == listed.len() + 1,
        listed_after[listed.len() as int].npub@ == request->Ok_0.pair.npub@,
        listed_after[listed.len() as int].nsec@ == request->Ok_0.pair.nsec@,
        listed_after[listed.len() as int].cwd@ == cwd@,
        forall|i: int|
            0 <= i < listed.len() ==> {
                &&& (#[trigger] listed_after[i]).npub@ == listed[i].npub@
                &&& listed_after[i].nsec@ == listed[i].nsec@
                &&& listed_after[i].cwd@ == listed[i].cwd@
                &&& listed_after[i].created_at@ == listed[i].created_at@
            },
{
    let keys = old(store)@.keys;
    lemma_listed(*before, listed);
    lemma_listed(*after, listed_after);
    assert forall|i: int| 0 <= i < keys.len() implies (#[trigger] keys[i]).cwd != cwd@ by {
        assert(listed[i]@ == keys[i]);
    }
    law_new_key_is_new(store, cwd, request);
    let pair = request->Ok_0.pair@;
    assert forall|i: int| 0 <= i < listed.len() implies (#[trigger] listed[i]).nsec@
        != request->Ok_0.pair.nsec@ by {
        assert(listed[i]@ == keys[i]);
    }
    if public_keys_tell_apart() {
        assert forall|i: int| 0 <= i < listed.len() implies (#[trigger] listed[i]).npub@
            != request->Ok_0.pair.npub@ by {
            assert(listed[i]@ == keys[i]);
        }
    }
    assert(listed_after[listed.len() as int]@ == pair);
    assert forall|i: int| 0 <= i < listed.len() implies {
        &&& (#[trigger] listed_after[i]).npub@ == listed[i].npub@
        &&& listed_after[i].nsec@ == listed[i].nsec@
        &&& listed_after[i].cwd@ == listed[i].cwd@
        &&& listed_after[i].created_at@ == listed[i].created_at@
    } by {
        assert(listed_after[i]@ == final(store)@.keys[i]);
        assert(listed[i]@ == keys[i]);
    }
}

proof fn lemma_listed(store: KeyStore, listed: Vec<KeyPair>)
    requires
        key_models(listed@) == store@.keys,
    ensures
        listed.len() == store@.keys.len(),
        forall|i: int| 0 <= i < listed.len() ==> #[trigger] listed[i]@ == store@.keys[i],
{
    assert(key_models(listed@).len() == listed.len());
    assert forall|i: int| 0 <= i < listed.len() implies #[trigger] listed[i]@ == store@.keys[i] by {
        assert(key_models(listed@)[i] == listed[i]@);
    }
}

/// A pair that is added is listed last, and the text of the file with it is to
/// be written.
pub proof fn law_added_key_is_listed_last(
    store: &mut KeyStore,
    pair: KeyPair,
    added: Result<KeyRequest, AppError>,
    before: &KeyStore,
    listed: Vec<KeyPair>,
    after: &KeyStore,
    listed_after: Vec<KeyPair>,
)
    requires
        call_ensures(KeyStore::add_key, (store, pair), added),
        *before == *old(store),
        call_ensures(KeyStore::all_keys, (before,), listed),
        *after == *final(store),
        call_ensures(KeyStore::all_keys, (after,), listed_after),
    ensures
        added is Ok,
        added->Ok_0.file is Some,
        added->Ok_0.file->Some_0@ == keys_file_text(final(store)@),
        listed_after.len() == listed.len() + 1,
        listed_after[listed.len() as int].npub@ == pair.npub@,
        listed_after[listed.len() as int].nsec@ == pair.nsec@,
        listed_after[listed.len() as int].cwd@ == pair.cwd@,
        listed_after[listed.len() as int].created_at@ == pair.created_at@,
        forall|i: int| 0 <= i < listed.len() ==> (#[trigger] listed_after[i])@ == listed[i]@,
{
    lemma_listed(*before, listed);
    lemma_listed(*after, listed_after);
    assert(listed_after[listed.len() as int]@ == pair@);
    assert forall|i: int| 0 <= i < listed.len() implies (#[trigger] listed_after[i])@
        == listed[i]@ by {
        assert(listed_after[i]@ == final(store)@.keys[i]);
        assert(listed[i]@ == old(store)@.keys[i]);
    }
}

/// A store keeps the path that it was opened with.
pub proof fn law_path_is_kept(
    path: String,
    stored: StoredKeys,
    opened: Result<KeyStore, AppError>,
    store: &mut KeyStore,
    cwd: &str,
    request: Result<KeyRequest, AppError>,
    after: &KeyStore,
    path_after: &str,
)
    requires
        call_ensures(KeyStore::new, (path, stored), opened),
        opened is Ok,
        *old(store) == opened->Ok_0,
        call_ensures(KeyStore::get_or_create_key, (store, cwd), request),
        *after == *final(store),
        call_ensures(KeyStore::path, (after,), path_after),
    ensures
        path_after@ == path@,
{
}

/// Looking for the key of a directory gives the first that is listed for it,
/// and nothing only if none is.
pub proof fn law_found_key_is_the_first(
    store: &KeyStore,
    cwd: &str,
    found: Option<KeyPair>,
    listed: Vec<KeyPair>,
)
    requires
        call_ensures(KeyStore::find_key, (store, cwd), found),
        call_ensures(KeyStore::all_keys, (store,), listed),
    ensures
        match found {
            Some(pair) => exists|i: int|
                {
                    &&& 0 <= i < listed.len()
                    &&& (#[trigger] listed[i]).cwd@ == cwd@
                    &&& listed[i].npub@ == pair.npub@
                    &&& listed[i].nsec@ == pair.nsec@
                    &&& listed[i].created_at@ == pair.created_at@
                    &&& forall|j: int| 0 <= j < i ==> (#[trigger] listed[j]).cwd@ != cwd@
                },
            None => forall|i: int| 0 <= i < listed.len() ==> (#[trigger] listed[i]).cwd@ != cwd@,
        },
{
    let keys = store@.keys;
    law_key_for_cwd_is_the_first(keys, cwd@);
    lemma_listed(*store, listed);
    if found is Some {
        let key = found->Some_0@;
        let i = choose|i: int|
            0 <= i < keys.len() && #[trigger] keys[i] == key && key.cwd == cwd@ && forall|j: int|
                0 <= j < i ==> (#[trigger] keys[j]).cwd != cwd@;
        assert(listed[i]@ == keys[i]);
        assert forall|j: int| 0 <= j < i implies (#[trigger] listed[j]).cwd@ != cwd@ by {
            assert(listed[j]@ == keys[j]);
        }
        assert(listed[i].cwd@ == cwd@);
    } else {
        assert forall|i: int| 0 <= i < listed.len() implies (#[trigger] listed[i]).cwd@ != cwd@ by {
            assert(listed[i]@ == keys[i]);
        }
    }
}

/// The public key texts and the number of pairs are those of the list.
pub proof fn law_npubs_are_those_listed(
    store: &KeyStore,
    listed: Vec<KeyPair>,
    npubs: Vec<String>,
    len: usize,
)
    requires
        call_ensures(KeyStore::all_keys, (store,), listed),
        call_ensures(KeyStore::all_npubs, (store,), npubs),
        call_ensures(KeyStore::len, (store,), len),
    ensures
        len == listed.len(),
        npubs.len() == listed.len(),
        forall|i: int| 0 <= i < npubs.len() ==> (#[trigger] npubs[i])@ == listed[i].npub@,
{
    lemma_listed(*store, listed);
    let list = texts(npubs@);
    assert(list.len() == npubs.len());
    assert forall|i: int| 0 <= i < npubs.len() implies (#[trigger] npubs[i])@ == listed[i].npub@ by {
        assert(list[i] == npubs[i]@);
        assert(listed[i]@ == store@.keys[i]);
    }
}

/// The pair of a secret key holds the texts of that key and of its public key,
/// and the directory and the time that were given.
pub proof fn law_pair_of_a_secret_key(
    secret: &[u8; 32],
    cwd: &str,
    created_at: String,
    pair: KeyPair,
)
    requires
        is_secret_key(secret@),
        call_ensures(KeyPair::of_secret, (secret, cwd, created_at), pair),
    ensures
        parsed_secret(pair.nsec@) == Some(secret@),
        parsed_public(pair.npub@) == Some(public_key_of(secret@)),
        pair.npub@ == npub_text(public_key_of(secret@)),
        pair.cwd@ == cwd@,
        pair.created_at@ == created_at@,
{
}

/// A keys file is read back from the text that is written of it.
pub proof fn law_keys_file_is_read_back(
    file: &KeysFile,
    text: Result<String, AppError>,
    written: &str,
    read: Option<KeysFile>,
)
    requires
        call_ensures(KeysFile::to_text, (file,), text),
        written@ == text->Ok_0@,
        call_ensures(KeysFile::from_text, (written,), read),
    ensures
        text is Ok,
        read is Some,
        read->Some_0.version == file.version,
        read->Some_0.keys.len() == file.keys.len(),
        forall|i: int|
            0 <= i < file.keys.len() ==> {
                &&& (#[trigger] read->Some_0.keys[i]).npub@ == file.keys[i].npub@
                &&& read->Some_0.keys[i].nsec@ == file.keys[i].nsec@
                &&& read->Some_0.keys[i].cwd@ == file.keys[i].cwd@
                &&& read->Some_0.keys[i].created_at@ == file.keys[i].created_at@
            },
{
    assert(keys_file_text(file@) == written@);
    law_keys_file_text_injective(read->Some_0@, file@);
    let (a, b) = (key_models(file.keys@), key_models(read->Some_0.keys@));
    assert(a.len() == file.keys.len() && b.len() == read->Some_0.keys.len());
    assert forall|i: int| 0 <= i < file.keys.len() implies {
        &&& (#[trigger] read->Some_0.keys[i]).npub@ == file.keys[i].npub@
        &&& read->Some_0.keys[i].nsec@ == file.keys[i].nsec@
        &&& read->Some_0.keys[i].cwd@ == file.keys[i].cwd@
        &&& read->Some_0.keys[i].created_at@ == file.keys[i].created_at@
    } by {
        assert(a[i] == file.keys[i]@ && b[i] == read->Some_0.keys[i]@);
    }
}

/// A new key is a secret key with its public key, by their texts: each text is
/// read back as the key.
pub proof fn law_new_key_is_a_key(
    store: &mut KeyStore,
    cwd: &str,
    request: Result<KeyRequest, AppError>,
)
    requires
        call_ensures(KeyStore::get_or_create_key, (store, cwd), request),
        forall|i: int| 0 <= i < old(store)@.keys.len() ==> (#[trigger] old(store)@.keys[i]).cwd != cwd@,
    ensures
        parsed_secret(request->Ok_0.pair.nsec@) is Some,
        is_secret_key(parsed_secret(request->Ok_0.pair.nsec@)->Some_0),
        parsed_public(request->Ok_0.pair.npub@) == Some(
            public_key_of(parsed_secret(request->Ok_0.pair.nsec@)->Some_0),
        ),
        request->Ok_0.pair.nsec@ == nsec_text(parsed_secret(request->Ok_0.pair.nsec@)->Some_0),
{
    law_key_for_cwd_is_the_first(old(store)@.keys, cwd@);
    let secret = choose|secret: Seq<u8>| is_pair_of(request->Ok_0.pair@, secret);
    assert(is_pair_of(request->Ok_0.pair@, secret));
}

/// A new key is the one that was drawn for it, unless the store had a text of
/// that, and its time is the one that was read for it.
pub proof fn law_new_key_is_the_drawn_one(
    store: &mut KeyStore,
    cwd: &str,
    request: Result<KeyRequest, AppError>,
)
    requires
        call_ensures(KeyStore::get_or_create_key, (store, cwd), request),
        forall|i: int| 0 <= i < old(store)@.keys.len() ==> (#[trigger] old(store)@.keys[i]).cwd != cwd@,
    ensures
        final(store).making() is Some,
        request->Ok_0.pair.created_at@ == final(store).making()->Some_0.read_at@,
        parsed_secret(request->Ok_0.pair.nsec@) == Some(final(store).making()->Some_0.drawn@) || exists|
            i: int,
        |
            0 <= i < old(store)@.keys.len() && ((#[trigger] old(store)@.keys[i]).nsec == nsec_text(
                final(store).making()->Some_0.drawn@,
            ) || old(store)@.keys[i].npub == npub_text(
                public_key_of(final(store).making()->Some_0.drawn@),
            )),
{
    law_key_for_cwd_is_the_first(old(store)@.keys, cwd@);
}

/// A directory that has keys gets the first of them, the store stays as it is,
/// and there is nothing to write.
pub proof fn law_existing_key_is_given(
    store: &mut KeyStore,
    cwd: &str,
    request: Result<KeyRequest, AppError>,
    i: int,
)
    requires
        call_ensures(KeyStore::get_or_create_key, (store, cwd), request),
        0 <= i < old(store)@.keys.len(),
        old(store)@.keys[i].cwd == cwd@,
        forall|j: int| 0 <= j < i ==> (#[trigger] old(store)@.keys[j]).cwd != cwd@,
    ensures
        request is Ok,
        request->Ok_0.pair.npub@ == old(store)@.keys[i].npub,
        request->Ok_0.pair.nsec@ == old(store)@.keys[i].nsec,
        request->Ok_0.pair.cwd@ == old(store)@.keys[i].cwd,
        request->Ok_0.pair.created_at@ == old(store)@.keys[i].created_at,
        request->Ok_0.file is None,
        final(store)@ == old(store)@,
{
    law_key_for_cwd_is_the_first(old(store)@.keys, cwd@);
}

/// Two directories get keys of their own from a store: the second request
/// neither gives nor changes the first one's key.
pub proof fn law_two_directories_two_keys(
    first: &mut KeyStore,
    cwd: &str,
    request: Result<KeyRequest, AppError>,
    second: &mut KeyStore,
    other: &str,
    other_request: Result<KeyRequest, AppError>,
)
    requires
        call_ensures(KeyStore::get_or_create_key, (first, cwd), request),
        *final(first) == *old(second),
        call_ensures(KeyStore::get_or_create_key, (second, other), other_request),
        forall|i: int|
            0 <= i < old(second)@.keys.len() ==> (#[trigger] old(second)@.keys[i]).cwd != other@,
    ensures
        other_request->Ok_0.pair.nsec@ != request->Ok_0.pair.nsec@,
        public_keys_tell_apart() ==> other_request->Ok_0.pair.npub@ != request->Ok_0.pair.npub@,
{
    law_key_for_cwd_is_the_first(old(first)@.keys, cwd@);
    law_key_for_cwd_is_the_first(old(second)@.keys, other@);
    let keys = old(second)@.keys;
    let pair = request->Ok_0.pair@;
    if forall|i: int| 0 <= i < old(first)@.keys.len() ==> (#[trigger] old(first)@.keys[i]).cwd != cwd@ {
        assert(keys[keys.len() - 1] == pair);
    } else {
        let i = choose|i: int|
            0 <= i < old(first)@.keys.len() && #[trigger] old(first)@.keys[i] == pair;
        assert(keys[i] == pair);
    }
}

/// The file to write for a new key is the indented JSON object of the version
/// and of all pairs that the store then lists, in that order, each value under
/// its name.
pub proof fn law_file_lists_all_keys(
    store: &mut KeyStore,
    cwd: &str,
    request: Result<KeyRequest, AppError>,
    after: &KeyStore,
    listed: Vec<KeyPair>,
)
    requires
        call_ensures(KeyStore::get_or_create_key, (store, cwd), request),
        request->Ok_0.file is Some,
        *after == *final(store),
        call_ensures(KeyStore::all_keys, (after,), listed),
    ensures
        request->Ok_0.file->Some_0@ == indented_object(
            0,
            seq![
                indented_member("version"@, decimal(old(store)@.version as nat)),
                indented_member(
                    "keys"@,
                    indented_list(
                        1,
                        listed@.map_values(
                            |key: KeyPair|
                                indented_object(
                                    2,
                                    seq![
                                        indented_member("npub"@, json_string(key.npub@)),
                                        indented_member("nsec"@, json_string(key.nsec@)),
                                        indented_member("cwd"@, json_string(key.cwd@)),
                                        indented_member(
                                            "created_at"@,
                                            json_string(key.created_at@),
                                        ),
                                    ],
                                ),
                        ),
                    ),
                ),
            ],
        ),
{
    law_keys_file_members(final(store)@);
    let of_models = final(store)@.keys.map_values(
        |key: KeyPairModel|
            indented_object(
                2,
                seq![
                    indented_member("npub"@, json_string(key.npub)),
                    indented_member("nsec"@, json_string(key.nsec)),
                    indented_member("cwd"@, json_string(key.cwd)),
                    indented_member("created_at"@, json_string(key.created_at)),
                ],
            ),
    );
    let of_pairs = listed@.map_values(
        |key: KeyPair|
            indented_object(
                2,
                seq![
                    indented_member("npub"@, json_string(key.npub@)),
                    indented_member("nsec"@, json_string(key.nsec@)),
                    indented_member("cwd"@, json_string(key.cwd@)),
                    indented_member("created_at"@, json_string(key.created_at@)),
                ],
            ),
    );
    assert(of_models =~= of_pairs);
}

/// A store that is opened on the file of another holds what the other lists: as
/// many pairs, in the same order, each with the same texts.
pub proof fn law_opened_on_a_written_file(
    store: &mut KeyStore,
    cwd: &str,
    request: Result<KeyRequest, AppError>,
    after: &KeyStore,
    listed: Vec<KeyPair>,
    path: String,
    parsed: Option<KeysFile>,
    opened: Result<KeyStore, AppError>,
    listed_again: Vec<KeyPair>,
)
    requires
        call_ensures(KeyStore::get_or_create_key, (store, cwd), request),
        request->Ok_0.file is Some,
        *after == *final(store),
        call_ensures(KeyStore::all_keys, (after,), listed),
        call_ensures(
            KeyStore::new,
            (path, (StoredKeys::Found { text: request->Ok_0.file->Some_0, parsed })),
            opened,
        ),
        call_ensures(KeyStore::all_keys, (&opened->Ok_0,), listed_again),
    ensures
        opened is Ok,
        listed_again.len() == listed.len(),
        forall|i: int|
            0 <= i < listed.len() ==> {
                &&& (#[trigger] listed_again[i]).npub@ == listed[i].npub@
                &&& listed_again[i].nsec@ == listed[i].nsec@
                &&& listed_again[i].cwd@ == listed[i].cwd@
                &&& listed_again[i].created_at@ == listed[i].created_at@
            },
{
    law_keys_file_text_injective(opened->Ok_0@, final(store)@);
    let (a, b) = (key_models(listed@), key_models(listed_again@));
    assert(a == b);
    assert forall|i: int| 0 <= i < listed.len() implies {
        &&& (#[trigger] listed_again[i]).npub@ == listed[i].npub@
        &&& listed_again[i].nsec@ == listed[i].nsec@
        &&& listed_again[i].cwd@ == listed[i].cwd@
        &&& listed_again[i].created_at@ == listed[i].created_at@
    } by {
        assert(a[i] == listed[i]@ && b[i] == listed_again[i]@);
    }
    assert(a.len() == listed.len() && b.len() == listed_again.len());
}

/// A store that is opened where there is no file, or on a text that neither a
/// store wrote nor a parser reads, has no keys; one whose file cannot be read
/// is not opened.
pub proof fn law_opened_without_keys(
    path: String,
    stored: StoredKeys,
    opened: Result<KeyStore, AppError>,
)
    requires
        call_ensures(KeyStore::new, (path, stored), opened),
    ensures
        stored is Missing ==> opened is Ok && opened->Ok_0@.keys.len() == 0
            && opened->Ok_0@.version == 1,
        stored is Unreadable ==> opened is Err && opened->Err_0 is Io && opened->Err_0->Io_0
            == stored->Unreadable_0,
        stored is Found && (forall|file: KeysModel| #[trigger]
            keys_file_text(file) != stored->text@) ==> {
            &&& opened is Ok
            &&& match stored->parsed {
                Some(file) => opened->Ok_0@.version == file.version && opened->Ok_0@.keys
                    == key_models(file.keys@),
                None => opened->Ok_0@.version == 1 && opened->Ok_0@.keys.len() == 0,
            }
        },
{
}

/// The secret key text for a public key text is that of the first pair that has
/// the public key text, and there is none only if no pair has it.
pub proof fn law_nsec_is_that_of_the_first_pair(
    store: &KeyStore,
    npub: &str,
    nsec: Option<String>,
    listed: Vec<KeyPair>,
)
    requires
        call_ensures(KeyStore::get_nsec_by_npub, (store, npub), nsec),
        call_ensures(KeyStore::all_keys, (store,), listed),
    ensures
        match nsec {
            Some(nsec) => exists|i: int|
                0 <= i < listed.len() && (#[trigger] listed[i]).npub@ == npub@ && listed[i].nsec@
                    == nsec@ && forall|j: int|
                    0 <= j < i ==> (#[trigger] listed[j]).npub@ != npub@,
            None => forall|i: int| 0 <= i < listed.len() ==> (#[trigger] listed[i]).npub@ != npub@,
        },
{
    let keys = store@.keys;
    law_key_for_npub_is_the_first(keys, npub@);
    lemma_listed(*store, listed);
    if nsec is Some {
        let key = key_for_npub(keys, npub@)->Some_0;
        let i = choose|i: int|
            0 <= i < keys.len() && #[trigger] keys[i] == key && key.npub == npub@ && forall|j: int|
                0 <= j < i ==> (#[trigger] keys[j]).npub != npub@;
        assert(listed[i]@ == keys[i]);
        assert forall|j: int| 0 <= j < i implies (#[trigger] listed[j]).npub@ != npub@ by {
            assert(listed[j]@ == keys[j]);
        }
    } else {
        assert forall|i: int| 0 <= i < listed.len() implies (#[trigger] listed[i]).npub@ != npub@ by {
            assert(listed[i]@ == keys[i]);
        }
    }
}

// Clients.

/// A client is prepared if the secret key text holds a secret key: with that
/// key and the relays that were given, in their order. Otherwise it fails.
pub proof fn law_client_is_prepared(
    npub: &str,
    nsec: &str,
    relays: &Vec<String>,
    dial: Result<Dial, AppError>,
)
    requires
        call_ensures(NostrClient::connect, (npub, nsec, relays), dial),
    ensures
        dial is Ok <==> parsed_secret(nsec@) is Some,
        dial is Ok ==> {
            &&& parsed_secret(nsec@) == Some(dial->Ok_0.secret@)
            &&& dial->Ok_0.relays.len() == relays.len()
            &&& forall|i: int|
                0 <= i < relays.len() ==> (#[trigger] dial->Ok_0.relays[i])@ == relays[i]@
        },
        dial is Err ==> dial->Err_0 is Nostr && dial->Err_0->Nostr_0@ == "parse nsec failed: "@
            + "Invalid secret key"@,
{
    if dial is Ok {
        let (a, b) = (texts(dial->Ok_0.relays@), texts(relays@));
        assert(a.len() == dial->Ok_0.relays.len() && b.len() == relays.len());
        assert forall|i: int| 0 <= i < relays.len() implies (#[trigger] dial->Ok_0.relays[i])@
            == relays[i]@ by {
            assert(a[i] == b[i]);
        }
    }
}

/// What a client subscribes to: gift wraps for the public key of its own secret
/// key, from the time that the clock gave in this call less two days on, under
/// an identifier of the bytes that were drawn in this call.
pub proof fn law_subscription(
    npub: &str,
    nsec: &str,
    relays: &Vec<String>,
    dial: Result<Dial, AppError>,
    subscription: Subscription,
)
    requires
        call_ensures(NostrClient::connect, (npub, nsec, relays), dial),
        dial is Ok,
        call_ensures(NostrClient::subscription, (&dial->Ok_0.client,), subscription),
    ensures
        subscription.kind == 1059,
        subscription.public_key@ == public_key_of(parsed_secret(nsec@)->Some_0),
        subscription.id@ == hex_text(subscription.made_with->Some_0.1@),
{
}

/// The time that a subscription starts from is the time that the clock gave in
/// this call less two days: no later, and no earlier unless that was before the
/// epoch.
pub proof fn law_subscription_starts_two_days_ago(client: &NostrClient, subscription: Subscription)
    requires
        call_ensures(NostrClient::subscription, (client,), subscription),
    ensures
        subscription.made_with is Some,
        subscription.made_with->Some_0.0@ >= 172_800 ==> subscription.since + 172_800
            == subscription.made_with->Some_0.0@,
        subscription.made_with->Some_0.0@ < 172_800 ==> subscription.since == 0,
{
}

/// The identifier of a subscription has two hexadecimal digits for each byte
/// that was drawn, and subscriptions with other bytes have other identifiers.
pub proof fn law_subscription_identifier(
    client: &NostrClient,
    subscription: Subscription,
    other_client: &NostrClient,
    other: Subscription,
)
    requires
        call_ensures(NostrClient::subscription, (client,), subscription),
        call_ensures(NostrClient::subscription, (other_client,), other),
    ensures
        subscription.id@.len() == 16,
        subscription.id@ == other.id@ ==> subscription.made_with->Some_0.1@
            == other.made_with->Some_0.1@,
{
    if subscription.id@ == other.id@ {
        law_hex_text_injective(subscription.made_with->Some_0.1@, other.made_with->Some_0.1@);
    }
}

/// What the broker is told of a private message, read as a JSON object: the
/// sender's public key text as the one it is from, the text that the client was
/// made with as the one it is to, and the message as it is.
pub proof fn law_broker_is_told_who_wrote_what_to_whom(
    npub: &str,
    nsec: &str,
    relays: &Vec<String>,
    dial: Result<Dial, AppError>,
    gift: Gift,
    told: Result<Option<String>, AppError>,
)
    requires
        call_ensures(NostrClient::connect, (npub, nsec, relays), dial),
        dial is Ok,
        call_ensures(NostrClient::received, (&dial->Ok_0.client, Some(gift)), told),
    ensures
        told is Ok,
        told->Ok_0 is Some,
        json_member(told->Ok_0->Some_0@, "from_npub"@) == Some(
            JsonScalar::Text(npub_text(gift.sender@)),
        ),
        json_member(told->Ok_0->Some_0@, "to_npub"@) == Some(JsonScalar::Text(npub@)),
        json_member(told->Ok_0->Some_0@, "content"@) == Some(JsonScalar::Text(gift.content@)),
        json_member(told->Ok_0->Some_0@, "type"@) == Some(JsonScalar::Text("dm_received"@)),
{
    law_dm_received_members(npub_text(gift.sender@), npub@, gift.content@);
}

/// The same of a client in any state; and of an event that could not be
/// unwrapped nothing is told.
pub proof fn law_told_of_a_gift(
    client: &NostrClient,
    gift: Option<Gift>,
    told: Result<Option<String>, AppError>,
)
    requires
        call_ensures(NostrClient::received, (client, gift), told),
    ensures
        told is Ok,
        gift is None ==> told->Ok_0 is None,
        gift matches Some(gift) ==> {
            &&& told->Ok_0 is Some
            &&& json_member(told->Ok_0->Some_0@, "from_npub"@) == Some(
                JsonScalar::Text(npub_text(gift.sender@)),
            )
            &&& json_member(told->Ok_0->Some_0@, "to_npub"@) == Some(
                JsonScalar::Text(client.npub_text()),
            )
            &&& json_member(told->Ok_0->Some_0@, "content"@) == Some(
                JsonScalar::Text(gift.content@),
            )
            &&& json_member(told->Ok_0->Some_0@, "type"@) == Some(JsonScalar::Text("dm_received"@))
        },
{
    if gift is Some {
        law_dm_received_members(
            npub_text(gift->Some_0.sender@),
            client.npub_text(),
            gift->Some_0.content@,
        );
    }
}

/// A new client unwraps the first gift wrap that comes in, and no event of
/// another kind.
pub proof fn law_first_gift_wrap_is_unwrapped(
    npub: &str,
    nsec: &str,
    relays: &Vec<String>,
    dial: Result<Dial, AppError>,
    client: &mut NostrClient,
    kind: u16,
    id: &[u8; 32],
    now: u128,
    unwrap: bool,
)
    requires
        call_ensures(NostrClient::connect, (npub, nsec, relays), dial),
        dial is Ok,
        *old(client) == dial->Ok_0.client,
        call_ensures(NostrClient::listen, (client, kind, id, now), unwrap),
    ensures
        unwrap == (kind == 1059),
{
}

/// A gift wrap that comes in twice in a row is not unwrapped the second time;
/// and one that comes in after another one is unwrapped exactly if it would
/// have been before it, unless the other one is the same or made it forgotten.
pub proof fn law_gift_wrap_is_unwrapped_once(
    client: &mut NostrClient,
    id: &[u8; 32],
    now: u128,
    unwrap: bool,
    client_later: &mut NostrClient,
    kind: u16,
    later_id: &[u8; 32],
    later: u128,
    unwrap_later: bool,
)
    requires
        old(client).wf(),
        call_ensures(NostrClient::listen, (client, 1059, id, now), unwrap),
        *final(client) == *old(client_later),
        call_ensures(NostrClient::listen, (client_later, kind, later_id, later), unwrap_later),
    ensures
        later_id@ == id@ ==> !unwrap_later,
        kind != 1059 ==> !unwrap_later && final(client_later).seen_events() == old(
            client_later,
        ).seen_events(),
        final(client_later).seen_events().len() <= 5000,
{
    crate::seen::law_event_is_remembered(
        old(client).seen_events(),
        hex_text(id@),
        now,
        later,
    );
}

/// A gift wrap is unwrapped exactly if no event with its identifier is
/// remembered.
pub proof fn law_unseen_gift_wrap_is_unwrapped(
    client: &mut NostrClient,
    id: &[u8; 32],
    now: u128,
    unwrap: bool,
)
    requires
        old(client).wf(),
        call_ensures(NostrClient::listen, (client, 1059, id, now), unwrap),
    ensures
        unwrap <==> forall|i: int|
            0 <= i < old(client).seen_events().len() ==> (#[trigger] old(client).seen_events()[i]).0
                != hex_text(id@),
{
    let seen = old(client).seen_events();
    let ids = crate::seen::event_ids(seen);
    assert forall|i: int| 0 <= i < seen.len() implies #[trigger] ids[i] == seen[i].0 by {}
    if ids.contains(hex_text(id@)) {
        let i = choose|i: int| 0 <= i < ids.len() && ids[i] == hex_text(id@);
        assert(seen[i].0 == hex_text(id@));
    } else {
        assert forall|i: int| 0 <= i < seen.len() implies (#[trigger] seen[i]).0 != hex_text(
            id@,
        ) by {
            assert(ids[i] == seen[i].0);
        }
    }
}

/// A private message is prepared if the recipient's text holds a public key:
/// for that key, with the text that was given. Otherwise it fails.
pub proof fn law_message_is_prepared(
    to_npub: &str,
    content: &str,
    message: Result<DirectMessage, AppError>,
)
    requires
        call_ensures(NostrClient::send_dm, (to_npub, content), message),
    ensures
        message is Ok <==> parsed_public(to_npub@) is Some,
        message is Ok ==> parsed_public(to_npub@) == Some(message->Ok_0.recipient@)
            && message->Ok_0.content@ == content@,
        message is Err ==> message->Err_0 is Nostr && message->Err_0->Nostr_0@ == "invalid npub: "@
            + "Invalid public key"@,
{
}

/// A pool sends with the client that was registered last for the sender, and
/// registering one changes nothing for other senders.
pub proof fn law_pool_sends_with_the_registered_client<C>(
    pool: &mut RelayPool<C>,
    npub: &str,
    client: C,
    before: &RelayPool<C>,
    after: &RelayPool<C>,
    from_npub: &str,
    to_npub: &str,
    content: &str,
    outcome_before: Result<(&C, DirectMessage), AppError>,
    outcome: Result<(&C, DirectMessage), AppError>,
)
    requires
        old(pool).wf(),
        call_ensures(RelayPool::<C>::connected, (pool, npub, client), ()),
        *before == *old(pool),
        *after == *final(pool),
        call_ensures(
            RelayPool::<C>::send_dm,
            (before, from_npub, to_npub, content),
            outcome_before,
        ),
        call_ensures(RelayPool::<C>::send_dm, (after, from_npub, to_npub, content), outcome),
    ensures
        from_npub@ == npub@ && parsed_public(to_npub@) is Some ==> outcome is Ok
            && *outcome->Ok_0.0 == client,
        outcome is Ok ==> outcome->Ok_0.1.content@ == content@ && parsed_public(to_npub@) == Some(
            outcome->Ok_0.1.recipient@,
        ),
        parsed_public(to_npub@) is None ==> outcome is Err && outcome_before is Err,
        from_npub@ != npub@ ==> {
            &&& outcome is Ok <==> outcome_before is Ok
            &&& outcome is Ok ==> *outcome->Ok_0.0 == *outcome_before->Ok_0.0
        },
{
}

/// A new pool sends for nobody.
pub proof fn law_new_pool_sends_for_nobody<C>(
    relays: Vec<String>,
    pool: RelayPool<C>,
    from_npub: &str,
    to_npub: &str,
    content: &str,
    outcome: Result<(&C, DirectMessage), AppError>,
)
    requires
        call_ensures(RelayPool::<C>::new, (relays,), pool),
        call_ensures(RelayPool::<C>::send_dm, (&pool, from_npub, to_npub, content), outcome),
    ensures
        outcome is Err,
        outcome->Err_0 is Nostr,
        outcome->Err_0->Nostr_0@ == "no client for "@ + from_npub@,
{
}

/// A new pool registers every key whose secret key text holds a secret key:
/// with that secret key and the pool's own relays. Once the key is registered,
/// there is nothing to do.
pub proof fn law_pool_registers_a_key_once<C>(
    relays: Vec<String>,
    pool: RelayPool<C>,
    npub: &str,
    nsec: &str,
    step: Result<AddKey, AppError>,
    registered: &mut RelayPool<C>,
    client: C,
    after: &RelayPool<C>,
    step_again: Result<AddKey, AppError>,
)
    requires
        call_ensures(RelayPool::<C>::new, (relays,), pool),
        call_ensures(RelayPool::<C>::add_key, (&pool, npub, nsec), step),
        *old(registered) == pool,
        call_ensures(RelayPool::<C>::connected, (registered, npub, client), ()),
        *after == *final(registered),
        call_ensures(RelayPool::<C>::add_key, (after, npub, nsec), step_again),
    ensures
        step is Ok <==> parsed_secret(nsec@) is Some,
        step matches Ok(step) ==> {
            &&& step is Connect
            &&& parsed_secret(nsec@) == Some(step->Connect_0.secret@)
            &&& texts(step->Connect_0.relays@) == texts(relays@)
        },
        step_again == Ok::<AddKey, AppError>(AddKey::AlreadyRegistered),
{
}

/// A key is brought up exactly if it is not registered and its secret key text
/// holds a secret key, whatever else is registered.
pub proof fn law_key_is_brought_up_unless_registered<C>(
    pool: &RelayPool<C>,
    npub: &str,
    nsec: &str,
    step: Result<AddKey, AppError>,
)
    requires
        call_ensures(RelayPool::<C>::add_key, (pool, npub, nsec), step),
    ensures
        step == Ok::<AddKey, AppError>(AddKey::AlreadyRegistered) <==> pool@.contains_key(npub@),
        step is Err <==> !pool@.contains_key(npub@) && parsed_secret(nsec@) is None,
        step is Err ==> step->Err_0 is Nostr && step->Err_0->Nostr_0@ == "parse nsec failed: "@
            + "Invalid secret key"@,
        step is Ok && step->Ok_0 is Connect ==> {
            &&& parsed_secret(nsec@) == Some(step->Ok_0->Connect_0.secret@)
            &&& step->Ok_0->Connect_0.client.npub_text() == npub@
            &&& step->Ok_0->Connect_0.client.public_key_bytes() == public_key_of(
                step->Ok_0->Connect_0.secret@,
            )
            &&& texts(step->Ok_0->Connect_0.relays@) == pool.relay_texts()
        },
{
}

/// Of a list of keys, the next to bring up a client for is the first from the
/// given index on that is not registered; there is none only if all are.
pub proof fn law_start_takes_the_next_key<C>(
    pool: &RelayPool<C>,
    keys: &Vec<KeyPair>,
    from: usize,
    step: Result<StartStep, AppError>,
)
    requires
        from <= keys.len(),
        call_ensures(RelayPool::<C>::start, (pool, keys, from), step),
    ensures
        step matches Ok(StartStep::Done) ==> forall|i: int|
            from <= i < keys.len() ==> pool@.contains_key((#[trigger] keys[i]).npub@),
        step matches Ok(StartStep::Connect(index, dial)) ==> {
            &&& from <= index < keys.len()
            &&& !pool@.contains_key(keys[index as int].npub@)
            &&& parsed_secret(keys[index as int].nsec@) == Some(dial.secret@)
            &&& forall|i: int|
                from <= i < index ==> pool@.contains_key((#[trigger] keys[i]).npub@)
        },
        step is Err ==> exists|i: int|
            from <= i < keys.len() && !pool@.contains_key((#[trigger] keys[i]).npub@)
                && parsed_secret(keys[i].nsec@) is None,
{
    let models = key_models(keys@);
    assert forall|i: int| 0 <= i < keys.len() implies #[trigger] keys[i]@ == models[i] by {}
    match step {
        Ok(StartStep::Done) => {
            assert forall|i: int| from <= i < keys.len() implies pool@.contains_key(
                (#[trigger] keys[i]).npub@,
            ) by {
                assert(models[i].npub == keys[i].npub@);
            }
        },
        Ok(StartStep::Connect(index, _)) => {
            assert forall|i: int| from <= i < index implies pool@.contains_key(
                (#[trigger] keys[i]).npub@,
            ) by {
                assert(models[i].npub == keys[i].npub@);
            }
        },
        Err(_) => {},
    }
}

/// The registered public key texts are, each once, those that were registered.
pub proof fn law_registered_npubs<C>(
    relays: Vec<String>,
    empty: RelayPool<C>,
    none: Vec<String>,
    pool: &mut RelayPool<C>,
    npub: &str,
    client: C,
    before: &RelayPool<C>,
    npubs_before: Vec<String>,
    after: &RelayPool<C>,
    npubs: Vec<String>,
    i: int,
)
    requires
        call_ensures(RelayPool::<C>::new, (relays,), empty),
        call_ensures(RelayPool::<C>::all_npubs, (&empty,), none),
        old(pool).wf(),
        *before == *old(pool),
        call_ensures(RelayPool::<C>::all_npubs, (before,), npubs_before),
        call_ensures(RelayPool::<C>::connected, (pool, npub, client), ()),
        *after == *final(pool),
        call_ensures(RelayPool::<C>::all_npubs, (after,), npubs),
        0 <= i < npubs.len(),
    ensures
        none.len() == 0,
        texts(npubs@).contains(npub@),
        npubs[i]@ == npub@ || texts(npubs_before@).contains(npubs[i]@),
        forall|j: int| 0 <= j < npubs_before.len() ==> texts(npubs@).contains(
            (#[trigger] npubs_before[j])@,
        ),
        forall|j: int| 0 <= j < npubs.len() && j != i ==> (#[trigger] npubs[j])@ != npubs[i]@,
{
    if none.len() > 0 {
        assert(texts(none@)[0] == none[0]@);
        assert(texts(none@).contains(none[0]@));
    }
    assert(after@.contains_key(npub@));
    let list = texts(npubs@);
    assert(list[i] == npubs[i]@);
    assert(list.contains(npubs[i]@));
    assert forall|j: int| 0 <= j < npubs_before.len() implies texts(npubs@).contains(
        (#[trigger] npubs_before[j])@,
    ) by {
        assert(texts(npubs_before@)[j] == npubs_before[j]@);
        assert(texts(npubs_before@).contains(npubs_before[j]@));
        assert(after@.contains_key(npubs_before[j]@));
    }
    assert forall|j: int| 0 <= j < npubs.len() && j != i implies (#[trigger] npubs[j])@
        != npubs[i]@ by {
        assert(list[j] == npubs[j]@);
    }
}

// The broker.

/// A request to send a private message is answered at once only with a failure:
/// success is never told before the message was sent. Without a client for the
/// sender it fails, whatever the recipient; so it does for a recipient that is
/// no public key. Otherwise the message is sent as it is, to that key, with the
/// sender's client. The keys stay as they are.
pub proof fn law_send_dm_is_sent_or_fails<C>(
    from_npub: String,
    to_npub: String,
    content: String,
    store: &mut KeyStore,
    pool: &RelayPool<C>,
    action: Result<BrokerAction<'_, C>, AppError>,
)
    requires
        call_ensures(
            handle_broker_text::<C>,
            (Ok((BrokerMessage::SendDm { from_npub, to_npub, content })), store, pool),
            action,
        ),
    ensures
        final(store)@ == old(store)@,
        action is Ok,
        action->Ok_0 is Reply || action->Ok_0 is SendDm,
        action->Ok_0 matches BrokerAction::Reply(text) ==> {
            &&& json_member(text@, "type"@) == Some(JsonScalar::Text("dm_sent"@))
            &&& json_member(text@, "ok"@) == Some(JsonScalar::Flag(false))
            &&& json_member(text@, "error"@) is Some
        },
        action->Ok_0 is SendDm <==> pool@.contains_key(from_npub@) && parsed_public(to_npub@) is Some,
        !pool@.contains_key(from_npub@) ==> json_member(action->Ok_0->Reply_0@, "error"@) == Some(
            JsonScalar::Text("nostr error: "@ + ("no client for "@ + from_npub@)),
        ),
        pool@.contains_key(from_npub@) && parsed_public(to_npub@) is None ==> json_member(
            action->Ok_0->Reply_0@,
            "error"@,
        ) == Some(JsonScalar::Text("nostr error: "@ + ("invalid npub: "@ + "Invalid public key"@))),
        action->Ok_0 matches BrokerAction::SendDm(client, message) ==> {
            &&& *client == pool@[from_npub@]
            &&& parsed_public(to_npub@) == Some(message.recipient@)
            &&& message.content@ == content@
        },
{
    law_dm_sent_members("nostr error: "@ + ("no client for "@ + from_npub@));
    law_dm_sent_members("nostr error: "@ + ("invalid npub: "@ + "Invalid public key"@));
}

/// A request to send a private message is taken as the pool takes it: where the
/// pool prepares a message, that is sent with the client that the pool gave, and
/// where it fails, the broker is told the message of its error.
pub proof fn law_send_dm_goes_through_the_pool<C>(
    from_npub: String,
    to_npub: String,
    content: String,
    store: &mut KeyStore,
    pool: &RelayPool<C>,
    action: Result<BrokerAction<'_, C>, AppError>,
    from: &str,
    to: &str,
    text: &str,
    outcome: Result<(&C, DirectMessage), AppError>,
    message: String,
)
    requires
        call_ensures(
            handle_broker_text::<C>,
            (Ok((BrokerMessage::SendDm { from_npub, to_npub, content })), store, pool),
            action,
        ),
        from@ == from_npub@,
        to@ == to_npub@,
        text@ == content@,
        call_ensures(RelayPool::<C>::send_dm, (pool, from, to, text), outcome),
        outcome is Err ==> call_ensures(AppError::to_string, (&outcome->Err_0,), message),
    ensures
        action is Ok,
        action->Ok_0 is SendDm <==> outcome is Ok,
        outcome is Ok ==> {
            &&& *action->Ok_0->SendDm_0 == *outcome->Ok_0.0
            &&& action->Ok_0->SendDm_1.recipient@ == outcome->Ok_0.1.recipient@
            &&& action->Ok_0->SendDm_1.content@ == outcome->Ok_0.1.content@
        },
        outcome is Err ==> {
            &&& action->Ok_0 is Reply
            &&& json_member(action->Ok_0->Reply_0@, "ok"@) == Some(JsonScalar::Flag(false))
            &&& json_member(action->Ok_0->Reply_0@, "error"@) == Some(JsonScalar::Text(message@))
        },
{
    law_send_dm_is_sent_or_fails(from_npub, to_npub, content, store, pool, action);
}

/// What the broker is told once a message was sent or failed to be: that all is
/// well, and no more, exactly if it was sent; otherwise that it failed, with
/// the message of the error.
pub proof fn law_outcome_of_sending_is_told(
    sent: Result<(), AppError>,
    reply: Result<String, AppError>,
    message: String,
)
    requires
        call_ensures(dm_sent, (sent,), reply),
        sent matches Err(e) ==> call_ensures(AppError::to_string, (&e,), message),
    ensures
        reply is Ok,
        json_member(reply->Ok_0@, "type"@) == Some(JsonScalar::Text("dm_sent"@)),
        json_member(reply->Ok_0@, "ok"@) == Some(JsonScalar::Flag(sent is Ok)),
        sent is Ok ==> json_member(reply->Ok_0@, "error"@) is None,
        sent is Err ==> json_member(reply->Ok_0@, "error"@) == Some(JsonScalar::Text(message@)),
{
    law_dm_sent_members(message@);
}

/// The message of an error tells its kind, and then its text.
pub proof fn law_error_message(e: AppError, message: String)
    requires
        call_ensures(AppError::to_string, (&e,), message),
    ensures
        e matches AppError::Keys(text) ==> message@ == "key error: "@ + text@,
        e matches AppError::Json(text) ==> message@ == "json error: "@ + text@,
        e matches AppError::Nostr(text) ==> message@ == "nostr error: "@ + text@,
        e matches AppError::Broker(text) ==> message@ == "broker error: "@ + text@,
        e matches AppError::Config(text) ==> message@ == "config error: "@ + text@,
        e matches AppError::Io(text) ==> message@ == "io error: "@ + text@,
{
}

/// A request for the key of a directory that has one is answered at once, with
/// the directory and the texts of its first pair, each under its name; and the
/// keys stay as they are.
pub proof fn law_known_key_is_sent<C>(
    cwd: String,
    store: &mut KeyStore,
    pool: &RelayPool<C>,
    action: Result<BrokerAction<'_, C>, AppError>,
    i: int,
)
    requires
        call_ensures(
            handle_broker_text::<C>,
            (Ok((BrokerMessage::RequestKey { cwd })), store, pool),
            action,
        ),
        0 <= i < old(store)@.keys.len(),
        old(store)@.keys[i].cwd == cwd@,
        forall|j: int| 0 <= j < i ==> (#[trigger] old(store)@.keys[j]).cwd != cwd@,
    ensures
        final(store)@ == old(store)@,
        action is Ok,
        action->Ok_0 is Reply,
        json_member(action->Ok_0->Reply_0@, "type"@) == Some(JsonScalar::Text("key_assigned"@)),
        json_member(action->Ok_0->Reply_0@, "cwd"@) == Some(JsonScalar::Text(cwd@)),
        json_member(action->Ok_0->Reply_0@, "npub"@) == Some(
            JsonScalar::Text(old(store)@.keys[i].npub),
        ),
        json_member(action->Ok_0->Reply_0@, "nsec"@) == Some(
            JsonScalar::Text(old(store)@.keys[i].nsec),
        ),
{
    let keys = old(store)@.keys;
    law_key_for_cwd_is_the_first(keys, cwd@);
    law_key_assigned_members(cwd@, keys[i].npub, keys[i].nsec);
}

/// A request for the key of a directory that has none makes a new one, another
/// than all that were there, of the secret key that was drawn for it unless one
/// of them has a text of that. The file with all pairs is to be written first,
/// and what the broker is then told is the directory and the new pair's texts,
/// each under its name.
pub proof fn law_new_key_is_saved_and_sent<C>(
    cwd: String,
    store: &mut KeyStore,
    pool: &RelayPool<C>,
    action: Result<BrokerAction<'_, C>, AppError>,
    reply: Result<String, AppError>,
)
    requires
        call_ensures(
            handle_broker_text::<C>,
            (Ok((BrokerMessage::RequestKey { cwd })), store, pool),
            action,
        ),
        forall|i: int| 0 <= i < old(store)@.keys.len() ==> (#[trigger] old(store)@.keys[i]).cwd != cwd@,
        action->Ok_0 is SaveKey ==> call_ensures(
            key_saved,
            (&action->Ok_0->SaveKey_1, Ok(())),
            reply,
        ),
    ensures
        action is Ok,
        action->Ok_0 is SaveKey,
        final(store)@.keys.len() == old(store)@.keys.len() + 1,
        forall|i: int|
            0 <= i < old(store)@.keys.len() ==> {
                &&& #[trigger] final(store)@.keys[i] == old(store)@.keys[i]
                &&& old(store)@.keys[i].nsec != final(store)@.keys.last().nsec
                &&& public_keys_tell_apart() ==> old(store)@.keys[i].npub
                    != final(store)@.keys.last().npub
            },
        final(store)@.keys.last().cwd == cwd@,
        final(store).making() is Some,
        parsed_secret(final(store)@.keys.last().nsec) == Some(
            final(store).making()->Some_0.drawn@,
        ) || exists|i: int|
            0 <= i < old(store)@.keys.len() && ((#[trigger] old(store)@.keys[i]).nsec == nsec_text(
                final(store).making()->Some_0.drawn@,
            ) || old(store)@.keys[i].npub == npub_text(
                public_key_of(final(store).making()->Some_0.drawn@),
            )),
        action->Ok_0->SaveKey_0@ == keys_file_text(final(store)@),
        reply is Ok,
        json_member(reply->Ok_0@, "type"@) == Some(JsonScalar::Text("key_assigned"@)),
        json_member(reply->Ok_0@, "cwd"@) == Some(JsonScalar::Text(cwd@)),
        json_member(reply->Ok_0@, "npub"@) == Some(
            JsonScalar::Text(final(store)@.keys.last().npub),
        ),
        json_member(reply->Ok_0@, "nsec"@) == Some(
            JsonScalar::Text(final(store)@.keys.last().nsec),
        ),
{
    law_key_for_cwd_is_the_first(old(store)@.keys, cwd@);
    law_key_assigned_members(
        cwd@,
        final(store)@.keys.last().npub,
        final(store)@.keys.last().nsec,
    );
}

/// What the broker is told of a key once it is saved: the directory and the
/// texts that it was assigned, each under its name.
pub proof fn law_saved_key_is_sent(assigned: &KeyAssigned, reply: Result<String, AppError>)
    requires
        call_ensures(key_saved, (assigned, Ok(())), reply),
    ensures
        reply is Ok,
        json_member(reply->Ok_0@, "type"@) == Some(JsonScalar::Text("key_assigned"@)),
        json_member(reply->Ok_0@, "cwd"@) == Some(JsonScalar::Text(assigned.cwd@)),
        json_member(reply->Ok_0@, "npub"@) == Some(JsonScalar::Text(assigned.npub@)),
        json_member(reply->Ok_0@, "nsec"@) == Some(JsonScalar::Text(assigned.nsec@)),
{
    law_key_assigned_members(assigned.cwd@, assigned.npub@, assigned.nsec@);
}

/// A key that could not be saved is not sent: there is an error instead, with
/// the message of what went wrong.
pub proof fn law_unsaved_key_is_not_sent(
    assigned: &KeyAssigned,
    e: AppError,
    reply: Result<String, AppError>,
    message: String,
)
    requires
        call_ensures(key_saved, (assigned, Err(e)), reply),
        call_ensures(AppError::to_string, (&e,), message),
    ensures
        reply is Err,
        reply->Err_0 is Keys,
        reply->Err_0->Keys_0@ == message@,
{
}

/// A request to register a key brings up a client exactly if a pair of the
/// store has the public key text, no client is registered for it, and the
/// secret key text of the first such pair holds a secret key: with that secret
/// key, and a client that is made for the public key text. The keys stay as
/// they are.
pub proof fn law_register_brings_up_the_key<C>(
    npub: String,
    store: &mut KeyStore,
    pool: &RelayPool<C>,
    action: Result<BrokerAction<'_, C>, AppError>,
)
    requires
        call_ensures(
            handle_broker_text::<C>,
            (Ok((BrokerMessage::Register { npub })), store, pool),
            action,
        ),
    ensures
        final(store)@ == old(store)@,
        action is Ok,
        action->Ok_0 is UnknownKey <==> forall|i: int|
            0 <= i < old(store)@.keys.len() ==> (#[trigger] old(store)@.keys[i]).npub != npub@,
        action->Ok_0 is AlreadyRegistered <==> !(action->Ok_0 is UnknownKey)
            && pool@.contains_key(npub@),
        !(action->Ok_0 is UnknownKey) && !pool@.contains_key(npub@) ==> exists|i: int|
            {
                &&& 0 <= i < old(store)@.keys.len()
                &&& (#[trigger] old(store)@.keys[i]).npub == npub@
                &&& forall|j: int| 0 <= j < i ==> (#[trigger] old(store)@.keys[j]).npub != npub@
                &&& match parsed_secret(old(store)@.keys[i].nsec) {
                    Some(secret) => action->Ok_0 is Connect && action->Ok_0->Connect_0.secret@
                        == secret,
                    None => action->Ok_0 is UnusableKey,
                }
            },
        action->Ok_0 is Connect ==> action->Ok_0->Connect_0.client.npub_text() == npub@
            && action->Ok_0->Connect_0.client.public_key_bytes() == public_key_of(
            action->Ok_0->Connect_0.secret@,
        ) && texts(action->Ok_0->Connect_0.relays@) == pool.relay_texts(),
{
    let keys = old(store)@.keys;
    law_key_for_npub_is_the_first(keys, npub@);
    if key_for_npub(keys, npub@) is Some {
        let key = key_for_npub(keys, npub@)->Some_0;
        let i = choose|i: int|
            0 <= i < keys.len() && #[trigger] keys[i] == key && key.npub == npub@ && forall|j: int|
                0 <= j < i ==> (#[trigger] keys[j]).npub != npub@;
        assert(old(store)@.keys[i].npub == npub@);
    }
}

/// A text that does not parse is an error that tells why, and changes nothing.
pub proof fn law_unparsable_text_is_an_error<C>(
    reason: String,
    store: &mut KeyStore,
    pool: &RelayPool<C>,
    action: Result<BrokerAction<'_, C>, AppError>,
)
    requires
        call_ensures(handle_broker_text::<C>, (Err(reason), store, pool), action),
    ensures
        final(store)@ == old(store)@,
        action is Err,
        action->Err_0 is Json,
        action->Err_0->Json_0@ == "failed to parse broker message: "@ + reason@,
{
}

/// Every text that comes in on the broker's connection is dealt with as it is,
/// and nothing else is; reading stops exactly when the connection is closed or
/// failed.
pub proof fn law_texts_are_dispatched(frame: SocketFrame, step: SocketStep)
    requires
        call_ensures(handle_socket, (frame,), step),
    ensures
        step is Dispatch <==> frame is Text,
        step is Dispatch ==> step->Dispatch_0 == frame->Text_0,
        step is Stop <==> frame is Close || frame is Failed,
{
}

/// Every message that is found in the channel is sent to the broker as it is,
/// and nothing else is; the channel is left exactly when it is closed.
pub proof fn law_messages_are_forwarded(event: ChannelEvent, step: ForwardStep)
    requires
        call_ensures(forward, (event,), step),
    ensures
        step is Send <==> event is Message,
        step is Send ==> step->Send_0 == event->Message_0,
        step is Stop <==> event is Closed,
{
}

/// Sending never fails, and the message that was handed in is among those of
/// the channel, from which those that connect are given theirs.
pub proof fn law_message_is_among_the_sent(
    sender: &BrokerSender,
    msg: &str,
    sent: Result<(), AppError>,
)
    requires
        call_ensures(BrokerSender::send, (sender, msg), sent),
    ensures
        sent is Ok,
        sender.messages().contains(msg@),
{
}

// The configuration.

/// Where the relays come from: joined by commas they are the command line's
/// text if it has one, else the text of the environment variable if it is set,
/// and none of them holds a comma. They are the defaults only if neither is
/// set.
pub proof fn law_relays_of_the_command_line(cli: CliArgs, env: EnvVars, config: Config)
    requires
        call_ensures(Config::from_cli, (cli, env), config),
    ensures
        config.relays.len() > 0,
        cli.relays is Some ==> comma_joined(texts(config.relays@)) == cli.relays->Some_0@,
        cli.relays is None && env.relays is Some ==> comma_joined(texts(config.relays@))
            == env.relays->Some_0@,
        cli.relays is Some || env.relays is Some ==> forall|i: int, j: int|
            0 <= i < config.relays.len() && 0 <= j < config.relays[i]@.len()
                ==> #[trigger] config.relays[i]@[j] != ',',
        cli.relays is None && env.relays is None ==> {
            &&& config.relays.len() == 5
            &&& config.relays[0]@ == "wss://relay.damus.io"@
            &&& config.relays[1]@ == "wss://relay.0xchat.com"@
            &&& config.relays[2]@ == "wss://nostr.oxtr.dev"@
            &&& config.relays[3]@ == "wss://nostr-pub.wellorder.net"@
            &&& config.relays[4]@ == "wss://relay.primal.net"@
        },
{
    let list = texts(config.relays@);
    assert(list.len() == config.relays.len());
    assert forall|i: int| 0 <= i < list.len() implies #[trigger] list[i] == config.relays[i]@ by {}
    if cli.relays is Some {
        lemma_relays_of_text(config.relays, cli.relays->Some_0@);
    } else if env.relays is Some {
        lemma_relays_of_text(config.relays, env.relays->Some_0@);
    } else {
        assert(list[0] == config.relays[0]@ && list[1] == config.relays[1]@);
        assert(list[2] == config.relays[2]@ && list[3] == config.relays[3]@);
        assert(list[4] == config.relays[4]@);
    }
}

proof fn lemma_relays_of_text(relays: Vec<String>, text: Seq<char>)
    requires
        texts(relays@) == comma_pieces(text),
    ensures
        relays.len() > 0,
        comma_joined(texts(relays@)) == text,
        forall|i: int, j: int|
            0 <= i < relays.len() && 0 <= j < relays[i]@.len() ==> #[trigger] relays[i]@[j] != ',',
{
    law_comma_pieces(text);
    let list = texts(relays@);
    assert(list.len() == relays.len());
    assert forall|i: int, j: int|
        0 <= i < relays.len() && 0 <= j < relays[i]@.len() implies #[trigger] relays[i]@[j] != ',' by {
        assert(list[i] == relays[i]@);
        assert(comma_pieces(text)[i][j] != ',');
    }
}

/// The port and the keys file are the command line's. The broker's address is
/// the command line's if it has one, else that of the environment variable if it
/// is set, and else the default.
pub proof fn law_settings_of_the_command_line(cli: CliArgs, env: EnvVars, config: Config)
    requires
        call_ensures(Config::from_cli, (cli, env), config),
    ensures
        config.port == cli.port,
        config.keys_file@ == cli.keys_file@,
        cli.broker_url is Some ==> config.broker_url@ == cli.broker_url->Some_0@,
        cli.broker_url is None && env.broker_url is Some ==> config.broker_url@
            == env.broker_url->Some_0@,
        cli.broker_url is None && env.broker_url is None ==> config.broker_url@
            == "ws://127.0.0.1:8080"@,
{
}

/// What the environment alone gives: each setting is that of its variable if it
/// is set, and the default otherwise. The relays joined by commas are the text
/// of theirs.
pub proof fn law_settings_of_the_environment(env: EnvVars, config: Config)
    requires
        call_ensures(Config::from_env, (env,), config),
    ensures
        env.broker_url is Some ==> config.broker_url@ == env.broker_url->Some_0@,
        env.broker_url is None ==> config.broker_url@ == "ws://127.0.0.1:8080"@,
        env.keys_file is Some ==> config.keys_file@ == env.keys_file->Some_0@,
        env.keys_file is None ==> config.keys_file@ == "all_key.json"@,
        env.relays is Some ==> comma_joined(texts(config.relays@)) == env.relays->Some_0@,
        env.relays is Some ==> forall|i: int, j: int|
            0 <= i < config.relays.len() && 0 <= j < config.relays[i]@.len()
                ==> #[trigger] config.relays[i]@[j] != ',',
        env.port is None ==> config.port == 7899,
        env.port is Some && all_digits(without_plus(env.port->Some_0@)) && number(
            without_plus(env.port->Some_0@),
        ) <= 65535 ==> config.port == number(without_plus(env.port->Some_0@)),
        env.port is Some && !(all_digits(without_plus(env.port->Some_0@)) && number(
            without_plus(env.port->Some_0@),
        ) <= 65535) ==> config.port == 7899,
{
    if env.relays is Some {
        lemma_relays_of_text(config.relays, env.relays->Some_0@);
    }
}

/// Without a variable, the environment gives the default configuration.
pub proof fn law_defaults(env: EnvVars, config: Config, default: Config)
    requires
        call_ensures(Config::from_env, (env,), config),
        call_ensures(Config::default, (), default),
        env.port is None,
        env.broker_url is None,
        env.keys_file is None,
        env.relays is None,
    ensures
        config.port == default.port == 7899,
        config.broker_url@ == default.broker_url@,
        default.broker_url@ == "ws://127.0.0.1:8080"@,
        config.keys_file@ == default.keys_file@,
        default.keys_file@ == "all_key.json"@,
        texts(config.relays@) == texts(default.relays@),
{
}

proof fn lemma_number_of_decimal(n: nat)
    ensures
        all_digits(decimal(n)),
        number(decimal(n)) == n,
    decreases n,
{
    if n < 10 {
        let digits = decimal(n);
        assert(number(digits.drop_last()) == 0);
        assert(digit_char(n as int) as int == 48 + n);
    } else {
        lemma_number_of_decimal(n / 10);
        let digits = decimal(n);
        assert(digits.drop_last() =~= decimal(n / 10));
        assert(digits.last() as int == 48 + n % 10);
    }
}

/// A port is read back from its decimal text, with or without a plus sign; a
/// larger number is no port, and neither is a text that holds anything else
/// than digits behind the sign.
pub proof fn law_port_is_read_back(text: &str, port: Option<u16>, n: nat)
    requires
        call_ensures(parse_port, (text,), port),
    ensures
        text@ == decimal(n) || text@ == seq!['+'] + decimal(n) ==> (if n <= 65535 {
            port == Some(n as u16)
        } else {
            port is None
        }),
        (exists|i: int| 0 < i < text@.len() && !('0' <= #[trigger] text@[i] <= '9')) ==> port is None,
        text@.len() > 0 && text@[0] != '+' && !('0' <= text@[0] <= '9') ==> port is None,
        text@.len() == 0 ==> port is None,
{
    lemma_number_of_decimal(n);
    let digits = decimal(n);
    let signed = seq!['+'] + digits;
    assert(signed.drop_first() =~= digits);
    assert('0' <= digits[0] <= '9');
    let body = without_plus(text@);
    if exists|i: int| 0 < i < text@.len() && !('0' <= #[trigger] text@[i] <= '9') {
        let i = choose|i: int| 0 < i < text@.len() && !('0' <= #[trigger] text@[i] <= '9');
        if text@[0] == '+' {
            assert(body[i - 1] == text@[i]);
        } else {
            assert(body[i] == text@[i]);
        }
    }
    if text@.len() > 0 && text@[0] != '+' && !('0' <= text@[0] <= '9') {
        assert(body[0] == text@[0]);
    }
}

/// A number in decimal is made of digits, without a zero in front of others, and
/// is the number that the digits stand for.
pub proof fn law_decimal_text(n: u64, text: String)
    requires
        call_ensures(decimal_text, (n,), text),
    ensures
        all_digits(text@),
        number(text@) == n,
        text@.len() > 1 ==> text@[0] != '0',
{
    lemma_number_of_decimal(n as nat);
    lemma_no_leading_zero(n as nat);
}

proof fn lemma_no_leading_zero(n: nat)
    ensures
        decimal(n).len() > 0,
        n > 0 ==> decimal(n)[0] != '0',
        decimal(n).len() > 1 ==> decimal(n)[0] != '0',
    decreases n,
{
    if n < 10 {
        assert(digit_char(n as int) as int == 48 + n);
    } else {
        lemma_no_leading_zero(n / 10);
        assert(decimal(n)[0] == decimal(n / 10)[0]);
    }
}

/// A zero in front of the digits of a port changes nothing.
pub proof fn law_leading_zero_is_ignored(
    text: &str,
    port: Option<u16>,
    longer: &str,
    same: Option<u16>,
)
    requires
        call_ensures(parse_port, (text,), port),
        call_ensures(parse_port, (longer,), same),
        text@.len() > 0,
        text@[0] != '+',
        longer@ == seq!['0'] + text@,
    ensures
        same == port,
{
    let (a, b) = (text@, longer@);
    assert forall|i: int| 0 <= i < a.len() implies #[trigger] a[i] == b[i + 1] by {}
    if all_digits(a) {
        assert forall|i: int| 0 <= i < b.len() implies '0' <= #[trigger] b[i] <= '9' by {
            if i > 0 {
                assert(b[i] == a[i - 1]);
            }
        }
    }
    if all_digits(b) {
        assert forall|i: int| 0 <= i < a.len() implies '0' <= #[trigger] a[i] <= '9' by {
            assert(a[i] == b[i + 1]);
        }
    }
    lemma_number_of_longer(a);
}

proof fn lemma_number_of_longer(digits: Seq<char>)
    ensures
        number(seq!['0'] + digits) == number(digits),
    decreases digits.len(),
{
    let longer = seq!['0'] + digits;
    if digits.len() == 0 {
        assert(number(longer.drop_last()) == 0);
    } else {
        assert(longer.drop_last() =~= seq!['0'] + digits.drop_last());
        lemma_number_of_longer(digits.drop_last());
    }
}

/// The address to listen on holds the decimal text of the port behind the
/// address of all interfaces, and the port is read back from that.
pub proof fn law_listen_address(config: &Config, addr: String, digits: &str, port: Option<u16>)
    requires
        call_ensures(Config::listen_addr, (config,), addr),
        addr@ == "0.0.0.0:"@ + digits@,
        call_ensures(parse_port, (digits,), port),
    ensures
        port == Some(config.port),
{
    crate::text::lemma_prefix_cancel("0.0.0.0:"@, decimal(config.port as nat), digits@);
    law_port_is_read_back(digits, port, config.port as nat);
}

}
