//! The key store: one Nostr key pair for each working directory, kept in a
//! JSON file.
//!
//! The store itself reads and writes no file. It is opened on what was found
//! at its path, and hands out the text to write whenever it has made a key.

use vstd::prelude::*;
use vstd::string::*;

use crate::error::AppError;
use crate::json::{append_json, json_string};
use crate::nostr::{
    generate_secret_key, is_secret_key, npub_text, nsec_text, parsed_public, parsed_secret,
    public_key, public_key_of, public_key_to_bech32, public_keys_tell_apart, secret_key_to_bech32,
    DrawnKey,
};
use crate::other_keys::{beside, secret_beside, lemma_beside};
use crate::text::{decimal, decimal_text, texts};

verus! {

/// A key pair, by its bech32 texts, and the working directory it belongs to.
#[derive(Debug)]
pub struct KeyPair {
    pub npub: String,
    pub nsec: String,
    pub cwd: String,
    pub created_at: String,
}

/// The texts of a key pair.
#[verifier::ext_equal]
pub struct KeyPairModel {
    pub npub: Seq<char>,
    pub nsec: Seq<char>,
    pub cwd: Seq<char>,
    pub created_at: Seq<char>,
}

impl View for KeyPair {
    type V = KeyPairModel;

    open spec fn view(&self) -> KeyPairModel {
        KeyPairModel {
            npub: self.npub@,
            nsec: self.nsec@,
            cwd: self.cwd@,
            created_at: self.created_at@,
        }
    }
}

impl Clone for KeyPair {
    fn clone(&self) -> (copy: Self)
        ensures
            copy@ == self@,
    {
        KeyPair {
            npub: self.npub.clone(),
            nsec: self.nsec.clone(),
            cwd: self.cwd.clone(),
            created_at: self.created_at.clone(),
        }
    }
}

/// The texts of a list of key pairs.
pub open spec fn key_models(keys: Seq<KeyPair>) -> Seq<KeyPairModel> {
    keys.map_values(|k: KeyPair| k@)
}

/// What the keys file holds.
#[derive(Debug)]
pub struct KeysFile {
    pub version: u32,
    pub keys: Vec<KeyPair>,
}

/// The version and the key pairs of a keys file, in their order.
#[verifier::ext_equal]
pub struct KeysModel {
    pub version: u32,
    pub keys: Seq<KeyPairModel>,
}

impl View for KeysFile {
    type V = KeysModel;

    open spec fn view(&self) -> KeysModel {
        KeysModel { version: self.version, keys: key_models(self.keys@) }
    }
}

/// What a keys file holds before any key was made.
pub open spec fn no_keys() -> KeysModel {
    KeysModel { version: 1, keys: Seq::empty() }
}

impl Default for KeysFile {
    fn default() -> (file: Self)
        ensures
            file@ == no_keys(),
    {
        KeysFile { version: 1, keys: Vec::new() }
    }
}

/// The JSON object of one key pair, as it stands in the keys file.
pub open spec fn key_text(key: KeyPairModel) -> Seq<char> {
    "    {\n      \"npub\": "@ + (json_string(key.npub) + (",\n      \"nsec\": "@ + (json_string(
        key.nsec,
    ) + (",\n      \"cwd\": "@ + (json_string(key.cwd) + (",\n      \"created_at\": "@ + (
    json_string(key.created_at) + "\n    }"@)))))))
}

/// The keys file after the first object of its list, to the end of the list.
pub open spec fn more_keys_text(keys: Seq<KeyPairModel>) -> Seq<char>
    decreases keys.len(),
{
    if keys.len() == 0 {
        "\n  ]"@
    } else {
        ",\n"@ + (key_text(keys[0]) + more_keys_text(keys.drop_first()))
    }
}

/// The JSON list of the key pairs, as it stands in the keys file.
pub open spec fn key_list_text(keys: Seq<KeyPairModel>) -> Seq<char> {
    if keys.len() == 0 {
        "[]"@
    } else {
        "[\n"@ + (key_text(keys[0]) + more_keys_text(keys.drop_first()))
    }
}

/// The text of a keys file: an indented JSON object with the version and the
/// list of key pairs.
pub open spec fn keys_file_text(file: KeysModel) -> Seq<char> {
    "{\n  \"version\": "@ + (decimal(file.version as nat) + (",\n  \"keys\": "@ + (key_list_text(
        file.keys,
    ) + "\n}"@)))
}

impl KeyPair {
    fn append_to(&self, out: &mut String) -> (done: Result<(), AppError>)
        ensures
            done is Ok,
            final(out)@ == old(out)@ + key_text(self@),
    {
        out.append("    {\n      \"npub\": ");
        append_json(out, self.npub.as_str())?;
        out.append(",\n      \"nsec\": ");
        append_json(out, self.nsec.as_str())?;
        out.append(",\n      \"cwd\": ");
        append_json(out, self.cwd.as_str())?;
        out.append(",\n      \"created_at\": ");
        append_json(out, self.created_at.as_str())?;
        out.append("\n    }");
        assert(out@ =~= old(out)@ + key_text(self@));
        Ok(())
    }
}

impl KeysFile {
    /// The text to write to the keys file.
    pub fn to_text(&self) -> (text: Result<String, AppError>)
        ensures
            text is Ok,
            text->Ok_0@ == keys_file_text(self@),
    {
        let mut out = "{\n  \"version\": ".to_owned();
        out.append(decimal_text(self.version as u64).as_str());
        out.append(",\n  \"keys\": ");
        let ghost head = out@;
        let ghost keys = self@.keys;
        if self.keys.len() == 0 {
            out.append("[]");
        } else {
            out.append("[\n");
            self.keys[0].append_to(&mut out)?;
            let mut i: usize = 1;
            proof {
                assert(keys.skip(1) =~= keys.drop_first());
                assert(out@ + more_keys_text(keys.skip(1)) =~= head + key_list_text(keys));
            }
            while i < self.keys.len()
                invariant
                    1 <= i <= self.keys.len(),
                    keys == self@.keys,
                    out@ + more_keys_text(keys.skip(i as int)) == head + key_list_text(keys),
                decreases self.keys.len() - i,
            {
                let ghost before = out@;
                out.append(",\n");
                self.keys[i].append_to(&mut out)?;
                proof {
                    let rest = keys.skip(i as int);
                    assert(rest[0] == self.keys[i as int]@);
                    assert(rest.drop_first() =~= keys.skip(i + 1));
                    assert(out@ + more_keys_text(keys.skip(i + 1)) =~= before + more_keys_text(
                        rest,
                    ));
                }
                i = i + 1;
            }
            out.append("\n  ]");
            assert(keys.skip(i as int) =~= Seq::empty());
        }
        assert(out@ =~= head + key_list_text(keys));
        out.append("\n}");
        assert(out@ =~= keys_file_text(self@));
        Ok(out)
    }
}

/// The first key pair of a working directory.
pub open spec fn key_for_cwd(keys: Seq<KeyPairModel>, cwd: Seq<char>) -> Option<KeyPairModel>
    decreases keys.len(),
{
    if keys.len() == 0 {
        None
    } else {
        match key_for_cwd(keys.drop_last(), cwd) {
            Some(earlier) => Some(earlier),
            None => if keys.last().cwd == cwd {
                Some(keys.last())
            } else {
                None
            },
        }
    }
}

/// The first key pair with a public key text.
pub open spec fn key_for_npub(keys: Seq<KeyPairModel>, npub: Seq<char>) -> Option<KeyPairModel>
    decreases keys.len(),
{
    if keys.len() == 0 {
        None
    } else {
        match key_for_npub(keys.drop_last(), npub) {
            Some(earlier) => Some(earlier),
            None => if keys.last().npub == npub {
                Some(keys.last())
            } else {
                None
            },
        }
    }
}

/// Whether a text is made of decimal digits.
pub open spec fn are_digits(text: Seq<char>) -> bool {
    forall|i: int| 0 <= i < text.len() ==> '0' <= #[trigger] text[i] <= '9'
}

/// Whether two digits stand at an index, for a number within bounds.
pub open spec fn is_field(text: Seq<char>, i: int, low: int, high: int) -> bool {
    &&& '0' <= text[i] <= '9'
    &&& '0' <= text[i + 1] <= '9'
    &&& low <= (text[i] as int - 48) * 10 + (text[i + 1] as int - 48) <= high
}

/// Whether a text is a year: four digits, or a sign and at least four digits.
pub open spec fn is_year(text: Seq<char>) -> bool {
    ||| text.len() == 4 && are_digits(text)
    ||| text.len() >= 5 && (text[0] == '+' || text[0] == '-') && are_digits(text.drop_first())
}

/// Whether a text is a date: a year, a month and a day, with dashes between
/// them.
pub open spec fn is_date(text: Seq<char>) -> bool {
    let n = text.len() as int;
    &&& n >= 10
    &&& is_year(text.take(n - 6))
    &&& text[n - 6] == '-'
    &&& is_field(text, n - 5, 1, 12)
    &&& text[n - 3] == '-'
    &&& is_field(text, n - 2, 1, 31)
}

/// Whether a text is a time of day: hours, minutes and seconds, with colons
/// between them. The last second of a day can be a leap second.
pub open spec fn is_time_of_day(text: Seq<char>) -> bool {
    &&& text.len() == 8
    &&& is_field(text, 0, 0, 23)
    &&& text[2] == ':'
    &&& is_field(text, 3, 0, 59)
    &&& text[5] == ':'
    &&& is_field(text, 6, 0, 60)
}

/// Whether a text is a fraction of a second: nothing, or a dot and three, six
/// or nine digits.
pub open spec fn is_fraction(text: Seq<char>) -> bool {
    ||| text.len() == 0
    ||| (text.len() == 4 || text.len() == 7 || text.len() == 10) && text[0] == '.' && are_digits(
        text.drop_first(),
    )
}

/// Whether a text is a date and time in UTC, with the `T` between them at an
/// index.
pub open spec fn is_utc_time_at(text: Seq<char>, t: int) -> bool {
    let n = text.len() as int;
    &&& 10 <= t <= n - 15
    &&& is_date(text.take(t))
    &&& text[t] == 'T'
    &&& is_time_of_day(text.subrange(t + 1, t + 9))
    &&& is_fraction(text.subrange(t + 9, n - 6))
    &&& text.skip(n - 6) == "+00:00"@
}

/// Whether a text is a date and time in UTC, as RFC 3339 writes it.
pub open spec fn is_utc_time(text: Seq<char>) -> bool {
    exists|t: int| #[trigger] is_utc_time_at(text, t)
}

/// The text of a time that was read from the clock.
pub struct TimeReading {
    text: String,
}

impl View for TimeReading {
    type V = Seq<char>;

    closed spec fn view(&self) -> Seq<char> {
        self.text@
    }
}

impl TimeReading {
    /// The text.
    pub fn text(&self) -> (text: &str)
        ensures
            text@ == self@,
    {
        self.text.as_str()
    }
}

/// `chrono::Utc::now` followed by `to_rfc3339`. The time is read from the
/// clock; what is claimed is the form of the text: a date, a `T`, a time of
/// day, a fraction of a second where there is one, and the offset of UTC.
#[verifier::external_body]
fn now_rfc3339() -> (now: TimeReading)
    ensures
        is_utc_time(now@),
{
    TimeReading { text: chrono::Utc::now().to_rfc3339() }
}

/// Whether a pair holds the texts of a secret key and of its public key, so
/// that each text is read back as the key it was made from.
pub open spec fn is_pair_of(pair: KeyPairModel, secret: Seq<u8>) -> bool {
    &&& is_secret_key(secret)
    &&& pair.nsec == nsec_text(secret)
    &&& pair.npub == npub_text(public_key_of(secret))
    &&& parsed_secret(pair.nsec) == Some(secret)
    &&& parsed_public(pair.npub) == Some(public_key_of(secret))
}

impl KeyPair {
    /// The pair of a secret key, for a working directory and with the time at
    /// which it is made.
    pub fn of_secret(secret: &[u8; 32], cwd: &str, created_at: String) -> (pair: Self)
        requires
            is_secret_key(secret@),
        ensures
            is_pair_of(pair@, secret@),
            "npub1"@.is_prefix_of(pair.npub@),
            "nsec1"@.is_prefix_of(pair.nsec@),
            pair.cwd@ == cwd@,
            pair.created_at@ == created_at@,
    {
        let public = public_key(secret);
        KeyPair {
            npub: public_key_to_bech32(&public),
            nsec: secret_key_to_bech32(secret),
            cwd: cwd.to_owned(),
            created_at,
        }
    }
}

/// Whether a pair is a newly made one for a working directory.
pub open spec fn is_new_pair(pair: KeyPairModel, cwd: Seq<char>) -> bool {
    &&& exists|secret: Seq<u8>| is_pair_of(pair, secret)
    &&& "npub1"@.is_prefix_of(pair.npub)
    &&& "nsec1"@.is_prefix_of(pair.nsec)
    &&& pair.cwd == cwd
    &&& is_utc_time(pair.created_at)
}

/// Whether no pair of a list has a public key text.
pub open spec fn is_free_npub(npub: Seq<char>, keys: Seq<KeyPairModel>) -> bool {
    forall|i: int| 0 <= i < keys.len() ==> (#[trigger] keys[i]).npub != npub
}

/// Whether no pair of a list has a secret key text.
pub open spec fn is_free_nsec(nsec: Seq<char>, keys: Seq<KeyPairModel>) -> bool {
    forall|i: int| 0 <= i < keys.len() ==> (#[trigger] keys[i]).nsec != nsec
}

/// Whether a pair is another one than those of a list.
pub open spec fn is_other_pair(pair: KeyPairModel, keys: Seq<KeyPairModel>) -> bool {
    &&& is_free_nsec(pair.nsec, keys)
    &&& public_keys_tell_apart() ==> is_free_npub(pair.npub, keys)
}

/// How a new pair was made: the secret key that was drawn for it, and the time
/// that was read.
pub struct Making {
    pub drawn: DrawnKey,
    pub read_at: TimeReading,
}

/// Whether a pair was made for a list that lacked it. It is that of the secret
/// key that was drawn, unless the list has a text of that.
pub open spec fn is_made_for(pair: KeyPairModel, making: Making, keys: Seq<KeyPairModel>) -> bool {
    &&& is_secret_key(making.drawn@)
    &&& pair.created_at == making.read_at@
    &&& is_free_nsec(nsec_text(making.drawn@), keys) && is_free_npub(
        npub_text(public_key_of(making.drawn@)),
        keys,
    ) ==> is_pair_of(pair, making.drawn@)
}

/// How a store answers a request for the key of a working directory: with the
/// key that it has, or with a new one, which is another than those it has. It
/// adds that behind the others, and there is a file to write for it.
pub open spec fn key_requested(
    before: KeysModel,
    cwd: Seq<char>,
    after: KeysModel,
    pair: KeyPairModel,
    file: Option<Seq<char>>,
) -> bool {
    match key_for_cwd(before.keys, cwd) {
        Some(existing) => {
            &&& pair == existing
            &&& after == before
            &&& file is None
        },
        None => {
            &&& is_new_pair(pair, cwd)
            &&& is_other_pair(pair, before.keys)
            &&& after == (KeysModel { version: before.version, keys: before.keys.push(pair) })
            &&& file == Some(keys_file_text(after))
        },
    }
}

/// What was found at the path of a key store.
pub enum StoredKeys {
    /// There is no file.
    Missing,
    /// There is a file that could not be read, for the reason given.
    Unreadable(String),
    /// There is a file with a text, and this is what a JSON parser makes of the
    /// text, if it can.
    Found { text: String, parsed: Option<KeysFile> },
}

/// Whether a store that is opened on what was found holds some keys. A text
/// that a store wrote stands for what that store held. Of any other text counts
/// what the JSON parser made of it, and there are no keys where it failed or
/// where there is no file.
pub open spec fn is_opened(keys: KeysModel, stored: StoredKeys) -> bool {
    match stored {
        StoredKeys::Missing => keys == no_keys(),
        StoredKeys::Unreadable(_) => false,
        StoredKeys::Found { text, parsed } => {
            ||| keys_file_text(keys) == text@
            ||| {
                &&& forall|other: KeysModel| #[trigger] keys_file_text(other) != text@
                &&& keys == match parsed {
                    Some(file) => file@,
                    None => no_keys(),
                }
            }
        },
    }
}

/// A key pair that was asked for.
pub struct KeyRequest {
    /// The pair.
    pub pair: KeyPair,
    /// The text to write to the keys file before the pair is handed on, if the
    /// pair is new.
    pub file: Option<String>,
}

impl KeyRequest {
    /// The text of the file to write, if there is one.
    pub open spec fn file_text(&self) -> Option<Seq<char>> {
        match self.file {
            Some(text) => Some(text@),
            None => None,
        }
    }
}

/// The key pairs of the gateway and the path of the file that keeps them.
pub struct KeyStore {
    path: String,
    inner: KeysFile,
    newest: Option<Making>,
}

impl View for KeyStore {
    type V = KeysModel;

    closed spec fn view(&self) -> KeysModel {
        self.inner@
    }
}

impl KeyStore {
    /// The path of the keys file.
    pub closed spec fn path_text(&self) -> Seq<char> {
        self.path@
    }

    /// How the newest pair that this store made was made.
    pub closed spec fn making(&self) -> Option<Making> {
        self.newest
    }

    /// Opens the store on what was found at its path. A file that is missing
    /// or that does not parse counts as one without keys; one that cannot be
    /// read is an error.
    pub fn new(path: String, stored: StoredKeys) -> (store: Result<Self, AppError>)
        ensures
            match store {
                Ok(store) => {
                    &&& is_opened(store@, stored)
                    &&& store.path_text() == path@
                    &&& store.making() is None
                },
                Err(e) => stored matches StoredKeys::Unreadable(reason) && e == AppError::Io(
                    reason,
                ),
            },
    {
        let inner = match stored {
            StoredKeys::Missing => KeysFile::default(),
            StoredKeys::Unreadable(reason) => return Err(AppError::Io(reason)),
            StoredKeys::Found { text, parsed } => match KeysFile::from_text(text.as_str()) {
                Some(file) => file,
                None => match parsed {
                    Some(file) => file,
                    None => KeysFile::default(),
                },
            },
        };
        Ok(KeyStore { path, inner, newest: None })
    }

    /// The path of the keys file.
    pub fn path(&self) -> (path: &str)
        ensures
            path@ == self.path_text(),
    {
        self.path.as_str()
    }

    /// How the newest pair that this store made was made, if it made one.
    pub fn newest(&self) -> (making: &Option<Making>)
        ensures
            *making == self.making(),
    {
        &self.newest
    }

    /// The key pair of a working directory, if there is one.
    pub fn find_key(&self, cwd: &str) -> (found: Option<KeyPair>)
        ensures
            found is Some <==> key_for_cwd(self@.keys, cwd@) is Some,
            found is Some ==> key_for_cwd(self@.keys, cwd@) == Some(found->Some_0@),
    {
        let wanted: String = cwd.to_owned();
        let ghost keys = self@.keys;
        let mut i: usize = 0;
        assert(keys.take(0) =~= Seq::empty());
        while i < self.inner.keys.len()
            invariant
                i <= self.inner.keys.len(),
                keys == key_models(self.inner.keys@),
                keys == self@.keys,
                wanted@ == cwd@,
                key_for_cwd(keys.take(i as int), cwd@) is None,
            decreases self.inner.keys.len() - i,
        {
            let ghost upto = keys.take(i + 1);
            proof {
                assert(upto.drop_last() =~= keys.take(i as int));
            }
            if self.inner.keys[i].cwd == wanted {
                let pair = self.inner.keys[i].clone();
                proof {
                    lemma_key_for_cwd_of_prefix(keys, i + 1, cwd@);
                }
                return Some(pair);
            }
            i = i + 1;
        }
        assert(keys.take(i as int) =~= keys);
        None
    }

    /// Adds a key pair that was made for a working directory without one, and
    /// gives it back with the text to write to the keys file.
    pub fn add_key(&mut self, pair: KeyPair) -> (added: Result<KeyRequest, AppError>)
        ensures
            final(self)@ == (KeysModel {
                version: old(self)@.version,
                keys: old(self)@.keys.push(pair@),
            }),
            final(self).path_text() == old(self).path_text(),
            final(self).making() == old(self).making(),
            added is Ok,
            added->Ok_0.pair@ == pair@,
            added->Ok_0.file_text() == Some(keys_file_text(final(self)@)),
    {
        let ghost before = self@.keys;
        self.inner.keys.push(pair.clone());
        assert(self@.keys =~= before.push(pair@));
        let text = self.inner.to_text()?;
        Ok(KeyRequest { pair, file: Some(text) })
    }

    /// The key pair of a working directory, which is made if there is none. A
    /// new pair comes with the text to write to the keys file.
    pub fn get_or_create_key(&mut self, cwd: &str) -> (request: Result<KeyRequest, AppError>)
        ensures
            request is Ok,
            key_requested(
                old(self)@,
                cwd@,
                final(self)@,
                request->Ok_0.pair@,
                request->Ok_0.file_text(),
            ),
            final(self).path_text() == old(self).path_text(),
            key_for_cwd(old(self)@.keys, cwd@) is Some ==> final(self).making()
                == old(self).making(),
            key_for_cwd(old(self)@.keys, cwd@) is None ==> final(self).making() is Some
                && is_made_for(
                request->Ok_0.pair@,
                final(self).making()->Some_0,
                old(self)@.keys,
            ),
    {
        if let Some(existing) = self.find_key(cwd) {
            return Ok(KeyRequest { pair: existing, file: None });
        }
        let drawn = generate_secret_key();
        let read_at = now_rfc3339();
        let pair = self.other_pair(drawn.secret(), cwd, read_at.text());
        self.newest = Some(Making { drawn, read_at });
        self.add_key(pair)
    }

    /// Whether a pair of the store has a public key text or a secret key text.
    fn has_text_of(&self, pair: &KeyPair) -> (held: (bool, bool))
        ensures
            held.0 == !is_free_npub(pair.npub@, self@.keys),
            held.1 == !is_free_nsec(pair.nsec@, self@.keys),
    {
        let mut has_npub: bool = false;
        let mut has_nsec: bool = false;
        let mut i: usize = 0;
        let ghost keys = self@.keys;
        assert(keys.take(0) =~= Seq::empty());
        while i < self.inner.keys.len()
            invariant
                i <= self.inner.keys.len(),
                keys == key_models(self.inner.keys@),
                has_npub == !is_free_npub(pair.npub@, keys.take(i as int)),
                has_nsec == !is_free_nsec(pair.nsec@, keys.take(i as int)),
            decreases self.inner.keys.len() - i,
        {
            proof {
                assert(keys.take(i + 1) =~= keys.take(i as int).push(keys[i as int]));
                lemma_free_push(keys.take(i as int), keys[i as int], pair@);
            }
            if self.inner.keys[i].npub == pair.npub {
                has_npub = true;
            }
            if self.inner.keys[i].nsec == pair.nsec {
                has_nsec = true;
            }
            i = i + 1;
        }
        assert(keys.take(i as int) =~= keys);
        (has_npub, has_nsec)
    }

    /// A pair that is another than those of the store: that of a secret key,
    /// or, should the store have a text of that, one of a key beside it.
    fn other_pair(&self, secret: &[u8; 32], cwd: &str, created_at: &str) -> (pair: KeyPair)
        requires
            is_secret_key(secret@),
        ensures
            exists|key: Seq<u8>| #[trigger] is_pair_of(pair@, key),
            "npub1"@.is_prefix_of(pair.npub@),
            "nsec1"@.is_prefix_of(pair.nsec@),
            pair.cwd@ == cwd@,
            pair.created_at@ == created_at@,
            is_other_pair(pair@, self@.keys),
            is_free_nsec(nsec_text(secret@), self@.keys) && is_free_npub(
                npub_text(public_key_of(secret@)),
                self@.keys,
            ) ==> is_pair_of(pair@, secret@),
    {
        let pair = KeyPair::of_secret(secret, cwd, created_at.to_owned());
        let held = self.has_text_of(&pair);
        if !held.0 && !held.1 {
            return pair;
        }
        let ghost keys = self@.keys;
        let ghost mut taken_by = Seq::<int>::empty();
        let mut spare: Option<KeyPair> = None;
        let last: u128 = 2 * self.inner.keys.len() as u128;
        let mut k: u128 = 0;
        while k <= last
            invariant
                k <= last + 1,
                last == 2 * keys.len(),
                keys == self@.keys,
                is_secret_key(secret@),
                !(is_free_nsec(nsec_text(secret@), keys) && is_free_npub(
                    npub_text(public_key_of(secret@)),
                    keys,
                )),
                taken_by.len() == k,
                forall|j: int| 0 <= j < k ==> #[trigger] is_taken(secret@, j, taken_by[j], keys),
                spare is None ==> forall|j: int| 0 <= j < k ==> #[trigger] taken_by[j] < keys.len(),
                spare is Some ==> {
                    &&& exists|key: Seq<u8>| #[trigger] is_pair_of(spare->Some_0@, key)
                    &&& "npub1"@.is_prefix_of(spare->Some_0.npub@)
                    &&& "nsec1"@.is_prefix_of(spare->Some_0.nsec@)
                    &&& spare->Some_0.cwd@ == cwd@
                    &&& spare->Some_0.created_at@ == created_at@
                    &&& is_free_nsec(spare->Some_0.nsec@, keys)
                },
            decreases last + 1 - k,
        {
            let beside = secret_beside(secret, k);
            let pair = KeyPair::of_secret(&beside, cwd, created_at.to_owned());
            assert(is_pair_of(pair@, beside@));
            let held = self.has_text_of(&pair);
            if !held.0 && !held.1 {
                return pair;
            }
            proof {
                let i = if held.1 {
                    choose|i: int| 0 <= i < keys.len() && (#[trigger] keys[i]).nsec == pair.nsec@
                } else {
                    keys.len() + choose|i: int|
                        0 <= i < keys.len() && (#[trigger] keys[i]).npub == pair.npub@
                };
                let before = taken_by;
                taken_by = before.push(i);
                assert forall|j: int| 0 <= j < k + 1 implies #[trigger] is_taken(
                    secret@,
                    j,
                    taken_by[j],
                    keys,
                ) by {
                    if j < k {
                        assert(taken_by[j] == before[j]);
                    }
                }
            }
            if !held.1 {
                spare = Some(pair);
            }
            k = k + 1;
        }
        proof {
            if spare is None {
                lemma_taken_are_few(secret@, taken_by, keys, keys.len() as int);
            } else if public_keys_tell_apart() {
                assert forall|j: int| 0 <= j < taken_by.len() implies #[trigger] taken_by[j] < 2
                    * keys.len() by {
                    assert(is_taken(secret@, j, taken_by[j], keys));
                }
                lemma_taken_are_few(secret@, taken_by, keys, 2 * keys.len() as int);
            }
        }
        match spare {
            Some(pair) => pair,
            None => pair,
        }
    }

    /// The secret key text that belongs to a public key text, if the store has
    /// it.
    pub fn get_nsec_by_npub(&self, npub: &str) -> (nsec: Option<String>)
        ensures
            nsec is Some <==> key_for_npub(self@.keys, npub@) is Some,
            nsec is Some ==> nsec->Some_0@ == key_for_npub(self@.keys, npub@)->Some_0.nsec,
    {
        let wanted: String = npub.to_owned();
        let ghost keys = self@.keys;
        let mut i: usize = 0;
        assert(keys.take(0) =~= Seq::empty());
        while i < self.inner.keys.len()
            invariant
                i <= self.inner.keys.len(),
                keys == key_models(self.inner.keys@),
                keys == self@.keys,
                wanted@ == npub@,
                key_for_npub(keys.take(i as int), npub@) is None,
            decreases self.inner.keys.len() - i,
        {
            let ghost upto = keys.take(i + 1);
            proof {
                assert(upto.drop_last() =~= keys.take(i as int));
            }
            if self.inner.keys[i].npub == wanted {
                proof {
                    lemma_key_for_npub_of_prefix(keys, i + 1, npub@);
                }
                return Some(self.inner.keys[i].nsec.clone());
            }
            i = i + 1;
        }
        assert(keys.take(i as int) =~= keys);
        None
    }

    /// All key pairs, in their order.
    pub fn all_keys(&self) -> (keys: Vec<KeyPair>)
        ensures
            key_models(keys@) == self@.keys,
    {
        let mut keys: Vec<KeyPair> = Vec::new();
        let mut i: usize = 0;
        while i < self.inner.keys.len()
            invariant
                i <= self.inner.keys.len(),
                keys.len() == i,
                forall|j: int| 0 <= j < i ==> #[trigger] keys[j]@ == self.inner.keys[j]@,
            decreases self.inner.keys.len() - i,
        {
            keys.push(self.inner.keys[i].clone());
            i = i + 1;
        }
        assert(key_models(keys@) =~= self@.keys);
        keys
    }

    /// All public key texts, in the order of their pairs.
    pub fn all_npubs(&self) -> (npubs: Vec<String>)
        ensures
            texts(npubs@) == self@.keys.map_values(|k: KeyPairModel| k.npub),
    {
        let mut npubs: Vec<String> = Vec::new();
        let mut i: usize = 0;
        while i < self.inner.keys.len()
            invariant
                i <= self.inner.keys.len(),
                npubs.len() == i,
                forall|j: int| 0 <= j < i ==> #[trigger] npubs[j]@ == self.inner.keys[j].npub@,
            decreases self.inner.keys.len() - i,
        {
            npubs.push(self.inner.keys[i].npub.clone());
            i = i + 1;
        }
        assert(texts(npubs@) =~= self@.keys.map_values(|k: KeyPairModel| k.npub));
        npubs
    }

    /// The number of key pairs.
    pub fn len(&self) -> (n: usize)
        ensures
            n == self@.keys.len(),
    {
        self.inner.keys.len()
    }
}

proof fn lemma_free_push(keys: Seq<KeyPairModel>, key: KeyPairModel, pair: KeyPairModel)
    ensures
        is_free_npub(pair.npub, keys.push(key)) == (is_free_npub(pair.npub, keys) && key.npub
            != pair.npub),
        is_free_nsec(pair.nsec, keys.push(key)) == (is_free_nsec(pair.nsec, keys) && key.nsec
            != pair.nsec),
{
    let more = keys.push(key);
    assert(more[keys.len() as int] == key);
    assert forall|i: int| 0 <= i < keys.len() implies #[trigger] more[i] == keys[i] by {}
    assert forall|i: int| 0 <= i < keys.len() implies #[trigger] keys[i] == more[i] by {}
}

/// Whether the pair of a key beside a secret key has a text of a pair of a
/// list: the secret key text of the pair at an index, or the public key text of
/// the pair at an index that is counted behind all those.
spec fn is_taken(secret: Seq<u8>, j: int, by: int, keys: Seq<KeyPairModel>) -> bool {
    let key = beside(secret, j as nat);
    let n = keys.len() as int;
    &&& is_secret_key(key)
    &&& parsed_secret(nsec_text(key)) == Some(key)
    &&& parsed_public(npub_text(public_key_of(key))) == Some(public_key_of(key))
    &&& 0 <= by < 2 * n
    &&& by < n ==> keys[by].nsec == nsec_text(key)
    &&& by >= n ==> keys[by - n].npub == npub_text(public_key_of(key))
}

/// No more keys beside a secret key are taken than there are texts.
proof fn lemma_taken_are_few(
    secret: Seq<u8>,
    taken_by: Seq<int>,
    keys: Seq<KeyPairModel>,
    bound: int,
)
    requires
        is_secret_key(secret),
        forall|j: int|
            0 <= j < taken_by.len() ==> #[trigger] is_taken(secret, j, taken_by[j], keys),
        forall|j: int| 0 <= j < taken_by.len() ==> #[trigger] taken_by[j] < bound,
        bound == keys.len() || bound == 2 * keys.len() && public_keys_tell_apart(),
        taken_by.len() <= u128::MAX,
    ensures
        taken_by.len() <= bound,
{
    assert forall|i: int, j: int|
        0 <= i < taken_by.len() && 0 <= j < taken_by.len() && i != j implies taken_by[i]
        != taken_by[j] by {
        assert(is_taken(secret, i, taken_by[i], keys));
        assert(is_taken(secret, j, taken_by[j], keys));
        lemma_beside(secret, i as nat, j as nat);
    }
    assert(taken_by.no_duplicates());
    taken_by.unique_seq_to_set();
    let all = vstd::set_lib::set_int_range(0, bound);
    vstd::set_lib::lemma_int_range(0, bound);
    assert forall|x: int| taken_by.to_set().contains(x) implies all.contains(x) by {
        let j = choose|j: int| 0 <= j < taken_by.len() && taken_by[j] == x;
        assert(is_taken(secret, j, taken_by[j], keys));
    }
    vstd::set_lib::lemma_len_subset(taken_by.to_set(), all);
}

proof fn lemma_key_for_cwd_of_prefix(keys: Seq<KeyPairModel>, n: int, cwd: Seq<char>)
    requires
        0 <= n <= keys.len(),
        key_for_cwd(keys.take(n), cwd) is Some,
    ensures
        key_for_cwd(keys, cwd) == key_for_cwd(keys.take(n), cwd),
    decreases keys.len(),
{
    if n == keys.len() {
        assert(keys.take(n) =~= keys);
    } else {
        assert(keys.drop_last().take(n) =~= keys.take(n));
        lemma_key_for_cwd_of_prefix(keys.drop_last(), n, cwd);
    }
}

proof fn lemma_key_for_npub_of_prefix(keys: Seq<KeyPairModel>, n: int, npub: Seq<char>)
    requires
        0 <= n <= keys.len(),
        key_for_npub(keys.take(n), npub) is Some,
    ensures
        key_for_npub(keys, npub) == key_for_npub(keys.take(n), npub),
    decreases keys.len(),
{
    if n == keys.len() {
        assert(keys.take(n) =~= keys);
    } else {
        assert(keys.drop_last().take(n) =~= keys.take(n));
        lemma_key_for_npub_of_prefix(keys.drop_last(), n, npub);
    }
}

}
