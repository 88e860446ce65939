//! Nostr keys and identifiers as plain bytes and texts.
//!
//! Key derivation and the bech32 texts of keys come from `nostr_sdk`. A key is
//! held here as its bytes, and each function of the crate that is called has
//! one wrapper.

use nostr_sdk::ToBech32;
use vstd::prelude::*;

use crate::text::hex_text;

verus! {

/// The number that big-endian bytes stand for.
pub open spec fn big_endian(bytes: Seq<u8>) -> nat
    decreases bytes.len(),
{
    if bytes.len() == 0 {
        0
    } else {
        big_endian(bytes.drop_last()) * 256 + bytes.last() as nat
    }
}

/// The order of the secp256k1 group.
pub open spec fn group_order() -> nat {
    0xFFFFFFFFFFFFFFFFFFFFFFFFFFFFFFFEBAAEDCE6AF48A03BBFD25E8CD0364141nat
}

/// Whether some bytes are a secret key: 32 bytes whose number is neither zero
/// nor beyond the group order.
pub open spec fn is_secret_key(bytes: Seq<u8>) -> bool {
    &&& bytes.len() == 32
    &&& 0 < big_endian(bytes) < group_order()
}

/// The public key that belongs to a secret key.
pub uninterp spec fn public_key_of(secret: Seq<u8>) -> Seq<u8>;

/// The bech32 text of a public key.
pub uninterp spec fn npub_text(public: Seq<u8>) -> Seq<char>;

/// The bech32 text of a secret key.
pub uninterp spec fn nsec_text(secret: Seq<u8>) -> Seq<char>;

/// The secret key that a text stands for, if it stands for one.
pub uninterp spec fn parsed_secret(text: Seq<char>) -> Option<Seq<u8>>;

/// The public key that a text stands for, if it stands for one.
pub uninterp spec fn parsed_public(text: Seq<char>) -> Option<Seq<u8>>;

/// Whether two secret keys have the same public key only where they are the
/// same or each other's negatives, as it is on the curve.
pub open spec fn public_keys_tell_apart() -> bool {
    forall|a: Seq<u8>, b: Seq<u8>|
        is_secret_key(a) && is_secret_key(b) && #[trigger] public_key_of(a)
            == #[trigger] public_key_of(b) ==> a == b || big_endian(a) + big_endian(b)
            == group_order()
}

/// A secret key that was drawn at random. Drawing is the only way to get one.
pub struct DrawnKey {
    bytes: [u8; 32],
}

impl View for DrawnKey {
    type V = Seq<u8>;

    closed spec fn view(&self) -> Seq<u8> {
        self.bytes@
    }
}

impl DrawnKey {
    /// The secret key.
    pub fn secret(&self) -> (secret: &[u8; 32])
        ensures
            secret@ == self@,
    {
        &self.bytes
    }
}

/// A time that was read from the clock, in seconds since the Unix epoch.
/// Reading the clock is the only way to get one.
pub struct ClockReading {
    seconds: u64,
}

impl View for ClockReading {
    type V = u64;

    closed spec fn view(&self) -> u64 {
        self.seconds
    }
}

impl ClockReading {
    /// The seconds.
    pub fn seconds(&self) -> (seconds: u64)
        ensures
            seconds == self@,
    {
        self.seconds
    }
}

/// `Keys::generate`, of which the secret key is kept. The key is random; all
/// that is claimed is that it is a secret key.
#[verifier::external_body]
pub(crate) fn generate_secret_key() -> (secret: DrawnKey)
    ensures
        is_secret_key(secret@),
{
    DrawnKey { bytes: nostr_sdk::Keys::generate().secret_key().to_secret_bytes() }
}

/// `Keys::new`, which derives the public key of a secret key. The result
/// depends on the secret key alone.
#[verifier::external_body]
pub(crate) fn public_key(secret: &[u8; 32]) -> (public: [u8; 32])
    requires
        is_secret_key(secret@),
    ensures
        public@ == public_key_of(secret@),
{
    let secret = nostr_sdk::SecretKey::from_slice(secret).unwrap();
    nostr_sdk::Keys::new(secret).public_key().to_bytes()
}

/// `PublicKey::to_bech32`, whose error type has no value. The text depends on
/// the key alone, has 63 characters, starts with `npub1`, and
/// `PublicKey::parse` reads the key back from it.
#[verifier::external_body]
pub(crate) fn public_key_to_bech32(public: &[u8; 32]) -> (npub: String)
    ensures
        npub@ == npub_text(public@),
        npub@.len() == 63,
        "npub1"@.is_prefix_of(npub@),
        parsed_public(npub@) == Some(public@),
{
    nostr_sdk::PublicKey::from_byte_array(*public).to_bech32().unwrap()
}

/// `SecretKey::to_bech32`, whose error type has no value. The text depends on
/// the key alone, has 63 characters, starts with `nsec1`, and `Keys::parse`
/// reads the key back from it.
#[verifier::external_body]
pub(crate) fn secret_key_to_bech32(secret: &[u8; 32]) -> (nsec: String)
    requires
        is_secret_key(secret@),
    ensures
        nsec@ == nsec_text(secret@),
        nsec@.len() == 63,
        "nsec1"@.is_prefix_of(nsec@),
        parsed_secret(nsec@) == Some(secret@),
{
    nostr_sdk::SecretKey::from_slice(secret).unwrap().to_bech32().unwrap()
}

/// `Keys::parse`, of which the secret key is kept. Whether a text holds a
/// secret key, and which, depends on the text alone; the only error it gives
/// is `InvalidSecretKey`, which reads `Invalid secret key`.
#[verifier::external_body]
pub(crate) fn parse_secret_key(text: &str) -> (secret: Result<[u8; 32], String>)
    ensures
        secret is Ok ==> parsed_secret(text@) == Some(secret->Ok_0@),
        secret is Ok ==> is_secret_key(secret->Ok_0@),
        secret is Err ==> parsed_secret(text@) is None,
        secret is Err ==> secret->Err_0@ == "Invalid secret key"@,
{
    match nostr_sdk::Keys::parse(text) {
        Ok(keys) => Ok(keys.secret_key().to_secret_bytes()),
        Err(e) => Err(e.to_string()),
    }
}

/// `PublicKey::parse`. Whether a text holds a public key, and which, depends
/// on the text alone; the only error it gives is `InvalidPublicKey`, which
/// reads `Invalid public key`.
#[verifier::external_body]
pub(crate) fn parse_public_key(text: &str) -> (public: Result<[u8; 32], String>)
    ensures
        public is Ok ==> parsed_public(text@) == Some(public->Ok_0@),
        public is Err ==> parsed_public(text@) is None,
        public is Err ==> public->Err_0@ == "Invalid public key"@,
{
    match nostr_sdk::PublicKey::parse(text) {
        Ok(public) => Ok(public.to_bytes()),
        Err(e) => Err(e.to_string()),
    }
}

/// `EventId::to_hex`: the lowercase hexadecimal text of the identifier.
#[verifier::external_body]
pub(crate) fn event_id_to_hex(id: &[u8; 32]) -> (text: String)
    ensures
        text@ == hex_text(id@),
{
    nostr_sdk::EventId::from_byte_array(*id).to_hex()
}

/// `Timestamp::now`: the seconds since the Unix epoch, read from the clock.
/// Nothing is claimed of the time.
#[verifier::external_body]
pub(crate) fn unix_now() -> (now: ClockReading) {
    ClockReading { seconds: nostr_sdk::Timestamp::now().as_u64() }
}

}
