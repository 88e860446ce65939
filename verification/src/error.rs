//! The gateway's error type.

use vstd::prelude::*;
use vstd::string::*;

verus! {

/// Why an operation of the gateway failed, with a text that says more.
#[derive(Debug)]
pub enum AppError {
    /// The key store could not give a key.
    Keys(String),
    /// A JSON text could not be read or written.
    Json(String),
    /// A key was malformed, or a Nostr operation failed.
    Nostr(String),
    /// The broker could not be reached.
    Broker(String),
    /// The configuration is not usable.
    Config(String),
    /// A file could not be read or written.
    Io(String),
}

/// The message of an error: its kind, a colon, and its text.
pub open spec fn error_message(e: AppError) -> Seq<char> {
    match e {
        AppError::Keys(text) => "key error: "@ + text@,
        AppError::Json(text) => "json error: "@ + text@,
        AppError::Nostr(text) => "nostr error: "@ + text@,
        AppError::Broker(text) => "broker error: "@ + text@,
        AppError::Config(text) => "config error: "@ + text@,
        AppError::Io(text) => "io error: "@ + text@,
    }
}

impl AppError {
    /// The message of this error.
    pub fn to_string(&self) -> (message: String)
        ensures
            message@ == error_message(*self),
    {
        match self {
            AppError::Keys(text) => "key error: ".to_owned().concat(text.as_str()),
            AppError::Json(text) => "json error: ".to_owned().concat(text.as_str()),
            AppError::Nostr(text) => "nostr error: ".to_owned().concat(text.as_str()),
            AppError::Broker(text) => "broker error: ".to_owned().concat(text.as_str()),
            AppError::Config(text) => "config error: ".to_owned().concat(text.as_str()),
            AppError::Io(text) => "io error: ".to_owned().concat(text.as_str()),
        }
    }
}

/// `serde_json::Error`, which is carried and shown but not looked into.
#[verifier::external_type_specification]
#[verifier::external_body]
pub struct ExJsonError(serde_json::Error);

/// An error of the JSON serializer becomes a JSON error with the same text.
impl From<serde_json::Error> for AppError {
    fn from(e: serde_json::Error) -> (error: Self)
        ensures
            error matches AppError::Json(text) && to_string_from_display_ensures(&e, text),
    {
        AppError::Json(e.to_string())
    }
}

impl vstd::std_specs::convert::FromSpecImpl<serde_json::Error> for AppError {
    open spec fn obeys_from_spec() -> bool {
        false
    }

    open spec fn from_spec(e: serde_json::Error) -> Self {
        arbitrary()
    }
}

}
