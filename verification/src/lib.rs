pub mod app;
pub mod broker;
pub mod call_laws;
pub mod config;
pub mod error;
pub mod json;
pub mod json_object;
pub mod key_laws;
pub mod keys;
pub mod keys_reader;
pub mod message_laws;
pub mod nostr;
pub mod other_keys;
pub mod relay;
pub mod seen;
pub mod text;
