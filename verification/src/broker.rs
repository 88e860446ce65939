//! The way to the broker.

use vstd::prelude::*;

use crate::error::AppError;

verus! {

/// Something that takes messages for the broker.
pub trait BrokerSender: Send + Sync {
    /// Sends a message to the broker.
    fn send(&self, msg: &str) -> Result<(), AppError>;
}

}
