//! Error taxonomy of the relay.

use vstd::prelude::*;

verus! {

/// Errors that the relay may return.
#[derive(Clone, Copy, Debug, PartialEq, Eq, Structural)]
pub enum MessageError {
    /// Candidate message is longer than one encoded record
    MessageTooLarge,
    /// Candidate message is shorter than one encoded record
    MessageTooSmall,
    /// Declared payload length exceeds the payload size
    MessageLengthTooLarge,
    /// Non-zero payload bytes after the declared length
    MessageLengthTooSmall,
    /// Declared payload length is zero
    MessageEmpty,
    /// Queue region has the wrong size
    MessageQueueAccountWrongSize,
    /// Queue head is out of bounds
    MessageQueueBad,
    /// Signer and queue accounts not passed
    NoAccountsPassed,
    /// Queue account not passed
    QueueNotPassed,
    /// Extra accounts passed
    ExtraAccountsPassed,
    /// Sender did not sign
    SenderDidNotSign,
}

} // verus!
