//! One invocation of the relay: entry checks, then the validated append.
//!
//! The hosting environment supplies two participant handles — the sender,
//! which must have signed, and the writable queue region — plus the raw bytes
//! of the candidate message.  The functions here take only what those carry
//! as plain values: the handle count, the signature flag, the region bytes
//! and the message bytes.

use vstd::prelude::*;
use crate::buffer::{
    buffer_decode, buffer_encode, msg_decode, spec_append, Message, MessageBuffer,
};
use crate::error::MessageError;

verus! {

/// What the entry checks on the participant handles decide, given how many
/// handles were passed and whether the first one signed.
pub open spec fn spec_check_accounts(num_accounts: int, sender_signed: bool) -> Result<
    (),
    MessageError,
> {
    if num_accounts == 0 {
        Err(MessageError::NoAccountsPassed)
    } else if num_accounts == 1 {
        Err(MessageError::QueueNotPassed)
    } else if num_accounts > 2 {
        Err(MessageError::ExtraAccountsPassed)
    } else if !sender_signed {
        Err(MessageError::SenderDidNotSign)
    } else {
        Ok(())
    }
}

/// Checks the participant handles: exactly two must be passed, and the
/// sender must have signed.
pub fn check_accounts(num_accounts: usize, sender_signed: bool) -> (r: Result<(), MessageError>)
    ensures
        r == spec_check_accounts(num_accounts as int, sender_signed),
{
    if num_accounts == 0 {
        return Err(MessageError::NoAccountsPassed);
    }
    if num_accounts == 1 {
        return Err(MessageError::QueueNotPassed);
    }
    if num_accounts > 2 {
        return Err(MessageError::ExtraAccountsPassed);
    }
    if !sender_signed {
        return Err(MessageError::SenderDidNotSign);
    }
    Ok(())
}

/// What one validated append does to the region: the message is decoded
/// first, then the region is bound, and on success the region becomes the
/// encoding of the ring with the message appended.
pub open spec fn spec_process(region: Seq<u8>, instruction: Seq<u8>) -> Result<
    Seq<u8>,
    MessageError,
> {
    match msg_decode(instruction) {
        Err(e) => Err(e),
        Ok(m) => match buffer_decode(region) {
            Err(e) => Err(e),
            Ok(b) => Ok(buffer_encode(spec_append(b, m))),
        },
    }
}

/// Validates the candidate message, binds the region, appends, and writes
/// the updated ring back.  On any failure the region is left untouched.
pub fn process_message(region: &mut Vec<u8>, instruction: &[u8]) -> (r: Result<(), MessageError>)
    ensures
        match r {
            Ok(()) => spec_process(old(region)@, instruction@) == Ok::<Seq<u8>, MessageError>(
                final(region)@,
            ),
            Err(e) => spec_process(old(region)@, instruction@) == Err::<Seq<u8>, MessageError>(e)
                && final(region)@ == old(region)@,
        },
{
    let message = match Message::unpack(instruction) {
        Ok(m) => m,
        Err(e) => {
            return Err(e);
        },
    };
    let mut buffer = match MessageBuffer::unpack(region.as_slice()) {
        Ok(b) => b,
        Err(e) => {
            return Err(e);
        },
    };
    buffer.append(&message);
    *region = buffer.pack();
    Ok(())
}

/// What a whole invocation yields: the entry checks run first, then the
/// validated append.
pub open spec fn spec_process_instruction(
    num_accounts: int,
    sender_signed: bool,
    region: Seq<u8>,
    instruction: Seq<u8>,
) -> Result<Seq<u8>, MessageError> {
    match spec_check_accounts(num_accounts, sender_signed) {
        Err(e) => Err(e),
        Ok(()) => spec_process(region, instruction),
    }
}

/// Processes one invocation: checks the participant handles, then performs
/// the validated append on the region.  The call either fails with the first
/// error met and leaves the region exactly as it was, or rewrites it with
/// the appended ring.
pub fn process_instruction(
    num_accounts: usize,
    sender_signed: bool,
    region: &mut Vec<u8>,
    instruction: &[u8],
) -> (r: Result<(), MessageError>)
    ensures
        match r {
            Ok(()) => spec_process_instruction(
                num_accounts as int,
                sender_signed,
                old(region)@,
                instruction@,
            ) == Ok::<Seq<u8>, MessageError>(final(region)@),
            Err(e) => spec_process_instruction(
                num_accounts as int,
                sender_signed,
                old(region)@,
                instruction@,
            ) == Err::<Seq<u8>, MessageError>(e) && final(region)@ == old(region)@,
        },
{
    match check_accounts(num_accounts, sender_signed) {
        Ok(()) => process_message(region, instruction),
        Err(e) => Err(e),
    }
}

} // verus!
