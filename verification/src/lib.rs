//! A fixed-capacity append-only message relay.
//!
//! The persisted state is a caller-supplied byte region holding a ring of 128
//! message slots.  A candidate message arrives as raw bytes, is decoded and
//! validated, the region is bound to the ring layout, and the slot after the
//! current head is overwritten with the new message.

pub mod buffer;
pub mod error;
pub mod relay;
