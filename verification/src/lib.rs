//! Core engine for mirroring a hosted text file into a fixed set of chat
//! messages: the mirror-group registry, the per-repository seen-state machine
//! with its deferred-action queues, the event fan-out that turns upstream
//! notifications into bus messages, and the pagination algorithm that maps
//! text onto pre-allocated message slots.

use vstd::prelude::*;

pub mod bus;
pub mod commands;
pub mod ident;
pub mod ingest;
pub mod pagination;
pub mod registry;
pub mod schema;
pub mod secrets;
pub mod urls;

verus! {

/// Platform-imposed byte limit for the body of one chat message.
pub const MESSAGE_MAX_LENGTH: usize = 2000;

} // verus!
