//! The two message kinds carried by the event bus. Both are transient
//! snapshots derived from the registry; neither is persisted.

use vstd::prelude::*;

use crate::registry::MsgRef;

verus! {

/// A file changed: deliver new content to these messages. One such message
/// is published per mirror group of the pushed repository.
pub struct Update {
    pub channel_id: u64,
    pub message_ids: Vec<u64>,
    pub url: String,
}

/// A repository just became seen: perform these queued deferred actions.
/// Emitted once per seen transition.
pub struct OnSeen {
    pub deletions: Vec<MsgRef>,
    pub dereacts: Vec<MsgRef>,
}

} // verus!
