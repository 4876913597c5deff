//! Positions in a thread's history, and how a history is stored.

use crate::thread_id::ThreadId;
use vstd::prelude::*;

verus! {

/// A frozen position in a rollout: everything before it belongs to a history.
#[derive(Clone, Copy, Debug, PartialEq, Eq, Structural)]
pub struct HistoryPosition {
    /// The rollout.
    pub thread_id: ThreadId,
    /// The first ordinal behind the position.
    pub end_ordinal_exclusive: u64,
    /// The offset of the position in the rollout.
    pub end_byte_offset: u64,
}

/// How the history of a thread is stored.
#[derive(Clone, Copy, Debug, PartialEq, Eq, Structural)]
pub enum ThreadHistoryMode {
    /// Records without ordinals.
    Legacy,
    /// Records numbered by ordinals.
    Paginated,
}

} // verus!
