//! Entries of the per-hook execution queue.
use vstd::prelude::*;

verus! {

/// A queue entry returned by peek/dequeue operations.
#[derive(Debug)]
pub struct QueueEntry {
    pub id: String,
    pub hook_slug: String,
    pub execution_id: String,
    pub position: i64,
}

} // verus!
