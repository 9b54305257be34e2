//! The approval barrier: executions that wait for a human decision.
use vstd::prelude::*;

use crate::config::ApprovalConfig;

verus! {

/// Returns true if the hook config requires human approval before execution.
pub fn requires_approval(approval: Option<&ApprovalConfig>) -> (b: bool)
    ensures
        b == (approval matches Some(a) && a.required),
{
    match approval {
        Some(a) => a.required,
        None => false,
    }
}

} // verus!
