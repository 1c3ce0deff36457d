//! Interactive state attached to the evaluation target. A gizmo is derived
//! from the target's outputs by its operation's post-hook, and a prior
//! round's gizmos may be fed back into the pre-hook to rewrite the target's
//! inputs.

use vstd::prelude::*;

verus! {

/// One piece of interactive state for the target node.
#[derive(Clone, Debug, PartialEq, Eq)]
pub struct BlackjackGizmo {
    pub value: crate::values::BlackjackValue,
}

} // verus!
