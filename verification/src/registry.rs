//! The operation registry: the external collaborator that gives each
//! operation name its meaning. The evaluator asks it for an operation's
//! metadata and invokes the operation and its gizmo hooks through it; what an
//! operation computes is entirely the implementor's business, so none of
//! these methods carries a postcondition and everything the evaluator
//! guarantees holds for every implementation.

use vstd::prelude::*;
use crate::errors::OpFailure;
use crate::gizmos::BlackjackGizmo;
use crate::values::ValueMap;

verus! {

/// Registered metadata of one operation.
#[derive(Clone, Copy, Debug, PartialEq, Eq, Structural)]
pub struct NodeDefinition {
    /// Whether the operation supports the gizmo pre/post hook protocol.
    pub has_gizmo: bool,
}

/// A name-keyed table of operations, supplied by the caller. An evaluation
/// pass resolves each node's operation name through `node_def` and drives the
/// operation through the three call methods.
pub trait NodeDefinitions {
    /// The metadata registered under `op_name`, or `None` if the name is
    /// unknown.
    fn node_def(&self, op_name: &String) -> Option<NodeDefinition>;

    /// Invokes the operation's main callable on a mapping from input names to
    /// values; it must yield a mapping from output names to values.
    fn call_op(&self, op_name: &String, inputs: ValueMap) -> Result<ValueMap, OpFailure>;

    /// Invokes the operation's pre-gizmo hook with the resolved input map and
    /// the prior round's gizmos; it must yield the replacement input map. The
    /// hook may also write user-edited values into the external parameter
    /// store.
    fn pre_gizmo(
        &self,
        op_name: &String,
        inputs: ValueMap,
        gizmos_in: &Vec<BlackjackGizmo>,
        params: &mut crate::graph_interpreter::ExternalParameterValues,
    ) -> Result<ValueMap, OpFailure>;

    /// Invokes the operation's post-gizmo hook on the outputs the main
    /// callable just produced; it must yield the new gizmo sequence.
    fn post_gizmo(&self, op_name: &String, outputs: &ValueMap) -> Result<
        Vec<BlackjackGizmo>,
        OpFailure,
    >;
}

} // verus!
