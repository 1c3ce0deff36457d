//! Every way an evaluation pass can fail. Each failure aborts the whole pass
//! at once; no partial result is returned.

use vstd::prelude::*;

verus! {

/// What an operation or one of its gizmo hooks reports when it cannot do its
/// work. The registry's implementor raises these; the evaluator turns them
/// into the matching `GraphError`.
#[derive(Clone, Debug, PartialEq, Eq)]
pub enum OpFailure {
    /// The operation claims gizmo support but lacks the required hook.
    HookMissing,
    /// The operation or a hook did not honour the invocation protocol: it
    /// could not produce a well-formed mapping (or gizmo sequence).
    ContractViolation { detail: String },
}

/// A pass-aborting evaluation error.
#[derive(Clone, Debug, PartialEq, Eq)]
pub enum GraphError {
    /// The node's operation name has no registered definition.
    UnknownOperation { op_name: String },
    /// An external input has no entry in the parameter store.
    MissingExternalParameter { node_id: crate::graph::BjkNodeId, param_name: String },
    /// A connection names an output its producer did not put in the cache.
    MissingCachedOutput { node: crate::graph::BjkNodeId, param_name: String },
    /// The operation claims gizmo support but lacks a pre- or post-hook.
    GizmoHookMissing { op_name: String },
    /// The operation or a hook broke the invocation protocol.
    OperationContractViolation { detail: String },
    /// The target's declared return output is absent from its cached outputs.
    MissingReturnOutput { param_name: String },
}

/// Turns an operation-side failure into the evaluator's error, keeping the
/// operation's name or detail. Only the two operation-side variants can come
/// out: the evaluator alone raises the others.
pub fn graph_error_of(op_name: &String, failure: OpFailure) -> (r: GraphError)
    ensures
        match failure {
            OpFailure::HookMissing => r matches GraphError::GizmoHookMissing { op_name: o } && o@
                == op_name@,
            OpFailure::ContractViolation { detail } => r
                matches GraphError::OperationContractViolation { detail: d } && d == detail,
        },
{
    match failure {
        OpFailure::HookMissing => GraphError::GizmoHookMissing { op_name: op_name.clone() },
        OpFailure::ContractViolation { detail } => GraphError::OperationContractViolation { detail },
    }
}

} // verus!
