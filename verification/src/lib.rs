//! A dependency-driven, memoized evaluator for directed acyclic graphs of
//! computation nodes. Each node names an externally supplied operation over
//! named inputs and outputs; evaluating a target node runs exactly the nodes
//! the target transitively depends on, caching every result so that shared
//! producers execute at most once per pass. A narrow "gizmo" extension point
//! lets the target's operation be wrapped by pre/post hook calls.

pub mod errors;
pub mod gizmos;
pub mod graph;
pub mod graph_interpreter;
pub mod registry;
pub mod values;
