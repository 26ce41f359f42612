use vstd::prelude::*;

verus! {

/// Errors produced while validating a dataflow definition or evaluating a
/// trigger against it.
#[derive(Debug, Clone, PartialEq, Eq)]
pub enum Error {
    /// No trigger node in the task declares the given local id.
    TaskTriggerNotFound(String),
    /// The edge list describes a directed cycle, so no topological order exists.
    CycleDetected,
    /// An edge endpoint is not an index into the node list.
    EdgeOutOfRange,
    /// The node list is too long for node indices to address every node.
    TooManyNodes,
    /// A walk was asked to start outside the node list.
    StartNodeOutOfRange,
}

} // verus!
