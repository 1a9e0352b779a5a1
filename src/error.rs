use vstd::prelude::*;

verus! {

/// Errors surfaced to the owner of the connection.
#[derive(Debug, Clone, Copy, PartialEq, Eq, Structural)]
pub enum ConnectionError {
    /// A window update would grow the flow-control window past its ceiling.
    FlowControlError,
}

} // verus!
