//! The error kinds the core distinguishes. Only `NotFound` is ever
//! swallowed: a transaction can leave the pool between being listed and
//! being fetched, and that is no fault. Every other kind surfaces as
//! process termination.

use vstd::prelude::*;

verus! {

#[derive(Clone, Copy, Debug, PartialEq, Eq, Structural)]
pub enum CoreError {
    /// Invalid or incomplete configuration; fatal at startup.
    Config,
    /// The node is reachable but has no transaction index; fatal at startup.
    NodePrecondition,
    /// Connection refused or a network-level fault; retried while waiting
    /// for the node, fatal elsewhere.
    NodeUnreachable,
    /// A malformed response from the node; fatal.
    RpcProtocol,
    /// A transaction or block is absent; recovered locally by skipping.
    NotFound,
    /// The event stream failed or began against a node that was not yet
    /// working; fatal.
    EventStreamFatal,
    /// The updater saw no event within its timeout; escalated to a clean
    /// process shutdown.
    Stall,
}

impl CoreError {
    /// Is this error swallowed during normal operation rather than
    /// surfaced?
    pub open spec fn recoverable_spec(self) -> bool {
        self is NotFound
    }

    /// Only `NotFound` is recovered locally; everything else terminates.
    pub fn is_recoverable(&self) -> (r: bool)
        ensures
            r == self.recoverable_spec(),
    {
        match self {
            CoreError::NotFound => true,
            _ => false,
        }
    }
}

/// The node must run with a transaction index, or raw transactions cannot
/// be fetched: refuse startup without one.
pub fn check_tx_index(has_index: bool) -> (r: Result<(), CoreError>)
    ensures
        has_index <==> r is Ok,
        !has_index ==> r == Err::<(), CoreError>(CoreError::NodePrecondition),
{
    if has_index {
        Ok(())
    } else {
        Err(CoreError::NodePrecondition)
    }
}

} // verus!
