use vstd::prelude::*;

verus! {

/// Why a node refused an inbound message.
///
/// A refused message leaves the node exactly as it was and produces no
/// outbound traffic.
#[derive(Clone, Copy, Debug, PartialEq, Eq, Structural)]
pub enum NodeError {
    /// A request arrived before the node was given its identity.
    Uninitialized,
    /// The identity carried by an `init` request has no decimal index after
    /// its first character, or the index does not fit in a machine word.
    MalformedNodeId,
    /// Answering would push one of the node's counters past `usize::MAX`.
    CounterExhausted,
}

} // verus!
