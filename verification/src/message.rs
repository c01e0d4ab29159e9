//! The value types that flow through the tangle cache: message identifiers,
//! messages, shareable message handles, and the milestone bookkeeping types
//! used at bootstrap.

use vstd::prelude::*;
use std::sync::Arc;

verus! {

/// A fixed-size, opaque message identifier: 256 bits held as four 64-bit
/// words, compared word by word. The all-zero value is the distinguished
/// `null` identifier used as a root sentinel.
#[derive(Clone, Copy, PartialEq, Eq, Structural, Hash, Debug)]
pub struct MessageId {
    pub w0: u64,
    pub w1: u64,
    pub w2: u64,
    pub w3: u64,
}

impl MessageId {
    /// The distinguished all-zero identifier, used as the root sentinel.
    pub fn null() -> (r: MessageId)
        ensures
            r == MessageId::null_id(),
    {
        MessageId { w0: 0, w1: 0, w2: 0, w3: 0 }
    }

    /// The `null` identifier as a spec-level value.
    pub open spec fn null_id() -> MessageId {
        MessageId { w0: 0, w1: 0, w2: 0, w3: 0 }
    }

    /// Builds an identifier from a small integer; convenient for callers that
    /// only need distinct identifiers.
    pub fn from_u64(n: u64) -> (r: MessageId)
        ensures
            r == (MessageId { w0: 0, w1: 0, w2: 0, w3: n }),
    {
        MessageId { w0: 0, w1: 0, w2: 0, w3: n }
    }
}

/// An immutable message: two parent identifiers forming the edges of the
/// graph, and a payload that the cache never interprets.
#[derive(Clone, Debug, PartialEq, Eq)]
pub struct Message {
    pub parent1: MessageId,
    pub parent2: MessageId,
    pub payload: Vec<u8>,
}

impl Message {
    /// Builds a message from its two parent references and its payload.
    pub fn new(parent1: MessageId, parent2: MessageId, payload: Vec<u8>) -> (r: Message)
        ensures
            r.parent1 == parent1,
            r.parent2 == parent2,
            r.payload == payload,
    {
        Message { parent1, parent2, payload }
    }

    /// The first parent reference.
    pub fn parent1(&self) -> (r: MessageId)
        ensures
            r == self.parent1,
    {
        self.parent1
    }

    /// The second parent reference.
    pub fn parent2(&self) -> (r: MessageId)
        ensures
            r == self.parent2,
    {
        self.parent2
    }

    /// The raw payload bytes.
    pub fn payload(&self) -> (r: &Vec<u8>)
        ensures
            r == self.payload,
    {
        &self.payload
    }

    /// The first parent, as a spec-level value.
    pub open spec fn spec_parent1(self) -> MessageId {
        self.parent1
    }

    /// The second parent, as a spec-level value.
    pub open spec fn spec_parent2(self) -> MessageId {
        self.parent2
    }
}

/// A cheaply shareable, reference-counted handle to a [`Message`]. The cache
/// holds one count per vertex and every handle returned to a caller holds
/// another; the message is freed when all holders drop.
pub type MessageRef = Arc<Message>;

/// Relies on `Arc::clone`: the new handle points at the very same allocation,
/// so it carries the same message.
#[verifier::external_body]
pub fn clone_message_ref(v: &MessageRef) -> (res: MessageRef)
    ensures
        res == v,
{
    v.clone()
}

/// Relies on `Arc::deref`: dereferencing a handle yields the pointed-to message.
#[verifier::external_body]
pub fn message_ref_inner(v: &MessageRef) -> (res: &Message)
    ensures
        res == v,
{
    &**v
}

/// The index of a notarized checkpoint (milestone) of the ledger.
#[derive(Clone, Copy, PartialEq, Eq, Structural, PartialOrd, Ord, Hash, Debug)]
pub struct MilestoneIndex(pub u32);

/// A message identifier treated as a leaf of the graph at bootstrap: ancestors
/// beyond it are considered already solidified and are not walked.
#[derive(Clone, Copy, PartialEq, Eq, Structural, Hash, Debug)]
pub struct SolidEntryPoint(pub MessageId);

impl SolidEntryPoint {
    /// The identifier this entry point stands for.
    pub fn message_id(&self) -> (r: MessageId)
        ensures
            r == self.0,
    {
        self.0
    }
}

} // verus!
