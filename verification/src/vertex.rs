//! The in-memory record held for one cached message: the message itself,
//! behind a shareable handle, together with its caller-supplied metadata.

use vstd::prelude::*;
use std::sync::Arc;
use crate::message::{clone_message_ref, Message, MessageRef};

verus! {

/// A cached pair of a message and its metadata. The cache owns the vertex;
/// callers receive shareable handles to the message and value-copies of the
/// metadata.
pub struct Vertex<T> {
    pub message: MessageRef,
    pub metadata: T,
}

impl<T> Vertex<T> {
    /// Builds a vertex, wrapping the message in a shareable handle.
    pub fn new(message: Message, metadata: T) -> (r: Vertex<T>)
        ensures
            r.message == message,
            r.metadata == metadata,
    {
        Vertex { message: Arc::new(message), metadata }
    }

    /// A borrow of the shareable handle to the message.
    pub fn message(&self) -> (r: &MessageRef)
        ensures
            r == self.message,
    {
        &self.message
    }

    /// A borrow of the metadata.
    pub fn metadata(&self) -> (r: &T)
        ensures
            r == self.metadata,
    {
        &self.metadata
    }

    /// Replaces the metadata in place.
    pub fn set_metadata(&mut self, metadata: T)
        ensures
            final(self).message == old(self).message,
            final(self).metadata == metadata,
    {
        self.metadata = metadata;
    }
}

impl<T: Clone> Clone for Vertex<T> {
    /// Clones the vertex: the copy shares the same message and carries a
    /// clone of the metadata.
    fn clone(&self) -> (r: Self)
        ensures
            r.message == self.message,
            cloned(self.metadata, r.metadata),
    {
        Vertex { message: clone_message_ref(&self.message), metadata: self.metadata.clone() }
    }
}

} // verus!
