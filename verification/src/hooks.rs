//! The capability boundary to durable storage. The cache uses these hooks to
//! extend its effective volume: entries it has evicted or never seen are
//! fetched through them, and fresh entries and edges are written through
//! them. Hook failures never abort the in-memory operation.

use vstd::prelude::*;
use core::marker::PhantomData;
use crate::message::{Message, MessageId};

verus! {

/// Hooks into a durable storage medium. Implementors choose the error type;
/// the cache swallows every error and keeps the in-memory result.
pub trait Hooks<T> {
    /// An error generated by these hooks.
    type Error;

    /// Fetches a message and its metadata; `Ok(None)` means "not known",
    /// which is distinct from an error.
    fn get(&mut self, message_id: &MessageId) -> Result<Option<(Message, T)>, Self::Error>;

    /// Writes a message and its metadata through; may overwrite.
    fn insert(&mut self, message_id: MessageId, message: Message, metadata: T) -> Result<
        (),
        Self::Error,
    >;

    /// Fetches the authoritative children list of a message; `Ok(None)`
    /// means unknown.
    fn fetch_approvers(&mut self, message_id: &MessageId) -> Result<
        Option<Vec<MessageId>>,
        Self::Error,
    >;

    /// Writes one parent-to-child edge through; idempotent.
    fn insert_approver(&mut self, message_id: MessageId, approver: MessageId) -> Result<
        (),
        Self::Error,
    >;
}

/// Hooks that know nothing and store nothing: with them the cache runs in a
/// purely in-memory mode and never sees a hook error.
pub struct NullHooks<T>(pub PhantomData<T>);

impl<T> NullHooks<T> {
    /// Builds the null hooks.
    pub fn new() -> (r: NullHooks<T>)
        ensures
            r == NullHooks::<T>(PhantomData),
    {
        NullHooks(PhantomData)
    }
}

impl<T> Default for NullHooks<T> {
    /// Builds the null hooks.
    fn default() -> (r: Self)
        ensures
            r == NullHooks::<T>(PhantomData),
    {
        NullHooks(PhantomData)
    }
}

impl<T> Hooks<T> for NullHooks<T> {
    type Error = ();

    /// Knows nothing: every fetch reports "not known", and never errors.
    fn get(&mut self, _message_id: &MessageId) -> (r: Result<
        Option<(Message, T)>,
        Self::Error,
    >)
        ensures
            r == Result::<Option<(Message, T)>, ()>::Ok(Option::<(Message, T)>::None),
    {
        Ok(None)
    }

    /// Stores nothing, and never errors.
    fn insert(&mut self, _message_id: MessageId, _message: Message, _metadata: T) -> (r: Result<
        (),
        Self::Error,
    >)
        ensures
            r == Result::<(), ()>::Ok(()),
    {
        Ok(())
    }

    /// Knows no children either, and never errors.
    fn fetch_approvers(&mut self, _message_id: &MessageId) -> (r: Result<
        Option<Vec<MessageId>>,
        Self::Error,
    >)
        ensures
            r == Result::<Option<Vec<MessageId>>, ()>::Ok(Option::<Vec<MessageId>>::None),
    {
        Ok(None)
    }

    /// Stores no edges, and never errors.
    fn insert_approver(&mut self, _message_id: MessageId, _approver: MessageId) -> (r: Result<
        (),
        Self::Error,
    >)
        ensures
            r == Result::<(), ()>::Ok(()),
    {
        Ok(())
    }
}

} // verus!
