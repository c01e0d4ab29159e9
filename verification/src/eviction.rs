//! The least-recently-used eviction tracker: a bounded map from message
//! identifiers to logical timestamps. The highest timestamp is the most
//! recently used entry; eviction removes the entry with the lowest one.

use vstd::prelude::*;
use crate::assoc::AssocMap;
use crate::message::MessageId;

verus! {

/// A bounded priority tracker for the cache: each tracked identifier carries
/// the logical timestamp of its last use.
pub struct EvictionQueue {
    entries: AssocMap<u64>,
    cap: usize,
}

impl EvictionQueue {
    /// The timestamp held for each tracked identifier.
    pub closed spec fn view(self) -> Map<MessageId, u64> {
        self.entries@
    }

    /// The fixed capacity this queue was built with.
    pub closed spec fn spec_cap(self) -> nat {
        self.cap as nat
    }

    /// Well-formed: one entry per identifier, never more entries than the
    /// capacity, and a positive capacity.
    pub open spec fn wf(self) -> bool {
        &&& self.inv()
        &&& self@.dom().len() <= self.spec_cap()
    }

    /// The representation invariant alone, without the bound on the number
    /// of entries.
    pub closed spec fn inv(self) -> bool {
        &&& self.entries.wf()
        &&& self.cap >= 1
        &&& self@.dom().finite()
    }

    /// Builds an empty queue with the given capacity.
    pub fn new(cap: usize) -> (r: EvictionQueue)
        requires
            cap >= 1,
        ensures
            r.wf(),
            r@ == Map::<MessageId, u64>::empty(),
            r.spec_cap() == cap,
    {
        let r = EvictionQueue { entries: AssocMap::new(), cap };
        proof {
            assert(r@.dom() =~= Set::<MessageId>::empty());
        }
        r
    }

    /// The number of tracked identifiers.
    pub fn len(&self) -> (r: usize)
        requires
            self.inv(),
        ensures
            r == self@.dom().len(),
    {
        self.entries.len()
    }

    /// The fixed capacity.
    pub fn cap(&self) -> (r: usize)
        ensures
            r == self.spec_cap(),
    {
        self.cap
    }

    /// Tracks `id` with timestamp `ts`, or refreshes its timestamp when it
    /// is already tracked.
    pub fn put(&mut self, id: MessageId, ts: u64)
        requires
            old(self).wf(),
            old(self)@.dom().len() < old(self).spec_cap() || old(self)@.contains_key(id),
        ensures
            final(self).wf(),
            final(self)@ == old(self)@.insert(id, ts),
            final(self).spec_cap() == old(self).spec_cap(),
    {
        self.entries.insert(id, ts);
        proof {
            assert(final(self)@.dom() =~= old(self)@.dom().insert(id));
            if old(self)@.contains_key(id) {
                assert(old(self)@.dom().insert(id) =~= old(self)@.dom());
            } else {
                vstd::set::axiom_set_insert_len(old(self)@.dom(), id);
            }
        }
    }

    /// Discards every tracked entry.
    pub fn clear(&mut self)
        requires
            old(self).inv(),
        ensures
            final(self).wf(),
            final(self)@ == Map::<MessageId, u64>::empty(),
            final(self).spec_cap() == old(self).spec_cap(),
    {
        self.entries.clear();
        proof {
            assert(final(self)@.dom() =~= Set::<MessageId>::empty());
        }
    }

    /// Removes and returns the least-recently-used entry; `None` only on an
    /// empty queue.
    pub fn pop_lru(&mut self) -> (r: Option<(MessageId, u64)>)
        requires
            old(self).inv(),
        ensures
            final(self).inv(),
            final(self).spec_cap() == old(self).spec_cap(),
            (match r {
                Some(p) => {
                    &&& old(self)@.contains_key(p.0)
                    &&& old(self)@[p.0] == p.1
                    &&& forall|k: MessageId|
                        old(self)@.contains_key(k) ==> p.1 <= #[trigger] old(self)@[k]
                    &&& final(self)@ == old(self)@.remove(p.0)
                    &&& final(self)@.dom().len() == old(self)@.dom().len() - 1
                },
                None => old(self)@ == Map::<MessageId, u64>::empty() && *final(self) == *old(
                    self,
                ),
            }),
    {
        let r = self.entries.pop_min();
        proof {
            if let Some(p) = r {
                assert(old(self)@.dom().remove(p.0) =~= final(self)@.dom());
                vstd::set::axiom_set_remove_len(old(self)@.dom(), p.0);
            }
        }
        r
    }
}

} // verus!
