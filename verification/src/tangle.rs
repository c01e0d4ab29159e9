//! The tangle cache: a bounded in-memory map of vertices over a durable
//! back-end, with a parent-to-children index, least-recently-used eviction,
//! read-through on misses and write-through on inserts.

use vstd::prelude::*;
use crate::assoc::{AssocMap, IdSet};
use crate::eviction::EvictionQueue;
use crate::hooks::{Hooks, NullHooks};
use crate::message::{clone_message_ref, message_ref_inner, Message, MessageId, MessageRef, MilestoneIndex};
use crate::vertex::Vertex;

verus! {

/// The default number of vertices the cache holds before evicting.
pub const CACHE_LEN: usize = 100_000;

/// The children recorded for one parent: the set of identifiers seen so far,
/// and whether that set is known to be exhaustive, which it becomes only
/// after it has been reconciled with the back-end at least once.
pub struct ChildrenEntry {
    pub ids: IdSet,
    pub exhaustive: bool,
}

/// A bounded, in-memory cache of the message graph. Reads consult the cache
/// and fall back to the hooks; writes go to the cache and through to the
/// hooks; each successful insert is followed by least-recently-used
/// eviction back down to the capacity.
pub struct Tangle<T, H = NullHooks<T>> {
    vertices: AssocMap<Vertex<T>>,
    children: AssocMap<ChildrenEntry>,
    seps: AssocMap<MilestoneIndex>,
    cache_counter: u64,
    cache_queue: EvictionQueue,
    hooks: H,
    latest_milestone_index: MilestoneIndex,
    snapshot_index: MilestoneIndex,
    pruning_index: MilestoneIndex,
}

impl<T: Clone, H: Hooks<T>> Tangle<T, H> {
    /// The cached vertices, by message identifier.
    pub closed spec fn cached(self) -> Map<MessageId, Vertex<T>> {
        self.vertices@
    }

    /// The children index: for each parent, the set of children seen and
    /// whether that set is exhaustive.
    pub closed spec fn child_entries(self) -> Map<MessageId, (Set<MessageId>, bool)> {
        self.children@.map_values(|e: ChildrenEntry| (e.ids@, e.exhaustive))
    }

    /// The solid entry points registered so far.
    pub closed spec fn sep_entries(self) -> Map<MessageId, MilestoneIndex> {
        self.seps@
    }

    /// The hook set this tangle calls out to.
    pub closed spec fn hooks_spec(self) -> H {
        self.hooks
    }

    /// The logical timestamp each cached identifier was last used at.
    pub closed spec fn queue(self) -> Map<MessageId, u64> {
        self.cache_queue@
    }

    /// The next logical timestamp to be handed out.
    pub closed spec fn counter(self) -> u64 {
        self.cache_counter
    }

    /// The number of vertices the cache holds before evicting.
    pub closed spec fn cap(self) -> nat {
        (self.cache_queue.spec_cap() - 1) as nat
    }

    /// Timestamps are still strictly increasing: until the 64-bit logical
    /// clock is exhausted, every tracked timestamp is older than the next
    /// one to be handed out, so recency comparisons are exact.
    pub open spec fn clock_exact(self) -> bool {
        self.counter() < u64::MAX
    }

    /// Well-formed: the indexes are valid, the queue tracks exactly the
    /// cached identifiers, the cache is within its capacity, and no tracked
    /// timestamp is ahead of the logical clock.
    pub closed spec fn wf(self) -> bool {
        &&& self.vertices.wf()
        &&& self.children_ok()
        &&& self.seps.wf()
        &&& self.cache_queue.inv()
        &&& self.cache_queue.spec_cap() >= 1
        &&& self.queue().dom() =~= self.cached().dom()
        &&& self.cached().dom().finite()
        &&& self.cached().dom().len() <= self.cap()
        &&& forall|k: MessageId|
            self.queue().contains_key(k) ==> #[trigger] self.queue()[k] < self.counter()
                || self.counter() == u64::MAX
    }

    /// The children index is valid: one entry per parent, and each entry's
    /// member list holds no duplicates.
    closed spec fn children_ok(self) -> bool {
        &&& self.children.wf()
        &&& forall|k: MessageId|
            self.children@.contains_key(k) ==> (#[trigger] self.children@[k]).ids.wf()
    }

    /// The number of cached vertices.
    pub open spec fn len_spec(self) -> nat {
        self.cached().dom().len()
    }

    /// Builds an empty tangle with the default capacity.
    pub fn new(hooks: H) -> (r: Self)
        ensures
            r.wf(),
            r.cached() == Map::<MessageId, Vertex<T>>::empty(),
            r.child_entries() == Map::<MessageId, (Set<MessageId>, bool)>::empty(),
            r.sep_entries() == Map::<MessageId, MilestoneIndex>::empty(),
            r.queue() == Map::<MessageId, u64>::empty(),
            r.counter() == 0,
            r.cap() == CACHE_LEN,
            r.hooks_spec() == hooks,
    {
        let r = Tangle {
            vertices: AssocMap::new(),
            children: AssocMap::new(),
            seps: AssocMap::new(),
            cache_counter: 0,
            cache_queue: EvictionQueue::new(CACHE_LEN + 1),
            hooks,
            latest_milestone_index: MilestoneIndex(0),
            snapshot_index: MilestoneIndex(0),
            pruning_index: MilestoneIndex(0),
        };
        proof {
            assert(r.child_entries() =~= Map::<MessageId, (Set<MessageId>, bool)>::empty());
            assert(r.queue().dom() =~= r.cached().dom());
        }
        r
    }

    /// Replaces the eviction capacity: the rebuilt tangle holds at most
    /// `cap` vertices. As in a builder, this is for a tangle that holds no
    /// vertices yet; the eviction tracker starts over empty.
    pub fn with_capacity(self, cap: usize) -> (r: Self)
        requires
            self.wf(),
            self.len_spec() == 0,
            cap < usize::MAX,
        ensures
            r.wf(),
            r.cap() == cap,
            r.cached() == self.cached(),
            r.child_entries() == self.child_entries(),
            r.sep_entries() == self.sep_entries(),
            r.queue() == self.queue(),
            r.counter() == self.counter(),
            r.hooks_spec() == self.hooks_spec(),
    {
        let Tangle {
            vertices,
            children,
            seps,
            cache_counter,
            cache_queue,
            hooks,
            latest_milestone_index,
            snapshot_index,
            pruning_index,
        } = self;
        let r = Tangle {
            vertices,
            children,
            seps,
            cache_counter,
            cache_queue: EvictionQueue::new(cap + 1),
            hooks,
            latest_milestone_index,
            snapshot_index,
            pruning_index,
        };
        proof {
            vstd::set_lib::lemma_set_empty_equivalency_len(self.cached().dom());
            assert(self.queue().dom() =~= Set::<MessageId>::empty());
            assert(self.queue() =~= Map::<MessageId, u64>::empty());
            assert(r.queue().dom() =~= r.cached().dom());
        }
        r
    }

    /// A reference to the storage hooks used by this tangle.
    pub fn hooks(&self) -> (r: &H)
        ensures
            r == self.hooks_spec(),
    {
        &self.hooks
    }

    /// The number of messages in the cache.
    pub fn len(&self) -> (r: usize)
        requires
            self.wf(),
        ensures
            r == self.len_spec(),
    {
        self.vertices.len()
    }

    /// The maximum number of messages the cache holds before evicting.
    pub fn capacity(&self) -> (r: usize)
        requires
            self.wf(),
        ensures
            r == self.cap(),
    {
        self.cache_queue.cap() - 1
    }

    /// Whether the cache holds no message.
    pub fn is_empty(&self) -> (r: bool)
        requires
            self.wf(),
        ensures
            r == (self.len_spec() == 0),
    {
        self.len() == 0
    }

    /// Registers a solid entry point at the given milestone index.
    /// Registering the same entry point again is a no-op.
    pub fn add_solid_entry_point(&mut self, sep: MessageId, index: MilestoneIndex)
        requires
            old(self).wf(),
        ensures
            final(self).wf(),
            final(self).sep_entries() == old(self).sep_entries().insert(sep, index),
            final(self).cached() == old(self).cached(),
            final(self).child_entries() == old(self).child_entries(),
            final(self).queue() == old(self).queue(),
            final(self).counter() == old(self).counter(),
            final(self).cap() == old(self).cap(),
            final(self).hooks_spec() == old(self).hooks_spec(),
    {
        self.seps.insert(sep, index);
    }

    /// The milestone index a solid entry point was registered at, if any.
    pub fn get_solid_entry_point(&self, sep: &MessageId) -> (r: Option<MilestoneIndex>)
        requires
            self.wf(),
        ensures
            (match r {
                Some(index) => self.sep_entries().contains_key(*sep) && index
                    == self.sep_entries()[*sep],
                None => !self.sep_entries().contains_key(*sep),
            }),
    {
        match self.seps.get(sep) {
            Some(index) => Some(*index),
            None => None,
        }
    }

    /// Whether an identifier is registered as a solid entry point.
    pub fn is_solid_entry_point(&self, sep: &MessageId) -> (r: bool)
        requires
            self.wf(),
        ensures
            r == self.sep_entries().contains_key(*sep),
    {
        self.seps.contains(sep)
    }

    /// Records the latest milestone index seen.
    pub fn update_latest_milestone_index(&mut self, index: MilestoneIndex)
        requires
            old(self).wf(),
        ensures
            final(self).wf(),
            final(self).latest_milestone_index() == index,
            final(self).snapshot_index() == old(self).snapshot_index(),
            final(self).pruning_index() == old(self).pruning_index(),
            unchanged_but_indexes(*old(self), *final(self)),
            final(self).hooks_spec() == old(self).hooks_spec(),
    {
        self.latest_milestone_index = index;
    }

    /// Records the milestone index of the snapshot the node started from.
    pub fn update_snapshot_index(&mut self, index: MilestoneIndex)
        requires
            old(self).wf(),
        ensures
            final(self).wf(),
            final(self).snapshot_index() == index,
            final(self).latest_milestone_index() == old(self).latest_milestone_index(),
            final(self).pruning_index() == old(self).pruning_index(),
            unchanged_but_indexes(*old(self), *final(self)),
            final(self).hooks_spec() == old(self).hooks_spec(),
    {
        self.snapshot_index = index;
    }

    /// Records the milestone index pruning has reached.
    pub fn update_pruning_index(&mut self, index: MilestoneIndex)
        requires
            old(self).wf(),
        ensures
            final(self).wf(),
            final(self).pruning_index() == index,
            final(self).latest_milestone_index() == old(self).latest_milestone_index(),
            final(self).snapshot_index() == old(self).snapshot_index(),
            unchanged_but_indexes(*old(self), *final(self)),
            final(self).hooks_spec() == old(self).hooks_spec(),
    {
        self.pruning_index = index;
    }

    /// The latest milestone index seen.
    pub closed spec fn latest_milestone_index(self) -> MilestoneIndex {
        self.latest_milestone_index
    }

    /// The milestone index of the snapshot the node started from.
    pub closed spec fn snapshot_index(self) -> MilestoneIndex {
        self.snapshot_index
    }

    /// The milestone index pruning has reached.
    pub closed spec fn pruning_index(self) -> MilestoneIndex {
        self.pruning_index
    }

    /// The latest milestone index seen, as a value.
    pub fn get_latest_milestone_index(&self) -> (r: MilestoneIndex)
        ensures
            r == self.latest_milestone_index(),
    {
        self.latest_milestone_index
    }

    /// The snapshot milestone index, as a value.
    pub fn get_snapshot_index(&self) -> (r: MilestoneIndex)
        ensures
            r == self.snapshot_index(),
    {
        self.snapshot_index
    }

    /// The pruning milestone index, as a value.
    pub fn get_pruning_index(&self) -> (r: MilestoneIndex)
        ensures
            r == self.pruning_index(),
    {
        self.pruning_index
    }

    /// The identifiers of every cached vertex, each exactly once.
    pub fn vertex_ids(&self) -> (r: Vec<MessageId>)
        requires
            self.wf(),
        ensures
            r@.no_duplicates(),
            forall|k: MessageId| r@.contains(k) <==> self.cached().contains_key(k),
    {
        self.vertices.keys()
    }

    /// Flushes any deferred state before the tangle is dropped; nothing is
    /// deferred today, so the tangle is left as it is.
    pub fn shutdown(&mut self)
        requires
            old(self).wf(),
        ensures
            final(self).wf(),
            *final(self) == *old(self),
    {
    }

    /// Discards every cached vertex and the whole children index.
    pub fn clear(&mut self)
        requires
            old(self).wf(),
        ensures
            final(self).wf(),
            final(self).cached() == Map::<MessageId, Vertex<T>>::empty(),
            final(self).child_entries() == Map::<MessageId, (Set<MessageId>, bool)>::empty(),
            final(self).queue() == Map::<MessageId, u64>::empty(),
            final(self).sep_entries() == old(self).sep_entries(),
            final(self).counter() == old(self).counter(),
            final(self).cap() == old(self).cap(),
            final(self).hooks_spec() == old(self).hooks_spec(),
    {
        self.vertices.clear();
        self.children.clear();
        self.cache_queue.clear();
        proof {
            assert(final(self).child_entries() =~= Map::<
                MessageId,
                (Set<MessageId>, bool),
            >::empty());
            assert(final(self).queue().dom() =~= final(self).cached().dom());
            broadcast use vstd::set::axiom_set_empty_len;
        }
    }

    /// Mints the next logical timestamp; the clock saturates rather than
    /// wrap, trading exact for approximate recency once exhausted.
    fn generate_cache_index(&mut self) -> (r: u64)
        ensures
            r == old(self).counter(),
            final(self).counter() == (if old(self).counter() < u64::MAX {
                (old(self).counter() + 1) as u64
            } else {
                u64::MAX
            }),
            final(self).cached() == old(self).cached(),
            final(self).child_entries() == old(self).child_entries(),
            final(self).sep_entries() == old(self).sep_entries(),
            final(self).queue() == old(self).queue(),
            final(self).cap() == old(self).cap(),
            final(self).vertices == old(self).vertices,
            final(self).children == old(self).children,
            final(self).seps == old(self).seps,
            final(self).cache_queue == old(self).cache_queue,
            final(self).hooks == old(self).hooks,
            final(self).latest_milestone_index == old(self).latest_milestone_index,
            final(self).snapshot_index == old(self).snapshot_index,
            final(self).pruning_index == old(self).pruning_index,
    {
        let t = self.cache_counter;
        if self.cache_counter < u64::MAX {
            self.cache_counter = self.cache_counter + 1;
        }
        t
    }

    /// How one fresh insert of `(id, m, t)` takes the cache from `pre` to
    /// `post`: the vertex is added, the child is recorded under both
    /// parents, the identifier is stamped with the clock, and the least
    /// recently used entries are evicted back down to the capacity.
    pub open spec fn inserted(pre: Self, post: Self, id: MessageId, m: Message, t: T) -> bool {
        let fresh = pre.counter();
        let cdom1 = pre.cached().dom().insert(id);
        let q1 = pre.queue().insert(id, fresh);
        let c1 = add_child(add_child(pre.child_entries(), m.parent1, id), m.parent2, id);
        let evicted = cdom1.difference(post.cached().dom());
        &&& post.counter() == (if pre.counter() < u64::MAX {
            (pre.counter() + 1) as u64
        } else {
            u64::MAX
        })
        &&& post.cached().dom().subset_of(cdom1)
        &&& post.len_spec() == (if cdom1.len() <= pre.cap() {
            cdom1.len()
        } else {
            pre.cap()
        })
        &&& post.cached().contains_key(id) ==> post.cached()[id].message == m
            && post.cached()[id].metadata == t
        &&& forall|k: MessageId|
            k != id && #[trigger] post.cached().contains_key(k) ==> pre.cached().contains_key(k)
                && post.cached()[k] == pre.cached()[k]
        &&& post.queue() == q1.remove_keys(evicted)
        &&& post.child_entries() == c1.remove_keys(evicted)
        &&& forall|e: MessageId, k: MessageId|
            evicted.contains(e) && #[trigger] post.cached().contains_key(k) ==> #[trigger] q1[e]
                <= q1[k]
        &&& pre.clock_exact() && pre.cap() >= 1 ==> post.cached().contains_key(id)
        &&& post.sep_entries() == pre.sep_entries()
        &&& post.cap() == pre.cap()
        &&& unchanged_indexes(pre, post)
    }

    /// Whether the cache holds a vertex for `id`; the cache alone is
    /// consulted.
    fn contains_inner(&self, message_id: &MessageId) -> (r: bool)
        requires
            self.wf(),
        ensures
            r == self.cached().contains_key(*message_id),
    {
        self.vertices.contains(message_id)
    }

    /// Records `child` under both parents in the children index, then
    /// writes both edges through the hooks.
    fn add_children_inner(&mut self, parent1: MessageId, parent2: MessageId, child: MessageId)
        requires
            old(self).children_ok(),
        ensures
            final(self).children_ok(),
            final(self).child_entries() == add_child(
                add_child(old(self).child_entries(), parent1, child),
                parent2,
                child,
            ),
            final(self).vertices == old(self).vertices,
            final(self).seps == old(self).seps,
            final(self).cache_queue == old(self).cache_queue,
            final(self).cache_counter == old(self).cache_counter,
            final(self).latest_milestone_index == old(self).latest_milestone_index,
            final(self).snapshot_index == old(self).snapshot_index,
            final(self).pruning_index == old(self).pruning_index,
    {
        let ghost c0 = self.child_entries();
        let mut entry1 = match self.children.remove(&parent1) {
            Some(mut e) => {
                e.ids.insert(child);
                e
            },
            None => {
                let mut ids = IdSet::new();
                ids.insert(child);
                ChildrenEntry { ids, exhaustive: false }
            },
        };
        self.children.insert(parent1, entry1);
        proof {
            assert(self.child_entries() =~= add_child(c0, parent1, child));
        }
        let ghost c1 = self.child_entries();
        let mut entry2 = match self.children.remove(&parent2) {
            Some(mut e) => {
                e.ids.insert(child);
                e
            },
            None => {
                let mut ids = IdSet::new();
                ids.insert(child);
                ChildrenEntry { ids, exhaustive: false }
            },
        };
        self.children.insert(parent2, entry2);
        proof {
            assert(self.child_entries() =~= add_child(c1, parent2, child));
        }
        let _ = self.hooks.insert_approver(parent1, child);
        let _ = self.hooks.insert_approver(parent2, child);
    }

    /// Ready for eviction: everything of `wf` except that the cache may
    /// transiently hold one vertex above its capacity.
    closed spec fn evict_ready(self) -> bool {
        &&& self.vertices.wf()
        &&& self.children_ok()
        &&& self.seps.wf()
        &&& self.cache_queue.inv()
        &&& self.cache_queue.spec_cap() >= 1
        &&& self.queue().dom() =~= self.cached().dom()
        &&& self.cached().dom().finite()
        &&& self.cached().dom().len() <= self.cap() + 1
        &&& forall|k: MessageId|
            self.queue().contains_key(k) ==> #[trigger] self.queue()[k] < self.counter()
                || self.counter() == u64::MAX
    }

    /// Evicts least-recently-used vertices until the cache is back within
    /// its capacity; each evicted vertex loses its children entry too.
    fn perform_eviction(&mut self)
        requires
            old(self).evict_ready(),
        ensures
            final(self).wf(),
            final(self).len_spec() == (if old(self).len_spec() <= old(self).cap() {
                old(self).len_spec()
            } else {
                old(self).cap()
            }),
            final(self).cached().dom().subset_of(old(self).cached().dom()),
            forall|k: MessageId|
                #[trigger] final(self).cached().contains_key(k) ==> old(
                    self,
                ).cached().contains_key(k) && final(self).cached()[k] == old(self).cached()[k]
                    && final(self).queue()[k] == old(self).queue()[k],
            final(self).queue() == old(self).queue().remove_keys(
                old(self).cached().dom().difference(final(self).cached().dom()),
            ),
            final(self).child_entries() == old(self).child_entries().remove_keys(
                old(self).cached().dom().difference(final(self).cached().dom()),
            ),
            forall|e: MessageId, k: MessageId|
                old(self).cached().contains_key(e) && !final(self).cached().contains_key(e)
                    && #[trigger] final(self).cached().contains_key(k) ==> #[trigger] old(
                    self,
                ).queue()[e] <= old(self).queue()[k],
            old(self).len_spec() <= old(self).cap() ==> *final(self) == *old(self),
            final(self).seps == old(self).seps,
            final(self).cache_counter == old(self).cache_counter,
            final(self).cache_queue.spec_cap() == old(self).cache_queue.spec_cap(),
            final(self).hooks == old(self).hooks,
            final(self).latest_milestone_index == old(self).latest_milestone_index,
            final(self).snapshot_index == old(self).snapshot_index,
            final(self).pruning_index == old(self).pruning_index,
    {
        loop
            invariant
                self.vertices.wf(),
                self.children_ok(),
                self.seps.wf(),
                self.cache_queue.inv(),
                self.cache_queue.spec_cap() >= 1,
                self.queue().dom() =~= self.cached().dom(),
                self.cached().dom().finite(),
                self.cached().dom().len() <= self.cap() + 1,
                forall|k: MessageId|
                    self.queue().contains_key(k) ==> #[trigger] self.queue()[k] < self.counter()
                        || self.counter() == u64::MAX,
                self.cached().dom().subset_of(old(self).cached().dom()),
                forall|k: MessageId|
                    #[trigger] self.cached().contains_key(k) ==> old(
                        self,
                    ).cached().contains_key(k) && self.cached()[k] == old(self).cached()[k]
                        && self.queue()[k] == old(self).queue()[k],
                self.queue() =~= old(self).queue().remove_keys(
                    old(self).cached().dom().difference(self.cached().dom()),
                ),
                self.child_entries() =~= old(self).child_entries().remove_keys(
                    old(self).cached().dom().difference(self.cached().dom()),
                ),
                forall|e: MessageId, k: MessageId|
                    old(self).cached().contains_key(e) && !self.cached().contains_key(e)
                        && #[trigger] self.cached().contains_key(k) ==> #[trigger] old(
                        self,
                    ).queue()[e] <= old(self).queue()[k],
                self.len_spec() == old(self).len_spec() || (old(self).len_spec() > old(
                    self,
                ).cap() && self.len_spec() >= self.cap()),
                old(self).len_spec() <= old(self).cap() ==> *self == *old(self),
                self.seps == old(self).seps,
                self.cache_counter == old(self).cache_counter,
                self.cache_queue.spec_cap() == old(self).cache_queue.spec_cap(),
                self.hooks == old(self).hooks,
                self.latest_milestone_index == old(self).latest_milestone_index,
                self.snapshot_index == old(self).snapshot_index,
                self.pruning_index == old(self).pruning_index,
            ensures
                self.len_spec() <= self.cap(),
                self.vertices.wf(),
                self.children_ok(),
                self.seps.wf(),
                self.cache_queue.inv(),
                self.queue().dom() =~= self.cached().dom(),
                self.cached().dom().finite(),
                forall|k: MessageId|
                    self.queue().contains_key(k) ==> #[trigger] self.queue()[k] < self.counter()
                        || self.counter() == u64::MAX,
                self.cached().dom().subset_of(old(self).cached().dom()),
                forall|k: MessageId|
                    #[trigger] self.cached().contains_key(k) ==> old(
                        self,
                    ).cached().contains_key(k) && self.cached()[k] == old(self).cached()[k]
                        && self.queue()[k] == old(self).queue()[k],
                self.queue() =~= old(self).queue().remove_keys(
                    old(self).cached().dom().difference(self.cached().dom()),
                ),
                self.child_entries() =~= old(self).child_entries().remove_keys(
                    old(self).cached().dom().difference(self.cached().dom()),
                ),
                forall|e: MessageId, k: MessageId|
                    old(self).cached().contains_key(e) && !self.cached().contains_key(e)
                        && #[trigger] self.cached().contains_key(k) ==> #[trigger] old(
                        self,
                    ).queue()[e] <= old(self).queue()[k],
                self.len_spec() == old(self).len_spec() || (old(self).len_spec() > old(
                    self,
                ).cap() && self.len_spec() >= self.cap()),
                old(self).len_spec() <= old(self).cap() ==> *self == *old(self),
                self.seps == old(self).seps,
                self.cache_counter == old(self).cache_counter,
                self.cache_queue.spec_cap() == old(self).cache_queue.spec_cap(),
                self.hooks == old(self).hooks,
                self.latest_milestone_index == old(self).latest_milestone_index,
                self.snapshot_index == old(self).snapshot_index,
                self.pruning_index == old(self).pruning_index,
            decreases self.len_spec(),
        {
            let len: usize = self.vertices.len();
            if len < self.cache_queue.cap() {
                break;
            }
            let ghost pre = *self;
            match self.cache_queue.pop_lru() {
                Some(p) => {
                    let id = p.0;
                    let _ = self.vertices.remove(&id);
                    let _ = self.children.remove(&id);
                    proof {
                        broadcast use vstd::set::axiom_set_remove_len;

                        assert(self.cached().dom() =~= pre.cached().dom().remove(p.0));
                        assert(self.len_spec() == pre.len_spec() - 1);
                        assert(self.queue().dom() =~= self.cached().dom());
                        assert(old(self).cached().dom().difference(self.cached().dom()) =~= old(
                            self,
                        ).cached().dom().difference(pre.cached().dom()).insert(p.0));
                        assert(self.queue() =~= old(self).queue().remove_keys(
                            old(self).cached().dom().difference(self.cached().dom()),
                        ));
                        assert(self.children@ == pre.children@.remove(p.0));
                        assert(self.child_entries() =~= pre.child_entries().remove(p.0));
                        assert(self.child_entries() =~= old(self).child_entries().remove_keys(
                            old(self).cached().dom().difference(self.cached().dom()),
                        ));
                        assert forall|e: MessageId, k: MessageId|
                            old(self).cached().contains_key(e) && !self.cached().contains_key(e)
                                && #[trigger] self.cached().contains_key(k) implies #[trigger] old(
                            self,
                        ).queue()[e] <= old(self).queue()[k] by {
                            if pre.cached().contains_key(e) {
                                assert(e == id);
                                assert(pre.queue()[e] <= pre.queue()[k]);
                            }
                        }
                    }
                },
                None => {
                    proof {
                        broadcast use vstd::set::axiom_set_empty_len;
                        broadcast use vstd::map::axiom_map_empty;

                        assert(self.queue().dom() =~= Set::<MessageId>::empty());
                        assert(self.cached().dom() =~= Set::<MessageId>::empty());
                        assert(self.len_spec() == 0);
                        assert(false);
                    }
                    break;
                },
            }
        }
    }

    /// Creates the vertex for a message not yet cached: records it under
    /// both parents, stamps it with the clock, and evicts back down to the
    /// capacity. Returns a handle only when this call created the vertex.
    fn insert_inner(&mut self, message_id: MessageId, message: Message, metadata: T) -> (r:
        Option<MessageRef>)
        requires
            old(self).wf(),
        ensures
            final(self).wf(),
            (match r {
                Option::None => old(self).cached().contains_key(message_id) && *final(self)
                    == *old(self),
                Option::Some(m) => {
                    &&& !old(self).cached().contains_key(message_id)
                    &&& m == message
                    &&& Self::inserted(
                        *old(self),
                        *final(self),
                        message_id,
                        message,
                        metadata,
                    )
                },
            }),
    {
        if self.contains_inner(&message_id) {
            self.perform_eviction();
            return None;
        }
        let ghost pre = *self;
        let parent1 = message.parent1();
        let parent2 = message.parent2();
        let vtx = Vertex::new(message, metadata);
        let tx = clone_message_ref(vtx.message());
        self.add_children_inner(parent1, parent2, message_id);
        self.vertices.insert(message_id, vtx);
        let ts = self.generate_cache_index();
        proof {
            broadcast use vstd::set::axiom_set_insert_len;

            assert(self.cached().dom() =~= pre.cached().dom().insert(message_id));
            assert(self.queue().dom() =~= self.cached().dom().remove(message_id));
        }
        self.cache_queue.put(message_id, ts);
        let ghost mid = *self;
        proof {
            assert(mid.queue().dom() =~= mid.cached().dom());
            assert(mid.cached().dom().len() <= mid.cap() + 1);
        }
        self.perform_eviction();
        proof {
            let post = *final(self);
            let fresh = pre.counter();
            let cdom1 = pre.cached().dom().insert(message_id);
            let q1 = pre.queue().insert(message_id, fresh);
            assert(mid.queue() == q1);
            assert(mid.cached().dom() =~= cdom1);
            assert(post.queue() =~= q1.remove_keys(cdom1.difference(post.cached().dom())));
            assert(post.child_entries() =~= mid.child_entries().remove_keys(
                cdom1.difference(post.cached().dom()),
            ));
            if pre.clock_exact() && pre.cap() >= 1 && !post.cached().contains_key(message_id) {
                broadcast use vstd::set::axiom_set_empty_len;

                assert(post.len_spec() >= 1);
                assert(exists|k: MessageId| post.cached().dom().contains(k)) by {
                    if !(exists|k: MessageId| post.cached().dom().contains(k)) {
                        assert(post.cached().dom() =~= Set::<MessageId>::empty());
                    }
                }
                let k = choose|k: MessageId| post.cached().dom().contains(k);
                assert(mid.cached().contains_key(message_id));
                assert(mid.queue()[message_id] <= mid.queue()[k]);
                assert(k != message_id);
                assert(pre.queue().contains_key(k));
                assert(pre.queue()[k] < pre.counter());
                assert(false);
            }
            assert(Self::inserted(pre, post, message_id, message, metadata));
        }
        Some(tx)
    }

    /// Inserts a message with its metadata. Returns a shareable handle to
    /// the message exactly when this call created the vertex; a message
    /// already cached is left untouched, and neither the hooks nor the
    /// eviction state are disturbed for it.
    pub fn insert(&mut self, message_id: MessageId, message: Message, metadata: T) -> (r:
        Option<MessageRef>)
        requires
            old(self).wf(),
        ensures
            final(self).wf(),
            r.is_some() == !old(self).cached().contains_key(message_id),
            old(self).cached().contains_key(message_id) ==> *final(self) == *old(self),
            (match r {
                Option::Some(m) => m == message && Self::inserted(
                    *old(self),
                    *final(self),
                    message_id,
                    message,
                    metadata,
                ),
                Option::None => true,
            }),
    {
        if self.contains_inner(&message_id) {
            None
        } else {
            let _ = self.hooks.insert(message_id, message.clone(), metadata.clone());
            let r = self.insert_inner(message_id, message, metadata);
            proof {
                assert(r.is_some());
            }
            r
        }
    }

    /// Attempts to pull the message into the cache, consulting the hooks on
    /// a miss; returns whether a value was obtained.
    fn pull_message(&mut self, message_id: &MessageId) -> (r: bool)
        requires
            old(self).wf(),
        ensures
            final(self).wf(),
            old(self).cached().contains_key(*message_id) ==> r && *final(self) == *old(self),
            !r ==> !old(self).cached().contains_key(*message_id) && unchanged_core(
                *old(self),
                *final(self),
            ),
            r && !old(self).cached().contains_key(*message_id) ==> exists|m: Message, t: T|
                #[trigger] Self::inserted(*old(self), *final(self), *message_id, m, t),
    {
        if self.vertices.contains(message_id) {
            return true;
        }
        match self.hooks.get(message_id) {
            Ok(found) => match found {
                Some(pair) => {
                    let (tx, metadata) = pair;
                    let ghost m = tx;
                    let ghost t = metadata;
                    let _ = self.insert_inner(*message_id, tx, metadata);
                    proof {
                        assert(Self::inserted(*old(self), *final(self), *message_id, m, t));
                    }
                    true
                },
                None => false,
            },
            Err(_) => false,
        }
    }

    /// Reads the cached vertex for `message_id`, refreshing its recency;
    /// the back-end is not consulted.
    fn get_inner(&mut self, message_id: &MessageId) -> (r: Option<(MessageRef, T)>)
        requires
            old(self).wf(),
        ensures
            final(self).wf(),
            final(self).cached() == old(self).cached(),
            final(self).child_entries() == old(self).child_entries(),
            final(self).sep_entries() == old(self).sep_entries(),
            final(self).cap() == old(self).cap(),
            final(self).hooks == old(self).hooks,
            unchanged_indexes(*old(self), *final(self)),
            (match r {
                Option::None => !old(self).cached().contains_key(*message_id) && *final(self)
                    == *old(self),
                Option::Some(p) => {
                    &&& old(self).cached().contains_key(*message_id)
                    &&& p.0 == old(self).cached()[*message_id].message
                    &&& cloned::<T>(old(self).cached()[*message_id].metadata, p.1)
                    &&& final(self).queue() == old(self).queue().insert(
                        *message_id,
                        old(self).counter(),
                    )
                    &&& final(self).counter() == (if old(self).counter() < u64::MAX {
                        (old(self).counter() + 1) as u64
                    } else {
                        u64::MAX
                    })
                },
            }),
    {
        let r = match self.vertices.get(message_id) {
            Some(v) => Some((clone_message_ref(v.message()), v.metadata().clone())),
            None => None,
        };
        if r.is_some() {
            let ts = self.generate_cache_index();
            self.cache_queue.put(*message_id, ts);
            proof {
                assert(final(self).queue().dom() =~= old(self).queue().dom().insert(
                    *message_id,
                ));
                assert(old(self).queue().dom().insert(*message_id) =~= old(self).queue().dom());
            }
        }
        r
    }

    /// The message cached for `message_id`, read through the back-end on a
    /// miss. A hit refreshes the entry's recency.
    pub fn get(&mut self, message_id: &MessageId) -> (r: Option<MessageRef>)
        requires
            old(self).wf(),
        ensures
            final(self).wf(),
            r.is_some() == final(self).cached().contains_key(*message_id),
            (match r {
                Option::Some(m) => m == final(self).cached()[*message_id].message,
                Option::None => true,
            }),
            old(self).cached().contains_key(*message_id) ==> {
                &&& (match r {
                    Option::Some(m) => m == old(self).cached()[*message_id].message,
                    Option::None => false,
                })
                &&& final(self).cached() == old(self).cached()
                &&& final(self).child_entries() == old(self).child_entries()
                &&& final(self).sep_entries() == old(self).sep_entries()
                &&& final(self).queue() == old(self).queue().insert(
                    *message_id,
                    old(self).counter(),
                )
                &&& final(self).cap() == old(self).cap()
            },
            !r.is_some() && !old(self).cached().contains_key(*message_id) ==> (unchanged_core(
                *old(self),
                *final(self),
            ) || exists|m: Message, t: T| #[trigger] Self::inserted(
                *old(self),
                *final(self),
                *message_id,
                m,
                t,
            )),
    {
        let _ = self.pull_message(message_id);
        match self.get_inner(message_id) {
            Some(p) => Some(p.0),
            None => None,
        }
    }

    /// Whether the message is in the cache or known to the back-end; a miss
    /// that the back-end can serve fills the cache on the way.
    pub fn contains(&mut self, message_id: &MessageId) -> (r: bool)
        requires
            old(self).wf(),
        ensures
            final(self).wf(),
            old(self).cached().contains_key(*message_id) ==> r && *final(self) == *old(self),
            !r ==> !final(self).cached().contains_key(*message_id) && unchanged_core(
                *old(self),
                *final(self),
            ),
            r && !old(self).cached().contains_key(*message_id) ==> exists|m: Message, t: T|
                #[trigger] Self::inserted(*old(self), *final(self), *message_id, m, t),
            (r && old(self).clock_exact() && old(self).cap() >= 1) ==> final(self).cached().contains_key(*message_id),
    {
        if self.contains_inner(message_id) {
            true
        } else {
            let r = self.pull_message(message_id);
            proof {
                if r && old(self).clock_exact() && old(self).cap() >= 1 {
                    let (m, t) = choose|m: Message, t: T|
                        #[trigger] Self::inserted(*old(self), *final(self), *message_id, m, t);
                    assert(final(self).cached().contains_key(*message_id));
                }
            }
            r
        }
    }

    /// The metadata cached for `message_id`, read through the back-end on a
    /// miss; the caller receives a value-copy.
    pub fn get_metadata(&mut self, message_id: &MessageId) -> (r: Option<T>)
        requires
            old(self).wf(),
        ensures
            final(self).wf(),
            r.is_some() == final(self).cached().contains_key(*message_id),
            (match r {
                Option::Some(t) => cloned::<T>(final(self).cached()[*message_id].metadata, t),
                Option::None => true,
            }),
            old(self).cached().contains_key(*message_id) ==> {
                &&& r.is_some()
                &&& final(self).cached() == old(self).cached()
                &&& final(self).child_entries() == old(self).child_entries()
                &&& final(self).sep_entries() == old(self).sep_entries()
                &&& final(self).queue() == old(self).queue().insert(
                    *message_id,
                    old(self).counter(),
                )
                &&& final(self).counter() == (if old(self).counter() < u64::MAX {
                    (old(self).counter() + 1) as u64
                } else {
                    u64::MAX
                })
                &&& final(self).cap() == old(self).cap()
                &&& final(self).hooks_spec() == old(self).hooks_spec()
            },
            !r.is_some() && !old(self).cached().contains_key(*message_id) ==> (unchanged_core(
                *old(self),
                *final(self),
            ) || exists|m: Message, t: T| #[trigger] Self::inserted(
                *old(self),
                *final(self),
                *message_id,
                m,
                t,
            )),
    {
        let _ = self.pull_message(message_id);
        self.get_metadata_maybe(message_id)
    }

    /// The metadata cached for `message_id`; the cache alone is consulted,
    /// and a hit refreshes the entry's recency.
    pub fn get_metadata_maybe(&mut self, message_id: &MessageId) -> (r: Option<T>)
        requires
            old(self).wf(),
        ensures
            final(self).wf(),
            final(self).cached() == old(self).cached(),
            r.is_some() == old(self).cached().contains_key(*message_id),
            (match r {
                Option::Some(t) => cloned::<T>(old(self).cached()[*message_id].metadata, t),
                Option::None => *final(self) == *old(self),
            }),
            final(self).child_entries() == old(self).child_entries(),
            final(self).sep_entries() == old(self).sep_entries(),
            final(self).cap() == old(self).cap(),
            final(self).hooks_spec() == old(self).hooks_spec(),
            old(self).cached().contains_key(*message_id) ==> final(self).queue() == old(
                self,
            ).queue().insert(*message_id, old(self).counter()) && final(self).counter() == (if old(
                self,
            ).counter() < u64::MAX {
                (old(self).counter() + 1) as u64
            } else {
                u64::MAX
            }),
    {
        match self.get_inner(message_id) {
            Some(p) => Some(p.1),
            None => None,
        }
    }

    /// The whole vertex cached for `message_id`, read through the back-end
    /// on a miss: the message behind a shared handle and a value-copy of
    /// the metadata.
    pub fn get_vertex(&mut self, message_id: &MessageId) -> (r: Option<Vertex<T>>)
        requires
            old(self).wf(),
        ensures
            final(self).wf(),
            r.is_some() == final(self).cached().contains_key(*message_id),
            (match r {
                Option::Some(v) => v.message == final(self).cached()[*message_id].message
                    && cloned::<T>(final(self).cached()[*message_id].metadata, v.metadata),
                Option::None => true,
            }),
            old(self).cached().contains_key(*message_id) ==> {
                &&& r.is_some()
                &&& final(self).cached() == old(self).cached()
                &&& final(self).child_entries() == old(self).child_entries()
                &&& final(self).sep_entries() == old(self).sep_entries()
                &&& final(self).queue() == old(self).queue().insert(
                    *message_id,
                    old(self).counter(),
                )
                &&& final(self).counter() == (if old(self).counter() < u64::MAX {
                    (old(self).counter() + 1) as u64
                } else {
                    u64::MAX
                })
                &&& final(self).cap() == old(self).cap()
                &&& final(self).hooks_spec() == old(self).hooks_spec()
            },
    {
        let _ = self.pull_message(message_id);
        match self.get_inner(message_id) {
            Some(p) => Some(Vertex { message: p.0, metadata: p.1 }),
            None => None,
        }
    }

    /// Applies `update` to the metadata of `message_id` in place, reading
    /// the vertex through the back-end on a miss, and writes the updated
    /// pair back through the hooks. `update` receives a value-copy of the
    /// current metadata and returns the new metadata with its own result,
    /// which is handed back to the caller.
    pub fn update_metadata<R, F: Fn(T) -> (T, R)>(&mut self, message_id: &MessageId, update: F)
        -> (r: Option<R>)
        requires
            old(self).wf(),
            forall|t: T| #[trigger] call_requires(update, (t,)),
        ensures
            final(self).wf(),
            r.is_some() == final(self).cached().contains_key(*message_id),
            final(self).cached().dom() == old(self).cached().dom() || (exists|m: Message, t: T|
                #[trigger] Self::inserted(*old(self), *final(self), *message_id, m, t))
                || !old(self).cached().contains_key(*message_id),
            old(self).cached().contains_key(*message_id) ==> exists|t0: T, p: (T, R)|
                {
                    &&& cloned::<T>(old(self).cached()[*message_id].metadata, t0)
                    &&& #[trigger] call_ensures(update, (t0,), p)
                    &&& final(self).cached().dom() == old(self).cached().dom()
                    &&& final(self).cached()[*message_id].message == old(
                        self,
                    ).cached()[*message_id].message
                    &&& final(self).cached()[*message_id].metadata == p.0
                    &&& (forall|k: MessageId|
                        k != *message_id && #[trigger] final(self).cached().contains_key(k)
                            ==> final(self).cached()[k] == old(self).cached()[k])
                    &&& r == Some(p.1)
                    &&& final(self).child_entries() == old(self).child_entries()
                    &&& final(self).sep_entries() == old(self).sep_entries()
                    &&& final(self).queue() == old(self).queue()
                    &&& final(self).counter() == old(self).counter()
                    &&& final(self).cap() == old(self).cap()
                },
            (match r {
                Option::Some(_) => exists|t0: T, p: (T, R)|
                    #[trigger] call_ensures(update, (t0,), p)
                        && final(self).cached()[*message_id].metadata == p.0 && r == Some(p.1),
                Option::None => !final(self).cached().contains_key(*message_id),
            }),
            r.is_none() ==> (unchanged_core(*old(self), *final(self)) || exists|m: Message, t: T|
                #[trigger] Self::inserted(*old(self), *final(self), *message_id, m, t)),
            (r.is_none() && old(self).clock_exact() && old(self).cap() >= 1) ==> unchanged_core(
                *old(self),
                *final(self),
            ),
    {
        let pulled = self.pull_message(message_id);
        let ghost mid = *self;
        match self.vertices.remove(message_id) {
            Some(mut vtx) => {
                let t0 = vtx.metadata().clone();
                let applied = update(t0);
                let (t_new, out) = applied;
                vtx.set_metadata(t_new);
                let message_copy = message_ref_inner(vtx.message()).clone();
                let metadata_copy = vtx.metadata().clone();
                self.vertices.insert(*message_id, vtx);
                let _ = self.hooks.insert(*message_id, message_copy, metadata_copy);
                proof {
                    assert(self.cached() =~= mid.cached().insert(
                        *message_id,
                        self.cached()[*message_id],
                    ));
                    assert(self.cached().dom() =~= mid.cached().dom());
                    if old(self).cached().contains_key(*message_id) {
                        assert(cloned::<T>(old(self).cached()[*message_id].metadata, t0));
                        assert(call_ensures(update, (t0,), applied));
                    }
                }
                Some(out)
            },
            None => {
                proof {
                    if pulled {
                        assert(!old(self).cached().contains_key(*message_id));
                        let (m, t) = choose|m: Message, t: T|
                            #[trigger] Self::inserted(*old(self), mid, *message_id, m, t);
                        assert(Self::inserted(*old(self), *final(self), *message_id, m, t));
                        if old(self).clock_exact() && old(self).cap() >= 1 {
                            assert(mid.cached().contains_key(*message_id));
                            assert(false);
                        }
                    }
                }
                None
            },
        }
    }

    /// The children seen for `message_id`, merged with the back-end's
    /// authoritative list when the in-cache set is not yet exhaustive; the
    /// merged set is stored back marked exhaustive. A hook error leaves the
    /// entry as it was, and only the in-cache children are returned.
    fn children_inner(&mut self, message_id: &MessageId) -> (r: IdSet)
        requires
            old(self).wf(),
        ensures
            final(self).wf(),
            r.wf(),
            final(self).cached() == old(self).cached(),
            final(self).sep_entries() == old(self).sep_entries(),
            final(self).queue() == old(self).queue(),
            final(self).counter() == old(self).counter(),
            final(self).cap() == old(self).cap(),
            unchanged_indexes(*old(self), *final(self)),
            (old(self).child_entries().contains_key(*message_id)
                && old(self).child_entries()[*message_id].1) ==> r@ == old(
                self,
            ).child_entries()[*message_id].0 && *final(self) == *old(self),
            !(old(self).child_entries().contains_key(*message_id)
                && old(self).child_entries()[*message_id].1) ==> {
                &&& (old(self).child_entries().contains_key(*message_id) ==> old(
                    self,
                ).child_entries()[*message_id].0.subset_of(r@))
                &&& (final(self).child_entries() == old(self).child_entries().insert(
                    *message_id,
                    (r@, true),
                ) || (final(self).child_entries() == old(self).child_entries() && (old(
                    self,
                ).child_entries().contains_key(*message_id) ==> r@ == old(
                    self,
                ).child_entries()[*message_id].0) && (!old(self).child_entries().contains_key(
                    *message_id,
                ) ==> r@ == Set::<MessageId>::empty())))
            },
    {
        let current: Option<IdSet> = match self.children.get(message_id) {
            Some(entry) => {
                if entry.exhaustive {
                    return entry.ids.clone();
                }
                Some(entry.ids.clone())
            },
            None => None,
        };
        let fetched: Vec<MessageId> = match self.hooks.fetch_approvers(message_id) {
            Ok(found) => match found {
                Some(approvers) => approvers,
                None => Vec::new(),
            },
            Err(_) => {
                return match current {
                    Some(ids) => ids,
                    None => IdSet::new(),
                };
            },
        };
        let merged = match current {
            Some(ids) => merge_children(&ids, &fetched),
            None => merge_children(&IdSet::new(), &fetched),
        };
        let stored = merged.clone();
        self.children.insert(*message_id, ChildrenEntry { ids: stored, exhaustive: true });
        proof {
            assert(final(self).child_entries() =~= old(self).child_entries().insert(
                *message_id,
                (merged@, true),
            ));
        }
        merged
    }

    /// The children of `message_id`, if we know about them; the set is
    /// reconciled with the back-end the first time it is asked for.
    pub fn get_children(&mut self, message_id: &MessageId) -> (r: Option<IdSet>)
        requires
            old(self).wf(),
        ensures
            final(self).wf(),
            r.is_some(),
            (match r {
                Option::Some(ids) => {
                    &&& ids.wf()
                    &&& (old(self).child_entries().contains_key(*message_id) && old(
                        self,
                    ).child_entries()[*message_id].1) ==> ids@ == old(
                        self,
                    ).child_entries()[*message_id].0 && *final(self) == *old(self)
                    &&& !(old(self).child_entries().contains_key(*message_id) && old(
                        self,
                    ).child_entries()[*message_id].1) ==> {
                        &&& (old(self).child_entries().contains_key(*message_id) ==> old(
                            self,
                        ).child_entries()[*message_id].0.subset_of(ids@))
                        &&& (final(self).child_entries() == old(self).child_entries().insert(
                            *message_id,
                            (ids@, true),
                        ) || (final(self).child_entries() == old(self).child_entries() && (old(
                            self,
                        ).child_entries().contains_key(*message_id) ==> ids@ == old(
                            self,
                        ).child_entries()[*message_id].0) && (!old(
                            self,
                        ).child_entries().contains_key(*message_id) ==> ids@ == Set::<
                            MessageId,
                        >::empty())))
                    }
                },
                Option::None => false,
            }),
            final(self).cached() == old(self).cached(),
            final(self).sep_entries() == old(self).sep_entries(),
            final(self).queue() == old(self).queue(),
            final(self).counter() == old(self).counter(),
            final(self).cap() == old(self).cap(),
    {
        Some(self.children_inner(message_id))
    }

    /// The number of children of `message_id`, counted on the same set that
    /// [`Self::get_children`] returns.
    pub fn num_children(&mut self, message_id: &MessageId) -> (r: usize)
        requires
            old(self).wf(),
        ensures
            final(self).wf(),
            (old(self).child_entries().contains_key(*message_id)
                && old(self).child_entries()[*message_id].1) ==> r == old(
                self,
            ).child_entries()[*message_id].0.len() && *final(self) == *old(self),
            !(old(self).child_entries().contains_key(*message_id)
                && old(self).child_entries()[*message_id].1) ==> exists|s: Set<MessageId>|
                {
                    &&& #[trigger] s.finite()
                    &&& r == s.len()
                    &&& (old(self).child_entries().contains_key(*message_id) ==> old(
                        self,
                    ).child_entries()[*message_id].0.subset_of(s))
                    &&& (final(self).child_entries() == old(self).child_entries().insert(
                        *message_id,
                        (s, true),
                    ) || (final(self).child_entries() == old(self).child_entries() && (old(
                        self,
                    ).child_entries().contains_key(*message_id) ==> s == old(
                        self,
                    ).child_entries()[*message_id].0) && (!old(self).child_entries().contains_key(
                        *message_id,
                    ) ==> s == Set::<MessageId>::empty())))
                },
            final(self).cached() == old(self).cached(),
            final(self).sep_entries() == old(self).sep_entries(),
            final(self).queue() == old(self).queue(),
            final(self).counter() == old(self).counter(),
            final(self).cap() == old(self).cap(),
    {
        let ids = self.children_inner(message_id);
        let r = ids.len();
        proof {
            if !(old(self).child_entries().contains_key(*message_id)
                && old(self).child_entries()[*message_id].1) {
                assert(ids@.finite());
            }
        }
        r
    }
}

/// The union of the children already seen in the cache with a list fetched
/// from the back-end.
pub fn merge_children(current: &IdSet, fetched: &Vec<MessageId>) -> (r: IdSet)
    requires
        current.wf(),
    ensures
        r.wf(),
        r@ == current@.union(fetched@.to_set()),
{
    let mut r = current.clone();
    let mut i: usize = 0;
    while i < fetched.len()
        invariant
            r.wf(),
            i <= fetched@.len(),
            r@ =~= current@.union(fetched@.take(i as int).to_set()),
        decreases fetched@.len() - i,
    {
        r.insert(fetched[i]);
        proof {
            let prefix = fetched@.take(i as int);
            let longer = fetched@.take(i + 1 as int);
            assert forall|k: MessageId| longer.contains(k) implies (prefix.contains(k) || k
                == fetched@[i as int]) by {
                let j = choose|j: int| 0 <= j < longer.len() && longer[j] == k;
                if j < i {
                    assert(prefix[j] == k);
                }
            }
            assert forall|k: MessageId| prefix.contains(k) implies longer.contains(k) by {
                let j = choose|j: int| 0 <= j < prefix.len() && prefix[j] == k;
                assert(longer[j] == k);
            }
            assert(longer[i as int] == fetched@[i as int]);
            assert(r@ =~= current@.union(longer.to_set()));
        }
        i += 1;
    }
    proof {
        assert(fetched@.take(fetched@.len() as int) =~= fetched@);
    }
    r
}

impl<T: Clone, H: Hooks<T> + Default> Default for Tangle<T, H> {
    /// Builds an empty tangle with the default capacity over the hook
    /// set's default value.
    fn default() -> (r: Self)
        ensures
            r.wf(),
            r.cached() == Map::<MessageId, Vertex<T>>::empty(),
            r.child_entries() == Map::<MessageId, (Set<MessageId>, bool)>::empty(),
            r.sep_entries() == Map::<MessageId, MilestoneIndex>::empty(),
            r.queue() == Map::<MessageId, u64>::empty(),
            r.counter() == 0,
            r.cap() == CACHE_LEN,
    {
        Tangle::new(H::default())
    }
}

/// After a fresh insert the message is cached, so a repeated insert of the
/// same identifier observes it and, by [`Tangle::insert`]'s contract,
/// returns `None`: across any sequence of inserts of one identifier,
/// exactly one creates the vertex. The cache also grows by at most one
/// vertex per insert.
pub proof fn lemma_insert_dedup<T: Clone, H: Hooks<T>>(
    s0: Tangle<T, H>,
    s1: Tangle<T, H>,
    id: MessageId,
    m: Message,
    t: T,
)
    requires
        s0.wf(),
        s0.clock_exact(),
        s0.cap() >= 1,
        Tangle::inserted(s0, s1, id, m, t),
    ensures
        s1.cached().contains_key(id),
        s1.len_spec() <= s0.len_spec() + 1,
{
    broadcast use vstd::set::axiom_set_insert_len;

}

/// Read-your-write: a message just inserted is cached under its identifier
/// with exactly the inserted message and metadata, so a following `get` of
/// the same identifier returns that message, by [`Tangle::get`]'s contract.
pub proof fn lemma_read_your_write<T: Clone, H: Hooks<T>>(
    s0: Tangle<T, H>,
    s1: Tangle<T, H>,
    id: MessageId,
    m: Message,
    t: T,
)
    requires
        s0.clock_exact(),
        s0.cap() >= 1,
        Tangle::inserted(s0, s1, id, m, t),
    ensures
        s1.cached().contains_key(id),
        s1.cached()[id].message == m,
        s1.cached()[id].metadata == t,
{
}

/// The cache never outgrows its capacity: an insert into a full cache
/// evicts down to the capacity, and an insert into a cache below it grows
/// it by exactly one. After enough distinct inserts the cache sits at its
/// capacity.
pub proof fn lemma_lru_cap<T: Clone, H: Hooks<T>>(
    s0: Tangle<T, H>,
    s1: Tangle<T, H>,
    id: MessageId,
    m: Message,
    t: T,
)
    requires
        s0.wf(),
        !s0.cached().contains_key(id),
        Tangle::inserted(s0, s1, id, m, t),
    ensures
        s1.len_spec() <= s0.cap(),
        s0.len_spec() >= s0.cap() ==> s1.len_spec() == s0.cap(),
        s0.len_spec() < s0.cap() ==> s1.len_spec() == s0.len_spec() + 1,
{
    broadcast use vstd::set::axiom_set_insert_len;

}

/// Some fresh insert of `id` took the cache from `pre` to `post`, with
/// whatever message and metadata.
pub open spec fn inserted_any<T: Clone, H: Hooks<T>>(
    pre: Tangle<T, H>,
    post: Tangle<T, H>,
    id: MessageId,
) -> bool {
    exists|m: Message, t: T| Tangle::inserted(pre, post, id, m, t)
}

/// A run of fresh inserts grows the cache by one per step until it sits at
/// the capacity: after the run the length is the smaller of the starting
/// length plus the number of inserts, and the capacity. In particular,
/// after at least capacity-many fresh inserts the cache holds exactly
/// capacity-many vertices.
pub proof fn lemma_lru_cap_after_run<T: Clone, H: Hooks<T>>(
    states: Seq<Tangle<T, H>>,
    ids: Seq<MessageId>,
)
    requires
        states.len() == ids.len() + 1,
        forall|i: int| 0 <= i < states.len() ==> (#[trigger] states[i]).wf(),
        forall|i: int|
            0 <= i < ids.len() ==> !(#[trigger] states[i]).cached().contains_key(ids[i]),
        forall|i: int|
            0 <= i < ids.len() ==> #[trigger] inserted_any(states[i], states[i + 1], ids[i]),
    ensures
        states.last().cap() == states[0].cap(),
        states.last().len_spec() == vstd::math::min(
            states[0].len_spec() + ids.len() as int,
            states[0].cap() as int,
        ),
        ids.len() >= states[0].cap() ==> states.last().len_spec() == states[0].cap(),
    decreases ids.len(),
{
    broadcast use vstd::set::axiom_set_insert_len;

    if ids.len() == 0 {
        assert(states.last() == states[0]);
    } else {
        let s0 = states[0];
        let s1 = states[1];
        let zero: int = 0;
        assert(inserted_any(states[zero], states[zero + 1], ids[zero]));
        let (m, t) = choose|m: Message, t: T| Tangle::inserted(s0, s1, ids[0], m, t);
        assert(s1.len_spec() == vstd::math::min(s0.len_spec() as int + 1, s0.cap() as int));
        assert(s1.cap() == s0.cap());
        let rest_states = states.skip(1);
        let rest_ids = ids.skip(1);
        assert forall|i: int| 0 <= i < rest_states.len() implies (#[trigger] rest_states[i]).wf()
            by {
            assert(rest_states[i] == states[i + 1]);
        }
        assert forall|i: int|
            0 <= i < rest_ids.len() implies !(#[trigger] rest_states[i]).cached().contains_key(
            rest_ids[i],
        ) by {
            assert(rest_states[i] == states[i + 1]);
            assert(rest_ids[i] == ids[i + 1]);
        }
        assert forall|i: int| 0 <= i < rest_ids.len() implies #[trigger] inserted_any(
            rest_states[i],
            rest_states[i + 1],
            rest_ids[i],
        ) by {
            assert(rest_states[i] == states[i + 1]);
            assert(rest_states[i + 1] == states[i + 2]);
            assert(rest_ids[i] == ids[i + 1]);
            assert(inserted_any(states[i + 1], states[i + 2], ids[i + 1]));
        }
        lemma_lru_cap_after_run(rest_states, rest_ids);
        assert(rest_states.last() == states.last());
        assert(rest_states[0] == s1);
    }
}

/// Recency protects from eviction: a cached vertex whose timestamp is
/// strictly newer than some other cached vertex's survives the one
/// eviction an insert may perform, since eviction always takes a vertex
/// with the oldest timestamp.
pub proof fn lemma_lru_recency<T: Clone, H: Hooks<T>>(
    s0: Tangle<T, H>,
    s1: Tangle<T, H>,
    id: MessageId,
    m: Message,
    t: T,
    a: MessageId,
    b: MessageId,
)
    requires
        s0.wf(),
        !s0.cached().contains_key(id),
        Tangle::inserted(s0, s1, id, m, t),
        s0.cached().contains_key(a),
        s0.cached().contains_key(b),
        a != b,
        a != id,
        b != id,
        s0.queue()[a] > s0.queue()[b],
    ensures
        s1.cached().contains_key(a),
{
    broadcast use vstd::set::axiom_set_insert_len;
    broadcast use vstd::set::axiom_set_remove_len;

    let cdom1 = s0.cached().dom().insert(id);
    let q1 = s0.queue().insert(id, s0.counter());
    if !s1.cached().contains_key(a) {
        let evicted = cdom1.difference(s1.cached().dom());
        assert(evicted.contains(a));
        if s1.cached().contains_key(b) {
            assert(q1[a] <= q1[b]);
            assert(false);
        } else {
            assert(evicted.contains(b));
            assert(s1.cached().dom().subset_of(cdom1.remove(a).remove(b)));
            vstd::set_lib::lemma_len_subset(
                s1.cached().dom(),
                cdom1.remove(a).remove(b),
            );
            assert(cdom1.len() <= s0.len_spec() + 1);
            assert(s1.len_spec() <= cdom1.len() - 2);
            assert(s1.len_spec() == (if cdom1.len() <= s0.cap() {
                cdom1.len()
            } else {
                s0.cap()
            }));
            assert(cdom1.len() <= s0.cap() + 1);
            assert(false);
        }
    }
}

/// A well-formed tangle never holds more vertices than its capacity.
pub proof fn lemma_len_within_capacity<T: Clone, H: Hooks<T>>(t: Tangle<T, H>)
    requires
        t.wf(),
    ensures
        t.len_spec() <= t.cap(),
{
}

/// Registering a solid entry point that is already registered at the same
/// milestone index leaves the registry exactly as it was, so
/// [`Tangle::add_solid_entry_point`] is idempotent.
pub proof fn lemma_add_solid_entry_point_idempotent(
    seps: Map<MessageId, MilestoneIndex>,
    sep: MessageId,
    index: MilestoneIndex,
)
    requires
        seps.contains_key(sep),
        seps[sep] == index,
    ensures
        seps.insert(sep, index) == seps,
{
    assert(seps.insert(sep, index) =~= seps);
}

/// The children index after recording `child` under `parent`: the child is
/// added to the parent's set, and a parent seen for the first time starts
/// with a singleton, not-exhaustive set.
pub open spec fn add_child(
    m: Map<MessageId, (Set<MessageId>, bool)>,
    parent: MessageId,
    child: MessageId,
) -> Map<MessageId, (Set<MessageId>, bool)> {
    if m.contains_key(parent) {
        m.insert(parent, (m[parent].0.insert(child), m[parent].1))
    } else {
        m.insert(parent, (Set::empty().insert(child), false))
    }
}

/// Everything of the tangle but the three milestone bookkeeping indexes is
/// left as it was.
pub open spec fn unchanged_but_indexes<T: Clone, H: Hooks<T>>(
    pre: Tangle<T, H>,
    post: Tangle<T, H>,
) -> bool {
    &&& post.cached() == pre.cached()
    &&& post.child_entries() == pre.child_entries()
    &&& post.sep_entries() == pre.sep_entries()
    &&& post.queue() == pre.queue()
    &&& post.counter() == pre.counter()
    &&& post.cap() == pre.cap()
}

/// Every observable component of the cache is left as it was; only the
/// hooks may have advanced.
pub open spec fn unchanged_core<T: Clone, H: Hooks<T>>(
    pre: Tangle<T, H>,
    post: Tangle<T, H>,
) -> bool {
    &&& post.cached() == pre.cached()
    &&& post.child_entries() == pre.child_entries()
    &&& post.sep_entries() == pre.sep_entries()
    &&& post.queue() == pre.queue()
    &&& post.counter() == pre.counter()
    &&& post.cap() == pre.cap()
    &&& unchanged_indexes(pre, post)
}

/// The three milestone bookkeeping indexes are left as they were.
pub open spec fn unchanged_indexes<T: Clone, H: Hooks<T>>(
    pre: Tangle<T, H>,
    post: Tangle<T, H>,
) -> bool {
    &&& post.latest_milestone_index() == pre.latest_milestone_index()
    &&& post.snapshot_index() == pre.snapshot_index()
    &&& post.pruning_index() == pre.pruning_index()
}

} // verus!
