//! Association maps keyed by [`MessageId`], the representation behind the
//! cache's indexes. A map is a vector of key/value pairs with pairwise
//! distinct keys; its mathematical view is a `Map<MessageId, V>`.

use vstd::prelude::*;
use crate::message::MessageId;

verus! {

/// The keys of an entry sequence, in entry order.
pub open spec fn entry_keys<V>(s: Seq<(MessageId, V)>) -> Seq<MessageId> {
    s.map_values(|e: (MessageId, V)| e.0)
}

/// The mathematical map described by an entry sequence; a later entry for a
/// key overrides an earlier one, though well-formed maps never hold two
/// entries for one key.
pub open spec fn entry_map<V>(s: Seq<(MessageId, V)>) -> Map<MessageId, V>
    decreases s.len(),
{
    if s.len() == 0 {
        Map::empty()
    } else {
        entry_map(s.drop_last()).insert(s.last().0, s.last().1)
    }
}

/// A key is in the map exactly when some entry holds it.
pub proof fn lemma_entry_map_contains<V>(s: Seq<(MessageId, V)>, k: MessageId)
    ensures
        entry_map(s).contains_key(k) <==> entry_keys(s).contains(k),
    decreases s.len(),
{
    if s.len() > 0 {
        lemma_entry_map_contains(s.drop_last(), k);
        if entry_keys(s).contains(k) {
            let i = choose|i: int| 0 <= i < s.len() && entry_keys(s)[i] == k;
            if i < s.len() - 1 {
                assert(entry_keys(s.drop_last())[i] == k);
            }
        }
        if entry_keys(s.drop_last()).contains(k) {
            let i = choose|i: int|
                0 <= i < s.len() - 1 && entry_keys(s.drop_last())[i] == k;
            assert(entry_keys(s)[i] == k);
        }
        if s.last().0 == k {
            assert(entry_keys(s)[s.len() - 1] == k);
        }
    }
}

/// With distinct keys, the map sends each entry's key to that entry's value.
pub proof fn lemma_entry_map_index<V>(s: Seq<(MessageId, V)>, i: int)
    requires
        entry_keys(s).no_duplicates(),
        0 <= i < s.len(),
    ensures
        entry_map(s).contains_key(s[i].0),
        entry_map(s)[s[i].0] == s[i].1,
    decreases s.len(),
{
    lemma_entry_map_contains(s, s[i].0);
    assert(entry_keys(s)[i] == s[i].0);
    if i < s.len() - 1 {
        assert(entry_keys(s)[i] != entry_keys(s)[s.len() - 1]);
        assert(entry_keys(s.drop_last()) =~= entry_keys(s).drop_last());
        lemma_entry_map_index(s.drop_last(), i);
    }
}

/// With distinct keys, the map has exactly one element per entry.
pub proof fn lemma_entry_map_len<V>(s: Seq<(MessageId, V)>)
    requires
        entry_keys(s).no_duplicates(),
    ensures
        entry_map(s).dom().finite(),
        entry_map(s).dom().len() == s.len(),
    decreases s.len(),
{
    if s.len() > 0 {
        let rest = s.drop_last();
        assert(entry_keys(rest) =~= entry_keys(s).drop_last());
        lemma_entry_map_len(rest);
        lemma_entry_map_contains(rest, s.last().0);
        assert(forall|j: int|
            0 <= j < s.len() - 1 ==> #[trigger] entry_keys(s)[j] != entry_keys(s)[s.len() - 1]);
        assert(!entry_keys(rest).contains(s.last().0)) by {
            if entry_keys(rest).contains(s.last().0) {
                let j = choose|j: int|
                    0 <= j < rest.len() && entry_keys(rest)[j] == s.last().0;
                assert(entry_keys(s)[j] == s.last().0);
            }
        }
    }
}

/// Updating the entry that holds a key updates the map at that key.
pub proof fn lemma_entry_map_update<V>(s: Seq<(MessageId, V)>, i: int, v: V)
    requires
        entry_keys(s).no_duplicates(),
        0 <= i < s.len(),
    ensures
        entry_map(s.update(i, (s[i].0, v))) =~= entry_map(s).insert(s[i].0, v),
    decreases s.len(),
{
    let t = s.update(i, (s[i].0, v));
    assert(entry_keys(t) =~= entry_keys(s));
    if i == s.len() - 1 {
        assert(t.drop_last() =~= s.drop_last());
        lemma_entry_map_contains(s.drop_last(), s[i].0);
    } else {
        assert(t.drop_last() =~= s.drop_last().update(i, (s[i].0, v)));
        assert(entry_keys(s.drop_last()) =~= entry_keys(s).drop_last());
        lemma_entry_map_update(s.drop_last(), i, v);
        assert(s.last().0 != s[i].0) by {
            assert(entry_keys(s)[i] == s[i].0);
            assert(entry_keys(s)[s.len() - 1] == s.last().0);
        }
        assert(t.last() == s.last());
    }
}

/// Removing the entry that holds a key removes that key from the map.
pub proof fn lemma_entry_map_remove<V>(s: Seq<(MessageId, V)>, i: int)
    requires
        entry_keys(s).no_duplicates(),
        0 <= i < s.len(),
    ensures
        entry_map(s.remove(i)) =~= entry_map(s).remove(s[i].0),
        entry_keys(s.remove(i)) =~= entry_keys(s).remove(i),
    decreases s.len(),
{
    let t = s.remove(i);
    assert(entry_keys(t) =~= entry_keys(s).remove(i));
    if i == s.len() - 1 {
        assert(t =~= s.drop_last());
        lemma_entry_map_contains(t, s[i].0);
        assert(!entry_keys(t).contains(s[i].0)) by {
            if entry_keys(t).contains(s[i].0) {
                let j = choose|j: int|
                    0 <= j < t.len() && entry_keys(t)[j] == s[i].0;
                assert(entry_keys(s)[j] == s[i].0);
                assert(entry_keys(s)[i] == s[i].0);
            }
        }
    } else {
        assert(t.drop_last() =~= s.drop_last().remove(i));
        assert(entry_keys(s.drop_last()) =~= entry_keys(s).drop_last());
        lemma_entry_map_remove(s.drop_last(), i);
        assert(t.last() == s.last());
        assert(s.last().0 != s[i].0) by {
            assert(entry_keys(s)[i] == s[i].0);
            assert(entry_keys(s)[s.len() - 1] == s.last().0);
        }
    }
}

/// A map from message identifiers to values, with one entry per key.
pub struct AssocMap<V> {
    pub(crate) entries: Vec<(MessageId, V)>,
}

impl<V> AssocMap<V> {
    /// The mathematical map this value represents.
    pub closed spec fn view(self) -> Map<MessageId, V> {
        entry_map(self.entries@)
    }

    /// Well-formed: no two entries share a key.
    pub closed spec fn wf(self) -> bool {
        entry_keys(self.entries@).no_duplicates()
    }

    /// Builds an empty map.
    pub fn new() -> (r: AssocMap<V>)
        ensures
            r.wf(),
            r@ == Map::<MessageId, V>::empty(),
            r@.dom() =~= Set::<MessageId>::empty(),
    {
        let r = AssocMap { entries: Vec::new() };
        proof {
            assert(entry_keys(r.entries@) =~= Seq::<MessageId>::empty());
            assert(r@.dom() =~= Set::<MessageId>::empty());
        }
        r
    }

    /// Finds the position of the entry holding `id`, if any.
    fn position(&self, id: &MessageId) -> (r: Option<usize>)
        ensures
            (match r {
                Some(i) => i < self.entries@.len() && self.entries@[i as int].0 == *id,
                None => !entry_keys(self.entries@).contains(*id),
            }),
    {
        let mut i: usize = 0;
        while i < self.entries.len()
            invariant
                i <= self.entries@.len(),
                forall|j: int| 0 <= j < i ==> self.entries@[j].0 != *id,
            decreases self.entries@.len() - i,
        {
            if self.entries[i].0 == *id {
                return Some(i);
            }
            i += 1;
        }
        proof {
            if entry_keys(self.entries@).contains(*id) {
                let j = choose|j: int|
                    0 <= j < self.entries@.len() && entry_keys(self.entries@)[j] == *id;
                assert(self.entries@[j].0 == *id);
            }
        }
        None
    }

    /// Whether the map holds a value for `id`.
    pub fn contains(&self, id: &MessageId) -> (r: bool)
        ensures
            r == self@.contains_key(*id),
    {
        let r = self.position(id);
        proof {
            lemma_entry_map_contains(self.entries@, *id);
            if let Some(i) = r {
                assert(entry_keys(self.entries@)[i as int] == *id);
            }
        }
        r.is_some()
    }

    /// The value held for `id`, if any.
    pub fn get(&self, id: &MessageId) -> (r: Option<&V>)
        requires
            self.wf(),
        ensures
            match r {
                Some(v) => self@.contains_key(*id) && *v == self@[*id],
                None => !self@.contains_key(*id),
            },
    {
        proof {
            lemma_entry_map_contains(self.entries@, *id);
        }
        match self.position(id) {
            Some(i) => {
                proof {
                    lemma_entry_map_index(self.entries@, i as int);
                }
                Some(&self.entries[i].1)
            },
            None => None,
        }
    }

    /// Maps `id` to `v`, replacing any earlier value.
    pub fn insert(&mut self, id: MessageId, v: V)
        requires
            old(self).wf(),
        ensures
            final(self).wf(),
            final(self)@ == old(self)@.insert(id, v),
    {
        proof {
            lemma_entry_map_contains(self.entries@, id);
        }
        let ghost s = self.entries@;
        match self.position(&id) {
            Some(i) => {
                self.entries.set(i, (id, v));
                proof {
                    assert(s.update(i as int, (id, v)) == self.entries@);
                    lemma_entry_map_update(s, i as int, v);
                    assert(entry_keys(self.entries@) =~= entry_keys(s));
                    assert(final(self)@ =~= old(self)@.insert(id, v));
                }
            },
            None => {
                self.entries.push((id, v));
                proof {
                    assert(self.entries@.drop_last() =~= s);
                    assert(entry_keys(self.entries@) =~= entry_keys(s).push(id));
                    assert(entry_keys(self.entries@).no_duplicates()) by {
                        assert(forall|j: int|
                            0 <= j < s.len() ==> entry_keys(s)[j] == entry_keys(self.entries@)[j]);
                    }
                    assert(final(self)@ =~= old(self)@.insert(id, v));
                }
            },
        }
    }

    /// Discards the value held for `id`, returning it.
    pub fn remove(&mut self, id: &MessageId) -> (r: Option<V>)
        requires
            old(self).wf(),
        ensures
            final(self).wf(),
            final(self)@ == old(self)@.remove(*id),
            match r {
                Some(v) => old(self)@.contains_key(*id) && v == old(self)@[*id],
                None => !old(self)@.contains_key(*id) && *final(self) == *old(self),
            },
    {
        proof {
            lemma_entry_map_contains(self.entries@, *id);
        }
        let ghost s = self.entries@;
        match self.position(id) {
            Some(i) => {
                proof {
                    lemma_entry_map_index(s, i as int);
                    lemma_entry_map_remove(s, i as int);
                }
                let (_, v) = self.entries.remove(i);
                proof {
                    assert(final(self)@ =~= old(self)@.remove(*id));
                }
                Some(v)
            },
            None => {
                proof {
                    assert(old(self)@.remove(*id) =~= old(self)@);
                }
                None
            },
        }
    }

    /// The number of keys held.
    pub fn len(&self) -> (r: usize)
        requires
            self.wf(),
        ensures
            r == self@.dom().len(),
            self@.dom().finite(),
    {
        proof {
            lemma_entry_map_len(self.entries@);
        }
        self.entries.len()
    }

    /// Every key held, in entry order.
    pub fn keys(&self) -> (r: Vec<MessageId>)
        requires
            self.wf(),
        ensures
            r@.no_duplicates(),
            forall|k: MessageId| r@.contains(k) <==> self@.contains_key(k),
    {
        let mut r: Vec<MessageId> = Vec::new();
        let mut i: usize = 0;
        while i < self.entries.len()
            invariant
                i <= self.entries@.len(),
                r@ =~= entry_keys(self.entries@).take(i as int),
            decreases self.entries@.len() - i,
        {
            r.push(self.entries[i].0);
            proof {
                assert(r@ =~= entry_keys(self.entries@).take(i + 1 as int));
            }
            i += 1;
        }
        proof {
            assert(r@ =~= entry_keys(self.entries@));
            assert forall|k: MessageId| r@.contains(k) <==> self@.contains_key(k) by {
                lemma_entry_map_contains(self.entries@, k);
            }
        }
        r
    }

    /// Discards every entry.
    pub fn clear(&mut self)
        ensures
            final(self).wf(),
            final(self)@ == Map::<MessageId, V>::empty(),
    {
        self.entries.clear();
        proof {
            assert(entry_keys(self.entries@) =~= Seq::<MessageId>::empty());
            assert(final(self)@ =~= Map::<MessageId, V>::empty());
        }
    }
}

impl AssocMap<u64> {
    /// Removes and returns an entry whose value is the minimum held; `None`
    /// only on an empty map.
    pub fn pop_min(&mut self) -> (r: Option<(MessageId, u64)>)
        requires
            old(self).wf(),
        ensures
            final(self).wf(),
            (match r {
                Some(p) => {
                    &&& old(self)@.contains_key(p.0)
                    &&& old(self)@[p.0] == p.1
                    &&& forall|k: MessageId|
                        old(self)@.contains_key(k) ==> p.1 <= #[trigger] old(self)@[k]
                    &&& final(self)@ == old(self)@.remove(p.0)
                },
                None => old(self)@ == Map::<MessageId, u64>::empty() && *final(self) == *old(
                    self,
                ),
            }),
    {
        if self.entries.len() == 0 {
            proof {
                assert(old(self)@ =~= Map::<MessageId, u64>::empty());
            }
            return None;
        }
        let ghost s = self.entries@;
        let mut best: usize = 0;
        let mut i: usize = 1;
        while i < self.entries.len()
            invariant
                self.entries@.len() > 0,
                best < i <= self.entries@.len(),
                forall|j: int|
                    0 <= j < i ==> self.entries@[best as int].1 <= #[trigger] self.entries@[j].1,
            decreases self.entries@.len() - i,
        {
            if self.entries[i].1 < self.entries[best].1 {
                best = i;
            }
            i += 1;
        }
        let (id, ts) = self.entries.remove(best);
        proof {
            lemma_entry_map_index(s, best as int);
            lemma_entry_map_remove(s, best as int);
            assert forall|k: MessageId| old(self)@.contains_key(k) implies ts <= old(self)@[k] by {
                lemma_entry_map_contains(s, k);
                let j = choose|j: int| 0 <= j < s.len() && entry_keys(s)[j] == k;
                assert(s[j].0 == k);
                lemma_entry_map_index(s, j);
            }
            assert(final(self)@ =~= old(self)@.remove(id));
        }
        Some((id, ts))
    }
}

/// A set of message identifiers: a vector of pairwise distinct identifiers
/// whose mathematical view is a `Set<MessageId>`.
pub struct IdSet {
    items: Vec<MessageId>,
}

impl IdSet {
    /// The mathematical set this value represents.
    pub closed spec fn view(self) -> Set<MessageId> {
        self.items@.to_set()
    }

    /// Well-formed: no identifier occurs twice.
    pub closed spec fn wf(self) -> bool {
        self.items@.no_duplicates()
    }

    /// Builds an empty set.
    pub fn new() -> (r: IdSet)
        ensures
            r.wf(),
            r@ == Set::<MessageId>::empty(),
    {
        let r = IdSet { items: Vec::new() };
        proof {
            assert(r@ =~= Set::<MessageId>::empty());
        }
        r
    }

    /// Whether `id` is a member.
    pub fn contains(&self, id: &MessageId) -> (r: bool)
        ensures
            r == self@.contains(*id),
    {
        let mut i: usize = 0;
        while i < self.items.len()
            invariant
                i <= self.items@.len(),
                forall|j: int| 0 <= j < i ==> self.items@[j] != *id,
            decreases self.items@.len() - i,
        {
            if self.items[i] == *id {
                return true;
            }
            i += 1;
        }
        proof {
            if self@.contains(*id) {
                let j = choose|j: int| 0 <= j < self.items@.len() && self.items@[j] == *id;
            }
        }
        false
    }

    /// Adds `id`; a no-op when it is already a member.
    pub fn insert(&mut self, id: MessageId)
        requires
            old(self).wf(),
        ensures
            final(self).wf(),
            final(self)@ == old(self)@.insert(id),
    {
        if !self.contains(&id) {
            self.items.push(id);
            proof {
                let sold = old(self).items@;
                let snew = self.items@;
                assert forall|k: MessageId| snew.contains(k) implies (sold.contains(k) || k
                    == id) by {
                    let j = choose|j: int| 0 <= j < snew.len() && snew[j] == k;
                    if j < sold.len() {
                        assert(sold[j] == k);
                    }
                }
                assert forall|k: MessageId| sold.contains(k) implies snew.contains(k) by {
                    let j = choose|j: int| 0 <= j < sold.len() && sold[j] == k;
                    assert(snew[j] == k);
                }
                assert(snew[sold.len() as int] == id);
                assert(final(self)@ =~= old(self)@.insert(id));
                assert(forall|j: int| 0 <= j < sold.len() ==> sold[j] == #[trigger] snew[j]);
            }
        } else {
            proof {
                assert(final(self)@ =~= old(self)@.insert(id));
            }
        }
    }

    /// The number of members.
    pub fn len(&self) -> (r: usize)
        requires
            self.wf(),
        ensures
            r == self@.len(),
            self@.finite(),
    {
        proof {
            self.items@.unique_seq_to_set();
        }
        self.items.len()
    }

    /// Whether the set is empty.
    pub fn is_empty(&self) -> (r: bool)
        requires
            self.wf(),
        ensures
            r == (self@ == Set::<MessageId>::empty()),
    {
        let r = self.len() == 0;
        proof {
            if r {
                assert(self@ =~= Set::<MessageId>::empty());
            } else {
                vstd::set_lib::lemma_set_empty_equivalency_len(self@);
            }
        }
        r
    }

    /// The members, in insertion order.
    pub fn to_vec(&self) -> (r: Vec<MessageId>)
        ensures
            r@.to_set() == self@,
            r@.no_duplicates() == self.wf(),
    {
        let mut r: Vec<MessageId> = Vec::new();
        let mut i: usize = 0;
        while i < self.items.len()
            invariant
                i <= self.items@.len(),
                r@ =~= self.items@.take(i as int),
            decreases self.items@.len() - i,
        {
            r.push(self.items[i]);
            proof {
                assert(r@ =~= self.items@.take(i + 1 as int));
            }
            i += 1;
        }
        proof {
            assert(r@ =~= self.items@);
        }
        r
    }
}

impl Clone for IdSet {
    /// Clones the set; the copy holds exactly the same members.
    fn clone(&self) -> (r: Self)
        ensures
            r@ == self@,
            r.wf() == self.wf(),
    {
        IdSet { items: self.to_vec() }
    }
}

} // verus!
