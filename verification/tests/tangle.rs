use bee_tangle::{Hooks, Message, MessageId, MilestoneIndex, NullHooks, Tangle};

fn msg(p1: u64, p2: u64) -> Message {
    Message::new(MessageId::from_u64(p1), MessageId::from_u64(p2), vec![])
}

#[test]
fn new_tangle() {
    let _: Tangle<u8> = Tangle::default();
}

#[test]
fn insert_and_contains() {
    let mut tangle: Tangle<()> = Tangle::default();

    let message_id = MessageId::from_u64(1);
    let tx = msg(0, 0);

    let insert1 = tangle.insert(message_id, tx.clone(), ());

    assert!(insert1.is_some());
    assert_eq!(1, tangle.len());
    assert!(tangle.contains(&message_id));

    let insert2 = tangle.insert(message_id, tx, ());

    assert!(insert2.is_none());
    assert_eq!(1, tangle.len());
    assert!(tangle.contains(&message_id));
}

#[test]
fn eviction_cap() {
    let mut tangle: Tangle<()> = Tangle::default().with_capacity(5);

    let txs: Vec<(MessageId, Message)> = (0..10u64)
        .map(|i| (MessageId::from_u64(100 + i), msg(i, i + 1)))
        .collect();

    for (message_id, tx) in txs.iter() {
        let _ = tangle.insert(*message_id, tx.clone(), ());
    }

    assert_eq!(tangle.len(), 5);
}

#[test]
fn eviction_update() {
    let mut tangle: Tangle<()> = Tangle::default().with_capacity(5);

    let txs: Vec<(MessageId, Message)> = (0..8u64)
        .map(|i| (MessageId::from_u64(100 + i), msg(i, i + 1)))
        .collect();

    for (message_id, tx) in txs.iter().take(4) {
        let _ = tangle.insert(*message_id, tx.clone(), ());
    }

    assert!(tangle.get(&txs[0].0).is_some());

    for (message_id, tx) in txs.iter().skip(4) {
        let _ = tangle.insert(*message_id, tx.clone(), ());
    }

    assert!(tangle.contains(&txs[0].0));

    for key in tangle.vertex_ids() {
        assert!(key == txs[0].0 || txs[4..].iter().any(|(h, _)| key == *h));
    }
}

#[test]
fn fresh_insert_observable() {
    let mut tangle: Tangle<()> = Tangle::default();

    let id1 = MessageId::from_u64(1);
    let created = tangle.insert(id1, msg(0, 0), ());
    assert!(created.is_some());
    assert_eq!(*created.unwrap(), msg(0, 0));
    assert_eq!(tangle.len(), 1);
    assert!(tangle.contains(&id1));
    assert!(!tangle.contains(&MessageId::from_u64(2)));
}

#[test]
fn capacity_five_ten_inserts_keeps_newest() {
    let mut tangle: Tangle<()> = Tangle::default().with_capacity(5);

    for i in 1..=10u64 {
        let _ = tangle.insert(MessageId::from_u64(i), msg(0, 0), ());
    }

    assert_eq!(tangle.len(), 5);
    for i in 6..=10u64 {
        assert!(tangle.contains(&MessageId::from_u64(i)));
    }
    for i in 1..=5u64 {
        assert!(!tangle.contains(&MessageId::from_u64(i)));
    }
}

#[test]
fn touched_entry_survives_eviction() {
    let mut tangle: Tangle<()> = Tangle::default().with_capacity(5);

    for i in 1..=4u64 {
        let _ = tangle.insert(MessageId::from_u64(i), msg(0, 0), ());
    }
    assert!(tangle.get(&MessageId::from_u64(1)).is_some());
    for i in 5..=8u64 {
        let _ = tangle.insert(MessageId::from_u64(i), msg(0, 0), ());
    }

    assert!(tangle.contains(&MessageId::from_u64(1)));
    let mut others: usize = 0;
    for i in 2..=8u64 {
        if tangle.contains(&MessageId::from_u64(i)) {
            others += 1;
        }
    }
    assert_eq!(others, 4);
}

#[test]
fn get_metadata_returns_stored_value() {
    let mut tangle: Tangle<u32> = Tangle::default();

    let id = MessageId::from_u64(7);
    let _ = tangle.insert(id, msg(1, 2), 99);

    assert_eq!(tangle.get_metadata(&id), Some(99));
    assert_eq!(tangle.get_metadata_maybe(&id), Some(99));
    assert_eq!(tangle.get_metadata(&MessageId::from_u64(8)), None);
}

#[test]
fn update_metadata_applies_transform() {
    let mut tangle: Tangle<u32> = Tangle::default();

    let id = MessageId::from_u64(7);
    let _ = tangle.insert(id, msg(1, 2), 10);

    let doubled = tangle.update_metadata(&id, |m: u32| (m * 2, m));
    assert_eq!(doubled, Some(10));
    assert_eq!(tangle.get_metadata_maybe(&id), Some(20));

    let missing = tangle.update_metadata(&MessageId::from_u64(8), |m: u32| (m, m));
    assert_eq!(missing, None);
}

#[test]
fn get_vertex_returns_message_and_metadata() {
    let mut tangle: Tangle<u32> = Tangle::default();

    let id = MessageId::from_u64(3);
    let _ = tangle.insert(id, msg(1, 2), 5);

    let vertex = tangle.get_vertex(&id).unwrap();
    assert_eq!(**vertex.message(), msg(1, 2));
    assert_eq!(*vertex.metadata(), 5);
}

#[test]
fn is_empty_and_capacity() {
    let mut tangle: Tangle<()> = Tangle::default().with_capacity(7);
    assert!(tangle.is_empty());
    assert_eq!(tangle.capacity(), 7);
    let _ = tangle.insert(MessageId::from_u64(1), msg(0, 0), ());
    assert!(!tangle.is_empty());
}

#[test]
fn clear_empties_the_cache() {
    let mut tangle: Tangle<()> = Tangle::default();
    let _ = tangle.insert(MessageId::from_u64(1), msg(0, 0), ());
    let _ = tangle.insert(MessageId::from_u64(2), msg(0, 0), ());
    tangle.clear();
    assert_eq!(tangle.len(), 0);
    assert!(tangle.get_metadata_maybe(&MessageId::from_u64(1)).is_none());
}

#[test]
fn add_solid_entry_point_is_idempotent() {
    let mut tangle: Tangle<()> = Tangle::default();
    let sep = MessageId::from_u64(42);

    tangle.add_solid_entry_point(sep, MilestoneIndex(3));
    assert_eq!(tangle.get_solid_entry_point(&sep), Some(MilestoneIndex(3)));
    assert!(tangle.is_solid_entry_point(&sep));

    tangle.add_solid_entry_point(sep, MilestoneIndex(3));
    assert_eq!(tangle.get_solid_entry_point(&sep), Some(MilestoneIndex(3)));
    assert!(!tangle.is_solid_entry_point(&MessageId::from_u64(43)));
}

#[test]
fn shutdown_leaves_the_tangle_alone() {
    let mut tangle: Tangle<()> = Tangle::default();
    let _ = tangle.insert(MessageId::from_u64(1), msg(0, 0), ());
    tangle.shutdown();
    assert_eq!(tangle.len(), 1);
}

/// Hooks that know one message and count how often each operation runs.
struct RecordingHooks {
    known: Vec<(MessageId, Message)>,
    approvers: Vec<(MessageId, MessageId)>,
    get_calls: usize,
    insert_calls: usize,
    fetch_calls: usize,
    approver_calls: usize,
}

impl RecordingHooks {
    fn new() -> Self {
        RecordingHooks {
            known: vec![],
            approvers: vec![],
            get_calls: 0,
            insert_calls: 0,
            fetch_calls: 0,
            approver_calls: 0,
        }
    }
}

impl Hooks<()> for RecordingHooks {
    type Error = ();

    fn get(&mut self, message_id: &MessageId) -> Result<Option<(Message, ())>, ()> {
        self.get_calls += 1;
        Ok(self
            .known
            .iter()
            .find(|(id, _)| id == message_id)
            .map(|(_, m)| (m.clone(), ())))
    }

    fn insert(&mut self, _message_id: MessageId, _message: Message, _metadata: ()) -> Result<(), ()> {
        self.insert_calls += 1;
        Ok(())
    }

    fn fetch_approvers(&mut self, message_id: &MessageId) -> Result<Option<Vec<MessageId>>, ()> {
        self.fetch_calls += 1;
        let found: Vec<MessageId> = self
            .approvers
            .iter()
            .filter(|(p, _)| p == message_id)
            .map(|(_, c)| *c)
            .collect();
        if found.is_empty() {
            Ok(None)
        } else {
            Ok(Some(found))
        }
    }

    fn insert_approver(&mut self, _message_id: MessageId, _approver: MessageId) -> Result<(), ()> {
        self.approver_calls += 1;
        Ok(())
    }
}

#[test]
fn read_through_fills_the_cache_once() {
    let x = MessageId::from_u64(9);
    let m = msg(1, 2);
    let mut hooks = RecordingHooks::new();
    hooks.known.push((x, m.clone()));

    let mut tangle: Tangle<(), RecordingHooks> = Tangle::new(hooks);

    let got = tangle.get(&x);
    assert_eq!(*got.unwrap(), m);
    assert_eq!(tangle.len(), 1);
    assert_eq!(tangle.hooks().get_calls, 1);

    assert!(tangle.contains(&x));
    assert_eq!(tangle.hooks().get_calls, 1);
}

#[test]
fn write_through_calls_hooks_once_per_insert() {
    let mut tangle: Tangle<(), RecordingHooks> = Tangle::new(RecordingHooks::new());

    let id = MessageId::from_u64(1);
    let created = tangle.insert(id, msg(2, 3), ());
    assert!(created.is_some());
    assert_eq!(tangle.hooks().insert_calls, 1);
    assert_eq!(tangle.hooks().approver_calls, 2);

    let again = tangle.insert(id, msg(2, 3), ());
    assert!(again.is_none());
    assert_eq!(tangle.hooks().insert_calls, 1);
    assert_eq!(tangle.hooks().approver_calls, 2);
}

#[test]
fn children_merge_with_fetched_list() {
    let p = MessageId::from_u64(50);
    let c1 = MessageId::from_u64(51);
    let c2 = MessageId::from_u64(52);
    let c3 = MessageId::from_u64(53);

    let mut hooks = RecordingHooks::new();
    hooks.approvers.push((p, c3));

    let mut tangle: Tangle<(), RecordingHooks> = Tangle::new(hooks);

    let parent_ref = Message::new(p, MessageId::null(), vec![]);
    let _ = tangle.insert(c1, parent_ref.clone(), ());
    let _ = tangle.insert(c2, parent_ref, ());

    let children = tangle.get_children(&p).unwrap();
    assert_eq!(children.len(), 3);
    assert!(children.contains(&c1));
    assert!(children.contains(&c2));
    assert!(children.contains(&c3));
    assert_eq!(tangle.hooks().fetch_calls, 1);

    let again = tangle.get_children(&p).unwrap();
    assert_eq!(again.len(), 3);
    assert_eq!(tangle.hooks().fetch_calls, 1);

    assert_eq!(tangle.num_children(&p), 3);
}

#[test]
fn children_without_fetch_are_not_exhaustive() {
    let p = MessageId::from_u64(60);
    let c1 = MessageId::from_u64(61);

    let mut tangle: Tangle<(), NullHooks<()>> = Tangle::default();
    let _ = tangle.insert(c1, Message::new(p, MessageId::null(), vec![]), ());

    let children = tangle.get_children(&p).unwrap();
    assert_eq!(children.len(), 1);
    assert!(children.contains(&c1));
}

#[test]
fn null_hooks_know_and_store_nothing() {
    let mut hooks: NullHooks<u32> = NullHooks::new();
    let id = MessageId::from_u64(5);
    assert_eq!(Hooks::get(&mut hooks, &id), Ok(None));
    assert_eq!(Hooks::insert(&mut hooks, id, msg(0, 0), 1), Ok(()));
    assert_eq!(Hooks::fetch_approvers(&mut hooks, &id), Ok(None));
    assert_eq!(Hooks::insert_approver(&mut hooks, id, id), Ok(()));
}

#[test]
fn null_id_is_all_zero_words() {
    let n = MessageId::null();
    assert_eq!(n, MessageId::from_u64(0));
}
