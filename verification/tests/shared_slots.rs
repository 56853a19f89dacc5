use wireutil::shared_slots::{SharedSlots, Slot};

#[test]
fn insert_and_take() {
    let slots = SharedSlots::<i32>::new(5);
    slots.insert(1);
    slots.insert(2);
    slots.insert(3);
    slots.insert(4);
    slots.insert(5);
    assert_eq!(slots.take(3), Some(4));
    assert_eq!(slots.get(4).as_deref(), Some(&5));
    assert_eq!(slots.insert(10), Some(3));
    assert_eq!(slots.get(3).as_deref(), Some(&10));
}

#[test]
fn get_and_take() {
    let slots = SharedSlots::<i32>::new(2);
    let slot1 = slots.reserve().unwrap();
    let slot2 = slots.reserve().unwrap();
    assert!(slots.reserve().is_none());
    let key1 = slot1.insert(1).key();
    drop(slot2);
    let slot2 = slots.reserve().unwrap();
    assert!(slots.reserve().is_none());
    assert_eq!(*slots.get(key1).unwrap(), 1);
    let key2 = slot2.insert(2).key();
    assert!(slots.reserve().is_none());
    let slot2 = slots.get(key2).unwrap();
    let (val, vac) = slot2.take();
    assert_eq!(key2, vac.key());
    assert_eq!(val, 2);
    drop(vac);
    let slot2 = slots.reserve().unwrap();
    assert!(slots.reserve().is_none());
    assert_eq!(key2, slot2.key());
}

#[test]
fn shared_slots_simple() {
    let slots = SharedSlots::<i32>::new(5);

    for i in 0..5 {
        slots.reserve().unwrap().insert(i);
    }
    assert!(slots.reserve().is_none());

    for i in 0..5 {
        assert_eq!(*slots.get(i as usize).unwrap(), i)
    }
}

#[test]
fn capacity_bounds_the_guards() {
    let slots = SharedSlots::<u8>::new(3);
    let a = slots.reserve().unwrap();
    let b = slots.reserve().unwrap().insert(7);
    let c = slots.reserve().unwrap();
    assert!(slots.reserve().is_none());
    assert!(slots.insert(1).is_none());
    let mut keys = vec![a.key(), b.key(), c.key()];
    keys.sort();
    assert_eq!(keys, vec![0, 1, 2]);
    drop(b);
    // The item stays: its slot is still taken.
    assert!(slots.reserve().is_none());
    drop(a);
    assert!(slots.reserve().is_some());
    drop(c);
}

#[test]
fn reserved_keys_are_distinct() {
    let slots = SharedSlots::<u8>::new(16);
    let mut guards = Vec::new();
    while let Some(guard) = slots.reserve() {
        guards.push(guard);
    }
    let mut keys: Vec<usize> = guards.iter().map(|g| g.key()).collect();
    assert_eq!(keys, (0..16).collect::<Vec<usize>>());
    keys.dedup();
    assert_eq!(keys.len(), 16);
}

#[test]
fn no_slot_is_lost() {
    let slots = SharedSlots::<u32>::new(4);
    let a = slots.reserve().unwrap();
    let b = slots.reserve().unwrap();
    let kb = b.insert(20).key();
    drop(a);
    let c = slots.insert(30).unwrap();
    let d = slots.reserve().unwrap();
    assert_eq!(slots.take(kb), Some(20));
    let (item, vacant) = slots.get(c).unwrap().take();
    assert_eq!(item, 30);
    drop(d);
    drop(vacant);
    assert!(slots.get(0).is_none());
    assert!(slots.take(3).is_none());

    let mut guards = Vec::new();
    while let Some(guard) = slots.reserve() {
        guards.push(guard);
    }
    let mut keys: Vec<usize> = guards.iter().map(|g| g.key()).collect();
    keys.sort();
    assert_eq!(keys, vec![0, 1, 2, 3]);
}

#[test]
fn drain_leaves_out_the_slots_with_items() {
    let slots = SharedSlots::<u32>::new(4);
    let kept = slots.insert(5).unwrap();
    slots.insert(6).unwrap();
    let mut guards = Vec::new();
    while let Some(guard) = slots.reserve() {
        assert_ne!(guard.key(), kept);
        guards.push(guard);
    }
    assert_eq!(guards.len(), 2);
}

#[test]
fn round_trip() {
    let slots = SharedSlots::<String>::new(3);
    let key = slots.insert(String::from("first")).unwrap();
    assert_eq!(key, 0);
    assert_eq!(*slots.get(key).unwrap(), "first");
    assert_eq!(slots.get(key).unwrap().key(), key);
    assert_eq!(slots.take(key), Some(String::from("first")));
    assert!(slots.get(key).is_none());
    assert_eq!(slots.take(key), None);
    assert_eq!(slots.reserve().unwrap().key(), key);
}

#[test]
fn freed_slot_is_revisited() {
    let slots = SharedSlots::<i32>::new(2);
    let a = slots.reserve().unwrap().insert(1).key();
    let b = slots.reserve().unwrap().insert(2).key();
    assert!(slots.reserve().is_none());
    assert_eq!(slots.take(a), Some(1));
    let again = slots.reserve().unwrap();
    assert_eq!(again.key(), a);
    assert_eq!(*slots.get(b).unwrap(), 2);
}

#[test]
fn keys_out_of_range_give_nothing() {
    let slots = SharedSlots::<i32>::new(2);
    slots.insert(1).unwrap();
    assert!(slots.get(2).is_none());
    assert!(slots.get(usize::MAX).is_none());
    assert_eq!(slots.take(2), None);
    assert_eq!(slots.take(usize::MAX), None);
}

#[test]
fn looking_at_a_vacant_slot_changes_nothing() {
    let slots = SharedSlots::<i32>::new(3);
    for _ in 0..5 {
        assert!(slots.get(0).is_none());
        assert!(slots.get(2).is_none());
        assert_eq!(slots.take(1), None);
    }
    let a = slots.reserve().unwrap();
    let b = slots.reserve().unwrap();
    let c = slots.reserve().unwrap();
    assert_eq!((a.key(), b.key(), c.key()), (0, 1, 2));
    assert!(slots.reserve().is_none());
}

#[test]
fn empty_pool_is_exhausted() {
    let slots = SharedSlots::<i32>::new(0);
    assert!(slots.reserve().is_none());
    assert_eq!(slots.insert(1), None);
    assert!(slots.get(0).is_none());
    assert_eq!(slots.take(0), None);
}

#[test]
fn writes_through_a_guard_stay() {
    let slots = SharedSlots::<Vec<u8>>::new(1);
    let key = slots.insert(vec![1]).unwrap();
    {
        let mut guard = slots.get(key).unwrap();
        guard.push(2);
        *guard = [guard.as_slice(), &[3]].concat();
    }
    assert_eq!(*slots.get(key).unwrap(), vec![1, 2, 3]);
    assert_eq!(slots.take(key), Some(vec![1, 2, 3]));
}

#[test]
fn taken_slot_can_be_filled_again_under_the_same_guard() {
    let slots = SharedSlots::<i32>::new(2);
    let key = slots.insert(1).unwrap();
    let (item, vacant) = slots.get(key).unwrap().take();
    assert_eq!(item, 1);
    assert_eq!(vacant.key(), key);
    let occupied = vacant.insert(9);
    assert_eq!(*occupied, 9);
    assert_eq!(occupied.key(), key);
    drop(occupied);
    assert_eq!(slots.take(key), Some(9));
}

#[test]
fn last_freed_is_first_claimed() {
    let slots = SharedSlots::<i32>::new(4);
    let a = slots.reserve().unwrap();
    let b = slots.reserve().unwrap();
    let c = slots.reserve().unwrap();
    drop(b);
    drop(a);
    drop(c);
    assert_eq!(slots.reserve().unwrap().key(), 2);
    let first = slots.reserve().unwrap();
    let second = slots.reserve().unwrap();
    let third = slots.reserve().unwrap();
    let fourth = slots.reserve().unwrap();
    assert_eq!((first.key(), second.key(), third.key(), fourth.key()), (2, 0, 1, 3));
}

#[test]
fn every_item_is_dropped_once() {
    let probe = std::rc::Rc::new(());
    {
        let slots = SharedSlots::<std::rc::Rc<()>>::new(3);
        let a = slots.insert(probe.clone()).unwrap();
        slots.insert(probe.clone()).unwrap();
        assert_eq!(std::rc::Rc::strong_count(&probe), 3);
        {
            let guard = slots.get(a).unwrap();
            assert_eq!(std::rc::Rc::strong_count(&*guard), 3);
        }
        assert_eq!(std::rc::Rc::strong_count(&probe), 3);
        let taken = slots.take(a).unwrap();
        assert_eq!(std::rc::Rc::strong_count(&probe), 3);
        drop(taken);
        assert_eq!(std::rc::Rc::strong_count(&probe), 2);
        let again = slots.reserve().unwrap().insert(probe.clone());
        assert_eq!(again.key(), a);
        assert_eq!(std::rc::Rc::strong_count(&probe), 3);
    }
    assert_eq!(std::rc::Rc::strong_count(&probe), 1);
}

#[test]
fn only_a_vacant_slot_has_a_successor() {
    assert_eq!(Slot::<u8>::Vacant { next: 4 }.successor(), Some(4));
    assert_eq!(Slot::<u8>::Vacant { next: usize::MAX }.successor(), Some(usize::MAX));
    assert_eq!(Slot::Occupied(4u8).successor(), None);
}
