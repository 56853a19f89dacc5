//! A fixed pool of slots, each behind its own lock, with a free list that
//! threads pop from and push onto without a lock around the whole pool.

use std::ops::Deref;
use std::ops::DerefMut;
use std::sync::atomic::AtomicUsize;
use std::sync::atomic::Ordering;
use crate::pool_model::PoolModel;
use vstd::prelude::*;

verus! {

/// `parking_lot::RawMutex`, the lock inside a `parking_lot::Mutex`. Nothing
/// is said of it.
#[verifier::external_type_specification]
#[verifier::external_body]
pub struct ExRawMutex(parking_lot::RawMutex);

/// `lock_api::Mutex`, which `parking_lot::Mutex` is with `RawMutex` as its
/// lock. Nothing is said of what a mutex holds: that changes under a shared
/// reference.
#[verifier::external_type_specification]
#[verifier::external_body]
#[verifier::reject_recursive_types(R)]
#[verifier::reject_recursive_types(T)]
pub struct ExMutex<R, T: ?Sized>(lock_api::Mutex<R, T>);

/// What a slot holds.
pub enum Slot<T> {
    /// A live item.
    Occupied(T),
    /// No item. While the slot is on the free list, `next` is the key of the
    /// slot behind it there, or a key out of range at the end of the list.
    Vacant { next: usize },
}

/// A `parking_lot::MutexGuard`: a lock, held until this goes. Nothing is
/// said of what the mutex holds, nor of which mutex it is.
#[verifier::external_body]
#[verifier::reject_recursive_types(T)]
struct Latch<'a, T> {
    guard: parking_lot::MutexGuard<'a, Slot<T>>,
}

/// The lock of the slot of `key` in the pool `slots`, held: `lock_slot`
/// makes it, and is the only place that does.
#[verifier::reject_recursive_types(T)]
struct Locked<'a, T> {
    latch: Latch<'a, T>,
    slots: &'a SharedSlots<T>,
    key: usize,
}

/// A pool of a fixed number of slots, each behind a lock of its own.
///
/// The vacant slots form a list through their `next` fields, from
/// `next_free` to a key out of range. A slot leaves the list only under its
/// own lock and by a compare-and-exchange on `next_free`, and enters it
/// under its own lock by a swap on `next_free`.
#[verifier::reject_recursive_types(T)]
pub struct SharedSlots<T> {
    slots: Vec<parking_lot::Mutex<Slot<T>>>,
    next_free: AtomicUsize,
}

/// The number of times that `reserve` starts over after another thread got
/// ahead of it, before it gives up.
pub const RESERVE_ATTEMPTS: usize = usize::MAX;

/// `parking_lot::Mutex::new`: a new, unlocked mutex around `slot`.
#[verifier::external_body]
fn new_cell<T>(slot: Slot<T>) -> parking_lot::Mutex<Slot<T>> {
    parking_lot::Mutex::new(slot)
}

/// `parking_lot::Mutex::lock`: waits until the mutex is free and takes it.
/// Nothing is said of what the mutex holds. The call does not unwind; it
/// does not return where the calling thread holds this mutex already.
#[verifier::external_body]
fn lock_cell<'a, T>(cell: &'a parking_lot::Mutex<Slot<T>>) -> Latch<'a, T>
    opens_invariants none
    no_unwind
{
    Latch { guard: cell.lock() }
}

/// `std::mem::swap` through `DerefMut` of `parking_lot::MutexGuard`: what
/// the locked mutex holds and `*slot` change places. Nothing is said of what
/// comes out of the mutex. The call does not unwind.
#[verifier::external_body]
fn exchange<T>(latch: &mut Latch<'_, T>, slot: &mut Slot<T>)
    opens_invariants none
    no_unwind
{
    std::mem::swap(&mut *latch.guard, slot)
}

/// `AtomicUsize::swap`: stores `key` and returns what was there before, in
/// one step. Nothing is said of what was there. The call does not unwind,
/// which a destructor has to know of what it calls.
#[verifier::external_body]
fn swap_head(head: &AtomicUsize, key: usize) -> usize
    opens_invariants none
    no_unwind
{
    head.swap(key, Ordering::AcqRel)
}

impl<T> Slot<T> {
    /// What a slot holds once it has been pushed onto a free list whose
    /// head was `head`.
    pub open spec fn linked(head: usize) -> Self {
        Slot::Vacant { next: head }
    }

    /// What a slot holds between losing its item and going back onto the
    /// free list.
    pub open spec fn unlinked() -> Self {
        Slot::Vacant { next: usize::MAX }
    }

    /// The key behind this slot on the free list, if the slot is vacant.
    pub fn successor(&self) -> (next: Option<usize>)
        ensures
            next == match *self {
                Slot::Vacant { next } => Some(next),
                Slot::Occupied(_) => None::<usize>,
            },
    {
        match self {
            Slot::Vacant { next } => Some(*next),
            Slot::Occupied(_) => None,
        }
    }

    /// Makes the slot the front of a free list whose head was `head`.
    fn link(&mut self, head: usize)
        requires
            *old(self) is Vacant,
        ensures
            *final(self) == Self::linked(head),
        opens_invariants none
        no_unwind
    {
        *self = Slot::Vacant { next: head };
    }

    /// Puts `item` into a vacant slot.
    fn fill(&mut self, item: T)
        requires
            *old(self) is Vacant,
        ensures
            *final(self) == Slot::Occupied(item),
        no_unwind
    {
        *self = Slot::Occupied(item);
    }

    /// Takes the item out of an occupied slot and leaves the slot vacant
    /// and off the free list.
    fn empty(&mut self) -> (item: T)
        requires
            *old(self) is Occupied,
        ensures
            item == old(self)->Occupied_0,
            *final(self) == Self::unlinked(),
        no_unwind
    {
        let mut slot = Slot::Vacant { next: usize::MAX };
        std::mem::swap(self, &mut slot);
        match slot {
            Slot::Occupied(item) => item,
            Slot::Vacant { .. } => vstd::pervasive::unreached(),
        }
    }
}

/// A slot with its lock held and what it holds taken out of the mutex.
/// When this goes, what it holds goes back into the mutex; a vacant slot is
/// first pushed onto the free list.
#[verifier::reject_recursive_types(T)]
struct SlotRef<'a, T> {
    guard: Locked<'a, T>,
    slot: Slot<T>,
}

impl<'a, T> Drop for SlotRef<'a, T> {
    fn drop(&mut self)
        opens_invariants none
        no_unwind
    {
        if let Slot::Vacant { .. } = self.slot {
            let head = swap_head(&self.guard.slots.next_free, self.guard.key);
            self.slot.link(head);
        }
        exchange(&mut self.guard.latch, &mut self.slot);
    }
}

/// A slot that its holder has claimed and that holds no item. When this
/// goes, the slot goes back onto the free list.
#[verifier::reject_recursive_types(T)]
pub struct Reserved<'a, T>(SlotRef<'a, T>);

/// What one attempt of `reserve` came to.
#[verifier::reject_recursive_types(T)]
enum Attempt<'a, T> {
    /// The head of the free list was no key: no slot is vacant.
    Exhausted,
    /// Another thread got ahead.
    Lost,
    /// The slot at the head was claimed.
    Claimed(Reserved<'a, T>),
}

impl<'a, T> Reserved<'a, T> {
    #[verifier::type_invariant]
    spec fn inv(self) -> bool {
        self.0.slot is Vacant && self.0.guard.key < self.0.guard.slots.capacity()
    }

    /// The pool that the slot belongs to.
    pub closed spec fn pool(&self) -> &'a SharedSlots<T> {
        self.0.guard.slots
    }

    /// The key of the slot.
    pub closed spec fn spec_key(&self) -> usize {
        self.0.guard.key
    }

    /// The key of the slot.
    #[verifier::when_used_as_spec(spec_key)]
    pub fn key(&self) -> (key: usize)
        ensures
            key == self.key(),
            key < self.pool().capacity(),
    {
        proof {
            use_type_invariant(self);
        }
        self.0.guard.key
    }

    /// Puts `item` into the slot. The lock stays held.
    pub fn insert(self, item: T) -> (occupied: Occupied<'a, T>)
        ensures
            occupied.key() == self.key(),
            occupied.pool() == self.pool(),
            occupied.value() == item,
    {
        proof {
            use_type_invariant(&self);
        }
        let mut inner = self.0;
        inner.slot.fill(item);
        Occupied(inner)
    }
}

/// A slot that holds an item, with its lock held. When this goes, the item
/// stays in the slot.
#[verifier::reject_recursive_types(T)]
pub struct Occupied<'a, T>(SlotRef<'a, T>);

impl<'a, T> Occupied<'a, T> {
    #[verifier::type_invariant]
    spec fn inv(self) -> bool {
        self.0.slot is Occupied && self.0.guard.key < self.0.guard.slots.capacity()
    }

    /// The pool that the slot belongs to.
    pub closed spec fn pool(&self) -> &'a SharedSlots<T> {
        self.0.guard.slots
    }

    /// The key of the slot.
    pub closed spec fn spec_key(&self) -> usize {
        self.0.guard.key
    }

    /// The item in the slot.
    pub closed spec fn value(&self) -> T {
        self.0.slot->Occupied_0
    }

    /// The key of the slot.
    #[verifier::when_used_as_spec(spec_key)]
    pub fn key(&self) -> (key: usize)
        ensures
            key == self.key(),
            key < self.pool().capacity(),
    {
        proof {
            use_type_invariant(self);
        }
        self.0.guard.key
    }

    /// Takes the item out of the slot. The lock stays held, and the slot
    /// stays off the free list until the `Reserved` goes.
    pub fn take(self) -> (out: (T, Reserved<'a, T>))
        ensures
            out.0 == self.value(),
            out.1.key() == self.key(),
            out.1.pool() == self.pool(),
    {
        proof {
            use_type_invariant(&self);
        }
        let mut inner = self.0;
        let item = inner.slot.empty();
        (item, Reserved(inner))
    }
}

impl<'a, T> Deref for Occupied<'a, T> {
    type Target = T;

    fn deref(&self) -> (item: &T)
        ensures
            *item == self.value(),
    {
        proof {
            use_type_invariant(self);
        }
        match &self.0.slot {
            Slot::Occupied(item) => item,
            Slot::Vacant { .. } => vstd::pervasive::unreached(),
        }
    }
}

impl<'a, T> DerefMut for Occupied<'a, T> {
    fn deref_mut(&mut self) -> (item: &mut T)
        ensures
            *item == old(self).value(),
            final(self).value() == *final(item),
            final(self).key() == old(self).key(),
            final(self).pool() == old(self).pool(),
    {
        proof {
            use_type_invariant(&*self);
        }
        occupant_mut(&mut self.0.slot)
    }
}

/// The item of an occupied slot, for writing.
fn occupant_mut<T>(slot: &mut Slot<T>) -> (item: &mut T)
    requires
        *old(slot) is Occupied,
    ensures
        *item == old(slot)->Occupied_0,
        *final(slot) == Slot::Occupied(*final(item)),
    no_unwind
{
    match slot {
        Slot::Occupied(item) => item,
        Slot::Vacant { .. } => vstd::pervasive::unreached(),
    }
}

impl<T> SharedSlots<T> {
    /// The number of slots.
    pub closed spec fn capacity(&self) -> nat {
        self.slots@.len()
    }

    /// What the slot of `key` holds in a new pool of `capacity` slots: a
    /// link to the key above it.
    fn initial(key: usize, capacity: usize) -> (slot: Slot<T>)
        requires
            key < capacity,
        ensures
            slot == PoolModel::<T>::init(capacity as nat).slots[key as int],
    {
        Slot::Vacant { next: key + 1 }
    }

    /// Creates a pool of `capacity` vacant slots, with the free list
    /// running from key 0 up through all of them.
    pub fn new(capacity: usize) -> (pool: Self)
        ensures
            pool.capacity() == capacity,
    {
        let mut slots: Vec<parking_lot::Mutex<Slot<T>>> = Vec::new();
        let mut i: usize = 0;
        while i < capacity
            invariant
                i <= capacity,
                slots@.len() == i,
            decreases capacity - i,
        {
            slots.push(new_cell(Self::initial(i, capacity)));
            i = i + 1;
        }
        SharedSlots { slots, next_free: AtomicUsize::new(0) }
    }

    /// Locks the slot of `key` and takes what it holds out of the mutex:
    /// returns the lock, marked as that of `key` in this pool, and what the
    /// slot held.
    fn lock_slot(&self, key: usize) -> (out: (Locked<'_, T>, Slot<T>))
        requires
            key < self.capacity(),
        ensures
            out.0.key == key,
            out.0.slots == self,
    {
        let mut latch = lock_cell(&self.slots[key]);
        let mut slot = Slot::Vacant { next: usize::MAX };
        exchange(&mut latch, &mut slot);
        (Locked { latch, slots: self, key }, slot)
    }

    /// Puts `slot` back into its mutex and lets the lock go, without a
    /// change to the free list.
    fn unlock_slot(guard: Locked<'_, T>, slot: Slot<T>) {
        let mut guard = guard;
        let mut slot = slot;
        exchange(&mut guard.latch, &mut slot);
    }

    /// Moves the head of the free list from `key` on to `next`, if it still
    /// is `key`, and says whether it did.
    fn advance_head(&self, key: usize, next: usize) -> bool {
        self.next_free.compare_exchange(key, next, Ordering::AcqRel, Ordering::Acquire).is_ok()
    }

    /// Makes a guard of the locked slot of `key` if `slot`, which it held,
    /// is vacant and the head of the free list was moved past it. Else puts
    /// `slot` back and lets the lock go.
    fn settle<'a>(&'a self, key: usize, guard: Locked<'a, T>, slot: Slot<T>, moved: bool) -> (reserved:
        Option<Reserved<'a, T>>)
        requires
            key < self.capacity(),
            guard.key == key,
            guard.slots == self,
        ensures
            reserved is Some <==> slot is Vacant && moved,
            reserved matches Some(r) ==> r.pool() == self && r.key() == key,
    {
        if moved {
            if let Slot::Vacant { .. } = slot {
                return Some(Reserved(SlotRef { guard, slot }));
            }
        }
        Self::unlock_slot(guard, slot);
        None
    }

    /// Makes a guard of the locked slot of `key` if `slot`, which it held,
    /// is vacant and the head of the free list still is `key`; the head
    /// then moves on to the slot's successor. Else puts `slot` back and lets
    /// the lock go.
    fn claim<'a>(&'a self, key: usize, guard: Locked<'a, T>, slot: Slot<T>) -> (reserved: Option<
        Reserved<'a, T>,
    >)
        requires
            key < self.capacity(),
            guard.key == key,
            guard.slots == self,
        ensures
            slot is Occupied ==> reserved is None,
            reserved matches Some(r) ==> r.pool() == self && r.key() == key,
    {
        let moved = match slot.successor() {
            Some(next) => self.advance_head(key, next),
            None => false,
        };
        self.settle(key, guard, slot, moved)
    }

    /// Makes a guard of the locked slot of `key` if `slot`, which it held,
    /// holds an item. Else puts `slot` back and lets the lock go.
    fn open_slot<'a>(&'a self, key: usize, guard: Locked<'a, T>, slot: Slot<T>) -> (occupied: Option<
        Occupied<'a, T>,
    >)
        requires
            key < self.capacity(),
            guard.key == key,
            guard.slots == self,
        ensures
            occupied is Some <==> slot is Occupied,
            occupied matches Some(o) ==> o.pool() == self && o.key() == key && Slot::Occupied(
                o.value(),
            ) == slot,
    {
        match slot {
            Slot::Occupied(_) => Some(Occupied(SlotRef { guard, slot })),
            Slot::Vacant { .. } => {
                Self::unlock_slot(guard, slot);
                None
            },
        }
    }

    /// What `reserve` does with a value `head` that it has read from the
    /// head of the free list. Where that is no key, no slot is vacant and
    /// no lock is taken. Else the slot of `head` is locked and claimed, if
    /// it is vacant and the head has not moved meanwhile.
    fn attempt(&self, head: usize) -> (outcome: Attempt<'_, T>)
        ensures
            outcome is Exhausted <==> head >= self.capacity(),
            outcome matches Attempt::Claimed(r) ==> r.pool() == self && r.key() == head,
    {
        if head >= self.slots.len() {
            return Attempt::Exhausted;
        }
        let (guard, slot) = self.lock_slot(head);
        match self.claim(head, guard, slot) {
            Some(reserved) => Attempt::Claimed(reserved),
            None => Attempt::Lost,
        }
    }

    /// Claims a vacant slot, if there is one.
    ///
    /// Reads the head of the free list and, where that is a key, locks its
    /// slot. If the slot is vacant and the head has not moved, the head
    /// moves on to the slot's successor and the slot is claimed. If another
    /// thread got ahead, the lock is let go and the attempt starts over.
    /// `None` where the head is no key, which is so when no slot is vacant,
    /// or after `RESERVE_ATTEMPTS` lost races.
    pub fn reserve(&self) -> (reserved: Option<Reserved<'_, T>>)
        ensures
            reserved matches Some(r) ==> r.pool() == self && r.key() < self.capacity(),
    {
        let mut attempts: usize = RESERVE_ATTEMPTS;
        while attempts > 0
            decreases attempts,
        {
            attempts = attempts - 1;
            let head = self.next_free.load(Ordering::Acquire);
            match self.attempt(head) {
                Attempt::Exhausted => {
                    return None;
                },
                Attempt::Claimed(reserved) => {
                    return Some(reserved);
                },
                Attempt::Lost => {},
            }
        }
        None
    }

    /// Locks the slot of `key` for reading and writing its item; `None`
    /// where `key` is out of range or the slot is vacant.
    pub fn get(&self, key: usize) -> (occupied: Option<Occupied<'_, T>>)
        ensures
            key >= self.capacity() ==> occupied is None,
            occupied matches Some(o) ==> o.pool() == self && o.key() == key,
    {
        if key >= self.slots.len() {
            return None;
        }
        let (guard, slot) = self.lock_slot(key);
        self.open_slot(key, guard, slot)
    }

    /// The item under `occupied`, if there is a guard; its slot goes back
    /// onto the free list.
    fn remove(occupied: Option<Occupied<'_, T>>) -> (item: Option<T>)
        ensures
            item == match occupied {
                Some(o) => Some(o.value()),
                None => None::<T>,
            },
    {
        match occupied {
            Some(occupied) => Some(occupied.take().0),
            None => None,
        }
    }

    /// Puts `item` into the slot under `reserved`, if there is a guard, and
    /// returns the slot's key.
    fn place(reserved: Option<Reserved<'_, T>>, item: T) -> (key: Option<usize>)
        ensures
            key == match reserved {
                Some(r) => Some(r.key()),
                None => None::<usize>,
            },
    {
        match reserved {
            Some(reserved) => Some(reserved.insert(item).key()),
            None => None,
        }
    }

    /// Takes the item out of the slot of `key` and puts the slot back onto
    /// the free list; `None` where `key` is out of range or the slot is
    /// vacant.
    pub fn take(&self, key: usize) -> (item: Option<T>)
        ensures
            key >= self.capacity() ==> item is None,
    {
        Self::remove(self.get(key))
    }

    /// Claims a vacant slot and puts `item` into it; returns its key, or
    /// `None` where `reserve` gives none.
    pub fn insert(&self, item: T) -> (key: Option<usize>)
        ensures
            key matches Some(k) ==> k < self.capacity(),
    {
        Self::place(self.reserve(), item)
    }
}

} // verus!
