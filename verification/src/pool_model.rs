//! The slot pool as a value: what its slots and the head of its free list
//! hold at one instant, and which slots have a guard out.
//!
//! Each operation of `SharedSlots` and of its guards is one step here. The
//! proofs show that every step keeps the free list whole: following `next`
//! from the head visits every vacant slot without a guard exactly once and
//! ends out of range.
//!
//! A step is taken in one piece here. In `SharedSlots` it is in one piece
//! for every other thread because the slot is locked while it changes and
//! the head moves by one atomic operation; what the slots hold there lies
//! behind their locks, out of the verifier's sight, so that the steps of the
//! two are matched by how the code is written and not by a proof: both
//! build a vacant slot with `Slot::linked` and `Slot::unlinked`, and a new
//! pool from `PoolModel::init`.

use crate::shared_slots::Slot;
use vstd::prelude::*;
use vstd::set_lib::*;

verus! {

/// A pool at one instant.
pub struct PoolModel<T> {
    /// What each slot holds.
    pub slots: Seq<Slot<T>>,
    /// The head of the free list.
    pub head: usize,
    /// The keys of the slots whose guard is out.
    pub held: Set<int>,
}

impl<T> PoolModel<T> {
    /// The number of slots.
    pub open spec fn capacity(self) -> nat {
        self.slots.len()
    }

    /// Whether `key` names a slot.
    pub open spec fn is_key(self, key: int) -> bool {
        0 <= key < self.slots.len()
    }

    /// Whether the slot of `key` is vacant and has no guard out: such a slot
    /// can be claimed.
    pub open spec fn is_free(self, key: int) -> bool {
        self.is_key(key) && self.slots[key] is Vacant && !self.held.contains(key)
    }

    /// Whether the slot of `key` holds an item.
    pub open spec fn is_occupied(self, key: int) -> bool {
        self.is_key(key) && self.slots[key] is Occupied
    }

    /// Whether a `Reserved` guard is out for `key`.
    pub open spec fn is_reserved(self, key: int) -> bool {
        self.is_key(key) && self.slots[key] is Vacant && self.held.contains(key)
    }

    /// Whether `list` is the free list: it starts at the head, every slot on
    /// it is free and links to the one behind it, the last links out of
    /// range, no key is on it twice, and every free key is on it.
    pub open spec fn links(self, list: Seq<int>) -> bool {
        &&& list.no_duplicates()
        &&& forall|i: int| 0 <= i < list.len() ==> self.is_free(#[trigger] list[i])
        &&& forall|key: int| self.is_free(key) ==> #[trigger] list.contains(key)
        &&& if list.len() > 0 {
            self.head == list[0]
        } else {
            self.head >= self.slots.len()
        }
        &&& self.chained(list)
    }

    /// Whether every slot on `list` links to the one behind it there, and
    /// the last one out of range.
    pub open spec fn chained(self, list: Seq<int>) -> bool {
        forall|i: int|
            0 <= i < list.len() ==> if i + 1 < list.len() {
                (#[trigger] self.slots[list[i]])->next == list[i + 1]
            } else {
                self.slots[list[i]]->next >= self.slots.len()
            }
    }

    /// The invariant of the pool: its keys fit a `usize`, only slots have
    /// guards, and the free list is whole.
    pub open spec fn wf(self) -> bool {
        &&& self.slots.len() <= usize::MAX
        &&& forall|key: int| self.held.contains(key) ==> self.is_key(key)
        &&& exists|list: Seq<int>| self.links(list)
    }

    /// The free list of a pool that is well formed.
    pub open spec fn free_list(self) -> Seq<int> {
        choose|list: Seq<int>| self.links(list)
    }

    /// The pool that `SharedSlots::new` makes.
    pub open spec fn init(capacity: nat) -> Self {
        PoolModel {
            slots: Seq::new(capacity, |i: int| Slot::Vacant { next: (i + 1) as usize }),
            head: 0,
            held: Set::empty(),
        }
    }

    /// The key that `reserve` claims, if any: the head, where it is a key.
    pub open spec fn reserved_key(self) -> Option<int> {
        if self.head < self.slots.len() {
            Some(self.head as int)
        } else {
            None
        }
    }

    /// The pool after `reserve`: the head has moved on to the successor of
    /// the claimed slot, and that slot has a guard.
    pub open spec fn reserve(self) -> Self {
        if self.head < self.slots.len() {
            PoolModel {
                head: self.slots[self.head as int]->next,
                held: self.held.insert(self.head as int),
                ..self
            }
        } else {
            self
        }
    }

    /// The pool after `get(key)`: an occupied slot has a guard.
    pub open spec fn get(self, key: int) -> Self {
        if self.is_occupied(key) {
            PoolModel { held: self.held.insert(key), ..self }
        } else {
            self
        }
    }

    /// The pool after `Reserved::insert(item)` on the guard of `key`.
    pub open spec fn fill(self, key: int, item: T) -> Self {
        PoolModel { slots: self.slots.update(key, Slot::Occupied(item)), ..self }
    }

    /// The pool after `Occupied::take` on the guard of `key`.
    pub open spec fn empty(self, key: int) -> Self {
        PoolModel { slots: self.slots.update(key, Slot::unlinked()), ..self }
    }

    /// The pool after the guard of `key` has gone: a vacant slot is pushed
    /// onto the free list, an occupied one stays as it is.
    pub open spec fn release(self, key: int) -> Self {
        if self.slots[key] is Vacant {
            PoolModel {
                slots: self.slots.update(key, Slot::linked(self.head)),
                head: key as usize,
                held: self.held.remove(key),
            }
        } else {
            PoolModel { held: self.held.remove(key), ..self }
        }
    }

    /// The pool after `SharedSlots::insert(item)`.
    pub open spec fn insert(self, item: T) -> Self {
        match self.reserved_key() {
            Some(key) => self.reserve().fill(key, item).release(key),
            None => self,
        }
    }

    /// The pool after `SharedSlots::take(key)`.
    pub open spec fn take(self, key: int) -> Self {
        if self.is_occupied(key) {
            self.get(key).empty(key).release(key)
        } else {
            self
        }
    }

    /// The pool after `n` calls of `reserve` whose guards are all kept.
    pub open spec fn drain(self, n: nat) -> Self
        decreases n,
    {
        if n == 0 {
            self
        } else {
            self.reserve().drain((n - 1) as nat)
        }
    }

    /// A new pool is well formed: its free list runs through all keys in
    /// growing order.
    pub proof fn lemma_init(capacity: nat)
        requires
            capacity <= usize::MAX,
        ensures
            Self::init(capacity).wf(),
            Self::init(capacity).links(Seq::new(capacity, |i: int| i)),
            Self::init(capacity).capacity() == capacity,
    {
        let s = Self::init(capacity);
        let list = Seq::new(capacity, |i: int| i);
        assert forall|key: int| s.is_free(key) implies list.contains(key) by {
            assert(list[key] == key);
        }
        assert(s.links(list));
    }

    /// `reserve` keeps the pool well formed. It claims the first key of the
    /// free list, which had no guard and now has one, and claims none if
    /// and only if no key is free.
    pub proof fn lemma_reserve(self)
        requires
            self.wf(),
        ensures
            self.reserve().wf(),
            self.free_list().len() > 0 ==> self.reserve().links(self.free_list().drop_first()),
            self.reserved_key() is None <==> self.free_list().len() == 0,
            self.reserved_key() is None <==> forall|key: int| !self.is_free(key),
            self.reserved_key() is None ==> self.reserve() == self,
            self.reserved_key() matches Some(key) ==> {
                &&& key == self.free_list()[0]
                &&& self.is_free(key)
                &&& self.reserve().is_reserved(key)
                &&& self.reserve().held == self.held.insert(key)
                &&& self.reserve().slots == self.slots
            },
    {
        let list = self.free_list();
        if list.len() > 0 {
            let key = list[0];
            let after = self.reserve();
            let rest = list.drop_first();
            assert forall|k: int| after.is_free(k) implies rest.contains(k) by {
                assert(list.contains(k));
                let j = choose|j: int| 0 <= j < list.len() && list[j] == k;
                assert(rest[j - 1] == k);
            }
            assert(after.chained(rest)) by {
                assert forall|i: int| 0 <= i < rest.len() implies rest[i] == list[i + 1] by {}
            }
            assert(after.links(rest));
        } else {
            assert forall|key: int| !self.is_free(key) by {
                if self.is_free(key) {
                    assert(list.contains(key));
                }
            }
        }
    }

    /// A chain stays one in a pool that has as many slots and holds the
    /// same in those on the chain.
    proof fn lemma_chain_kept(self, after: Self, list: Seq<int>)
        requires
            self.chained(list),
            after.slots.len() == self.slots.len(),
            forall|i: int|
                0 <= i < list.len() ==> after.slots[#[trigger] list[i]] == self.slots[list[i]],
        ensures
            after.chained(list),
    {
        assert forall|i: int| 0 <= i < list.len() implies if i + 1 < list.len() {
            (#[trigger] after.slots[list[i]])->next == list[i + 1]
        } else {
            after.slots[list[i]]->next >= after.slots.len()
        } by {
            assert(after.slots[list[i]] == self.slots[list[i]]);
        }
    }

    /// `get` keeps the pool well formed and its free list as it is.
    pub proof fn lemma_get(self, key: int)
        requires
            self.wf(),
        ensures
            self.get(key).wf(),
            self.get(key).links(self.free_list()),
    {
        let list = self.free_list();
        let after = self.get(key);
        assert(after.links(list));
    }

    /// Putting an item into a reserved slot keeps the pool well formed and
    /// its free list as it is.
    pub proof fn lemma_fill(self, key: int, item: T)
        requires
            self.wf(),
            self.is_reserved(key),
        ensures
            self.fill(key, item).wf(),
            self.fill(key, item).links(self.free_list()),
    {
        let list = self.free_list();
        let after = self.fill(key, item);
        self.lemma_chain_kept(after, list);
        assert(after.links(list));
    }

    /// Taking the item out of a slot under its guard keeps the pool well
    /// formed and its free list as it is.
    pub proof fn lemma_empty(self, key: int)
        requires
            self.wf(),
            self.is_occupied(key),
            self.held.contains(key),
        ensures
            self.empty(key).wf(),
            self.empty(key).links(self.free_list()),
            self.empty(key).is_reserved(key),
    {
        let list = self.free_list();
        let after = self.empty(key);
        self.lemma_chain_kept(after, list);
        assert(after.links(list));
    }

    /// A guard that goes keeps the pool well formed. A vacant slot comes to
    /// the front of the free list, so that the next `reserve` claims it; an
    /// occupied slot leaves the free list as it is.
    pub proof fn lemma_release(self, key: int)
        requires
            self.wf(),
            self.held.contains(key),
        ensures
            self.release(key).wf(),
            self.slots[key] is Vacant ==> self.release(key).links(seq![key] + self.free_list())
                && self.release(key).reserved_key() == Some(key),
            self.slots[key] is Occupied ==> self.release(key).links(self.free_list())
                && self.release(key).slots == self.slots,
            self.release(key).held == self.held.remove(key),
    {
        let list = self.free_list();
        let after = self.release(key);
        if self.slots[key] is Vacant {
            let longer = seq![key] + list;
            assert forall|k: int| after.is_free(k) implies longer.contains(k) by {
                if k == key {
                    assert(longer[0] == k);
                } else {
                    assert(list.contains(k));
                    let j = choose|j: int| 0 <= j < list.len() && list[j] == k;
                    assert(longer[j + 1] == k);
                }
            }
            assert(after.chained(longer)) by {
                assert forall|i: int| 0 < i < longer.len() implies longer[i] == list[i - 1]
                    && after.slots[list[i - 1]] == self.slots[list[i - 1]] by {
                    assert(self.is_free(list[i - 1]));
                }
            }
            assert(after.links(longer));
        } else {
            assert(after.links(list));
        }
    }

    /// Two free lists of one pool agree as far as the first of them goes.
    proof fn lemma_links_agree(self, a: Seq<int>, b: Seq<int>, i: int)
        requires
            self.links(a),
            self.links(b),
            0 <= i < a.len(),
        ensures
            i < b.len(),
            a[i] == b[i],
        decreases i,
    {
        if i > 0 {
            self.lemma_links_agree(a, b, i - 1);
        }
    }

    /// A pool has one free list only.
    pub proof fn lemma_free_list_unique(self, list: Seq<int>)
        requires
            self.links(list),
        ensures
            self.free_list() == list,
    {
        let other = self.free_list();
        if list.len() > 0 {
            self.lemma_links_agree(list, other, list.len() - 1);
        }
        assert forall|i: int| 0 <= i < list.len() implies list[i] == other[i] by {
            self.lemma_links_agree(list, other, i);
        }
    }

    /// The keys of the slots that hold an item and have no guard out.
    pub open spec fn stored(self) -> Set<int> {
        Set::new(|key: int| self.is_occupied(key) && !self.held.contains(key))
    }

    /// Every slot is on the free list, or has a guard out, or holds an item
    /// at rest, and only one of the three: no slot is lost and none counts
    /// twice.
    pub proof fn lemma_census(self)
        requires
            self.wf(),
        ensures
            self.held.finite(),
            self.stored().finite(),
            self.free_list().len() + self.held.len() + self.stored().len() == self.capacity(),
    {
        let list = self.free_list();
        let free = list.to_set();
        let all = set_int_range(0, self.slots.len() as int);
        lemma_int_range(0, self.slots.len() as int);
        list.unique_seq_to_set();
        vstd::seq_lib::seq_to_set_is_finite(list);
        assert(self.held.subset_of(all));
        assert(self.stored().subset_of(all));
        assert(free.disjoint(self.held)) by {
            assert forall|key: int| free.contains(key) implies !self.held.contains(key) by {
                let i = choose|i: int| 0 <= i < list.len() && list[i] == key;
                assert(self.is_free(list[i]));
            }
        }
        assert((free + self.held).disjoint(self.stored())) by {
            assert forall|key: int| (free + self.held).contains(key) implies !self.stored().contains(
                key,
            ) by {
                if free.contains(key) {
                    let i = choose|i: int| 0 <= i < list.len() && list[i] == key;
                    assert(self.is_free(list[i]));
                }
            }
        }
        lemma_set_disjoint_lens(free, self.held);
        lemma_set_disjoint_lens(free + self.held, self.stored());
        assert(free + self.held + self.stored() =~= all) by {
            assert forall|key: int| free.contains(key) implies all.contains(key) by {
                let i = choose|i: int| 0 <= i < list.len() && list[i] == key;
                assert(self.is_free(list[i]));
            }
        }
    }

    /// No more guards can be out than the pool has slots, and where every
    /// slot has a guard out, `reserve` claims none.
    pub proof fn lemma_capacity_bound(self)
        requires
            self.wf(),
        ensures
            self.held.finite(),
            self.held.len() <= self.capacity(),
            self.held.len() == self.capacity() ==> self.reserved_key() is None,
    {
        self.lemma_census();
    }

    /// As long as the free list lasts, each `reserve` in a row claims the
    /// next key on it; the pool stays well formed and the slots keep what
    /// they hold.
    pub proof fn lemma_drain(self, n: nat)
        requires
            self.wf(),
            n <= self.free_list().len(),
        ensures
            self.drain(n).wf(),
            self.drain(n).free_list() == self.free_list().skip(n as int),
            self.drain(n).slots == self.slots,
            n < self.free_list().len() ==> self.drain(n).reserved_key() == Some(
                self.free_list()[n as int],
            ),
            n == self.free_list().len() ==> self.drain(n).reserved_key() is None,
        decreases n,
    {
        let list = self.free_list();
        if n > 0 {
            self.lemma_reserve();
            let next = self.reserve();
            next.lemma_free_list_unique(list.drop_first());
            next.lemma_drain((n - 1) as nat);
        }
    }

    /// Once the free list is used up, every further `reserve` claims none
    /// and changes nothing.
    pub proof fn lemma_drain_exhausted(self, n: nat)
        requires
            self.wf(),
            n >= self.free_list().len(),
        ensures
            self.drain(n) == self.drain(self.free_list().len()),
            self.drain(n).reserved_key() is None,
        decreases n,
    {
        let list = self.free_list();
        self.lemma_reserve();
        if n > 0 {
            let next = self.reserve();
            if list.len() > 0 {
                next.lemma_free_list_unique(list.drop_first());
                next.lemma_drain_exhausted((n - 1) as nat);
            } else {
                self.lemma_drain_exhausted((n - 1) as nat);
            }
        }
    }

    /// Guards that are kept have keys of their own: of the calls of
    /// `reserve` in a row, no two that claim a key claim the same one.
    pub proof fn lemma_reserved_keys_distinct(self, i: nat, j: nat)
        requires
            self.wf(),
            i < j,
            self.drain(i).reserved_key() is Some,
            self.drain(j).reserved_key() is Some,
        ensures
            self.drain(i).reserved_key() != self.drain(j).reserved_key(),
    {
        let list = self.free_list();
        if j >= list.len() {
            self.lemma_drain_exhausted(j);
        } else {
            self.lemma_drain(i);
            self.lemma_drain(j);
        }
    }

    /// With no guard out, `reserve` in a row claims a key exactly as many
    /// times as there are slots without an item, and then none: all of the
    /// pool's slots, where none holds an item.
    pub proof fn lemma_no_lost_slots(self)
        requires
            self.wf(),
            self.held == Set::<int>::empty(),
        ensures
            self.stored().finite(),
            self.stored().len() <= self.capacity(),
            forall|i: nat|
                i < self.capacity() - self.stored().len() ==> (#[trigger] self.drain(
                    i,
                )).reserved_key() is Some,
            self.drain((self.capacity() - self.stored().len()) as nat).reserved_key() is None,
            (forall|key: int| !self.is_occupied(key)) ==> self.stored().len() == 0,
    {
        self.lemma_census();
        let vacant = (self.capacity() - self.stored().len()) as nat;
        assert forall|i: nat| i < vacant implies (#[trigger] self.drain(i)).reserved_key() is Some by {
            self.lemma_drain(i);
        }
        self.lemma_drain(vacant);
        if forall|key: int| !self.is_occupied(key) {
            assert(self.stored() =~= Set::<int>::empty());
        }
    }

    /// An item that was inserted is found under its key by `get`, and
    /// `take` hands it out and leaves the key to the next `reserve`.
    pub proof fn lemma_round_trip(self, item: T)
        requires
            self.wf(),
            self.reserved_key() is Some,
        ensures
            ({
                let key = self.reserved_key()->Some_0;
                let after = self.insert(item);
                &&& after.wf()
                &&& after.held == self.held
                &&& after.slots[key] == Slot::Occupied(item)
                &&& after.get(key).held.contains(key)
                &&& after.get(key).slots[key] == Slot::Occupied(item)
                &&& after.take(key).wf()
                &&& after.take(key).held == self.held
                &&& after.take(key).reserved_key() == Some(key)
            }),
    {
        let key = self.reserved_key()->Some_0;
        self.lemma_reserve();
        let claimed = self.reserve();
        claimed.lemma_fill(key, item);
        let filled = claimed.fill(key, item);
        filled.lemma_release(key);
        let after = filled.release(key);
        let got = after.get(key);
        got.lemma_empty(key);
        let emptied = got.empty(key);
        emptied.lemma_release(key);
    }
}

} // verus!
