//! Keyed tables: a hash index over a list of slots.
use crate::index::{ConcurrentIndex, PersistentIndex, SlotIndex};
use crate::share::{share, take};
use std::sync::Arc;
use vstd::prelude::*;
use vstd::slice::slice_to_vec;

verus! {

/// One entry of a table.
pub struct Slot<V> {
    key: Vec<u8>,
    value: V,
}

/// A list of slots.
pub trait SlotList: Sized {
    /// What a slot holds.
    type Value;

    /// What is left of a slot whose value was taken out of the list.
    type Taken;

    /// The key and the value of each slot.
    spec fn listed(&self) -> Seq<(Seq<u8>, Self::Value)>;

    /// The value that was taken out.
    spec fn held(taken: Self::Taken) -> Self::Value;

    /// A list without slots.
    fn none() -> (r: Self)
        ensures
            r.listed() == Seq::<(Seq<u8>, Self::Value)>::empty(),
    ;

    /// How many slots there are.
    fn count(&self) -> (r: usize)
        ensures
            r == self.listed().len(),
    ;

    /// The key of slot `i`.
    fn key_of(&self, i: usize) -> (r: &[u8])
        requires
            i < self.listed().len(),
        ensures
            r@ == self.listed()[i as int].0,
    ;

    /// The value of slot `i`.
    fn value_of(&self, i: usize) -> (r: &Self::Value)
        requires
            i < self.listed().len(),
        ensures
            *r == self.listed()[i as int].1,
    ;

    /// Add a slot at the end.
    fn add(&mut self, key: Vec<u8>, value: Self::Value)
        ensures
            final(self).listed() == old(self).listed().push((key@, value)),
    ;

    /// Give slot `i` another value.
    fn exchange(&mut self, i: usize, value: Self::Value) -> (r: Self::Taken)
        requires
            i < old(self).listed().len(),
        ensures
            Self::held(r) == old(self).listed()[i as int].1,
            final(self).listed() == old(self).listed().update(
                i as int,
                (old(self).listed()[i as int].0, value),
            ),
    ;

    /// Take slot `i` out and move the last slot into its place.
    fn swap_out(&mut self, i: usize) -> (r: Self::Taken)
        requires
            i < old(self).listed().len(),
        ensures
            Self::held(r) == old(self).listed()[i as int].1,
            final(self).listed() == old(self).listed().update(
                i as int,
                old(self).listed().last(),
            ).drop_last(),
    ;
}

impl<V> SlotList for Vec<Slot<V>> {
    type Value = V;

    type Taken = V;

    closed spec fn listed(&self) -> Seq<(Seq<u8>, V)> {
        self@.map_values(|s: Slot<V>| (s.key@, s.value))
    }

    open spec fn held(taken: V) -> V {
        taken
    }

    fn none() -> (r: Self) {
        let r: Vec<Slot<V>> = Vec::new();
        assert(r.listed() =~= Seq::<(Seq<u8>, V)>::empty());
        r
    }

    fn count(&self) -> (r: usize) {
        self.len()
    }

    fn key_of(&self, i: usize) -> (r: &[u8]) {
        self[i].key.as_slice()
    }

    fn value_of(&self, i: usize) -> (r: &V) {
        &self[i].value
    }

    fn add(&mut self, key: Vec<u8>, value: V) {
        self.push(Slot { key, value });
        assert(self.listed() =~= old(self).listed().push((key@, value)));
    }

    fn exchange(&mut self, i: usize, value: V) -> (r: V) {
        let mut held = value;
        std::mem::swap(&mut self[i].value, &mut held);
        assert(self.listed() =~= old(self).listed().update(
            i as int,
            (old(self).listed()[i as int].0, value),
        ));
        held
    }

    fn swap_out(&mut self, i: usize) -> (r: V) {
        let taken = self.swap_remove(i);
        assert(self.listed() =~= old(self).listed().update(
            i as int,
            old(self).listed().last(),
        ).drop_last());
        taken.value
    }
}

/// A list of slots whose copies share what they hold. A copy is made at once; whoever changes the
/// list while there is a copy goes on with a list of its own.
pub struct SharedSlots<V> {
    slots: Arc<Vec<Arc<Slot<V>>>>,
}

impl<V> SharedSlots<V> {
    fn share_all(slots: &Vec<Arc<Slot<V>>>) -> (r: Vec<Arc<Slot<V>>>)
        ensures
            r@ == slots@,
    {
        let mut r: Vec<Arc<Slot<V>>> = Vec::new();
        let mut i: usize = 0;
        while i < slots.len()
            invariant
                i <= slots@.len(),
                r@ == slots@.take(i as int),
            decreases slots@.len() - i,
        {
            r.push(share(&slots[i]));
            assert(r@ =~= slots@.take(i + 1));
            i = i + 1;
        }
        assert(r@ =~= slots@);
        r
    }

    fn take_slots(&mut self) -> (r: Vec<Arc<Slot<V>>>)
        ensures
            r@ == old(self).slots@,
    {
        let mut slots: Arc<Vec<Arc<Slot<V>>>> = Arc::new(Vec::new());
        std::mem::swap(&mut self.slots, &mut slots);
        match take(slots) {
            Ok(own) => own,
            Err(shared) => Self::share_all(&shared),
        }
    }

    fn copy(&self) -> (r: Self)
        ensures
            r.listed() == self.listed(),
    {
        SharedSlots { slots: share(&self.slots) }
    }
}

impl<V> SlotList for SharedSlots<V> {
    type Value = V;

    type Taken = Arc<Slot<V>>;

    closed spec fn listed(&self) -> Seq<(Seq<u8>, V)> {
        self.slots@.map_values(|s: Arc<Slot<V>>| (s.key@, s.value))
    }

    closed spec fn held(taken: Arc<Slot<V>>) -> V {
        taken.value
    }

    fn none() -> (r: Self) {
        let r = SharedSlots { slots: Arc::new(Vec::new()) };
        assert(r.listed() =~= Seq::<(Seq<u8>, V)>::empty());
        r
    }

    fn count(&self) -> (r: usize) {
        self.slots.len()
    }

    fn key_of(&self, i: usize) -> (r: &[u8]) {
        self.slots[i].key.as_slice()
    }

    fn value_of(&self, i: usize) -> (r: &V) {
        &self.slots[i].value
    }

    fn add(&mut self, key: Vec<u8>, value: V) {
        let mut slots = self.take_slots();
        slots.push(Arc::new(Slot { key, value }));
        self.slots = Arc::new(slots);
        assert(self.listed() =~= old(self).listed().push((key@, value)));
    }

    fn exchange(&mut self, i: usize, value: V) -> (r: Arc<Slot<V>>) {
        let mut slots = self.take_slots();
        let key: Vec<u8> = slice_to_vec(slots[i].key.as_slice());
        let mut slot: Arc<Slot<V>> = Arc::new(Slot { key, value });
        std::mem::swap(&mut slots[i], &mut slot);
        self.slots = Arc::new(slots);
        assert(self.listed() =~= old(self).listed().update(
            i as int,
            (old(self).listed()[i as int].0, value),
        ));
        slot
    }

    fn swap_out(&mut self, i: usize) -> (r: Arc<Slot<V>>) {
        let mut slots = self.take_slots();
        let taken = slots.swap_remove(i);
        self.slots = Arc::new(slots);
        assert(self.listed() =~= old(self).listed().update(
            i as int,
            old(self).listed().last(),
        ).drop_last());
        taken
    }
}

/// A map from byte strings to values, listed in slot order.
pub struct Table<I, S> {
    index: I,
    slots: S,
}

/// A table that is cheap to copy; cells and inputs live in these.
pub type CellTable<V> = Table<PersistentIndex, SharedSlots<V>>;

/// A table behind a sharded index; graphs and registries live in these.
pub type SharedTable<V> = Table<ConcurrentIndex, Vec<Slot<V>>>;

impl<I: SlotIndex, S: SlotList> View for Table<I, S> {
    type V = Map<Seq<u8>, S::Value>;

    closed spec fn view(&self) -> Map<Seq<u8>, S::Value> {
        Map::new(
            |k: Seq<u8>| self.index.filed().contains_key(k),
            |k: Seq<u8>| self.slots.listed()[self.index.filed()[k] as int].1,
        )
    }
}

impl<I: SlotIndex, S: SlotList> Table<I, S> {
    /// The index and the slots agree: each slot is filed under its own key, and
    /// nothing else is filed.
    pub closed spec fn wf(&self) -> bool {
        &&& forall|i: int|
            0 <= i < self.slots.listed().len() ==> {
                &&& self.index.filed().contains_key(#[trigger] self.slots.listed()[i].0)
                &&& self.index.filed()[self.slots.listed()[i].0] == i
            }
        &&& forall|k: Seq<u8>| #[trigger]
            self.index.filed().contains_key(k) ==> {
                &&& 0 <= self.index.filed()[k] < self.slots.listed().len()
                &&& self.slots.listed()[self.index.filed()[k] as int].0 == k
            }
    }

    /// The keys in slot order.
    pub closed spec fn order(&self) -> Seq<Seq<u8>> {
        Seq::new(self.slots.listed().len(), |i: int| self.slots.listed()[i].0)
    }

    /// The slot order lists every key of the table exactly once.
    pub proof fn order_lists_domain(&self)
        requires
            self.wf(),
        ensures
            self.order().no_duplicates(),
            forall|k: Seq<u8>| #[trigger] self.order().contains(k) <==> self@.contains_key(k),
            self.order().to_set() == self@.dom(),
            self@.dom().finite(),
            self@.dom().len() == self.order().len(),
    {
        let order = self.order();
        assert forall|i: int, j: int| 0 <= i < j < order.len() implies order[i] != order[j] by {
            assert(self.index.filed()[self.slots.listed()[i].0] == i);
            assert(self.index.filed()[self.slots.listed()[j].0] == j);
        }
        assert forall|k: Seq<u8>| #[trigger] order.contains(k) implies self@.contains_key(k) by {
            let i = choose|i: int| 0 <= i < order.len() && order[i] == k;
            assert(self.index.filed().contains_key(self.slots.listed()[i].0));
        }
        assert forall|k: Seq<u8>| #[trigger] self@.contains_key(k) implies order.contains(k) by {
            let i = self.index.filed()[k] as int;
            assert(order[i] == k);
        }
        assert(order.to_set() =~= self@.dom());
        order.unique_seq_to_set();
    }

    /// A table with nothing in it.
    pub fn new() -> (r: Self)
        ensures
            r.wf(),
            r@ == Map::<Seq<u8>, S::Value>::empty(),
            r.order() == Seq::<Seq<u8>>::empty(),
    {
        let r = Table { index: I::empty(), slots: S::none() };
        assert(r@ =~= Map::<Seq<u8>, S::Value>::empty());
        r
    }

    /// How many keys the table holds.
    pub fn len(&self) -> (r: usize)
        requires
            self.wf(),
        ensures
            r == self.order().len(),
            r == self@.dom().len(),
            self@.dom().finite(),
    {
        proof {
            self.order_lists_domain();
        }
        self.slots.count()
    }

    /// The value filed under `key`.
    pub fn get(&self, key: &[u8]) -> (r: Option<&S::Value>)
        requires
            self.wf(),
        ensures
            r == (if self@.contains_key(key@) {
                Some(&self@[key@])
            } else {
                None
            }),
    {
        match self.index.lookup(key) {
            Some(slot) => Some(self.slots.value_of(slot)),
            None => None,
        }
    }

    /// Whether anything is filed under `key`.
    pub fn contains(&self, key: &[u8]) -> (r: bool)
        requires
            self.wf(),
        ensures
            r == self@.contains_key(key@),
    {
        self.index.lookup(key).is_some()
    }

    /// The key in slot `i`.
    pub fn key_at(&self, i: usize) -> (r: &[u8])
        requires
            self.wf(),
            i < self.order().len(),
        ensures
            r@ == self.order()[i as int],
    {
        self.slots.key_of(i)
    }

    /// The value in slot `i`.
    pub fn value_at(&self, i: usize) -> (r: &S::Value)
        requires
            self.wf(),
            i < self.order().len(),
        ensures
            self@.contains_key(self.order()[i as int]),
            *r == self@[self.order()[i as int]],
    {
        assert(self.index.filed().contains_key(self.slots.listed()[i as int].0));
        self.slots.value_of(i)
    }

    fn file(&mut self, key: &[u8], value: S::Value) -> (r: Option<S::Taken>)
        requires
            old(self).wf(),
        ensures
            final(self).wf(),
            final(self)@ == old(self)@.insert(key@, value),
            match r {
                Some(taken) => old(self)@.contains_key(key@) && S::held(taken) == old(self)@[key@],
                None => !old(self)@.contains_key(key@),
            },
            final(self).order() == (if old(self)@.contains_key(key@) {
                old(self).order()
            } else {
                old(self).order().push(key@)
            }),
    {
        let ghost before = *self;
        match self.index.lookup(key) {
            Some(slot) => {
                let taken = self.slots.exchange(slot, value);
                proof {
                    assert forall|i: int| 0 <= i < self.slots.listed().len() implies #[trigger] self.slots.listed()[i].0
                        == before.slots.listed()[i].0 by {}
                    assert(self@ =~= before@.insert(key@, value));
                    assert(self.order() =~= before.order());
                }
                Some(taken)
            },
            None => {
                let slot: usize = self.slots.count();
                let filed: Vec<u8> = slice_to_vec(key);
                let kept: Vec<u8> = slice_to_vec(key);
                self.index.file(filed, slot);
                self.slots.add(kept, value);
                proof {
                    assert forall|i: int| 0 <= i < self.slots.listed().len() implies {
                        &&& self.index.filed().contains_key(#[trigger] self.slots.listed()[i].0)
                        &&& self.index.filed()[self.slots.listed()[i].0] == i
                    } by {
                        if i < slot {
                            assert(self.slots.listed()[i] == before.slots.listed()[i]);
                            assert(before.index.filed().contains_key(before.slots.listed()[i].0));
                        }
                    }
                    assert(self@ =~= before@.insert(key@, value));
                    assert(self.order() =~= before.order().push(key@));
                }
                None
            },
        }
    }

    fn unfile(&mut self, key: &[u8]) -> (r: Option<S::Taken>)
        requires
            old(self).wf(),
        ensures
            final(self).wf(),
            final(self)@ == old(self)@.remove(key@),
            match r {
                Some(taken) => old(self)@.contains_key(key@) && S::held(taken) == old(self)@[key@],
                None => !old(self)@.contains_key(key@),
            },
    {
        let ghost before = *self;
        match self.index.lookup(key) {
            Some(slot) => {
                let last: usize = self.slots.count() - 1;
                self.index.unfile(key);
                let taken = self.slots.swap_out(slot);
                if slot != last {
                    let moved: Vec<u8> = slice_to_vec(self.slots.key_of(slot));
                    self.index.file(moved, slot);
                }
                proof {
                    assert(before.index.filed()[before.slots.listed()[last as int].0] == last);
                    assert forall|i: int| 0 <= i < self.slots.listed().len() implies {
                        &&& self.index.filed().contains_key(#[trigger] self.slots.listed()[i].0)
                        &&& self.index.filed()[self.slots.listed()[i].0] == i
                    } by {
                        let j = if i == slot { last as int } else { i };
                        assert(self.slots.listed()[i] == before.slots.listed()[j]);
                        assert(before.index.filed()[before.slots.listed()[j].0] == j);
                    }
                    assert forall|k: Seq<u8>| #[trigger] self.index.filed().contains_key(k) implies {
                        &&& 0 <= self.index.filed()[k] < self.slots.listed().len()
                        &&& self.slots.listed()[self.index.filed()[k] as int].0 == k
                    } by {
                        assert(before.index.filed().contains_key(k));
                        let j = before.index.filed()[k] as int;
                        assert(before.slots.listed()[j].0 == k);
                    }
                    assert forall|k: Seq<u8>| #[trigger] before@.remove(key@).contains_key(k) implies self@[k]
                        == before@[k] by {
                        assert(before.index.filed().contains_key(k));
                    }
                    assert(self@ =~= before@.remove(key@));
                }
                Some(taken)
            },
            None => {
                assert(self@ =~= before@.remove(key@));
                None
            },
        }
    }

    /// Take out everything.
    pub fn clear(&mut self)
        ensures
            final(self).wf(),
            final(self)@ == Map::<Seq<u8>, S::Value>::empty(),
            final(self).order() == Seq::<Seq<u8>>::empty(),
    {
        *self = Table::new();
    }
}

impl<V> Table<ConcurrentIndex, Vec<Slot<V>>> {
    /// File `value` under `key` and hand back what was there before.
    pub fn insert(&mut self, key: &[u8], value: V) -> (r: Option<V>)
        requires
            old(self).wf(),
        ensures
            final(self).wf(),
            final(self)@ == old(self)@.insert(key@, value),
            r == (if old(self)@.contains_key(key@) {
                Some(old(self)@[key@])
            } else {
                None
            }),
            final(self).order() == (if old(self)@.contains_key(key@) {
                old(self).order()
            } else {
                old(self).order().push(key@)
            }),
    {
        self.file(key, value)
    }

    /// Take out what is filed under `key`.
    pub fn remove(&mut self, key: &[u8]) -> (r: Option<V>)
        requires
            old(self).wf(),
        ensures
            final(self).wf(),
            final(self)@ == old(self)@.remove(key@),
            r == (if old(self)@.contains_key(key@) {
                Some(old(self)@[key@])
            } else {
                None
            }),
    {
        self.unfile(key)
    }
}

impl<V> Table<PersistentIndex, SharedSlots<V>> {
    /// File `value` under `key`, in place of what was there before.
    pub fn insert(&mut self, key: &[u8], value: V)
        requires
            old(self).wf(),
        ensures
            final(self).wf(),
            final(self)@ == old(self)@.insert(key@, value),
            final(self).order() == (if old(self)@.contains_key(key@) {
                old(self).order()
            } else {
                old(self).order().push(key@)
            }),
    {
        self.file(key, value);
    }

    /// Drop what is filed under `key`.
    pub fn remove(&mut self, key: &[u8])
        requires
            old(self).wf(),
        ensures
            final(self).wf(),
            final(self)@ == old(self)@.remove(key@),
    {
        self.unfile(key);
    }

    /// A second table with the same contents; both the index and the slots are shared, not copied.
    pub fn snapshot(&self) -> (r: Self)
        requires
            self.wf(),
        ensures
            r.wf(),
            r@ == self@,
            r.order() == self.order(),
    {
        let r = Table { index: self.index.clone(), slots: self.slots.copy() };
        assert(r@ =~= self@);
        assert(r.order() =~= self.order());
        r
    }
}

} // verus!
