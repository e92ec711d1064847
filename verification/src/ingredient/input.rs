//! Key-value inputs.
use crate::error::{PicanteError, PicanteResult};
#[allow(unused_imports)]
use crate::frame::FrameView;
use crate::frame::{has_active_frame, record_dep, FrameStack};
use crate::key::{Dep, DynKey, Key, QueryKindId};
#[allow(unused_imports)]
use crate::key::Node;
use crate::revision::Revision;
use crate::runtime::{Runtime, RuntimeEvent};
#[allow(unused_imports)]
use crate::runtime::RuntimeView;
use crate::share::share;
use crate::table::CellTable;
use std::sync::Arc;
use vstd::prelude::*;

verus! {

/// Entry in an input ingredient, containing the value and its change revision.
pub struct InputEntry<V> {
    /// The value, or `None` if removed.
    pub value: Option<V>,
    /// The revision at which this entry was last changed.
    pub changed_at: Revision,
}

impl<V> Clone for InputEntry<Arc<V>> {
    fn clone(&self) -> (r: Self)
        ensures
            r == *self,
    {
        let value = match &self.value {
            Some(value) => Some(share(value)),
            None => None,
        };
        InputEntry { value, changed_at: self.changed_at }
    }
}

/// What an input ingredient holds, by key.
pub type Entries<V> = Map<Seq<u8>, InputEntry<Arc<V>>>;

/// The value under `key`, if there is one that has not been removed.
pub open spec fn value_at<V>(entries: Entries<V>, key: Seq<u8>) -> Option<Arc<V>> {
    if entries.contains_key(key) {
        entries[key].value
    } else {
        None
    }
}

/// A key-value input ingredient.
pub struct InputIngredient<V> {
    kind: QueryKindId,
    kind_name: &'static str,
    entries: CellTable<InputEntry<Arc<V>>>,
}

/// A frozen copy of an input ingredient's entries.
pub struct InputSnapshot<V> {
    entries: CellTable<InputEntry<Arc<V>>>,
}

impl<V> InputSnapshot<V> {
    /// What the snapshot holds.
    pub closed spec fn held(&self) -> Entries<V> {
        self.entries@
    }

    /// The snapshot is sound.
    pub closed spec fn wf(&self) -> bool {
        self.entries.wf()
    }

    /// How many entries there are.
    pub fn len(&self) -> (r: usize)
        requires
            self.wf(),
        ensures
            r == self.held().dom().len(),
    {
        self.entries.len()
    }

    /// The entry under `key`.
    pub fn get(&self, key: &Key) -> (r: Option<InputEntry<Arc<V>>>)
        requires
            self.wf(),
        ensures
            r == (if self.held().contains_key(key@) {
                Some(self.held()[key@])
            } else {
                None
            }),
    {
        match self.entries.get(key.bytes()) {
            Some(entry) => Some(entry.clone()),
            None => None,
        }
    }
}

/// Whether an input was read as it must be, and recorded as a dependency of the query that runs.
pub open spec fn was_read<V>(
    entries: Entries<V>,
    kind: QueryKindId,
    stack: Seq<FrameView>,
    stack_after: Seq<FrameView>,
    key: PicanteResult<Key>,
    r: PicanteResult<Option<Arc<V>>>,
) -> bool {
    match key {
        Err(error) => r == Err::<Option<Arc<V>>, Arc<PicanteError>>(error) && stack_after == stack,
        Ok(key) => {
            &&& r == Ok::<Option<Arc<V>>, Arc<PicanteError>>(value_at(entries, key@))
            &&& stack_after == crate::frame::with_dep(stack, Dep { kind, key })
        },
    }
}

/// The runtime once the input `(kind, key)` has been set at the next revision: the revision is
/// bumped, and the change is announced, with an invalidation for each query that depends on
/// the input.
pub open spec fn announced_set(
    before: Runtime,
    after: Runtime,
    kind: QueryKindId,
    key: Key,
    rev: Revision,
) -> bool {
    &&& rev.0 == before.revision().0 + 1
    &&& after.revision() == rev
    &&& after.ident() == before.ident_once_changed()
    &&& after.apart() is None
    &&& after.deps() == before.deps()
    &&& exists|order: Seq<DynKey>|
        {
            &&& #[trigger] before.deps().is_dependents_order((kind.0, key@), order)
            &&& after.events() == before.events().push(
                RuntimeEvent::RevisionBumped { revision: rev },
            ).push(crate::runtime::input_set_event(rev, kind, key))
                + crate::runtime::invalidation_events(rev, kind, key, order)
        }
}

/// The runtime once the input `(kind, key)` has been removed at the next revision.
pub open spec fn announced_removal(
    before: Runtime,
    after: Runtime,
    kind: QueryKindId,
    key: Key,
    rev: Revision,
) -> bool {
    &&& rev.0 == before.revision().0 + 1
    &&& after.revision() == rev
    &&& after.ident() == before.ident_once_changed()
    &&& after.apart() is None
    &&& after.deps() == before.deps()
    &&& exists|order: Seq<DynKey>|
        {
            &&& #[trigger] before.deps().is_dependents_order((kind.0, key@), order)
            &&& after.events() == before.events().push(
                RuntimeEvent::RevisionBumped { revision: rev },
            ).push(crate::runtime::input_removed_event(rev, kind, key))
                + crate::runtime::invalidation_events(rev, kind, key, order)
        }
}

impl<V> InputIngredient<V> {
    /// The kind of the input.
    pub closed spec fn kind_id(&self) -> QueryKindId {
        self.kind
    }

    /// The debug name of the input.
    pub closed spec fn name(&self) -> Seq<char> {
        self.kind_name@
    }

    /// What the ingredient holds.
    pub closed spec fn held(&self) -> Entries<V> {
        self.entries@
    }

    /// The keys in the order in which the table lists them.
    pub closed spec fn order(&self) -> Seq<Seq<u8>> {
        self.entries.order()
    }

    /// The ingredient is sound.
    pub closed spec fn wf(&self) -> bool {
        self.entries.wf()
    }

    /// Whether the ingredients differ in nothing but their entries.
    pub open spec fn same_but_entries(&self, other: &Self) -> bool {
        self.kind_id() == other.kind_id() && self.name() == other.name()
    }

    /// The listing order names every key exactly once.
    pub proof fn order_lists_keys(&self)
        requires
            self.wf(),
        ensures
            self.order().no_duplicates(),
            self.order().to_set() == self.held().dom(),
            self.held().dom().finite(),
    {
        self.entries.order_lists_domain();
    }

    /// Create an empty input ingredient.
    pub fn new(kind: QueryKindId, kind_name: &'static str) -> (r: Self)
        ensures
            r.wf(),
            r.kind_id() == kind,
            r.name() == kind_name@,
            r.held() == Map::<Seq<u8>, InputEntry<Arc<V>>>::empty(),
    {
        InputIngredient { kind, kind_name, entries: CellTable::new() }
    }

    /// The stable kind id.
    pub fn kind(&self) -> (r: QueryKindId)
        ensures
            r == self.kind_id(),
    {
        self.kind
    }

    /// Debug name for this ingredient.
    pub fn kind_name(&self) -> (r: &'static str)
        ensures
            r@ == self.name(),
    {
        self.kind_name
    }

    /// Whether setting `value` under `key` changes nothing: there is a value under the key, and
    /// `same` may judge it equal to the new one.
    pub open spec fn may_be_same<F: Fn(&V, &V) -> bool>(
        entries: Entries<V>,
        key: Seq<u8>,
        value: V,
        same: F,
        verdict: bool,
    ) -> bool {
        value_at(entries, key) matches Some(existing) && same.ensures(
            (&*existing, &value),
            verdict,
        )
    }

    /// What `set` does. Where there is a value that `same` judges equal to the new one, nothing
    /// changes; otherwise the revision is bumped and the new value is filed at that revision.
    pub open spec fn was_set<F: Fn(&V, &V) -> bool>(
        before: Entries<V>,
        after: Entries<V>,
        runtime_before: Runtime,
        runtime_after: Runtime,
        kind: QueryKindId,
        key: PicanteResult<Key>,
        value: V,
        same: F,
        r: Revision,
    ) -> bool {
        match key {
            Err(_) => {
                &&& r == Revision(0)
                &&& after == before
                &&& runtime_after == runtime_before
            },
            Ok(key) => {
                ||| {
                    &&& Self::may_be_same(before, key@, value, same, true)
                    &&& r == before[key@].changed_at
                    &&& after == before
                    &&& runtime_after == runtime_before
                }
                ||| {
                    &&& value_at(before, key@) is Some ==> Self::may_be_same(
                        before,
                        key@,
                        value,
                        same,
                        false,
                    )
                    &&& announced_set(runtime_before, runtime_after, kind, key, r)
                    &&& after == before.insert(
                        key@,
                        InputEntry { value: Some(Arc::new(value)), changed_at: r },
                    )
                }
            },
        }
    }

    /// What `remove` does. Where there is a value, the revision is bumped and the removal is
    /// filed at that revision; otherwise nothing changes.
    pub open spec fn was_removed(
        before: Entries<V>,
        after: Entries<V>,
        runtime_before: Runtime,
        runtime_after: Runtime,
        kind: QueryKindId,
        key: PicanteResult<Key>,
        r: Revision,
    ) -> bool {
        match key {
            Err(_) => {
                &&& r == Revision(0)
                &&& after == before
                &&& runtime_after == runtime_before
            },
            Ok(key) => if value_at(before, key@) is Some {
                &&& announced_removal(runtime_before, runtime_after, kind, key, r)
                &&& after == before.insert(key@, InputEntry { value: None, changed_at: r })
            } else {
                &&& r == (if before.contains_key(key@) {
                    before[key@].changed_at
                } else {
                    Revision(0)
                })
                &&& after == before
                &&& runtime_after == runtime_before
            },
        }
    }

    /// Set an input value. `same` decides whether the new value equals the one before.
    ///
    /// Bumps the runtime revision only if the value actually changed. A key that could not be
    /// encoded changes nothing.
    pub fn set<F: Fn(&V, &V) -> bool>(
        &mut self,
        runtime: &mut Runtime,
        key: PicanteResult<Key>,
        value: V,
        same: F,
    ) -> (r: Revision)
        requires
            old(self).wf(),
            old(runtime).wf(),
            old(runtime).revision().0 < u64::MAX,
            forall|a: &V, b: &V| same.requires((a, b)),
        ensures
            final(self).wf(),
            final(self).same_but_entries(old(self)),
            final(runtime).wf(),
            Self::was_set(
                old(self).held(),
                final(self).held(),
                *old(runtime),
                *final(runtime),
                old(self).kind_id(),
                key,
                value,
                same,
                r,
            ),
    {
        let key = match key {
            Ok(key) => key,
            Err(_) => {
                return Revision(0);
            },
        };
        if let Some(existing) = self.entries.get(key.bytes()) {
            if let Some(existing_value) = &existing.value {
                let current: &V = existing_value;
                if same(current, &value) {
                    return existing.changed_at;
                }
            }
        }
        let rev = runtime.bump_revision();
        self.entries.insert(
            key.bytes(),
            InputEntry { value: Some(Arc::new(value)), changed_at: rev },
        );
        runtime.notify_input_set(rev, self.kind, key);
        rev
    }

    /// Remove an input value.
    ///
    /// Bumps the runtime revision only if the value existed. A key that could not be encoded
    /// changes nothing.
    pub fn remove(&mut self, runtime: &mut Runtime, key: PicanteResult<Key>) -> (r: Revision)
        requires
            old(self).wf(),
            old(runtime).wf(),
            old(runtime).revision().0 < u64::MAX,
        ensures
            final(self).wf(),
            final(self).same_but_entries(old(self)),
            final(runtime).wf(),
            Self::was_removed(
                old(self).held(),
                final(self).held(),
                *old(runtime),
                *final(runtime),
                old(self).kind_id(),
                key,
                r,
            ),
    {
        let key = match key {
            Ok(key) => key,
            Err(_) => {
                return Revision(0);
            },
        };
        match self.entries.get(key.bytes()) {
            Some(existing) => {
                if existing.value.is_none() {
                    return existing.changed_at;
                }
            },
            None => {
                return Revision(0);
            },
        }
        let rev = runtime.bump_revision();
        self.entries.insert(key.bytes(), InputEntry { value: None, changed_at: rev });
        runtime.notify_input_removed(rev, self.kind, key);
        rev
    }

    /// Read an input value.
    ///
    /// If there is an active query frame, records a dependency edge.
    pub fn get(&self, stack: &mut FrameStack, key: PicanteResult<Key>) -> (r: PicanteResult<
        Option<Arc<V>>,
    >)
        requires
            self.wf(),
        ensures
            match key {
                Err(error) => {
                    &&& r == Err::<Option<Arc<V>>, Arc<PicanteError>>(error)
                    &&& final(stack)@ == old(stack)@
                },
                Ok(key) => {
                    &&& r == Ok::<Option<Arc<V>>, Arc<PicanteError>>(value_at(self.held(), key@))
                    &&& final(stack)@ == crate::frame::with_dep(
                        old(stack)@,
                        Dep { kind: self.kind_id(), key },
                    )
                },
            },            was_read(self.held(), self.kind_id(), old(stack)@, final(stack)@, key, r),
    {
        let key = match key {
            Ok(key) => key,
            Err(error) => {
                return Err(error);
            },
        };
        let found = match self.entries.get(key.bytes()) {
            Some(entry) => match &entry.value {
                Some(value) => Some(share(value)),
                None => None,
            },
            None => None,
        };
        if has_active_frame(stack) {
            record_dep(stack, Dep { kind: self.kind, key });
        }
        Ok(found)
    }

    /// The last revision at which this input was changed.
    pub fn changed_at(&self, key: PicanteResult<Key>) -> (r: Option<Revision>)
        requires
            self.wf(),
        ensures
            r == (match key {
                Ok(key) if self.held().contains_key(key@) => Some(self.held()[key@].changed_at),
                _ => None,
            }),
    {
        match key {
            Ok(key) => match self.entries.get(key.bytes()) {
                Some(entry) => Some(entry.changed_at),
                None => None,
            },
            Err(_) => None,
        }
    }

    /// When the input under `key` last changed, as a dependency: an input that was never set
    /// has not changed since the beginning.
    pub fn touch(&self, key: &Key) -> (r: Revision)
        requires
            self.wf(),
        ensures
            r == (if self.held().contains_key(key@) {
                self.held()[key@].changed_at
            } else {
                Revision(0)
            }),
    {
        match self.entries.get(key.bytes()) {
            Some(entry) => entry.changed_at,
            None => Revision(0),
        }
    }

    /// Create a snapshot of this ingredient's data.
    pub fn snapshot(&self) -> (r: InputSnapshot<V>)
        requires
            self.wf(),
        ensures
            r.wf(),
            r.held() == self.held(),
    {
        InputSnapshot { entries: self.entries.snapshot() }
    }

    /// Create a new ingredient initialized from a snapshot.
    pub fn new_from_snapshot(
        kind: QueryKindId,
        kind_name: &'static str,
        entries: InputSnapshot<V>,
    ) -> (r: Self)
        requires
            entries.wf(),
        ensures
            r.wf(),
            r.kind_id() == kind,
            r.name() == kind_name@,
            r.held() == entries.held(),
    {
        InputIngredient { kind, kind_name, entries: entries.entries }
    }

    /// Drop every entry.
    pub fn clear(&mut self)
        ensures
            final(self).wf(),
            final(self).same_but_entries(old(self)),
            final(self).held() == Map::<Seq<u8>, InputEntry<Arc<V>>>::empty(),
    {
        self.entries.clear();
    }
}

impl<V> InputIngredient<V> {
    /// After a `set` the value can be read: the new one, or the one before where that was judged
    /// equal. Every other key reads as before.
    pub proof fn set_value_is_read<F: Fn(&V, &V) -> bool>(
        before: Entries<V>,
        after: Entries<V>,
        runtime_before: Runtime,
        runtime_after: Runtime,
        kind: QueryKindId,
        key: Key,
        value: V,
        same: F,
        r: Revision,
    )
        requires
            Self::was_set(
                before,
                after,
                runtime_before,
                runtime_after,
                kind,
                Ok(key),
                value,
                same,
                r,
            ),
        ensures
            value_at(after, key@) == Some(Arc::new(value)) || (value_at(after, key@) == value_at(
                before,
                key@,
            ) && Self::may_be_same(before, key@, value, same, true)),
            value_at(after, key@) is Some,
            after[key@].changed_at == r,
            forall|k: Seq<u8>| k != key@ ==> #[trigger] value_at(after, k) == value_at(before, k),
    {
    }

    /// The revision advances, by one, exactly when a `set` is no no-op; and a `set` that is one
    /// leaves the entries and the runtime as they were.
    pub proof fn set_advances_iff_changed<F: Fn(&V, &V) -> bool>(
        before: Entries<V>,
        after: Entries<V>,
        runtime_before: Runtime,
        runtime_after: Runtime,
        kind: QueryKindId,
        key: PicanteResult<Key>,
        value: V,
        same: F,
        r: Revision,
    )
        requires
            Self::was_set(
                before,
                after,
                runtime_before,
                runtime_after,
                kind,
                key,
                value,
                same,
                r,
            ),
        ensures
            runtime_after.revision() == runtime_before.revision() ==> after == before
                && runtime_after == runtime_before,
            runtime_after.revision() != runtime_before.revision() ==> {
                &&& runtime_after.revision().0 == runtime_before.revision().0 + 1
                &&& r == runtime_after.revision()
                &&& key matches Ok(key) && after.contains_key(key@) && after[key@].changed_at == r
            },
    {
    }

    /// Setting the same value twice: where `same` always judges as the reflexive relation `eq`
    /// does, the second `set` changes nothing and returns what the first one returned.
    pub proof fn setting_twice_is_a_no_op<F: Fn(&V, &V) -> bool>(
        eq: spec_fn(V, V) -> bool,
        before: Entries<V>,
        once: Entries<V>,
        twice: Entries<V>,
        runtime_before: Runtime,
        runtime_once: Runtime,
        runtime_twice: Runtime,
        kind: QueryKindId,
        key: Key,
        value: V,
        same: F,
        first: Revision,
        second: Revision,
    )
        requires
            forall|a: V, b: V, verdict: bool| #[trigger]
                same.ensures((&a, &b), verdict) ==> verdict == eq(a, b),
            eq(value, value),
            Self::was_set(
                before,
                once,
                runtime_before,
                runtime_once,
                kind,
                Ok(key),
                value,
                same,
                first,
            ),
            Self::was_set(
                once,
                twice,
                runtime_once,
                runtime_twice,
                kind,
                Ok(key),
                value,
                same,
                second,
            ),
        ensures
            second == first,
            twice == once,
            runtime_twice == runtime_once,
    {
    }

    /// After a `remove` nothing can be read under the key, and a second `remove` changes nothing
    /// and returns what the first one returned. Removing what was never set returns revision 0.
    pub proof fn removing_twice_is_a_no_op(
        before: Entries<V>,
        once: Entries<V>,
        twice: Entries<V>,
        runtime_before: Runtime,
        runtime_once: Runtime,
        runtime_twice: Runtime,
        kind: QueryKindId,
        key: Key,
        first: Revision,
        second: Revision,
    )
        requires
            Self::was_removed(
                before,
                once,
                runtime_before,
                runtime_once,
                kind,
                Ok(key),
                first,
            ),
            Self::was_removed(
                once,
                twice,
                runtime_once,
                runtime_twice,
                kind,
                Ok(key),
                second,
            ),
        ensures
            value_at(once, key@) is None,
            second == first,
            twice == once,
            runtime_twice == runtime_once,
            !before.contains_key(key@) ==> first == Revision(0) && once == before && runtime_once
                == runtime_before,
            forall|k: Seq<u8>| k != key@ ==> #[trigger] value_at(once, k) == value_at(before, k),
    {
    }
}

/// Whether `encode` may turn the entry under `key` into `out`.
pub open spec fn entry_encodes<
    V,
    T,
    F: Fn(&[u8], &InputEntry<Arc<V>>) -> PicanteResult<T>,
>(encode: F, key: Seq<u8>, entry: InputEntry<Arc<V>>, out: PicanteResult<T>) -> bool {
    exists|k: &[u8], e: &InputEntry<Arc<V>>|
        k@ == key && *e == entry && #[trigger] encode.ensures((k, e), out)
}

/// Whether `encode` may succeed on the entry under `key`.
pub open spec fn entry_may_encode<V, T, F: Fn(&[u8], &InputEntry<Arc<V>>) -> PicanteResult<T>>(
    encode: F,
    key: Seq<u8>,
    entry: InputEntry<Arc<V>>,
) -> bool {
    exists|out: T| #[trigger] entry_encodes(encode, key, entry, Ok(out))
}

/// Whether `encode` may fail with `error` on the entry under the key at `n`, after it may have
/// encoded those before.
pub open spec fn stops_at<V, T, F: Fn(&[u8], &InputEntry<Arc<V>>) -> PicanteResult<T>>(
    encode: F,
    keys: Seq<Seq<u8>>,
    entries: Entries<V>,
    n: int,
    error: Arc<PicanteError>,
) -> bool {
    &&& 0 <= n < keys.len()
    &&& entry_encodes(encode, keys[n], entries[keys[n]], Err::<T, Arc<PicanteError>>(error))
    &&& forall|j: int|
        0 <= j < n ==> entry_may_encode(encode, #[trigger] keys[j], entries[keys[j]])
}

/// The keys whose entries changed after `since`, in the given order.
pub open spec fn changed_entry_keys<V>(
    order: Seq<Seq<u8>>,
    entries: Entries<V>,
    since: u64,
) -> Seq<Seq<u8>>
    decreases order.len(),
{
    if order.len() == 0 {
        Seq::empty()
    } else {
        let earlier = changed_entry_keys(order.drop_last(), entries, since);
        if entries[order.last()].changed_at.0 > since {
            earlier.push(order.last())
        } else {
            earlier
        }
    }
}

proof fn changed_entry_keys_of_prefix<V>(
    order: Seq<Seq<u8>>,
    entries: Entries<V>,
    since: u64,
    n: int,
)
    requires
        0 <= n <= order.len(),
    ensures
        changed_entry_keys(order.take(n), entries, since).len() <= changed_entry_keys(
            order,
            entries,
            since,
        ).len(),
        forall|j: int|
            0 <= j < changed_entry_keys(order.take(n), entries, since).len()
                ==> #[trigger] changed_entry_keys(order.take(n), entries, since)[j]
                == changed_entry_keys(order, entries, since)[j],
    decreases order.len(),
{
    if n == order.len() {
        assert(order.take(n) =~= order);
    } else {
        changed_entry_keys_of_prefix(order.drop_last(), entries, since, n);
        assert(order.drop_last().take(n) =~= order.take(n));
    }
}

/// Whether saving entries came out as it must: with one record for each entry, or with the first
/// error.
pub open spec fn entries_saved<V, F: Fn(&[u8], &InputEntry<Arc<V>>) -> PicanteResult<Vec<u8>>>(
    order: Seq<Seq<u8>>,
    entries: Entries<V>,
    encode: F,
    r: PicanteResult<Vec<Vec<u8>>>,
) -> bool {
    match r {
        Ok(records) => {
            &&& records@.len() == order.len()
            &&& forall|i: int|
                0 <= i < records@.len() ==> entry_encodes(
                    encode,
                    #[trigger] order[i],
                    entries[order[i]],
                    Ok(records@[i]),
                )
        },
        Err(error) => exists|n: int| #[trigger] stops_at(encode, order, entries, n, error),
    }
}

/// Whether logging entries came out as it must: with one change for each entry that changed after the
/// given revision, or with the first error.
pub open spec fn entries_logged<
    V,
    F: Fn(&[u8], &InputEntry<Arc<V>>) -> PicanteResult<(Vec<u8>, Option<Vec<u8>>)>,
>(
    order: Seq<Seq<u8>>,
    entries: Entries<V>,
    since: u64,
    encode: F,
    r: PicanteResult<Vec<(u64, Vec<u8>, Option<Vec<u8>>)>>,
) -> bool {
    let keys = changed_entry_keys(order, entries, since);
    match r {
        Ok(changes) => {
            &&& changes@.len() == keys.len()
            &&& forall|i: int|
                0 <= i < keys.len() ==> {
                    &&& changes@[i].0 == entries[#[trigger] keys[i]].changed_at.0
                    &&& entry_encodes(
                        encode,
                        keys[i],
                        entries[keys[i]],
                        Ok((changes@[i].1, changes@[i].2)),
                    )
                }
        },
        Err(error) => exists|n: int| #[trigger] stops_at(encode, keys, entries, n, error),
    }
}

/// Whether loading entries came out as it must: each record was decoded and filed, in order, up to the
/// first that could not be decoded.
pub open spec fn entries_loaded<V, F: Fn(&[u8]) -> PicanteResult<(Key, InputEntry<Arc<V>>)>>(
    before: Entries<V>,
    after: Entries<V>,
    records: Seq<Vec<u8>>,
    decode: F,
    r: PicanteResult<()>,
) -> bool {
    exists|loaded: Seq<(Key, InputEntry<Arc<V>>)>|
        {
            &&& after == #[trigger] filled_entries(before, loaded)
            &&& loaded.len() <= records.len()
            &&& forall|i: int|
                0 <= i < loaded.len() ==> crate::ingredient::derived::decodes(
                    decode,
                    records[i]@,
                    Ok(#[trigger] loaded[i]),
                )
            &&& match r {
                Ok(_) => loaded.len() == records.len(),
                Err(error) => loaded.len() < records.len() && crate::ingredient::derived::decodes(
                    decode,
                    records[loaded.len() as int]@,
                    Err(error),
                ),
            }
        }
}

/// The entries once those of `loaded` have been filed, one after the other.
pub open spec fn filled_entries<V>(
    entries: Entries<V>,
    loaded: Seq<(Key, InputEntry<Arc<V>>)>,
) -> Entries<V>
    decreases loaded.len(),
{
    if loaded.len() == 0 {
        entries
    } else {
        filled_entries(entries, loaded.drop_last()).insert(loaded.last().0@, loaded.last().1)
    }
}

impl<V> InputIngredient<V> {
    /// Encode every entry, in listing order. The first encoding that fails ends the save with its
    /// error.
    pub fn save_records<F: Fn(&[u8], &InputEntry<Arc<V>>) -> PicanteResult<Vec<u8>>>(
        &self,
        encode: F,
    ) -> (r: PicanteResult<Vec<Vec<u8>>>)
        requires
            self.wf(),
            forall|k: &[u8], e: &InputEntry<Arc<V>>| encode.requires((k, e)),
        ensures
            match r {
                Ok(records) => {
                    &&& records@.len() == self.order().len()
                    &&& forall|i: int|
                        0 <= i < records@.len() ==> entry_encodes(
                            encode,
                            #[trigger] self.order()[i],
                            self.held()[self.order()[i]],
                            Ok(records@[i]),
                        )
                },
                Err(error) => exists|n: int| #[trigger]
                    stops_at(encode, self.order(), self.held(), n, error),
            },
            entries_saved(self.order(), self.held(), encode, r),
    {
        let mut records: Vec<Vec<u8>> = Vec::new();
        let count: usize = self.entries.len();
        let mut i: usize = 0;
        while i < count
            invariant
                self.wf(),
                i <= count,
                count == self.order().len(),
                forall|k: &[u8], e: &InputEntry<Arc<V>>| encode.requires((k, e)),
                records@.len() == i,
                forall|j: int|
                    0 <= j < i ==> entry_encodes(
                        encode,
                        #[trigger] self.order()[j],
                        self.held()[self.order()[j]],
                        Ok(records@[j]),
                    ),
            decreases count - i,
        {
            let key = self.entries.key_at(i);
            let entry = self.entries.value_at(i);
            let encoded = encode(key, entry);
            assert(entry_encodes(encode, self.order()[i as int], self.held()[key@], encoded));
            match encoded {
                Ok(bytes) => {
                    records.push(bytes);
                },
                Err(error) => {
                    assert(stops_at(encode, self.order(), self.held(), i as int, error)) by {
                        assert forall|j: int| 0 <= j < i implies entry_may_encode(
                            encode,
                            #[trigger] self.order()[j],
                            self.held()[self.order()[j]],
                        ) by {
                            assert(entry_encodes(
                                encode,
                                self.order()[j],
                                self.held()[self.order()[j]],
                                Ok(records@[j]),
                            ));
                        }
                    }
                    return Err(error);
                },
            }
            i = i + 1;
        }
        Ok(records)
    }

    /// Decode records and file them. The first record that does not decode ends the load with its
    /// error; the records before it stay loaded.
    pub fn load_records<F: Fn(&[u8]) -> PicanteResult<(Key, InputEntry<Arc<V>>)>>(
        &mut self,
        records: &Vec<Vec<u8>>,
        decode: F,
    ) -> (r: PicanteResult<()>)
        requires
            old(self).wf(),
            forall|b: &[u8]| decode.requires((b,)),
        ensures
            final(self).wf(),
            final(self).same_but_entries(old(self)),
            exists|loaded: Seq<(Key, InputEntry<Arc<V>>)>|
                {
                    &&& final(self).held() == #[trigger] filled_entries(old(self).held(), loaded)
                    &&& loaded.len() <= records@.len()
                    &&& forall|i: int|
                        0 <= i < loaded.len() ==> crate::ingredient::derived::decodes(
                            decode,
                            records@[i]@,
                            Ok(#[trigger] loaded[i]),
                        )
                    &&& match r {
                        Ok(_) => loaded.len() == records@.len(),
                        Err(error) => loaded.len() < records@.len() && crate::ingredient::derived::decodes(
                            decode,
                            records@[loaded.len() as int]@,
                            Err(error),
                        ),
                    }
                },            entries_loaded(old(self).held(), final(self).held(), records@, decode, r),
    {
        let ghost mut loaded: Seq<(Key, InputEntry<Arc<V>>)> = Seq::empty();
        let mut i: usize = 0;
        while i < records.len()
            invariant
                self.wf(),
                self.same_but_entries(old(self)),
                forall|b: &[u8]| decode.requires((b,)),
                i <= records@.len(),
                loaded.len() == i,
                self.held() == filled_entries(old(self).held(), loaded),
                forall|j: int|
                    0 <= j < i ==> crate::ingredient::derived::decodes(decode, records@[j]@, Ok(#[trigger] loaded[j])),
            decreases records@.len() - i,
        {
            let bytes: &[u8] = records[i].as_slice();
            let decoded = decode(bytes);
            assert(crate::ingredient::derived::decodes(decode, records@[i as int]@, decoded));
            match decoded {
                Ok((key, entry)) => {
                    proof {
                        let prior = loaded;
                        loaded = prior.push((key, entry));
                        assert(loaded.drop_last() =~= prior);
                    }
                    self.entries.insert(key.bytes(), entry);
                },
                Err(error) => {
                    return Err(error);
                },
            }
            i = i + 1;
        }
        Ok(())
    }

    /// Encode every entry that changed after `since_revision`, in listing order, with the revision
    /// at which it changed. The first encoding that fails ends the save with its error.
    pub fn save_incremental_records<
        F: Fn(&[u8], &InputEntry<Arc<V>>) -> PicanteResult<(Vec<u8>, Option<Vec<u8>>)>,
    >(&self, since_revision: u64, encode: F) -> (r: PicanteResult<
        Vec<(u64, Vec<u8>, Option<Vec<u8>>)>,
    >)
        requires
            self.wf(),
            forall|k: &[u8], e: &InputEntry<Arc<V>>| encode.requires((k, e)),
        ensures
            match r {
                Ok(changes) => {
                    let keys = changed_entry_keys(self.order(), self.held(), since_revision);
                    &&& changes@.len() == keys.len()
                    &&& forall|i: int|
                        0 <= i < keys.len() ==> {
                            &&& changes@[i].0 == self.held()[#[trigger] keys[i]].changed_at.0
                            &&& entry_encodes(
                                encode,
                                keys[i],
                                self.held()[keys[i]],
                                Ok((changes@[i].1, changes@[i].2)),
                            )
                        }
                },
                Err(error) => exists|n: int| #[trigger]
                    stops_at(
                        encode,
                        changed_entry_keys(self.order(), self.held(), since_revision),
                        self.held(),
                        n,
                        error,
                    ),
            },
            entries_logged(self.order(), self.held(), since_revision, encode, r),
    {
        let mut changes: Vec<(u64, Vec<u8>, Option<Vec<u8>>)> = Vec::new();
        let count: usize = self.entries.len();
        let mut i: usize = 0;
        while i < count
            invariant
                self.wf(),
                i <= count,
                count == self.order().len(),
                forall|k: &[u8], e: &InputEntry<Arc<V>>| encode.requires((k, e)),
                changes@.len() == changed_entry_keys(
                    self.order().take(i as int),
                    self.held(),
                    since_revision,
                ).len(),
                forall|j: int|
                    0 <= j < changes@.len() ==> {
                        let keys = changed_entry_keys(
                            self.order().take(i as int),
                            self.held(),
                            since_revision,
                        );
                        &&& (#[trigger] changes@[j]).0 == self.held()[keys[j]].changed_at.0
                        &&& entry_encodes(
                            encode,
                            keys[j],
                            self.held()[keys[j]],
                            Ok((changes@[j].1, changes@[j].2)),
                        )
                    },
            decreases count - i,
        {
            let ghost shorter = self.order().take(i as int);
            let ghost longer = self.order().take(i + 1);
            let ghost earlier = changed_entry_keys(shorter, self.held(), since_revision);
            assert(longer.drop_last() =~= shorter);
            assert(longer.last() == self.order()[i as int]);
            let key = self.entries.key_at(i);
            let entry = self.entries.value_at(i);
            if entry.changed_at.0 > since_revision {
                let encoded = encode(key, entry);
                assert(entry_encodes(encode, key@, self.held()[key@], encoded));
                match encoded {
                    Ok((key_bytes, value_bytes)) => {
                        let ghost before = changes@;
                        changes.push((entry.changed_at.0, key_bytes, value_bytes));
                        let ghost keys = changed_entry_keys(longer, self.held(), since_revision);
                        assert forall|j: int| 0 <= j < changes@.len() implies {
                            &&& (#[trigger] changes@[j]).0 == self.held()[keys[j]].changed_at.0
                            &&& entry_encodes(
                                encode,
                                keys[j],
                                self.held()[keys[j]],
                                Ok((changes@[j].1, changes@[j].2)),
                            )
                        } by {
                            if j < before.len() {
                                assert(keys[j] == earlier[j]);
                                assert(changes@[j] == before[j]);
                            }
                        }
                    },
                    Err(error) => {
                        proof {
                            let all = changed_entry_keys(self.order(), self.held(), since_revision);
                            let n = earlier.len() as int;
                            let upto = changed_entry_keys(longer, self.held(), since_revision);
                            changed_entry_keys_of_prefix(
                                self.order(),
                                self.held(),
                                since_revision,
                                i + 1,
                            );
                            assert(upto[n] == all[n]);
                            assert forall|j: int| 0 <= j < n implies entry_may_encode(
                                encode,
                                #[trigger] all[j],
                                self.held()[all[j]],
                            ) by {
                                assert(upto[j] == all[j]);
                                assert(earlier[j] == upto[j]);
                                assert(entry_encodes(
                                    encode,
                                    earlier[j],
                                    self.held()[earlier[j]],
                                    Ok((changes@[j].1, changes@[j].2)),
                                ));
                            }
                            assert(stops_at(encode, all, self.held(), n, error));
                        }
                        return Err(error);
                    },
                }
            }
            i = i + 1;
        }
        assert(self.order().take(i as int) =~= self.order());
        Ok(changes)
    }

    /// Apply one logged change: the entry gets the logged value, or none, and the logged revision.
    pub fn apply_wal_entry(&mut self, revision: u64, key: &Key, value: Option<Arc<V>>)
        requires
            old(self).wf(),
        ensures
            final(self).wf(),
            final(self).same_but_entries(old(self)),
            final(self).held() == old(self).held().insert(
                key@,
                InputEntry { value, changed_at: Revision(revision) },
            ),
    {
        self.entries.insert(key.bytes(), InputEntry { value, changed_at: Revision(revision) });
    }
}

} // verus!
