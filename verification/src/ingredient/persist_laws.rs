//! Laws of saving and loading ingredients.
//!
//! What an encoder and a decoder do is up to the caller; each law says what it asks of them.
use crate::error::{PicanteError, PicanteResult};
#[allow(unused_imports)]
use crate::ingredient::derived::{Cells, StateView};
use crate::ingredient::derived::{DerivedCore, ErasedReadyRecord};
#[allow(unused_imports)]
use crate::ingredient::input::Entries;
use crate::ingredient::input::{InputEntry, InputIngredient};
#[allow(unused_imports)]
use crate::ingredient::interned::InternView;
use crate::ingredient::interned::{InternId, LoadedValue};
use crate::key::{Key, QueryKindId};
use crate::revision::Revision;
use crate::runtime::Runtime;
use std::sync::Arc;
use vstd::prelude::*;

verus! {

/// Whether `decode` gives back every input entry that `encode` encoded.
pub open spec fn reads_back_inputs<
    V,
    F: Fn(&[u8], &InputEntry<Arc<V>>) -> PicanteResult<Vec<u8>>,
    G: Fn(&[u8]) -> PicanteResult<(Key, InputEntry<Arc<V>>)>,
>(encode: F, decode: G) -> bool {
    forall|
        key: Seq<u8>,
        entry: InputEntry<Arc<V>>,
        bytes: Vec<u8>,
        out: PicanteResult<(Key, InputEntry<Arc<V>>)>,
    |
        #![trigger crate::ingredient::input::entry_encodes(encode, key, entry, Ok(bytes)),
            crate::ingredient::derived::decodes(decode, bytes@, out)]
        crate::ingredient::input::entry_encodes(encode, key, entry, Ok(bytes))
            && crate::ingredient::derived::decodes(decode, bytes@, out) ==> (out matches Ok(pair)
            && pair.0@ == key && pair.1 == entry)
}

proof fn listed_by_push(order: Seq<Seq<u8>>, k: Seq<u8>)
    requires
        order.len() > 0,
    ensures
        order.contains(k) <==> order.drop_last().contains(k) || k == order.last(),
{
    let names = order.drop_last();
    if names.contains(k) {
        let i = choose|i: int| 0 <= i < names.len() && names[i] == k;
        assert(order[i] == k);
    }
    if order.contains(k) && k != order.last() {
        let i = choose|i: int| 0 <= i < order.len() && order[i] == k;
        assert(names[i] == k);
    }
    if k == order.last() {
        assert(order[order.len() - 1] == k);
    }
}

proof fn filled_entries_are_listed<V>(
    order: Seq<Seq<u8>>,
    entries: Entries<V>,
    loaded: Seq<(Key, InputEntry<Arc<V>>)>,
)
    requires
        loaded.len() == order.len(),
        forall|i: int|
            0 <= i < loaded.len() ==> (#[trigger] loaded[i]).0@ == order[i] && loaded[i].1
                == entries[order[i]],
    ensures
        ({
            let filled = crate::ingredient::input::filled_entries(
                Map::<Seq<u8>, InputEntry<Arc<V>>>::empty(),
                loaded,
            );
            &&& forall|k: Seq<u8>| #[trigger] filled.contains_key(k) <==> order.contains(k)
            &&& forall|k: Seq<u8>| #[trigger] filled.contains_key(k) ==> filled[k] == entries[k]
        }),
    decreases loaded.len(),
{
    if loaded.len() > 0 {
        let shorter = loaded.drop_last();
        let names = order.drop_last();
        assert forall|i: int| 0 <= i < shorter.len() implies (#[trigger] shorter[i]).0@ == names[i]
            && shorter[i].1 == entries[names[i]] by {
            assert(shorter[i] == loaded[i]);
        }
        filled_entries_are_listed(names, entries, shorter);
        let before = crate::ingredient::input::filled_entries(
            Map::<Seq<u8>, InputEntry<Arc<V>>>::empty(),
            shorter,
        );
        let after = crate::ingredient::input::filled_entries(
            Map::<Seq<u8>, InputEntry<Arc<V>>>::empty(),
            loaded,
        );
        assert(loaded[loaded.len() - 1].0@ == order.last());
        assert(after == before.insert(order.last(), entries[order.last()]));
        assert forall|k: Seq<u8>| #[trigger] after.contains_key(k) <==> order.contains(k) by {
            listed_by_push(order, k);
        }
        assert forall|k: Seq<u8>| #[trigger] after.contains_key(k) implies after[k]
            == entries[k] by {
            if k != order.last() {
                assert(before.contains_key(k));
            }
        }
    }
}

/// What was saved of an input ingredient is loaded again: none of its records is refused, and
/// loading them into an empty ingredient gives the same entries.
pub proof fn saved_inputs_are_loaded<
    V,
    F: Fn(&[u8], &InputEntry<Arc<V>>) -> PicanteResult<Vec<u8>>,
    G: Fn(&[u8]) -> PicanteResult<(Key, InputEntry<Arc<V>>)>,
>(
    encode: F,
    decode: G,
    saved: InputIngredient<V>,
    records: Seq<Vec<u8>>,
    loaded: Seq<(Key, InputEntry<Arc<V>>)>,
)
    requires
        reads_back_inputs(encode, decode),
        saved.wf(),
        records.len() == saved.order().len(),
        forall|i: int|
            0 <= i < records.len() ==> crate::ingredient::input::entry_encodes(
                encode,
                #[trigger] saved.order()[i],
                saved.held()[saved.order()[i]],
                Ok(records[i]),
            ),
        loaded.len() == records.len(),
        forall|i: int|
            0 <= i < loaded.len() ==> crate::ingredient::derived::decodes(
                decode,
                records[i]@,
                Ok(#[trigger] loaded[i]),
            ),
    ensures
        forall|i: int, error: Arc<PicanteError>|
            0 <= i < records.len() ==> !#[trigger] crate::ingredient::derived::decodes(
                decode,
                records[i]@,
                Err::<(Key, InputEntry<Arc<V>>), Arc<PicanteError>>(error),
            ),
        crate::ingredient::input::filled_entries(
            Map::<Seq<u8>, InputEntry<Arc<V>>>::empty(),
            loaded,
        ) == saved.held(),
{
    let order = saved.order();
    let entries = saved.held();
    assert forall|i: int| 0 <= i < loaded.len() implies (#[trigger] loaded[i]).0@ == order[i]
        && loaded[i].1 == entries[order[i]] by {
        assert(crate::ingredient::input::entry_encodes(
            encode,
            order[i],
            entries[order[i]],
            Ok(records[i]),
        ));
    }
    assert forall|i: int, error: Arc<PicanteError>| 0 <= i < records.len() implies !#[trigger]
    crate::ingredient::derived::decodes(
        decode,
        records[i]@,
        Err::<(Key, InputEntry<Arc<V>>), Arc<PicanteError>>(error),
    ) by {
        assert(crate::ingredient::input::entry_encodes(
            encode,
            order[i],
            entries[order[i]],
            Ok(records[i]),
        ));
    }
    filled_entries_are_listed(order, entries, loaded);
    saved.order_lists_keys();
    let filled = crate::ingredient::input::filled_entries(
        Map::<Seq<u8>, InputEntry<Arc<V>>>::empty(),
        loaded,
    );
    assert forall|k: Seq<u8>| #[trigger] filled.contains_key(k) <==> entries.contains_key(k) by {
        assert(order.contains(k) <==> order.to_set().contains(k));
    }
    assert(filled =~= entries);
}

/// Whether `decode` gives back every result that `encode` encoded.
pub open spec fn reads_back_results<
    V,
    F: Fn(&[u8], &ErasedReadyRecord<V>) -> PicanteResult<Vec<u8>>,
    G: Fn(&[u8]) -> PicanteResult<(Key, ErasedReadyRecord<V>)>,
>(encode: F, decode: G) -> bool {
    forall|
        key: Seq<u8>,
        state: StateView<V>,
        bytes: Vec<u8>,
        out: PicanteResult<(Key, ErasedReadyRecord<V>)>,
    |
        #![trigger crate::ingredient::derived::encodes(encode, key, state, Ok(bytes)),
            crate::ingredient::derived::decodes(decode, bytes@, out)]
        crate::ingredient::derived::encodes(encode, key, state, Ok(bytes))
            && crate::ingredient::derived::decodes(decode, bytes@, out) ==> (out matches Ok(pair)
            && pair.0@ == key && pair.1.as_state() == state.as_record())
}

proof fn filled_cells_are_listed<V>(
    names: Seq<Seq<u8>>,
    cells: Cells<V>,
    loaded: Seq<(Key, ErasedReadyRecord<V>)>,
)
    requires
        loaded.len() == names.len(),
        forall|i: int|
            0 <= i < loaded.len() ==> (#[trigger] loaded[i]).0@ == names[i]
                && loaded[i].1.as_state() == crate::ingredient::derived::state_at(
                cells,
                names[i],
            ).as_record(),
    ensures
        ({
            let filled = crate::ingredient::derived::filled(
                Map::<Seq<u8>, StateView<V>>::empty(),
                loaded,
            );
            &&& forall|k: Seq<u8>| #[trigger] filled.contains_key(k) <==> names.contains(k)
            &&& forall|k: Seq<u8>| #[trigger]
                filled.contains_key(k) ==> filled[k] == crate::ingredient::derived::state_at(
                    cells,
                    k,
                ).as_record()
        }),
    decreases loaded.len(),
{
    if loaded.len() > 0 {
        let shorter = loaded.drop_last();
        let earlier = names.drop_last();
        assert forall|i: int| 0 <= i < shorter.len() implies (#[trigger] shorter[i]).0@
            == earlier[i] && shorter[i].1.as_state() == crate::ingredient::derived::state_at(
            cells,
            earlier[i],
        ).as_record() by {
            assert(shorter[i] == loaded[i]);
        }
        filled_cells_are_listed(earlier, cells, shorter);
        let before = crate::ingredient::derived::filled(
            Map::<Seq<u8>, StateView<V>>::empty(),
            shorter,
        );
        let after = crate::ingredient::derived::filled(
            Map::<Seq<u8>, StateView<V>>::empty(),
            loaded,
        );
        assert(loaded[loaded.len() - 1].0@ == names.last());
        assert(after == before.insert(
            names.last(),
            crate::ingredient::derived::state_at(cells, names.last()).as_record(),
        ));
        assert forall|k: Seq<u8>| #[trigger] after.contains_key(k) <==> names.contains(k) by {
            listed_by_push(names, k);
        }
        assert forall|k: Seq<u8>| #[trigger] after.contains_key(k) implies after[k]
            == crate::ingredient::derived::state_at(cells, k).as_record() by {
            if k != names.last() {
                assert(before.contains_key(k));
            }
        }
    }
}

proof fn ready_keys_are_ready<V>(order: Seq<Seq<u8>>, cells: Cells<V>, k: Seq<u8>)
    ensures
        crate::ingredient::derived::ready_keys(order, cells).contains(k) <==> order.contains(k)
            && crate::ingredient::derived::state_at(cells, k) is Ready,
    decreases order.len(),
{
    let names = crate::ingredient::derived::ready_keys(order, cells);
    if order.len() > 0 {
        let shorter = order.drop_last();
        ready_keys_are_ready(shorter, cells, k);
        listed_by_push(order, k);
        if crate::ingredient::derived::state_at(cells, order.last()) is Ready {
            listed_by_push(names, k);
            assert(names.drop_last() =~= crate::ingredient::derived::ready_keys(shorter, cells));
        }
    }
}

/// What was saved of a derived ingredient is loaded again: none of its records is refused, and
/// loading them into an empty ingredient gives the cells that had a value, with all that a record
/// tells of it.
pub proof fn saved_results_are_loaded<
    V,
    F: Fn(&[u8], &ErasedReadyRecord<V>) -> PicanteResult<Vec<u8>>,
    G: Fn(&[u8]) -> PicanteResult<(Key, ErasedReadyRecord<V>)>,
>(
    encode: F,
    decode: G,
    saved: DerivedCore<V>,
    records: Seq<Vec<u8>>,
    loaded: Seq<(Key, ErasedReadyRecord<V>)>,
)
    requires
        reads_back_results(encode, decode),
        saved.wf(),
        ({
            let names = crate::ingredient::derived::ready_keys(saved.order(), saved.states());
            &&& records.len() == names.len()
            &&& forall|i: int|
                0 <= i < names.len() ==> crate::ingredient::derived::encodes(
                    encode,
                    #[trigger] names[i],
                    crate::ingredient::derived::state_at(saved.states(), names[i]),
                    Ok(records[i]),
                )
        }),
        loaded.len() == records.len(),
        forall|i: int|
            0 <= i < loaded.len() ==> crate::ingredient::derived::decodes(
                decode,
                records[i]@,
                Ok(#[trigger] loaded[i]),
            ),
    ensures
        forall|i: int, error: Arc<PicanteError>|
            0 <= i < records.len() ==> !#[trigger] crate::ingredient::derived::decodes(
                decode,
                records[i]@,
                Err::<(Key, ErasedReadyRecord<V>), Arc<PicanteError>>(error),
            ),
        crate::ingredient::derived::filled(Map::<Seq<u8>, StateView<V>>::empty(), loaded)
            == crate::ingredient::derived::recorded_cells(saved.states()),
{
    let order = saved.order();
    let cells = saved.states();
    let names = crate::ingredient::derived::ready_keys(order, cells);
    assert forall|i: int| 0 <= i < loaded.len() implies (#[trigger] loaded[i]).0@ == names[i]
        && loaded[i].1.as_state() == crate::ingredient::derived::state_at(
        cells,
        names[i],
    ).as_record() by {
        assert(crate::ingredient::derived::encodes(
            encode,
            names[i],
            crate::ingredient::derived::state_at(cells, names[i]),
            Ok(records[i]),
        ));
    }
    assert forall|i: int, error: Arc<PicanteError>| 0 <= i < records.len() implies !#[trigger]
    crate::ingredient::derived::decodes(
        decode,
        records[i]@,
        Err::<(Key, ErasedReadyRecord<V>), Arc<PicanteError>>(error),
    ) by {
        assert(crate::ingredient::derived::encodes(
            encode,
            names[i],
            crate::ingredient::derived::state_at(cells, names[i]),
            Ok(records[i]),
        ));
    }
    filled_cells_are_listed(names, cells, loaded);
    saved.order_lists_cells();
    let filled = crate::ingredient::derived::filled(Map::<Seq<u8>, StateView<V>>::empty(), loaded);
    let ready = crate::ingredient::derived::recorded_cells(cells);
    assert forall|k: Seq<u8>| #[trigger] filled.contains_key(k) <==> ready.contains_key(k) by {
        ready_keys_are_ready(order, cells, k);
        assert(order.contains(k) <==> order.to_set().contains(k));
    }
    assert(filled =~= ready);
}

/// Whether `current` came from `base` by changes after the revision `since`: nothing that `base`
/// lists has gone, and every entry that has not changed since then is as it was.
pub open spec fn changed_only_since<V>(
    base: Entries<V>,
    current: Entries<V>,
    since: u64,
) -> bool {
    &&& forall|k: Seq<u8>| #[trigger] base.contains_key(k) ==> current.contains_key(k)
    &&& forall|k: Seq<u8>| #[trigger]
        current.contains_key(k) && current[k].changed_at.0 <= since ==> base.contains_key(k)
            && base[k] == current[k]
}

/// Setting an input after a snapshot was taken is a change after the revision of the snapshot.
pub proof fn set_is_a_change_since<V, F: Fn(&V, &V) -> bool>(
    base: Entries<V>,
    since: u64,
    before: Entries<V>,
    after: Entries<V>,
    runtime_before: Runtime,
    runtime_after: Runtime,
    kind: QueryKindId,
    key: PicanteResult<Key>,
    value: V,
    same: F,
    r: Revision,
)
    requires
        changed_only_since(base, before, since),
        since <= runtime_before.revision().0,
        InputIngredient::<V>::was_set(
            before,
            after,
            runtime_before,
            runtime_after,
            kind,
            key,
            value,
            same,
            r,
        ),
    ensures
        changed_only_since(base, after, since),
        since <= runtime_after.revision().0,
{
}

/// Removing an input after a snapshot was taken is a change after the revision of the snapshot.
pub proof fn removal_is_a_change_since<V>(
    base: Entries<V>,
    since: u64,
    before: Entries<V>,
    after: Entries<V>,
    runtime_before: Runtime,
    runtime_after: Runtime,
    kind: QueryKindId,
    key: PicanteResult<Key>,
    r: Revision,
)
    requires
        changed_only_since(base, before, since),
        since <= runtime_before.revision().0,
        InputIngredient::<V>::was_removed(
            before,
            after,
            runtime_before,
            runtime_after,
            kind,
            key,
            r,
        ),
    ensures
        changed_only_since(base, after, since),
        since <= runtime_after.revision().0,
{
}

/// The entries once logged changes have been applied, one after the other. Each gives a
/// revision, a key, and the value where it was not removed.
pub open spec fn replayed<V>(
    entries: Entries<V>,
    changes: Seq<(u64, Seq<u8>, Option<Arc<V>>)>,
) -> Entries<V>
    decreases changes.len(),
{
    if changes.len() == 0 {
        entries
    } else {
        let last = changes.last();
        replayed(entries, changes.drop_last()).insert(
            last.1,
            InputEntry { value: last.2, changed_at: Revision(last.0) },
        )
    }
}

proof fn replayed_entries_are_listed<V>(
    base: Entries<V>,
    current: Entries<V>,
    names: Seq<Seq<u8>>,
    changes: Seq<(u64, Seq<u8>, Option<Arc<V>>)>,
)
    requires
        changes.len() == names.len(),
        forall|i: int|
            0 <= i < changes.len() ==> (#[trigger] changes[i]) == (
                current[names[i]].changed_at.0,
                names[i],
                current[names[i]].value,
            ),
    ensures
        forall|k: Seq<u8>| #[trigger]
            replayed(base, changes).contains_key(k) <==> base.contains_key(k) || names.contains(k),
        forall|k: Seq<u8>| #[trigger]
            replayed(base, changes).contains_key(k) ==> replayed(base, changes)[k] == (
            if names.contains(k) {
                current[k]
            } else {
                base[k]
            }),
    decreases changes.len(),
{
    if changes.len() > 0 {
        let shorter = changes.drop_last();
        let earlier = names.drop_last();
        assert forall|i: int| 0 <= i < shorter.len() implies (#[trigger] shorter[i]) == (
            current[earlier[i]].changed_at.0,
            earlier[i],
            current[earlier[i]].value,
        ) by {
            assert(shorter[i] == changes[i]);
        }
        replayed_entries_are_listed(base, current, earlier, shorter);
        let before = replayed(base, shorter);
        let after = replayed(base, changes);
        assert(changes[changes.len() - 1].1 == names.last());
        assert(after == before.insert(names.last(), current[names.last()]));
        assert forall|k: Seq<u8>| #[trigger]
            after.contains_key(k) <==> base.contains_key(k) || names.contains(k) by {
            listed_by_push(names, k);
            assert(before.contains_key(k) <==> base.contains_key(k) || earlier.contains(k));
        }
        assert forall|k: Seq<u8>| #[trigger] after.contains_key(k) implies after[k] == (
        if names.contains(k) {
            current[k]
        } else {
            base[k]
        }) by {
            listed_by_push(names, k);
            if k != names.last() {
                assert(before.contains_key(k));
            }
        }
    } else {
        assert(names =~= Seq::empty());
    }
}

proof fn changed_names_are_changed<V>(
    order: Seq<Seq<u8>>,
    entries: Entries<V>,
    since: u64,
    k: Seq<u8>,
)
    ensures
        crate::ingredient::input::changed_entry_keys(order, entries, since).contains(k)
            <==> order.contains(k) && entries[k].changed_at.0 > since,
    decreases order.len(),
{
    let names = crate::ingredient::input::changed_entry_keys(order, entries, since);
    if order.len() > 0 {
        let shorter = order.drop_last();
        changed_names_are_changed(shorter, entries, since, k);
        listed_by_push(order, k);
        if entries[order.last()].changed_at.0 > since {
            listed_by_push(names, k);
            assert(names.drop_last() =~= crate::ingredient::input::changed_entry_keys(
                shorter,
                entries,
                since,
            ));
        }
    }
}

/// Replaying the changes since a snapshot on that snapshot gives the current entries.
pub proof fn replaying_catches_up<V>(
    base: Entries<V>,
    since: u64,
    current: InputIngredient<V>,
    changes: Seq<(u64, Seq<u8>, Option<Arc<V>>)>,
)
    requires
        current.wf(),
        changed_only_since(base, current.held(), since),
        ({
            let names = crate::ingredient::input::changed_entry_keys(
                current.order(),
                current.held(),
                since,
            );
            &&& changes.len() == names.len()
            &&& forall|i: int|
                0 <= i < changes.len() ==> (#[trigger] changes[i]) == (
                    current.held()[names[i]].changed_at.0,
                    names[i],
                    current.held()[names[i]].value,
                )
        }),
    ensures
        replayed(base, changes) == current.held(),
{
    let order = current.order();
    let entries = current.held();
    let names = crate::ingredient::input::changed_entry_keys(order, entries, since);
    let out = replayed(base, changes);
    replayed_entries_are_listed(base, entries, names, changes);
    current.order_lists_keys();
    assert forall|k: Seq<u8>| #[trigger] out.contains_key(k) <==> entries.contains_key(k) by {
        changed_names_are_changed(order, entries, since, k);
        assert(order.contains(k) <==> order.to_set().contains(k));
    }
    assert forall|k: Seq<u8>| #[trigger] out.contains_key(k) implies out[k] == entries[k] by {
        changed_names_are_changed(order, entries, since, k);
        assert(order.contains(k) <==> order.to_set().contains(k));
        assert(entries.contains_key(k));
    }
    assert(out =~= entries);
}

/// Whether `decode` gives back every value that `encode` encoded, with its id and with the
/// encoding `key_of` of the value.
pub open spec fn reads_back_values<
    K,
    F: Fn(InternId, &Arc<K>) -> PicanteResult<Vec<u8>>,
    G: Fn(&[u8]) -> PicanteResult<LoadedValue<K>>,
>(encode: F, decode: G, key_of: spec_fn(Arc<K>) -> Seq<u8>) -> bool {
    forall|id: u32, value: Arc<K>, bytes: Vec<u8>, out: PicanteResult<LoadedValue<K>>|
        #![trigger crate::ingredient::interned::value_encodes(encode, id, value, Ok(bytes)),
            crate::ingredient::derived::decodes(decode, bytes@, out)]
        crate::ingredient::interned::value_encodes(encode, id, value, Ok(bytes))
            && crate::ingredient::derived::decodes(decode, bytes@, out) ==> (out matches Ok(record)
            && record.id == InternId(id) && record.value == value && (record.key matches Ok(key)
            && key@ == key_of(value)))
}

/// Whether `records` are the values of a table as `encode` encoded them, listed by `ids`.
pub open spec fn saved_values<K, F: Fn(InternId, &Arc<K>) -> PicanteResult<Vec<u8>>>(
    encode: F,
    table: InternView<K>,
    ids: Seq<u32>,
    records: Seq<Vec<u8>>,
) -> bool {
    &&& crate::ingredient::interned::lists_ids(table, ids)
    &&& records.len() == ids.len()
    &&& forall|i: int|
        0 <= i < ids.len() ==> crate::ingredient::interned::value_encodes(
            encode,
            #[trigger] ids[i],
            table.values[ids[i]].1,
            Ok(records[i]),
        )
}

/// Whether each value of a table is filed under its encoding.
pub open spec fn keyed_by<K>(table: InternView<K>, key_of: spec_fn(Arc<K>) -> Seq<u8>) -> bool {
    forall|id: u32| #[trigger]
        table.values.contains_key(id) ==> table.values[id].0 == key_of(table.values[id].1)
}

spec fn is_value_of<K>(
    table: InternView<K>,
    id: u32,
    value: (InternId, Seq<u8>, Arc<K>),
) -> bool {
    &&& table.values.contains_key(id)
    &&& value.0 == InternId(id)
    &&& value.1 == table.values[id].0
    &&& value.2 == table.values[id].1
}

proof fn decoded_values_are_saved<
    K,
    F: Fn(InternId, &Arc<K>) -> PicanteResult<Vec<u8>>,
    G: Fn(&[u8]) -> PicanteResult<LoadedValue<K>>,
>(
    encode: F,
    decode: G,
    key_of: spec_fn(Arc<K>) -> Seq<u8>,
    table: InternView<K>,
    ids: Seq<u32>,
    records: Seq<Vec<u8>>,
    loaded: Seq<(InternId, Seq<u8>, Arc<K>)>,
    i: int,
)
    requires
        reads_back_values(encode, decode, key_of),
        keyed_by(table, key_of),
        saved_values(encode, table, ids, records),
        crate::ingredient::interned::decoded_prefix(decode, records, loaded),
        0 <= i < loaded.len(),
    ensures
        is_value_of(table, ids[i], loaded[i]),
{
    assert(ids.contains(ids[i]));
    assert(crate::ingredient::interned::decoded_as(decode, records[i]@, loaded[i]));
    let key = choose|key: Key|
        key@ == loaded[i].1 && #[trigger] crate::ingredient::derived::decodes(
            decode,
            records[i]@,
            Ok(LoadedValue { id: loaded[i].0, key: Ok(key), value: loaded[i].2 }),
        );
    assert(crate::ingredient::interned::value_encodes(
        encode,
        ids[i],
        table.values[ids[i]].1,
        Ok(records[i]),
    ));
}

proof fn filed_values_are_listed<K>(
    table: InternView<K>,
    ids: Seq<u32>,
    loaded: Seq<(InternId, Seq<u8>, Arc<K>)>,
)
    requires
        table.paired(),
        loaded.len() <= ids.len(),
        forall|i: int| 0 <= i < loaded.len() ==> is_value_of(table, ids[i], #[trigger] loaded[i]),
    ensures
        ({
            let filed = crate::ingredient::interned::filed_all(
                crate::ingredient::interned::no_values::<K>(),
                loaded,
            );
            &&& forall|id: u32| #[trigger]
                filed.values.contains_key(id) <==> ids.take(loaded.len() as int).contains(id)
            &&& forall|id: u32| #[trigger]
                filed.values.contains_key(id) ==> table.values.contains_key(id) && filed.values[id]
                    == table.values[id]
            &&& forall|k: Seq<u8>| #[trigger]
                filed.ids.contains_key(k) <==> table.ids.contains_key(k) && ids.take(
                    loaded.len() as int,
                ).contains(table.ids[k].0)
            &&& forall|k: Seq<u8>| #[trigger]
                filed.ids.contains_key(k) ==> filed.ids[k] == table.ids[k]
        }),
    decreases loaded.len(),
{
    let listed = ids.take(loaded.len() as int);
    if loaded.len() > 0 {
        let shorter = loaded.drop_last();
        let earlier = ids.take(shorter.len() as int);
        assert forall|i: int| 0 <= i < shorter.len() implies is_value_of(
            table,
            ids[i],
            #[trigger] shorter[i],
        ) by {
            assert(shorter[i] == loaded[i]);
        }
        filed_values_are_listed(table, ids, shorter);
        let before = crate::ingredient::interned::filed_all(
            crate::ingredient::interned::no_values::<K>(),
            shorter,
        );
        let after = crate::ingredient::interned::filed_all(
            crate::ingredient::interned::no_values::<K>(),
            loaded,
        );
        let n = loaded.len() - 1;
        let id = ids[n];
        let key = table.values[id].0;
        assert(is_value_of(table, id, loaded[n]));
        assert(listed =~= earlier.push(id));
        assert forall|x: u32| #[trigger] listed.contains(x) <==> earlier.contains(x) || x == id by {
            if earlier.contains(x) {
                let i = choose|i: int| 0 <= i < earlier.len() && earlier[i] == x;
                assert(listed[i] == x);
            }
            if listed.contains(x) && x != id {
                let i = choose|i: int| 0 <= i < listed.len() && listed[i] == x;
                assert(earlier[i] == x);
            }
            if x == id {
                assert(listed[n] == x);
            }
        }
        assert(table.ids.contains_key(key) && table.ids[key] == InternId(id));
        assert forall|x: u32| #[trigger] after.values.contains_key(x) <==> listed.contains(x) by {
            assert(before.values.contains_key(x) <==> earlier.contains(x));
        }
        assert forall|x: u32| #[trigger] after.values.contains_key(x) implies
            table.values.contains_key(x) && after.values[x] == table.values[x] by {
            if x != id {
                assert(before.values.contains_key(x));
            }
        }
        assert forall|k: Seq<u8>| #[trigger]
            after.ids.contains_key(k) <==> table.ids.contains_key(k) && listed.contains(
                table.ids[k].0,
            ) by {
            assert(before.ids.contains_key(k) <==> table.ids.contains_key(k) && earlier.contains(
                table.ids[k].0,
            ));
            if table.ids.contains_key(k) && table.ids[k].0 == id {
                assert(table.values[id].0 == k);
            }
        }
        assert forall|k: Seq<u8>| #[trigger] after.ids.contains_key(k) implies after.ids[k]
            == table.ids[k] by {
            if k != key {
                assert(before.ids.contains_key(k));
            }
        }
    } else {
        assert(listed =~= Seq::empty());
    }
}

/// What was saved of an interned ingredient is loaded again: no record is refused, and the loaded
/// table has the same values under the same ids.
pub proof fn saved_interned_values_are_loaded<
    K,
    F: Fn(InternId, &Arc<K>) -> PicanteResult<Vec<u8>>,
    G: Fn(&[u8]) -> PicanteResult<LoadedValue<K>>,
>(
    encode: F,
    decode: G,
    key_of: spec_fn(Arc<K>) -> Seq<u8>,
    table: InternView<K>,
    ids: Seq<u32>,
    records: Seq<Vec<u8>>,
    loaded: Seq<(InternId, Seq<u8>, Arc<K>)>,
)
    requires
        reads_back_values(encode, decode, key_of),
        table.paired(),
        keyed_by(table, key_of),
        saved_values(encode, table, ids, records),
        crate::ingredient::interned::decoded_prefix(decode, records, loaded),
    ensures
        loaded.len() == records.len() ==> {
            let filed = crate::ingredient::interned::filed_all(
                crate::ingredient::interned::no_values::<K>(),
                loaded,
            );
            filed.ids == table.ids && filed.values == table.values
        },
        loaded.len() < records.len() ==> forall|
            next: PicanteResult<LoadedValue<K>>,
            name: Seq<char>,
            error: Arc<PicanteError>,
            left: InternView<K>,
        |
            crate::ingredient::derived::decodes(decode, records[loaded.len() as int]@, next)
                ==> !#[trigger] crate::ingredient::interned::load_refused(
                loaded,
                next,
                name,
                error,
                left,
            ),
{
    assert forall|i: int| 0 <= i < loaded.len() implies is_value_of(
        table,
        ids[i],
        #[trigger] loaded[i],
    ) by {
        decoded_values_are_saved(encode, decode, key_of, table, ids, records, loaded, i);
    }
    filed_values_are_listed(table, ids, loaded);
    let filed = crate::ingredient::interned::filed_all(
        crate::ingredient::interned::no_values::<K>(),
        loaded,
    );
    let listed = ids.take(loaded.len() as int);
    if loaded.len() == records.len() {
        assert(listed =~= ids);
        assert forall|id: u32| #[trigger]
            filed.values.contains_key(id) <==> table.values.contains_key(id) by {
            assert(ids.contains(id) <==> table.values.contains_key(id));
        }
        assert(filed.values =~= table.values);
        assert forall|k: Seq<u8>| #[trigger]
            filed.ids.contains_key(k) <==> table.ids.contains_key(k) by {
            if table.ids.contains_key(k) {
                assert(ids.contains(table.ids[k].0));
            }
        }
        assert(filed.ids =~= table.ids);
    } else {
        let n = loaded.len() as int;
        let id = ids[n];
        assert(ids.contains(id));
        assert(!listed.contains(id)) by {
            if listed.contains(id) {
                let i = choose|i: int| 0 <= i < listed.len() && listed[i] == id;
                assert(ids[i] == id);
            }
        }
        let key = table.values[id].0;
        assert(table.ids[key] == InternId(id));
        assert(!filed.values.contains_key(id));
        assert(!filed.ids.contains_key(key));
        assert forall|
            next: PicanteResult<LoadedValue<K>>,
            name: Seq<char>,
            error: Arc<PicanteError>,
            left: InternView<K>,
        |
            crate::ingredient::derived::decodes(decode, records[n]@, next) implies !#[trigger]
        crate::ingredient::interned::load_refused(loaded, next, name, error, left) by {
            assert(crate::ingredient::interned::value_encodes(
                encode,
                ids[n],
                table.values[ids[n]].1,
                Ok(records[n]),
            ));
        }
    }
}

} // verus!
