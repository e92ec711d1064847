//! What is saved of an ingredient, and what is found in it once it was loaded.
use crate::error::{PicanteError, PicanteResult};
#[allow(unused_imports)]
use crate::frame::FrameView;
use crate::ingredient::derived::ErasedReadyRecord;
#[allow(unused_imports)]
use crate::ingredient::derived::{Cells, StateView};
#[allow(unused_imports)]
use crate::ingredient::input::Entries;
use crate::ingredient::input::{InputEntry, InputIngredient};
use crate::ingredient::interned::{InternId, LoadedValue};
#[allow(unused_imports)]
use crate::ingredient::interned::InternView;
use crate::key::{Dep, Key, QueryKindId};
#[allow(unused_imports)]
use crate::key::Node;
use crate::revision::Revision;
use crate::runtime::Runtime;
use std::sync::Arc;
use vstd::prelude::*;

verus! {

/// The results that are saved are all those that are ready, in the order of the cells.
pub proof fn ready_results_are_saved<V>(order: Seq<Seq<u8>>, cells: Cells<V>)
    ensures
        crate::ingredient::derived::ready_keys(order, cells) == order.filter(
            |k: Seq<u8>| cells.contains_key(k) && cells[k] is Ready,
        ),
    decreases order.len(),
{
    reveal(Seq::filter);
    if order.len() > 0 {
        ready_results_are_saved(order.drop_last(), cells);
    }
}

/// The results that are logged are all those that are ready and changed after the given revision, in
/// the order of the cells.
pub proof fn changed_results_are_logged<V>(order: Seq<Seq<u8>>, cells: Cells<V>, since: u64)
    ensures
        crate::ingredient::derived::changed_keys(order, cells, since) == order.filter(
            |k: Seq<u8>|
                cells.contains_key(k) && cells[k] is Ready && cells[k]->changed_at.0 > since,
        ),
    decreases order.len(),
{
    reveal(Seq::filter);
    if order.len() > 0 {
        changed_results_are_logged(order.drop_last(), cells, since);
    }
}

/// The inputs that are logged are all those that changed after the given revision, the removed ones
/// among them, in the order of the entries.
pub proof fn changed_inputs_are_logged<V>(order: Seq<Seq<u8>>, entries: Entries<V>, since: u64)
    ensures
        crate::ingredient::input::changed_entry_keys(order, entries, since) == order.filter(
            |k: Seq<u8>| entries[k].changed_at.0 > since,
        ),
    decreases order.len(),
{
    reveal(Seq::filter);
    if order.len() > 0 {
        changed_inputs_are_logged(order.drop_last(), entries, since);
    }
}

/// A deep snapshot holds exactly the ready cells, with everything in them.
pub proof fn deep_snapshots_hold_ready_cells<V>(cells: Cells<V>, key: Seq<u8>)
    ensures
        ({
            let kept = crate::ingredient::derived::ready_cells(cells);
            &&& kept.contains_key(key) <==> cells.contains_key(key) && cells[key] is Ready
            &&& kept.contains_key(key) ==> kept[key] == cells[key]
        }),
{
}

/// Whether a cell is ready with the given value, revisions and dependencies, and not known to have
/// been the same at every revision in between.
pub open spec fn is_ready_with<V>(
    state: StateView<V>,
    value: Arc<V>,
    verified: u64,
    changed: u64,
    reads: Seq<Dep>,
) -> bool {
    state matches StateView::Ready { value: v, verified_at, changed_at, settled, deps } && v == value
        && verified_at.0 == verified && changed_at.0 == changed && !settled && deps == reads
}

/// What comes back of the cells that were saved are exactly the ready ones, with their values,
/// revisions and dependencies.
pub proof fn recorded_cells_are_the_ready_ones<V>(cells: Cells<V>, key: Seq<u8>)
    ensures
        ({
            let kept = crate::ingredient::derived::recorded_cells(cells);
            &&& kept.contains_key(key) <==> cells.contains_key(key) && cells[key] is Ready
            &&& kept.contains_key(key) ==> (cells[key] matches StateView::Ready {
                value,
                verified_at,
                changed_at,
                deps,
                ..
            } && is_ready_with(kept[key], value, verified_at.0, changed_at.0, deps))
        }),
{
}

/// Of several records of one query the last that was loaded counts: its cell is ready, with the
/// value, the revisions and the dependencies of the record. The cell of a query without a record
/// stays.
pub proof fn last_record_counts<V>(
    cells: Cells<V>,
    loaded: Seq<(Key, ErasedReadyRecord<V>)>,
    key: Seq<u8>,
)
    ensures
        ({
            let filled = crate::ingredient::derived::filled(cells, loaded);
            &&& forall|i: int|
                0 <= i < loaded.len() && (#[trigger] loaded[i]).0@ == key && (forall|j: int|
                    i < j < loaded.len() ==> (#[trigger] loaded[j]).0@ != key) ==> {
                    &&& filled.contains_key(key)
                    &&& is_ready_with(
                        filled[key],
                        loaded[i].1.value,
                        loaded[i].1.verified_at.0,
                        loaded[i].1.changed_at.0,
                        loaded[i].1.deps@,
                    )
                }
            &&& (forall|i: int| 0 <= i < loaded.len() ==> (#[trigger] loaded[i]).0@ != key) ==> {
                &&& filled.contains_key(key) <==> cells.contains_key(key)
                &&& filled.contains_key(key) ==> filled[key] == cells[key]
            }
        }),
    decreases loaded.len(),
{
    if loaded.len() > 0 {
        let fewer = loaded.drop_last();
        last_record_counts(cells, fewer, key);
        let filled = crate::ingredient::derived::filled(cells, loaded);
        let before = crate::ingredient::derived::filled(cells, fewer);
        let last = loaded.len() - 1;
        assert forall|i: int|
            0 <= i < loaded.len() && (#[trigger] loaded[i]).0@ == key && (forall|j: int|
                i < j < loaded.len() ==> (#[trigger] loaded[j]).0@ != key) implies {
            &&& filled.contains_key(key)
            &&& is_ready_with(
                filled[key],
                loaded[i].1.value,
                loaded[i].1.verified_at.0,
                loaded[i].1.changed_at.0,
                loaded[i].1.deps@,
            )
        } by {
            if i < last {
                assert(loaded[last].0@ != key);
                assert(fewer[i] == loaded[i]);
                assert forall|j: int| i < j < fewer.len() implies (#[trigger] fewer[j]).0@ != key by {
                    assert(loaded[j].0@ != key);
                }
            }
        }
        if forall|i: int| 0 <= i < loaded.len() ==> (#[trigger] loaded[i]).0@ != key {
            assert(loaded[last].0@ != key);
            assert forall|i: int| 0 <= i < fewer.len() implies (#[trigger] fewer[i]).0@ != key by {
                assert(loaded[i].0@ != key);
            }
        }
    }
}

/// Of several entries of one input the last that was loaded counts. The entry of another input stays.
pub proof fn last_entry_counts<V>(
    entries: Entries<V>,
    loaded: Seq<(Key, InputEntry<Arc<V>>)>,
    key: Seq<u8>,
)
    ensures
        ({
            let filled = crate::ingredient::input::filled_entries(entries, loaded);
            &&& forall|i: int|
                0 <= i < loaded.len() && (#[trigger] loaded[i]).0@ == key && (forall|j: int|
                    i < j < loaded.len() ==> (#[trigger] loaded[j]).0@ != key) ==> {
                    &&& filled.contains_key(key)
                    &&& filled[key].value == loaded[i].1.value
                    &&& filled[key].changed_at == loaded[i].1.changed_at
                }
            &&& (forall|i: int| 0 <= i < loaded.len() ==> (#[trigger] loaded[i]).0@ != key) ==> {
                &&& filled.contains_key(key) <==> entries.contains_key(key)
                &&& filled.contains_key(key) ==> filled[key] == entries[key]
            }
        }),
    decreases loaded.len(),
{
    if loaded.len() > 0 {
        let fewer = loaded.drop_last();
        last_entry_counts(entries, fewer, key);
        let filled = crate::ingredient::input::filled_entries(entries, loaded);
        let last = loaded.len() - 1;
        assert forall|i: int|
            0 <= i < loaded.len() && (#[trigger] loaded[i]).0@ == key && (forall|j: int|
                i < j < loaded.len() ==> (#[trigger] loaded[j]).0@ != key) implies {
            &&& filled.contains_key(key)
            &&& filled[key].value == loaded[i].1.value
            &&& filled[key].changed_at == loaded[i].1.changed_at
        } by {
            if i < last {
                assert(loaded[last].0@ != key);
                assert(fewer[i] == loaded[i]);
                assert forall|j: int| i < j < fewer.len() implies (#[trigger] fewer[j]).0@ != key by {
                    assert(loaded[j].0@ != key);
                }
            }
        }
        if forall|i: int| 0 <= i < loaded.len() ==> (#[trigger] loaded[i]).0@ != key {
            assert(loaded[last].0@ != key);
            assert forall|i: int| 0 <= i < fewer.len() implies (#[trigger] fewer[i]).0@ != key by {
                assert(loaded[i].0@ != key);
            }
        }
    }
}

/// Restoring the graph gives each ready query of the kind exactly the dependencies in its record, in
/// order, and leaves every other query as it was.
pub proof fn restored_queries_have_their_dependencies<V>(
    forward: Map<Node, Seq<Node>>,
    kind: QueryKindId,
    cells: Cells<V>,
    node: Node,
)
    ensures
        ({
            let restored = crate::ingredient::derived::restored(forward, kind, cells);
            let ready = node.0 == kind.0 && cells.contains_key(node.1) && cells[node.1] is Ready;
            &&& ready ==> {
                let deps = cells[node.1]->deps;
                &&& restored.contains_key(node)
                &&& restored[node].len() == deps.len()
                &&& forall|i: int|
                    0 <= i < deps.len() ==> (#[trigger] restored[node][i]) == (
                        deps[i].kind.0,
                        deps[i].key@,
                    )
            }
            &&& !ready ==> {
                &&& restored.contains_key(node) <==> forward.contains_key(node)
                &&& restored.contains_key(node) ==> restored[node] == forward[node]
            }
        }),
{
}

/// The largest id among values that were loaded is one of theirs, and none is larger.
pub proof fn largest_id_is_found<K>(loaded: Seq<(InternId, Seq<u8>, Arc<K>)>)
    ensures
        ({
            let max = crate::ingredient::interned::max_id(loaded);
            &&& forall|i: int| 0 <= i < loaded.len() ==> (#[trigger] loaded[i]).0.0 <= max
            &&& loaded.len() > 0 ==> exists|i: int|
                0 <= i < loaded.len() && (#[trigger] loaded[i]).0.0 == max
            &&& loaded.len() == 0 ==> max == 0
        }),
    decreases loaded.len(),
{
    if loaded.len() > 0 {
        let fewer = loaded.drop_last();
        largest_id_is_found(fewer);
        let max = crate::ingredient::interned::max_id(loaded);
        let last = loaded.len() - 1;
        assert forall|i: int| 0 <= i < loaded.len() implies (#[trigger] loaded[i]).0.0 <= max by {
            if i < last {
                assert(fewer[i].0.0 <= crate::ingredient::interned::max_id(fewer));
            }
        }
        if loaded[last].0.0 != max {
            assert(fewer.len() > 0);
            let i = choose|i: int|
                0 <= i < fewer.len() && (#[trigger] fewer[i]).0.0
                    == crate::ingredient::interned::max_id(fewer);
            assert(loaded[i].0.0 == max);
        }
    }
}

/// Values with different ids and different keys are all found once they were loaded, by their ids and
/// by their keys, and nothing else is.
pub proof fn loaded_values_are_found<K>(loaded: Seq<(InternId, Seq<u8>, Arc<K>)>)
    requires
        forall|i: int, j: int|
            0 <= i < j < loaded.len() ==> (#[trigger] loaded[i]).0 != (#[trigger] loaded[j]).0
                && loaded[i].1 != loaded[j].1,
    ensures
        ({
            let table = crate::ingredient::interned::filed_all(
                crate::ingredient::interned::no_values::<K>(),
                loaded,
            );
            &&& forall|i: int|
                0 <= i < loaded.len() ==> {
                    let (id, key, value) = #[trigger] loaded[i];
                    &&& table.ids.contains_key(key)
                    &&& table.ids[key] == id
                    &&& table.values.contains_key(id.0)
                    &&& table.values[id.0] == (key, value)
                }
            &&& forall|key: Seq<u8>| #[trigger]
                table.ids.contains_key(key) ==> exists|i: int|
                    0 <= i < loaded.len() && (#[trigger] loaded[i]).1 == key
            &&& forall|id: u32| #[trigger]
                table.values.contains_key(id) ==> exists|i: int|
                    0 <= i < loaded.len() && (#[trigger] loaded[i]).0.0 == id
        }),
    decreases loaded.len(),
{
    if loaded.len() > 0 {
        let fewer = loaded.drop_last();
        let last = loaded.len() - 1;
        assert forall|i: int, j: int| 0 <= i < j < fewer.len() implies (#[trigger] fewer[i]).0 != (
        #[trigger] fewer[j]).0 && fewer[i].1 != fewer[j].1 by {
            assert(loaded[i].0 != loaded[j].0 && loaded[i].1 != loaded[j].1);
        }
        loaded_values_are_found(fewer);
        let none = crate::ingredient::interned::no_values::<K>();
        let before = crate::ingredient::interned::filed_all(none, fewer);
        let table = crate::ingredient::interned::filed_all(none, loaded);
        assert forall|i: int| 0 <= i < loaded.len() implies {
            let (id, key, value) = #[trigger] loaded[i];
            &&& table.ids.contains_key(key)
            &&& table.ids[key] == id
            &&& table.values.contains_key(id.0)
            &&& table.values[id.0] == (key, value)
        } by {
            if i < last {
                assert(fewer[i] == loaded[i]);
                assert(loaded[i].0 != loaded[last].0 && loaded[i].1 != loaded[last].1);
            }
        }
        assert forall|key: Seq<u8>| #[trigger] table.ids.contains_key(key) implies exists|i: int|
            0 <= i < loaded.len() && (#[trigger] loaded[i]).1 == key by {
            if key != loaded[last].1 {
                assert(before.ids.contains_key(key));
                let i = choose|i: int| 0 <= i < fewer.len() && (#[trigger] fewer[i]).1 == key;
                assert(loaded[i].1 == key);
            }
        }
        assert forall|id: u32| #[trigger] table.values.contains_key(id) implies exists|i: int|
            0 <= i < loaded.len() && (#[trigger] loaded[i]).0.0 == id by {
            if id != loaded[last].0.0 {
                assert(before.values.contains_key(id));
                let i = choose|i: int| 0 <= i < fewer.len() && (#[trigger] fewer[i]).0.0 == id;
                assert(loaded[i].0.0 == id);
            }
        }
    }
}

/// Each result that is logged is told with the revision at which it changed and the record itself:
/// one for each ready result that changed after the given revision, in the order of the cells.
pub proof fn logged_results_are_told<
    V,
    F: Fn(&[u8], &ErasedReadyRecord<V>) -> PicanteResult<(Vec<u8>, Vec<u8>)>,
>(
    order: Seq<Seq<u8>>,
    cells: Cells<V>,
    since: u64,
    encode: F,
    changes: Vec<(u64, Vec<u8>, Option<Vec<u8>>)>,
)
    requires
        crate::ingredient::derived::results_logged(order, cells, since, encode, Ok(changes)),
    ensures
        ({
            let keys = order.filter(
                |k: Seq<u8>|
                    cells.contains_key(k) && cells[k] is Ready && cells[k]->changed_at.0 > since,
            );
            &&& changes@.len() == keys.len()
            &&& forall|i: int|
                0 <= i < keys.len() ==> {
                    &&& (#[trigger] changes@[i]).2 is Some
                    &&& changes@[i].0 > since
                    &&& cells[keys[i]] matches StateView::Ready { changed_at, .. }
                        && changed_at.0 == changes@[i].0
                    &&& crate::ingredient::derived::encodes(
                        encode,
                        keys[i],
                        cells[keys[i]],
                        Ok((changes@[i].1, changes@[i].2->0)),
                    )
                }
        }),
{
    changed_results_are_logged(order, cells, since);
    let p = |k: Seq<u8>|
        cells.contains_key(k) && cells[k] is Ready && cells[k]->changed_at.0 > since;
    let keys = crate::ingredient::derived::changed_keys(order, cells, since);
    assert forall|i: int| 0 <= i < keys.len() implies {
        &&& (#[trigger] changes@[i]).2 is Some
        &&& changes@[i].0 > since
        &&& cells[keys[i]] matches StateView::Ready { changed_at, .. } && changed_at.0
            == changes@[i].0
        &&& crate::ingredient::derived::encodes(
            encode,
            keys[i],
            cells[keys[i]],
            Ok((changes@[i].1, changes@[i].2->0)),
        )
    } by {
        broadcast use vstd::seq_lib::group_filter_ensures;

        assert(p(order.filter(p)[i]));
        assert(keys[i] == order.filter(p)[i]);
    }
}

/// Each ready result is saved with the record itself, in the order of the cells.
pub proof fn saved_results_are_told<
    V,
    F: Fn(&[u8], &ErasedReadyRecord<V>) -> PicanteResult<Vec<u8>>,
>(order: Seq<Seq<u8>>, cells: Cells<V>, encode: F, records: Vec<Vec<u8>>)
    requires
        crate::ingredient::derived::results_saved(order, cells, encode, Ok(records)),
    ensures
        ({
            let keys = order.filter(|k: Seq<u8>| cells.contains_key(k) && cells[k] is Ready);
            &&& records@.len() == keys.len()
            &&& forall|i: int|
                0 <= i < keys.len() ==> crate::ingredient::derived::encodes(
                    encode,
                    keys[i],
                    cells[keys[i]],
                    Ok(#[trigger] records@[i]),
                )
        }),
{
    ready_results_are_saved(order, cells);
    let p = |k: Seq<u8>| cells.contains_key(k) && cells[k] is Ready;
    let keys = crate::ingredient::derived::ready_keys(order, cells);
    assert forall|i: int| 0 <= i < keys.len() implies crate::ingredient::derived::encodes(
        encode,
        keys[i],
        cells[keys[i]],
        Ok(#[trigger] records@[i]),
    ) by {
        broadcast use vstd::seq_lib::group_filter_ensures;

        assert(p(order.filter(p)[i]));
        assert(keys[i] == order.filter(p)[i]);
    }
}

/// Each input that is logged is told with the revision at which it changed and the entry itself: one
/// for each input that changed after the given revision, in the order of the entries.
pub proof fn logged_inputs_are_told<
    V,
    F: Fn(&[u8], &InputEntry<Arc<V>>) -> PicanteResult<(Vec<u8>, Option<Vec<u8>>)>,
>(
    order: Seq<Seq<u8>>,
    entries: Entries<V>,
    since: u64,
    encode: F,
    changes: Vec<(u64, Vec<u8>, Option<Vec<u8>>)>,
)
    requires
        crate::ingredient::input::entries_logged(order, entries, since, encode, Ok(changes)),
    ensures
        ({
            let keys = order.filter(|k: Seq<u8>| entries[k].changed_at.0 > since);
            &&& changes@.len() == keys.len()
            &&& forall|i: int|
                0 <= i < keys.len() ==> {
                    &&& (#[trigger] changes@[i]).0 == entries[keys[i]].changed_at.0
                    &&& changes@[i].0 > since
                    &&& crate::ingredient::input::entry_encodes(
                        encode,
                        keys[i],
                        entries[keys[i]],
                        Ok((changes@[i].1, changes@[i].2)),
                    )
                }
        }),
{
    changed_inputs_are_logged(order, entries, since);
    let p = |k: Seq<u8>| entries[k].changed_at.0 > since;
    let keys = crate::ingredient::input::changed_entry_keys(order, entries, since);
    assert forall|i: int| 0 <= i < keys.len() implies {
        &&& (#[trigger] changes@[i]).0 == entries[keys[i]].changed_at.0
        &&& changes@[i].0 > since
        &&& crate::ingredient::input::entry_encodes(
            encode,
            keys[i],
            entries[keys[i]],
            Ok((changes@[i].1, changes@[i].2)),
        )
    } by {
        broadcast use vstd::seq_lib::group_filter_ensures;

        assert(p(order.filter(p)[i]));
        assert(keys[i] == order.filter(p)[i]);
    }
}

/// Each input is saved with the entry itself, whether it has a value or was removed.
pub proof fn saved_inputs_are_told<V, F: Fn(&[u8], &InputEntry<Arc<V>>) -> PicanteResult<Vec<u8>>>(
    order: Seq<Seq<u8>>,
    entries: Entries<V>,
    encode: F,
    records: Vec<Vec<u8>>,
)
    requires
        crate::ingredient::input::entries_saved(order, entries, encode, Ok(records)),
    ensures
        records@.len() == order.len(),
        forall|i: int|
            0 <= i < order.len() ==> crate::ingredient::input::entry_encodes(
                encode,
                order[i],
                entries[order[i]],
                Ok(#[trigger] records@[i]),
            ),
{
    assert forall|i: int| 0 <= i < order.len() implies crate::ingredient::input::entry_encodes(
        encode,
        order[i],
        entries[order[i]],
        Ok(#[trigger] records@[i]),
    ) by {
        assert(order[i] == order[i]);
    }
}

/// A value from the log is found by its id and by its key, beside all the others that keep theirs,
/// and no id that is given out later is taken already: the next one is the old one, or the one behind
/// the value's where that is further on.
pub proof fn logged_values_are_found<K>(
    table: InternView<K>,
    id: InternId,
    key: Seq<u8>,
    value: Arc<K>,
)
    ensures
        ({
            let after = table.replayed(Some((id, key, value)));
            &&& after.ids.contains_key(key)
            &&& after.ids[key] == id
            &&& after.values.contains_key(id.0)
            &&& after.values[id.0] == (key, value)
            &&& forall|k: Seq<u8>|
                k != key ==> (#[trigger] after.ids.contains_key(k) <==> table.ids.contains_key(k))
                    && (after.ids.contains_key(k) ==> after.ids[k] == table.ids[k])
            &&& forall|i: u32|
                i != id.0 ==> (#[trigger] after.values.contains_key(i)
                    <==> table.values.contains_key(i)) && (after.values.contains_key(i)
                    ==> after.values[i] == table.values[i])
            &&& after.next >= table.next
            &&& id.0 < u32::MAX ==> after.next > id.0
            &&& after.next == table.next || after.next == id.0 + 1 || id.0 == u32::MAX
        }),
        table.replayed(None) == table,
{
}

/// An input that is set to a value that is judged equal to the one it has stays as it is, and so does
/// the database; the revision at which it changed is returned. Otherwise, also where it has no value
/// or was removed, it has the new value from then on, as changed at the next revision, which is
/// returned. Every other input stays.
pub proof fn set_inputs_are_filed<V, F: Fn(&V, &V) -> bool>(
    before: Entries<V>,
    after: Entries<V>,
    runtime_before: Runtime,
    runtime_after: Runtime,
    kind: QueryKindId,
    key: Key,
    value: V,
    same: F,
    r: Revision,
)
    requires
        InputIngredient::<V>::was_set(
            before,
            after,
            runtime_before,
            runtime_after,
            kind,
            Ok(key),
            value,
            same,
            r,
        ),
    ensures
        ({
            let held = before.contains_key(key@) && before[key@].value is Some;
            let equal = held && !same.ensures((&*before[key@].value->0, &value), false);
            let different = !held || !same.ensures((&*before[key@].value->0, &value), true);
            &&& equal ==> r == before[key@].changed_at && after == before && runtime_after
                == runtime_before
            &&& different ==> {
                &&& r.0 == runtime_before.revision().0 + 1
                &&& runtime_after.revision() == r
                &&& after.contains_key(key@)
                &&& after[key@].value == Some(Arc::new(value))
                &&& after[key@].changed_at == r
            }
            &&& forall|k: Seq<u8>|
                k != key@ ==> (#[trigger] after.contains_key(k) <==> before.contains_key(k)) && (
                after.contains_key(k) ==> after[k] == before[k])
        }),
{
}

/// An input that is removed has no value from then on, and counts as changed at the next revision,
/// which is returned. One that has no value stays as it is, and so does the database; the revision at
/// which it changed is returned, or the first where it never did. Every other input stays.
pub proof fn removed_inputs_are_filed<V>(
    before: Entries<V>,
    after: Entries<V>,
    runtime_before: Runtime,
    runtime_after: Runtime,
    kind: QueryKindId,
    key: Key,
    r: Revision,
)
    requires
        InputIngredient::<V>::was_removed(
            before,
            after,
            runtime_before,
            runtime_after,
            kind,
            Ok(key),
            r,
        ),
    ensures
        ({
            let held = before.contains_key(key@) && before[key@].value is Some;
            &&& held ==> {
                &&& r.0 == runtime_before.revision().0 + 1
                &&& runtime_after.revision() == r
                &&& after.contains_key(key@)
                &&& after[key@].value is None
                &&& after[key@].changed_at == r
            }
            &&& !held ==> {
                &&& after == before
                &&& runtime_after == runtime_before
                &&& before.contains_key(key@) ==> r == before[key@].changed_at
                &&& !before.contains_key(key@) ==> r.0 == 0
            }
            &&& forall|k: Seq<u8>|
                k != key@ ==> (#[trigger] after.contains_key(k) <==> before.contains_key(k)) && (
                after.contains_key(k) ==> after[k] == before[k])
        }),
{
}

/// An input whose key cannot be encoded is not set or removed, and nothing changes.
pub proof fn inputs_without_keys_stay<V, F: Fn(&V, &V) -> bool>(
    before: Entries<V>,
    after: Entries<V>,
    runtime_before: Runtime,
    runtime_after: Runtime,
    kind: QueryKindId,
    error: Arc<PicanteError>,
    value: V,
    same: F,
    r: Revision,
)
    requires
        InputIngredient::<V>::was_set(
            before,
            after,
            runtime_before,
            runtime_after,
            kind,
            Err(error),
            value,
            same,
            r,
        ) || InputIngredient::<V>::was_removed(
            before,
            after,
            runtime_before,
            runtime_after,
            kind,
            Err(error),
            r,
        ),
    ensures
        r.0 == 0,
        after == before,
        runtime_after == runtime_before,
{
}

/// Whether a stack is another with one more dependency in its innermost frame, which leads to a kind
/// and a key.
pub open spec fn recorded_once(
    stack: Seq<FrameView>,
    stack_after: Seq<FrameView>,
    kind: QueryKindId,
    key: Seq<u8>,
) -> bool {
    let last = stack.len() - 1;
    let before = stack[last].recorded;
    let after = stack_after[last].recorded;
    &&& stack_after.len() == stack.len()
    &&& forall|i: int| 0 <= i < last ==> (#[trigger] stack_after[i]) == stack[i]
    &&& stack_after[last].query == stack[last].query
    &&& stack_after[last].start == stack[last].start
    &&& after.len() == before.len() + 1
    &&& after.take(before.len() as int) == before
    &&& after[before.len() as int].kind == kind
    &&& after[before.len() as int].key@ == key
}

proof fn dependencies_are_recorded_once(stack: Seq<FrameView>, dep: Dep)
    requires
        stack.len() > 0,
    ensures
        recorded_once(stack, crate::frame::with_dep(stack, dep), dep.kind, dep.key@),
{
    let after = crate::frame::with_dep(stack, dep);
    let last = stack.len() - 1;
    let before = stack[last].recorded;
    assert(after[last].recorded.take(before.len() as int) =~= before);
}

/// Reading an input gives the value it has, if it has one, and records it once as the last dependency
/// of the query that runs, whether it has a value or not. Where none runs, nothing is recorded. An
/// input whose key cannot be encoded is an error.
pub proof fn read_inputs_are_recorded<V>(
    entries: Entries<V>,
    kind: QueryKindId,
    stack: Seq<FrameView>,
    stack_after: Seq<FrameView>,
    key: PicanteResult<Key>,
    r: PicanteResult<Option<Arc<V>>>,
)
    requires
        crate::ingredient::input::was_read(entries, kind, stack, stack_after, key, r),
    ensures
        r is Err <==> key is Err,
        stack.len() == 0 || key is Err ==> stack_after == stack,
        key matches Err(error) ==> (r matches Err(told) && told == error),
        key matches Ok(key) ==> {
            &&& r matches Ok(found) && match found {
                Some(value) => entries.contains_key(key@) && entries[key@].value == Some(value),
                None => !entries.contains_key(key@) || entries[key@].value is None,
            }
            &&& stack.len() > 0 ==> recorded_once(stack, stack_after, kind, key@)
        },
{
    if let Ok(key) = key {
        if stack.len() > 0 {
            dependencies_are_recorded_once(stack, Dep { kind, key });
        }
    }
}

/// Reading an interned value gives the value with the id, or an error that names the id where there is
/// none, and records the id once as the last dependency of the query that runs. Where none runs,
/// nothing is recorded.
pub proof fn read_values_are_recorded<K>(
    table: InternView<K>,
    kind: QueryKindId,
    stack: Seq<FrameView>,
    stack_after: Seq<FrameView>,
    id: InternId,
    r: PicanteResult<Arc<K>>,
)
    requires
        crate::ingredient::interned::value_was_read(table, kind, stack, stack_after, id, r),
    ensures
        table.values.contains_key(id.0) ==> (r matches Ok(value) && value
            == table.values[id.0].1),
        !table.values.contains_key(id.0) ==> (r matches Err(error)
            && *error matches PicanteError::MissingInternedValue { kind: of, id: missing } && of
            == kind && missing == id.0),
        stack.len() == 0 ==> stack_after == stack,
        stack.len() > 0 ==> recorded_once(
            stack,
            stack_after,
            kind,
            crate::postcard::varint(id.0 as nat),
        ),
{
    if stack.len() > 0 {
        let dep = choose|dep: Dep|
            {
                &&& dep.kind == kind
                &&& dep.key@ == crate::postcard::varint(id.0 as nat)
                &&& stack_after == #[trigger] crate::frame::with_dep(stack, dep)
            };
        dependencies_are_recorded_once(stack, dep);
    }
}

/// Whether a record is the last of its query.
pub open spec fn is_last_of_its_query<T>(loaded: Seq<(Key, T)>, i: int) -> bool {
    forall|j: int| i < j < loaded.len() ==> (#[trigger] loaded[j]).0@ != loaded[i].0@
}

/// All records are loaded: where loading succeeds, each record was decoded, and what was decoded last
/// for a query is what its cell holds; where it fails, the error is that of a record that could not be
/// decoded.
pub proof fn all_results_are_loaded<
    V,
    F: Fn(&[u8]) -> PicanteResult<(Key, ErasedReadyRecord<V>)>,
>(
    before: Cells<V>,
    after: Cells<V>,
    records: Seq<Vec<u8>>,
    decode: F,
    r: PicanteResult<()>,
)
    requires
        crate::ingredient::derived::results_loaded(before, after, records, decode, r),
    ensures
        r is Ok ==> exists|loaded: Seq<(Key, ErasedReadyRecord<V>)>|
            {
                &&& #[trigger] loaded.len() == records.len()
                &&& forall|i: int|
                    0 <= i < loaded.len() ==> crate::ingredient::derived::decodes(
                        decode,
                        records[i]@,
                        Ok(#[trigger] loaded[i]),
                    )
                &&& forall|i: int|
                    0 <= i < loaded.len() && #[trigger] is_last_of_its_query(loaded, i) ==> {
                        &&& after.contains_key(loaded[i].0@)
                        &&& is_ready_with(
                            after[loaded[i].0@],
                            loaded[i].1.value,
                            loaded[i].1.verified_at.0,
                            loaded[i].1.changed_at.0,
                            loaded[i].1.deps@,
                        )
                    }
            },
        r matches Err(error) ==> exists|n: int|
            0 <= n < records.len() && crate::ingredient::derived::decodes(
                decode,
                (#[trigger] records[n])@,
                Err::<(Key, ErasedReadyRecord<V>), Arc<PicanteError>>(error),
            ),
{
    let loaded = choose|loaded: Seq<(Key, ErasedReadyRecord<V>)>|
        {
            &&& after == #[trigger] crate::ingredient::derived::filled(before, loaded)
            &&& loaded.len() <= records.len()
            &&& forall|i: int|
                0 <= i < loaded.len() ==> crate::ingredient::derived::decodes(
                    decode,
                    records[i]@,
                    Ok(#[trigger] loaded[i]),
                )
            &&& match r {
                Ok(_) => loaded.len() == records.len(),
                Err(error) => loaded.len() < records.len() && crate::ingredient::derived::decodes(
                    decode,
                    records[loaded.len() as int]@,
                    Err(error),
                ),
            }
        };
    if r is Ok {
        assert(loaded.len() == records.len());
        assert forall|i: int|
            0 <= i < loaded.len() && #[trigger] is_last_of_its_query(loaded, i) implies {
            &&& after.contains_key(loaded[i].0@)
            &&& is_ready_with(
                after[loaded[i].0@],
                loaded[i].1.value,
                loaded[i].1.verified_at.0,
                loaded[i].1.changed_at.0,
                loaded[i].1.deps@,
            )
        } by {
            last_record_counts(before, loaded, loaded[i].0@);
        }
    } else {
        assert(records[loaded.len() as int] == records[loaded.len() as int]);
    }
}

/// All inputs are loaded: where loading succeeds, each record was decoded, and what was decoded last
/// for an input is its entry; where it fails, the error is that of a record that could not be decoded.
pub proof fn all_inputs_are_loaded<V, F: Fn(&[u8]) -> PicanteResult<(Key, InputEntry<Arc<V>>)>>(
    before: Entries<V>,
    after: Entries<V>,
    records: Seq<Vec<u8>>,
    decode: F,
    r: PicanteResult<()>,
)
    requires
        crate::ingredient::input::entries_loaded(before, after, records, decode, r),
    ensures
        r is Ok ==> exists|loaded: Seq<(Key, InputEntry<Arc<V>>)>|
            {
                &&& #[trigger] loaded.len() == records.len()
                &&& forall|i: int|
                    0 <= i < loaded.len() ==> crate::ingredient::derived::decodes(
                        decode,
                        records[i]@,
                        Ok(#[trigger] loaded[i]),
                    )
                &&& forall|i: int|
                    0 <= i < loaded.len() && #[trigger] is_last_of_its_query(loaded, i) ==> {
                        &&& after.contains_key(loaded[i].0@)
                        &&& after[loaded[i].0@].value == loaded[i].1.value
                        &&& after[loaded[i].0@].changed_at == loaded[i].1.changed_at
                    }
            },
        r matches Err(error) ==> exists|n: int|
            0 <= n < records.len() && crate::ingredient::derived::decodes(
                decode,
                (#[trigger] records[n])@,
                Err::<(Key, InputEntry<Arc<V>>), Arc<PicanteError>>(error),
            ),
{
    let loaded = choose|loaded: Seq<(Key, InputEntry<Arc<V>>)>|
        {
            &&& after == #[trigger] crate::ingredient::input::filled_entries(before, loaded)
            &&& loaded.len() <= records.len()
            &&& forall|i: int|
                0 <= i < loaded.len() ==> crate::ingredient::derived::decodes(
                    decode,
                    records[i]@,
                    Ok(#[trigger] loaded[i]),
                )
            &&& match r {
                Ok(_) => loaded.len() == records.len(),
                Err(error) => loaded.len() < records.len() && crate::ingredient::derived::decodes(
                    decode,
                    records[loaded.len() as int]@,
                    Err(error),
                ),
            }
        };
    if r is Ok {
        assert(loaded.len() == records.len());
        assert forall|i: int|
            0 <= i < loaded.len() && #[trigger] is_last_of_its_query(loaded, i) implies {
            &&& after.contains_key(loaded[i].0@)
            &&& after[loaded[i].0@].value == loaded[i].1.value
            &&& after[loaded[i].0@].changed_at == loaded[i].1.changed_at
        } by {
            last_entry_counts(before, loaded, loaded[i].0@);
        }
    } else {
        assert(records[loaded.len() as int] == records[loaded.len() as int]);
    }
}

/// Whether a decoder makes a value with an id and a key of some bytes.
pub open spec fn decodes_value<K, F: Fn(&[u8]) -> PicanteResult<LoadedValue<K>>>(
    decode: F,
    bytes: Seq<u8>,
    id: InternId,
    key: Seq<u8>,
    value: Arc<K>,
) -> bool {
    exists|k: Key|
        k@ == key && #[trigger] crate::ingredient::derived::decodes(
            decode,
            bytes,
            Ok(LoadedValue { id, key: Ok(k), value }),
        )
}

/// All interned values are loaded: where loading succeeds, each record was decoded to a value, no two
/// of them with the same id or the same key, each is found by both, and every id that is given out
/// later is larger than theirs.
pub proof fn all_values_are_loaded<K, F: Fn(&[u8]) -> PicanteResult<LoadedValue<K>>>(
    table: InternView<K>,
    name: Seq<char>,
    records: Seq<Vec<u8>>,
    decode: F,
)
    requires
        crate::ingredient::interned::values_loaded(table, name, records, decode, Ok(())),
    ensures
        exists|loaded: Seq<(InternId, Seq<u8>, Arc<K>)>|
            {
                &&& #[trigger] loaded.len() == records.len()
                &&& forall|i: int|
                    0 <= i < loaded.len() ==> {
                        let (id, key, value) = #[trigger] loaded[i];
                        &&& decodes_value(decode, records[i]@, id, key, value)
                        &&& table.ids.contains_key(key)
                        &&& table.ids[key] == id
                        &&& table.values.contains_key(id.0)
                        &&& table.values[id.0] == (key, value)
                        &&& id.0 < u32::MAX ==> id.0 < table.next
                    }
                &&& forall|i: int, j: int|
                    0 <= i < j < loaded.len() ==> (#[trigger] loaded[i]).0 != (
                    #[trigger] loaded[j]).0 && loaded[i].1 != loaded[j].1
            },
        forall|id: u32| #[trigger]
            table.values.contains_key(id) ==> table.ids.contains_key(table.values[id].0),
        table.next > 0,
{
    let loaded = choose|loaded: Seq<(InternId, Seq<u8>, Arc<K>)>|
        {
            &&& #[trigger] crate::ingredient::interned::decoded_prefix(decode, records, loaded)
            &&& crate::ingredient::interned::all_distinct(loaded)
            &&& loaded.len() == records.len()
            &&& table == (InternView {
                next: u32::saturating_add(crate::ingredient::interned::max_id(loaded), 1),
                ..crate::ingredient::interned::filed_all(
                    crate::ingredient::interned::no_values::<K>(),
                    loaded,
                )
            })
        };
    assert(loaded.len() == records.len());
    assert forall|i: int, j: int| 0 <= i < j < loaded.len() implies (#[trigger] loaded[i]).0 != (
    #[trigger] loaded[j]).0 && loaded[i].1 != loaded[j].1 by {}
    loaded_values_are_found(loaded);
    largest_id_is_found(loaded);
    assert forall|i: int| 0 <= i < loaded.len() implies {
        let (id, key, value) = #[trigger] loaded[i];
        &&& decodes_value(decode, records[i]@, id, key, value)
        &&& id.0 < u32::MAX ==> id.0 < table.next
    } by {
        assert(crate::ingredient::interned::decoded_as(decode, records[i]@, loaded[i]));
        let (id, key, value) = loaded[i];
        let k = choose|k: Key|
            k@ == loaded[i].1 && #[trigger] crate::ingredient::derived::decodes(
                decode,
                records[i]@,
                Ok(LoadedValue { id: loaded[i].0, key: Ok(k), value: loaded[i].2 }),
            );
        assert(crate::ingredient::derived::decodes(
            decode,
            records[i]@,
            Ok(LoadedValue { id, key: Ok(k), value }),
        ));
    }
    assert forall|id: u32| #[trigger] table.values.contains_key(id) implies table.ids.contains_key(
        table.values[id].0,
    ) by {
        let i = choose|i: int| 0 <= i < loaded.len() && (#[trigger] loaded[i]).0.0 == id;
        assert(table.values[id] == (loaded[i].1, loaded[i].2));
    }
}

} // verus!
