//! Laws over sequences of calls on input and interned ingredients.
use crate::error::PicanteResult;
#[allow(unused_imports)]
use crate::ingredient::input::Entries;
use crate::ingredient::input::InputIngredient;
#[allow(unused_imports)]
use crate::ingredient::interned::InternView;
use crate::ingredient::interned::InternId;
use crate::key::{Key, QueryKindId};
use crate::revision::Revision;
use crate::runtime::Runtime;
use std::sync::Arc;
use vstd::prelude::*;

verus! {

/// What a call on an input ingredient was for.
pub ghost enum InputChange<V> {
    /// A value was set.
    Written(V),
    /// The value was removed.
    Removed,
}

/// A call on an input ingredient, with the runtime before and after it and what it returned.
pub ghost struct InputCall<V> {
    /// The key, or why it could not be encoded.
    pub key: PicanteResult<Key>,
    /// What was asked for.
    pub change: InputChange<V>,
    /// The runtime before the call.
    pub runtime_before: Runtime,
    /// The runtime after the call.
    pub runtime_after: Runtime,
    /// What the call returned.
    pub returned: Revision,
}

/// Whether a call took the entries from `before` to `after`.
pub open spec fn called<V, F: Fn(&V, &V) -> bool>(
    before: Entries<V>,
    after: Entries<V>,
    kind: QueryKindId,
    same: F,
    call: InputCall<V>,
) -> bool {
    match call.change {
        InputChange::Written(value) => InputIngredient::<V>::was_set(
            before,
            after,
            call.runtime_before,
            call.runtime_after,
            kind,
            call.key,
            value,
            same,
            call.returned,
        ),
        InputChange::Removed => InputIngredient::<V>::was_removed(
            before,
            after,
            call.runtime_before,
            call.runtime_after,
            kind,
            call.key,
            call.returned,
        ),
    }
}

/// Whether `states` are the entries of a new ingredient before, between and after the calls.
pub open spec fn input_history<V, F: Fn(&V, &V) -> bool>(
    calls: Seq<InputCall<V>>,
    states: Seq<Entries<V>>,
    kind: QueryKindId,
    same: F,
) -> bool {
    &&& states.len() == calls.len() + 1
    &&& states[0] == Map::<Seq<u8>, crate::ingredient::input::InputEntry<Arc<V>>>::empty()
    &&& forall|i: int|
        0 <= i < calls.len() ==> called(states[i], states[i + 1], kind, same, #[trigger] calls[i])
}

/// What the last call for `key` asked for, if there was one.
pub open spec fn last_change<V>(calls: Seq<InputCall<V>>, key: Seq<u8>) -> Option<InputChange<V>>
    decreases calls.len(),
{
    if calls.len() == 0 {
        None
    } else {
        match calls.last().key {
            Ok(k) if k@ == key => Some(calls.last().change),
            _ => last_change(calls.drop_last(), key),
        }
    }
}

/// Whether `held` is what a key reads as after its last change: a value that `eq` equates with
/// the one that was set, or none where it was removed or never set.
pub open spec fn reads_as<V>(
    change: Option<InputChange<V>>,
    held: Option<Arc<V>>,
    eq: spec_fn(V, V) -> bool,
) -> bool {
    match change {
        Some(InputChange::Written(value)) => held matches Some(v) && eq(*v, value),
        _ => held is None,
    }
}

/// An input reads as it was last written. Over any calls on a new ingredient, a key has a value if
/// and only if its last call set one, and then a value equal to that one; calls for other keys do
/// not matter. `same` judges as the reflexive relation `eq` does.
pub proof fn input_reads_as_last_written<V, F: Fn(&V, &V) -> bool>(
    calls: Seq<InputCall<V>>,
    states: Seq<Entries<V>>,
    kind: QueryKindId,
    same: F,
    eq: spec_fn(V, V) -> bool,
    key: Seq<u8>,
)
    requires
        forall|a: V, b: V, verdict: bool| #[trigger]
            same.ensures((&a, &b), verdict) ==> verdict == eq(a, b),
        forall|a: V| #[trigger] eq(a, a),
        input_history(calls, states, kind, same),
    ensures
        reads_as(
            last_change(calls, key),
            crate::ingredient::input::value_at(states.last(), key),
            eq,
        ),
    decreases calls.len(),
{
    if calls.len() > 0 {
        let n = calls.len() - 1;
        let shorter = calls.drop_last();
        let earlier = states.drop_last();
        assert forall|i: int| 0 <= i < shorter.len() implies called(
            earlier[i],
            earlier[i + 1],
            kind,
            same,
            #[trigger] shorter[i],
        ) by {
            assert(shorter[i] == calls[i]);
        }
        input_reads_as_last_written(shorter, earlier, kind, same, eq, key);
        assert(earlier.last() == states[n]);
        assert(called(states[n], states[n + 1], kind, same, calls[n]));
    }
}

/// What touching an input reports: when it last changed.
pub open spec fn touched_at<V>(entries: Entries<V>, key: Seq<u8>) -> Revision {
    if entries.contains_key(key) {
        entries[key].changed_at
    } else {
        Revision(0)
    }
}

/// Whether the database never goes back to an earlier revision between the calls.
pub open spec fn revisions_go_on<V>(calls: Seq<InputCall<V>>) -> bool {
    forall|i: int, j: int|
        0 <= i < j < calls.len() ==> (#[trigger] calls[i]).runtime_after.revision().0 <= (
        #[trigger] calls[j]).runtime_before.revision().0
}

/// Touching an input reports the truth. Over any calls on a new ingredient, if an input is
/// reported not to have changed since the revision that the database was at before call `n`, then
/// it has the value that it had then.
pub proof fn input_touch_is_truthful<V, F: Fn(&V, &V) -> bool>(
    calls: Seq<InputCall<V>>,
    states: Seq<Entries<V>>,
    kind: QueryKindId,
    same: F,
    key: Seq<u8>,
    n: int,
)
    requires
        input_history(calls, states, kind, same),
        revisions_go_on(calls),
        0 <= n < calls.len(),
        touched_at(states.last(), key).0 <= calls[n].runtime_before.revision().0,
    ensures
        crate::ingredient::input::value_at(states.last(), key)
            == crate::ingredient::input::value_at(states[n], key),
    decreases calls.len(),
{
    let last = calls.len() - 1;
    assert(called(states[last], states[last + 1], kind, same, calls[last]));
    assert(called(states[n], states[n + 1], kind, same, calls[n]));
    if n < last {
        let shorter = calls.drop_last();
        let earlier = states.drop_last();
        assert(earlier.last() == states[last]);
        assert forall|i: int| 0 <= i < shorter.len() implies called(
            earlier[i],
            earlier[i + 1],
            kind,
            same,
            #[trigger] shorter[i],
        ) by {
            assert(shorter[i] == calls[i]);
        }
        assert(revisions_go_on(shorter)) by {
            assert forall|i: int, j: int| 0 <= i < j < shorter.len() implies (
            #[trigger] shorter[i]).runtime_after.revision().0 <= (
            #[trigger] shorter[j]).runtime_before.revision().0 by {
                assert(shorter[i] == calls[i]);
                assert(shorter[j] == calls[j]);
            }
        }
        assert(calls[n].runtime_after.revision().0 <= calls[last].runtime_before.revision().0);
        input_touch_is_truthful(shorter, earlier, kind, same, key, n);
    }
}

/// A call of `intern`: the encoding of the value, and the value.
pub type InternCall<K> = (Seq<u8>, Arc<K>);

/// The table of a new ingredient after several calls of `intern`.
pub open spec fn interned_all<K>(calls: Seq<InternCall<K>>) -> InternView<K>
    decreases calls.len(),
{
    if calls.len() == 0 {
        crate::ingredient::interned::no_values::<K>()
    } else {
        interned_all(calls.drop_last()).interned(calls.last().0, calls.last().1)
    }
}

/// The id that call `n` got.
pub open spec fn id_given<K>(calls: Seq<InternCall<K>>, n: int) -> InternId {
    interned_all(calls.take(n)).id_of(calls[n].0)
}

/// Whether a call got this id.
pub open spec fn was_given<K>(calls: Seq<InternCall<K>>, id: u32) -> bool {
    exists|n: int| 0 <= n < calls.len() && #[trigger] id_given(calls, n) == InternId(id)
}

/// Whether a value with this encoding is among the calls.
pub open spec fn was_used<K>(calls: Seq<InternCall<K>>, key: Seq<u8>) -> bool {
    exists|n: int| 0 <= n < calls.len() && (#[trigger] calls[n]).0 == key
}

/// The calls that were the first for their encoding, in order.
pub open spec fn first_uses<K>(calls: Seq<InternCall<K>>) -> Seq<InternCall<K>>
    decreases calls.len(),
{
    if calls.len() == 0 {
        Seq::empty()
    } else {
        let earlier = first_uses(calls.drop_last());
        if was_used(calls.drop_last(), calls.last().0) {
            earlier
        } else {
            earlier.push(calls.last())
        }
    }
}

/// What a table holds that numbers the first uses.
spec fn numbers<K>(calls: Seq<InternCall<K>>, table: InternView<K>) -> bool {
    let firsts = first_uses(calls);
    &&& firsts.len() <= u32::MAX ==> table.next == firsts.len()
    &&& forall|id: u32| #[trigger] table.values.contains_key(id) <==> id < firsts.len()
    &&& forall|id: u32| #[trigger]
        table.values.contains_key(id) ==> {
            &&& table.values[id] == firsts[id as int]
            &&& table.ids.contains_key(firsts[id as int].0)
            &&& table.ids[firsts[id as int].0] == InternId(id)
        }
    &&& forall|k: Seq<u8>| #[trigger] table.ids.contains_key(k) <==> was_used(calls, k)
    &&& forall|k: Seq<u8>| #[trigger]
        table.ids.contains_key(k) ==> table.values.contains_key(table.ids[k].0)
            && table.values[table.ids[k].0].0 == k
}

proof fn used_by_push<K>(calls: Seq<InternCall<K>>, key: Seq<u8>)
    requires
        calls.len() > 0,
    ensures
        was_used(calls, key) <==> was_used(calls.drop_last(), key) || calls.last().0 == key,
{
    let shorter = calls.drop_last();
    if was_used(shorter, key) {
        let n = choose|n: int| 0 <= n < shorter.len() && (#[trigger] shorter[n]).0 == key;
        assert(calls[n].0 == key);
    }
    if calls.last().0 == key {
        assert(calls[calls.len() - 1].0 == key);
    }
    if was_used(calls, key) && calls.last().0 != key {
        let n = choose|n: int| 0 <= n < calls.len() && (#[trigger] calls[n]).0 == key;
        assert(shorter[n].0 == key);
    }
}

proof fn interning_numbers<K>(calls: Seq<InternCall<K>>)
    requires
        first_uses(calls).len() <= u32::MAX,
    ensures
        numbers(calls, interned_all(calls)),
    decreases calls.len(),
{
    let table = interned_all(calls);
    if calls.len() > 0 {
        let shorter = calls.drop_last();
        interning_numbers(shorter);
        let before = interned_all(shorter);
        let earlier = first_uses(shorter);
        let firsts = first_uses(calls);
        let (key, value) = calls.last();
        assert forall|k: Seq<u8>| #[trigger] table.ids.contains_key(k) <==> was_used(calls, k) by {
            used_by_push(calls, k);
            assert(before.ids.contains_key(k) <==> was_used(shorter, k));
        }
        if !was_used(shorter, key) {
            assert(!before.ids.contains_key(key));
            assert(firsts == earlier.push((key, value)));
            assert forall|id: u32| #[trigger] table.values.contains_key(id) <==> id
                < firsts.len() by {
                assert(before.values.contains_key(id) <==> id < earlier.len());
            }
            assert forall|id: u32| #[trigger] table.values.contains_key(id) implies {
                &&& table.values[id] == firsts[id as int]
                &&& table.ids.contains_key(firsts[id as int].0)
                &&& table.ids[firsts[id as int].0] == InternId(id)
            } by {
                if id != before.next {
                    assert(before.values.contains_key(id));
                    assert(before.ids.contains_key(earlier[id as int].0));
                }
            }
            assert forall|k: Seq<u8>| #[trigger] table.ids.contains_key(k) implies
                table.values.contains_key(table.ids[k].0) && table.values[table.ids[k].0].0
                == k by {
                if k != key {
                    assert(before.ids.contains_key(k));
                }
            }
        }
    } else {
        assert forall|k: Seq<u8>| !was_used(calls, k) by {}
    }
}

proof fn ids_are_kept<K>(calls: Seq<InternCall<K>>, n: int, key: Seq<u8>)
    requires
        0 <= n <= calls.len(),
        interned_all(calls.take(n)).ids.contains_key(key),
    ensures
        interned_all(calls).ids.contains_key(key),
        interned_all(calls).ids[key] == interned_all(calls.take(n)).ids[key],
    decreases calls.len(),
{
    if n == calls.len() {
        assert(calls.take(n) =~= calls);
    } else {
        assert(calls.drop_last().take(n) =~= calls.take(n));
        ids_are_kept(calls.drop_last(), n, key);
    }
}

proof fn given_id_is_filed<K>(calls: Seq<InternCall<K>>, n: int)
    requires
        0 <= n < calls.len(),
    ensures
        interned_all(calls).ids.contains_key(calls[n].0),
        interned_all(calls).ids[calls[n].0] == id_given(calls, n),
{
    let upto = calls.take(n + 1);
    assert(upto.drop_last() =~= calls.take(n));
    assert(upto.last() == calls[n]);
    ids_are_kept(calls, n + 1, calls[n].0);
}

/// Interning over any calls on a new ingredient, with no more different values than there are ids:
/// two calls get the same id if and only if their values are encoded alike; the different values
/// get the ids 0, 1, 2 and so on, in the order of their first use; an id that a call got leads to
/// that first value ever after, so to the same value where the encoding tells values apart; and an
/// id that no call got leads nowhere.
pub proof fn ids_count_first_uses<K>(calls: Seq<InternCall<K>>)
    requires
        first_uses(calls).len() <= u32::MAX,
    ensures
        ({
            let table = interned_all(calls);
            let firsts = first_uses(calls);
            &&& forall|i: int, j: int|
                #![trigger id_given(calls, i), id_given(calls, j)]
                0 <= i < calls.len() && 0 <= j < calls.len() ==> (id_given(calls, i) == id_given(
                    calls,
                    j,
                ) <==> calls[i].0 == calls[j].0)
            &&& forall|n: int|
                0 <= n < calls.len() ==> {
                    let id = (#[trigger] id_given(calls, n)).0;
                    &&& id < firsts.len()
                    &&& firsts[id as int].0 == calls[n].0
                    &&& table.values.contains_key(id)
                    &&& table.values[id] == firsts[id as int]
                }
            &&& forall|id: u32| #[trigger]
                table.values.contains_key(id) <==> id < firsts.len()
            &&& forall|id: u32| #[trigger] table.values.contains_key(id) <==> was_given(calls, id)
        }),
        (forall|i: int, j: int|
            0 <= i < calls.len() && 0 <= j < calls.len() && (#[trigger] calls[i]).0 == (
            #[trigger] calls[j]).0 ==> calls[i].1 == calls[j].1) ==> forall|n: int|
            0 <= n < calls.len() ==> interned_all(calls).values[(#[trigger] id_given(
                calls,
                n,
            )).0].1 == calls[n].1,
{
    let table = interned_all(calls);
    let firsts = first_uses(calls);
    interning_numbers(calls);
    assert forall|n: int| 0 <= n < calls.len() implies {
        let id = (#[trigger] id_given(calls, n)).0;
        &&& id < firsts.len()
        &&& firsts[id as int].0 == calls[n].0
        &&& table.values.contains_key(id)
        &&& table.values[id] == firsts[id as int]
        &&& table.ids[calls[n].0] == id_given(calls, n)
    } by {
        given_id_is_filed(calls, n);
    }
    assert forall|id: u32| #[trigger] table.values.contains_key(id) <==> was_given(calls, id) by {
        if table.values.contains_key(id) {
            let key = firsts[id as int].0;
            assert(was_used(calls, key));
            let n = choose|n: int| 0 <= n < calls.len() && (#[trigger] calls[n]).0 == key;
            given_id_is_filed(calls, n);
            assert(id_given(calls, n) == InternId(id));
        }
        if was_given(calls, id) {
            let n = choose|n: int| 0 <= n < calls.len() && #[trigger] id_given(calls, n)
                == InternId(id);
            assert(table.values.contains_key(id_given(calls, n).0));
        }
    }
    if forall|i: int, j: int|
        0 <= i < calls.len() && 0 <= j < calls.len() && (#[trigger] calls[i]).0 == (
        #[trigger] calls[j]).0 ==> calls[i].1 == calls[j].1 {
        assert forall|n: int| 0 <= n < calls.len() implies table.values[(#[trigger] id_given(
            calls,
            n,
        )).0].1 == calls[n].1 by {
            let id = id_given(calls, n).0;
            first_use_is_a_call(calls, id as int);
        }
    }
}

proof fn first_use_is_a_call<K>(calls: Seq<InternCall<K>>, i: int)
    requires
        0 <= i < first_uses(calls).len(),
    ensures
        exists|n: int| 0 <= n < calls.len() && (#[trigger] calls[n]) == first_uses(calls)[i],
    decreases calls.len(),
{
    let shorter = calls.drop_last();
    if i < first_uses(shorter).len() {
        first_use_is_a_call(shorter, i);
        let n = choose|n: int|
            0 <= n < shorter.len() && (#[trigger] shorter[n]) == first_uses(shorter)[i];
        assert(calls[n] == first_uses(calls)[i]);
    } else {
        assert(calls[calls.len() - 1] == first_uses(calls)[i]);
    }
}

} // verus!
