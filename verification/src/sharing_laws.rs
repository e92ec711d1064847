//! Laws over sequences of calls on the shared cache and the registry of computations.
#[allow(unused_imports)]
use crate::inflight::{CacheView, RecordView, Records};
use crate::inflight::{
    InFlightGuard, InFlightKey, InFlightRegistry, SharedCacheRecord, TryLeadResult,
};
use crate::key::{Key, QueryKindId};
use crate::runtime::RuntimeId;
use std::sync::Arc;
use vstd::prelude::*;

verus! {

/// A `put` into the cache: the name, the record and the limit in force.
pub type Put<V> = (Seq<u8>, RecordView<V>, usize);

/// The cache after several puts.
pub open spec fn all_put<V>(start: CacheView<V>, puts: Seq<Put<V>>) -> CacheView<V>
    decreases puts.len(),
{
    if puts.len() == 0 {
        start
    } else {
        let last = puts.last();
        all_put(start, puts.drop_last()).put(last.0, last.1, last.2)
    }
}

/// Which of several puts was the last for `name`.
pub open spec fn last_put<V>(puts: Seq<Put<V>>, name: Seq<u8>) -> Option<int>
    decreases puts.len(),
{
    if puts.len() == 0 {
        None
    } else if puts.last().0 == name {
        Some(puts.len() - 1)
    } else {
        last_put(puts.drop_last(), name)
    }
}

/// A cache that has just been made or cleared.
pub open spec fn is_cleared<V>(cache: CacheView<V>) -> bool {
    cache.held.dom() == Set::<Seq<u8>>::empty() && cache.insertions.len() == 0
}

/// The record that a put files when it is the `i`th since the cache was cleared.
pub open spec fn filed_by<V>(start: CacheView<V>, puts: Seq<Put<V>>, i: int) -> RecordView<V> {
    RecordView { insert_id: (start.next_id + i) as u64, ..puts[i].1 }
}

/// What puts leave behind: the queue lists the later ones of them, and a name is held if and only
/// if its last put is still queued.
spec fn queues_later<V>(start: CacheView<V>, puts: Seq<Put<V>>, cache: CacheView<V>) -> bool {
    let dropped = puts.len() - cache.insertions.len();
    &&& cache.sound()
    &&& cache.next_id == start.next_id + puts.len()
    &&& 0 <= dropped
    &&& forall|i: int|
        0 <= i < cache.insertions.len() ==> #[trigger] cache.insertions[i] == (
            puts[dropped + i].0,
            (start.next_id + dropped + i) as u64,
        )
    &&& forall|k: Seq<u8>| #[trigger]
        cache.held.contains_key(k) <==> (last_put(puts, k) matches Some(i) && i >= dropped)
    &&& forall|k: Seq<u8>| #[trigger]
        cache.held.contains_key(k) ==> cache.held[k] == filed_by(
            start,
            puts,
            last_put(puts, k)->0,
        )
}

proof fn last_put_is_there<V>(puts: Seq<Put<V>>, name: Seq<u8>)
    ensures
        last_put(puts, name) matches Some(i) ==> 0 <= i < puts.len() && puts[i].0 == name,
        last_put(puts, name) matches None ==> forall|i: int|
            0 <= i < puts.len() ==> (#[trigger] puts[i]).0 != name,
        last_put(puts, name) matches Some(i) ==> forall|j: int|
            i < j < puts.len() ==> (#[trigger] puts[j]).0 != name,
    decreases puts.len(),
{
    if puts.len() > 0 && puts.last().0 != name {
        let shorter = puts.drop_last();
        last_put_is_there(shorter, name);
        match last_put(shorter, name) {
            Some(i) => {
                assert(shorter[i] == puts[i]);
                assert forall|j: int| i < j < puts.len() implies (#[trigger] puts[j]).0 != name by {
                    if j < shorter.len() {
                        assert(shorter[j] == puts[j]);
                    }
                }
            },
            None => {
                assert forall|j: int| 0 <= j < puts.len() implies (#[trigger] puts[j]).0
                    != name by {
                    if j < shorter.len() {
                        assert(shorter[j] == puts[j]);
                    }
                }
            },
        }
    }
}

proof fn puts_queue_later<V>(start: CacheView<V>, puts: Seq<Put<V>>)
    requires
        is_cleared(start),
        start.next_id + puts.len() <= u64::MAX,
    ensures
        queues_later(start, puts, all_put(start, puts)),
    decreases puts.len(),
{
    let cache = all_put(start, puts);
    if puts.len() == 0 {
        assert forall|k: Seq<u8>| !#[trigger] cache.held.contains_key(k) by {
            assert(!cache.held.dom().contains(k));
        }
    } else {
        let shorter = puts.drop_last();
        puts_queue_later(start, shorter);
        let before = all_put(start, shorter);
        let (name, record, max) = puts.last();
        let n = shorter.len() as int;
        let id = before.next_id;
        let queue = before.insertions.push((name, id));
        let others = before.held.remove(name);
        let room = crate::inflight::room_for_others(max);
        let dropped_before = n - before.insertions.len();
        let dropped = puts.len() - cache.insertions.len();
        assert(cache == before.put(name, record, max));
        crate::inflight::put_respects_limit(before, name, record, max);
        assert forall|k: Seq<u8>| #[trigger] others.contains_key(k) implies queue.contains(
            (k, others[k].insert_id),
        ) by {
            assert(before.held.contains_key(k));
            let e = (k, before.held[k].insert_id);
            assert(before.insertions.contains(e));
            let i = choose|i: int| 0 <= i < before.insertions.len() && before.insertions[i] == e;
            assert(queue[i] == e);
        }
        crate::inflight::evict_keeps_fresh_records(others, queue, room);
        let gone = (queue.len() - cache.insertions.len()) as int;
        assert(cache.insertions == queue.skip(gone));
        assert(dropped == dropped_before + gone);
        assert forall|i: int| 0 <= i < queue.len() implies #[trigger] queue[i] == (
            puts[dropped_before + i].0,
            (start.next_id + dropped_before + i) as u64,
        ) by {
            if i < before.insertions.len() {
                assert(queue[i] == before.insertions[i]);
                assert(shorter[dropped_before + i] == puts[dropped_before + i]);
            }
        }
        assert forall|i: int| 0 <= i < cache.insertions.len() implies #[trigger]
            cache.insertions[i] == (
            puts[dropped + i].0,
            (start.next_id + dropped + i) as u64,
        ) by {
            assert(cache.insertions[i] == queue[gone + i]);
        }
        assert(cache.held[name] == filed_by(start, puts, n));
        assert(dropped <= n) by {
            let e = (name, cache.held[name].insert_id);
            assert(cache.held.contains_key(name));
            assert(cache.insertions.contains(e));
        }
        assert forall|k: Seq<u8>| #[trigger]
            cache.held.contains_key(k) <==> (last_put(puts, k) matches Some(i) && i >= dropped) by {
            last_put_is_there(puts, k);
            last_put_is_there(shorter, k);
            if k != name {
                assert(before.held.contains_key(k) <==> (last_put(shorter, k) matches Some(i) && i
                    >= dropped_before));
                if cache.held.contains_key(k) {
                    assert(before.held.contains_key(k));
                    let i = last_put(shorter, k)->0;
                    let e = (k, cache.held[k].insert_id);
                    assert(cache.insertions.contains(e));
                    let j = choose|j: int|
                        0 <= j < cache.insertions.len() && cache.insertions[j] == e;
                    assert(e.1 == start.next_id + i);
                    assert(e.1 == start.next_id + dropped + j);
                } else if before.held.contains_key(k) {
                    let i = last_put(shorter, k)->0;
                    let e = (k, before.held[k].insert_id);
                    assert(others.contains_key(k));
                    assert(queue.take(gone).contains(e));
                    let j = choose|j: int| 0 <= j < gone && queue.take(gone)[j] == e;
                    assert(queue[j] == e);
                    assert(e.1 == start.next_id + i);
                    assert(e.1 == start.next_id + dropped_before + j);
                }
            }
        }
        assert forall|k: Seq<u8>| #[trigger] cache.held.contains_key(k) implies cache.held[k]
            == filed_by(start, puts, last_put(puts, k)->0) by {
            last_put_is_there(shorter, k);
            if k != name {
                assert(before.held.contains_key(k));
                let i = last_put(shorter, k)->0;
                assert(shorter[i] == puts[i]);
            }
        }
    }
}

/// The cache over any puts since it was cleared (fewer than there are insertion ids). The last put
/// is found with what it stored; its insertion id is larger than that of every put before it; what
/// is held is the last put of its name; and eviction is oldest first: every name that is held was
/// last put after every name that was evicted. No more is held than the last limit allows.
pub proof fn puts_evict_oldest_first<V>(start: CacheView<V>, puts: Seq<Put<V>>)
    requires
        is_cleared(start),
        puts.len() > 0,
        start.next_id + puts.len() <= u64::MAX,
    ensures
        ({
            let cache = all_put(start, puts);
            &&& cache.held.contains_key(puts.last().0)
            &&& cache.held[puts.last().0] == filed_by(start, puts, puts.len() - 1)
            &&& forall|k: Seq<u8>| #[trigger]
                cache.held.contains_key(k) ==> (last_put(puts, k) matches Some(i)
                    && cache.held[k] == filed_by(start, puts, i))
            &&& forall|i: int, j: int|
                #![trigger filed_by(start, puts, i), filed_by(start, puts, j)]
                0 <= i < j < puts.len() ==> filed_by(start, puts, i).insert_id < filed_by(
                    start,
                    puts,
                    j,
                ).insert_id
            &&& forall|k: Seq<u8>, gone: Seq<u8>|
                #![trigger cache.held.contains_key(k), cache.held.contains_key(gone)]
                cache.held.contains_key(k) && !cache.held.contains_key(gone) && last_put(
                    puts,
                    gone,
                ) is Some ==> last_put(puts, k)->0 > last_put(puts, gone)->0
            &&& puts.last().2 >= 1 ==> cache.held.dom().len() <= puts.last().2
            &&& puts.last().2 == 0 ==> cache.held.dom().len() == 1
        }),
{
    let shorter = puts.drop_last();
    let last = puts.last();
    puts_queue_later(start, puts);
    puts_queue_later(start, shorter);
    crate::inflight::put_respects_limit(all_put(start, shorter), last.0, last.1, last.2);
}

/// Whether two keys stand for the same computation.
pub open spec fn same_flight(a: InFlightKey, b: InFlightKey) -> bool {
    a.runtime_id == b.runtime_id && a.revision == b.revision && a.kind == b.kind && a.key@ == b.key@
}

/// A call on the registry, with what came of it.
pub ghost enum FlightEvent<E> {
    /// Someone tried to lead a computation.
    Asked { key: InFlightKey, fresh: Arc<E>, result: TryLeadResult<E> },
    /// A guard was given up: its computation completed, failed or was cancelled.
    Finished { guard: InFlightGuard },
}

/// Whether a call took the registry from `before` to `after`.
pub open spec fn happened<E>(
    before: InFlightRegistry<E>,
    after: InFlightRegistry<E>,
    event: FlightEvent<E>,
) -> bool {
    match event {
        FlightEvent::Asked { key, fresh, result } => InFlightRegistry::led(
            &before,
            &after,
            key,
            fresh,
            result,
        ),
        FlightEvent::Finished { guard } => after.running() == before.running().remove(
            guard.of().name(),
        ),
    }
}

/// Whether `states` are the states of a new registry before, between and after the calls.
pub open spec fn flight_history<E>(
    events: Seq<FlightEvent<E>>,
    states: Seq<InFlightRegistry<E>>,
) -> bool {
    &&& states.len() == events.len() + 1
    &&& states[0].running() == Map::<Seq<u8>, Arc<E>>::empty()
    &&& forall|i: int|
        0 <= i < events.len() ==> happened(states[i], states[i + 1], #[trigger] events[i])
}

/// The entry of the computation, where a guard for it is alive: one was handed out, and has not
/// been given up since.
pub open spec fn alive<E>(events: Seq<FlightEvent<E>>, key: InFlightKey) -> Option<Arc<E>>
    decreases events.len(),
{
    if events.len() == 0 {
        None
    } else {
        let earlier = alive(events.drop_last(), key);
        match events.last() {
            FlightEvent::Asked { key: asked, fresh, result } => if same_flight(asked, key)
                && result is Leader {
                Some(fresh)
            } else {
                earlier
            },
            FlightEvent::Finished { guard } => if same_flight(guard.of(), key) {
                None
            } else {
                earlier
            },
        }
    }
}

proof fn same_flight_same_name(a: InFlightKey, b: InFlightKey)
    ensures
        a.name() == b.name() <==> same_flight(a, b),
{
    if a.name() == b.name() {
        crate::inflight::flight_name_injective(
            a.runtime_id,
            a.revision,
            (a.kind.0, a.key@),
            b.runtime_id,
            b.revision,
            (b.kind.0, b.key@),
        );
    }
}

proof fn running_are_alive<E>(
    events: Seq<FlightEvent<E>>,
    states: Seq<InFlightRegistry<E>>,
    key: InFlightKey,
)
    requires
        flight_history(events, states),
    ensures
        states.last().running().contains_key(key.name()) <==> alive(events, key) is Some,
        alive(events, key) matches Some(entry) ==> states.last().running()[key.name()] == entry,
    decreases events.len(),
{
    if events.len() > 0 {
        let n = events.len() - 1;
        let shorter = events.drop_last();
        let earlier = states.drop_last();
        assert forall|i: int| 0 <= i < shorter.len() implies happened(
            earlier[i],
            earlier[i + 1],
            #[trigger] shorter[i],
        ) by {
            assert(shorter[i] == events[i]);
        }
        running_are_alive(shorter, earlier, key);
        assert(earlier.last() == states[n]);
        assert(happened(states[n], states[n + 1], events[n]));
        match events.last() {
            FlightEvent::Asked { key: asked, .. } => {
                same_flight_same_name(asked, key);
            },
            FlightEvent::Finished { guard } => {
                same_flight_same_name(guard.of(), key);
            },
        }
    }
}

/// The registry over any calls since it was made: a call leads if and only if no guard for the
/// same computation is alive. Otherwise it follows, and gets the entry of the one that is.
pub proof fn leads_iff_no_guard_is_alive<E>(
    events: Seq<FlightEvent<E>>,
    states: Seq<InFlightRegistry<E>>,
    after: InFlightRegistry<E>,
    key: InFlightKey,
    fresh: Arc<E>,
    result: TryLeadResult<E>,
)
    requires
        flight_history(events, states),
        InFlightRegistry::led(&states.last(), &after, key, fresh, result),
    ensures
        result is Leader <==> alive(events, key) is None,
        result matches TryLeadResult::Leader(guard) ==> guard.of() == key,
        result matches TryLeadResult::Follower(entry) ==> alive(events, key) == Some(entry),
{
    running_are_alive(events, states, key);
}

proof fn eviction_stops_in_time<V>(records: Records<V>, order: Seq<(Seq<u8>, u64)>, max: nat)
    requires
        records.dom().finite(),
    ensures
        crate::inflight::evict(records, order, max).0.dom().len() >= (if records.dom().len() <= max {
            records.dom().len()
        } else {
            max
        }),
        records.dom().len() <= max ==> crate::inflight::evict(records, order, max).0 == records,
    decreases order.len(),
{
    if records.dom().len() > max && order.len() > 0 {
        let (name, id) = order[0];
        let left = if records.contains_key(name) && records[name].insert_id == id {
            records.remove(name)
        } else {
            records
        };
        if records.contains_key(name) {
            assert(records.remove(name).dom() =~= records.dom().remove(name));
        }
        eviction_stops_in_time(left, order.drop_first(), max);
    }
}

/// Nothing is evicted while there is room: a new record pushes out only as many others as the limit
/// asks for, and none where they fit beside it.
pub proof fn records_stay_while_there_is_room<V>(
    before: CacheView<V>,
    name: Seq<u8>,
    record: RecordView<V>,
    max: usize,
)
    requires
        before.sound(),
    ensures
        ({
            let others = before.held.remove(name).dom().len();
            let held = before.put(name, record, max).held;
            &&& others + 1 <= max ==> forall|k: Seq<u8>|
                before.held.contains_key(k) && k != name ==> (#[trigger] held.contains_key(k))
                    && held[k] == before.held[k]
            &&& others + 1 > max && max >= 1 ==> held.dom().len() == max
            &&& held.contains_key(name)
            &&& held[name].value == record.value
            &&& held[name].deps == record.deps
            &&& held[name].changed_at == record.changed_at
            &&& held[name].verified_at == record.verified_at
            &&& held[name].settled == record.settled
        }),
{
    let rest = before.held.remove(name);
    let order = before.insertions.push((name, before.next_id));
    let room = crate::inflight::room_for_others(max);
    assert(rest.dom() =~= before.held.dom().remove(name));
    eviction_stops_in_time(rest, order, room);
    crate::inflight::evict_only_drops(rest, order, room);
    crate::inflight::put_respects_limit(before, name, record, max);
    let left = crate::inflight::evict(rest, order, room).0;
    let held = before.put(name, record, max).held;
    assert(held.dom() =~= left.dom().insert(name));
    assert(left.submap_of(rest));
    assert(!left.contains_key(name)) by {
        if left.contains_key(name) {
            assert(left.dom().contains(name));
            assert(rest.dom().contains(name));
        }
    }
    assert(left.dom().subset_of(rest.dom()));
    vstd::set_lib::lemma_len_subset(left.dom(), rest.dom());
    if rest.dom().len() + 1 <= max {
        assert forall|k: Seq<u8>| before.held.contains_key(k) && k != name implies (
        #[trigger] held.contains_key(k)) && held[k] == before.held[k] by {
            assert(rest.contains_key(k));
        }
    }
}

/// The limit that was set counts, whatever the environment says; otherwise what the environment asks
/// for; and otherwise the default.
pub proof fn set_limits_count<V>(cache: CacheView<V>, env: Option<usize>)
    ensures
        cache.limit.1 ==> cache.limit_in_force(env) == cache.limit.0,
        !cache.limit.1 && env is None ==> cache.limit_in_force(env) == cache.limit.0,
        !cache.limit.1 ==> (env matches Some(n) ==> cache.limit_in_force(env) == n),
{
}

/// What was put is found: the record of a query that was just put comes back with its value, its
/// dependencies and its revisions, under the identity of the database and the query's kind and key. A
/// record of another query, or of another database, that is found is one that was there before.
pub proof fn put_records_are_found<V>(
    before: CacheView<V>,
    id: RuntimeId,
    kind: QueryKindId,
    key: Key,
    record: SharedCacheRecord<V>,
    max: usize,
    other_id: RuntimeId,
    other_kind: QueryKindId,
    other_key: Key,
    r: Option<SharedCacheRecord<V>>,
)
    requires
        before.sound(),
        crate::inflight::found_in(
            before.put(crate::inflight::shared_name(id, (kind.0, key@)), record@, max),
            other_id,
            other_kind,
            other_key,
            r,
        ),
    ensures
        other_id == id && other_kind == kind && other_key@ == key@ ==> (r matches Some(found)
            && found.value == record.value && found.deps@ == record.deps@ && found.changed_at
            == record.changed_at && found.verified_at == record.verified_at && found.settled
            == record.settled),
        !(other_id == id && other_kind == kind && other_key@ == key@) ==> (r matches Some(found)
            ==> crate::inflight::found_in(before, other_id, other_kind, other_key, Some(found))),
{
    let name = crate::inflight::shared_name(id, (kind.0, key@));
    let other = crate::inflight::shared_name(other_id, (other_kind.0, other_key@));
    crate::inflight::put_respects_limit(before, name, record@, max);
    if name == other {
        crate::inflight::shared_name_injective(
            id,
            (kind.0, key@),
            other_id,
            (other_kind.0, other_key@),
        );
    }
}

} // verus!
