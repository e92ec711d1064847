//! Sharing between the views of a database cannot be observed.
//!
//! A view is the database itself or a snapshot of it that nobody has changed: it stands at a
//! revision of the database, and has its identity. The views file completed results in one cache,
//! and follow each other's computations. A snapshot that is changed goes its own way, under an
//! identity of its own, and is a database like any other from then on.
#[allow(unused_imports)]
use crate::inflight::{CacheView, FlightView, RecordView};
use crate::inflight::InFlightState;
use crate::ingredient::access::AccessEvent;
#[allow(unused_imports)]
use crate::ingredient::access::{Ask, PhaseView, World};
#[allow(unused_imports)]
use crate::ingredient::derived::{Cells, StateView};
#[allow(unused_imports)]
use crate::ingredient::value_laws::{History, Shown};
use crate::key::Dep;
#[allow(unused_imports)]
use crate::key::Node;
use crate::runtime::RuntimeId;
use std::sync::Arc;
use vstd::prelude::*;

verus! {

/// Whether every record that is held for a query under an identity is the query's result as of the
/// revision at which the record was last known to be valid.
pub open spec fn cache_is_true<V, T>(
    h: History<T>,
    shown: Shown<V, T>,
    id: RuntimeId,
    cache: CacheView<V>,
) -> bool {
    forall|query: Node| #[trigger]
        cache.held.contains_key(crate::inflight::shared_name(id, query))
            ==> crate::ingredient::value_laws::record_is_true(
            h,
            shown,
            query,
            cache.held[crate::inflight::shared_name(id, query)],
        )
}

/// Whether `mine` is the history of a view that stands at revision `at` of the database with history
/// `h`: up to then all values are the database's, and so is, before then, what was looked at. As of
/// `at` itself, the view looks at what it is asked for, and the database at what that is asked for.
pub open spec fn is_view_of<T>(mine: History<T>, h: History<T>, at: nat) -> bool {
    &&& forall|node: Node, rev: nat|
        #![trigger mine.value_of(node, rev)]
        #![trigger h.value_of(node, rev)]
        rev <= at ==> mine.value_of(node, rev) == h.value_of(node, rev)
    &&& forall|node: Node, rev: nat|
        #![trigger mine.reads_of(node, rev)]
        #![trigger h.reads_of(node, rev)]
        rev <= at ==> mine.reads_of(node, rev) == h.reads_of(node, rev)
    &&& forall|node: Node, rev: nat|
        #![trigger mine.looked_at(node, rev)]
        #![trigger h.looked_at(node, rev)]
        rev < at ==> mine.looked_at(node, rev) == h.looked_at(node, rev)
}

/// A database is a view of itself, at whatever revision it stands.
pub proof fn database_is_a_view_of_itself<T>(h: History<T>, at: nat)
    ensures
        is_view_of(h, h, at),
{
}

/// Whether a query is the same function in two databases, as of a revision: if all that it reads in
/// one of them has the same value in the other, it reads the same there and has the same value.
pub open spec fn runs_alike<T>(one: History<T>, other: History<T>, query: Node, at: nat) -> bool {
    (forall|i: int|
        0 <= i < one.reads_of(query, at).len() ==> one.value_of(
            #[trigger] one.reads_of(query, at)[i],
            at,
        ) == other.value_of(one.reads_of(query, at)[i], at)) ==> {
        &&& one.value_of(query, at) == other.value_of(query, at)
        &&& one.reads_of(query, at) == other.reads_of(query, at)
    }
}

/// Equal inputs give equal values: if two databases hold the same inputs and interned values as of a
/// revision, and run the same queries, none of which reads itself by whatever detour, then all
/// queries have the same values and read the same in both. So views that stand under the same
/// identity and at the same revision have the same values.
pub proof fn equal_inputs_give_equal_values<T>(
    one: History<T>,
    other: History<T>,
    is_query: spec_fn(Node) -> bool,
    depth: spec_fn(Node) -> nat,
    node: Node,
    at: nat,
)
    requires
        forall|source: Node|
            !is_query(source) ==> #[trigger] one.value_of(source, at) == other.value_of(source, at),
        forall|query: Node| #[trigger] is_query(query) ==> runs_alike(one, other, query, at),
        forall|query: Node, i: int|
            is_query(query) && 0 <= i < one.reads_of(query, at).len() ==> depth(
                #[trigger] one.reads_of(query, at)[i],
            ) < depth(query),
    ensures
        one.value_of(node, at) == other.value_of(node, at),
        is_query(node) ==> one.reads_of(node, at) == other.reads_of(node, at),
    decreases depth(node),
{
    if is_query(node) {
        assert forall|i: int| 0 <= i < one.reads_of(node, at).len() implies one.value_of(
            #[trigger] one.reads_of(node, at)[i],
            at,
        ) == other.value_of(one.reads_of(node, at)[i], at) by {
            equal_inputs_give_equal_values(
                one,
                other,
                is_query,
                depth,
                one.reads_of(node, at)[i],
                at,
            );
        }
        assert(runs_alike(one, other, node, at));
    }
}

/// A result is a result for all views alike: what a view finds to be a query's result as of a
/// revision up to its own is the database's result as of that revision, and the other way round.
pub proof fn results_are_alike<V, T>(
    mine: History<T>,
    h: History<T>,
    shown: Shown<V, T>,
    query: Node,
    value: Arc<V>,
    deps: Seq<Dep>,
    changed_at: nat,
    rev: nat,
    at: nat,
)
    requires
        is_view_of(mine, h, at),
        rev <= at,
    ensures
        crate::ingredient::value_laws::is_result(
            mine,
            shown,
            query,
            value,
            deps,
            changed_at,
            rev,
        ) == crate::ingredient::value_laws::is_result(
            h,
            shown,
            query,
            value,
            deps,
            changed_at,
            rev,
        ),
        mine.settled(query, changed_at, rev) == h.settled(query, changed_at, rev),
{
    assert(mine.value_of(query, rev) == h.value_of(query, rev));
    assert(mine.settled(query, changed_at, rev) == h.settled(query, changed_at, rev)) by {
        assert forall|seen: nat| changed_at <= seen <= rev implies #[trigger] mine.value_of(
            query,
            seen,
        ) == h.value_of(query, seen) by {}
        if mine.settled(query, changed_at, rev) {
            assert forall|seen: nat| changed_at <= seen <= rev implies #[trigger] h.value_of(
                query,
                seen,
            ) == h.value_of(query, rev) by {
                assert(mine.value_of(query, seen) == mine.value_of(query, rev));
            }
        }
        if h.settled(query, changed_at, rev) {
            assert forall|seen: nat| changed_at <= seen <= rev implies #[trigger] mine.value_of(
                query,
                seen,
            ) == mine.value_of(query, rev) by {
                assert(h.value_of(query, seen) == h.value_of(query, rev));
            }
        }
    }
    if mine.steady(query, changed_at, rev) {
        assert forall|seen: nat| #[trigger]
            h.looked_at(query, seen) && changed_at <= seen <= rev implies h.value_of(query, seen)
            == h.value_of(query, rev) by {
            assert(mine.value_of(query, seen) == h.value_of(query, seen));
            if seen < rev {
                assert(mine.looked_at(query, seen));
            }
        }
    }
    if h.steady(query, changed_at, rev) {
        assert forall|seen: nat| #[trigger]
            mine.looked_at(query, seen) && changed_at <= seen <= rev implies mine.value_of(
            query,
            seen,
        ) == mine.value_of(query, rev) by {
            assert(mine.value_of(query, seen) == h.value_of(query, seen));
            if seen < rev {
                assert(h.looked_at(query, seen));
            }
        }
    }
}

/// Sharing between views cannot be observed. Let `h` be the history of a database and `mine` that of
/// one of its views, and let the access be told the truth by those who report to it. If every record
/// in the cache is the database's result as of the record's own revision, whichever view has made it
/// and whatever revision the database itself has reached meanwhile, then the access keeps the
/// view's cells true to the view's own history; a value that it returns is the query's value at the
/// revision that the view stands at; and every record in the cache is the database's result as of
/// the record's own revision again.
///
/// A query whose cell says that its value is valid at a revision counts as looked at as of that
/// revision.
pub proof fn sharing_is_not_observable<V, E, T>(
    h: History<T>,
    mine: History<T>,
    shown: Shown<V, T>,
    ask: Ask<E>,
    w: World<V, E>,
    phase: PhaseView<V, E>,
    event: AccessEvent<V>,
)
    requires
        is_view_of(mine, h, w.runtime.revision.0 as nat),
        cache_is_true(h, shown, w.runtime.id, w.cache),
        crate::ingredient::access::expects(phase, event),
        mine.deterministic(ask.requested@),
        mine.looks_through(ask.requested@),
        crate::ingredient::value_laws::cells_are_true(
            mine,
            shown,
            ask.requested.kind.0,
            w.cells,
            w.runtime.revision.0 as nat,
        ),
        crate::ingredient::value_laws::phase_is_true(mine, shown, ask, w, phase),
        crate::ingredient::value_laws::is_told_the_truth(mine, shown, ask, w, phase, event),
        crate::ingredient::access::stepped(ask, w, phase, event).world.cell(
            ask,
        ) matches StateView::Ready { verified_at, .. } ==> mine.looked_at(
            ask.requested@,
            verified_at.0 as nat,
        ),
    ensures
        ({
            let next = crate::ingredient::access::stepped(ask, w, phase, event);
            &&& crate::ingredient::value_laws::cells_are_true(
                mine,
                shown,
                ask.requested.kind.0,
                next.world.cells,
                next.world.runtime.revision.0 as nat,
            )
            &&& crate::ingredient::value_laws::step_is_true(
                mine,
                shown,
                ask,
                event,
                next,
                crate::ingredient::value_laws::works_at(w, phase).0 as nat,
            )
            &&& cache_is_true(h, shown, w.runtime.id, next.world.cache)
        }),
{
    let next = crate::ingredient::access::stepped(ask, w, phase, event);
    let at = w.runtime.revision.0 as nat;
    let name = crate::ingredient::value_laws::shared_as(ask, w);
    if w.cache.held.contains_key(name) {
        let record = w.cache.held[name];
        if record.verified_at.0 <= at {
            results_are_alike(
                mine,
                h,
                shown,
                ask.requested@,
                record.value,
                record.deps,
                record.changed_at.0 as nat,
                record.verified_at.0 as nat,
                at,
            );
        }
    }
    crate::ingredient::value_laws::access_keeps_values_true(mine, shown, ask, w, phase, event);
    crate::ingredient::access_laws::shared_is_what_the_cell_holds(ask, w, phase, event);
    if next.world.cache != w.cache {
        if let StateView::Ready { value, verified_at, changed_at, settled, deps } = next.world.cell(
            ask,
        ) {
            results_are_alike(
                mine,
                h,
                shown,
                ask.requested@,
                value,
                deps,
                changed_at.0 as nat,
                verified_at.0 as nat,
                at,
            );
            put_keeps_cache_true(
                h,
                shown,
                w.runtime.id,
                ask.requested@,
                w.cache,
                RecordView { value, deps, changed_at, verified_at, settled, insert_id: 0 },
                w.cache.limit_in_force(ask.env),
            );
        }
    }
}

proof fn put_keeps_cache_true<V, T>(
    h: History<T>,
    shown: Shown<V, T>,
    id: RuntimeId,
    query: Node,
    cache: CacheView<V>,
    record: RecordView<V>,
    max: usize,
)
    requires
        cache_is_true(h, shown, id, cache),
        crate::ingredient::value_laws::record_is_true(h, shown, query, record),
    ensures
        cache_is_true(
            h,
            shown,
            id,
            cache.put(crate::inflight::shared_name(id, query), record, max),
        ),
{
    let name = crate::inflight::shared_name(id, query);
    let after = cache.put(name, record, max);
    let order = cache.insertions.push((name, cache.next_id));
    let room = crate::inflight::room_for_others(max);
    let others = cache.held.remove(name);
    crate::inflight::evict_only_drops(others, order, room);
    let kept = crate::inflight::evict(others, order, room).0;
    assert forall|other: Node| #[trigger]
        after.held.contains_key(
            crate::inflight::shared_name(id, other),
        ) implies crate::ingredient::value_laws::record_is_true(
        h,
        shown,
        other,
        after.held[crate::inflight::shared_name(id, other)],
    ) by {
        let filed = crate::inflight::shared_name(id, other);
        if filed == name {
            crate::inflight::shared_name_injective(id, query, id, other);
        } else {
            assert(kept.dom().contains(filed));
            assert(others.dom().contains(filed));
            assert(cache.held.contains_key(filed));
        }
    }
}

/// Views do not disturb each other: whatever one view files in the cache and registers as running,
/// another view's cells and what its accesses have found out so far stay true.
pub proof fn other_views_are_undisturbed<V, E, T>(
    mine: History<T>,
    shown: Shown<V, T>,
    ask: Ask<E>,
    w: World<V, E>,
    phase: PhaseView<V, E>,
    other: Ask<E>,
    other_world: World<V, E>,
    other_phase: PhaseView<V, E>,
    other_event: AccessEvent<V>,
)
    requires
        crate::ingredient::value_laws::phase_is_true(mine, shown, ask, w, phase),
        crate::ingredient::value_laws::cells_are_true(
            mine,
            shown,
            ask.requested.kind.0,
            w.cells,
            w.runtime.revision.0 as nat,
        ),
        crate::ingredient::access::expects(other_phase, other_event),
        other_world.cache == w.cache,
        other_world.running == w.running,
    ensures
        ({
            let next = crate::ingredient::access::stepped(
                other,
                other_world,
                other_phase,
                other_event,
            );
            let after = World { cache: next.world.cache, running: next.world.running, ..w };
            &&& crate::ingredient::value_laws::phase_is_true(mine, shown, ask, after, phase)
            &&& crate::ingredient::value_laws::cells_are_true(
                mine,
                shown,
                ask.requested.kind.0,
                after.cells,
                after.runtime.revision.0 as nat,
            )
        }),
{
}

/// Databases do not disturb each other: a step of an access in one leaves what is filed under the
/// identity of another true.
pub proof fn other_databases_are_undisturbed<V, E, T>(
    h: History<T>,
    shown: Shown<V, T>,
    id: RuntimeId,
    ask: Ask<E>,
    w: World<V, E>,
    phase: PhaseView<V, E>,
    event: AccessEvent<V>,
)
    requires
        crate::ingredient::access::expects(phase, event),
        id != w.runtime.id,
        cache_is_true(h, shown, id, w.cache),
    ensures
        cache_is_true(
            h,
            shown,
            id,
            crate::ingredient::access::stepped(ask, w, phase, event).world.cache,
        ),
{
    let next = crate::ingredient::access::stepped(ask, w, phase, event);
    crate::ingredient::access_laws::shared_is_what_the_cell_holds(ask, w, phase, event);
    if next.world.cache != w.cache {
        let name = crate::ingredient::value_laws::shared_as(ask, w);
        let order = w.cache.insertions.push((name, w.cache.next_id));
        let room = crate::inflight::room_for_others(w.cache.limit_in_force(ask.env));
        let others = w.cache.held.remove(name);
        crate::inflight::evict_only_drops(others, order, room);
        let kept = crate::inflight::evict(others, order, room).0;
        assert forall|query: Node| #[trigger]
            next.world.cache.held.contains_key(
                crate::inflight::shared_name(id, query),
            ) implies crate::ingredient::value_laws::record_is_true(
            h,
            shown,
            query,
            next.world.cache.held[crate::inflight::shared_name(id, query)],
        ) by {
            let filed = crate::inflight::shared_name(id, query);
            if filed == name {
                crate::inflight::shared_name_injective(id, query, w.runtime.id, ask.requested@);
            }
            assert(kept.dom().contains(filed));
            assert(others.dom().contains(filed) && others[filed] == kept[filed]);
        }
    }
}

/// Followers are told the truth. Let one view lead a computation, and let its step be true to its own
/// history. What it publishes is, for every view that follows that computation, the result of the
/// query that the follower asks for, at the revision that the follower works at.
pub proof fn followers_are_told_the_truth<V, E, T>(
    h: History<T>,
    leader: History<T>,
    mine: History<T>,
    shown: Shown<V, T>,
    ask: Ask<E>,
    w: World<V, E>,
    phase: PhaseView<V, E>,
    event: AccessEvent<V>,
    led_by: RuntimeId,
    follower: Ask<E>,
    follower_world: World<V, E>,
    following: PhaseView<V, E>,
    followed: RuntimeId,
    seen: InFlightState<V>,
)
    requires
        crate::ingredient::access::expects(phase, event),
        phase matches PhaseView::Compute { rev, flight, .. } && following matches PhaseView::Follow {
            rev: follower_rev,
            ..
        } && {
            &&& flight == crate::inflight::flight_name(led_by, rev, ask.requested@)
            &&& flight == crate::inflight::flight_name(
                followed,
                follower_rev,
                follower.requested@,
            )
            &&& is_view_of(mine, h, follower_rev.0 as nat)
        },
        is_view_of(leader, h, w.runtime.revision.0 as nat),
        crate::ingredient::value_laws::step_is_true(
            leader,
            shown,
            ask,
            event,
            crate::ingredient::access::stepped(ask, w, phase, event),
            crate::ingredient::value_laws::works_at(w, phase).0 as nat,
        ),
        crate::ingredient::access::stepped(ask, w, phase, event).publish == Some(seen@),
    ensures
        led_by == followed,
        crate::ingredient::value_laws::is_told_the_truth(
            mine,
            shown,
            follower,
            follower_world,
            following,
            AccessEvent::Leader(seen),
        ),
{
    if let PhaseView::Compute { rev, .. } = phase {
        if let PhaseView::Follow { rev: follower_rev, .. } = following {
            crate::inflight::flight_name_injective(
                led_by,
                rev,
                ask.requested@,
                followed,
                follower_rev,
                follower.requested@,
            );
            let at = rev.0 as nat;
            assert(leader.value_of(ask.requested@, at) == h.value_of(ask.requested@, at)
                || w.runtime.revision != rev);
            if let FlightView::Done { value, deps, changed_at } = seen@ {
                results_are_alike(
                    leader,
                    h,
                    shown,
                    ask.requested@,
                    value,
                    deps,
                    changed_at.0 as nat,
                    at,
                    at,
                );
                results_are_alike(
                    mine,
                    h,
                    shown,
                    ask.requested@,
                    value,
                    deps,
                    changed_at.0 as nat,
                    at,
                    at,
                );
            }
        }
    }
}

/// Whether no cell holds a failure from later than a revision.
pub open spec fn failures_are_past<V>(cells: Cells<V>, at: nat) -> bool {
    forall|key: Seq<u8>|
        #[trigger] crate::ingredient::derived::state_at(
            cells,
            key,
        ) matches StateView::Poisoned { verified_at, .. } ==> verified_at.0 <= at
}

/// A snapshot starts out true: the cells of the database are true to the snapshot's own history, all
/// of them, and those that have a value. What is valid in them at the revision of the snapshot counts
/// as looked at.
pub proof fn snapshots_start_out_true<V, T>(
    h: History<T>,
    mine: History<T>,
    shown: Shown<V, T>,
    kind: u32,
    cells: Cells<V>,
    at: nat,
)
    requires
        is_view_of(mine, h, at),
        crate::ingredient::value_laws::cells_are_true(h, shown, kind, cells, at),
        failures_are_past(cells, at),
        forall|key: Seq<u8>|
            #[trigger] crate::ingredient::derived::state_at(
                cells,
                key,
            ) matches StateView::Ready { verified_at, .. } && verified_at.0 == at
                ==> mine.looked_at((kind, key), at),
    ensures
        crate::ingredient::value_laws::cells_are_true(mine, shown, kind, cells, at),
        crate::ingredient::value_laws::cells_are_true(
            mine,
            shown,
            kind,
            crate::ingredient::derived::ready_cells(cells),
            at,
        ),
{
    assert forall|key: Seq<u8>|
        crate::ingredient::value_laws::is_true(
            mine,
            shown,
            (kind, key),
            #[trigger] crate::ingredient::derived::state_at(cells, key),
            at,
        ) by {
        let state = crate::ingredient::derived::state_at(cells, key);
        assert(crate::ingredient::value_laws::is_true(h, shown, (kind, key), state, at));
        if let StateView::Ready { value, verified_at, changed_at, deps, .. } = state {
            results_are_alike(
                mine,
                h,
                shown,
                (kind, key),
                value,
                deps,
                changed_at.0 as nat,
                verified_at.0 as nat,
                at,
            );
        }
    }
    let copied = crate::ingredient::derived::ready_cells(cells);
    assert forall|key: Seq<u8>|
        crate::ingredient::value_laws::is_true(
            mine,
            shown,
            (kind, key),
            #[trigger] crate::ingredient::derived::state_at(copied, key),
            at,
        ) by {
        assert(crate::ingredient::value_laws::is_true(
            mine,
            shown,
            (kind, key),
            crate::ingredient::derived::state_at(cells, key),
            at,
        ));
    }
}

/// Whether two histories tell the same up to a revision.
pub open spec fn same_until<T>(one: History<T>, other: History<T>, at: nat) -> bool {
    &&& is_view_of(one, other, at)
    &&& forall|node: Node| #[trigger] one.looked_at(node, at) == other.looked_at(node, at)
}

/// A view that is changed goes its own way. Up to the revision `at` at which it splits off, its
/// history stays what it was; so its cells stay true. It gets an identity of its own, under which
/// nothing has been filed yet: so all that it finds in the cache from now on, it has put there
/// itself, or its own snapshots have. The database that it was a view of goes on undisturbed.
pub proof fn changed_views_go_their_own_way<V, T>(
    mine: History<T>,
    own: History<T>,
    shown: Shown<V, T>,
    kind: u32,
    cells: Cells<V>,
    cache: CacheView<V>,
    id: RuntimeId,
    at: nat,
    later: nat,
)
    requires
        same_until(own, mine, at),
        crate::ingredient::value_laws::cells_are_true(mine, shown, kind, cells, at),
        failures_are_past(cells, at),
        at < later,
        forall|key: Seq<u8>, rev: nat| #[trigger]
            own.looked_at((kind, key), rev) && at <= rev < later ==> (
            crate::ingredient::derived::state_at(
                cells,
                key,
            ) matches StateView::Ready { verified_at, .. } ==> rev <= verified_at.0),
        forall|query: Node| !#[trigger]
            cache.held.contains_key(crate::inflight::shared_name(id, query)),
    ensures
        crate::ingredient::value_laws::cells_are_true(own, shown, kind, cells, later),
        cache_is_true(own, shown, id, cache),
        is_view_of(own, own, later),
{
    assert forall|key: Seq<u8>|
        crate::ingredient::value_laws::is_true(
            own,
            shown,
            (kind, key),
            #[trigger] crate::ingredient::derived::state_at(cells, key),
            at,
        ) by {
        let state = crate::ingredient::derived::state_at(cells, key);
        assert(crate::ingredient::value_laws::is_true(mine, shown, (kind, key), state, at));
        if let StateView::Ready { value, verified_at, changed_at, deps, .. } = state {
            results_are_alike(
                own,
                mine,
                shown,
                (kind, key),
                value,
                deps,
                changed_at.0 as nat,
                verified_at.0 as nat,
                at,
            );
        }
    }
    crate::ingredient::value_laws::values_stay_true_over_revisions(
        own,
        shown,
        kind,
        cells,
        at,
        later,
    );
}

} // verus!
