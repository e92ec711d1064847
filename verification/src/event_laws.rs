//! What subscribers are told.
use crate::key::{DynKey, Key, QueryKindId};
#[allow(unused_imports)]
use crate::key::Node;
use crate::revision::Revision;
use crate::runtime::{Runtime, RuntimeEvent};
use vstd::prelude::*;

verus! {

/// Whether `event` tells that the query `node` was invalidated at a revision by a change of an input:
/// it names the query by its kind, its key and the hash of that key, and the input in the same way.
pub open spec fn tells_of_invalidation(
    event: RuntimeEvent,
    node: Node,
    revision: Revision,
    by: QueryKindId,
    input: Key,
) -> bool {
    event matches RuntimeEvent::QueryInvalidated {
        revision: at,
        kind,
        key_hash,
        key,
        by_kind,
        by_key_hash,
        by_key,
    } && {
        &&& at == revision
        &&& kind.0 == node.0
        &&& key@ == node.1
        &&& key_hash == crate::key::stable_hash_of(node.1)
        &&& by_kind == by
        &&& by_key == input
        &&& by_key_hash == crate::key::stable_hash_of(input@)
    }
}

/// The query that a notification of an invalidation names.
pub open spec fn invalidated_by(event: RuntimeEvent) -> Node {
    match event {
        RuntimeEvent::QueryInvalidated { kind, key, .. } => (kind.0, key@),
        _ => arbitrary(),
    }
}

/// Whether several notifications tell of exactly the queries that depend on an input, each once.
pub open spec fn tell_of_dependents(
    events: Seq<RuntimeEvent>,
    forward: Map<Node, Seq<Node>>,
    revision: Revision,
    kind: QueryKindId,
    key: Key,
) -> bool {
    let input = (kind.0, key@);
    &&& forall|n: int|
        0 <= n < events.len() ==> {
            let query = invalidated_by(#[trigger] events[n]);
            &&& tells_of_invalidation(events[n], query, revision, kind, key)
            &&& query != input
            &&& crate::graph::depends_on_vertex(forward, input, query)
        }
    &&& forall|query: Node| #[trigger]
        crate::graph::depends_on_vertex(forward, input, query) && query != input ==> exists|n: int|
            0 <= n < events.len() && invalidated_by(#[trigger] events[n]) == query
    &&& forall|m: int, n: int|
        0 <= m < n < events.len() ==> invalidated_by(#[trigger] events[m]) != invalidated_by(
            #[trigger] events[n],
        )
}

proof fn dependents_are_told(
    before: Runtime,
    kind: QueryKindId,
    key: Key,
    rev: Revision,
    order: Seq<DynKey>,
)
    requires
        before.wf(),
        before.deps().is_dependents_order((kind.0, key@), order),
    ensures
        tell_of_dependents(
            crate::runtime::invalidation_events(rev, kind, key, order),
            before.deps().forward(),
            rev,
            kind,
            key,
        ),
{
    let events = crate::runtime::invalidation_events(rev, kind, key, order);
    let input = (kind.0, key@);
    let forward = before.deps().forward();
    assert forall|n: int| 0 <= n < events.len() implies {
        let query = invalidated_by(#[trigger] events[n]);
        &&& tells_of_invalidation(events[n], query, rev, kind, key)
        &&& query != input
        &&& crate::graph::depends_on_vertex(forward, input, query)
        &&& query == order[n]@
    } by {
        let query = order[n]@;
        assert(invalidated_by(events[n]) == query);
        assert(crate::graph::lists(order, query));
        assert(before.deps().reaches(input, query));
        before.deps().reaching_is_reading(input, query);
    }
    assert forall|query: Node| #[trigger]
        crate::graph::depends_on_vertex(forward, input, query) && query != input implies exists|
        n: int,
    |
        0 <= n < events.len() && invalidated_by(#[trigger] events[n]) == query by {
        before.deps().reaching_is_reading(input, query);
        assert(crate::graph::lists(order, query));
        let n = choose|n: int| 0 <= n < order.len() && (#[trigger] order[n])@ == query;
        assert(invalidated_by(events[n]) == query);
    }
}

/// Setting an input is announced: subscribers are told, in this order and after all that they were to
/// be told before, of the next revision, of the input with its kind, its key and the hash of that key,
/// and then of each query that depends on the input, once, with that query's own kind, key and hash
/// and with the input as the cause; and of nothing else.
pub proof fn set_inputs_are_announced(
    before: Runtime,
    after: Runtime,
    kind: QueryKindId,
    key: Key,
    rev: Revision,
)
    requires
        before.wf(),
        crate::ingredient::input::announced_set(before, after, kind, key, rev),
    ensures
        rev.0 == before.revision().0 + 1,
        after.revision() == rev,
        ({
            let told = before.events().len() as int;
            let events = after.events();
            &&& events.len() >= told + 2
            &&& events.take(told) == before.events()
            &&& events[told] matches RuntimeEvent::RevisionBumped { revision } && revision == rev
            &&& events[told + 1] matches RuntimeEvent::InputSet {
                revision,
                kind: of,
                key_hash,
                key: named,
            } && revision == rev && of == kind && named == key && key_hash
                == crate::key::stable_hash_of(key@)
            &&& tell_of_dependents(
                events.skip(told + 2),
                before.deps().forward(),
                rev,
                kind,
                key,
            )
        }),
{
    let order = choose|order: Seq<DynKey>|
        {
            &&& #[trigger] before.deps().is_dependents_order((kind.0, key@), order)
            &&& after.events() == before.events().push(
                RuntimeEvent::RevisionBumped { revision: rev },
            ).push(crate::runtime::input_set_event(rev, kind, key))
                + crate::runtime::invalidation_events(rev, kind, key, order)
        };
    dependents_are_told(before, kind, key, rev, order);
    let told = before.events().len() as int;
    assert(after.events().take(told) =~= before.events());
    assert(after.events().skip(told + 2) =~= crate::runtime::invalidation_events(
        rev,
        kind,
        key,
        order,
    ));
}

/// Removing an input is announced in the same way.
pub proof fn removed_inputs_are_announced(
    before: Runtime,
    after: Runtime,
    kind: QueryKindId,
    key: Key,
    rev: Revision,
)
    requires
        before.wf(),
        crate::ingredient::input::announced_removal(before, after, kind, key, rev),
    ensures
        rev.0 == before.revision().0 + 1,
        after.revision() == rev,
        ({
            let told = before.events().len() as int;
            let events = after.events();
            &&& events.len() >= told + 2
            &&& events.take(told) == before.events()
            &&& events[told] matches RuntimeEvent::RevisionBumped { revision } && revision == rev
            &&& events[told + 1] matches RuntimeEvent::InputRemoved {
                revision,
                kind: of,
                key_hash,
                key: named,
            } && revision == rev && of == kind && named == key && key_hash
                == crate::key::stable_hash_of(key@)
            &&& tell_of_dependents(
                events.skip(told + 2),
                before.deps().forward(),
                rev,
                kind,
                key,
            )
        }),
{
    let order = choose|order: Seq<DynKey>|
        {
            &&& #[trigger] before.deps().is_dependents_order((kind.0, key@), order)
            &&& after.events() == before.events().push(
                RuntimeEvent::RevisionBumped { revision: rev },
            ).push(crate::runtime::input_removed_event(rev, kind, key))
                + crate::runtime::invalidation_events(rev, kind, key, order)
        };
    dependents_are_told(before, kind, key, rev, order);
    let told = before.events().len() as int;
    assert(after.events().take(told) =~= before.events());
    assert(after.events().skip(told + 2) =~= crate::runtime::invalidation_events(
        rev,
        kind,
        key,
        order,
    ));
}

/// Each notification is handed out once, and in order: what is handed out, and then what is left, is all
/// that subscribers were to get, and what is left is nothing. Nothing else changes.
pub proof fn notifications_are_handed_out_once(
    before: Runtime,
    after: Runtime,
    last: Runtime,
    taken: Seq<RuntimeEvent>,
    again: Seq<RuntimeEvent>,
)
    requires
        crate::runtime::events_taken(before, after, taken),
        crate::runtime::events_taken(after, last, again),
    ensures
        taken + after.events() == before.events(),
        again.len() == 0,
        after.revision() == before.revision(),
        after.ident() == before.ident(),
        after.deps().forward() == before.deps().forward(),
{
    assert(taken + after.events() =~= before.events());
}

} // verus!
