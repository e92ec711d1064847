//! What an access does from its beginning to its end.
//!
//! The world may change between two steps of an access: other tasks look at other queries, and
//! touching a dependency may compute it. So a course of steps gives each of them a world of its own.
use crate::error::{PicanteError, PicanteResult};
#[allow(unused_imports)]
use crate::inflight::{FlightView, RecordView};
#[allow(unused_imports)]
use crate::frame::FrameView;
use crate::ingredient::access::{
    Access, AccessAction, AccessEvent, ComputeOutcome, Farewell, Touch,
};
#[allow(unused_imports)]
use crate::ingredient::access::{Ask, PhaseView, StepView, World};
#[allow(unused_imports)]
use crate::ingredient::derived::{Cells, StateView};
use crate::ingredient::derived::{ErasedReadyRecord, RecordCheck, RecordStep};
use crate::key::{Dep, DynKey, Key, QueryKindId};
use crate::revision::Revision;
use crate::runtime::RuntimeEvent;
use std::sync::Arc;
use vstd::prelude::*;

verus! {

/// The value in a cell, if it has one.
pub open spec fn value_in<V>(state: StateView<V>) -> Option<Arc<V>> {
    match state {
        StateView::Ready { value, .. } => Some(value),
        _ => None,
    }
}

/// Whether steps follow each other: an access is polled, and each further step goes on from where
/// the one before has left it, in the world as it then is.
pub open spec fn is_run<V, E>(
    ask: Ask<E>,
    worlds: Seq<World<V, E>>,
    events: Seq<AccessEvent<V>>,
    steps: Seq<StepView<V, E>>,
) -> bool {
    &&& steps.len() > 0
    &&& worlds.len() == steps.len()
    &&& events.len() == steps.len()
    &&& events[0] is Poll
    &&& steps[0] == crate::ingredient::access::stepped(
        ask,
        worlds[0],
        PhaseView::Idle,
        events[0],
    )
    &&& forall|n: int|
        0 <= n < steps.len() - 1 ==> #[trigger] steps[n + 1] == crate::ingredient::access::stepped(
            ask,
            worlds[n + 1],
            steps[n].phase,
            events[n + 1],
        )
}

/// Whether a touch went well and tells that the dependency has not changed after a revision.
pub open spec fn unchanged_since<V>(event: AccessEvent<V>, since: Revision) -> bool {
    event matches AccessEvent::Touched(Some(Ok(touch))) && touch.changed_at.0 <= since.0
}

/// Whether a touch went well and tells that the dependency has been the same at every revision from
/// `since` on.
pub open spec fn settled_since<V>(event: AccessEvent<V>, since: Revision) -> bool {
    event matches AccessEvent::Touched(Some(Ok(touch))) && touch.settled && touch.changed_at.0
        <= since.0
}

proof fn revalidation_goes_on<V, E>(
    ask: Ask<E>,
    worlds: Seq<World<V, E>>,
    events: Seq<AccessEvent<V>>,
    steps: Seq<StepView<V, E>>,
    value: Arc<V>,
    verified_at: Revision,
    changed_at: Revision,
    settled: bool,
    deps: Seq<Dep>,
    n: int,
)
    requires
        is_run(ask, worlds, events, steps),
        0 <= n < deps.len(),
        n < steps.len(),
        worlds[0].cell(ask) == (StateView::Ready { value, verified_at, changed_at, settled, deps }),
        verified_at != worlds[0].runtime.revision,
        forall|i: int| 1 <= i <= n ==> unchanged_since(#[trigger] events[i], verified_at),
    ensures
        steps[n].action == AccessAction::<V, E>::Touch(deps[n]),
        steps[n].phase matches PhaseView::CheckLocal {
            rev,
            verified_at: since,
            deps: read,
            next,
            ..
        } && rev == worlds[0].runtime.revision && since == verified_at && read == deps && next == n,
        n > 0 ==> steps[n].world == worlds[n],
        steps[0].world.cells == worlds[0].cells,
    decreases n,
{
    if n > 0 {
        revalidation_goes_on(
            ask,
            worlds,
            events,
            steps,
            value,
            verified_at,
            changed_at,
            settled,
            deps,
            n - 1,
        );
        assert(steps[(n - 1) + 1] == crate::ingredient::access::stepped(
            ask,
            worlds[n],
            steps[n - 1].phase,
            events[n],
        ));
        assert(unchanged_since(events[n], verified_at));
    }
}

/// Revalidation reuses a value: an access to a query whose cell holds a value of an earlier revision
/// touches each of the value's dependencies once, in the order in which they were read, and nothing
/// else. If none of them has changed after the value was last valid, the access returns that very
/// value, with the revision at which it changed, and the query is not run. The cell then holds the
/// same value, with the same dependencies, as valid at the current revision, and nothing is
/// announced.
pub proof fn unchanged_dependencies_reuse_the_value<V, E>(
    ask: Ask<E>,
    worlds: Seq<World<V, E>>,
    events: Seq<AccessEvent<V>>,
    steps: Seq<StepView<V, E>>,
    value: Arc<V>,
    verified_at: Revision,
    changed_at: Revision,
    settled: bool,
    deps: Seq<Dep>,
)
    requires
        is_run(ask, worlds, events, steps),
        steps.len() == deps.len() + 1,
        worlds[0].cell(ask) == (StateView::Ready { value, verified_at, changed_at, settled, deps }),
        verified_at != worlds[0].runtime.revision,
        forall|n: int|
            1 <= n < steps.len() ==> unchanged_since(#[trigger] events[n], verified_at),
        worlds.last().cell(ask) == worlds[0].cell(ask),
        worlds.last().runtime.revision == worlds[0].runtime.revision,
    ensures
        forall|n: int|
            0 <= n < deps.len() ==> (#[trigger] steps[n]).action == AccessAction::<V, E>::Touch(
                deps[n],
            ),
        steps.last().action matches AccessAction::Return(Ok(result)) && {
            &&& result.changed_at == changed_at
            &&& result.value == (if ask.want_value {
                Some(value)
            } else {
                None
            })
        },
        steps.last().world.cell(ask) matches StateView::Ready {
            value: kept,
            verified_at: now,
            changed_at: since,
            deps: read,
            ..
        } && kept == value && now == worlds[0].runtime.revision && since == changed_at && read
            == deps,
        steps.last().world.runtime == worlds.last().runtime,
        steps.last().phase is Done,
{
    assert forall|n: int| 0 <= n < deps.len() implies (#[trigger] steps[n]).action
        == AccessAction::<V, E>::Touch(deps[n]) by {
        revalidation_goes_on(
            ask,
            worlds,
            events,
            steps,
            value,
            verified_at,
            changed_at,
            settled,
            deps,
            n,
        );
    }
    if deps.len() > 0 {
        let n = deps.len() - 1;
        revalidation_goes_on(
            ask,
            worlds,
            events,
            steps,
            value,
            verified_at,
            changed_at,
            settled,
            deps,
            n,
        );
        assert(steps[n + 1] == crate::ingredient::access::stepped(
            ask,
            worlds[n + 1],
            steps[n].phase,
            events[n + 1],
        ));
        assert(unchanged_since(events[n + 1], verified_at));
    }
}

/// Revalidation finds a change: at the first dependency that has changed after the value was last
/// valid, or that the database does not know, the access stops checking. Unless there is something
/// to take over, it then runs the query, with the value of the cell at hand to compare with. It does
/// not return the old value.
pub proof fn changed_dependency_runs_the_query<V, E>(
    ask: Ask<E>,
    worlds: Seq<World<V, E>>,
    events: Seq<AccessEvent<V>>,
    steps: Seq<StepView<V, E>>,
    value: Arc<V>,
    verified_at: Revision,
    changed_at: Revision,
    settled: bool,
    deps: Seq<Dep>,
    n: int,
)
    requires
        is_run(ask, worlds, events, steps),
        0 <= n < deps.len(),
        steps.len() == n + 2,
        worlds[0].cell(ask) == (StateView::Ready { value, verified_at, changed_at, settled, deps }),
        verified_at != worlds[0].runtime.revision,
        forall|i: int| 1 <= i <= n ==> unchanged_since(#[trigger] events[i], verified_at),
        events[n + 1] == AccessEvent::<V>::Touched(None) || (
        events[n + 1] matches AccessEvent::Touched(Some(Ok(touch))) && touch.changed_at.0
            > verified_at.0),
        worlds.last().cell(ask) == worlds[0].cell(ask),
    ensures
        ({
            let rev = worlds[0].runtime.revision;
            let w = worlds.last();
            let name = crate::inflight::shared_name(w.runtime.id, ask.requested@);
            let usable = w.cache.held.contains_key(name) && w.cache.held[name].verified_at.0
                <= rev.0;
            &&& steps.last().action is Return ==> usable && w.cache.held[name].deps.len() == 0
            &&& usable && w.cache.held[name].deps.len() > 0 ==> steps.last().action
                == AccessAction::<V, E>::Touch(w.cache.held[name].deps[0])
            &&& !(w.cache.held.contains_key(name) && w.cache.held[name].verified_at.0 <= rev.0) ==> (
            if w.running.contains_key(w.flight(ask, rev)) {
                steps.last().action == AccessAction::<V, E>::Follow(w.running[w.flight(ask, rev)])
            } else {
                steps.last().action == AccessAction::<V, E>::Run { previous: Some(value) }
            })
        }),
{
    revalidation_goes_on(
        ask,
        worlds,
        events,
        steps,
        value,
        verified_at,
        changed_at,
        settled,
        deps,
        n,
    );
    assert(steps[n + 1] == crate::ingredient::access::stepped(
        ask,
        worlds[n + 1],
        steps[n].phase,
        events[n + 1],
    ));
}

/// Whoever is asked to run a query has the value that the cell held at hand, whatever it was computed
/// from and however old it is; and nothing else. So an equal value is always found to be equal.
pub proof fn runs_come_with_the_replaced_value<V, E>(
    ask: Ask<E>,
    w: World<V, E>,
    phase: PhaseView<V, E>,
    event: AccessEvent<V>,
)
    requires
        crate::ingredient::access::expects(phase, event),
    ensures
        crate::ingredient::access::stepped(
            ask,
            w,
            phase,
            event,
        ).action matches AccessAction::Run { previous } ==> {
            let held = match phase {
                PhaseView::CheckShared { displaced, .. } => displaced,
                _ => w.cell(ask),
            };
            &&& previous == value_in(held)
            &&& crate::ingredient::access::stepped(
                ask,
                w,
                phase,
                event,
            ).phase matches PhaseView::Compute { displaced, .. } && displaced == held
        },
{
}

/// An answer at hand is given at once, and nothing changes: a value that is valid at the current
/// revision, with the revision at which it changed; or the failure of the current revision. Whoever
/// finds the query being computed in this view waits.
pub proof fn answers_at_hand_are_given<V, E>(ask: Ask<E>, w: World<V, E>)
    ensures
        ({
            let next = crate::ingredient::access::stepped(
                ask,
                w,
                PhaseView::Idle,
                AccessEvent::<V>::Poll,
            );
            let at_once = next.world == w && !next.wake && next.publish is None && next.phase is Done;
            match w.cell(ask) {
                StateView::Ready { value, verified_at, changed_at, settled, .. } => verified_at
                    == w.runtime.revision ==> at_once && (next.action matches AccessAction::Return(
                    Ok(result),
                ) && result.changed_at == changed_at && result.settled == settled && result.value
                    == (if ask.want_value {
                    Some(value)
                } else {
                    None
                })),
                StateView::Poisoned { error, verified_at } => verified_at == w.runtime.revision
                    ==> at_once && (next.action matches AccessAction::Return(Err(told)) && told
                    == error),
                StateView::Running { .. } => next.action is Wait && next.world == w && !next.wake
                    && next.publish is None && next.phase is Idle,
                StateView::Vacant => next.action is Run || next.action is Follow
                    || next.action is Touch || (next.action matches AccessAction::Return(Ok(_))),
            }
        }),
{
}

/// Nobody waits in vain: whenever an access gives up a cell that it has marked as being computed, it
/// wakes those who wait for it, unless it goes on to wait for another view's computation.
pub proof fn waiters_are_woken<V, E>(
    ask: Ask<E>,
    w: World<V, E>,
    phase: PhaseView<V, E>,
    event: AccessEvent<V>,
)
    requires
        crate::ingredient::access::expects(phase, event),
        w.cell(ask) is Running,
    ensures
        ({
            let next = crate::ingredient::access::stepped(ask, w, phase, event);
            !(next.world.cell(ask) is Running) && !(next.phase is Follow) ==> next.wake
        }),
{
}

/// Whether `event` is the one notification that a query has changed at a revision: it names the
/// query's kind, its key and the hash of that key.
pub open spec fn tells_of_change(event: RuntimeEvent, revision: Revision, query: DynKey) -> bool {
    event matches RuntimeEvent::QueryChanged { revision: at, kind, key_hash, key } && {
        &&& at == revision
        &&& kind == query.kind
        &&& key == query.key
        &&& key_hash == crate::key::stable_hash_of(query.key@)
    }
}

/// Early cutoff: once the query was run and its value is found to equal the one that the cell held,
/// the new value counts as changed when that one did, and nobody is told of a change. Any other value
/// counts as changed at the revision at which it was computed, and the query is announced once.
pub proof fn equal_values_are_not_changes<V, E>(
    ask: Ask<E>,
    w: World<V, E>,
    rev: Revision,
    displaced: StateView<V>,
    flight: Seq<u8>,
    value: Arc<V>,
    unchanged: bool,
)
    ensures
        ({
            let next = crate::ingredient::access::stepped(
                ask,
                w,
                PhaseView::Compute { rev, displaced, flight },
                AccessEvent::Computed(ComputeOutcome::Value { value, unchanged }),
            );
            let deps = if w.stack.len() > 0 {
                w.stack.last().recorded
            } else {
                Seq::empty()
            };
            &&& next.world.cell(ask) matches StateView::Ready {
                value: kept,
                verified_at,
                changed_at,
                deps: read,
                ..
            } && {
                &&& kept == value
                &&& verified_at == rev
                &&& read == deps
                &&& changed_at == (match displaced {
                    StateView::Ready { changed_at: before, .. } => if unchanged {
                        before
                    } else {
                        rev
                    },
                    _ => rev,
                })
                &&& next.world.runtime.forward == w.runtime.forward.insert(
                    ask.requested@,
                    crate::graph::dep_nodes(deps),
                )
                &&& changed_at != rev ==> next.world.runtime.events == w.runtime.events
                &&& changed_at == rev ==> {
                    &&& next.world.runtime.events.len() == w.runtime.events.len() + 1
                    &&& next.world.runtime.events.drop_last() == w.runtime.events
                    &&& tells_of_change(next.world.runtime.events.last(), rev, ask.requested)
                }
                &&& w.runtime.revision == rev ==> (next.action matches AccessAction::Return(
                    Ok(result),
                ) && result.changed_at == changed_at && result.value == (if ask.want_value {
                    Some(value)
                } else {
                    None
                }))
                &&& w.runtime.revision == rev ==> next.publish == Some(
                    FlightView::Done { value, deps, changed_at },
                )
            }
            &&& w.runtime.revision != rev ==> next.action is Retry && next.publish == Some(
                FlightView::<V>::Cancelled,
            )
            &&& next.wake
            &&& next.world.running == w.running.remove(flight)
        }),
{
    let next = crate::ingredient::access::stepped(
        ask,
        w,
        PhaseView::Compute { rev, displaced, flight },
        AccessEvent::Computed(ComputeOutcome::Value { value, unchanged }),
    );
    if next.world.runtime.events.len() > 0 {
        assert(next.world.runtime.events.drop_last() =~= w.runtime.events
            || next.world.runtime.events == w.runtime.events);
    }
}

/// A failure is told as it is: once the query has returned an error or panicked, that error, or a
/// panic with that message, is what the cell holds for the revision, what the caller gets, and what
/// the followers are told; nothing is announced and no dependency is recorded.
pub proof fn failures_are_told_as_they_are<V, E>(
    ask: Ask<E>,
    w: World<V, E>,
    rev: Revision,
    displaced: StateView<V>,
    flight: Seq<u8>,
    outcome: ComputeOutcome<V>,
)
    requires
        !(outcome is Value),
    ensures
        ({
            let next = crate::ingredient::access::stepped(
                ask,
                w,
                PhaseView::Compute { rev, displaced, flight },
                AccessEvent::Computed(outcome),
            );
            &&& next.world.cell(ask) matches StateView::Poisoned { error, verified_at } && {
                &&& verified_at == rev
                &&& outcome matches ComputeOutcome::Failed(given) ==> error == given
                &&& outcome matches ComputeOutcome::Panicked(given) ==> (
                *error matches PicanteError::Panic { message } && message == given)
                &&& w.runtime.revision == rev ==> {
                    &&& next.action matches AccessAction::Return(Err(told)) && told == error
                    &&& next.publish == Some(FlightView::<V>::Failed(error))
                }
            }
            &&& w.runtime.revision != rev ==> next.action is Retry && next.publish == Some(
                FlightView::<V>::Cancelled,
            )
            &&& next.wake
            &&& next.world.running == w.running.remove(flight)
            &&& next.world.runtime == w.runtime
            &&& next.world.cache == w.cache
        }),
{
}

proof fn takeover_goes_on<V, E>(
    ask: Ask<E>,
    worlds: Seq<World<V, E>>,
    events: Seq<AccessEvent<V>>,
    steps: Seq<StepView<V, E>>,
    record: RecordView<V>,
    n: int,
)
    requires
        is_run(ask, worlds, events, steps),
        0 <= n < record.deps.len(),
        n < steps.len(),
        can_be_taken_over(ask, worlds[0], record),
        forall|i: int|
            1 <= i <= n ==> (#[trigger] events[i]) is Touched && (record.verified_at
                == worlds[0].runtime.revision || settled_since(events[i], record.changed_at)),
    ensures
        steps[n].action == AccessAction::<V, E>::Touch(record.deps[n]),
        steps[n].phase == (PhaseView::<V, E>::CheckShared {
            rev: worlds[0].runtime.revision,
            displaced: worlds[0].cell(ask),
            record,
            followed: false,
            next: n,
        }),
    decreases n,
{
    if n > 0 {
        takeover_goes_on(ask, worlds, events, steps, record, n - 1);
        assert(steps[(n - 1) + 1] == crate::ingredient::access::stepped(
            ask,
            worlds[n],
            steps[n - 1].phase,
            events[n],
        ));
        assert(events[n] is Touched);
    }
}

/// Whether there is a record to take over: the cell has nothing that is good for the current
/// revision, or for another one, and the record is held for the query under the identity of the
/// database and is not of a later revision.
pub open spec fn can_be_taken_over<V, E>(
    ask: Ask<E>,
    w: World<V, E>,
    record: RecordView<V>,
) -> bool {
    let name = crate::inflight::shared_name(w.runtime.id, ask.requested@);
    &&& w.cell(ask) is Vacant || (w.cell(ask) matches StateView::Poisoned { verified_at, .. }
        && verified_at != w.runtime.revision)
    &&& w.cache.held.contains_key(name)
    &&& w.cache.held[name] == record
    &&& record.verified_at.0 <= w.runtime.revision.0
}

/// Results are shared: an access to a query without a value, for which another view has filed a
/// result, touches each of that result's dependencies once, in order. If the result is of the current
/// revision, or every dependency is known to have been the same since the result changed, the access
/// returns that very result and the query is not run. The cell and the cache then hold it as valid at
/// the current revision.
pub proof fn shared_results_are_taken_over<V, E>(
    ask: Ask<E>,
    worlds: Seq<World<V, E>>,
    events: Seq<AccessEvent<V>>,
    steps: Seq<StepView<V, E>>,
    record: RecordView<V>,
)
    requires
        is_run(ask, worlds, events, steps),
        steps.len() == record.deps.len() + 1,
        can_be_taken_over(ask, worlds[0], record),
        forall|n: int|
            1 <= n < steps.len() ==> (#[trigger] events[n]) is Touched && (record.verified_at
                == worlds[0].runtime.revision || settled_since(events[n], record.changed_at)),
        worlds.last().runtime.revision == worlds[0].runtime.revision,
        worlds.last().runtime.id == worlds[0].runtime.id,
    ensures
        forall|n: int|
            0 <= n < record.deps.len() ==> (#[trigger] steps[n]).action == AccessAction::<
                V,
                E,
            >::Touch(record.deps[n]),
        steps.last().action matches AccessAction::Return(Ok(result)) && {
            &&& result.changed_at == record.changed_at
            &&& result.value == (if ask.want_value {
                Some(record.value)
            } else {
                None
            })
        },
        steps.last().world.cell(ask) matches StateView::Ready {
            value,
            verified_at,
            changed_at,
            deps,
            ..
        } && value == record.value && verified_at == worlds[0].runtime.revision && changed_at
            == record.changed_at && deps == record.deps,
        ({
            let name = crate::inflight::shared_name(worlds[0].runtime.id, ask.requested@);
            let held = steps.last().world.cache.held;
            &&& held.contains_key(name)
            &&& held[name].value == record.value
            &&& held[name].deps == record.deps
            &&& held[name].changed_at == record.changed_at
            &&& held[name].verified_at == worlds[0].runtime.revision
        }),
        steps.last().wake,
        steps.last().world.runtime.events == worlds.last().runtime.events,
{
    assert forall|n: int| 0 <= n < record.deps.len() implies (#[trigger] steps[n]).action
        == AccessAction::<V, E>::Touch(record.deps[n]) by {
        takeover_goes_on(ask, worlds, events, steps, record, n);
    }
    if record.deps.len() > 0 {
        let n = record.deps.len() - 1;
        takeover_goes_on(ask, worlds, events, steps, record, n);
        assert(steps[n + 1] == crate::ingredient::access::stepped(
            ask,
            worlds[n + 1],
            steps[n].phase,
            events[n + 1],
        ));
        assert(events[n + 1] is Touched);
    }
}

/// A result that is out of date is not taken over: at the first dependency that is not known to have
/// been the same since an older result changed, the access lets the result be, and runs the query or
/// follows whoever does.
pub proof fn stale_results_are_not_taken_over<V, E>(
    ask: Ask<E>,
    worlds: Seq<World<V, E>>,
    events: Seq<AccessEvent<V>>,
    steps: Seq<StepView<V, E>>,
    record: RecordView<V>,
    n: int,
)
    requires
        is_run(ask, worlds, events, steps),
        0 <= n < record.deps.len(),
        steps.len() == n + 2,
        can_be_taken_over(ask, worlds[0], record),
        record.verified_at != worlds[0].runtime.revision,
        forall|i: int| 1 <= i <= n ==> settled_since(#[trigger] events[i], record.changed_at),
        events[n + 1] is Touched,
        !settled_since(events[n + 1], record.changed_at),
    ensures
        ({
            let w = worlds.last();
            let flight = w.flight(ask, worlds[0].runtime.revision);
            steps.last().action == (if w.running.contains_key(flight) {
                AccessAction::<V, E>::Follow(w.running[flight])
            } else {
                AccessAction::<V, E>::Run { previous: None }
            })
        }),
{
    takeover_goes_on(ask, worlds, events, steps, record, n);
    assert(steps[n + 1] == crate::ingredient::access::stepped(
        ask,
        worlds[n + 1],
        steps[n].phase,
        events[n + 1],
    ));
}

/// A query without a value, for which nothing is filed, is computed: by following the one who computes
/// it for the same view of the database at the same revision, or else by running it and registering
/// as the one who does, under the database's identity, the revision and the query.
pub proof fn missing_values_are_computed<V, E>(ask: Ask<E>, w: World<V, E>)
    requires
        w.cell(ask) is Vacant || (w.cell(ask) matches StateView::Poisoned { verified_at, .. }
            && verified_at != w.runtime.revision),
        ({
            let name = crate::inflight::shared_name(w.runtime.id, ask.requested@);
            w.cache.held.contains_key(name) ==> w.cache.held[name].verified_at.0
                > w.runtime.revision.0
        }),
    ensures
        ({
            let next = crate::ingredient::access::stepped(
                ask,
                w,
                PhaseView::Idle,
                AccessEvent::<V>::Poll,
            );
            let flight = crate::inflight::flight_name(
                w.runtime.id,
                w.runtime.revision,
                ask.requested@,
            );
            if w.running.contains_key(flight) {
                &&& next.action == AccessAction::<V, E>::Follow(w.running[flight])
                &&& next.phase == (PhaseView::<V, E>::Follow {
                    rev: w.runtime.revision,
                    entry: w.running[flight],
                })
                &&& next.world.running == w.running
                &&& next.world.cell(ask) is Vacant
            } else {
                &&& next.action == AccessAction::<V, E>::Run { previous: None }
                &&& next.world.running == w.running.insert(flight, ask.fresh)
                &&& next.world.cell(ask) == (StateView::<V>::Running {
                    started_at: w.runtime.revision,
                })
                &&& next.world.stack.len() == w.stack.len() + 1
                &&& next.world.stack.drop_last() == w.stack
                &&& next.world.stack.last().query == ask.requested
                &&& next.world.stack.last().recorded.len() == 0
            }
        }),
{
    let next = crate::ingredient::access::stepped(
        ask,
        w,
        PhaseView::Idle,
        AccessEvent::<V>::Poll,
    );
    if next.action is Run {
        assert(next.world.stack.drop_last() =~= w.stack);
    }
}

/// Whoever follows a computation gets what its leader has found out: the failure, as it is; or the
/// value, once the dependencies were looked at. A follower goes on waiting while the computation runs,
/// and tries again when it was called off.
pub proof fn followers_get_what_the_leader_found<V, E>(
    ask: Ask<E>,
    w: World<V, E>,
    rev: Revision,
    entry: Arc<E>,
    seen: crate::inflight::InFlightState<V>,
)
    requires
        w.runtime.revision == rev,
        w.cell(ask) is Vacant,
    ensures
        ({
            let next = crate::ingredient::access::stepped(
                ask,
                w,
                PhaseView::Follow { rev, entry },
                AccessEvent::Leader(seen),
            );
            match seen {
                crate::inflight::InFlightState::Running => {
                    &&& next.action == AccessAction::<V, E>::Follow(entry)
                    &&& next.phase == (PhaseView::<V, E>::Follow { rev, entry })
                    &&& next.world == w
                },
                crate::inflight::InFlightState::Cancelled => next.action is Retry && next.world
                    == w && next.phase is Idle,
                crate::inflight::InFlightState::Failed(error) => {
                    &&& next.action matches AccessAction::Return(Err(told)) && told == error
                    &&& next.wake
                    &&& next.world.cell(ask) == (StateView::<V>::Poisoned {
                        error,
                        verified_at: rev,
                    })
                },
                crate::inflight::InFlightState::Done { value, deps, changed_at } => if deps@.len()
                    > 0 {
                    &&& next.action == AccessAction::<V, E>::Touch(deps@[0])
                    &&& next.phase matches PhaseView::CheckShared {
                        record,
                        next: place,
                        followed,
                        ..
                    } && record.value == value && record.deps == deps@ && record.changed_at
                        == changed_at && record.verified_at == rev && place == 0 && followed
                } else {
                    next.action matches AccessAction::Return(Ok(result)) && result.changed_at
                        == changed_at && result.value == (if ask.want_value {
                        Some(value)
                    } else {
                        None
                    })
                },
            }
        }),
{
}

/// A result that a follower looks at is taken over whatever comes of the touches: each dependency is
/// touched in turn, and after the last one the value is returned, and announced where it changed at
/// this revision.
pub proof fn followed_results_are_taken_over<V, E>(
    ask: Ask<E>,
    w: World<V, E>,
    rev: Revision,
    displaced: StateView<V>,
    record: RecordView<V>,
    place: int,
    touched: Option<PicanteResult<Touch>>,
)
    requires
        w.runtime.revision == rev,
        record.verified_at == rev,
        0 <= place < record.deps.len(),
    ensures
        ({
            let next = crate::ingredient::access::stepped(
                ask,
                w,
                PhaseView::CheckShared { rev, displaced, record, followed: true, next: place },
                AccessEvent::Touched(touched),
            );
            if place + 1 < record.deps.len() {
                &&& next.action == AccessAction::<V, E>::Touch(record.deps[place + 1])
                &&& next.phase == (PhaseView::<V, E>::CheckShared {
                    rev,
                    displaced,
                    record,
                    followed: true,
                    next: place + 1,
                })
            } else {
                &&& next.action matches AccessAction::Return(Ok(result)) && result.changed_at
                    == record.changed_at && result.value == (if ask.want_value {
                    Some(record.value)
                } else {
                    None
                })
                &&& next.wake
                &&& record.changed_at == rev ==> {
                    &&& next.world.runtime.events.len() == w.runtime.events.len() + 1
                    &&& tells_of_change(next.world.runtime.events.last(), rev, ask.requested)
                }
                &&& record.changed_at != rev ==> next.world.runtime.events == w.runtime.events
            }
        }),
{
}

/// Whether a record is checked so from beginning to end, on a database at revision `now`: `checks` and
/// `steps` are what the check is at and asks for, and `touches` what was reported.
pub open spec fn is_check<V>(
    record: ErasedReadyRecord<V>,
    now: Revision,
    checks: Seq<RecordCheck>,
    touches: Seq<Option<PicanteResult<Touch>>>,
    steps: Seq<RecordStep>,
) -> bool {
    &&& steps.len() > 0
    &&& checks.len() == steps.len()
    &&& touches.len() == steps.len() - 1
    &&& RecordCheck::begun(record, now, checks[0], steps[0])
    &&& forall|n: int|
        0 <= n < touches.len() ==> (#[trigger] steps[n]) is Touch && RecordCheck::went_on(
            checks[n],
            touches[n],
            checks[n + 1],
            steps[n + 1],
        )
}

/// Whether a touch speaks for a record: it went well, and, where the record is of an earlier revision,
/// the dependency is known to have been the same since the record's value changed.
pub open spec fn vouches<V>(
    touched: Option<PicanteResult<Touch>>,
    record: ErasedReadyRecord<V>,
    now: Revision,
) -> bool {
    touched matches Some(Ok(touch)) && (record.verified_at == now || (touch.settled
        && touch.changed_at.0 <= record.changed_at.0))
}

proof fn check_goes_on<V>(
    record: ErasedReadyRecord<V>,
    now: Revision,
    checks: Seq<RecordCheck>,
    touches: Seq<Option<PicanteResult<Touch>>>,
    steps: Seq<RecordStep>,
    n: int,
)
    requires
        is_check(record, now, checks, touches, steps),
        0 <= n < steps.len(),
    ensures
        checks[n].bound() == record.changed_at,
        checks[n].is_current() == (record.verified_at == now),
        n <= record.deps@.len(),
        checks[n].remaining() == record.deps@.skip(n),
        steps[n] matches RecordStep::Touch(dep) ==> n < record.deps@.len() && dep
            == record.deps@[n],
        steps[n] matches RecordStep::Verdict(Ok(valid)) ==> valid ==> n == record.deps@.len(),
        steps[n] matches RecordStep::Verdict(Ok(valid)) ==> !valid ==> (record.verified_at.0 > now.0
            || n > 0 && !vouches(touches[n - 1], record, now)),
        steps[n] matches RecordStep::Verdict(Err(error)) ==> n > 0 && touches[n - 1] == Some(
            Err::<Touch, Arc<PicanteError>>(error),
        ),
        !(steps[n] matches RecordStep::Verdict(Ok(false))) ==> record.verified_at.0 <= now.0,
        n > 0 && (steps[n] is Touch || steps[n] == RecordStep::Verdict(Ok(true))) ==> vouches(
            touches[n - 1],
            record,
            now,
        ),
        n > 0 && touches[n - 1] is None ==> steps[n] == RecordStep::Verdict(Ok(false)),
        n > 0 ==> (touches[n - 1] matches Some(Err(error)) ==> steps[n] == RecordStep::Verdict(
            Err(error),
        )),
        n > 0 && vouches(touches[n - 1], record, now) ==> steps[n] is Touch || steps[n]
            == RecordStep::Verdict(Ok(true)),
    decreases n,
{
    if n > 0 {
        check_goes_on(record, now, checks, touches, steps, n - 1);
        let earlier = n - 1;
        assert(steps[earlier] is Touch);
        assert(RecordCheck::went_on(checks[earlier], touches[earlier], checks[n], steps[n]));
        assert(record.deps@.skip(earlier).drop_first() =~= record.deps@.skip(n));
        if n < record.deps@.len() {
            assert(record.deps@.skip(n)[0] == record.deps@[n]);
        }
    } else {
        assert(record.deps@.skip(0) =~= record.deps@);
    }
}

/// The check of a record goes through all that the record was computed from: the dependencies asked
/// for are the record's own, each once and in order. The verdict that the record is valid comes only
/// after the last of them was touched and each of them speaks for the record, and never for a record
/// of a later revision; the verdict that it is not comes at the first that does not, or at once where
/// the record is of a later revision; and the error of a touch ends the check with that error.
pub proof fn records_are_checked_against_all_they_read<V>(
    record: ErasedReadyRecord<V>,
    now: Revision,
    checks: Seq<RecordCheck>,
    touches: Seq<Option<PicanteResult<Touch>>>,
    steps: Seq<RecordStep>,
)
    requires
        is_check(record, now, checks, touches, steps),
    ensures
        steps.len() <= record.deps@.len() + 1,
        forall|n: int|
            0 <= n < steps.len() ==> ((#[trigger] steps[n]) matches RecordStep::Touch(dep) ==> n
                < record.deps@.len() && dep == record.deps@[n]),
        forall|n: int| 0 <= n < steps.len() - 1 ==> (#[trigger] steps[n]) is Touch,
        forall|n: int|
            0 <= n < touches.len() - 1 ==> vouches(#[trigger] touches[n], record, now),
        steps.last() == RecordStep::Verdict(Ok(true)) <==> {
            &&& record.verified_at.0 <= now.0
            &&& touches.len() == record.deps@.len()
            &&& forall|n: int|
                0 <= n < touches.len() ==> vouches(#[trigger] touches[n], record, now)
        },
        steps.last() == RecordStep::Verdict(Ok(false)) <==> record.verified_at.0 > now.0 || (
        touches.len() > 0 && (touches.last() is None || (touches.last() matches Some(Ok(_))
            && !vouches(touches.last(), record, now)))),
        steps.last() matches RecordStep::Verdict(Err(error)) ==> touches.len() > 0
            && touches.last() == Some(Err::<Touch, Arc<PicanteError>>(error)),
        touches.len() > 0 ==> (touches.last() matches Some(Err(error)) ==> steps.last()
            == RecordStep::Verdict(Err(error))),
{
    assert forall|n: int| 0 <= n < steps.len() implies ((
    #[trigger] steps[n]) matches RecordStep::Touch(dep) ==> n < record.deps@.len() && dep
        == record.deps@[n]) by {
        check_goes_on(record, now, checks, touches, steps, n);
    }
    assert forall|n: int| 0 <= n < touches.len() - 1 implies vouches(
        #[trigger] touches[n],
        record,
        now,
    ) by {
        check_goes_on(record, now, checks, touches, steps, n + 1);
        assert(steps[n + 1] is Touch);
    }
    check_goes_on(record, now, checks, touches, steps, steps.len() - 1);
    check_goes_on(record, now, checks, touches, steps, 0);
    if touches.len() > 0 {
        assert(steps[0] is Touch);
        assert(steps[touches.len() - 1] is Touch);
        assert(touches.last() == touches[touches.len() - 1]);
        check_goes_on(record, now, checks, touches, steps, touches.len() - 1);
    }
    if touches.len() == record.deps@.len() && record.verified_at.0 <= now.0 && (forall|n: int|
        0 <= n < touches.len() ==> vouches(#[trigger] touches[n], record, now)) {
        if touches.len() > 0 {
            assert(vouches(touches[touches.len() - 1], record, now));
        }
    }
}

/// Whether a value is known to have been the same at every revision since it changed is carried over
/// exactly: checking a value keeps that only as far as each of its dependencies does, what was just
/// computed is known only where it is new, and a result that was taken over is known where its record
/// was, or where its dependencies were found to have been.
pub proof fn settledness_is_carried_over<V, E>(
    ask: Ask<E>,
    w: World<V, E>,
    rev: Revision,
    verified_at: Revision,
    deps: Seq<Dep>,
    place: int,
    settled: bool,
    touch: Touch,
    displaced: StateView<V>,
    flight: Seq<u8>,
    value: Arc<V>,
    unchanged: bool,
)
    requires
        w.runtime.revision == rev,
        w.cell(ask) is Ready,
        touch.changed_at.0 <= verified_at.0,
        0 <= place < deps.len(),
    ensures
        ({
            let next = crate::ingredient::access::stepped(
                ask,
                w,
                PhaseView::CheckLocal { rev, verified_at, deps, next: place, settled },
                AccessEvent::Touched(Some(Ok(touch))),
            );
            let known = settled && touch.settled;
            if place + 1 < deps.len() {
                &&& next.action == AccessAction::<V, E>::Touch(deps[place + 1])
                &&& next.phase == (PhaseView::<V, E>::CheckLocal {
                    rev,
                    verified_at,
                    deps,
                    next: place + 1,
                    settled: known,
                })
                &&& next.world == w
            } else {
                let before = w.cell(ask)->settled;
                &&& next.action matches AccessAction::Return(Ok(result)) && result.settled == (known
                    && before)
                &&& next.world.cell(ask) matches StateView::Ready { settled: after, .. } && after
                    == (known && before)
            }
        }),
        ({
            let next = crate::ingredient::access::stepped(
                ask,
                w,
                PhaseView::Compute { rev, displaced, flight },
                AccessEvent::Computed(ComputeOutcome::Value { value, unchanged }),
            );
            let new = !(unchanged && displaced is Ready && displaced->changed_at != rev);
            &&& next.action matches AccessAction::Return(Ok(result)) && result.settled == new
            &&& next.world.cell(ask) matches StateView::Ready { settled: after, .. } && after == new
        }),
{
}

/// A dependency that cannot be brought up to date ends the check of a value with its error, and the
/// cell stays as it is.
pub proof fn failed_touches_are_returned<V, E>(
    ask: Ask<E>,
    w: World<V, E>,
    rev: Revision,
    verified_at: Revision,
    deps: Seq<Dep>,
    place: int,
    settled: bool,
    error: Arc<PicanteError>,
)
    ensures
        ({
            let next = crate::ingredient::access::stepped(
                ask,
                w,
                PhaseView::CheckLocal { rev, verified_at, deps, next: place, settled },
                AccessEvent::Touched(Some(Err(error))),
            );
            &&& next.action == AccessAction::<V, E>::Return(Err(error))
            &&& next.phase is Done
            &&& next.world.cells == w.cells
            &&& next.world.runtime == w.runtime
            &&& next.world.cache == w.cache
            &&& next.world.running == w.running
        }),
{
}

/// Whether a cell is being computed, or holds what is known at a revision.
pub open spec fn is_taken_care_of<V>(state: StateView<V>, rev: Revision) -> bool {
    ||| state is Running
    ||| state matches StateView::Ready { verified_at, .. } && verified_at == rev
    ||| state matches StateView::Poisoned { verified_at, .. } && verified_at == rev
}

/// An access that another one has overtaken starts over and leaves the cell to it: one whose check
/// has found a change, when the cell is being computed already or holds what is known at its revision;
/// one that was told what it followed, when the cell is, or when the revision has moved on; and one
/// that has checked a value that is no longer there. An access that checked a result while the
/// revision moved on gives the cell back as it was, and wakes those who wait for it.
pub proof fn overtaken_accesses_start_over<V, E>(
    ask: Ask<E>,
    w: World<V, E>,
    rev: Revision,
    verified_at: Revision,
    deps: Seq<Dep>,
    place: int,
    settled: bool,
    touch: Touch,
    entry: Arc<E>,
    value: Arc<V>,
    read: Arc<Vec<Dep>>,
    changed_at: Revision,
    displaced: StateView<V>,
    record: RecordView<V>,
    was_followed: bool,
)
    requires
        0 <= place < deps.len(),
    ensures
        touch.changed_at.0 > verified_at.0 && is_taken_care_of(w.cell(ask), rev) ==> {
            let next = crate::ingredient::access::stepped(
                ask,
                w,
                PhaseView::CheckLocal { rev, verified_at, deps, next: place, settled },
                AccessEvent::Touched(Some(Ok(touch))),
            );
            &&& next.action is Retry
            &&& next.phase is Idle
            &&& next.world.cells == w.cells
        },
        touch.changed_at.0 <= verified_at.0 && place + 1 == deps.len() && !(w.cell(ask) is Ready) ==> {
            let next = crate::ingredient::access::stepped(
                ask,
                w,
                PhaseView::CheckLocal { rev, verified_at, deps, next: place, settled },
                AccessEvent::Touched(Some(Ok(touch))),
            );
            &&& next.action is Retry
            &&& next.phase is Idle
            &&& next.world.cells == w.cells
        },
        w.runtime.revision != rev || is_taken_care_of(w.cell(ask), rev) ==> {
            let next = crate::ingredient::access::stepped(
                ask,
                w,
                PhaseView::Follow { rev, entry },
                AccessEvent::Leader(
                    crate::inflight::InFlightState::Done { value, deps: read, changed_at },
                ),
            );
            &&& next.action is Retry
            &&& next.phase is Idle
            &&& next.world == w
        },
        w.runtime.revision != rev && record.deps.len() == place + 1 && (record.verified_at == rev
            || touch.settled && touch.changed_at.0 <= record.changed_at.0) ==> {
            let next = crate::ingredient::access::stepped(
                ask,
                w,
                PhaseView::CheckShared {
                    rev,
                    displaced,
                    record,
                    followed: was_followed,
                    next: place,
                },
                AccessEvent::Touched(Some(Ok(touch))),
            );
            &&& next.action is Retry
            &&& next.phase is Idle
            &&& next.world.cell(ask) == displaced
            &&& next.wake
            &&& next.world.runtime == w.runtime
            &&& next.world.cache == w.cache
        },
{
}

/// A result that was just computed is filed for the other views of the same database, with its
/// dependencies and revisions, unless the revision has moved on meanwhile: then nothing is filed.
pub proof fn computed_results_are_filed<V, E>(
    ask: Ask<E>,
    w: World<V, E>,
    rev: Revision,
    displaced: StateView<V>,
    flight: Seq<u8>,
    value: Arc<V>,
    unchanged: bool,
)
    requires
        w.stack.len() > 0,
    ensures
        ({
            let next = crate::ingredient::access::stepped(
                ask,
                w,
                PhaseView::Compute { rev, displaced, flight },
                AccessEvent::Computed(ComputeOutcome::Value { value, unchanged }),
            );
            let name = crate::inflight::shared_name(w.runtime.id, ask.requested@);
            &&& w.runtime.revision != rev ==> next.world.cache == w.cache
            &&& w.runtime.revision == rev ==> {
                let held = next.world.cache.held;
                &&& held.contains_key(name)
                &&& held[name].value == value
                &&& held[name].deps == w.stack[w.stack.len() - 1].recorded
                &&& held[name].verified_at == rev
                &&& next.world.cell(ask) matches StateView::Ready { changed_at, settled, .. }
                    && held[name].changed_at == changed_at && held[name].settled == settled
            }
        }),
{
}

/// A result that is taken over comes with its dependencies: the graph has them from then on, in
/// order, and the cell and the cache hold it as known to have been the same if its record was known
/// to be, or was of an earlier revision.
pub proof fn taken_over_results_have_their_dependencies<V, E>(
    ask: Ask<E>,
    w: World<V, E>,
    rev: Revision,
    displaced: StateView<V>,
    record: RecordView<V>,
    was_followed: bool,
    place: int,
    touch: Touch,
)
    requires
        w.runtime.revision == rev,
        0 <= place,
        record.deps.len() == place + 1,
        record.verified_at == rev || touch.settled && touch.changed_at.0 <= record.changed_at.0,
    ensures
        ({
            let next = crate::ingredient::access::stepped(
                ask,
                w,
                PhaseView::CheckShared {
                    rev,
                    displaced,
                    record,
                    followed: was_followed,
                    next: place,
                },
                AccessEvent::Touched(Some(Ok(touch))),
            );
            let known = record.settled || record.verified_at != rev;
            let node = (ask.requested.kind.0, ask.requested.key@);
            let forward = next.world.runtime.forward;
            let name = crate::inflight::shared_name(w.runtime.id, ask.requested@);
            &&& forward.contains_key(node)
            &&& forward[node].len() == record.deps.len()
            &&& forall|i: int|
                0 <= i < record.deps.len() ==> (#[trigger] forward[node][i]) == (
                    record.deps[i].kind.0,
                    record.deps[i].key@,
                )
            &&& forall|other: crate::key::Node|
                other != node ==> (#[trigger] forward.contains_key(other)
                    <==> w.runtime.forward.contains_key(other)) && (forward.contains_key(other)
                    ==> forward[other] == w.runtime.forward[other])
            &&& next.world.cell(ask) matches StateView::Ready { settled, .. } && settled == known
            &&& next.world.cache.held[name].settled == known
            &&& next.action matches AccessAction::Return(Ok(result)) && result.settled == known
            &&& next.world.running == w.running
        }),
{
}

/// A query that already runs on this stack is refused, and only such a query is: the error names the
/// query that was asked for and all that run, from the outermost to the innermost, and nothing
/// changes. Any other query is recorded once, as the last dependency of the innermost that runs, if
/// its value is wanted; the others that run do not see it.
pub proof fn cycles_are_refused<V, E>(
    kind: QueryKindId,
    cells: Cells<V>,
    cells_after: Cells<V>,
    stack: Seq<FrameView>,
    stack_after: Seq<FrameView>,
    key: Key,
    want_value: bool,
    r: PicanteResult<Access<V, E>>,
)
    requires
        crate::ingredient::access::began(
            kind,
            cells,
            cells_after,
            stack,
            stack_after,
            key,
            want_value,
            r,
        ),
    ensures
        r is Err <==> exists|i: int|
            0 <= i < stack.len() && (#[trigger] stack[i]).query.kind.0 == kind.0
                && stack[i].query.key@ == key@,
        r matches Err(error) ==> {
            &&& *error matches PicanteError::Cycle { requested, stack: path } && {
                &&& requested.kind == kind
                &&& requested.key == key
                &&& path@.len() == stack.len()
                &&& forall|i: int| 0 <= i < stack.len() ==> (#[trigger] path@[i]) == stack[i].query
            }
            &&& stack_after == stack
            &&& cells_after == cells
        },
        r is Ok ==> {
            &&& stack_after.len() == stack.len()
            &&& forall|i: int|
                0 <= i < stack.len() ==> (#[trigger] stack_after[i]).query == stack[i].query
                    && stack_after[i].start == stack[i].start
            &&& forall|i: int|
                0 <= i < stack.len() && !(want_value && i == stack.len() - 1) ==> (
                #[trigger] stack_after[i]).recorded == stack[i].recorded
            &&& want_value && stack.len() > 0 ==> {
                let before = stack[stack.len() - 1].recorded;
                let after = stack_after[stack.len() - 1].recorded;
                &&& after.len() == before.len() + 1
                &&& after.take(before.len() as int) == before
                &&& after[before.len() as int].kind == kind
                &&& after[before.len() as int].key == key
            }
            &&& forall|k: Seq<u8>| #[trigger]
                cells_after.contains_key(k) <==> cells.contains_key(k) || k == key@
            &&& forall|k: Seq<u8>|
                cells.contains_key(k) ==> (#[trigger] cells_after[k]) == cells[k]
            &&& !cells.contains_key(key@) ==> cells_after[key@] is Vacant
        },
{
    let requested = DynKey { kind, key };
    if crate::frame::on_stack(stack, requested@) {
        let i = choose|i: int| 0 <= i < stack.len() && (#[trigger] stack[i]).query@ == requested@;
        assert(stack[i].query.kind.0 == kind.0 && stack[i].query.key@ == key@);
    }
    if exists|i: int|
        0 <= i < stack.len() && (#[trigger] stack[i]).query.kind.0 == kind.0 && stack[i].query.key@
            == key@ {
        let i = choose|i: int|
            0 <= i < stack.len() && (#[trigger] stack[i]).query.kind.0 == kind.0
                && stack[i].query.key@ == key@;
        assert(stack[i].query@ == requested@);
    }
    if r is Ok && want_value && stack.len() > 0 {
        let before = stack[stack.len() - 1].recorded;
        let after = stack_after[stack.len() - 1].recorded;
        assert(after.take(before.len() as int) =~= before);
    }
}

/// Nobody waits in vain for an access that was given up: where it held the cell as being computed, or
/// followed another view's computation, those who wait for the cell are woken; and where it led,
/// its followers are told that the computation was called off. The cell is then as it was before.
pub proof fn given_up_accesses_wake_and_tell<V, E>(
    ask: Ask<E>,
    w: World<V, E>,
    phase: PhaseView<V, E>,
    farewell: Farewell<V>,
)
    requires
        crate::ingredient::access::said_farewell(phase, farewell),
    ensures
        ({
            let after = crate::ingredient::access::abandoned(ask.requested, w, phase);
            match phase {
                PhaseView::Compute { displaced, flight, .. } => {
                    &&& farewell.wake
                    &&& farewell.publish matches Some(told) && told is Cancelled
                    &&& after.cell(ask) == displaced
                    &&& !after.running.contains_key(flight)
                },
                PhaseView::CheckShared { displaced, .. } => {
                    &&& farewell.wake
                    &&& farewell.publish is None
                    &&& after.cell(ask) == displaced
                    &&& after.running == w.running
                },
                PhaseView::Follow { .. } => farewell.wake && farewell.publish is None && after == w,
                PhaseView::CheckLocal { .. } => !farewell.wake && farewell.publish is None
                    && after.cells == w.cells && after.running == w.running,
                _ => !farewell.wake && farewell.publish is None && after == w,
            }
        }),
{
}

} // verus!
