//! Laws of the access state machine.
use crate::error::{PicanteError, PicanteResult};
#[allow(unused_imports)]
use crate::inflight::FlightView;
use crate::ingredient::access::{AccessAction, AccessEvent, ComputeOutcome, Touch};
#[allow(unused_imports)]
use crate::ingredient::access::{Ask, PhaseView, StepView, World};
#[allow(unused_imports)]
use crate::ingredient::derived::StateView;
#[allow(unused_imports)]
use crate::ingredient::input::Entries;
use crate::ingredient::input::InputIngredient;
#[allow(unused_imports)]
use crate::key::Node;
use crate::key::{Dep, Key, QueryKindId};
use crate::revision::Revision;
use crate::runtime::Runtime;
use std::sync::Arc;
use vstd::prelude::*;

verus! {

/// A value that an access returns is the value of the cell, valid at the revision that the
/// database is at, with the revision at which it last changed.
pub proof fn returned_value_is_current<V, E>(
    ask: Ask<E>,
    w: World<V, E>,
    phase: PhaseView<V, E>,
    event: AccessEvent<V>,
)
    requires
        crate::ingredient::access::expects(phase, event),
    ensures
        ({
            let next = crate::ingredient::access::stepped(ask, w, phase, event);
            next.action matches AccessAction::Return(Ok(result)) ==> {
                &&& next.world.cell(ask) matches StateView::Ready {
                    value,
                    verified_at,
                    changed_at,
                    settled,
                    ..
                } && {
                    &&& verified_at == next.world.runtime.revision
                    &&& result == crate::ingredient::access::handed_out(
                        ask,
                        value,
                        changed_at,
                        settled,
                    )
                }
                &&& next.phase is Done
            }
        }),
{
}

/// An error that an access returns is recorded in the cell for the current revision, unless
/// it came from touching a dependency of the cell's own value.
pub proof fn returned_error_is_recorded<V, E>(
    ask: Ask<E>,
    w: World<V, E>,
    phase: PhaseView<V, E>,
    event: AccessEvent<V>,
)
    requires
        crate::ingredient::access::expects(phase, event),
        !(phase is CheckLocal && (event matches AccessEvent::Touched(Some(Err(_))))),
    ensures
        ({
            let next = crate::ingredient::access::stepped(ask, w, phase, event);
            next.action matches AccessAction::Return(Err(error)) ==> next.world.cell(ask)
                == (StateView::<V>::Poisoned { error, verified_at: next.world.runtime.revision })
        }),
{
}

/// Memoisation: a value that was verified at the current revision is returned as it is, and
/// nothing else happens.
pub proof fn verified_value_is_reused<V, E>(
    ask: Ask<E>,
    w: World<V, E>,
    value: Arc<V>,
    changed_at: Revision,
    settled: bool,
    deps: Seq<Dep>,
)
    requires
        w.cell(ask) == (StateView::Ready {
            value,
            verified_at: w.runtime.revision,
            changed_at,
            settled,
            deps,
        }),
    ensures
        crate::ingredient::access::polled(ask, w) == crate::ingredient::access::quietly(
            w,
            PhaseView::Done,
            AccessAction::Return(
                Ok(
                    crate::ingredient::access::handed_out(
                        ask,
                        value,
                        changed_at,
                        settled,
                    ),
                ),
            ),
        ),
{
}

/// Poisoning is scoped to a revision: at the revision of the failure the same error is
/// returned without running the query, and at any other revision the failure is no obstacle
/// to a new attempt.
pub proof fn poison_is_scoped<V, E>(
    ask: Ask<E>,
    w: World<V, E>,
    error: Arc<PicanteError>,
    verified_at: Revision,
)
    requires
        w.cell(ask) == (StateView::<V>::Poisoned { error, verified_at }),
    ensures
        verified_at == w.runtime.revision ==> crate::ingredient::access::polled(ask, w)
            == crate::ingredient::access::quietly(
            w,
            PhaseView::Done,
            AccessAction::Return(Err(error)),
        ),
        verified_at != w.runtime.revision ==> {
            let next = crate::ingredient::access::polled(ask, w);
            &&& next == crate::ingredient::access::started(ask, w, w.runtime.revision)
            &&& next.action is Run || next.action is Touch || next.action is Follow || (
            next.action matches AccessAction::Return(Ok(_)))
        },
{
}

/// Within one database a query is computed by one task at a time: whoever finds the cell
/// taken waits, and changes nothing.
pub proof fn running_cell_is_waited_for<V, E>(ask: Ask<E>, w: World<V, E>)
    requires
        w.cell(ask) is Running,
    ensures
        crate::ingredient::access::polled(ask, w) == crate::ingredient::access::quietly(
            w,
            PhaseView::Idle,
            AccessAction::Wait,
        ),
{
}

/// A query is only run by an access that has taken the cell at the revision it computes at
/// and has registered itself as the only leader of that computation.
pub proof fn only_leaders_run<V, E>(
    ask: Ask<E>,
    w: World<V, E>,
    phase: PhaseView<V, E>,
    event: AccessEvent<V>,
)
    requires
        crate::ingredient::access::expects(phase, event),
        phase matches PhaseView::CheckShared { rev, .. } ==> w.cell(ask) == (
        StateView::<V>::Running { started_at: rev }),
    ensures
        ({
            let next = crate::ingredient::access::stepped(ask, w, phase, event);
            next.action is Run ==> {
                &&& next.phase matches PhaseView::Compute { rev, flight, .. } && {
                    &&& next.world.cell(ask) == (StateView::<V>::Running { started_at: rev })
                    &&& flight == w.flight(ask, rev)
                    &&& !w.running.contains_key(flight)
                    &&& next.world.running == w.running.insert(flight, ask.fresh)
                }
            }
        }),
{
}

/// What the followers of a computation are told of its outcome, with what the query read and
/// when its value last changed.
pub open spec fn told<V>(
    outcome: ComputeOutcome<V>,
    deps: Seq<Dep>,
    changed_at: Revision,
) -> FlightView<V> {
    match outcome {
        ComputeOutcome::Value { value, .. } => FlightView::Done { value, deps, changed_at },
        ComputeOutcome::Failed(error) => FlightView::Failed(error),
        ComputeOutcome::Panicked(message) => FlightView::Failed(
            Arc::new(PicanteError::Panic { message }),
        ),
    }
}

/// Followers learn of a computation when its leader ends it, and only then: once the query has
/// run, its outcome is published, or that it is called off where the leader's database has moved on
/// meanwhile, and the computation is no longer registered; no other step publishes anything or
/// takes a computation off the registry.
pub proof fn followers_are_told_at_the_end<V, E>(
    ask: Ask<E>,
    w: World<V, E>,
    phase: PhaseView<V, E>,
    event: AccessEvent<V>,
)
    requires
        crate::ingredient::access::expects(phase, event),
    ensures
        ({
            let next = crate::ingredient::access::stepped(ask, w, phase, event);
            match (phase, event) {
                (
                    PhaseView::Compute { rev, displaced, flight },
                    AccessEvent::Computed(outcome),
                ) => {
                    let unchanged = outcome matches ComputeOutcome::Value { unchanged, .. }
                        && unchanged;
                    &&& next.publish == Some(
                        crate::ingredient::access::told_at(
                            w,
                            rev,
                            told(
                                outcome,
                                crate::ingredient::access::top_recorded(w.stack),
                                crate::ingredient::access::cutoff(displaced, unchanged, rev),
                            ),
                        ),
                    )
                    &&& next.world.running == w.running.remove(flight)
                },
                _ => {
                    &&& next.publish is None
                    &&& w.running.submap_of(next.world.running)
                },
            }
        }),
{
}

/// A record that was made at a later revision is passed over: the query is computed as if there were
/// none, or the computation of it at this very revision is followed.
pub proof fn later_records_are_passed_over<V, E>(ask: Ask<E>, w: World<V, E>, rev: Revision)
    requires
        !crate::ingredient::access::is_raced(w.cell(ask), rev),
        ({
            let name = crate::inflight::shared_name(w.runtime.id, ask.requested@);
            w.cache.held.contains_key(name) ==> w.cache.held[name].verified_at.0 > rev.0
        }),
    ensures
        crate::ingredient::access::started(ask, w, rev) == crate::ingredient::access::led(
            ask,
            w.with_cell(ask, StateView::Running { started_at: rev }),
            rev,
            w.cell(ask),
        ),
{
}

/// Taking over what another view has found out never fails: an access that looks at the dependencies
/// of a record goes on whatever comes of a touch, and either takes the record over or computes.
pub proof fn taking_over_never_fails<V, E>(
    ask: Ask<E>,
    w: World<V, E>,
    phase: PhaseView<V, E>,
    event: AccessEvent<V>,
)
    requires
        crate::ingredient::access::expects(phase, event),
        phase is CheckShared,
    ensures
        !(crate::ingredient::access::stepped(ask, w, phase, event).action matches
            AccessAction::Return(Err(_))),
{
}

/// What is shared is what the cell holds: a step leaves the cache of completed results alone, or
/// files in it, under the identity of the database, what the query's cell then holds as valid at the
/// revision that the database is at.
pub proof fn shared_is_what_the_cell_holds<V, E>(
    ask: Ask<E>,
    w: World<V, E>,
    phase: PhaseView<V, E>,
    event: AccessEvent<V>,
)
    requires
        crate::ingredient::access::expects(phase, event),
    ensures
        ({
            let next = crate::ingredient::access::stepped(ask, w, phase, event);
            ||| next.world.cache == w.cache
            ||| next.world.cell(ask) matches StateView::Ready {
                value,
                verified_at,
                changed_at,
                settled,
                deps,
            } && {
                &&& verified_at == w.runtime.revision
                &&& next.world.cache == w.cached(
                    ask,
                    value,
                    deps,
                    changed_at,
                    verified_at,
                    settled,
                ).cache
            }
        }),
{
}

/// A stale value is checked against what it read, from the first dependency on; what counts is
/// the revision at which the value was last known to be valid.
pub proof fn stale_value_is_checked<V, E>(
    ask: Ask<E>,
    w: World<V, E>,
    value: Arc<V>,
    verified_at: Revision,
    changed_at: Revision,
    settled: bool,
    deps: Seq<Dep>,
)
    requires
        w.cell(ask) == (StateView::Ready { value, verified_at, changed_at, settled, deps }),
        verified_at != w.runtime.revision,
    ensures
        crate::ingredient::access::polled(ask, w) == crate::ingredient::access::local_check(
            ask,
            w.pushed(ask, w.runtime.revision),
            w.runtime.revision,
            verified_at,
            deps,
            0,
            true,
        ),
{
}

/// Early cutoff: a recomputed value that equals the one before is valid at the new revision
/// but keeps the revision at which it changed, and is not announced; any other value counts
/// as changed now, and is announced once.
pub proof fn equal_value_is_cut_off<V, E>(
    ask: Ask<E>,
    w: World<V, E>,
    rev: Revision,
    previous: Arc<V>,
    verified_before: Revision,
    changed_before: Revision,
    settled_before: bool,
    deps_before: Seq<Dep>,
    flight: Seq<u8>,
    value: Arc<V>,
    unchanged: bool,
)
    requires
        changed_before.0 < rev.0,
    ensures
        ({
            let displaced = StateView::Ready {
                value: previous,
                verified_at: verified_before,
                changed_at: changed_before,
                settled: settled_before,
                deps: deps_before,
            };
            let next = crate::ingredient::access::computed(
                ask,
                w,
                rev,
                displaced,
                flight,
                ComputeOutcome::Value { value, unchanged },
            );
            let changed_at = if unchanged {
                changed_before
            } else {
                rev
            };
            &&& next.world.cell(ask) == (StateView::Ready {
                value,
                verified_at: rev,
                changed_at,
                settled: !unchanged,
                deps: crate::ingredient::access::top_recorded(w.stack),
            })
            &&& next.world.runtime.events == (if unchanged {
                w.runtime.events
            } else {
                w.runtime.events.push(crate::runtime::query_changed_event(rev, ask.requested))
            })
        }),
{
}

/// How many frames an access has pushed in a phase.
pub open spec fn frames_of<V, E>(phase: PhaseView<V, E>) -> nat {
    match phase {
        PhaseView::CheckLocal { .. } => 1,
        PhaseView::CheckShared { .. } => 1,
        PhaseView::Compute { .. } => 1,
        _ => 0,
    }
}

/// An access leaves the frames below its own as they were, and leaves none of its own behind
/// when it is over.
pub proof fn frames_are_balanced<V, E>(
    ask: Ask<E>,
    w: World<V, E>,
    phase: PhaseView<V, E>,
    event: AccessEvent<V>,
)
    requires
        crate::ingredient::access::expects(phase, event),
        w.stack.len() >= frames_of(phase),
    ensures
        ({
            let next = crate::ingredient::access::stepped(ask, w, phase, event);
            let base = w.stack.len() - frames_of(phase);
            &&& next.world.stack.len() == base + frames_of(next.phase)
            &&& next.world.stack.take(base) == w.stack.take(base)
        }),
{
    let next = crate::ingredient::access::stepped(ask, w, phase, event);
    let base = w.stack.len() - frames_of(phase);
    assert(next.world.stack.take(base) =~= w.stack.take(base));
}

/// A step touches nothing of other queries: neither their cells, nor what is known of their
/// dependencies, nor computations other than its own.
#[verifier::rlimit(50)]
pub proof fn other_queries_are_untouched<V, E>(
    ask: Ask<E>,
    w: World<V, E>,
    phase: PhaseView<V, E>,
    event: AccessEvent<V>,
)
    requires
        crate::ingredient::access::expects(phase, event),
    ensures
        ({
            let next = crate::ingredient::access::stepped(ask, w, phase, event);
            &&& forall|k: Seq<u8>|
                k != ask.requested.key@ ==> #[trigger] crate::ingredient::derived::state_at(
                    next.world.cells,
                    k,
                ) == crate::ingredient::derived::state_at(w.cells, k)
            &&& forall|q: Node|
                q != ask.requested@ ==> (#[trigger] next.world.runtime.forward.contains_key(q)
                    <==> w.runtime.forward.contains_key(q)) && (w.runtime.forward.contains_key(q)
                    ==> next.world.runtime.forward[q] == w.runtime.forward[q])
            &&& next.world.runtime.revision == w.runtime.revision
            &&& next.world.runtime.id == w.runtime.id
            &&& next.world.runtime.apart == w.runtime.apart
        }),
{
}

/// A cancelled computation leaves no trace: once an access that had just taken the cell and
/// started to compute is given up, the cells, the running computations, the frames, the
/// runtime and the cache are what they were before.
pub proof fn cancelled_computation_leaves_no_trace<V, E>(ask: Ask<E>, w: World<V, E>)
    requires
        crate::ingredient::access::polled(ask, w).action is Run,
        w.cells.contains_key(ask.requested.key@),
    ensures
        crate::ingredient::access::abandoned(
            ask.requested,
            crate::ingredient::access::polled(ask, w).world,
            crate::ingredient::access::polled(ask, w).phase,
        ) == w,
{
    let next = crate::ingredient::access::polled(ask, w);
    let back = crate::ingredient::access::abandoned(ask.requested, next.world, next.phase);
    assert(back.cells =~= w.cells);
    assert(back.running =~= w.running);
    assert(back.stack =~= w.stack);
    assert(back =~= w);
}

/// What the cell held when an access took it, in the phases in which it has it.
pub open spec fn displaced_in<V, E>(phase: PhaseView<V, E>) -> Option<StateView<V>> {
    match phase {
        PhaseView::CheckShared { displaced, .. } => Some(displaced),
        PhaseView::Compute { displaced, .. } => Some(displaced),
        _ => None,
    }
}

/// An access that takes the cell remembers what the cell held, and keeps it until it gives the
/// cell up; and whenever the access is dropped meanwhile, that is what the cell holds again. So a
/// dropped access leaves neither a value nor a failure behind.
pub proof fn dropped_access_restores_the_cell<V, E>(
    ask: Ask<E>,
    w: World<V, E>,
    phase: PhaseView<V, E>,
    event: AccessEvent<V>,
)
    requires
        crate::ingredient::access::expects(phase, event),
    ensures
        ({
            let next = crate::ingredient::access::stepped(ask, w, phase, event);
            let left = crate::ingredient::access::abandoned(
                ask.requested,
                next.world,
                next.phase,
            );
            match displaced_in(next.phase) {
                Some(state) => {
                    &&& state == (match displaced_in(phase) {
                        Some(earlier) => earlier,
                        None => w.cell(ask),
                    })
                    &&& left.cell(ask) == state
                },
                None => left.cell(ask) == next.world.cell(ask),
            }
        }),
{
}

/// The check of a value's dependencies, from `next` on, as the touches come in.
pub open spec fn local_run<V, E>(
    ask: Ask<E>,
    w: World<V, E>,
    rev: Revision,
    verified_at: Revision,
    deps: Seq<Dep>,
    next: int,
    settled: bool,
    touches: Seq<Option<PicanteResult<Touch>>>,
) -> StepView<V, E>
    decreases touches.len(),
{
    if touches.len() == 0 {
        crate::ingredient::access::local_check(ask, w, rev, verified_at, deps, next, settled)
    } else {
        let step = crate::ingredient::access::local_touched(
            ask,
            w,
            rev,
            verified_at,
            deps,
            next,
            settled,
            touches[0],
        );
        match touches[0] {
            Some(Ok(touch)) if touch.changed_at.0 <= verified_at.0 && next + 1 < deps.len() => {
                local_run(
                    ask,
                    w,
                    rev,
                    verified_at,
                    deps,
                    next + 1,
                    settled && touch.settled,
                    touches.drop_first(),
                )
            },
            _ => step,
        }
    }
}

/// Whether a dependency's touch speaks for the value: the dependency is known, touching it
/// went well, and it has not changed since the value was last known to be valid.
pub open spec fn speaks_for(touched: Option<PicanteResult<Touch>>, verified_at: Revision) -> bool {
    touched matches Some(Ok(touch)) && touch.changed_at.0 <= verified_at.0
}

/// Whether touching the dependencies tells of all of them that they are settled.
pub open spec fn all_settled(touches: Seq<Option<PicanteResult<Touch>>>) -> bool {
    forall|i: int|
        0 <= i < touches.len() ==> ((#[trigger] touches[i]) matches Some(Ok(touch))
            && touch.settled)
}

/// Revalidation: a stale value is reused as valid at the new revision if every one of its
/// dependencies speaks for it. It stays settled if they all are.
pub proof fn revalidation_succeeds<V, E>(
    ask: Ask<E>,
    w: World<V, E>,
    rev: Revision,
    verified_at: Revision,
    deps: Seq<Dep>,
    next: int,
    settled: bool,
    touches: Seq<Option<PicanteResult<Touch>>>,
)
    requires
        0 <= next < deps.len(),
        touches.len() == deps.len() - next,
        forall|i: int| 0 <= i < touches.len() ==> speaks_for(#[trigger] touches[i], verified_at),
    ensures
        local_run(ask, w, rev, verified_at, deps, next, settled, touches)
            == crate::ingredient::access::reused(
            ask,
            w.popped(),
            rev,
            settled && all_settled(touches),
        ),
    decreases touches.len(),
{
    assert(speaks_for(touches[0], verified_at));
    let first = touches[0]->0->Ok_0.settled;
    if next + 1 >= deps.len() {
        assert(all_settled(touches) == first);
    } else {
        let rest = touches.drop_first();
        assert forall|i: int| 0 <= i < rest.len() implies speaks_for(
            #[trigger] rest[i],
            verified_at,
        ) by {
            assert(rest[i] == touches[i + 1]);
        }
        assert(all_settled(touches) == (first && all_settled(rest))) by {
            if all_settled(touches) {
                assert(touches[0] matches Some(Ok(touch)) && touch.settled);
                assert forall|i: int| 0 <= i < rest.len() implies ((
                #[trigger] rest[i]) matches Some(Ok(touch)) && touch.settled) by {
                    assert(rest[i] == touches[i + 1]);
                }
            }
            if first && all_settled(rest) {
                assert forall|i: int| 0 <= i < touches.len() implies ((
                #[trigger] touches[i]) matches Some(Ok(touch)) && touch.settled) by {
                    if i > 0 {
                        assert(touches[i] == rest[i - 1]);
                    }
                }
            }
        }
        revalidation_succeeds(
            ask,
            w,
            rev,
            verified_at,
            deps,
            next + 1,
            settled && first,
            rest,
        );
    }
}

/// Revalidation fails at the first dependency that does not speak for the value: the query
/// is then computed anew, or, where touching the dependency failed, the access returns that
/// error.
pub proof fn revalidation_fails<V, E>(
    ask: Ask<E>,
    w: World<V, E>,
    rev: Revision,
    verified_at: Revision,
    deps: Seq<Dep>,
    next: int,
    settled: bool,
    touches: Seq<Option<PicanteResult<Touch>>>,
)
    requires
        0 <= next < deps.len(),
        0 < touches.len() <= deps.len() - next,
        forall|i: int|
            0 <= i < touches.len() - 1 ==> speaks_for(#[trigger] touches[i], verified_at),
        !speaks_for(touches.last(), verified_at),
    ensures
        local_run(ask, w, rev, verified_at, deps, next, settled, touches) == (match touches.last() {
            Some(Err(error)) => crate::ingredient::access::quietly(
                w.popped(),
                PhaseView::Done,
                AccessAction::Return(Err(error)),
            ),
            _ => crate::ingredient::access::started(ask, w.popped(), rev),
        }),
    decreases touches.len(),
{
    if touches.len() > 1 {
        assert(speaks_for(touches[0], verified_at));
        let rest = touches.drop_first();
        assert forall|i: int| 0 <= i < rest.len() - 1 implies speaks_for(
            #[trigger] rest[i],
            verified_at,
        ) by {
            assert(rest[i] == touches[i + 1]);
        }
        assert(rest.last() == touches.last());
        revalidation_fails(
            ask,
            w,
            rev,
            verified_at,
            deps,
            next + 1,
            settled && touches[0]->0->Ok_0.settled,
            rest,
        );
    }
}

/// Invalidation: once an input has changed, touching it speaks against every value that was
/// last valid before, so whatever read the input is not reused without another look.
pub proof fn changed_input_speaks_against<V, F: Fn(&V, &V) -> bool>(
    before: Entries<V>,
    after: Entries<V>,
    runtime_before: Runtime,
    runtime_after: Runtime,
    kind: QueryKindId,
    key: Key,
    value: V,
    same: F,
    r: Revision,
    verified_at: Revision,
)
    requires
        InputIngredient::<V>::was_set(
            before,
            after,
            runtime_before,
            runtime_after,
            kind,
            Ok(key),
            value,
            same,
            r,
        ) || InputIngredient::<V>::was_removed(
            before,
            after,
            runtime_before,
            runtime_after,
            kind,
            Ok(key),
            r,
        ),
        after != before,
        verified_at.0 <= runtime_before.revision().0,
    ensures
        after.contains_key(key@),
        !speaks_for(
            Some(Ok(Touch { changed_at: after[key@].changed_at, settled: true })),
            verified_at,
        ),
{
}

} // verus!
