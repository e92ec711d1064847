//! The access state machine of derived queries.
//!
//! An access looks at a cell, revalidates a stale value against its dependencies, adopts
//! a result that another snapshot has completed, follows one that another snapshot is
//! computing, or computes. Before a result is taken over, its dependencies are looked at here,
//! too. The steps that wait, touch a dependency or run the query belong to the caller:
//! [`Access::advance`] says what to do next, and is told what came of it.
use crate::error::{PicanteError, PicanteResult};
use crate::frame::{find_cycle, has_active_frame, record_dep, ActiveFrameHandle, FrameStack};
#[allow(unused_imports)]
use crate::frame::FrameView;
use crate::inflight::{
    InFlightGuard, InFlightKey, InFlightRegistry, InFlightState, SharedCache, SharedCacheRecord,
    TryLeadResult,
};
#[allow(unused_imports)]
use crate::inflight::{CacheView, FlightView, RecordView};
#[allow(unused_imports)]
use crate::ingredient::derived::{Cells, StateView};
use crate::ingredient::derived::{DerivedCore, ErasedState};
use crate::key::{Dep, DynKey, Key};
#[allow(unused_imports)]
use crate::key::QueryKindId;
use crate::revision::Revision;
use crate::runtime::Runtime;
#[allow(unused_imports)]
use crate::runtime::RuntimeView;
use crate::share::share;
use std::sync::Arc;
use vstd::prelude::*;

verus! {

/// Result of an access.
pub struct ErasedAccessResult<V> {
    /// The value, where the caller asked for it.
    pub value: Option<Arc<V>>,
    /// When the value last changed.
    pub changed_at: Revision,
    /// Whether the value is known to have been the same at every revision since then.
    pub settled: bool,
}

/// What came of running a query.
pub enum ComputeOutcome<V> {
    /// It returned a value.
    Value {
        /// The value.
        value: Arc<V>,
        /// Whether it equals the previous value, where there was one.
        unchanged: bool,
    },
    /// It returned an error.
    Failed(Arc<PicanteError>),
    /// It panicked, with this message.
    Panicked(String),
}

/// What touching a dependency tells of it.
#[derive(Debug, Copy, Clone, PartialEq, Eq, Structural)]
pub struct Touch {
    /// When it last changed.
    pub changed_at: Revision,
    /// Whether it is known to have had the same value at every revision since then. Of a query this
    /// is not always known: between two looks at it, its value may change and change back.
    pub settled: bool,
}

impl Touch {
    /// What touching an input or an interned value tells, which changes only when it is told to.
    pub fn of_source(changed_at: Revision) -> (r: Self)
        ensures
            r == (Touch { changed_at, settled: true }),
    {
        Touch { changed_at, settled: true }
    }

    /// What touching a query tells.
    pub fn of_query<V>(result: &ErasedAccessResult<V>) -> (r: Self)
        ensures
            r == (Touch { changed_at: result.changed_at, settled: result.settled }),
    {
        Touch { changed_at: result.changed_at, settled: result.settled }
    }
}

/// What an access is told.
pub enum AccessEvent<V> {
    /// Look at the cell (again).
    Poll,
    /// The dependency was touched: what that tells, or an error, or `None` where the database
    /// knows no ingredient of its kind.
    Touched(Option<PicanteResult<Touch>>),
    /// The state of the leader's computation.
    Leader(InFlightState<V>),
    /// The query was run.
    Computed(ComputeOutcome<V>),
}

/// What an access asks its caller to do.
pub enum AccessAction<V, E> {
    /// Wait until the cell's waiters are woken, then poll.
    Wait,
    /// Touch this dependency.
    Touch(Dep),
    /// Wait until the leader's computation is settled, and report its state.
    Follow(Arc<E>),
    /// Run the query; its frame has been pushed. The previous value is there to compare with.
    Run {
        /// The value that the cell held before.
        previous: Option<Arc<V>>,
    },
    /// Poll again: the database has moved on.
    Retry,
    /// The access is over.
    Return(PicanteResult<ErasedAccessResult<V>>),
}

/// One step of an access.
pub struct AccessStep<V, E> {
    /// What to do next.
    pub action: AccessAction<V, E>,
    /// Whether to wake the waiters of the cell.
    pub wake: bool,
    /// What to tell the followers of the computation that this access leads.
    pub publish: Option<InFlightState<V>>,
}

enum AccessPhase<V, E> {
    Idle,
    CheckLocal {
        rev: Revision,
        verified_at: Revision,
        deps: Arc<Vec<Dep>>,
        next: usize,
        settled: bool,
    },
    CheckShared {
        rev: Revision,
        displaced: ErasedState<V>,
        record: SharedCacheRecord<V>,
        followed: bool,
        next: usize,
    },
    Follow { rev: Revision, entry: Arc<E> },
    Compute { rev: Revision, displaced: ErasedState<V>, guard: InFlightGuard },
    Done,
}

/// Where an access stands.
#[verifier::ext_equal]
pub ghost enum PhaseView<V, E> {
    /// It has not looked at the cell yet.
    Idle,
    /// It checks the dependencies of the cell's own value, `next` being the one at hand; `settled`
    /// says whether those before are known to have been the same all the time.
    CheckLocal { rev: Revision, verified_at: Revision, deps: Seq<Dep>, next: int, settled: bool },
    /// It holds the cell and looks at the dependencies of a record that another database may have
    /// made; `followed` says whether it has waited for the computation of it.
    CheckShared {
        rev: Revision,
        displaced: StateView<V>,
        record: RecordView<V>,
        followed: bool,
        next: int,
    },
    /// It waits for the computation of another snapshot.
    Follow { rev: Revision, entry: Arc<E> },
    /// It holds the cell, leads the computation filed under `flight`, and runs the query.
    Compute { rev: Revision, displaced: StateView<V>, flight: Seq<u8> },
    /// It is over.
    Done,
}

impl<V, E> View for AccessPhase<V, E> {
    type V = PhaseView<V, E>;

    closed spec fn view(&self) -> PhaseView<V, E> {
        match *self {
            AccessPhase::Idle => PhaseView::Idle,
            AccessPhase::CheckLocal {
                rev,
                verified_at,
                deps,
                next,
                settled,
            } => PhaseView::CheckLocal {
                rev,
                verified_at,
                deps: deps@,
                next: next as int,
                settled,
            },
            AccessPhase::CheckShared {
                rev,
                displaced,
                record,
                followed,
                next,
            } => PhaseView::CheckShared {
                rev,
                displaced: displaced@,
                record: record@,
                followed,
                next: next as int,
            },
            AccessPhase::Follow { rev, entry } => PhaseView::Follow { rev, entry },
            AccessPhase::Compute { rev, displaced, guard } => PhaseView::Compute {
                rev,
                displaced: displaced@,
                flight: guard.of().name(),
            },
            AccessPhase::Done => PhaseView::Done,
        }
    }
}

/// Everything that a step of an access can change.
#[verifier::ext_equal]
pub ghost struct World<V, E> {
    /// The cells of the query's memo table.
    pub cells: Cells<V>,
    /// The runtime of the database.
    pub runtime: RuntimeView,
    /// The cache of completed results.
    pub cache: CacheView<V>,
    /// The computations that run.
    pub running: Map<Seq<u8>, Arc<E>>,
    /// The frames of the task.
    pub stack: Seq<FrameView>,
}

/// What stays fixed during a step: the query, whether its value is wanted, the entry to
/// register if the access becomes a leader, and the limit that the environment sets.
pub ghost struct Ask<E> {
    /// The query.
    pub requested: DynKey,
    /// Whether the caller wants the value.
    pub want_value: bool,
    /// The entry to register for a new computation.
    pub fresh: Arc<E>,
    /// The cache limit that the environment asks for.
    pub env: Option<usize>,
}

/// The outcome of a step.
#[verifier::ext_equal]
pub ghost struct StepView<V, E> {
    /// The world after the step.
    pub world: World<V, E>,
    /// Where the access stands then.
    pub phase: PhaseView<V, E>,
    /// What the caller is to do next.
    pub action: AccessAction<V, E>,
    /// Whether the waiters of the cell are woken.
    pub wake: bool,
    /// What the followers are told.
    pub publish: Option<FlightView<V>>,
}

/// The result that is handed out for a value.
pub open spec fn handed_out<V, E>(
    ask: Ask<E>,
    value: Arc<V>,
    changed_at: Revision,
    settled: bool,
) -> ErasedAccessResult<V> {
    ErasedAccessResult {
        value: if ask.want_value {
            Some(value)
        } else {
            None
        },
        changed_at,
        settled,
    }
}

impl<V, E> World<V, E> {
    /// The state of the query's cell.
    pub open spec fn cell(self, ask: Ask<E>) -> StateView<V> {
        crate::ingredient::derived::state_at(self.cells, ask.requested.key@)
    }

    /// The world with another state in the query's cell.
    pub open spec fn with_cell(self, ask: Ask<E>, state: StateView<V>) -> World<V, E> {
        self.with_state(ask.requested, state)
    }

    /// The world with another state in the cell of `query`.
    pub open spec fn with_state(self, query: DynKey, state: StateView<V>) -> World<V, E> {
        World { cells: self.cells.insert(query.key@, state), ..self }
    }

    /// The world with the query's frame pushed.
    pub open spec fn pushed(self, ask: Ask<E>, rev: Revision) -> World<V, E> {
        World { stack: self.stack.push(crate::frame::fresh_frame(ask.requested, rev)), ..self }
    }

    /// The world with the innermost frame popped.
    pub open spec fn popped(self) -> World<V, E> {
        World {
            stack: if self.stack.len() > 0 {
                self.stack.drop_last()
            } else {
                self.stack
            },
            ..self
        }
    }

    /// The world with the query's dependencies replaced.
    pub open spec fn with_deps(self, ask: Ask<E>, deps: Seq<Dep>) -> World<V, E> {
        World {
            runtime: RuntimeView {
                forward: self.runtime.forward.insert(
                    ask.requested@,
                    crate::graph::dep_nodes(deps),
                ),
                ..self.runtime
            },
            ..self
        }
    }

    /// The world with a change notification for the query, where the value changed at `rev`.
    pub open spec fn announced(self, ask: Ask<E>, rev: Revision, changed_at: Revision) -> World<V, E> {
        if changed_at == rev {
            World {
                runtime: RuntimeView {
                    events: self.runtime.events.push(
                        crate::runtime::query_changed_event(rev, ask.requested),
                    ),
                    ..self.runtime
                },
                ..self
            }
        } else {
            self
        }
    }

    /// The world with a record for the query in the cache of completed results.
    pub open spec fn cached(
        self,
        ask: Ask<E>,
        value: Arc<V>,
        deps: Seq<Dep>,
        changed_at: Revision,
        rev: Revision,
        settled: bool,
    ) -> World<V, E> {
        World {
            cache: self.cache.put(
                crate::inflight::shared_name(self.runtime.id, ask.requested@),
                RecordView { value, deps, changed_at, verified_at: rev, settled, insert_id: 0 },
                self.cache.limit_in_force(ask.env),
            ),
            ..self
        }
    }

    /// The bytes under which the query's computation at `rev` is filed.
    pub open spec fn flight(self, ask: Ask<E>, rev: Revision) -> Seq<u8> {
        crate::inflight::flight_name(self.runtime.id, rev, ask.requested@)
    }
}

/// End the access with `result`, unless the database has moved on from `rev`.
pub open spec fn concluded<V, E>(
    w: World<V, E>,
    rev: Revision,
    result: PicanteResult<ErasedAccessResult<V>>,
    wake: bool,
    publish: Option<FlightView<V>>,
) -> StepView<V, E> {
    if w.runtime.revision == rev {
        StepView {
            world: w,
            phase: PhaseView::Done,
            action: AccessAction::Return(result),
            wake,
            publish,
        }
    } else {
        StepView {
            world: w,
            phase: PhaseView::Idle,
            action: AccessAction::Retry,
            wake,
            publish,
        }
    }
}

/// Go on with a quiet step.
pub open spec fn quietly<V, E>(
    world: World<V, E>,
    phase: PhaseView<V, E>,
    action: AccessAction<V, E>,
) -> StepView<V, E> {
    StepView { world, phase, action, wake: false, publish: None }
}

/// Look at the cell.
pub open spec fn polled<V, E>(ask: Ask<E>, w: World<V, E>) -> StepView<V, E> {
    let rev = w.runtime.revision;
    match w.cell(ask) {
        StateView::Ready { value, verified_at, changed_at, settled, deps } => if verified_at
            == rev {
            concluded(w, rev, Ok(handed_out(ask, value, changed_at, settled)), false, None)
        } else {
            local_check(ask, w.pushed(ask, rev), rev, verified_at, deps, 0, true)
        },
        StateView::Poisoned { error, verified_at } => if verified_at == rev {
            concluded(w, rev, Err(error), false, None)
        } else {
            started(ask, w, rev)
        },
        StateView::Running { .. } => quietly(w, PhaseView::Idle, AccessAction::Wait),
        StateView::Vacant => started(ask, w, rev),
    }
}

/// Check the dependencies of the cell's own value from `next` on. The value is known to be valid at
/// `verified_at`, and `settled` says whether those before are known to have been the same at every
/// revision since then.
pub open spec fn local_check<V, E>(
    ask: Ask<E>,
    w: World<V, E>,
    rev: Revision,
    verified_at: Revision,
    deps: Seq<Dep>,
    next: int,
    settled: bool,
) -> StepView<V, E> {
    if next < deps.len() {
        quietly(
            w,
            PhaseView::CheckLocal { rev, verified_at, deps, next, settled },
            AccessAction::Touch(deps[next]),
        )
    } else {
        reused(ask, w.popped(), rev, settled)
    }
}

/// Every dependency is as it was: the cell's value holds at `rev` too. It stays settled if all that
/// the query reads is.
pub open spec fn reused<V, E>(
    ask: Ask<E>,
    w: World<V, E>,
    rev: Revision,
    settled: bool,
) -> StepView<V, E> {
    match w.cell(ask) {
        StateView::Ready { value, changed_at, settled: before, deps, .. } => concluded(
            w.with_cell(
                ask,
                StateView::Ready {
                    value,
                    verified_at: rev,
                    changed_at,
                    settled: before && settled,
                    deps,
                },
            ),
            rev,
            Ok(handed_out(ask, value, changed_at, before && settled)),
            false,
            None,
        ),
        _ => quietly(w, PhaseView::Idle, AccessAction::Retry),
    }
}

/// Whether someone else has been faster: the cell is taken, or settled for `rev` already.
pub open spec fn is_raced<V>(state: StateView<V>, rev: Revision) -> bool {
    match state {
        StateView::Ready { verified_at, .. } => verified_at == rev,
        StateView::Poisoned { verified_at, .. } => verified_at == rev,
        StateView::Running { .. } => true,
        StateView::Vacant => false,
    }
}

/// Take the cell for a computation at `rev`, unless someone else has been faster. A record that
/// was made at a later revision says nothing of this one.
pub open spec fn started<V, E>(ask: Ask<E>, w: World<V, E>, rev: Revision) -> StepView<V, E> {
    let displaced = w.cell(ask);
    let taken = w.with_cell(ask, StateView::Running { started_at: rev });
    let name = crate::inflight::shared_name(w.runtime.id, ask.requested@);
    if is_raced(displaced, rev) {
        quietly(w, PhaseView::Idle, AccessAction::Retry)
    } else if w.cache.held.contains_key(name) && w.cache.held[name].verified_at.0 <= rev.0 {
        shared_check(
            ask,
            taken.pushed(ask, rev),
            rev,
            displaced,
            w.cache.held[name],
            false,
            0,
        )
    } else {
        led(ask, taken, rev, displaced)
    }
}

/// Look at the dependencies of a record from `next` on, before it is taken over: what this database
/// knows of a query must go with what it knows of all that the query reads.
pub open spec fn shared_check<V, E>(
    ask: Ask<E>,
    w: World<V, E>,
    rev: Revision,
    displaced: StateView<V>,
    record: RecordView<V>,
    followed: bool,
    next: int,
) -> StepView<V, E> {
    if next < record.deps.len() {
        quietly(
            w,
            PhaseView::CheckShared { rev, displaced, record, followed, next },
            AccessAction::Touch(record.deps[next]),
        )
    } else if w.runtime.revision == rev {
        adopted(ask, w.popped(), rev, record, followed)
    } else {
        given_back(ask, w.popped(), displaced)
    }
}

/// The database has moved on while an access held the cell: the cell gets back what it held.
pub open spec fn given_back<V, E>(
    ask: Ask<E>,
    w: World<V, E>,
    displaced: StateView<V>,
) -> StepView<V, E> {
    StepView {
        world: w.with_cell(ask, displaced),
        phase: PhaseView::Idle,
        action: AccessAction::Retry,
        wake: true,
        publish: None,
    }
}

/// Take over a record as valid at `rev`. A change is announced where the access has waited for it. If
/// the record is of an earlier revision, all that the query reads has been the same since the result
/// changed, and so has the result.
pub open spec fn adopted<V, E>(
    ask: Ask<E>,
    w: World<V, E>,
    rev: Revision,
    record: RecordView<V>,
    followed: bool,
) -> StepView<V, E> {
    let settled = record.settled || record.verified_at != rev;
    let kept = w.with_deps(ask, record.deps).with_cell(
        ask,
        StateView::Ready {
            value: record.value,
            verified_at: rev,
            changed_at: record.changed_at,
            settled,
            deps: record.deps,
        },
    );
    concluded(
        (if followed {
            kept.announced(ask, rev, record.changed_at)
        } else {
            kept
        }).cached(ask, record.value, record.deps, record.changed_at, rev, settled),
        rev,
        Ok(handed_out(ask, record.value, record.changed_at, settled)),
        true,
        None,
    )
}

/// Lead the computation, or follow whoever leads it.
pub open spec fn led<V, E>(
    ask: Ask<E>,
    w: World<V, E>,
    rev: Revision,
    displaced: StateView<V>,
) -> StepView<V, E> {
    let flight = w.flight(ask, rev);
    if w.running.contains_key(flight) {
        let entry = w.running[flight];
        quietly(
            w.with_cell(ask, StateView::Vacant),
            PhaseView::Follow { rev, entry },
            AccessAction::Follow(entry),
        )
    } else {
        quietly(
            World { running: w.running.insert(flight, ask.fresh), ..w }.pushed(ask, rev),
            PhaseView::Compute { rev, displaced, flight },
            AccessAction::Run {
                previous: match displaced {
                    StateView::Ready { value, .. } => Some(value),
                    _ => None,
                },
            },
        )
    }
}

/// A dependency of the cell's own value was touched. Where it has changed since the value was
/// last valid, the value is computed anew.
pub open spec fn local_touched<V, E>(
    ask: Ask<E>,
    w: World<V, E>,
    rev: Revision,
    verified_at: Revision,
    deps: Seq<Dep>,
    next: int,
    settled: bool,
    touched: Option<PicanteResult<Touch>>,
) -> StepView<V, E> {
    match touched {
        None => started(ask, w.popped(), rev),
        Some(Err(error)) => quietly(
            w.popped(),
            PhaseView::Done,
            AccessAction::Return(Err(error)),
        ),
        Some(Ok(touch)) => if touch.changed_at.0 > verified_at.0 {
            started(ask, w.popped(), rev)
        } else {
            local_check(ask, w, rev, verified_at, deps, next + 1, settled && touch.settled)
        },
    }
}

/// Whether a record goes on being good for `rev` once one of its dependencies was touched. A record
/// of that revision is good whatever comes of the touch. One of an earlier revision may come from
/// another snapshot, and this database need not have looked at the dependency then: so the
/// dependency must be known to have had the same value at every revision since the result changed.
pub open spec fn speaks_for_record<V>(
    touched: Option<PicanteResult<Touch>>,
    record: RecordView<V>,
    rev: Revision,
) -> bool {
    ||| record.verified_at == rev
    ||| touched matches Some(Ok(touch)) && touch.settled && touch.changed_at.0
        <= record.changed_at.0
}

/// A dependency of a record was touched. Where the record is not good, the query is computed.
pub open spec fn shared_touched<V, E>(
    ask: Ask<E>,
    w: World<V, E>,
    rev: Revision,
    displaced: StateView<V>,
    record: RecordView<V>,
    followed: bool,
    next: int,
    touched: Option<PicanteResult<Touch>>,
) -> StepView<V, E> {
    if speaks_for_record(touched, record, rev) {
        shared_check(ask, w, rev, displaced, record, followed, next + 1)
    } else {
        led(ask, w.popped(), rev, displaced)
    }
}

/// The leader's result is there: take the cell again to take the result over, unless someone else
/// has been faster or the database has moved on.
pub open spec fn relieved<V, E>(
    ask: Ask<E>,
    w: World<V, E>,
    rev: Revision,
    record: RecordView<V>,
) -> StepView<V, E> {
    let displaced = w.cell(ask);
    if w.runtime.revision != rev || is_raced(displaced, rev) {
        quietly(w, PhaseView::Idle, AccessAction::Retry)
    } else {
        shared_check(
            ask,
            w.with_cell(ask, StateView::Running { started_at: rev }).pushed(ask, rev),
            rev,
            displaced,
            record,
            true,
            0,
        )
    }
}

/// The leader's computation was looked at.
pub open spec fn followed<V, E>(
    ask: Ask<E>,
    w: World<V, E>,
    rev: Revision,
    entry: Arc<E>,
    seen: FlightView<V>,
) -> StepView<V, E> {
    match seen {
        FlightView::Running => quietly(
            w,
            PhaseView::Follow { rev, entry },
            AccessAction::Follow(entry),
        ),
        FlightView::Done { value, deps, changed_at } => relieved(
            ask,
            w,
            rev,
            RecordView {
                value,
                deps,
                changed_at,
                verified_at: rev,
                settled: changed_at == rev,
                insert_id: 0,
            },
        ),
        FlightView::Failed(error) => concluded(
            w.with_cell(ask, StateView::Poisoned { error, verified_at: rev }),
            rev,
            Err(error),
            true,
            None,
        ),
        FlightView::Cancelled => quietly(w, PhaseView::Idle, AccessAction::Retry),
    }
}

/// When a freshly computed value last changed: a value equal to the one before keeps
/// that one's revision.
pub open spec fn cutoff<V>(displaced: StateView<V>, unchanged: bool, rev: Revision) -> Revision {
    match displaced {
        StateView::Ready { changed_at, .. } => if unchanged {
            changed_at
        } else {
            rev
        },
        _ => rev,
    }
}

/// What the innermost frame has recorded.
pub open spec fn top_recorded(stack: Seq<FrameView>) -> Seq<Dep> {
    if stack.len() > 0 {
        stack.last().recorded
    } else {
        Seq::empty()
    }
}

/// What the followers of a computation at `rev` are told: the outcome, unless the database has moved
/// on meanwhile. Then the query may have read what there is at another revision, and the
/// computation is called off.
pub open spec fn told_at<V, E>(w: World<V, E>, rev: Revision, outcome: FlightView<V>) -> FlightView<V> {
    if w.runtime.revision == rev {
        outcome
    } else {
        FlightView::Cancelled
    }
}

/// The query was run. The result is shared with others only where it was computed at `rev` from
/// beginning to end.
pub open spec fn computed<V, E>(
    ask: Ask<E>,
    w: World<V, E>,
    rev: Revision,
    displaced: StateView<V>,
    flight: Seq<u8>,
    outcome: ComputeOutcome<V>,
) -> StepView<V, E> {
    let deps = top_recorded(w.stack);
    let landed = World { running: w.running.remove(flight), ..w.popped() };
    match outcome {
        ComputeOutcome::Value { value, unchanged } => {
            let changed_at = cutoff(displaced, unchanged, rev);
            let kept = landed.with_deps(ask, deps).announced(ask, rev, changed_at).with_cell(
                ask,
                StateView::Ready {
                    value,
                    verified_at: rev,
                    changed_at,
                    settled: changed_at == rev,
                    deps,
                },
            );
            concluded(
                if w.runtime.revision == rev {
                    kept.cached(ask, value, deps, changed_at, rev, changed_at == rev)
                } else {
                    kept
                },
                rev,
                Ok(handed_out(ask, value, changed_at, changed_at == rev)),
                true,
                Some(told_at(w, rev, FlightView::Done { value, deps, changed_at })),
            )
        },
        ComputeOutcome::Failed(error) => poisoned(ask, landed, rev, error),
        ComputeOutcome::Panicked(message) => poisoned(
            ask,
            landed,
            rev,
            Arc::new(PicanteError::Panic { message }),
        ),
    }
}

/// The computation failed: record the failure for this revision.
pub open spec fn poisoned<V, E>(
    ask: Ask<E>,
    w: World<V, E>,
    rev: Revision,
    error: Arc<PicanteError>,
) -> StepView<V, E> {
    concluded(
        w.with_cell(ask, StateView::Poisoned { error, verified_at: rev }),
        rev,
        Err(error),
        true,
        Some(told_at(w, rev, FlightView::Failed(error))),
    )
}

/// One access to a derived query.
pub struct Access<V, E> {
    requested: DynKey,
    want_value: bool,
    phase: AccessPhase<V, E>,
}

/// The world that a set of objects makes up.
pub open spec fn world_of<V, E>(
    core: DerivedCore<V>,
    runtime: Runtime,
    cache: SharedCache<V>,
    registry: InFlightRegistry<E>,
    stack: FrameStack,
) -> World<V, E> {
    World {
        cells: core.states(),
        runtime: runtime@,
        cache: cache@,
        running: registry.running(),
        stack: stack@,
    }
}

/// Whether the objects are sound.
pub open spec fn world_wf<V, E>(
    core: DerivedCore<V>,
    runtime: Runtime,
    cache: SharedCache<V>,
    registry: InFlightRegistry<E>,
) -> bool {
    core.wf() && runtime.wf() && cache.wf() && registry.wf()
}

/// What a step says, with the world and the phase it leaves.
spec fn step_of<V, E>(
    world: World<V, E>,
    phase: AccessPhase<V, E>,
    step: AccessStep<V, E>,
) -> StepView<V, E> {
    StepView {
        world,
        phase: phase@,
        action: step.action,
        wake: step.wake,
        publish: match step.publish {
            Some(state) => Some(state@),
            None => None,
        },
    }
}

fn quiet<V, E>(action: AccessAction<V, E>) -> (r: AccessStep<V, E>)
    ensures
        r.action == action,
        !r.wake,
        r.publish is None,
{
    AccessStep { action, wake: false, publish: None }
}

fn raced<V>(state: &ErasedState<V>, rev: Revision) -> (r: bool)
    ensures
        r == is_raced(state@, rev),
{
    match state {
        ErasedState::Ready { verified_at, .. } => verified_at.0 == rev.0,
        ErasedState::Poisoned { verified_at, .. } => verified_at.0 == rev.0,
        ErasedState::Running { .. } => true,
        ErasedState::Vacant => false,
    }
}

/// The query that an access is about, and what the caller wants of it.
struct Want<'a, E> {
    requested: &'a DynKey,
    want_value: bool,
    fresh: &'a Arc<E>,
    env: Option<&'a str>,
}

impl<'a, E> Want<'a, E> {
    spec fn ask(&self) -> Ask<E> {
        Ask {
            requested: *self.requested,
            want_value: self.want_value,
            fresh: *self.fresh,
            env: crate::inflight::env_limit(self.env),
        }
    }

    fn hand_out<V>(&self, value: &Arc<V>, changed_at: Revision, settled: bool) -> (r:
        ErasedAccessResult<V>)
        ensures
            r == handed_out(self.ask(), *value, changed_at, settled),
    {
        let value = if self.want_value {
            Some(share(value))
        } else {
            None
        };
        ErasedAccessResult { value, changed_at, settled }
    }

    fn conclude<V>(
        &self,
        runtime: &Runtime,
        rev: Revision,
        result: PicanteResult<ErasedAccessResult<V>>,
        wake: bool,
        publish: Option<InFlightState<V>>,
    ) -> (r: (AccessPhase<V, E>, AccessStep<V, E>))
        ensures
            forall|w: World<V, E>|
                w.runtime == runtime@ ==> #[trigger] step_of(w, r.0, r.1) == concluded(
                    w,
                    rev,
                    result,
                    wake,
                    match publish {
                        Some(state) => Some(state@),
                        None => None,
                    },
                ),
    {
        if runtime.current_revision().0 == rev.0 {
            (AccessPhase::Done, AccessStep { action: AccessAction::Return(result), wake, publish })
        } else {
            (AccessPhase::Idle, AccessStep { action: AccessAction::Retry, wake, publish })
        }
    }

    fn cache_result<V>(
        &self,
        runtime: &Runtime,
        cache: &mut SharedCache<V>,
        value: &Arc<V>,
        deps: &Arc<Vec<Dep>>,
        changed_at: Revision,
        rev: Revision,
        settled: bool,
    )
        requires
            old(cache).wf(),
        ensures
            final(cache).wf(),
            final(cache)@ == old(cache)@.put(
                crate::inflight::shared_name(runtime@.id, self.requested@),
                RecordView {
                    value: *value,
                    deps: deps@,
                    changed_at,
                    verified_at: rev,
                    settled,
                    insert_id: 0,
                },
                old(cache)@.limit_in_force(self.ask().env),
            ),
    {
        let record = SharedCacheRecord {
            value: share(value),
            deps: share(deps),
            changed_at,
            verified_at: rev,
            settled,
            insert_id: 0,
        };
        cache.shared_cache_put(
            runtime.id(),
            self.requested.kind,
            &self.requested.key,
            record,
            self.env,
        );
    }

    fn adopt<V>(
        &self,
        core: &mut DerivedCore<V>,
        runtime: &mut Runtime,
        cache: &mut SharedCache<V>,
        registry: &InFlightRegistry<E>,
        stack: &FrameStack,
        rev: Revision,
        record: &SharedCacheRecord<V>,
        followed: bool,
    ) -> (r: (AccessPhase<V, E>, AccessStep<V, E>))
        requires
            world_wf(*old(core), *old(runtime), *old(cache), *registry),
        ensures
            world_wf(*final(core), *final(runtime), *final(cache), *registry),
            final(core).kind_id() == old(core).kind_id(),
            final(core).name() == old(core).name(),
            r.0.wf(),
            step_of(
                world_of(*final(core), *final(runtime), *final(cache), *registry, *stack),
                r.0,
                r.1,
            ) == adopted(
                self.ask(),
                world_of(*old(core), *old(runtime), *old(cache), *registry, *stack),
                rev,
                record@,
                followed,
            ),
    {
        let ghost before = world_of(*core, *runtime, *cache, *registry, *stack);
        let settled: bool = record.settled || record.verified_at.0 != rev.0;
        runtime.update_query_deps(self.requested, share(&record.deps));
        core.set_state(
            &self.requested.key,
            ErasedState::Ready {
                value: share(&record.value),
                verified_at: rev,
                changed_at: record.changed_at,
                settled,
                deps: share(&record.deps),
            },
        );
        if followed && record.changed_at.0 == rev.0 {
            runtime.notify_query_changed(rev, self.requested);
        }
        self.cache_result(
            runtime,
            cache,
            &record.value,
            &record.deps,
            record.changed_at,
            rev,
            settled,
        );
        let result = self.hand_out(&record.value, record.changed_at, settled);
        let r = self.conclude(runtime, rev, Ok(result), true, None);
        proof {
            let after = world_of(*core, *runtime, *cache, *registry, *stack);
            let kept = before.with_deps(self.ask(), record@.deps).with_cell(
                self.ask(),
                StateView::Ready {
                    value: record.value,
                    verified_at: rev,
                    changed_at: record.changed_at,
                    settled,
                    deps: record@.deps,
                },
            );
            assert(after =~= (if followed {
                kept.announced(self.ask(), rev, record.changed_at)
            } else {
                kept
            }).cached(self.ask(), record.value, record@.deps, record.changed_at, rev, settled));
            assert(step_of(after, r.0, r.1) == concluded(
                after,
                rev,
                Ok(handed_out(self.ask(), record.value, record.changed_at, settled)),
                true,
                None,
            ));
        }
        r
    }

    fn lead<V>(
        &self,
        core: &mut DerivedCore<V>,
        runtime: &Runtime,
        cache: &SharedCache<V>,
        registry: &mut InFlightRegistry<E>,
        stack: &mut FrameStack,
        rev: Revision,
        displaced: ErasedState<V>,
    ) -> (r: (AccessPhase<V, E>, AccessStep<V, E>))
        requires
            world_wf(*old(core), *runtime, *cache, *old(registry)),
        ensures
            world_wf(*final(core), *runtime, *cache, *final(registry)),
            final(core).kind_id() == old(core).kind_id(),
            final(core).name() == old(core).name(),
            r.0.wf(),
            step_of(
                world_of(*final(core), *runtime, *cache, *final(registry), *final(stack)),
                r.0,
                r.1,
            ) == led(
                self.ask(),
                world_of(*old(core), *runtime, *cache, *old(registry), *old(stack)),
                rev,
                displaced@,
            ),
    {
        let key = InFlightKey {
            runtime_id: runtime.id(),
            revision: rev,
            kind: self.requested.kind,
            key: self.requested.key.clone(),
        };
        match registry.try_lead(&key, self.fresh) {
            TryLeadResult::Follower(entry) => {
                core.set_state(&self.requested.key, ErasedState::Vacant);
                let action = AccessAction::Follow(share(&entry));
                (AccessPhase::Follow { rev, entry }, quiet(action))
            },
            TryLeadResult::Leader(guard) => {
                stack.push(ActiveFrameHandle::new(self.requested.clone(), rev));
                let previous = match &displaced {
                    ErasedState::Ready { value, .. } => Some(share(value)),
                    _ => None,
                };
                (
                    AccessPhase::Compute { rev, displaced, guard },
                    quiet(AccessAction::Run { previous }),
                )
            },
        }
    }

    fn check_shared<V>(
        &self,
        core: &mut DerivedCore<V>,
        runtime: &mut Runtime,
        cache: &mut SharedCache<V>,
        registry: &InFlightRegistry<E>,
        stack: &mut FrameStack,
        rev: Revision,
        displaced: ErasedState<V>,
        record: SharedCacheRecord<V>,
        followed: bool,
        next: usize,
    ) -> (r: (AccessPhase<V, E>, AccessStep<V, E>))
        requires
            world_wf(*old(core), *old(runtime), *old(cache), *registry),
        ensures
            world_wf(*final(core), *final(runtime), *final(cache), *registry),
            final(core).kind_id() == old(core).kind_id(),
            final(core).name() == old(core).name(),
            r.0.wf(),
            step_of(
                world_of(*final(core), *final(runtime), *final(cache), *registry, *final(stack)),
                r.0,
                r.1,
            ) == shared_check(
                self.ask(),
                world_of(*old(core), *old(runtime), *old(cache), *registry, *old(stack)),
                rev,
                displaced@,
                record@,
                followed,
                next as int,
            ),
    {
        if next < record.deps.len() {
            let dep = record.deps[next].clone();
            (
                AccessPhase::CheckShared { rev, displaced, record, followed, next },
                quiet(AccessAction::Touch(dep)),
            )
        } else {
            stack.pop();
            if runtime.current_revision().0 == rev.0 {
                self.adopt(core, runtime, cache, registry, stack, rev, &record, followed)
            } else {
                core.set_state(&self.requested.key, displaced);
                (
                    AccessPhase::Idle,
                    AccessStep { action: AccessAction::Retry, wake: true, publish: None },
                )
            }
        }
    }

    fn start<V>(
        &self,
        core: &mut DerivedCore<V>,
        runtime: &mut Runtime,
        cache: &mut SharedCache<V>,
        registry: &mut InFlightRegistry<E>,
        stack: &mut FrameStack,
        rev: Revision,
    ) -> (r: (AccessPhase<V, E>, AccessStep<V, E>))
        requires
            world_wf(*old(core), *old(runtime), *old(cache), *old(registry)),
        ensures
            world_wf(*final(core), *final(runtime), *final(cache), *final(registry)),
            final(core).kind_id() == old(core).kind_id(),
            final(core).name() == old(core).name(),
            r.0.wf(),
            step_of(
                world_of(
                    *final(core),
                    *final(runtime),
                    *final(cache),
                    *final(registry),
                    *final(stack),
                ),
                r.0,
                r.1,
            ) == started(
                self.ask(),
                world_of(*old(core), *old(runtime), *old(cache), *old(registry), *old(stack)),
                rev,
            ),
    {
        let displaced = core.state(&self.requested.key);
        if raced(&displaced, rev) {
            return (AccessPhase::Idle, quiet(AccessAction::Retry));
        }
        core.set_state(&self.requested.key, ErasedState::Running { started_at: rev });
        match cache.shared_cache_get(runtime.id(), self.requested.kind, &self.requested.key) {
            Some(record) => if record.verified_at.0 <= rev.0 {
                stack.push(ActiveFrameHandle::new(self.requested.clone(), rev));
                self.check_shared(
                    core,
                    runtime,
                    cache,
                    registry,
                    stack,
                    rev,
                    displaced,
                    record,
                    false,
                    0,
                )
            } else {
                self.lead(core, runtime, cache, registry, stack, rev, displaced)
            },
            None => self.lead(core, runtime, cache, registry, stack, rev, displaced),
        }
    }

    fn check_local<V>(
        &self,
        core: &mut DerivedCore<V>,
        runtime: &Runtime,
        cache: &SharedCache<V>,
        registry: &InFlightRegistry<E>,
        stack: &mut FrameStack,
        rev: Revision,
        verified_at: Revision,
        deps: Arc<Vec<Dep>>,
        next: usize,
        settled: bool,
    ) -> (r: (AccessPhase<V, E>, AccessStep<V, E>))
        requires
            world_wf(*old(core), *runtime, *cache, *registry),
        ensures
            world_wf(*final(core), *runtime, *cache, *registry),
            final(core).kind_id() == old(core).kind_id(),
            final(core).name() == old(core).name(),
            r.0.wf(),
            step_of(
                world_of(*final(core), *runtime, *cache, *registry, *final(stack)),
                r.0,
                r.1,
            ) == local_check(
                self.ask(),
                world_of(*old(core), *runtime, *cache, *registry, *old(stack)),
                rev,
                verified_at,
                deps@,
                next as int,
                settled,
            ),
    {
        if next < deps.len() {
            let dep = deps[next].clone();
            return (
                AccessPhase::CheckLocal { rev, verified_at, deps, next, settled },
                quiet(AccessAction::Touch(dep)),
            );
        }
        stack.pop();
        match core.state(&self.requested.key) {
            ErasedState::Ready { value, changed_at, settled: before, deps, .. } => {
                let settled: bool = before && settled;
                let result = self.hand_out(&value, changed_at, settled);
                core.set_state(
                    &self.requested.key,
                    ErasedState::Ready { value, verified_at: rev, changed_at, settled, deps },
                );
                let r = self.conclude(runtime, rev, Ok(result), false, None);
                proof {
                    let after = world_of(*core, *runtime, *cache, *registry, *stack);
                    assert(step_of(after, r.0, r.1) == concluded(
                        after,
                        rev,
                        Ok(handed_out(self.ask(), value, changed_at, settled)),
                        false,
                        None,
                    ));
                }
                r
            },
            _ => (AccessPhase::Idle, quiet(AccessAction::Retry)),
        }
    }

    fn poll<V>(
        &self,
        core: &mut DerivedCore<V>,
        runtime: &mut Runtime,
        cache: &mut SharedCache<V>,
        registry: &mut InFlightRegistry<E>,
        stack: &mut FrameStack,
    ) -> (r: (AccessPhase<V, E>, AccessStep<V, E>))
        requires
            world_wf(*old(core), *old(runtime), *old(cache), *old(registry)),
        ensures
            world_wf(*final(core), *final(runtime), *final(cache), *final(registry)),
            final(core).kind_id() == old(core).kind_id(),
            final(core).name() == old(core).name(),
            r.0.wf(),
            step_of(
                world_of(
                    *final(core),
                    *final(runtime),
                    *final(cache),
                    *final(registry),
                    *final(stack),
                ),
                r.0,
                r.1,
            ) == polled(
                self.ask(),
                world_of(*old(core), *old(runtime), *old(cache), *old(registry), *old(stack)),
            ),
    {
        let rev = runtime.current_revision();
        match core.state(&self.requested.key) {
            ErasedState::Ready { value, verified_at, changed_at, settled, deps } => {
                if verified_at.0 == rev.0 {
                    let result = self.hand_out(&value, changed_at, settled);
                    (AccessPhase::Done, quiet(AccessAction::Return(Ok(result))))
                } else {
                    stack.push(ActiveFrameHandle::new(self.requested.clone(), rev));
                    self.check_local(
                        core,
                        runtime,
                        cache,
                        registry,
                        stack,
                        rev,
                        verified_at,
                        deps,
                        0,
                        true,
                    )
                }
            },
            ErasedState::Poisoned { error, verified_at } => {
                if verified_at.0 == rev.0 {
                    (AccessPhase::Done, quiet(AccessAction::Return(Err(error))))
                } else {
                    self.start(core, runtime, cache, registry, stack, rev)
                }
            },
            ErasedState::Running { .. } => (AccessPhase::Idle, quiet(AccessAction::Wait)),
            ErasedState::Vacant => self.start(core, runtime, cache, registry, stack, rev),
        }
    }
}

impl<'a, E> Want<'a, E> {
    fn follow<V>(
        &self,
        core: &mut DerivedCore<V>,
        runtime: &mut Runtime,
        cache: &mut SharedCache<V>,
        registry: &InFlightRegistry<E>,
        stack: &mut FrameStack,
        rev: Revision,
        entry: Arc<E>,
        seen: InFlightState<V>,
    ) -> (r: (AccessPhase<V, E>, AccessStep<V, E>))
        requires
            world_wf(*old(core), *old(runtime), *old(cache), *registry),
        ensures
            world_wf(*final(core), *final(runtime), *final(cache), *registry),
            final(core).kind_id() == old(core).kind_id(),
            final(core).name() == old(core).name(),
            r.0.wf(),
            step_of(
                world_of(*final(core), *final(runtime), *final(cache), *registry, *final(stack)),
                r.0,
                r.1,
            ) == followed(
                self.ask(),
                world_of(*old(core), *old(runtime), *old(cache), *registry, *old(stack)),
                rev,
                entry,
                seen@,
            ),
    {
        match seen {
            InFlightState::Running => {
                let action = AccessAction::Follow(share(&entry));
                (AccessPhase::Follow { rev, entry }, quiet(action))
            },
            InFlightState::Done { value, deps, changed_at } => {
                let displaced = core.state(&self.requested.key);
                if runtime.current_revision().0 != rev.0 || raced(&displaced, rev) {
                    return (AccessPhase::Idle, quiet(AccessAction::Retry));
                }
                core.set_state(&self.requested.key, ErasedState::Running { started_at: rev });
                stack.push(ActiveFrameHandle::new(self.requested.clone(), rev));
                let record = SharedCacheRecord {
                    value,
                    deps,
                    changed_at,
                    verified_at: rev,
                    settled: changed_at.0 == rev.0,
                    insert_id: 0,
                };
                self.check_shared(
                    core,
                    runtime,
                    cache,
                    registry,
                    stack,
                    rev,
                    displaced,
                    record,
                    true,
                    0,
                )
            },
            InFlightState::Failed(error) => {
                core.set_state(
                    &self.requested.key,
                    ErasedState::Poisoned { error: share(&error), verified_at: rev },
                );
                let r = self.conclude(runtime, rev, Err(error), true, None);
                proof {
                    let after = world_of(*core, *runtime, *cache, *registry, *stack);
                    assert(step_of(after, r.0, r.1) == concluded(
                        after,
                        rev,
                        Err(error),
                        true,
                        None,
                    ));
                }
                r
            },
            InFlightState::Cancelled => (AccessPhase::Idle, quiet(AccessAction::Retry)),
        }
    }

    fn tell<V>(&self, runtime: &Runtime, rev: Revision, outcome: InFlightState<V>) -> (r:
        InFlightState<V>)
        ensures
            forall|w: World<V, E>|
                w.runtime == runtime@ ==> r@ == #[trigger] told_at(w, rev, outcome@),
    {
        if runtime.current_revision().0 == rev.0 {
            outcome
        } else {
            InFlightState::Cancelled
        }
    }

    fn poison<V>(
        &self,
        core: &mut DerivedCore<V>,
        runtime: &Runtime,
        cache: &SharedCache<V>,
        registry: &InFlightRegistry<E>,
        stack: &FrameStack,
        rev: Revision,
        error: Arc<PicanteError>,
    ) -> (r: (AccessPhase<V, E>, AccessStep<V, E>))
        requires
            world_wf(*old(core), *runtime, *cache, *registry),
        ensures
            world_wf(*final(core), *runtime, *cache, *registry),
            final(core).kind_id() == old(core).kind_id(),
            final(core).name() == old(core).name(),
            r.0.wf(),
            step_of(world_of(*final(core), *runtime, *cache, *registry, *stack), r.0, r.1)
                == poisoned(
                self.ask(),
                world_of(*old(core), *runtime, *cache, *registry, *stack),
                rev,
                error,
            ),
    {
        core.set_state(
            &self.requested.key,
            ErasedState::Poisoned { error: share(&error), verified_at: rev },
        );
        let publish = Some(self.tell(runtime, rev, InFlightState::Failed(share(&error))));
        let r = self.conclude(runtime, rev, Err(error), true, publish);
        proof {
            let after = world_of(*core, *runtime, *cache, *registry, *stack);
            assert(step_of(after, r.0, r.1) == concluded(
                after,
                rev,
                Err(error),
                true,
                Some(told_at(after, rev, FlightView::Failed(error))),
            ));
        }
        r
    }

    fn compute<V>(
        &self,
        core: &mut DerivedCore<V>,
        runtime: &mut Runtime,
        cache: &mut SharedCache<V>,
        registry: &mut InFlightRegistry<E>,
        stack: &mut FrameStack,
        rev: Revision,
        displaced: ErasedState<V>,
        guard: InFlightGuard,
        outcome: ComputeOutcome<V>,
    ) -> (r: (AccessPhase<V, E>, AccessStep<V, E>))
        requires
            world_wf(*old(core), *old(runtime), *old(cache), *old(registry)),
        ensures
            world_wf(*final(core), *final(runtime), *final(cache), *final(registry)),
            final(core).kind_id() == old(core).kind_id(),
            final(core).name() == old(core).name(),
            r.0.wf(),
            step_of(
                world_of(
                    *final(core),
                    *final(runtime),
                    *final(cache),
                    *final(registry),
                    *final(stack),
                ),
                r.0,
                r.1,
            ) == computed(
                self.ask(),
                world_of(*old(core), *old(runtime), *old(cache), *old(registry), *old(stack)),
                rev,
                displaced@,
                guard.of().name(),
                outcome,
            ),
    {
        let ghost before = world_of(*core, *runtime, *cache, *registry, *stack);
        let ghost flight = guard.of().name();
        let recorded: Vec<Dep> = match stack.pop() {
            Some(mut frame) => frame.take_deps(),
            None => Vec::new(),
        };
        registry.finish(guard);
        let ghost landed = World { running: before.running.remove(flight), ..before.popped() };
        assert(world_of(*core, *runtime, *cache, *registry, *stack) =~= landed);
        assert(recorded@ =~= top_recorded(before.stack));
        match outcome {
            ComputeOutcome::Value { value, unchanged } => {
                let deps: Arc<Vec<Dep>> = Arc::new(recorded);
                let changed_at = match &displaced {
                    ErasedState::Ready { changed_at, .. } => if unchanged {
                        *changed_at
                    } else {
                        rev
                    },
                    _ => rev,
                };
                runtime.update_query_deps(self.requested, share(&deps));
                if changed_at.0 == rev.0 {
                    runtime.notify_query_changed(rev, self.requested);
                }
                core.set_state(
                    &self.requested.key,
                    ErasedState::Ready {
                        value: share(&value),
                        verified_at: rev,
                        changed_at,
                        settled: changed_at.0 == rev.0,
                        deps: share(&deps),
                    },
                );
                if runtime.current_revision().0 == rev.0 {
                    self.cache_result(
                        runtime,
                        cache,
                        &value,
                        &deps,
                        changed_at,
                        rev,
                        changed_at.0 == rev.0,
                    );
                }
                let result = self.hand_out(&value, changed_at, changed_at.0 == rev.0);
                let outcome = InFlightState::Done {
                    value: share(&value),
                    deps: share(&deps),
                    changed_at,
                };
                let publish = Some(self.tell(runtime, rev, outcome));
                let r = self.conclude(runtime, rev, Ok(result), true, publish);
                proof {
                    let after = world_of(*core, *runtime, *cache, *registry, *stack);
                    let kept = landed.with_deps(self.ask(), deps@).announced(
                        self.ask(),
                        rev,
                        changed_at,
                    ).with_cell(
                        self.ask(),
                        StateView::Ready {
                            value,
                            verified_at: rev,
                            changed_at,
                            settled: changed_at == rev,
                            deps: deps@,
                        },
                    );
                    assert(after =~= (if before.runtime.revision == rev {
                        kept.cached(self.ask(), value, deps@, changed_at, rev, changed_at == rev)
                    } else {
                        kept
                    }));
                    assert(step_of(after, r.0, r.1) == concluded(
                        after,
                        rev,
                        Ok(handed_out(self.ask(), value, changed_at, changed_at == rev)),
                        true,
                        Some(
                            told_at(
                                after,
                                rev,
                                FlightView::Done { value, deps: deps@, changed_at },
                            ),
                        ),
                    ));
                }
                r
            },
            ComputeOutcome::Failed(error) => self.poison(
                core,
                runtime,
                cache,
                registry,
                stack,
                rev,
                error,
            ),
            ComputeOutcome::Panicked(message) => self.poison(
                core,
                runtime,
                cache,
                registry,
                stack,
                rev,
                Arc::new(PicanteError::Panic { message }),
            ),
        }
    }

    fn touch_local<V>(
        &self,
        core: &mut DerivedCore<V>,
        runtime: &mut Runtime,
        cache: &mut SharedCache<V>,
        registry: &mut InFlightRegistry<E>,
        stack: &mut FrameStack,
        rev: Revision,
        verified_at: Revision,
        deps: Arc<Vec<Dep>>,
        next: usize,
        settled: bool,
        touched: Option<PicanteResult<Touch>>,
    ) -> (r: (AccessPhase<V, E>, AccessStep<V, E>))
        requires
            world_wf(*old(core), *old(runtime), *old(cache), *old(registry)),
            next < deps@.len(),
        ensures
            world_wf(*final(core), *final(runtime), *final(cache), *final(registry)),
            final(core).kind_id() == old(core).kind_id(),
            final(core).name() == old(core).name(),
            r.0.wf(),
            step_of(
                world_of(
                    *final(core),
                    *final(runtime),
                    *final(cache),
                    *final(registry),
                    *final(stack),
                ),
                r.0,
                r.1,
            ) == local_touched(
                self.ask(),
                world_of(*old(core), *old(runtime), *old(cache), *old(registry), *old(stack)),
                rev,
                verified_at,
                deps@,
                next as int,
                settled,
                touched,
            ),
    {
        assert(next < deps.len());
        let mut settled = settled;
        let stale: bool = match touched {
            None => true,
            Some(Err(error)) => {
                stack.pop();
                return (AccessPhase::Done, quiet(AccessAction::Return(Err(error))));
            },
            Some(Ok(touch)) => {
                settled = settled && touch.settled;
                touch.changed_at.0 > verified_at.0
            },
        };
        if stale {
            stack.pop();
            self.start(core, runtime, cache, registry, stack, rev)
        } else {
            self.check_local(
                core,
                runtime,
                cache,
                registry,
                stack,
                rev,
                verified_at,
                deps,
                next + 1,
                settled,
            )
        }
    }

    fn touch_shared<V>(
        &self,
        core: &mut DerivedCore<V>,
        runtime: &mut Runtime,
        cache: &mut SharedCache<V>,
        registry: &mut InFlightRegistry<E>,
        stack: &mut FrameStack,
        rev: Revision,
        displaced: ErasedState<V>,
        record: SharedCacheRecord<V>,
        followed: bool,
        next: usize,
        touched: Option<PicanteResult<Touch>>,
    ) -> (r: (AccessPhase<V, E>, AccessStep<V, E>))
        requires
            world_wf(*old(core), *old(runtime), *old(cache), *old(registry)),
            next < record.deps@.len(),
        ensures
            world_wf(*final(core), *final(runtime), *final(cache), *final(registry)),
            final(core).kind_id() == old(core).kind_id(),
            final(core).name() == old(core).name(),
            r.0.wf(),
            step_of(
                world_of(
                    *final(core),
                    *final(runtime),
                    *final(cache),
                    *final(registry),
                    *final(stack),
                ),
                r.0,
                r.1,
            ) == shared_touched(
                self.ask(),
                world_of(*old(core), *old(runtime), *old(cache), *old(registry), *old(stack)),
                rev,
                displaced@,
                record@,
                followed,
                next as int,
                touched,
            ),
    {
        assert(next < record.deps.len());
        let stale: bool = record.verified_at.0 != rev.0 && match touched {
            Some(Ok(touch)) => !touch.settled || touch.changed_at.0 > record.changed_at.0,
            _ => true,
        };
        if stale {
            stack.pop();
            self.lead(core, runtime, cache, registry, stack, rev, displaced)
        } else {
            self.check_shared(
                core,
                runtime,
                cache,
                registry,
                stack,
                rev,
                displaced,
                record,
                followed,
                next + 1,
            )
        }
    }
}

impl<V, E> AccessPhase<V, E> {
    closed spec fn wf(&self) -> bool {
        match *self {
            AccessPhase::CheckLocal { deps, next, .. } => next < deps@.len(),
            AccessPhase::CheckShared { record, next, .. } => next < record.deps@.len(),
            _ => true,
        }
    }
}

/// Whether an event is one that an access in this phase waits for.
pub open spec fn expects<V, E>(phase: PhaseView<V, E>, event: AccessEvent<V>) -> bool {
    match phase {
        PhaseView::Idle => event is Poll,
        PhaseView::CheckLocal { .. } => event is Touched,
        PhaseView::CheckShared { .. } => event is Touched,
        PhaseView::Follow { .. } => event is Leader,
        PhaseView::Compute { .. } => event is Computed,
        PhaseView::Done => false,
    }
}

/// What a step does, phase by phase.
pub open spec fn stepped<V, E>(
    ask: Ask<E>,
    w: World<V, E>,
    phase: PhaseView<V, E>,
    event: AccessEvent<V>,
) -> StepView<V, E> {
    match (phase, event) {
        (
            PhaseView::CheckLocal { rev, verified_at, deps, next, settled },
            AccessEvent::Touched(touched),
        ) => local_touched(ask, w, rev, verified_at, deps, next, settled, touched),
        (
            PhaseView::CheckShared { rev, displaced, record, followed, next },
            AccessEvent::Touched(touched),
        ) => shared_touched(ask, w, rev, displaced, record, followed, next, touched),
        (PhaseView::Follow { rev, entry }, AccessEvent::Leader(seen)) => followed(
            ask,
            w,
            rev,
            entry,
            seen@,
        ),
        (PhaseView::Compute { rev, displaced, flight }, AccessEvent::Computed(outcome)) => computed(
            ask,
            w,
            rev,
            displaced,
            flight,
            outcome,
        ),
        _ => polled(ask, w),
    }
}

/// The world once an access to `query` has been given up: its frame is popped, the cell
/// gets back what it held before, and a computation that it led is over.
pub open spec fn abandoned<V, E>(
    query: DynKey,
    w: World<V, E>,
    phase: PhaseView<V, E>,
) -> World<V, E> {
    match phase {
        PhaseView::CheckLocal { .. } => w.popped(),
        PhaseView::CheckShared { displaced, .. } => w.popped().with_state(query, displaced),
        PhaseView::Compute { displaced, flight, .. } => World {
            running: w.running.remove(flight),
            ..w.popped()
        }.with_state(query, displaced),
        _ => w,
    }
}

/// What is left to be told when an access was given up.
pub struct Farewell<V> {
    /// Whether to wake the waiters of the cell.
    pub wake: bool,
    /// What to tell the followers of the computation that the access led.
    pub publish: Option<InFlightState<V>>,
}

/// Whether an access that was given up said so: to those who wait for the cell, where it had taken the
/// cell, and to its followers, where it led.
pub open spec fn said_farewell<V, E>(phase: PhaseView<V, E>, farewell: Farewell<V>) -> bool {
    &&& farewell.wake == (phase is CheckShared || phase is Compute || phase is Follow)
    &&& farewell.publish == (if phase is Compute {
        Some(InFlightState::<V>::Cancelled)
    } else {
        None
    })
}

/// Whether an access began as it must: not at all where the query already runs on this stack, and
/// otherwise with the dependency recorded, where the value is wanted, and with a cell for the query.
pub open spec fn began<V, E>(
    kind: QueryKindId,
    cells: Cells<V>,
    cells_after: Cells<V>,
    stack: Seq<FrameView>,
    stack_after: Seq<FrameView>,
    key: Key,
    want_value: bool,
    r: PicanteResult<Access<V, E>>,
) -> bool {
    let requested = DynKey { kind, key };
    match r {
        Ok(access) => {
            &&& !crate::frame::on_stack(stack, requested@)
            &&& access.query() == requested
            &&& access.wants() == want_value
            &&& access.at() == PhaseView::<V, E>::Idle
            &&& stack_after == (if want_value {
                crate::frame::with_dep(stack, Dep { kind, key })
            } else {
                stack
            })
            &&& cells_after == (if cells.contains_key(key@) {
                cells
            } else {
                cells.insert(key@, StateView::Vacant)
            })
        },
        Err(error) => {
            &&& crate::frame::on_stack(stack, requested@)
            &&& *error matches PicanteError::Cycle { requested: asked, stack: path } && asked
                == requested && path@ == crate::frame::stack_queries(stack)
            &&& stack_after == stack
            &&& cells_after == cells
        },
    }
}

impl<V, E> Access<V, E> {
    /// The query that the access is about.
    pub closed spec fn query(&self) -> DynKey {
        self.requested
    }

    /// Whether the caller wants the value.
    pub closed spec fn wants(&self) -> bool {
        self.want_value
    }

    /// Where the access stands.
    pub closed spec fn at(&self) -> PhaseView<V, E> {
        self.phase@
    }

    /// The access is sound.
    pub closed spec fn wf(&self) -> bool {
        self.phase.wf()
    }

    /// What stays fixed during a step of this access.
    pub open spec fn ask(&self, fresh: Arc<E>, env: Option<usize>) -> Ask<E> {
        Ask { requested: self.query(), want_value: self.wants(), fresh, env }
    }

    /// Begin an access. A query that already runs on this stack is a cycle; otherwise the
    /// innermost frame records the dependency, where the value is wanted, and the query gets
    /// a cell.
    pub fn begin(
        core: &mut DerivedCore<V>,
        stack: &mut FrameStack,
        key: Key,
        want_value: bool,
    ) -> (r: PicanteResult<Self>)
        requires
            old(core).wf(),
        ensures
            final(core).wf(),
            final(core).kind_id() == old(core).kind_id(),
            final(core).name() == old(core).name(),
            r is Err <==> crate::frame::on_stack(old(stack)@, (old(core).kind_id().0, key@)),
            match r {
                Ok(access) => {
                    &&& access.wf()
                    &&& access.query() == (DynKey { kind: old(core).kind_id(), key })
                    &&& access.wants() == want_value
                    &&& access.at() == PhaseView::<V, E>::Idle
                    &&& final(stack)@ == (if want_value {
                        crate::frame::with_dep(
                            old(stack)@,
                            Dep { kind: old(core).kind_id(), key },
                        )
                    } else {
                        old(stack)@
                    })
                    &&& final(core).states() == (if old(core).states().contains_key(key@) {
                        old(core).states()
                    } else {
                        old(core).states().insert(key@, StateView::Vacant)
                    })
                },
                Err(error) => {
                    &&& *error matches PicanteError::Cycle { requested, stack: path } && requested
                        == (DynKey { kind: old(core).kind_id(), key }) && path@
                        == crate::frame::stack_queries(old(stack)@)
                    &&& final(stack)@ == old(stack)@
                    &&& final(core).states() == old(core).states()
                },
            },            began(
                old(core).kind_id(),
                old(core).states(),
                final(core).states(),
                old(stack)@,
                final(stack)@,
                key,
                want_value,
                r,
            ),
    {
        let requested = DynKey { kind: core.kind(), key };
        if let Some(path) = find_cycle(stack, &requested) {
            return Err(Arc::new(PicanteError::Cycle { requested, stack: path }));
        }
        if want_value && has_active_frame(stack) {
            record_dep(stack, requested.to_dep());
        }
        core.ensure_cell(&requested.key);
        Ok(Access { requested, want_value, phase: AccessPhase::Idle })
    }

    /// Take one step: tell the access what happened, and learn what to do next.
    ///
    /// `fresh` becomes the entry of the computation if the access turns into its leader;
    /// `env` is the text of the environment variable that limits the cache of completed
    /// results.
    pub fn advance(
        &mut self,
        core: &mut DerivedCore<V>,
        runtime: &mut Runtime,
        cache: &mut SharedCache<V>,
        registry: &mut InFlightRegistry<E>,
        stack: &mut FrameStack,
        fresh: &Arc<E>,
        env: Option<&str>,
        event: AccessEvent<V>,
    ) -> (r: AccessStep<V, E>)
        requires
            old(self).wf(),
            expects(old(self).at(), event),
            world_wf(*old(core), *old(runtime), *old(cache), *old(registry)),
        ensures
            final(self).wf(),
            final(self).query() == old(self).query(),
            final(self).wants() == old(self).wants(),
            world_wf(*final(core), *final(runtime), *final(cache), *final(registry)),
            final(core).kind_id() == old(core).kind_id(),
            final(core).name() == old(core).name(),
            ({
                let next = stepped(
                    old(self).ask(*fresh, crate::inflight::env_limit(env)),
                    world_of(*old(core), *old(runtime), *old(cache), *old(registry), *old(stack)),
                    old(self).at(),
                    event,
                );
                &&& world_of(
                    *final(core),
                    *final(runtime),
                    *final(cache),
                    *final(registry),
                    *final(stack),
                ) == next.world
                &&& final(self).at() == next.phase
                &&& r.action == next.action
                &&& r.wake == next.wake
                &&& next.publish == (match r.publish {
                    Some(state) => Some(state@),
                    None => None,
                })
            }),
    {
        let mut phase = AccessPhase::Done;
        std::mem::swap(&mut self.phase, &mut phase);
        let want = Want { requested: &self.requested, want_value: self.want_value, fresh, env };
        let (phase, step) = match (phase, event) {
            (
                AccessPhase::CheckLocal { rev, verified_at, deps, next, settled },
                AccessEvent::Touched(touched),
            ) => want.touch_local(
                core,
                runtime,
                cache,
                registry,
                stack,
                rev,
                verified_at,
                deps,
                next,
                settled,
                touched,
            ),
            (
                AccessPhase::CheckShared { rev, displaced, record, followed, next },
                AccessEvent::Touched(touched),
            ) => want.touch_shared(
                core,
                runtime,
                cache,
                registry,
                stack,
                rev,
                displaced,
                record,
                followed,
                next,
                touched,
            ),
            (AccessPhase::Follow { rev, entry }, AccessEvent::Leader(seen)) => want.follow(
                core,
                runtime,
                cache,
                registry,
                stack,
                rev,
                entry,
                seen,
            ),
            (
                AccessPhase::Compute { rev, displaced, guard },
                AccessEvent::Computed(outcome),
            ) => want.compute(
                core,
                runtime,
                cache,
                registry,
                stack,
                rev,
                displaced,
                guard,
                outcome,
            ),
            _ => want.poll(core, runtime, cache, registry, stack),
        };
        self.phase = phase;
        step
    }

    /// Give the access up before it is over, as when its task is dropped.
    pub fn abandon(
        &mut self,
        core: &mut DerivedCore<V>,
        runtime: &Runtime,
        cache: &SharedCache<V>,
        registry: &mut InFlightRegistry<E>,
        stack: &mut FrameStack,
    ) -> (r: Farewell<V>)
        requires
            world_wf(*old(core), *runtime, *cache, *old(registry)),
        ensures
            world_wf(*final(core), *runtime, *cache, *final(registry)),
            final(self).wf(),
            final(self).at() == PhaseView::<V, E>::Done,
            final(self).query() == old(self).query(),
            final(core).kind_id() == old(core).kind_id(),
            final(core).name() == old(core).name(),
            world_of(*final(core), *runtime, *cache, *final(registry), *final(stack)) == abandoned(
                old(self).query(),
                world_of(*old(core), *runtime, *cache, *old(registry), *old(stack)),
                old(self).at(),
            ),
            r.wake == (old(self).at() is CheckShared || old(self).at() is Compute || old(
                self,
            ).at() is Follow),
            r.publish == (if old(self).at() is Compute {
                Some(InFlightState::<V>::Cancelled)
            } else {
                None
            }),
            said_farewell(old(self).at(), r),
    {
        let mut phase = AccessPhase::Done;
        std::mem::swap(&mut self.phase, &mut phase);
        match phase {
            AccessPhase::CheckLocal { .. } => {
                stack.pop();
                Farewell { wake: false, publish: None }
            },
            AccessPhase::CheckShared { displaced, .. } => {
                stack.pop();
                core.set_state(&self.requested.key, displaced);
                Farewell { wake: true, publish: None }
            },
            AccessPhase::Compute { displaced, guard, .. } => {
                stack.pop();
                registry.finish(guard);
                core.set_state(&self.requested.key, displaced);
                Farewell { wake: true, publish: Some(InFlightState::Cancelled) }
            },
            AccessPhase::Follow { .. } => Farewell { wake: true, publish: None },
            _ => Farewell { wake: false, publish: None },
        }
    }
}

} // verus!
