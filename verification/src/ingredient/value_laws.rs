//! What the values in the cells of a derived query have to do with what the query computes.
//!
//! A [`History`] says, of one database, what the value of each input, interned value and query
//! is at each revision. The laws here say that an access keeps the cells true to it, as long as
//! it is told the truth: when a dependency was touched, when the query was run, and when a
//! result comes from another view of the database. That it is, is in the laws of views.
use crate::error::PicanteError;
use crate::ingredient::access::{AccessAction, AccessEvent, ComputeOutcome, Touch};
#[allow(unused_imports)]
use crate::inflight::{FlightView, RecordView};
#[allow(unused_imports)]
use crate::ingredient::access::{Ask, PhaseView, StepView, World};
#[allow(unused_imports)]
use crate::ingredient::derived::{Cells, StateView};
use crate::ingredient::derived::{ErasedReadyRecord, RecordCheck};
#[allow(unused_imports)]
use crate::ingredient::history_laws::InputCall;
#[allow(unused_imports)]
use crate::ingredient::input::Entries;
use crate::key::{Dep, QueryKindId};
#[allow(unused_imports)]
use crate::key::Node;
use crate::revision::Revision;
use std::sync::Arc;
use vstd::prelude::*;

verus! {

/// What is true of a database, revision by revision.
pub ghost struct History<T> {
    /// The value of an input, an interned value or a query at a revision.
    pub value: spec_fn(Node, nat) -> T,
    /// What a query reads when it is run at a revision, in order.
    pub reads: spec_fn(Node, nat) -> Seq<Node>,
    /// Whether this database ever looks at a value as of a revision. Between two such revisions a
    /// value may change and change back without its knowing.
    pub seen: spec_fn(Node, nat) -> bool,
}

/// How the outcomes of a query appear among the values of a history.
#[verifier::reject_recursive_types(V)]
pub ghost struct Shown<V, T> {
    /// A value that the query returns.
    pub value: spec_fn(V) -> T,
    /// A failure of the query.
    pub failure: spec_fn(PicanteError) -> T,
}

impl<T> History<T> {
    /// The value of a node at a revision.
    pub open spec fn value_of(self, node: Node, at: nat) -> T {
        (self.value)(node, at)
    }

    /// What a query reads when it is run at a revision.
    pub open spec fn reads_of(self, query: Node, at: nat) -> Seq<Node> {
        (self.reads)(query, at)
    }

    /// Whether the value of a node is looked at as of a revision.
    pub open spec fn looked_at(self, node: Node, at: nat) -> bool {
        (self.seen)(node, at)
    }

    /// Whether the first `n` values that a query reads at `a` are the same at `b`.
    pub open spec fn reads_alike(self, query: Node, a: nat, b: nat, n: int) -> bool {
        forall|i: int|
            0 <= i < n ==> self.value_of(#[trigger] self.reads_of(query, a)[i], a)
                == self.value_of(self.reads_of(query, a)[i], b)
    }

    /// Whether a query is a function of what it reads: while it reads the same, it goes on the
    /// same way, and if all that it reads is the same, so is its value.
    pub open spec fn deterministic(self, query: Node) -> bool {
        &&& forall|a: nat, b: nat, n: int|
            0 <= n < self.reads_of(query, a).len() && #[trigger] self.reads_alike(query, a, b, n)
                ==> {
                &&& n < self.reads_of(query, b).len()
                &&& self.reads_of(query, b)[n] == self.reads_of(query, a)[n]
            }
        &&& forall|a: nat, b: nat|
            #[trigger] self.reads_alike(query, a, b, self.reads_of(query, a).len() as int) ==> {
                &&& self.value_of(query, b) == self.value_of(query, a)
                &&& self.reads_of(query, b) == self.reads_of(query, a)
            }
    }

    /// Whether looking at a query looks at all that it reads.
    pub open spec fn looks_through(self, query: Node) -> bool {
        forall|at: nat, i: int|
            self.looked_at(query, at) && 0 <= i < self.reads_of(query, at).len()
                ==> self.looked_at(#[trigger] self.reads_of(query, at)[i], at)
    }

    /// Whether, whenever a node was looked at from `since` on, its value was that at `now`.
    pub open spec fn steady(self, node: Node, since: nat, now: nat) -> bool {
        forall|at: nat| #[trigger]
            self.looked_at(node, at) && since <= at <= now ==> self.value_of(node, at)
                == self.value_of(node, now)
    }

    /// Whether a node has had the value that it has at `now` at every revision from `since` on,
    /// looked at or not.
    pub open spec fn settled(self, node: Node, since: nat, now: nat) -> bool {
        forall|at: nat|
            since <= at <= now ==> #[trigger] self.value_of(node, at) == self.value_of(node, now)
    }
}

/// Whether a value, with what it was computed from and the revision since which it is the same,
/// is that of a query at a revision.
pub open spec fn is_result<V, T>(
    h: History<T>,
    shown: Shown<V, T>,
    query: Node,
    value: Arc<V>,
    deps: Seq<Dep>,
    changed_at: nat,
    at: nat,
) -> bool {
    &&& changed_at <= at
    &&& (shown.value)(*value) == h.value_of(query, at)
    &&& crate::graph::dep_nodes(deps) == h.reads_of(query, at)
    &&& h.steady(query, changed_at, at)
}

/// Whether a cell is true to the history: a value in it is the query's value at the revision at
/// which it was last known to be valid, was looked at then, and was the same whenever it was looked
/// at since the revision at which it last changed, and, where the cell says so, at every revision
/// since then; and the query was not looked at after that and before `now`. A failure in it is what
/// the query comes to at the revision of the failure.
pub open spec fn is_true<V, T>(
    h: History<T>,
    shown: Shown<V, T>,
    query: Node,
    state: StateView<V>,
    now: nat,
) -> bool {
    match state {
        StateView::Ready { value, verified_at, changed_at, settled, deps } => {
            &&& is_result(
                h,
                shown,
                query,
                value,
                deps,
                changed_at.0 as nat,
                verified_at.0 as nat,
            )
            &&& settled ==> h.settled(query, changed_at.0 as nat, verified_at.0 as nat)
            &&& verified_at.0 <= now
            &&& h.looked_at(query, verified_at.0 as nat)
            &&& forall|at: nat| #[trigger]
                h.looked_at(query, at) ==> at <= verified_at.0 || at >= now
        },
        StateView::Poisoned { error, verified_at } => (shown.failure)(*error) == h.value_of(
            query,
            verified_at.0 as nat,
        ),
        _ => true,
    }
}

/// Whether every cell of a kind of query is true to the history.
pub open spec fn cells_are_true<V, T>(
    h: History<T>,
    shown: Shown<V, T>,
    kind: u32,
    cells: Cells<V>,
    now: nat,
) -> bool {
    forall|key: Seq<u8>|
        is_true(
            h,
            shown,
            (kind, key),
            #[trigger] crate::ingredient::derived::state_at(cells, key),
            now,
        )
}

/// Whether a record says what the query's result is at the revision at which the record was last
/// known to be valid, and, where it says so, the query has been settled since the result changed.
pub open spec fn record_is_true<V, T>(
    h: History<T>,
    shown: Shown<V, T>,
    query: Node,
    record: RecordView<V>,
) -> bool {
    &&& is_result(
        h,
        shown,
        query,
        record.value,
        record.deps,
        record.changed_at.0 as nat,
        record.verified_at.0 as nat,
    )
    &&& record.settled ==> h.settled(
        query,
        record.changed_at.0 as nat,
        record.verified_at.0 as nat,
    )
}

/// Whether the first `n` dependencies were found to be steady since a revision.
pub open spec fn checked<T>(
    h: History<T>,
    deps: Seq<Dep>,
    n: int,
    since: nat,
    rev: nat,
) -> bool {
    forall|i: int| 0 <= i < n ==> h.steady((#[trigger] deps[i])@, since, rev)
}

/// Whether the first `n` dependencies were found to have been settled since a revision.
pub open spec fn settled_up_to<T>(
    h: History<T>,
    deps: Seq<Dep>,
    n: int,
    since: nat,
    rev: nat,
) -> bool {
    forall|i: int| 0 <= i < n ==> h.settled((#[trigger] deps[i])@, since, rev)
}

/// Whether what touching a node tells is true as of a revision.
pub open spec fn touch_is_true<T>(h: History<T>, node: Node, touch: Touch, at: nat) -> bool {
    &&& h.steady(node, touch.changed_at.0 as nat, at)
    &&& touch.settled ==> h.settled(node, touch.changed_at.0 as nat, at)
}

/// Whether nobody looks at a query between `rev` and `now`.
pub open spec fn quiet_since<T>(h: History<T>, query: Node, rev: nat, now: nat) -> bool {
    &&& rev <= now
    &&& forall|at: nat| #[trigger] h.looked_at(query, at) ==> at <= rev || at >= now
}

/// Whether what an access has found out so far is true to the history. While it checks its own
/// value, another access may have verified the cell, but not at a later revision than `rev`; and
/// nobody looks at the query meanwhile, except as of the revision that the database is at.
pub open spec fn phase_is_true<V, E, T>(
    h: History<T>,
    shown: Shown<V, T>,
    ask: Ask<E>,
    w: World<V, E>,
    phase: PhaseView<V, E>,
) -> bool {
    let query = ask.requested@;
    let now = w.runtime.revision.0 as nat;
    match phase {
        PhaseView::Idle => true,
        PhaseView::CheckLocal { rev, verified_at, deps, next, settled } => {
            &&& quiet_since(h, query, rev.0 as nat, now)
            &&& verified_at.0 <= rev.0
            &&& 0 <= next < deps.len()
            &&& h.looked_at(query, verified_at.0 as nat)
            &&& crate::graph::dep_nodes(deps) == h.reads_of(query, verified_at.0 as nat)
            &&& checked(h, deps, next, verified_at.0 as nat, rev.0 as nat)
            &&& settled ==> settled_up_to(h, deps, next, verified_at.0 as nat, rev.0 as nat)
            &&& w.cell(ask) matches StateView::Ready { verified_at: latest, .. }
                ==> verified_at.0 <= latest.0 <= rev.0
        },
        PhaseView::CheckShared { rev, displaced, record, next, .. } => {
            &&& quiet_since(h, query, rev.0 as nat, now)
            &&& is_true(h, shown, query, displaced, rev.0 as nat)
            &&& 0 <= next < record.deps.len()
            &&& record.verified_at.0 <= rev.0
            &&& record_is_true(h, shown, query, record)
            &&& record.verified_at != rev ==> settled_up_to(
                h,
                record.deps,
                next,
                record.changed_at.0 as nat,
                rev.0 as nat,
            )
        },
        PhaseView::Follow { rev, .. } => quiet_since(h, query, rev.0 as nat, now),
        PhaseView::Compute { rev, displaced, .. } => {
            &&& quiet_since(h, query, rev.0 as nat, now)
            &&& is_true(h, shown, query, displaced, rev.0 as nat)
        },
        PhaseView::Done => true,
    }
}

/// The revision that an access works at.
pub open spec fn works_at<V, E>(w: World<V, E>, phase: PhaseView<V, E>) -> Revision {
    match phase {
        PhaseView::CheckLocal { rev, .. } => rev,
        PhaseView::CheckShared { rev, .. } => rev,
        PhaseView::Follow { rev, .. } => rev,
        PhaseView::Compute { rev, .. } => rev,
        _ => w.runtime.revision,
    }
}

/// The name under which the query's results are shared.
pub open spec fn shared_as<V, E>(ask: Ask<E>, w: World<V, E>) -> Seq<u8> {
    crate::inflight::shared_name(w.runtime.id, ask.requested@)
}

/// Whether what happens to an access is reported truthfully, as of the revision that it works at:
/// - what touching a dependency tells is true;
/// - a computation returns the query's value, its frame has recorded what the query reads, and a
///   value that is called unchanged cannot be told from the previous one; or it fails as the query
///   does;
/// - what another view has computed at that revision is this database's result.
///
/// An access that has taken the cell to take over a record gives the cell back where the database
/// moves on, so that nobody has looked at the query as of the revision that has passed.
pub open spec fn is_told_the_truth<V, E, T>(
    h: History<T>,
    shown: Shown<V, T>,
    ask: Ask<E>,
    w: World<V, E>,
    phase: PhaseView<V, E>,
    event: AccessEvent<V>,
) -> bool {
    let query = ask.requested@;
    let at = works_at(w, phase).0 as nat;
    match (phase, event) {
        (PhaseView::CheckLocal { deps, next, .. }, AccessEvent::Touched(touched)) => {
            touched matches Some(Ok(touch)) ==> touch_is_true(h, deps[next]@, touch, at)
        },
        (PhaseView::CheckShared { record, next, .. }, AccessEvent::Touched(touched)) => {
            &&& touched matches Some(Ok(touch)) ==> (touch.settled ==> h.settled(
                record.deps[next]@,
                touch.changed_at.0 as nat,
                at,
            ))
            &&& at == w.runtime.revision.0 || !h.looked_at(query, at)
        },
        (PhaseView::Follow { .. }, AccessEvent::Leader(seen)) => match seen@ {
            FlightView::Done { value, deps, changed_at } => is_result(
                h,
                shown,
                query,
                value,
                deps,
                changed_at.0 as nat,
                at,
            ),
            FlightView::Failed(error) => (shown.failure)(*error) == h.value_of(query, at),
            _ => true,
        },
        (PhaseView::Compute { displaced, .. }, AccessEvent::Computed(outcome)) => match outcome {
            ComputeOutcome::Value { value, unchanged } => {
                &&& (shown.value)(*value) == h.value_of(query, at)
                &&& crate::graph::dep_nodes(crate::ingredient::access::top_recorded(w.stack))
                    == h.reads_of(query, at)
                &&& unchanged ==> (displaced matches StateView::Ready { value: previous, .. }
                    ==> (shown.value)(*previous) == (shown.value)(*value))
            },
            ComputeOutcome::Failed(error) => (shown.failure)(*error) == h.value_of(query, at),
            ComputeOutcome::Panicked(message) => (shown.failure)(PicanteError::Panic { message })
                == h.value_of(query, at),
        },
        _ => true,
    }
}

/// Whether the record that the cache of completed results holds for the query is true, where the
/// access can make use of it.
pub open spec fn shared_record_is_true<V, E, T>(
    h: History<T>,
    shown: Shown<V, T>,
    ask: Ask<E>,
    w: World<V, E>,
    at: nat,
) -> bool {
    let name = shared_as(ask, w);
    w.cache.held.contains_key(name) && w.cache.held[name].verified_at.0 <= at ==> record_is_true(
        h,
        shown,
        ask.requested@,
        w.cache.held[name],
    )
}

proof fn reads_go_on_alike<T>(
    h: History<T>,
    query: Node,
    verified: nat,
    at: nat,
    now: nat,
    n: int,
)
    requires
        h.deterministic(query),
        h.looks_through(query),
        h.looked_at(query, verified),
        h.looked_at(query, at),
        verified <= at <= now,
        forall|i: int|
            0 <= i < h.reads_of(query, verified).len() ==> h.steady(
                #[trigger] h.reads_of(query, verified)[i],
                verified,
                now,
            ),
        0 <= n <= h.reads_of(query, verified).len(),
    ensures
        h.reads_alike(query, verified, at, n),
    decreases n,
{
    if n > 0 {
        reads_go_on_alike(h, query, verified, at, now, n - 1);
        let last = h.reads_of(query, verified)[n - 1];
        assert(h.reads_of(query, at)[n - 1] == last);
        assert(h.steady(last, verified, now));
        assert(h.looked_at(h.reads_of(query, at)[n - 1], at));
        assert(h.looked_at(h.reads_of(query, verified)[n - 1], verified));
    }
}

/// Revalidation is sound: if all that a query read at `verified` has been steady since then, the
/// query reads the same and has the same value now, and so it had whenever it was looked at
/// meanwhile.
pub proof fn revalidation_is_sound<T>(h: History<T>, query: Node, verified: nat, now: nat)
    requires
        h.deterministic(query),
        h.looks_through(query),
        h.looked_at(query, verified),
        verified <= now,
        forall|i: int|
            0 <= i < h.reads_of(query, verified).len() ==> h.steady(
                #[trigger] h.reads_of(query, verified)[i],
                verified,
                now,
            ),
    ensures
        h.value_of(query, now) == h.value_of(query, verified),
        h.reads_of(query, now) == h.reads_of(query, verified),
        forall|at: nat| #[trigger]
            h.looked_at(query, at) && verified <= at <= now ==> {
                &&& h.value_of(query, at) == h.value_of(query, verified)
                &&& h.reads_of(query, at) == h.reads_of(query, verified)
            },
{
    let read = h.reads_of(query, verified);
    assert(h.reads_alike(query, verified, now, read.len() as int)) by {
        assert forall|i: int| 0 <= i < read.len() implies h.value_of(
            #[trigger] h.reads_of(query, verified)[i],
            verified,
        ) == h.value_of(h.reads_of(query, verified)[i], now) by {
            assert(h.looked_at(h.reads_of(query, verified)[i], verified));
            assert(h.steady(h.reads_of(query, verified)[i], verified, now));
        }
    }
    assert forall|at: nat| #[trigger]
        h.looked_at(query, at) && verified <= at <= now implies {
        &&& h.value_of(query, at) == h.value_of(query, verified)
        &&& h.reads_of(query, at) == h.reads_of(query, verified)
    } by {
        reads_go_on_alike(h, query, verified, at, now, read.len() as int);
    }
}

/// Whether a step of an access is true to the history:
/// - the cell of the query and what the access has found out so far are;
/// - a value that is returned is the query's value at the revision that the database is at, and
///   what goes with it is what touching the query would truly tell; so is an error, unless it
///   came from touching a dependency of the cell's own value;
/// - what the followers are told is the query's result at the revision that the access works at.
pub open spec fn step_is_true<V, E, T>(
    h: History<T>,
    shown: Shown<V, T>,
    ask: Ask<E>,
    event: AccessEvent<V>,
    next: StepView<V, E>,
    at: nat,
) -> bool {
    let query = ask.requested@;
    let now = next.world.runtime.revision.0 as nat;
    &&& is_true(h, shown, query, next.world.cell(ask), now)
    &&& phase_is_true(h, shown, ask, next.world, next.phase)
    &&& next.action matches AccessAction::Return(Ok(result)) ==> {
        &&& result.value matches Some(value) ==> (shown.value)(*value) == h.value_of(query, now)
        &&& touch_is_true(
            h,
            query,
            Touch { changed_at: result.changed_at, settled: result.settled },
            now,
        )
    }
    &&& next.action matches AccessAction::Return(Err(error)) ==> {
        ||| event matches AccessEvent::Touched(Some(Err(_)))
        ||| (shown.failure)(*error) == h.value_of(query, now)
    }
    &&& match next.publish {
        Some(FlightView::Done { value, deps, changed_at }) => is_result(
            h,
            shown,
            query,
            value,
            deps,
            changed_at.0 as nat,
            at,
        ),
        Some(FlightView::Failed(error)) => (shown.failure)(*error) == h.value_of(query, at),
        _ => true,
    }
}

proof fn check_reaches<T>(
    h: History<T>,
    query: Node,
    deps: Seq<Dep>,
    verified: nat,
    rev: nat,
)
    requires
        h.deterministic(query),
        h.looks_through(query),
        h.looked_at(query, verified),
        verified <= rev,
        crate::graph::dep_nodes(deps) == h.reads_of(query, verified),
        checked(h, deps, deps.len() as int, verified, rev),
    ensures
        h.value_of(query, rev) == h.value_of(query, verified),
        h.reads_of(query, rev) == h.reads_of(query, verified),
        forall|at: nat| #[trigger]
            h.looked_at(query, at) && verified <= at <= rev ==> {
                &&& h.value_of(query, at) == h.value_of(query, verified)
                &&& h.reads_of(query, at) == h.reads_of(query, verified)
            },
{
    assert forall|i: int| 0 <= i < h.reads_of(query, verified).len() implies h.steady(
        #[trigger] h.reads_of(query, verified)[i],
        verified,
        rev,
    ) by {
        assert(crate::graph::dep_nodes(deps)[i] == deps[i]@);
        assert(h.steady(deps[i]@, verified, rev));
    }
    revalidation_is_sound(h, query, verified, rev);
}

proof fn settled_reads_settle<T>(
    h: History<T>,
    query: Node,
    deps: Seq<Dep>,
    since: nat,
    verified: nat,
    rev: nat,
)
    requires
        h.deterministic(query),
        since <= verified <= rev,
        crate::graph::dep_nodes(deps) == h.reads_of(query, verified),
        settled_up_to(h, deps, deps.len() as int, since, rev),
    ensures
        forall|at: nat|
            since <= at <= rev ==> {
                &&& #[trigger] h.value_of(query, at) == h.value_of(query, verified)
                &&& h.reads_of(query, at) == h.reads_of(query, verified)
            },
{
    let read = h.reads_of(query, verified);
    assert forall|at: nat| since <= at <= rev implies {
        &&& #[trigger] h.value_of(query, at) == h.value_of(query, verified)
        &&& h.reads_of(query, at) == read
    } by {
        assert(h.reads_alike(query, verified, at, read.len() as int)) by {
            assert forall|i: int| 0 <= i < read.len() implies h.value_of(
                #[trigger] h.reads_of(query, verified)[i],
                verified,
            ) == h.value_of(h.reads_of(query, verified)[i], at) by {
                assert(crate::graph::dep_nodes(deps)[i] == deps[i]@);
                assert(h.settled(deps[i]@, since, rev));
            }
        }
    }
}

/// Adopting an older record is sound: if all that a query read at `verified` has had the same value
/// at every revision since the result changed, the query reads the same and has the same value at
/// every revision up to now.
pub proof fn settled_record_is_sound<V, T>(
    h: History<T>,
    shown: Shown<V, T>,
    query: Node,
    record: RecordView<V>,
    rev: nat,
)
    requires
        h.deterministic(query),
        record_is_true(h, shown, query, record),
        record.verified_at.0 <= rev,
        settled_up_to(
            h,
            record.deps,
            record.deps.len() as int,
            record.changed_at.0 as nat,
            rev,
        ),
    ensures
        is_result(
            h,
            shown,
            query,
            record.value,
            record.deps,
            record.changed_at.0 as nat,
            rev,
        ),
        h.settled(query, record.changed_at.0 as nat, rev),
{
    let verified = record.verified_at.0 as nat;
    let since = record.changed_at.0 as nat;
    settled_reads_settle(h, query, record.deps, since, verified, rev);
    assert(h.value_of(query, rev) == h.value_of(query, verified));
    assert forall|at: nat| #[trigger]
        h.looked_at(query, at) && since <= at <= rev implies h.value_of(query, at) == h.value_of(
        query,
        rev,
    ) by {
        if at >= verified {
            assert(h.value_of(query, at) == h.value_of(query, verified));
        }
    }
}

proof fn reuse_is_true<V, E, T>(
    h: History<T>,
    shown: Shown<V, T>,
    ask: Ask<E>,
    w: World<V, E>,
    event: AccessEvent<V>,
    rev: Revision,
    verified_at: Revision,
    deps: Seq<Dep>,
    settled: bool,
)
    requires
        h.deterministic(ask.requested@),
        h.looks_through(ask.requested@),
        is_true(h, shown, ask.requested@, w.cell(ask), w.runtime.revision.0 as nat),
        h.looked_at(ask.requested@, verified_at.0 as nat),
        crate::graph::dep_nodes(deps) == h.reads_of(ask.requested@, verified_at.0 as nat),
        checked(h, deps, deps.len() as int, verified_at.0 as nat, rev.0 as nat),
        settled ==> settled_up_to(
            h,
            deps,
            deps.len() as int,
            verified_at.0 as nat,
            rev.0 as nat,
        ),
        verified_at.0 <= rev.0,
        quiet_since(h, ask.requested@, rev.0 as nat, w.runtime.revision.0 as nat),
        w.cell(ask) matches StateView::Ready { verified_at: latest, .. } ==> verified_at.0
            <= latest.0 <= rev.0,
        crate::ingredient::access::reused(ask, w, rev, settled).world.cell(
            ask,
        ) matches StateView::Ready { verified_at: latest, .. } ==> h.looked_at(
            ask.requested@,
            latest.0 as nat,
        ),
    ensures
        step_is_true(
            h,
            shown,
            ask,
            event,
            crate::ingredient::access::reused(ask, w, rev, settled),
            rev.0 as nat,
        ),
{
    let query = ask.requested@;
    check_reaches(h, query, deps, verified_at.0 as nat, rev.0 as nat);
    if settled {
        settled_reads_settle(h, query, deps, verified_at.0 as nat, verified_at.0 as nat, rev.0 as nat);
        if let StateView::Ready { verified_at: latest, changed_at, settled: true, .. } = w.cell(ask) {
            assert forall|at: nat| changed_at.0 <= at <= rev.0 implies #[trigger] h.value_of(
                query,
                at,
            ) == h.value_of(query, rev.0 as nat) by {
                if at >= verified_at.0 {
                    assert(h.value_of(query, at) == h.value_of(query, verified_at.0 as nat));
                }
                assert(h.value_of(query, latest.0 as nat) == h.value_of(
                    query,
                    verified_at.0 as nat,
                ));
            }
        }
    }
}

proof fn adoption_is_true<V, E, T>(
    h: History<T>,
    shown: Shown<V, T>,
    ask: Ask<E>,
    w: World<V, E>,
    event: AccessEvent<V>,
    rev: Revision,
    record: RecordView<V>,
    followed: bool,
)
    requires
        h.deterministic(ask.requested@),
        w.runtime.revision == rev,
        record.verified_at.0 <= rev.0,
        record_is_true(h, shown, ask.requested@, record),
        record.verified_at != rev ==> settled_up_to(
            h,
            record.deps,
            record.deps.len() as int,
            record.changed_at.0 as nat,
            rev.0 as nat,
        ),
        h.looked_at(ask.requested@, rev.0 as nat),
    ensures
        step_is_true(
            h,
            shown,
            ask,
            event,
            crate::ingredient::access::adopted(ask, w, rev, record, followed),
            rev.0 as nat,
        ),
{
    if record.verified_at != rev {
        settled_record_is_sound(h, shown, ask.requested@, record, rev.0 as nat);
    }
}

proof fn check_is_true<V, E, T>(
    h: History<T>,
    shown: Shown<V, T>,
    ask: Ask<E>,
    w: World<V, E>,
    event: AccessEvent<V>,
    rev: Revision,
    displaced: StateView<V>,
    record: RecordView<V>,
    followed: bool,
    next: int,
)
    requires
        h.deterministic(ask.requested@),
        0 <= next <= record.deps.len(),
        quiet_since(h, ask.requested@, rev.0 as nat, w.runtime.revision.0 as nat),
        is_true(h, shown, ask.requested@, w.cell(ask), w.runtime.revision.0 as nat),
        is_true(h, shown, ask.requested@, displaced, rev.0 as nat),
        w.runtime.revision == rev || next < record.deps.len() || is_true(
            h,
            shown,
            ask.requested@,
            displaced,
            w.runtime.revision.0 as nat,
        ),
        record.verified_at.0 <= rev.0,
        record_is_true(h, shown, ask.requested@, record),
        record.verified_at != rev ==> settled_up_to(
            h,
            record.deps,
            next,
            record.changed_at.0 as nat,
            rev.0 as nat,
        ),
        next == record.deps.len() && w.runtime.revision == rev ==> h.looked_at(
            ask.requested@,
            rev.0 as nat,
        ),
    ensures
        step_is_true(
            h,
            shown,
            ask,
            event,
            crate::ingredient::access::shared_check(
                ask,
                w,
                rev,
                displaced,
                record,
                followed,
                next,
            ),
            rev.0 as nat,
        ),
{
    if next == record.deps.len() && w.runtime.revision == rev {
        adoption_is_true(h, shown, ask, w.popped(), event, rev, record, followed);
    }
}

proof fn start_is_true<V, E, T>(
    h: History<T>,
    shown: Shown<V, T>,
    ask: Ask<E>,
    w: World<V, E>,
    event: AccessEvent<V>,
    rev: Revision,
)
    requires
        h.deterministic(ask.requested@),
        is_true(h, shown, ask.requested@, w.cell(ask), w.runtime.revision.0 as nat),
        quiet_since(h, ask.requested@, rev.0 as nat, w.runtime.revision.0 as nat),
        w.cell(ask) matches StateView::Ready { verified_at: latest, .. } ==> latest.0 <= rev.0,
        shared_record_is_true(h, shown, ask, w, rev.0 as nat),
        crate::ingredient::access::started(ask, w, rev).world.cell(
            ask,
        ) matches StateView::Ready { verified_at: latest, .. } ==> h.looked_at(
            ask.requested@,
            latest.0 as nat,
        ),
    ensures
        step_is_true(
            h,
            shown,
            ask,
            event,
            crate::ingredient::access::started(ask, w, rev),
            rev.0 as nat,
        ),
{
    let name = shared_as(ask, w);
    let taken = w.with_cell(ask, StateView::Running { started_at: rev });
    assert(is_true(h, shown, ask.requested@, w.cell(ask), rev.0 as nat));
    if !crate::ingredient::access::is_raced(w.cell(ask), rev) && w.cache.held.contains_key(name)
        && w.cache.held[name].verified_at.0 <= rev.0 {
        check_is_true(
            h,
            shown,
            ask,
            taken.pushed(ask, rev),
            event,
            rev,
            w.cell(ask),
            w.cache.held[name],
            false,
            0,
        );
    }
}

spec fn all_is_true<V, E, T>(
    h: History<T>,
    shown: Shown<V, T>,
    ask: Ask<E>,
    w: World<V, E>,
    phase: PhaseView<V, E>,
    event: AccessEvent<V>,
) -> bool {
    &&& crate::ingredient::access::expects(phase, event)
    &&& h.deterministic(ask.requested@)
    &&& h.looks_through(ask.requested@)
    &&& is_true(h, shown, ask.requested@, w.cell(ask), w.runtime.revision.0 as nat)
    &&& phase_is_true(h, shown, ask, w, phase)
    &&& is_told_the_truth(h, shown, ask, w, phase, event)
    &&& shared_record_is_true(h, shown, ask, w, works_at(w, phase).0 as nat)
    &&& crate::ingredient::access::stepped(ask, w, phase, event).world.cell(
        ask,
    ) matches StateView::Ready { verified_at, .. } ==> h.looked_at(
        ask.requested@,
        verified_at.0 as nat,
    )
}

proof fn idle_step_is_true<V, E, T>(
    h: History<T>,
    shown: Shown<V, T>,
    ask: Ask<E>,
    w: World<V, E>,
    phase: PhaseView<V, E>,
    event: AccessEvent<V>,
)
    requires
        phase is Idle,
        all_is_true(h, shown, ask, w, phase, event),
    ensures
        step_is_true(
            h,
            shown,
            ask,
            event,
            crate::ingredient::access::stepped(ask, w, phase, event),
            works_at(w, phase).0 as nat,
        ),
{
    match w.cell(ask) {
        StateView::Ready { verified_at, deps, .. } => {
            if verified_at != w.runtime.revision && deps.len() == 0 {
                let pushed = w.pushed(ask, w.runtime.revision);
                reuse_is_true(
                    h,
                    shown,
                    ask,
                    pushed.popped(),
                    event,
                    w.runtime.revision,
                    verified_at,
                    deps,
                    true,
                );
            }
        },
        StateView::Poisoned { verified_at, .. } => {
            if verified_at != w.runtime.revision {
                start_is_true(h, shown, ask, w, event, w.runtime.revision);
            }
        },
        StateView::Vacant => {
            start_is_true(h, shown, ask, w, event, w.runtime.revision);
        },
        StateView::Running { .. } => {},
    }
}

proof fn local_step_is_true<V, E, T>(
    h: History<T>,
    shown: Shown<V, T>,
    ask: Ask<E>,
    w: World<V, E>,
    phase: PhaseView<V, E>,
    event: AccessEvent<V>,
)
    requires
        phase is CheckLocal,
        all_is_true(h, shown, ask, w, phase, event),
    ensures
        step_is_true(
            h,
            shown,
            ask,
            event,
            crate::ingredient::access::stepped(ask, w, phase, event),
            works_at(w, phase).0 as nat,
        ),
{
    if let PhaseView::CheckLocal { rev, verified_at, deps, next: place, settled } = phase {
        let at = rev.0 as nat;
        match event {
            AccessEvent::Touched(Some(Ok(touch))) => {
                if touch.changed_at.0 > verified_at.0 {
                    start_is_true(h, shown, ask, w.popped(), event, rev);
                } else {
                    assert(checked(h, deps, place + 1, verified_at.0 as nat, at));
                    let still = settled && touch.settled;
                    assert(still ==> settled_up_to(
                        h,
                        deps,
                        place + 1,
                        verified_at.0 as nat,
                        at,
                    ));
                    if place + 1 >= deps.len() {
                        reuse_is_true(
                            h,
                            shown,
                            ask,
                            w.popped(),
                            event,
                            rev,
                            verified_at,
                            deps,
                            still,
                        );
                    }
                }
            },
            AccessEvent::Touched(None) => {
                start_is_true(h, shown, ask, w.popped(), event, rev);
            },
            _ => {},
        }
    }
}

proof fn shared_step_is_true<V, E, T>(
    h: History<T>,
    shown: Shown<V, T>,
    ask: Ask<E>,
    w: World<V, E>,
    phase: PhaseView<V, E>,
    event: AccessEvent<V>,
)
    requires
        phase is CheckShared,
        all_is_true(h, shown, ask, w, phase, event),
    ensures
        step_is_true(
            h,
            shown,
            ask,
            event,
            crate::ingredient::access::stepped(ask, w, phase, event),
            works_at(w, phase).0 as nat,
        ),
{
    if let PhaseView::CheckShared { rev, displaced, record, followed, next: place } = phase {
        match event {
            AccessEvent::Touched(touched) => {
                if crate::ingredient::access::speaks_for_record(touched, record, rev) {
                    check_is_true(
                        h,
                        shown,
                        ask,
                        w,
                        event,
                        rev,
                        displaced,
                        record,
                        followed,
                        place + 1,
                    );
                }
            },
            _ => {},
        }
    }
}

proof fn follow_step_is_true<V, E, T>(
    h: History<T>,
    shown: Shown<V, T>,
    ask: Ask<E>,
    w: World<V, E>,
    phase: PhaseView<V, E>,
    event: AccessEvent<V>,
)
    requires
        phase is Follow,
        all_is_true(h, shown, ask, w, phase, event),
    ensures
        step_is_true(
            h,
            shown,
            ask,
            event,
            crate::ingredient::access::stepped(ask, w, phase, event),
            works_at(w, phase).0 as nat,
        ),
{
    if let PhaseView::Follow { rev, .. } = phase {
        match event {
            AccessEvent::Leader(seen) => {
                if let FlightView::Done { value, deps, changed_at } = seen@ {
                    if w.runtime.revision == rev && !crate::ingredient::access::is_raced(
                        w.cell(ask),
                        rev,
                    ) {
                        check_is_true(
                            h,
                            shown,
                            ask,
                            w.with_cell(
                                ask,
                                StateView::Running { started_at: rev },
                            ).pushed(ask, rev),
                            event,
                            rev,
                            w.cell(ask),
                            RecordView {
                                value,
                                deps,
                                changed_at,
                                verified_at: rev,
                                settled: changed_at == rev,
                                insert_id: 0,
                            },
                            true,
                            0,
                        );
                    }
                }
            },
            _ => {},
        }
    }
}

proof fn compute_step_is_true<V, E, T>(
    h: History<T>,
    shown: Shown<V, T>,
    ask: Ask<E>,
    w: World<V, E>,
    phase: PhaseView<V, E>,
    event: AccessEvent<V>,
)
    requires
        phase is Compute,
        all_is_true(h, shown, ask, w, phase, event),
    ensures
        step_is_true(
            h,
            shown,
            ask,
            event,
            crate::ingredient::access::stepped(ask, w, phase, event),
            works_at(w, phase).0 as nat,
        ),
{

}

/// An access keeps the cells true. Let the query be a deterministic function of what it reads,
/// and let the access be told the truth, by those who report to it and by the cache of completed
/// results. If every cell holds its query's value at the revision at
/// which it was last known to be valid, and unchanged since the revision at which it last changed,
/// then so it is after the step; and a value that the step returns is the query's value at the
/// current revision. Whoever is told that the query was touched is told the truth in turn. A
/// failure that is recorded or returned is the query's own, except one that a touch ran into.
///
/// A query whose cell says that its value is valid at a revision counts as looked at as of that
/// revision.
pub proof fn access_keeps_values_true<V, E, T>(
    h: History<T>,
    shown: Shown<V, T>,
    ask: Ask<E>,
    w: World<V, E>,
    phase: PhaseView<V, E>,
    event: AccessEvent<V>,
)
    requires
        crate::ingredient::access::expects(phase, event),
        h.deterministic(ask.requested@),
        h.looks_through(ask.requested@),
        cells_are_true(h, shown, ask.requested.kind.0, w.cells, w.runtime.revision.0 as nat),
        phase_is_true(h, shown, ask, w, phase),
        is_told_the_truth(h, shown, ask, w, phase, event),
        shared_record_is_true(h, shown, ask, w, works_at(w, phase).0 as nat),
        crate::ingredient::access::stepped(ask, w, phase, event).world.cell(
            ask,
        ) matches StateView::Ready { verified_at, .. } ==> h.looked_at(
            ask.requested@,
            verified_at.0 as nat,
        ),
    ensures
        ({
            let next = crate::ingredient::access::stepped(ask, w, phase, event);
            &&& cells_are_true(
                h,
                shown,
                ask.requested.kind.0,
                next.world.cells,
                next.world.runtime.revision.0 as nat,
            )
            &&& step_is_true(h, shown, ask, event, next, works_at(w, phase).0 as nat)
        }),
{
    let query = ask.requested@;
    let next = crate::ingredient::access::stepped(ask, w, phase, event);
    let now = w.runtime.revision.0 as nat;
    let at = works_at(w, phase).0 as nat;
    assert(is_true(h, shown, query, w.cell(ask), now));
    match phase {
        PhaseView::Idle => idle_step_is_true(h, shown, ask, w, phase, event),
        PhaseView::CheckLocal { .. } => local_step_is_true(h, shown, ask, w, phase, event),
        PhaseView::CheckShared { .. } => shared_step_is_true(h, shown, ask, w, phase, event),
        PhaseView::Follow { .. } => follow_step_is_true(h, shown, ask, w, phase, event),
        PhaseView::Compute { .. } => compute_step_is_true(h, shown, ask, w, phase, event),
        PhaseView::Done => {},
    }
    assert(step_is_true(h, shown, ask, event, next, at));
    assert forall|key: Seq<u8>|
        is_true(
            h,
            shown,
            (ask.requested.kind.0, key),
            #[trigger] crate::ingredient::derived::state_at(next.world.cells, key),
            now,
        ) by {
        crate::ingredient::access_laws::other_queries_are_untouched(ask, w, phase, event);
        if key != ask.requested.key@ {
            assert(is_true(
                h,
                shown,
                (ask.requested.kind.0, key),
                crate::ingredient::derived::state_at(w.cells, key),
                now,
            ));
        }
    }
}

/// Accesses do not disturb each other: what another access of the same ingredient has found out so
/// far stays true. Where the two are for the same query and the other checks the cell's own value,
/// both work at the same revision or the other at a later one; and what this access may put back
/// into the cell is no older than what the other checks, which it saw in the cell before.
pub proof fn step_keeps_other_accesses_true<V, E, T>(
    h: History<T>,
    shown: Shown<V, T>,
    ask: Ask<E>,
    w: World<V, E>,
    phase: PhaseView<V, E>,
    event: AccessEvent<V>,
    other: Ask<E>,
    other_phase: PhaseView<V, E>,
)
    requires
        crate::ingredient::access::expects(phase, event),
        other.requested.kind == ask.requested.kind,
        phase_is_true(h, shown, other, w, other_phase),
        other.requested@ == ask.requested@ ==> (
        other_phase matches PhaseView::CheckLocal { rev, verified_at, .. } ==> {
            &&& verified_at.0 <= works_at(w, phase).0 <= rev.0
            &&& crate::ingredient::access_laws::displaced_in(phase) matches Some(
                StateView::Ready { verified_at: before, .. },
            ) ==> verified_at.0 <= before.0 <= rev.0
        }),
    ensures
        phase_is_true(
            h,
            shown,
            other,
            crate::ingredient::access::stepped(ask, w, phase, event).world,
            other_phase,
        ),
{
    crate::ingredient::access_laws::other_queries_are_untouched(ask, w, phase, event);
    let next = crate::ingredient::access::stepped(ask, w, phase, event);
    if other.requested@ != ask.requested@ {
        assert(next.world.cell(other) == w.cell(other));
    }
}

/// An access that is dropped keeps the cells true, too: the cell gets back what it held. Nobody
/// has looked at the query on behalf of that access, so not as of a revision that has passed.
pub proof fn dropped_access_keeps_values_true<V, E, T>(
    h: History<T>,
    shown: Shown<V, T>,
    ask: Ask<E>,
    w: World<V, E>,
    phase: PhaseView<V, E>,
)
    requires
        cells_are_true(h, shown, ask.requested.kind.0, w.cells, w.runtime.revision.0 as nat),
        phase_is_true(h, shown, ask, w, phase),
        works_at(w, phase) == w.runtime.revision || !h.looked_at(
            ask.requested@,
            works_at(w, phase).0 as nat,
        ),
    ensures
        cells_are_true(
            h,
            shown,
            ask.requested.kind.0,
            crate::ingredient::access::abandoned(ask.requested, w, phase).cells,
            w.runtime.revision.0 as nat,
        ),
{
    let now = w.runtime.revision.0 as nat;
    let left = crate::ingredient::access::abandoned(ask.requested, w, phase);
    assert forall|key: Seq<u8>|
        is_true(
            h,
            shown,
            (ask.requested.kind.0, key),
            #[trigger] crate::ingredient::derived::state_at(left.cells, key),
            now,
        ) by {
        assert(is_true(
            h,
            shown,
            (ask.requested.kind.0, key),
            crate::ingredient::derived::state_at(w.cells, key),
            now,
        ));
    }
}

/// The cells stay true as the database moves on to a later revision, provided that whoever has
/// looked at a query as of a revision that thereby passes has left that in its cell.
pub proof fn values_stay_true_over_revisions<V, T>(
    h: History<T>,
    shown: Shown<V, T>,
    kind: u32,
    cells: Cells<V>,
    now: nat,
    later: nat,
)
    requires
        cells_are_true(h, shown, kind, cells, now),
        now <= later,
        forall|key: Seq<u8>, at: nat| #[trigger]
            h.looked_at((kind, key), at) && now <= at < later ==> (
            crate::ingredient::derived::state_at(
                cells,
                key,
            ) matches StateView::Ready { verified_at, .. } ==> at <= verified_at.0),
    ensures
        cells_are_true(h, shown, kind, cells, later),
{
    assert forall|key: Seq<u8>|
        is_true(
            h,
            shown,
            (kind, key),
            #[trigger] crate::ingredient::derived::state_at(cells, key),
            later,
        ) by {
        assert(is_true(
            h,
            shown,
            (kind, key),
            crate::ingredient::derived::state_at(cells, key),
            now,
        ));
    }
}

/// Promotion is sound: if a record is the query's result as of the revision at which it was last known
/// to be valid, and everything that the query reads there, touched one after the other, speaks for
/// the record, then the record is the query's result as of now.
pub proof fn valid_records_hold<V, T>(
    h: History<T>,
    shown: Shown<V, T>,
    query: Node,
    record: ErasedReadyRecord<V>,
    touches: Seq<Touch>,
    now: Revision,
)
    requires
        h.deterministic(query),
        is_result(
            h,
            shown,
            query,
            record.value,
            record.deps@,
            record.changed_at.0 as nat,
            record.verified_at.0 as nat,
        ),
        record.verified_at.0 <= now.0,
        touches.len() == record.deps@.len(),
        forall|i: int|
            0 <= i < touches.len() ==> touch_is_true(
                h,
                record.deps@[i]@,
                #[trigger] touches[i],
                now.0 as nat,
            ),
        forall|i: int|
            0 <= i < touches.len() ==> RecordCheck::speaks_for(
                #[trigger] touches[i],
                record.changed_at,
                record.verified_at == now,
            ),
    ensures
        is_result(
            h,
            shown,
            query,
            record.value,
            record.deps@,
            record.changed_at.0 as nat,
            now.0 as nat,
        ),
{
    if record.verified_at != now {
        let deps = record.deps@;
        let since = record.changed_at.0 as nat;
        assert forall|i: int| 0 <= i < deps.len() implies h.settled(
            (#[trigger] deps[i])@,
            since,
            now.0 as nat,
        ) by {
            assert(RecordCheck::speaks_for(touches[i], record.changed_at, false));
            assert(touch_is_true(h, deps[i]@, touches[i], now.0 as nat));
        }
        settled_record_is_sound(
            h,
            shown,
            query,
            RecordView {
                value: record.value,
                deps,
                changed_at: record.changed_at,
                verified_at: record.verified_at,
                settled: false,
                insert_id: 0,
            },
            now.0 as nat,
        );
    }
}

/// Whether a database is at revision `at` between two calls on an input ingredient: after the first
/// `n` of them.
pub open spec fn stands_at<V>(calls: Seq<InputCall<V>>, n: int, at: nat) -> bool {
    &&& 0 <= n <= calls.len()
    &&& n > 0 ==> calls[n - 1].runtime_after.revision().0 <= at
    &&& n < calls.len() ==> at <= calls[n].runtime_before.revision().0
}

/// Whether an input has, at each revision up to now, the value that the calls have given it by
/// then.
pub open spec fn follows_calls<V, T>(
    h: History<T>,
    node: Node,
    calls: Seq<InputCall<V>>,
    states: Seq<Entries<V>>,
    appears: spec_fn(Option<Arc<V>>) -> T,
    now: nat,
) -> bool {
    &&& h.value_of(node, now) == appears(
        crate::ingredient::input::value_at(states.last(), node.1),
    )
    &&& forall|at: nat|
        at <= now ==> exists|n: int| #[trigger]
            stands_at(calls, n, at) && #[trigger] h.value_of(node, at) == appears(
                crate::ingredient::input::value_at(states[n], node.1),
            )
}

/// Touching an input tells the truth: after any calls on a new ingredient, the input has had the same
/// value at every revision since the one that a touch reports.
pub proof fn touched_inputs_are_settled<V, T, F: Fn(&V, &V) -> bool>(
    h: History<T>,
    node: Node,
    calls: Seq<InputCall<V>>,
    states: Seq<Entries<V>>,
    same: F,
    appears: spec_fn(Option<Arc<V>>) -> T,
    now: nat,
)
    requires
        crate::ingredient::history_laws::input_history(calls, states, QueryKindId(node.0), same),
        crate::ingredient::history_laws::revisions_go_on(calls),
        follows_calls(h, node, calls, states, appears, now),
    ensures
        touch_is_true(
            h,
            node,
            Touch {
                changed_at: crate::ingredient::history_laws::touched_at(states.last(), node.1),
                settled: true,
            },
            now,
        ),
{
    let since = crate::ingredient::history_laws::touched_at(states.last(), node.1).0 as nat;
    assert forall|at: nat| since <= at <= now implies #[trigger] h.value_of(node, at) == h.value_of(
        node,
        now,
    ) by {
        let n = choose|n: int| #[trigger]
            stands_at(calls, n, at) && h.value_of(node, at) == appears(
                crate::ingredient::input::value_at(states[n], node.1),
            );
        if n < calls.len() {
            crate::ingredient::history_laws::input_touch_is_truthful(
                calls,
                states,
                QueryKindId(node.0),
                same,
                node.1,
                n,
            );
        }
    }
}

} // verus!
