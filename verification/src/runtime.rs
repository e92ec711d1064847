//! Shared runtime state for a database: revisions, notifications and the graph.
use crate::graph::DepGraph;
use crate::key::{Dep, DynKey, Key, QueryKindId};
#[allow(unused_imports)]
use crate::key::Node;
use crate::revision::Revision;
use std::sync::Arc;
use vstd::prelude::*;

verus! {

/// Identity of a runtime, used to tell the work of unrelated databases apart.
#[derive(Copy, Clone, Eq, PartialEq, Hash, Debug, Structural)]
pub struct RuntimeId(pub u64);

/// Notifications emitted by a [`Runtime`].
#[derive(Debug, Clone)]
pub enum RuntimeEvent {
    /// The global revision counter was bumped.
    RevisionBumped {
        /// New revision value.
        revision: Revision,
    },
    /// The global revision counter was set directly (usually after cache load).
    RevisionSet {
        /// New revision value.
        revision: Revision,
    },
    /// An input value was set.
    InputSet {
        /// Revision at which the input was set.
        revision: Revision,
        /// Kind id of the input ingredient.
        kind: QueryKindId,
        /// Stable hash of the encoded key bytes (for diagnostics).
        key_hash: u64,
        /// Encoded key bytes.
        key: Key,
    },
    /// An input value was removed.
    InputRemoved {
        /// Revision at which the input was removed.
        revision: Revision,
        /// Kind id of the input ingredient.
        kind: QueryKindId,
        /// Stable hash of the encoded key bytes (for diagnostics).
        key_hash: u64,
        /// Encoded key bytes.
        key: Key,
    },
    /// A derived query was invalidated by an input change.
    QueryInvalidated {
        /// Revision at which invalidation happened.
        revision: Revision,
        /// Kind id of the invalidated query.
        kind: QueryKindId,
        /// Stable hash of the invalidated key bytes (for diagnostics).
        key_hash: u64,
        /// Encoded key bytes of the invalidated query.
        key: Key,
        /// Kind id of the root input that caused invalidation.
        by_kind: QueryKindId,
        /// Stable hash of the root input key bytes (for diagnostics).
        by_key_hash: u64,
        /// Encoded key bytes of the root input key.
        by_key: Key,
    },
    /// A derived query's output changed at `revision`.
    QueryChanged {
        /// Revision at which the query changed.
        revision: Revision,
        /// Kind id of the changed query.
        kind: QueryKindId,
        /// Stable hash of the changed key bytes (for diagnostics).
        key_hash: u64,
        /// Encoded key bytes of the changed query.
        key: Key,
    },
}

/// The notification that the input `(kind, key)` was set at `revision`.
pub open spec fn input_set_event(
    revision: Revision,
    kind: QueryKindId,
    key: Key,
) -> RuntimeEvent {
    RuntimeEvent::InputSet { revision, kind, key_hash: crate::key::stable_hash_of(key@), key }
}

/// The notification that the input `(kind, key)` was removed at `revision`.
pub open spec fn input_removed_event(
    revision: Revision,
    kind: QueryKindId,
    key: Key,
) -> RuntimeEvent {
    RuntimeEvent::InputRemoved { revision, kind, key_hash: crate::key::stable_hash_of(key@), key }
}

/// The notification that the output of `query` changed at `revision`.
pub open spec fn query_changed_event(revision: Revision, query: DynKey) -> RuntimeEvent {
    RuntimeEvent::QueryChanged {
        revision,
        kind: query.kind,
        key_hash: crate::key::stable_hash_of(query.key@),
        key: query.key,
    }
}

/// The notification that a change of `(by_kind, by_key)` invalidated `query`.
pub open spec fn invalidation_event(
    revision: Revision,
    by_kind: QueryKindId,
    by_key: Key,
    query: DynKey,
) -> RuntimeEvent {
    RuntimeEvent::QueryInvalidated {
        revision,
        kind: query.kind,
        key_hash: crate::key::stable_hash_of(query.key@),
        key: query.key,
        by_kind,
        by_key_hash: crate::key::stable_hash_of(by_key@),
        by_key,
    }
}

/// Whether the notifications that subscribers are to get were handed out, all of them.
pub open spec fn events_taken(before: Runtime, after: Runtime, taken: Seq<RuntimeEvent>) -> bool {
    &&& taken == before.events()
    &&& after.events() == Seq::<RuntimeEvent>::empty()
    &&& after.same_but_events(&before)
}

/// One invalidation notification for each query of `order`, in that order.
pub open spec fn invalidation_events(
    revision: Revision,
    by_kind: QueryKindId,
    by_key: Key,
    order: Seq<DynKey>,
) -> Seq<RuntimeEvent> {
    order.map_values(|q: DynKey| invalidation_event(revision, by_kind, by_key, q))
}

/// Shared runtime state of a database.
///
/// Notifications are collected in an outbox; whoever runs the database takes them out
/// and hands them to its subscribers.
pub struct Runtime {
    id: RuntimeId,
    apart: Option<RuntimeId>,
    current_revision: u64,
    outbox: Vec<RuntimeEvent>,
    graph: DepGraph,
}

/// What can be seen of a runtime.
#[verifier::ext_equal]
pub ghost struct RuntimeView {
    /// Its identity.
    pub id: RuntimeId,
    /// The identity that it takes once it is changed, if that is another one.
    pub apart: Option<RuntimeId>,
    /// Its current revision.
    pub revision: Revision,
    /// What each query read when it last ran.
    pub forward: Map<Node, Seq<Node>>,
    /// The notifications that wait in the outbox, oldest first.
    pub events: Seq<RuntimeEvent>,
}

impl View for Runtime {
    type V = RuntimeView;

    open spec fn view(&self) -> RuntimeView {
        RuntimeView {
            id: self.ident(),
            apart: self.apart(),
            revision: self.revision(),
            forward: self.deps().forward(),
            events: self.events(),
        }
    }
}

impl Runtime {
    /// The identity of the runtime.
    pub closed spec fn ident(&self) -> RuntimeId {
        self.id
    }

    /// The identity that the runtime takes once it is changed, if that is another one. This is so
    /// of a snapshot: as long as nobody changes it, it is a view of the database that it was taken
    /// of, and has that one's identity; then it goes its own way.
    pub closed spec fn apart(&self) -> Option<RuntimeId> {
        self.apart
    }

    /// The identity that the runtime has once it is changed.
    pub open spec fn ident_once_changed(&self) -> RuntimeId {
        match self.apart() {
            Some(own) => own,
            None => self.ident(),
        }
    }

    /// Whether a runtime has the identity of another one, now and once it is changed.
    pub open spec fn same_identity(&self, other: &Runtime) -> bool {
        &&& self.ident() == other.ident()
        &&& self.apart() == other.apart()
    }

    /// The current revision.
    pub closed spec fn revision(&self) -> Revision {
        Revision(self.current_revision)
    }

    /// The notifications that wait in the outbox, oldest first.
    pub closed spec fn events(&self) -> Seq<RuntimeEvent> {
        self.outbox@
    }

    /// The dependency graph.
    pub closed spec fn deps(&self) -> DepGraph {
        self.graph
    }

    /// The dependency graph is sound.
    pub open spec fn wf(&self) -> bool {
        self.deps().wf()
    }

    /// Whether the runtimes differ in nothing but their notifications.
    pub open spec fn same_but_events(&self, other: &Runtime) -> bool {
        &&& self.same_identity(other)
        &&& self.revision() == other.revision()
        &&& self.deps() == other.deps()
    }

    /// Create a new runtime starting at revision 0.
    pub fn new(id: RuntimeId) -> (r: Self)
        ensures
            r.wf(),
            r.ident() == id,
            r.apart() is None,
            r.revision() == Revision(0),
            r.events() == Seq::<RuntimeEvent>::empty(),
            r.deps().forward() == Map::<Node, Seq<Node>>::empty(),
            crate::identity_laws::is_new(r, id),
    {
        Runtime {
            id,
            apart: None,
            current_revision: 0,
            outbox: Vec::new(),
            graph: DepGraph::new(),
        }
    }

    /// Create the runtime of a snapshot, which keeps the identity of the database it
    /// was taken from and starts at the revision at which it was taken. Once the snapshot is
    /// changed, its identity is `own`, which nothing else may have.
    pub fn new_for_snapshot(parent: &Runtime, own: RuntimeId) -> (r: Self)
        ensures
            r.wf(),
            r.ident() == parent.ident(),
            r.apart() == Some(own),
            r.revision() == parent.revision(),
            r.events() == Seq::<RuntimeEvent>::empty(),
            r.deps().forward() == Map::<Node, Seq<Node>>::empty(),
            crate::identity_laws::is_snapshot_of(r, *parent, own),
    {
        Runtime {
            id: parent.id,
            apart: Some(own),
            current_revision: parent.current_revision,
            outbox: Vec::new(),
            graph: DepGraph::new(),
        }
    }

    /// The identity of the runtime.
    pub fn id(&self) -> (r: RuntimeId)
        ensures
            r == self.ident(),
    {
        self.id
    }

    /// Read the current revision.
    pub fn current_revision(&self) -> (r: Revision)
        ensures
            r == self.revision(),
    {
        Revision(self.current_revision)
    }

    /// Take the waiting notifications out of the outbox.
    pub fn take_events(&mut self) -> (r: Vec<RuntimeEvent>)
        ensures
            r@ == old(self).events(),
            final(self).events() == Seq::<RuntimeEvent>::empty(),
            final(self).same_but_events(old(self)),
            events_taken(*old(self), *final(self), r@),
    {
        let mut taken: Vec<RuntimeEvent> = Vec::new();
        std::mem::swap(&mut self.outbox, &mut taken);
        taken
    }

    fn leave(&mut self)
        ensures
            final(self).ident() == old(self).ident_once_changed(),
            final(self).apart() is None,
            final(self).revision() == old(self).revision(),
            final(self).events() == old(self).events(),
            final(self).deps() == old(self).deps(),
    {
        if let Some(own) = self.apart {
            self.id = own;
            self.apart = None;
        }
    }

    /// Take another identity, which nothing else may have: what the database holds from now on has
    /// nothing to do with what it held before (intended for cache loading).
    pub fn part(&mut self, own: RuntimeId)
        ensures
            final(self).ident() == own,
            final(self).apart() is None,
            final(self).revision() == old(self).revision(),
            final(self).events() == old(self).events(),
            final(self).deps() == old(self).deps(),
            crate::identity_laws::is_new(*final(self), own),
    {
        self.id = own;
        self.apart = None;
    }

    /// Bump the current revision and return the new value. A snapshot that is changed goes its own
    /// way.
    pub fn bump_revision(&mut self) -> (r: Revision)
        requires
            old(self).revision().0 < u64::MAX,
        ensures
            r.0 == old(self).revision().0 + 1,
            final(self).revision() == r,
            final(self).events() == old(self).events().push(
                RuntimeEvent::RevisionBumped { revision: r },
            ),
            final(self).ident() == old(self).ident_once_changed(),
            final(self).apart() is None,
            final(self).deps() == old(self).deps(),
            crate::identity_laws::is_changed(*final(self), *old(self)),
    {
        self.leave();
        self.current_revision = self.current_revision + 1;
        let rev = Revision(self.current_revision);
        self.outbox.push(RuntimeEvent::RevisionBumped { revision: rev });
        rev
    }

    /// Set the current revision (intended for cache loading). A snapshot that is changed goes its
    /// own way.
    pub fn set_current_revision(&mut self, revision: Revision)
        ensures
            final(self).revision() == revision,
            final(self).events() == old(self).events().push(
                RuntimeEvent::RevisionSet { revision },
            ),
            final(self).ident() == old(self).ident_once_changed(),
            final(self).apart() is None,
            final(self).deps() == old(self).deps(),
    {
        self.leave();
        self.current_revision = revision.0;
        self.outbox.push(RuntimeEvent::RevisionSet { revision });
    }

    /// Emit an input change event, then one invalidation event for each query that
    /// depends on the input, directly or not.
    pub fn notify_input_set(&mut self, revision: Revision, kind: QueryKindId, key: Key)
        requires
            old(self).wf(),
        ensures
            final(self).wf(),
            final(self).same_but_events(old(self)),
            exists|order: Seq<DynKey>|
                {
                    &&& #[trigger] old(self).deps().is_dependents_order((kind.0, key@), order)
                    &&& final(self).events() == old(self).events().push(
                        input_set_event(revision, kind, key),
                    ) + invalidation_events(revision, kind, key, order)
                },
    {
        let key_hash: u64 = key.hash();
        self.outbox.push(RuntimeEvent::InputSet { revision, kind, key_hash, key: key.clone() });
        self.propagate_invalidation(revision, kind, &key);
    }

    /// Emit an input removal event, then one invalidation event for each query that
    /// depends on the input, directly or not.
    pub fn notify_input_removed(&mut self, revision: Revision, kind: QueryKindId, key: Key)
        requires
            old(self).wf(),
        ensures
            final(self).wf(),
            final(self).same_but_events(old(self)),
            exists|order: Seq<DynKey>|
                {
                    &&& #[trigger] old(self).deps().is_dependents_order((kind.0, key@), order)
                    &&& final(self).events() == old(self).events().push(
                        input_removed_event(revision, kind, key),
                    ) + invalidation_events(revision, kind, key, order)
                },
    {
        let key_hash: u64 = key.hash();
        self.outbox.push(RuntimeEvent::InputRemoved { revision, kind, key_hash, key: key.clone() });
        self.propagate_invalidation(revision, kind, &key);
    }

    /// Update the dependency edges for `query`.
    pub fn update_query_deps(&mut self, query: &DynKey, deps: Arc<Vec<Dep>>)
        requires
            old(self).wf(),
        ensures
            final(self).wf(),
            final(self).deps().forward() == old(self).deps().forward().insert(
                query@,
                crate::graph::dep_nodes(deps@),
            ),
            final(self).revision() == old(self).revision(),
            final(self).same_identity(old(self)),
            final(self).events() == old(self).events(),
    {
        self.graph.update(query, deps);
    }

    /// Emit a derived query change event.
    pub fn notify_query_changed(&mut self, revision: Revision, query: &DynKey)
        ensures
            final(self).same_but_events(old(self)),
            final(self).events() == old(self).events().push(query_changed_event(revision, *query)),
    {
        let key_hash: u64 = query.key.hash();
        self.outbox.push(
            RuntimeEvent::QueryChanged {
                revision,
                kind: query.kind,
                key_hash,
                key: query.key.clone(),
            },
        );
    }

    /// Clear the in-memory dependency graph (used during cache loads).
    pub fn clear_dependency_graph(&mut self)
        ensures
            final(self).wf(),
            final(self).deps().forward() == Map::<Node, Seq<Node>>::empty(),
            final(self).revision() == old(self).revision(),
            final(self).same_identity(old(self)),
            final(self).events() == old(self).events(),
    {
        self.graph.clear();
    }

    fn propagate_invalidation(&mut self, revision: Revision, kind: QueryKindId, key: &Key)
        requires
            old(self).wf(),
        ensures
            final(self).same_but_events(old(self)),
            exists|order: Seq<DynKey>|
                {
                    &&& #[trigger] old(self).deps().is_dependents_order((kind.0, key@), order)
                    &&& final(self).events() == old(self).events() + invalidation_events(
                        revision,
                        kind,
                        *key,
                        order,
                    )
                },
    {
        let source = DynKey { kind, key: key.clone() };
        let order: Vec<DynKey> = self.graph.transitive_dependents(&source);
        let by_key_hash: u64 = key.hash();
        let ghost before = *self;
        let ghost events = invalidation_events(revision, kind, *key, order@);
        let mut i: usize = 0;
        while i < order.len()
            invariant
                i <= order@.len(),
                by_key_hash == crate::key::stable_hash_of(key@),
                self.same_but_events(&before),
                events == invalidation_events(revision, kind, *key, order@),
                self.outbox@ == before.outbox@ + events.take(i as int),
            decreases order@.len() - i,
        {
            let query = &order[i];
            let key_hash: u64 = query.key.hash();
            self.outbox.push(
                RuntimeEvent::QueryInvalidated {
                    revision,
                    kind: query.kind,
                    key_hash,
                    key: query.key.clone(),
                    by_kind: kind,
                    by_key_hash,
                    by_key: key.clone(),
                },
            );
            assert(events.take(i + 1) =~= events.take(i as int).push(events[i as int]));
            assert(self.outbox@ =~= before.outbox@ + events.take(i + 1));
            i = i + 1;
        }
        assert(events.take(i as int) =~= events);
        assert(before.deps().is_dependents_order((kind.0, key@), order@));
    }

    /// What each query read when it last ran.
    pub fn deps_by_query_snapshot(&self) -> (r: Vec<(DynKey, Arc<Vec<Dep>>)>)
        requires
            self.wf(),
        ensures
            self.deps().is_forward_listing(r@),
    {
        self.graph.deps_by_query_snapshot()
    }

    /// Which queries read each vertex.
    pub fn reverse_deps_snapshot(&self) -> (r: Vec<(DynKey, Vec<DynKey>)>)
        requires
            self.wf(),
        ensures
            self.deps().is_reverse_listing(r@),
    {
        self.graph.reverse_deps_snapshot()
    }
}

} // verus!
