//! The dependency graph: what each query read, and which queries read each vertex.
use crate::key::{file_name, Dep, DynKey};
#[allow(unused_imports)]
use crate::key::Node;
use crate::share::share;
use crate::table::SharedTable;
use std::sync::Arc;
use vstd::prelude::*;

verus! {

broadcast use crate::key::node_bytes_injective;

/// Whether the vertex at place `i + 1` of a path read the one before it when it last ran.
pub open spec fn read_in_turn(forward: Map<Node, Seq<Node>>, path: Seq<Node>, i: int) -> bool {
    forward.contains_key(path[i + 1]) && forward[path[i + 1]].contains(path[i])
}

/// Whether each vertex of a path but the first read the one before it when it last ran.
pub open spec fn is_reading_path(forward: Map<Node, Seq<Node>>, path: Seq<Node>) -> bool {
    &&& path.len() >= 1
    &&& forall|i: int| 0 <= i < path.len() - 1 ==> #[trigger] read_in_turn(forward, path, i)
}

/// Whether there is a path from a vertex to a query along which each read the one before.
pub open spec fn depends_on_vertex(
    forward: Map<Node, Seq<Node>>,
    source: Node,
    query: Node,
) -> bool {
    exists|path: Seq<Node>| #[trigger]
        is_reading_path(forward, path) && path[0] == source && path.last() == query
}

/// The vertices that a list of dependency edges leads to.
pub open spec fn dep_nodes(deps: Seq<Dep>) -> Seq<Node> {
    deps.map_values(|d: Dep| d@)
}

/// What one query read when it last ran.
pub struct QueryDeps {
    /// The query.
    pub query: DynKey,
    /// Its dependencies, in the order in which they were recorded.
    pub deps: Arc<Vec<Dep>>,
}

/// The queries that read one vertex.
struct Dependents {
    dep: DynKey,
    queries: SharedTable<DynKey>,
}

impl Dependents {
    spec fn wf(&self) -> bool {
        &&& self.queries.wf()
        &&& forall|k: Seq<u8>| #[trigger]
            self.queries@.contains_key(k) ==> k == crate::key::node_bytes(self.queries@[k]@)
    }

    spec fn holds(&self, query: Node) -> bool {
        self.queries@.contains_key(crate::key::node_bytes(query))
    }
}

/// For each vertex, the set of queries that read it.
struct ReverseIndex {
    by_dep: SharedTable<Dependents>,
}

impl ReverseIndex {
    spec fn wf(&self) -> bool {
        &&& self.by_dep.wf()
        &&& forall|k: Seq<u8>| #[trigger]
            self.by_dep@.contains_key(k) ==> {
                &&& k == crate::key::node_bytes(self.by_dep@[k].dep@)
                &&& self.by_dep@[k].wf()
                &&& self.by_dep@[k].queries@.dom().len() > 0
            }
    }

    spec fn links(&self, dep: Node, query: Node) -> bool {
        &&& self.by_dep@.contains_key(crate::key::node_bytes(dep))
        &&& self.by_dep@[crate::key::node_bytes(dep)].holds(query)
    }

    fn new() -> (r: Self)
        ensures
            r.wf(),
            forall|d: Node, q: Node| !#[trigger] r.links(d, q),
    {
        ReverseIndex { by_dep: SharedTable::new() }
    }

    /// Record that `query` reads `dep`.
    fn link(&mut self, dep: &Dep, query: &DynKey)
        requires
            old(self).wf(),
        ensures
            final(self).wf(),
            forall|d: Node, q: Node| #[trigger]
                final(self).links(d, q) <==> old(self).links(d, q) || (d == dep@ && q == query@),
    {
        let ghost before = *self;
        let name: Vec<u8> = file_name(dep.kind, &dep.key);
        let query_name: Vec<u8> = file_name(query.kind, &query.key);
        let mut entry = match self.by_dep.remove(name.as_slice()) {
            Some(entry) => entry,
            None => Dependents { dep: dep.to_dyn_key(), queries: SharedTable::new() },
        };
        let ghost entry_before = entry;
        entry.queries.insert(query_name.as_slice(), query.clone());
        proof {
            entry.queries.order_lists_domain();
            assert(entry.queries@.contains_key(query_name@));
            assert(entry.wf());
            assert forall|q: Node| #[trigger] entry.holds(q) <==> entry_before.holds(q) || q
                == query@ by {}
        }
        let ghost stored = entry;
        self.by_dep.insert(name.as_slice(), entry);
        proof {
            assert forall|d: Node, q: Node| #[trigger]
                self.links(d, q) <==> before.links(d, q) || (d == dep@ && q == query@) by {
                if d == dep@ {
                    assert(self.by_dep@[name@] == stored);
                    assert(stored.holds(q) <==> entry_before.holds(q) || q == query@);
                } else {
                    assert(crate::key::node_bytes(d) != crate::key::node_bytes(dep@));
                }
            }
        }
    }

    /// Record that `query` no longer reads `dep`.
    fn unlink(&mut self, dep: &Dep, query: &DynKey)
        requires
            old(self).wf(),
        ensures
            final(self).wf(),
            forall|d: Node, q: Node| #[trigger]
                final(self).links(d, q) <==> old(self).links(d, q) && !(d == dep@ && q == query@),
    {
        let ghost before = *self;
        let name: Vec<u8> = file_name(dep.kind, &dep.key);
        let query_name: Vec<u8> = file_name(query.kind, &query.key);
        match self.by_dep.remove(name.as_slice()) {
            Some(mut entry) => {
                let ghost entry_before = entry;
                entry.queries.remove(query_name.as_slice());
                proof {
                    assert forall|q: Node| #[trigger] entry.holds(q) <==> entry_before.holds(q)
                        && q != query@ by {}
                }
                let ghost stored = entry;
                if entry.queries.len() > 0 {
                    self.by_dep.insert(name.as_slice(), entry);
                } else {
                    assert forall|q: Node| !#[trigger] stored.holds(q) by {
                        if stored.holds(q) {
                            assert(stored.queries@.dom().contains(crate::key::node_bytes(q)));
                            assert(stored.queries@.dom() =~= Set::empty());
                        }
                    }
                }
                proof {
                    assert forall|d: Node, q: Node| #[trigger]
                        self.links(d, q) <==> before.links(d, q) && !(d == dep@ && q == query@) by {
                        if d == dep@ {
                            assert(stored.holds(q) <==> entry_before.holds(q) && q != query@);
                        } else {
                            assert(crate::key::node_bytes(d) != crate::key::node_bytes(dep@));
                        }
                    }
                }
            },
            None => {
                assert forall|d: Node, q: Node| #[trigger]
                    self.links(d, q) <==> before.links(d, q) && !(d == dep@ && q == query@) by {}
            },
        }
    }
}

/// Whether some edge of `deps` leads to `dep`.
fn leads_to(deps: &Vec<Dep>, dep: &Dep) -> (r: bool)
    ensures
        r == dep_nodes(deps@).contains(dep@),
{
    let mut i: usize = 0;
    while i < deps.len()
        invariant
            i <= deps@.len(),
            forall|j: int| 0 <= j < i ==> (#[trigger] deps@[j])@ != dep@,
        decreases deps@.len() - i,
    {
        if deps[i] == *dep {
            assert(dep_nodes(deps@)[i as int] == dep@);
            return true;
        }
        i = i + 1;
    }
    assert forall|j: int| 0 <= j < deps@.len() implies dep_nodes(deps@)[j] != dep@ by {
        assert(deps@[j]@ != dep@);
    }
    false
}

/// The dependency graph of a database.
///
/// It is kept in both directions: from each query to what it read, and from each
/// vertex to the queries that read it. The second direction is always exactly the
/// inverse of the first.
pub struct DepGraph {
    deps_by_query: SharedTable<QueryDeps>,
    reverse_deps: ReverseIndex,
}

impl DepGraph {
    /// What each query read when it last ran.
    pub closed spec fn forward(&self) -> Map<Node, Seq<Node>> {
        Map::new(
            |q: Node| self.deps_by_query@.contains_key(crate::key::node_bytes(q)),
            |q: Node| dep_nodes(self.deps_by_query@[crate::key::node_bytes(q)].deps@),
        )
    }

    /// Whether `query` is filed as a reader of `dep`.
    pub closed spec fn feeds(&self, dep: Node, query: Node) -> bool {
        self.reverse_deps.links(dep, query)
    }

    /// Whether `query` read `dep` when it last ran.
    pub open spec fn reads(&self, query: Node, dep: Node) -> bool {
        self.forward().contains_key(query) && self.forward()[query].contains(dep)
    }

    closed spec fn tables_wf(&self) -> bool {
        &&& self.deps_by_query.wf()
        &&& self.reverse_deps.wf()
        &&& forall|k: Seq<u8>| #[trigger]
            self.deps_by_query@.contains_key(k) ==> k == crate::key::node_bytes(
                self.deps_by_query@[k].query@,
            )
    }

    /// The tables are sound, and a query is filed as a reader of exactly what it read.
    pub closed spec fn wf(&self) -> bool {
        &&& self.tables_wf()
        &&& forall|d: Node, q: Node| #[trigger] self.feeds(d, q) <==> self.reads(q, d)
    }

    /// The two directions of the graph are inverse to each other.
    pub proof fn directions_agree(&self)
        requires
            self.wf(),
        ensures
            forall|d: Node, q: Node| #[trigger] self.feeds(d, q) <==> self.reads(q, d),
    {
    }

    /// A graph without edges.
    pub fn new() -> (r: Self)
        ensures
            r.wf(),
            r.forward() == Map::<Node, Seq<Node>>::empty(),
    {
        let r = DepGraph { deps_by_query: SharedTable::new(), reverse_deps: ReverseIndex::new() };
        assert(r.forward() =~= Map::<Node, Seq<Node>>::empty());
        r
    }

    /// Forget every edge.
    pub fn clear(&mut self)
        ensures
            final(self).wf(),
            final(self).forward() == Map::<Node, Seq<Node>>::empty(),
    {
        *self = DepGraph::new();
    }

    /// Replace the dependencies of `query` by `deps`.
    pub fn update(&mut self, query: &DynKey, deps: Arc<Vec<Dep>>)
        requires
            old(self).wf(),
        ensures
            final(self).wf(),
            final(self).forward() == old(self).forward().insert(query@, dep_nodes(deps@)),
    {
        let ghost before = *self;
        let name: Vec<u8> = file_name(query.kind, &query.key);
        let kept: Arc<Vec<Dep>> = share(&deps);
        let old_entry = self.deps_by_query.insert(
            name.as_slice(),
            QueryDeps { query: query.clone(), deps: kept },
        );
        let ghost new_nodes = dep_nodes(deps@);
        let ghost old_nodes = if before.forward().contains_key(query@) {
            before.forward()[query@]
        } else {
            Seq::<Node>::empty()
        };
        assert(self.forward() =~= before.forward().insert(query@, new_nodes));
        let ghost table = self.deps_by_query;
        assert(old_entry matches Some(e) ==> old_nodes == dep_nodes(e.deps@));
        if let Some(entry) = old_entry {
            let mut i: usize = 0;
            while i < entry.deps.len()
                invariant
                    i <= entry.deps@.len(),
                    self.deps_by_query == table,
                    self.reverse_deps.wf(),
                    old_nodes == dep_nodes(entry.deps@),
                    new_nodes == dep_nodes(deps@),
                    forall|d: Node, q: Node| #[trigger]
                        self.reverse_deps.links(d, q) <==> before.feeds(d, q) && !(q == query@
                            && old_nodes.take(i as int).contains(d) && !new_nodes.contains(d)),
                decreases entry.deps@.len() - i,
            {
                let ghost stage = self.reverse_deps;
                let dep = &entry.deps[i];
                let ghost d0 = dep@;
                assert(old_nodes.take(i + 1) =~= old_nodes.take(i as int).push(d0));
                if !leads_to(&deps, dep) {
                    self.reverse_deps.unlink(dep, query);
                }
                assert forall|d: Node, q: Node| #[trigger]
                    self.reverse_deps.links(d, q) <==> before.feeds(d, q) && !(q == query@
                        && old_nodes.take(i + 1).contains(d) && !new_nodes.contains(d)) by {
                    assert(stage.links(d, q) <==> before.feeds(d, q) && !(q == query@
                        && old_nodes.take(i as int).contains(d) && !new_nodes.contains(d)));
                    lemma_push_contains(old_nodes.take(i as int), d0, d);
                }
                i = i + 1;
            }
            assert(old_nodes.take(i as int) =~= old_nodes);
        }
        assert forall|d: Node, q: Node| #[trigger]
            self.reverse_deps.links(d, q) <==> before.feeds(d, q) && !(q == query@
                && old_nodes.contains(d) && !new_nodes.contains(d)) by {
            if old_entry is None {
                assert(!old_nodes.contains(d));
            }
        }
        let ghost pruned = self.reverse_deps;
        let mut i: usize = 0;
        while i < deps.len()
            invariant
                i <= deps@.len(),
                self.deps_by_query == table,
                self.reverse_deps.wf(),
                new_nodes == dep_nodes(deps@),
                forall|d: Node, q: Node| #[trigger]
                    self.reverse_deps.links(d, q) <==> pruned.links(d, q) || (q == query@
                        && new_nodes.take(i as int).contains(d)),
            decreases deps@.len() - i,
        {
            let ghost stage = self.reverse_deps;
            let dep = &deps[i];
            let ghost d0 = dep@;
            assert(new_nodes.take(i + 1) =~= new_nodes.take(i as int).push(d0));
            self.reverse_deps.link(dep, query);
            assert forall|d: Node, q: Node| #[trigger]
                self.reverse_deps.links(d, q) <==> pruned.links(d, q) || (q == query@
                    && new_nodes.take(i + 1).contains(d)) by {
                assert(stage.links(d, q) <==> pruned.links(d, q) || (q == query@ && new_nodes.take(
                    i as int,
                ).contains(d)));
                lemma_push_contains(new_nodes.take(i as int), d0, d);
            }
            i = i + 1;
        }
        assert(new_nodes.take(i as int) =~= new_nodes);
        assert(self.forward() =~= before.forward().insert(query@, new_nodes));
        assert forall|d: Node, q: Node| #[trigger] self.feeds(d, q) <==> self.reads(q, d) by {
            assert(self.reverse_deps.links(d, q) <==> pruned.links(d, q) || (q == query@
                && new_nodes.contains(d)));
            assert(before.feeds(d, q) <==> before.reads(q, d));
        }
    }
}

impl DepGraph {
    closed spec fn step(&self, path: Seq<Node>, i: int) -> bool {
        self.feeds(path[i], path[i + 1])
    }

    /// Whether `path` goes from vertex to vertex along reader edges.
    pub closed spec fn is_chain(&self, path: Seq<Node>) -> bool {
        &&& path.len() >= 1
        &&& forall|i: int| 0 <= i < path.len() - 1 ==> #[trigger] self.step(path, i)
    }

    /// Whether `query` depends on `source`, directly or through other queries.
    pub open spec fn reaches(&self, source: Node, query: Node) -> bool {
        exists|path: Seq<Node>| #[trigger]
            self.is_chain(path) && path[0] == source && path.last() == query
    }

    /// Reachability is reflexive, and extends along reader edges.
    pub proof fn reaches_steps(&self, source: Node, mid: Node, query: Node)
        ensures
            self.reaches(source, source),
            self.reaches(source, mid) && self.feeds(mid, query) ==> self.reaches(source, query),
    {
        let unit = seq![source];
        assert(self.is_chain(unit) && unit[0] == source && unit.last() == source);
        if self.reaches(source, mid) && self.feeds(mid, query) {
            let path = choose|path: Seq<Node>| #[trigger]
                self.is_chain(path) && path[0] == source && path.last() == mid;
            let longer = path.push(query);
            assert forall|i: int| 0 <= i < longer.len() - 1 implies #[trigger] self.step(
                longer,
                i,
            ) by {
                if i < path.len() - 1 {
                    assert(self.step(path, i));
                }
            }
            assert(self.is_chain(longer) && longer[0] == source && longer.last() == query);
        }
    }

    /// A query depends on a vertex if and only if there is a path from the vertex to it, along which
    /// each query read the vertex before it when it last ran.
    pub proof fn reaching_is_reading(&self, source: Node, query: Node)
        requires
            self.wf(),
        ensures
            self.reaches(source, query) <==> depends_on_vertex(self.forward(), source, query),
    {
        if self.reaches(source, query) {
            let path = choose|path: Seq<Node>| #[trigger]
                self.is_chain(path) && path[0] == source && path.last() == query;
            assert forall|i: int| 0 <= i < path.len() - 1 implies #[trigger] read_in_turn(
                self.forward(),
                path,
                i,
            ) by {
                assert(self.step(path, i));
                assert(self.feeds(path[i], path[i + 1]));
            }
            assert(is_reading_path(self.forward(), path));
        }
        if depends_on_vertex(self.forward(), source, query) {
            let path = choose|path: Seq<Node>| #[trigger]
                is_reading_path(self.forward(), path) && path[0] == source && path.last() == query;
            assert forall|i: int| 0 <= i < path.len() - 1 implies #[trigger] self.step(path, i) by {
                assert(read_in_turn(self.forward(), path, i));
                assert(self.reads(path[i + 1], path[i]));
                assert(self.feeds(path[i], path[i + 1]));
            }
            assert(self.is_chain(path));
        }
    }

    /// A set that holds `source` and is closed under reader edges holds everything
    /// that `source` reaches.
    proof fn closed_set_holds_reachable(&self, held: Set<Node>, source: Node, query: Node)
        requires
            held.contains(source),
            forall|d: Node, q: Node|
                held.contains(d) && #[trigger] self.feeds(d, q) ==> held.contains(q),
            self.reaches(source, query),
        ensures
            held.contains(query),
    {
        let path = choose|path: Seq<Node>| #[trigger]
            self.is_chain(path) && path[0] == source && path.last() == query;
        self.closed_set_holds_path(held, path, path.len() - 1);
    }

    proof fn closed_set_holds_path(&self, held: Set<Node>, path: Seq<Node>, i: int)
        requires
            self.is_chain(path),
            held.contains(path[0]),
            forall|d: Node, q: Node|
                held.contains(d) && #[trigger] self.feeds(d, q) ==> held.contains(q),
            0 <= i < path.len(),
        ensures
            held.contains(path[i]),
        decreases i,
    {
        if i > 0 {
            self.closed_set_holds_path(held, path, i - 1);
            assert(self.step(path, i - 1));
        }
    }

    /// Whether `order` lists every query that depends on `source`, directly or not, each
    /// once, without `source` itself, and each after one of the queries (or `source`)
    /// that it reads.
    pub open spec fn is_dependents_order(&self, source: Node, order: Seq<DynKey>) -> bool {
        &&& forall|q: Node|
            q != source ==> (#[trigger] self.reaches(source, q) <==> lists(order, q))
        &&& forall|i: int| 0 <= i < order.len() ==> (#[trigger] order[i])@ != source
        &&& forall|i: int, j: int|
            0 <= i < j < order.len() ==> (#[trigger] order[i])@ != (#[trigger] order[j])@
        &&& forall|i: int|
            0 <= i < order.len() ==> self.feeds(source, (#[trigger] order[i])@) || exists|j: int|
                0 <= j < i && self.feeds((#[trigger] order[j])@, order[i]@)
    }

    /// Every query that depends on `source`, directly or not, each listed once and
    /// after one of the queries (or `source` itself) that it reads. `source` itself is
    /// not listed, even where it lies on a cycle.
    pub fn transitive_dependents(&self, source: &DynKey) -> (r: Vec<DynKey>)
        requires
            self.wf(),
        ensures
            self.is_dependents_order(source@, r@),
    {
        let mut seen: SharedTable<DynKey> = SharedTable::new();
        let mut queue: Vec<DynKey> = Vec::new();
        let source_name: Vec<u8> = file_name(source.kind, &source.key);
        seen.insert(source_name.as_slice(), source.clone());
        queue.push(source.clone());
        let ghost universe = self.deps_by_query@.dom().insert(source_name@);
        proof {
            self.deps_by_query.order_lists_domain();
            self.reaches_steps(source@, source@, source@);
            assert forall|n: Node| #[trigger]
                seen@.contains_key(crate::key::node_bytes(n)) <==> lists(queue@, n) by {
                if n == source@ {
                    assert(queue@[0]@ == n);
                }
            }
        }
        let mut head: usize = 0;
        while head < queue.len()
            invariant
                self.wf(),
                seen.wf(),
                0 <= head <= queue@.len(),
                queue@.len() >= 1,
                queue@[0]@ == source@,
                universe.finite(),
                universe == self.deps_by_query@.dom().insert(crate::key::node_bytes(source@)),
                seen@.dom().subset_of(universe),
                seen@.dom().len() == queue@.len(),
                seen@.dom().finite(),
                forall|n: Node| #[trigger]
                    seen@.contains_key(crate::key::node_bytes(n)) <==> lists(queue@, n),
                forall|i: int, j: int|
                    0 <= i < j < queue@.len() ==> (#[trigger] queue@[i])@ != (#[trigger] queue@[j])@,
                forall|i: int|
                    0 <= i < queue@.len() ==> self.reaches(source@, (#[trigger] queue@[i])@),
                forall|i: int|
                    1 <= i < queue@.len() ==> exists|j: int|
                        0 <= j < i && self.feeds((#[trigger] queue@[j])@, (#[trigger] queue@[i])@),
                forall|i: int, q: Node|
                    0 <= i < head && self.feeds((#[trigger] queue@[i])@, q) ==> #[trigger] lists(
                        queue@,
                        q,
                    ),
            decreases universe.len() - queue@.len(), queue@.len() - head,
        {
            let node: DynKey = queue[head].clone();
            let ghost node_view = node@;
            let name: Vec<u8> = file_name(node.kind, &node.key);
            let ghost queue_at_head = queue@;
            if let Some(entry) = self.reverse_deps.by_dep.get(name.as_slice()) {
                let mut k: usize = 0;
                let count: usize = entry.queries.len();
                while k < count
                    invariant
                        self.wf(),
                        seen.wf(),
                        0 <= head < queue_at_head.len() <= queue@.len(),
                        queue@.take(queue_at_head.len() as int) == queue_at_head,
                        queue@[0]@ == source@,
                        node_view == queue_at_head[head as int]@,
                        entry.wf(),
                        self.reverse_deps.by_dep@.contains_key(crate::key::node_bytes(node_view)),
                        *entry == self.reverse_deps.by_dep@[crate::key::node_bytes(node_view)],
                        k <= count,
                        count == entry.queries.order().len(),
                        universe.finite(),
                        universe == self.deps_by_query@.dom().insert(
                            crate::key::node_bytes(source@),
                        ),
                        seen@.dom().subset_of(universe),
                        seen@.dom().len() == queue@.len(),
                        seen@.dom().finite(),
                        forall|n: Node| #[trigger]
                            seen@.contains_key(crate::key::node_bytes(n)) <==> lists(
                                queue@,
                                n,
                            ),
                        forall|i: int, j: int|
                            0 <= i < j < queue@.len() ==> (#[trigger] queue@[i])@
                                != (#[trigger] queue@[j])@,
                        forall|i: int|
                            0 <= i < queue@.len() ==> self.reaches(
                                source@,
                                (#[trigger] queue@[i])@,
                            ),
                        forall|i: int|
                            1 <= i < queue@.len() ==> exists|j: int|
                                0 <= j < i && self.feeds(
                                    (#[trigger] queue@[j])@,
                                    (#[trigger] queue@[i])@,
                                ),
                        forall|j: int|
                            0 <= j < k ==> seen@.contains_key(
                                #[trigger] entry.queries.order()[j],
                            ),
                    decreases count - k,
                {
                    let ghost seen_before = seen@;
                    let ghost queue_before = queue@;
                    let dependent: DynKey = entry.queries.value_at(k).clone();
                    let dependent_name: Vec<u8> = file_name(dependent.kind, &dependent.key);
                    proof {
                        assert(entry.queries@.contains_key(entry.queries.order()[k as int]));
                        assert(entry.queries.order()[k as int] == crate::key::node_bytes(
                            dependent@,
                        ));
                        assert(self.feeds(node_view, dependent@));
                        assert(self.reads(dependent@, node_view));
                        assert(queue@[head as int] == queue@.take(
                            queue_at_head.len() as int,
                        )[head as int]);
                        self.reaches_steps(source@, node_view, dependent@);
                    }
                    if !seen.contains(dependent_name.as_slice()) {
                        seen.insert(dependent_name.as_slice(), dependent.clone());
                        queue.push(dependent);
                        proof {
                            assert(queue@.take(queue_at_head.len() as int) =~= queue_before.take(
                                queue_at_head.len() as int,
                            ));
                            assert forall|n: Node| #[trigger]
                                seen@.contains_key(crate::key::node_bytes(n)) <==> lists(
                                    queue@,
                                    n,
                                ) by {
                                lemma_queue_push(queue_before, dependent, n);
                                assert(seen_before.contains_key(crate::key::node_bytes(n))
                                    <==> lists(queue_before, n));
                            }
                            assert forall|i: int, j: int| 0 <= i < j < queue@.len() implies (
                            #[trigger] queue@[i])@ != (#[trigger] queue@[j])@ by {
                                if j == queue_before.len() {
                                    assert(queue@[i] == queue_before[i]);
                                    if queue@[i]@ == dependent@ {
                                        assert(lists(queue_before, dependent@));
                                    }
                                } else {
                                    assert(queue@[i] == queue_before[i]);
                                    assert(queue@[j] == queue_before[j]);
                                }
                            }
                            assert forall|i: int| 1 <= i < queue@.len() implies exists|j: int|
                                0 <= j < i && self.feeds(
                                    (#[trigger] queue@[j])@,
                                    (#[trigger] queue@[i])@,
                                ) by {
                                if i == queue_before.len() {
                                    assert(self.feeds(queue@[head as int]@, queue@[i]@));
                                } else {
                                    assert(queue@[i] == queue_before[i]);
                                    let j = choose|j: int|
                                        0 <= j < i && self.feeds(
                                            (#[trigger] queue_before[j])@,
                                            queue_before[i]@,
                                        );
                                    assert(queue@[j] == queue_before[j]);
                                }
                            }
                        }
                    }
                    k = k + 1;
                }
            }
            proof {
                assert forall|i: int, q: Node|
                    0 <= i < head + 1 && self.feeds(
                        (#[trigger] queue@[i])@,
                        q,
                    ) implies #[trigger] lists(queue@, q) by {
                    assert(queue@[i] == queue@.take(queue_at_head.len() as int)[i]);
                    if i < head {
                        assert(lists(queue_at_head, q));
                        let j = choose|j: int|
                            0 <= j < queue_at_head.len() && (#[trigger] queue_at_head[j])@ == q;
                        assert(queue@.take(queue_at_head.len() as int)[j]@ == q);
                        assert(queue@[j]@ == q);
                    } else {
                        let entry = self.reverse_deps.by_dep@[crate::key::node_bytes(node_view)];
                        entry.queries.order_lists_domain();
                        assert(entry.queries.order().contains(crate::key::node_bytes(q)));
                        assert(seen@.contains_key(crate::key::node_bytes(q)));
                    }
                }
                vstd::set_lib::lemma_len_subset(seen@.dom(), universe);
            }
            head = head + 1;
        }
        let ghost all = queue@;
        let ghost held = Set::new(|n: Node| lists(all, n));
        proof {
            assert(lists(all, source@));
            assert forall|q: Node| #[trigger] self.reaches(source@, q) implies lists(all, q) by {
                self.closed_set_holds_reachable(held, source@, q);
            }
        }
        queue.remove(0);
        proof {
            assert forall|i: int| 0 <= i < queue@.len() implies queue@[i] == all[i + 1] by {}
            assert forall|q: Node| q != source@ implies (self.reaches(source@, q) <==> exists|i: int|
                0 <= i < queue@.len() && (#[trigger] queue@[i])@ == q) by {
                if self.reaches(source@, q) {
                    assert(lists(all, q));
                    let j = choose|j: int| 0 <= j < all.len() && (#[trigger] all[j])@ == q;
                    assert(queue@[j - 1]@ == q);
                }
                if exists|i: int| 0 <= i < queue@.len() && (#[trigger] queue@[i])@ == q {
                    let i = choose|i: int| 0 <= i < queue@.len() && (#[trigger] queue@[i])@ == q;
                    assert(self.reaches(source@, all[i + 1]@));
                }
            }
            assert forall|i: int| 0 <= i < queue@.len() implies self.feeds(
                source@,
                (#[trigger] queue@[i])@,
            ) || exists|j: int| 0 <= j < i && self.feeds((#[trigger] queue@[j])@, queue@[i]@) by {
                assert(queue@[i] == all[i + 1]);
                let j = choose|j: int|
                    0 <= j < i + 1 && self.feeds((#[trigger] all[j])@, all[i + 1]@);
                if j > 0 {
                    assert(queue@[j - 1] == all[j]);
                }
            }
        }
        queue
    }
}

impl DepGraph {
    /// Whether `list` gives, for each query, what it read when it last ran, each query once.
    pub open spec fn is_forward_listing(&self, list: Seq<(DynKey, Arc<Vec<Dep>>)>) -> bool {
        &&& forall|i: int, j: int|
            0 <= i < j < list.len() ==> (#[trigger] list[i]).0@ != (#[trigger] list[j]).0@
        &&& forall|i: int|
            0 <= i < list.len() ==> self.forward().contains_key((#[trigger] list[i]).0@)
                && self.forward()[list[i].0@] == dep_nodes(list[i].1@)
        &&& forall|q: Node| #[trigger]
            self.forward().contains_key(q) ==> exists|i: int|
                0 <= i < list.len() && (#[trigger] list[i]).0@ == q
    }

    /// Whether `list` gives, for each vertex that some query reads, the queries that
    /// read it, each vertex once and each reader once beside it.
    pub open spec fn is_reverse_listing(&self, list: Seq<(DynKey, Vec<DynKey>)>) -> bool {
        &&& forall|i: int, j: int|
            0 <= i < j < list.len() ==> (#[trigger] list[i]).0@ != (#[trigger] list[j]).0@
        &&& forall|i: int, q: Node|
            0 <= i < list.len() ==> (#[trigger] self.feeds((#[trigger] list[i]).0@, q) <==> lists(
                list[i].1@,
                q,
            ))
        &&& forall|i: int, j: int, k: int|
            0 <= i < list.len() && 0 <= j < k < list[i].1@.len() ==> (#[trigger] list[i].1@[j])@
                != (#[trigger] list[i].1@[k])@
        &&& forall|i: int| 0 <= i < list.len() ==> (#[trigger] list[i]).1@.len() > 0
        &&& forall|d: Node, q: Node| #[trigger]
            self.feeds(d, q) ==> exists|i: int| 0 <= i < list.len() && (#[trigger] list[i]).0@ == d
    }

    /// What each query read when it last ran, each query listed once.
    pub fn deps_by_query_snapshot(&self) -> (r: Vec<(DynKey, Arc<Vec<Dep>>)>)
        requires
            self.wf(),
        ensures
            self.is_forward_listing(r@),
    {
        let mut r: Vec<(DynKey, Arc<Vec<Dep>>)> = Vec::new();
        let mut i: usize = 0;
        let count: usize = self.deps_by_query.len();
        while i < count
            invariant
                self.wf(),
                i <= count,
                count == self.deps_by_query.order().len(),
                r@.len() == i,
                forall|k: int|
                    0 <= k < i ==> {
                        &&& crate::key::node_bytes((#[trigger] r@[k]).0@)
                            == self.deps_by_query.order()[k]
                        &&& self.deps_by_query@.contains_key(self.deps_by_query.order()[k])
                        &&& r@[k].1
                            == self.deps_by_query@[self.deps_by_query.order()[k]].deps
                    },
            decreases count - i,
        {
            let entry = self.deps_by_query.value_at(i);
            r.push((entry.query.clone(), share(&entry.deps)));
            i = i + 1;
        }
        proof {
            self.deps_by_query.order_lists_domain();
            assert forall|q: Node| #[trigger] self.forward().contains_key(q) implies exists|i: int|
                0 <= i < r@.len() && (#[trigger] r@[i]).0@ == q by {
                let name = crate::key::node_bytes(q);
                assert(self.deps_by_query.order().contains(name));
                let k = choose|k: int| 0 <= k < count && self.deps_by_query.order()[k] == name;
                assert(r@[k].0@ == q);
            }
        }
        r
    }

    /// The queries that read each vertex. Each vertex with a reader is listed once, and
    /// each reader once beside it.
    pub fn reverse_deps_snapshot(&self) -> (r: Vec<(DynKey, Vec<DynKey>)>)
        requires
            self.wf(),
        ensures
            self.is_reverse_listing(r@),
    {
        let mut r: Vec<(DynKey, Vec<DynKey>)> = Vec::new();
        let mut i: usize = 0;
        let count: usize = self.reverse_deps.by_dep.len();
        let ghost table = self.reverse_deps.by_dep;
        proof {
            table.order_lists_domain();
        }
        while i < count
            invariant
                self.wf(),
                table == self.reverse_deps.by_dep,
                table.order().no_duplicates(),
                i <= count,
                count == table.order().len(),
                r@.len() == i,
                forall|k: int|
                    0 <= k < i ==> {
                        &&& crate::key::node_bytes((#[trigger] r@[k]).0@) == table.order()[k]
                        &&& r@[k].1@.len() > 0
                        &&& forall|q: Node| #[trigger]
                            lists(r@[k].1@, q) <==> self.feeds(r@[k].0@, q)
                        &&& forall|j: int, l: int|
                            0 <= j < l < r@[k].1@.len() ==> (#[trigger] r@[k].1@[j])@
                                != (#[trigger] r@[k].1@[l])@
                    },
            decreases count - i,
        {
            let entry = self.reverse_deps.by_dep.value_at(i);
            assert(crate::key::node_bytes(entry.dep@) == table.order()[i as int]);
            let readers: Vec<DynKey> = readers_of(entry);
            let ghost dep = entry.dep@;
            assert forall|q: Node| #[trigger] lists(readers@, q) <==> self.feeds(dep, q) by {
                assert(entry.holds(q) <==> self.reverse_deps.links(dep, q));
            }
            r.push((entry.dep.clone(), readers));
            i = i + 1;
        }
        proof {
            assert forall|d: Node, q: Node| #[trigger] self.feeds(d, q) implies exists|i: int|
                0 <= i < r@.len() && (#[trigger] r@[i]).0@ == d by {
                let name = crate::key::node_bytes(d);
                assert(table.order().contains(name));
                let k = choose|k: int| 0 <= k < count && table.order()[k] == name;
                assert(r@[k].0@ == d);
            }
        }
        r
    }
}

fn readers_of(entry: &Dependents) -> (r: Vec<DynKey>)
    requires
        entry.wf(),
        entry.queries@.dom().len() > 0,
    ensures
        r@.len() > 0,
        forall|q: Node| #[trigger] lists(r@, q) <==> entry.holds(q),
        forall|j: int, l: int| 0 <= j < l < r@.len() ==> (#[trigger] r@[j])@ != (#[trigger] r@[l])@,
{
    let mut r: Vec<DynKey> = Vec::new();
    let mut i: usize = 0;
    let count: usize = entry.queries.len();
    while i < count
        invariant
            entry.wf(),
            i <= count,
            count == entry.queries.order().len(),
            r@.len() == i,
            forall|k: int|
                0 <= k < i ==> crate::key::node_bytes((#[trigger] r@[k])@)
                    == entry.queries.order()[k],
        decreases count - i,
    {
        r.push(entry.queries.value_at(i).clone());
        i = i + 1;
    }
    proof {
        entry.queries.order_lists_domain();
        assert forall|q: Node| #[trigger] lists(r@, q) <==> entry.holds(q) by {
            let name = crate::key::node_bytes(q);
            if lists(r@, q) {
                let k = choose|k: int| 0 <= k < r@.len() && (#[trigger] r@[k])@ == q;
                assert(entry.queries.order()[k] == name);
                assert(entry.queries.order().contains(name));
            }
            if entry.holds(q) {
                assert(entry.queries.order().contains(name));
                let k = choose|k: int| 0 <= k < count && entry.queries.order()[k] == name;
                assert(crate::key::node_bytes(r@[k]@) == name);
            }
        }
    }
    r
}

/// Whether `n` is among the listed vertices.
pub open spec fn lists(queue: Seq<DynKey>, n: Node) -> bool {
    exists|i: int| 0 <= i < queue.len() && (#[trigger] queue[i])@ == n
}

proof fn lemma_queue_push(queue: Seq<DynKey>, last: DynKey, n: Node)
    ensures
        lists(queue.push(last), n) <==> lists(queue, n) || last@ == n,
{
    let longer = queue.push(last);
    if lists(queue, n) {
        let i = choose|i: int| 0 <= i < queue.len() && (#[trigger] queue[i])@ == n;
        assert(longer[i]@ == n);
    }
    if last@ == n {
        assert(longer[queue.len() as int]@ == n);
    }
    if lists(longer, n) && last@ != n {
        let i = choose|i: int| 0 <= i < longer.len() && (#[trigger] longer[i])@ == n;
        assert(queue[i]@ == n);
    }
}

proof fn lemma_push_contains(s: Seq<Node>, last: Node, x: Node)
    ensures
        s.push(last).contains(x) <==> s.contains(x) || x == last,
{
    let t = s.push(last);
    if s.contains(x) {
        let i = choose|i: int| 0 <= i < s.len() && s[i] == x;
        assert(t[i] == x);
    }
    if x == last {
        assert(t[s.len() as int] == x);
    }
    if t.contains(x) && x != last {
        let i = choose|i: int| 0 <= i < t.len() && t[i] == x;
        assert(s[i] == x);
    }
}

/// An update of a query's dependencies.
pub type DepUpdate = (Node, Seq<Node>);

/// What each query read, after several updates of a graph that starts as `forward`.
pub open spec fn updated_all(forward: Map<Node, Seq<Node>>, updates: Seq<DepUpdate>) -> Map<
    Node,
    Seq<Node>,
>
    decreases updates.len(),
{
    if updates.len() == 0 {
        forward
    } else {
        updated_all(forward, updates.drop_last()).insert(updates.last().0, updates.last().1)
    }
}

/// What the last update for a query said, if there was one.
pub open spec fn last_update(updates: Seq<DepUpdate>, query: Node) -> Option<Seq<Node>>
    decreases updates.len(),
{
    if updates.len() == 0 {
        None
    } else if updates.last().0 == query {
        Some(updates.last().1)
    } else {
        last_update(updates.drop_last(), query)
    }
}

/// A graph shows what each query read when it last ran: after any updates, the dependencies of a
/// query are those of its last update, and those of a query without updates are as they were. The
/// dependents of a vertex are then exactly the queries whose last update lists it.
pub proof fn last_update_counts(
    graph: DepGraph,
    forward: Map<Node, Seq<Node>>,
    updates: Seq<DepUpdate>,
    query: Node,
    dep: Node,
)
    requires
        graph.wf(),
        graph.forward() == updated_all(forward, updates),
    ensures
        match last_update(updates, query) {
            Some(deps) => {
                &&& graph.forward().contains_key(query)
                &&& graph.forward()[query] == deps
                &&& graph.feeds(dep, query) <==> deps.contains(dep)
            },
            None => {
                &&& graph.forward().contains_key(query) <==> forward.contains_key(query)
                &&& forward.contains_key(query) ==> graph.forward()[query] == forward[query]
                &&& graph.feeds(dep, query) <==> forward.contains_key(query)
                    && forward[query].contains(dep)
            },
        },
{
    graph.directions_agree();
    updates_reach(forward, updates, query);
    assert(graph.feeds(dep, query) <==> graph.reads(query, dep));
}

proof fn updates_reach(forward: Map<Node, Seq<Node>>, updates: Seq<DepUpdate>, query: Node)
    ensures
        ({
            let after = updated_all(forward, updates);
            match last_update(updates, query) {
                Some(deps) => after.contains_key(query) && after[query] == deps,
                None => {
                    &&& after.contains_key(query) <==> forward.contains_key(query)
                    &&& forward.contains_key(query) ==> after[query] == forward[query]
                },
            }
        }),
    decreases updates.len(),
{
    if updates.len() > 0 {
        updates_reach(forward, updates.drop_last(), query);
    }
}

} // verus!
