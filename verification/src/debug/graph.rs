//! A snapshot of the dependency graph for visualization and analysis.
#[allow(unused_imports)]
use crate::graph::DepGraph;
use crate::key::{file_name, Dep, DynKey};
#[allow(unused_imports)]
use crate::key::Node;
use crate::runtime::Runtime;
use crate::table::SharedTable;
use crate::text::{push_decimal, push_short_hex};
use std::sync::Arc;
use vstd::prelude::*;

verus! {

/// A snapshot of the dependency graph.
pub struct DependencyGraph {
    /// Forward dependencies: what each query depends on.
    pub forward_deps: Vec<(DynKey, Vec<Dep>)>,
    /// Reverse dependencies: what depends on each query or input.
    pub reverse_deps: Vec<(DynKey, Vec<DynKey>)>,
}

/// A list of vertices, each with others beside it.
pub type Adjacency = Seq<(Node, Seq<Node>)>;

/// The vertices of a list of keys.
pub open spec fn key_nodes(keys: Seq<DynKey>) -> Seq<Node> {
    keys.map_values(|k: DynKey| k@)
}

/// What a list of forward dependencies says.
pub open spec fn forward_view(list: Seq<(DynKey, Vec<Dep>)>) -> Adjacency {
    list.map_values(|e: (DynKey, Vec<Dep>)| (e.0@, crate::graph::dep_nodes(e.1@)))
}

/// What a list of reverse dependencies says.
pub open spec fn reverse_view(list: Seq<(DynKey, Vec<DynKey>)>) -> Adjacency {
    list.map_values(|e: (DynKey, Vec<DynKey>)| (e.0@, key_nodes(e.1@)))
}

/// Whether a list gives the forward dependencies of a graph: each query once, with what it read.
pub open spec fn lists_forward(deps: DepGraph, list: Adjacency) -> bool {
    &&& forall|i: int, j: int|
        0 <= i < j < list.len() ==> (#[trigger] list[i]).0 != (#[trigger] list[j]).0
    &&& forall|i: int|
        0 <= i < list.len() ==> deps.forward().contains_key((#[trigger] list[i]).0)
            && deps.forward()[list[i].0] == list[i].1
    &&& forall|q: Node| #[trigger]
        deps.forward().contains_key(q) ==> exists|i: int|
            0 <= i < list.len() && (#[trigger] list[i]).0 == q
}

/// What a vertex stands beside, where it first stands in the list.
pub open spec fn beside(list: Adjacency, q: Node) -> Option<Seq<Node>>
    decreases list.len(),
{
    if list.len() == 0 {
        None
    } else if beside(list.drop_last(), q) is Some {
        beside(list.drop_last(), q)
    } else if list.last().0 == q {
        Some(list.last().1)
    } else {
        None
    }
}

/// Vertices with others added, each once.
pub open spec fn with_nodes(seen: Seq<Node>, more: Seq<Node>) -> Seq<Node>
    decreases more.len(),
{
    if more.len() == 0 {
        seen
    } else {
        let before = with_nodes(seen, more.drop_last());
        if before.contains(more.last()) {
            before
        } else {
            before.push(more.last())
        }
    }
}

/// All vertices of a list: each query and what it stands beside, in order, each once.
pub open spec fn all_nodes(list: Adjacency) -> Seq<Node>
    decreases list.len(),
{
    if list.len() == 0 {
        Seq::empty()
    } else {
        with_nodes(all_nodes(list.drop_last()), seq![list.last().0] + list.last().1)
    }
}

/// Name of a vertex in the DOT format.
pub open spec fn dot_id(n: Node) -> Seq<char> {
    crate::text::decimal(n.0 as nat) + "_"@ + crate::text::short_hex(
        crate::key::stable_hash_of(n.1) as nat,
    )
}

/// Declaration of a vertex in the DOT format.
pub open spec fn dot_node(n: Node) -> Seq<char> {
    "  "@ + dot_id(n) + " [label=\"kind_"@ + crate::text::decimal(n.0 as nat) + "\\nkey_"@
        + crate::text::short_hex(crate::key::stable_hash_of(n.1) as nat) + "\"];\n"@
}

/// Declarations of several vertices.
pub open spec fn dot_nodes(nodes: Seq<Node>) -> Seq<char>
    decreases nodes.len(),
{
    if nodes.len() == 0 {
        Seq::empty()
    } else {
        dot_nodes(nodes.drop_last()) + dot_node(nodes.last())
    }
}

/// An edge in the DOT format.
pub open spec fn dot_edge(from: Node, to: Node) -> Seq<char> {
    "  "@ + dot_id(from) + " -> "@ + dot_id(to) + ";\n"@
}

/// Edges from a vertex to several others.
pub open spec fn dot_edges(from: Node, to: Seq<Node>) -> Seq<char>
    decreases to.len(),
{
    if to.len() == 0 {
        Seq::empty()
    } else {
        dot_edges(from, to.drop_last()) + dot_edge(from, to.last())
    }
}

/// All edges of a list.
pub open spec fn all_edges(list: Adjacency) -> Seq<char>
    decreases list.len(),
{
    if list.len() == 0 {
        Seq::empty()
    } else {
        all_edges(list.drop_last()) + dot_edges(list.last().0, list.last().1)
    }
}

/// A list of dependencies in the DOT format: a declaration of each vertex, then an edge from each
/// query to each of its dependencies.
pub open spec fn dot_text(list: Adjacency) -> Seq<char> {
    "digraph dependencies {\n  rankdir=LR;\n  node [shape=box];\n\n"@ + dot_nodes(all_nodes(list))
        + "\n"@ + all_edges(list) + "}\n"@
}

/// The queries without dependencies.
pub open spec fn roots_of(forward: Adjacency) -> Seq<Node>
    decreases forward.len(),
{
    if forward.len() == 0 {
        Seq::empty()
    } else if forward.last().1.len() == 0 {
        roots_of(forward.drop_last()).push(forward.last().0)
    } else {
        roots_of(forward.drop_last())
    }
}

/// Whether something depends on a vertex.
pub open spec fn has_dependents(reverse: Adjacency, n: Node) -> bool {
    exists|i: int| 0 <= i < reverse.len() && (#[trigger] reverse[i]).0 == n && reverse[i].1.len() > 0
}

/// The queries that nothing depends on.
pub open spec fn leaves_of(forward: Adjacency, reverse: Adjacency) -> Seq<Node>
    decreases forward.len(),
{
    if forward.len() == 0 {
        Seq::empty()
    } else if !has_dependents(reverse, forward.last().0) {
        leaves_of(forward.drop_last(), reverse).push(forward.last().0)
    } else {
        leaves_of(forward.drop_last(), reverse)
    }
}

fn push_dot_id(out: &mut String, kind: u32, hash: u64)
    ensures
        final(out)@ == old(out)@ + crate::text::decimal(kind as nat) + "_"@
            + crate::text::short_hex(hash as nat),
{
    push_decimal(out, kind as u64);
    out.append("_");
    push_short_hex(out, hash);
}

fn push_dot_node(out: &mut String, node: &DynKey)
    ensures
        final(out)@ == old(out)@ + dot_node(node@),
{
    let hash: u64 = node.key.hash();
    out.append("  ");
    push_dot_id(out, node.kind.0, hash);
    out.append(" [label=\"kind_");
    push_decimal(out, node.kind.0 as u64);
    out.append("\\nkey_");
    push_short_hex(out, hash);
    out.append("\"];\n");
    assert(out@ =~= old(out)@ + dot_node(node@));
}

fn push_dot_edges(out: &mut String, from: &DynKey, to: &Vec<Dep>)
    ensures
        final(out)@ == old(out)@ + dot_edges(from@, crate::graph::dep_nodes(to@)),
{
    let ghost start = out@;
    let ghost all = crate::graph::dep_nodes(to@);
    let mut i: usize = 0;
    while i < to.len()
        invariant
            i <= to@.len(),
            all == crate::graph::dep_nodes(to@),
            out@ == start + dot_edges(from@, all.take(i as int)),
        decreases to@.len() - i,
    {
        let ghost longer = all.take(i + 1);
        assert(longer.drop_last() =~= all.take(i as int));
        assert(longer.last() == to@[i as int]@);
        out.append("  ");
        push_dot_id(out, from.kind.0, from.key.hash());
        out.append(" -> ");
        push_dot_id(out, to[i].kind.0, to[i].key.hash());
        out.append(";\n");
        assert(out@ =~= start + dot_edges(from@, longer));
        i = i + 1;
    }
    assert(all.take(i as int) =~= all);
}

/// Vertices in the order in which they were first met.
struct NodeList {
    nodes: Vec<DynKey>,
    met: SharedTable<()>,
}

impl NodeList {
    spec fn wf(&self) -> bool {
        &&& self.met.wf()
        &&& forall|n: Node| #[trigger]
            self.met@.contains_key(crate::key::node_bytes(n)) <==> key_nodes(
                self.nodes@,
            ).contains(n)
    }

    fn add_node(&mut self, kind: crate::key::QueryKindId, key: &crate::key::Key)
        requires
            old(self).wf(),
        ensures
            final(self).wf(),
            key_nodes(final(self).nodes@) == with_nodes(
                key_nodes(old(self).nodes@),
                seq![(kind.0, key@)],
            ),
    {
        let ghost before = key_nodes(self.nodes@);
        let ghost node = (kind.0, key@);
        proof {
            assert(seq![node].drop_last() =~= Seq::<Node>::empty());
            assert(with_nodes(before, Seq::<Node>::empty()) == before);
            assert(seq![node].last() == node);
        }
        let name: Vec<u8> = file_name(kind, key);
        if !self.met.contains(name.as_slice()) {
            let _ = self.met.insert(name.as_slice(), ());
            self.nodes.push(DynKey { kind, key: key.clone() });
            proof {
                let after = key_nodes(self.nodes@);
                assert(after =~= before.push(node));
                assert forall|n: Node| #[trigger]
                    self.met@.contains_key(crate::key::node_bytes(n)) <==> after.contains(n) by {
                    if crate::key::node_bytes(n) == crate::key::node_bytes(node) {
                        crate::key::node_bytes_injective(n, node);
                    }
                    if before.contains(n) {
                        let k = choose|k: int| 0 <= k < before.len() && before[k] == n;
                        assert(after[k] == n);
                    }
                    if n == node {
                        assert(after[before.len() as int] == n);
                    }
                    if after.contains(n) && n != node {
                        let k = choose|k: int| 0 <= k < after.len() && after[k] == n;
                        assert(before[k] == n);
                    }
                }
            }
        }
    }
}

proof fn with_nodes_split(seen: Seq<Node>, a: Seq<Node>, b: Seq<Node>)
    ensures
        with_nodes(seen, a + b) == with_nodes(with_nodes(seen, a), b),
    decreases b.len(),
{
    if b.len() == 0 {
        assert(a + b =~= a);
    } else {
        with_nodes_split(seen, a, b.drop_last());
        assert((a + b).drop_last() =~= a + b.drop_last());
        assert((a + b).last() == b.last());
    }
}

impl DependencyGraph {
    /// What depends on what, as recorded for the queries.
    pub open spec fn forward(&self) -> Adjacency {
        forward_view(self.forward_deps@)
    }

    /// What is depended on by what.
    pub open spec fn reverse(&self) -> Adjacency {
        reverse_view(self.reverse_deps@)
    }

    /// Capture the current dependency graph of a runtime.
    ///
    /// The graph only holds queries that have been executed and had their dependencies recorded.
    pub fn from_runtime(runtime: &Runtime) -> (r: Self)
        requires
            runtime.wf(),
        ensures
            lists_forward(runtime.deps(), r.forward()),
            runtime.deps().is_reverse_listing(r.reverse_deps@),
    {
        let listed: Vec<(DynKey, Arc<Vec<Dep>>)> = runtime.deps_by_query_snapshot();
        let mut forward_deps: Vec<(DynKey, Vec<Dep>)> = Vec::new();
        let mut i: usize = 0;
        while i < listed.len()
            invariant
                i <= listed@.len(),
                forward_deps@.len() == i,
                forall|j: int|
                    0 <= j < i ==> {
                        &&& (#[trigger] forward_deps@[j]).0 == listed@[j].0
                        &&& crate::graph::dep_nodes(forward_deps@[j].1@)
                            == crate::graph::dep_nodes(listed@[j].1@)
                    },
            decreases listed@.len() - i,
        {
            let deps: Vec<Dep> = (*listed[i].1).clone();
            assert(crate::graph::dep_nodes(deps@) =~= crate::graph::dep_nodes(
                listed@[i as int].1@,
            ));
            forward_deps.push((listed[i].0.clone(), deps));
            i = i + 1;
        }
        let r = DependencyGraph { forward_deps, reverse_deps: runtime.reverse_deps_snapshot() };
        proof {
            let list = r.forward();
            assert forall|j: int| 0 <= j < list.len() implies (#[trigger] list[j]).0
                == listed@[j].0@ && list[j].1 == crate::graph::dep_nodes(listed@[j].1@) by {
                assert(forward_deps@[j].0 == listed@[j].0);
            }
            assert forall|q: Node| #[trigger] runtime.deps().forward().contains_key(
                q,
            ) implies exists|i: int| 0 <= i < list.len() && (#[trigger] list[i]).0 == q by {
                let j = choose|j: int| 0 <= j < listed@.len() && (#[trigger] listed@[j]).0@ == q;
                assert(list[j].0 == q);
            }
            assert forall|i: int, j: int| 0 <= i < j < list.len() implies (#[trigger] list[i]).0
                != (#[trigger] list[j]).0 by {
                assert(listed@[i].0@ != listed@[j].0@);
            }
        }
        r
    }

    fn collect_nodes(&self) -> (r: Vec<DynKey>)
        ensures
            key_nodes(r@) == all_nodes(self.forward()),
    {
        let ghost all = self.forward();
        let mut list = NodeList { nodes: Vec::new(), met: SharedTable::new() };
        assert(key_nodes(list.nodes@) =~= Seq::empty());
        let mut i: usize = 0;
        while i < self.forward_deps.len()
            invariant
                i <= self.forward_deps@.len(),
                all == self.forward(),
                list.wf(),
                key_nodes(list.nodes@) == all_nodes(all.take(i as int)),
            decreases self.forward_deps@.len() - i,
        {
            let entry: &(DynKey, Vec<Dep>) = &self.forward_deps[i];
            let ghost before = key_nodes(list.nodes@);
            let ghost query = seq![entry.0@];
            let ghost deps = crate::graph::dep_nodes(entry.1@);
            list.add_node(entry.0.kind, &entry.0.key);
            assert(query + deps.take(0) =~= query);
            let mut j: usize = 0;
            while j < entry.1.len()
                invariant
                    j <= entry.1@.len(),
                    list.wf(),
                    deps == crate::graph::dep_nodes(entry.1@),
                    key_nodes(list.nodes@) == with_nodes(before, query + deps.take(j as int)),
                decreases entry.1@.len() - j,
            {
                list.add_node(entry.1[j].kind, &entry.1[j].key);
                proof {
                    let step = seq![deps[j as int]];
                    with_nodes_split(before, query + deps.take(j as int), step);
                    assert(query + deps.take(j as int) + step =~= query + deps.take(j + 1));
                    assert(deps[j as int] == entry.1@[j as int]@);
                }
                j = j + 1;
            }
            proof {
                assert(deps.take(j as int) =~= deps);
                assert(all.take(i + 1).drop_last() =~= all.take(i as int));
                assert(all.take(i + 1).last() == (entry.0@, deps));
            }
            i = i + 1;
        }
        assert(all.take(i as int) =~= all);
        list.nodes
    }

    /// Append the dependency graph in Graphviz DOT format to `out`.
    ///
    /// Vertices are labelled with kind id and key hash; edges point from queries to their
    /// dependencies.
    pub fn write_dot_to(&self, out: &mut String)
        ensures
            final(out)@ == old(out)@ + dot_text(self.forward()),
    {
        let ghost start = out@;
        let ghost all = self.forward();
        let ghost head =
            "digraph dependencies {\n  rankdir=LR;\n  node [shape=box];\n\n"@;
        out.append("digraph dependencies {\n  rankdir=LR;\n  node [shape=box];\n\n");
        let nodes: Vec<DynKey> = self.collect_nodes();
        let ghost listed = key_nodes(nodes@);
        let mut i: usize = 0;
        assert(out@ =~= start + head + dot_nodes(listed.take(0)));
        while i < nodes.len()
            invariant
                i <= nodes@.len(),
                listed == key_nodes(nodes@),
                out@ == start + head + dot_nodes(listed.take(i as int)),
            decreases nodes@.len() - i,
        {
            let ghost longer = listed.take(i + 1);
            assert(longer.drop_last() =~= listed.take(i as int));
            assert(longer.last() == nodes@[i as int]@);
            push_dot_node(out, &nodes[i]);
            assert(out@ =~= start + head + dot_nodes(longer));
            i = i + 1;
        }
        assert(listed.take(i as int) =~= listed);
        out.append("\n");
        let ghost middle = out@;
        let mut j: usize = 0;
        assert(out@ =~= middle + all_edges(all.take(0)));
        while j < self.forward_deps.len()
            invariant
                j <= self.forward_deps@.len(),
                all == self.forward(),
                out@ == middle + all_edges(all.take(j as int)),
            decreases self.forward_deps@.len() - j,
        {
            let ghost longer = all.take(j + 1);
            assert(longer.drop_last() =~= all.take(j as int));
            let entry: &(DynKey, Vec<Dep>) = &self.forward_deps[j];
            assert(longer.last() == (entry.0@, crate::graph::dep_nodes(entry.1@)));
            push_dot_edges(out, &entry.0, &entry.1);
            assert(out@ =~= middle + all_edges(longer));
            j = j + 1;
        }
        assert(all.take(j as int) =~= all);
        out.append("}\n");
        assert(out@ =~= start + dot_text(all));
    }

    /// All queries that have no dependencies (root queries).
    pub fn root_queries(&self) -> (r: Vec<DynKey>)
        ensures
            key_nodes(r@) == roots_of(self.forward()),
    {
        let ghost all = self.forward();
        let mut r: Vec<DynKey> = Vec::new();
        assert(key_nodes(r@) =~= Seq::empty());
        let mut i: usize = 0;
        while i < self.forward_deps.len()
            invariant
                i <= self.forward_deps@.len(),
                all == self.forward(),
                key_nodes(r@) == roots_of(all.take(i as int)),
            decreases self.forward_deps@.len() - i,
        {
            let ghost before = r@;
            assert(all.take(i + 1).drop_last() =~= all.take(i as int));
            let entry: &(DynKey, Vec<Dep>) = &self.forward_deps[i];
            assert(all.take(i + 1).last() == (entry.0@, crate::graph::dep_nodes(entry.1@)));
            if entry.1.len() == 0 {
                r.push(entry.0.clone());
                assert(key_nodes(r@) =~= key_nodes(before).push(entry.0@));
            }
            i = i + 1;
        }
        assert(all.take(i as int) =~= all);
        r
    }

    fn depended_on(&self) -> (r: SharedTable<()>)
        ensures
            r.wf(),
            forall|n: Node| #[trigger]
                r@.contains_key(crate::key::node_bytes(n)) <==> has_dependents(self.reverse(), n),
    {
        let ghost all = self.reverse();
        let mut r: SharedTable<()> = SharedTable::new();
        let mut i: usize = 0;
        while i < self.reverse_deps.len()
            invariant
                i <= self.reverse_deps@.len(),
                all == self.reverse(),
                r.wf(),
                forall|n: Node| #[trigger]
                    r@.contains_key(crate::key::node_bytes(n)) <==> has_dependents(
                        all.take(i as int),
                        n,
                    ),
            decreases self.reverse_deps@.len() - i,
        {
            let entry: &(DynKey, Vec<DynKey>) = &self.reverse_deps[i];
            let ghost before = r@;
            let ghost shorter = all.take(i as int);
            let ghost longer = all.take(i + 1);
            if entry.1.len() > 0 {
                let name: Vec<u8> = file_name(entry.0.kind, &entry.0.key);
                let _ = r.insert(name.as_slice(), ());
            }
            proof {
                assert(all[i as int] == (entry.0@, key_nodes(entry.1@)));
                assert forall|n: Node| #[trigger]
                    r@.contains_key(crate::key::node_bytes(n)) <==> has_dependents(longer, n) by {
                    assert(before.contains_key(crate::key::node_bytes(n)) <==> has_dependents(
                        shorter,
                        n,
                    ));
                    if crate::key::node_bytes(n) == crate::key::node_bytes(entry.0@) {
                        crate::key::node_bytes_injective(n, entry.0@);
                    }
                    if has_dependents(shorter, n) {
                        let k = choose|k: int|
                            0 <= k < shorter.len() && (#[trigger] shorter[k]).0 == n
                                && shorter[k].1.len() > 0;
                        assert(longer[k] == shorter[k]);
                    }
                    if n == entry.0@ && entry.1@.len() > 0 {
                        assert(longer[i as int].0 == n);
                    }
                    if has_dependents(longer, n) {
                        let k = choose|k: int|
                            0 <= k < longer.len() && (#[trigger] longer[k]).0 == n
                                && longer[k].1.len() > 0;
                        if k < i {
                            assert(shorter[k] == longer[k]);
                        }
                    }
                }
            }
            i = i + 1;
        }
        assert(all.take(i as int) =~= all);
        r
    }

    /// All queries that nothing depends on (leaf queries).
    pub fn leaf_queries(&self) -> (r: Vec<DynKey>)
        ensures
            key_nodes(r@) == leaves_of(self.forward(), self.reverse()),
    {
        let ghost all = self.forward();
        let depended: SharedTable<()> = self.depended_on();
        let mut r: Vec<DynKey> = Vec::new();
        assert(key_nodes(r@) =~= Seq::empty());
        let mut i: usize = 0;
        while i < self.forward_deps.len()
            invariant
                i <= self.forward_deps@.len(),
                all == self.forward(),
                depended.wf(),
                forall|n: Node| #[trigger]
                    depended@.contains_key(crate::key::node_bytes(n)) <==> has_dependents(
                        self.reverse(),
                        n,
                    ),
                key_nodes(r@) == leaves_of(all.take(i as int), self.reverse()),
            decreases self.forward_deps@.len() - i,
        {
            let ghost before = r@;
            assert(all.take(i + 1).drop_last() =~= all.take(i as int));
            let entry: &(DynKey, Vec<Dep>) = &self.forward_deps[i];
            assert(all.take(i + 1).last() == (entry.0@, crate::graph::dep_nodes(entry.1@)));
            let name: Vec<u8> = file_name(entry.0.kind, &entry.0.key);
            assert(name@ == crate::key::node_bytes(entry.0@));
            if !depended.contains(name.as_slice()) {
                r.push(entry.0.clone());
                assert(key_nodes(r@) =~= key_nodes(before).push(entry.0@));
            }
            i = i + 1;
        }
        assert(all.take(i as int) =~= all);
        r
    }
}

/// Whether a vertex stands in a list, beside nothing.
pub open spec fn stands_alone(list: Adjacency, n: Node) -> bool {
    exists|i: int| 0 <= i < list.len() && (#[trigger] list[i]).0 == n && list[i].1.len() == 0
}

/// Whether a vertex is one of the queries of a list.
pub open spec fn is_query(list: Adjacency, n: Node) -> bool {
    exists|i: int| 0 <= i < list.len() && (#[trigger] list[i]).0 == n
}

proof fn push_contains(s: Seq<Node>, last: Node, n: Node)
    ensures
        s.push(last).contains(n) <==> s.contains(n) || n == last,
{
    let t = s.push(last);
    if s.contains(n) {
        let k = choose|k: int| 0 <= k < s.len() && s[k] == n;
        assert(t[k] == n);
    }
    assert(t[s.len() as int] == last);
    if t.contains(n) && n != last {
        let k = choose|k: int| 0 <= k < t.len() && t[k] == n;
        assert(s[k] == n);
    }
}

/// The root queries are exactly the queries that have no dependencies.
pub proof fn roots_have_no_dependencies(forward: Adjacency, n: Node)
    ensures
        roots_of(forward).contains(n) <==> stands_alone(forward, n),
    decreases forward.len(),
{
    if forward.len() > 0 {
        let shorter = forward.drop_last();
        let last = forward.last();
        roots_have_no_dependencies(shorter, n);
        push_contains(roots_of(shorter), last.0, n);
        if stands_alone(shorter, n) {
            let i = choose|i: int|
                0 <= i < shorter.len() && (#[trigger] shorter[i]).0 == n && shorter[i].1.len() == 0;
            assert(forward[i] == shorter[i]);
        }
        if last.0 == n && last.1.len() == 0 {
            assert(forward[forward.len() - 1].0 == n);
        }
        if stands_alone(forward, n) && !(last.0 == n && last.1.len() == 0) {
            let i = choose|i: int|
                0 <= i < forward.len() && (#[trigger] forward[i]).0 == n && forward[i].1.len() == 0;
            assert(shorter[i] == forward[i]);
        }
    }
}

/// The leaf queries are exactly the queries that nothing depends on.
pub proof fn leaves_have_no_dependents(forward: Adjacency, reverse: Adjacency, n: Node)
    ensures
        leaves_of(forward, reverse).contains(n) <==> is_query(forward, n) && !has_dependents(
            reverse,
            n,
        ),
    decreases forward.len(),
{
    if forward.len() > 0 {
        let shorter = forward.drop_last();
        let last = forward.last();
        leaves_have_no_dependents(shorter, reverse, n);
        push_contains(leaves_of(shorter, reverse), last.0, n);
        if is_query(shorter, n) {
            let i = choose|i: int| 0 <= i < shorter.len() && (#[trigger] shorter[i]).0 == n;
            assert(forward[i] == shorter[i]);
        }
        if last.0 == n {
            assert(forward[forward.len() - 1].0 == n);
        }
        if is_query(forward, n) && last.0 != n {
            let i = choose|i: int| 0 <= i < forward.len() && (#[trigger] forward[i]).0 == n;
            assert(shorter[i] == forward[i]);
        }
    }
}

/// In a captured graph, something depends on a vertex exactly where some query reads it.
pub proof fn captured_dependents_are_readers(
    deps: DepGraph,
    list: Seq<(DynKey, Vec<DynKey>)>,
    n: Node,
)
    requires
        deps.is_reverse_listing(list),
    ensures
        has_dependents(reverse_view(list), n) <==> exists|q: Node| #[trigger] deps.feeds(n, q),
{
    let view = reverse_view(list);
    if has_dependents(view, n) {
        let i = choose|i: int|
            0 <= i < view.len() && (#[trigger] view[i]).0 == n && view[i].1.len() > 0;
        assert(list[i].1@[0]@ == list[i].1@[0]@);
        let q = list[i].1@[0]@;
        assert(crate::graph::lists(list[i].1@, q));
        assert(deps.feeds(list[i].0@, q));
    }
    if exists|q: Node| #[trigger] deps.feeds(n, q) {
        let q = choose|q: Node| #[trigger] deps.feeds(n, q);
        let i = choose|i: int| 0 <= i < list.len() && (#[trigger] list[i]).0@ == n;
        assert(list[i].1@.len() > 0);
        assert(view[i].0 == n && view[i].1.len() > 0);
    }
}

/// Whether a vertex occurs in a list, as a query or beside one.
pub open spec fn occurs(list: Adjacency, n: Node) -> bool {
    exists|i: int|
        0 <= i < list.len() && ((#[trigger] list[i]).0 == n || list[i].1.contains(n))
}

proof fn with_nodes_contains(seen: Seq<Node>, more: Seq<Node>, n: Node)
    requires
        seen.no_duplicates(),
    ensures
        with_nodes(seen, more).no_duplicates(),
        with_nodes(seen, more).contains(n) <==> seen.contains(n) || more.contains(n),
    decreases more.len(),
{
    if more.len() > 0 {
        let before = with_nodes(seen, more.drop_last());
        with_nodes_contains(seen, more.drop_last(), n);
        push_contains(before, more.last(), n);
        push_contains(more.drop_last(), more.last(), n);
        assert(more.drop_last().push(more.last()) =~= more);
        if !before.contains(more.last()) {
            let after = before.push(more.last());
            assert forall|i: int, j: int| 0 <= i < j < after.len() implies after[i]
                != after[j] by {
                if j == before.len() {
                    assert(before[i] == after[i]);
                }
            }
        }
    }
}

/// The DOT text declares every vertex of the graph, and none twice.
pub proof fn each_vertex_is_declared_once(list: Adjacency, n: Node)
    ensures
        all_nodes(list).no_duplicates(),
        all_nodes(list).contains(n) <==> occurs(list, n),
    decreases list.len(),
{
    if list.len() > 0 {
        let shorter = list.drop_last();
        let last = list.last();
        let more = seq![last.0] + last.1;
        each_vertex_is_declared_once(shorter, n);
        with_nodes_contains(all_nodes(shorter), more, n);
        assert(more[0] == last.0);
        if last.1.contains(n) {
            let k = choose|k: int| 0 <= k < last.1.len() && last.1[k] == n;
            assert(more[k + 1] == n);
        }
        if more.contains(n) && n != last.0 {
            let k = choose|k: int| 0 <= k < more.len() && more[k] == n;
            assert(last.1[k - 1] == n);
        }
        if occurs(shorter, n) {
            let i = choose|i: int|
                0 <= i < shorter.len() && ((#[trigger] shorter[i]).0 == n || shorter[i].1.contains(
                    n,
                ));
            assert(list[i] == shorter[i]);
        }
        if more.contains(n) {
            assert(list[list.len() - 1] == last);
        }
        if occurs(list, n) && !more.contains(n) {
            let i = choose|i: int|
                0 <= i < list.len() && ((#[trigger] list[i]).0 == n || list[i].1.contains(n));
            assert(shorter[i] == list[i]);
        }
    }
}

} // verus!
