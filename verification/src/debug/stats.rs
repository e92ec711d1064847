//! Statistics about the recorded dependencies.
use crate::debug::tally::{count_one, sorted_keys};
#[allow(unused_imports)]
use crate::graph::DepGraph;
use crate::key::{Dep, DynKey};
#[allow(unused_imports)]
use crate::key::Node;
use crate::runtime::Runtime;
use crate::text::push_decimal;
use std::collections::HashMap;
use std::sync::Arc;
use vstd::prelude::*;

verus! {

/// Statistics about cache usage and structure.
#[derive(Debug, Clone)]
pub struct CacheStats {
    /// Number of queries with recorded forward dependencies.
    pub forward_deps_count: usize,
    /// Number of queries and inputs with recorded reverse dependencies.
    pub reverse_deps_count: usize,
    /// Total number of dependency edges.
    pub total_dependency_edges: usize,
    /// Number of queries with no dependencies (roots).
    pub root_query_count: usize,
    /// Distribution of dependency counts.
    pub dep_count_histogram: HashMap<u64, usize>,
}

/// The forward dependencies of a graph, each query once.
pub type Listing = Seq<(DynKey, Arc<Vec<Dep>>)>;

/// How many dependencies each query has.
pub open spec fn dep_counts(list: Listing) -> Seq<u64> {
    list.map_values(|e: (DynKey, Arc<Vec<Dep>>)| e.1@.len() as u64)
}

/// How many dependency edges there are.
pub open spec fn edge_count(list: Listing) -> nat
    decreases list.len(),
{
    if list.len() == 0 {
        0
    } else {
        edge_count(list.drop_last()) + list.last().1@.len()
    }
}

/// A number as far as a machine word counts.
pub open spec fn counted(n: nat) -> nat {
    if n <= usize::MAX {
        n
    } else {
        usize::MAX as nat
    }
}

/// Whether statistics are those of a graph whose forward dependencies are listed.
pub open spec fn describes(stats: CacheStats, deps: DepGraph, list: Listing) -> bool {
    &&& deps.is_forward_listing(list)
    &&& stats.forward_deps_count == deps.forward().dom().len()
    &&& stats.total_dependency_edges == counted(edge_count(list))
    &&& stats.root_query_count == crate::debug::tally::times(dep_counts(list), 0)
    &&& crate::debug::tally::tallies(stats.dep_count_histogram@, dep_counts(list))
}

/// The vertices that are read by some query.
pub open spec fn read_vertices(deps: DepGraph) -> Set<Node> {
    Set::new(|d: Node| exists|q: Node| #[trigger] deps.feeds(d, q))
}

proof fn forward_listing_counts(deps: DepGraph, list: Listing)
    requires
        deps.is_forward_listing(list),
    ensures
        deps.forward().dom().finite(),
        deps.forward().dom().len() == list.len(),
{
    let nodes = list.map_values(|e: (DynKey, Arc<Vec<Dep>>)| e.0@);
    assert forall|i: int, j: int| 0 <= i < j < nodes.len() implies nodes[i] != nodes[j] by {
        assert(list[i].0@ != list[j].0@);
    }
    nodes.unique_seq_to_set();
    assert forall|q: Node| nodes.to_set().contains(q) <==> deps.forward().dom().contains(q) by {
        if nodes.contains(q) {
            let i = choose|i: int| 0 <= i < nodes.len() && nodes[i] == q;
            assert(list[i].0@ == q);
        }
        if deps.forward().contains_key(q) {
            let i = choose|i: int| 0 <= i < list.len() && (#[trigger] list[i]).0@ == q;
            assert(nodes[i] == q);
        }
    }
    assert(nodes.to_set() =~= deps.forward().dom());
}

proof fn reverse_listing_counts(deps: DepGraph, list: Seq<(DynKey, Vec<DynKey>)>)
    requires
        deps.is_reverse_listing(list),
    ensures
        read_vertices(deps).finite(),
        read_vertices(deps).len() == list.len(),
{
    let nodes = list.map_values(|e: (DynKey, Vec<DynKey>)| e.0@);
    assert forall|i: int, j: int| 0 <= i < j < nodes.len() implies nodes[i] != nodes[j] by {
        assert(list[i].0@ != list[j].0@);
    }
    nodes.unique_seq_to_set();
    assert forall|d: Node| nodes.to_set().contains(d) <==> read_vertices(deps).contains(d) by {
        if nodes.contains(d) {
            let i = choose|i: int| 0 <= i < nodes.len() && nodes[i] == d;
            assert(list[i].0@ == d);
            let q = list[i].1@[0]@;
            assert(crate::graph::lists(list[i].1@, q));
            assert(deps.feeds(list[i].0@, q));
        }
        if read_vertices(deps).contains(d) {
            let q = choose|q: Node| #[trigger] deps.feeds(d, q);
            let i = choose|i: int| 0 <= i < list.len() && (#[trigger] list[i]).0@ == d;
            assert(nodes[i] == d);
        }
    }
    assert(nodes.to_set() =~= read_vertices(deps));
}

/// One line of the distribution.
pub open spec fn histogram_line(count: u64, queries: usize) -> Seq<char> {
    "    "@ + crate::text::decimal(count as nat) + " deps: "@ + crate::text::decimal(
        queries as nat,
    ) + " queries\n"@
}

/// The lines of the distribution for the given counts.
pub open spec fn histogram_lines(histogram: Map<u64, usize>, counts: Seq<u64>) -> Seq<char>
    decreases counts.len(),
{
    if counts.len() == 0 {
        Seq::empty()
    } else {
        histogram_lines(histogram, counts.drop_last()) + histogram_line(
            counts.last(),
            histogram[counts.last()],
        )
    }
}

/// Statistics as text, where the distribution is listed by the given counts.
pub open spec fn stats_text(stats: CacheStats, counts: Seq<u64>) -> Seq<char> {
    let head = "Cache Statistics:\n  Forward deps: "@ + crate::text::decimal(
        stats.forward_deps_count as nat,
    ) + "\n  Reverse deps: "@ + crate::text::decimal(stats.reverse_deps_count as nat)
        + "\n  Total edges: "@ + crate::text::decimal(stats.total_dependency_edges as nat)
        + "\n  Root queries: "@ + crate::text::decimal(stats.root_query_count as nat) + "\n"@;
    if counts.len() == 0 {
        head
    } else {
        head + "\n  Dependency count distribution:\n"@ + histogram_lines(
            stats.dep_count_histogram@,
            counts,
        )
    }
}

impl CacheStats {
    /// Collect statistics from a runtime.
    pub fn collect(runtime: &Runtime) -> (r: Self)
        requires
            runtime.wf(),
        ensures
            exists|list: Listing| #[trigger] describes(r, runtime.deps(), list),
            r.reverse_deps_count == read_vertices(runtime.deps()).len(),
    {
        let forward: Vec<(DynKey, Arc<Vec<Dep>>)> = runtime.deps_by_query_snapshot();
        let reverse: Vec<(DynKey, Vec<DynKey>)> = runtime.reverse_deps_snapshot();
        let ghost counts = dep_counts(forward@);
        proof {
            forward_listing_counts(runtime.deps(), forward@);
            reverse_listing_counts(runtime.deps(), reverse@);
        }
        let mut edges: usize = 0;
        let mut roots: usize = 0;
        let mut histogram: HashMap<u64, usize> = HashMap::new();
        let mut i: usize = 0;
        assert(counts.take(0) =~= Seq::empty());
        while i < forward.len()
            invariant
                i <= forward@.len(),
                counts == dep_counts(forward@),
                edges == counted(edge_count(forward@.take(i as int))),
                roots == crate::debug::tally::times(counts.take(i as int), 0),
                roots <= i,
                crate::debug::tally::tallies(histogram@, counts.take(i as int)),
            decreases forward@.len() - i,
        {
            let len: usize = forward[i].1.len();
            proof {
                assert(forward@.take(i + 1).drop_last() =~= forward@.take(i as int));
                assert(forward@.take(i + 1).last() == forward@[i as int]);
                assert(counts.take(i + 1).drop_last() =~= counts.take(i as int));
                assert(counts.take(i + 1).last() == counts[i as int]);
                assert(counts.take(i + 1) =~= counts.take(i as int).push(counts[i as int]));
            }
            edges = edges.saturating_add(len);
            if len == 0 {
                roots = roots + 1;
            }
            count_one(&mut histogram, len as u64, Ghost(counts.take(i as int)));
            i = i + 1;
        }
        assert(forward@.take(i as int) =~= forward@);
        assert(counts.take(i as int) =~= counts);
        let r = CacheStats {
            forward_deps_count: forward.len(),
            reverse_deps_count: reverse.len(),
            total_dependency_edges: edges,
            root_query_count: roots,
            dep_count_histogram: histogram,
        };
        assert(describes(r, runtime.deps(), forward@));
        r
    }

    /// The statistics as human-readable text.
    pub fn format(&self) -> (r: String)
        ensures
            exists|counts: Seq<u64>|
                crate::debug::tally::lists_keys(self.dep_count_histogram@, counts) && r@
                    == #[trigger] stats_text(*self, counts),
    {
        broadcast use vstd::std_specs::hash::group_hash_axioms;

        let mut out: String = String::new();
        out.append("Cache Statistics:\n  Forward deps: ");
        push_decimal(&mut out, self.forward_deps_count as u64);
        out.append("\n  Reverse deps: ");
        push_decimal(&mut out, self.reverse_deps_count as u64);
        out.append("\n  Total edges: ");
        push_decimal(&mut out, self.total_dependency_edges as u64);
        out.append("\n  Root queries: ");
        push_decimal(&mut out, self.root_query_count as u64);
        out.append("\n");
        let counts: Vec<u64> = sorted_keys(&self.dep_count_histogram);
        if counts.len() > 0 {
            out.append("\n  Dependency count distribution:\n");
        }
        let ghost head = out@;
        let mut i: usize = 0;
        while i < counts.len()
            invariant
                i <= counts@.len(),
                crate::debug::tally::lists_keys(self.dep_count_histogram@, counts@),
                out@ == head + histogram_lines(
                    self.dep_count_histogram@,
                    counts@.take(i as int),
                ),
            decreases counts@.len() - i,
        {
            broadcast use vstd::std_specs::hash::group_hash_axioms;

            let ghost longer = counts@.take(i + 1);
            let ghost before = out@;
            assert(longer.drop_last() =~= counts@.take(i as int));
            assert(longer.last() == counts@[i as int]);
            assert(counts@.contains(counts@[i as int]));
            let count: u64 = counts[i];
            if let Some(queries) = self.dep_count_histogram.get(&count) {
                out.append("    ");
                push_decimal(&mut out, count);
                out.append(" deps: ");
                push_decimal(&mut out, *queries as u64);
                out.append(" queries\n");
            }
            assert(out@ =~= before + histogram_line(count, self.dep_count_histogram@[count]));
            assert(out@ =~= head + histogram_lines(self.dep_count_histogram@, longer));
            i = i + 1;
        }
        assert(counts@.take(i as int) =~= counts@);
        assert(out@ =~= stats_text(*self, counts@));
        out
    }
}

} // verus!
