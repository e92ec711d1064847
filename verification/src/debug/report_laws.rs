//! What the reports on a graph, its statistics and a trace say.
#[allow(unused_imports)]
use crate::debug::graph::Adjacency;
use crate::debug::stats::CacheStats;
#[allow(unused_imports)]
use crate::debug::stats::Listing;
use crate::debug::trace::{TraceAnalysis, TraceEvent};
use crate::graph::DepGraph;
use crate::key::{Dep, DynKey};
#[allow(unused_imports)]
use crate::key::Node;
use crate::runtime::RuntimeEvent;
use std::sync::Arc;
use vstd::prelude::*;

verus! {

/// The queries without dependencies are listed in the order of the graph.
pub proof fn roots_are_listed_in_order(forward: Adjacency)
    ensures
        crate::debug::graph::roots_of(forward) == forward.filter(
            |e: (Node, Seq<Node>)| e.1.len() == 0,
        ).map_values(|e: (Node, Seq<Node>)| e.0),
    decreases forward.len(),
{
    let p = |e: (Node, Seq<Node>)| e.1.len() == 0;
    let f = |e: (Node, Seq<Node>)| e.0;
    if forward.len() > 0 {
        let shorter = forward.drop_last();
        roots_are_listed_in_order(shorter);
        assert(forward.filter(p) == if p(forward.last()) {
            shorter.filter(p).push(forward.last())
        } else {
            shorter.filter(p)
        }) by {
            reveal(Seq::filter);
        }
        assert(crate::debug::graph::roots_of(forward) =~= forward.filter(p).map_values(f));
    } else {
        assert(forward.filter(p) =~= Seq::empty()) by {
            reveal(Seq::filter);
        }
        assert(crate::debug::graph::roots_of(forward) =~= forward.filter(p).map_values(f));
    }
}

/// The queries without dependents are listed in the order of the graph.
pub proof fn leaves_are_listed_in_order(forward: Adjacency, reverse: Adjacency)
    ensures
        crate::debug::graph::leaves_of(forward, reverse) == forward.filter(
            |e: (Node, Seq<Node>)| !crate::debug::graph::has_dependents(reverse, e.0),
        ).map_values(|e: (Node, Seq<Node>)| e.0),
    decreases forward.len(),
{
    let p = |e: (Node, Seq<Node>)| !crate::debug::graph::has_dependents(reverse, e.0);
    let f = |e: (Node, Seq<Node>)| e.0;
    if forward.len() > 0 {
        let shorter = forward.drop_last();
        leaves_are_listed_in_order(shorter, reverse);
        assert(forward.filter(p) == if p(forward.last()) {
            shorter.filter(p).push(forward.last())
        } else {
            shorter.filter(p)
        }) by {
            reveal(Seq::filter);
        }
        assert(crate::debug::graph::leaves_of(forward, reverse) =~= forward.filter(p).map_values(f));
    } else {
        assert(forward.filter(p) =~= Seq::empty()) by {
            reveal(Seq::filter);
        }
        assert(crate::debug::graph::leaves_of(forward, reverse) =~= forward.filter(p).map_values(f));
    }
}

/// Vertices of different kinds, or with different hashes of their keys, are drawn as different ones.
pub proof fn drawn_vertices_are_told_apart(a: Node, b: Node)
    requires
        crate::debug::graph::dot_id(a) == crate::debug::graph::dot_id(b),
    ensures
        a.0 == b.0,
        crate::key::stable_hash_of(a.1) == crate::key::stable_hash_of(b.1),
{
    reveal_strlit("_");
    let (x, y) = (crate::text::decimal(a.0 as nat), crate::text::decimal(b.0 as nat));
    crate::text_laws::decimals_say_their_number(a.0 as nat);
    crate::text_laws::decimals_say_their_number(b.0 as nat);
    let text = crate::debug::graph::dot_id(a);
    let m = x.len() as int;
    let n = y.len() as int;
    assert(text[m] == '_');
    assert(crate::debug::graph::dot_id(b)[n] == '_');
    if m < n {
        assert(crate::debug::graph::dot_id(b)[m] == y[m]);
        assert('0' <= y[m] && y[m] <= '9');
    } else if n < m {
        assert(text[n] == x[n]);
        assert('0' <= x[n] && x[n] <= '9');
    }
    assert(x =~= text.take(m));
    assert(y =~= crate::debug::graph::dot_id(b).take(m));
    let p = crate::text::short_hex(crate::key::stable_hash_of(a.1) as nat);
    let q = crate::text::short_hex(crate::key::stable_hash_of(b.1) as nat);
    assert(p =~= text.skip(m + 1));
    assert(q =~= crate::debug::graph::dot_id(b).skip(m + 1));
    crate::text_laws::short_hexadecimals_say_their_number(
        crate::key::stable_hash_of(a.1) as nat,
    );
    crate::text_laws::short_hexadecimals_say_their_number(
        crate::key::stable_hash_of(b.1) as nat,
    );
}

/// The drawing of a graph has one line for each vertex, in order.
pub proof fn drawn_vertices_follow_each_other(a: Seq<Node>, b: Seq<Node>, node: Node)
    ensures
        crate::debug::graph::dot_nodes(a + b) == crate::debug::graph::dot_nodes(a)
            + crate::debug::graph::dot_nodes(b),
        crate::debug::graph::dot_nodes(seq![node]) == crate::debug::graph::dot_node(node),
        crate::debug::graph::dot_nodes(Seq::empty()).len() == 0,
    decreases b.len(),
{
    reveal_with_fuel(crate::debug::graph::dot_nodes, 2);
    assert(seq![node].drop_last() =~= Seq::empty());
    assert(crate::debug::graph::dot_nodes(seq![node]) =~= crate::debug::graph::dot_node(node));
    if b.len() == 0 {
        assert(a + b =~= a);
        assert(crate::debug::graph::dot_nodes(a) + crate::debug::graph::dot_nodes(b)
            =~= crate::debug::graph::dot_nodes(a));
    } else {
        drawn_vertices_follow_each_other(a, b.drop_last(), node);
        assert((a + b).drop_last() =~= a + b.drop_last());
        assert((a + b).last() == b.last());
        assert(crate::debug::graph::dot_nodes(a + b) =~= crate::debug::graph::dot_nodes(a)
            + crate::debug::graph::dot_nodes(b));
    }
}

/// The drawing of a query has one line for each of its dependencies, in order, with an arrow that
/// leads from the query to the dependency.
pub proof fn drawn_arrows_follow_each_other(from: Node, a: Seq<Node>, b: Seq<Node>, to: Node)
    ensures
        crate::debug::graph::dot_edges(from, a + b) == crate::debug::graph::dot_edges(from, a)
            + crate::debug::graph::dot_edges(from, b),
        crate::debug::graph::dot_edges(from, seq![to]) == "  "@ + crate::debug::graph::dot_id(from)
            + " -> "@ + crate::debug::graph::dot_id(to) + ";\n"@,
        crate::debug::graph::dot_edges(from, Seq::empty()).len() == 0,
    decreases b.len(),
{
    reveal_with_fuel(crate::debug::graph::dot_edges, 2);
    assert(seq![to].drop_last() =~= Seq::empty());
    assert(crate::debug::graph::dot_edges(from, seq![to]) =~= crate::debug::graph::dot_edge(from, to));
    if b.len() == 0 {
        assert(a + b =~= a);
        assert(crate::debug::graph::dot_edges(from, a) + crate::debug::graph::dot_edges(from, b)
            =~= crate::debug::graph::dot_edges(from, a));
    } else {
        drawn_arrows_follow_each_other(from, a, b.drop_last(), to);
        assert((a + b).drop_last() =~= a + b.drop_last());
        assert((a + b).last() == b.last());
        assert(crate::debug::graph::dot_edges(from, a + b) =~= crate::debug::graph::dot_edges(from, a)
            + crate::debug::graph::dot_edges(from, b));
    }
}

/// The arrows of a graph are those of its queries, in order.
pub proof fn arrows_of_all_queries_are_drawn(
    a: Adjacency,
    b: Adjacency,
    entry: (Node, Seq<Node>),
)
    ensures
        crate::debug::graph::all_edges(a + b) == crate::debug::graph::all_edges(a)
            + crate::debug::graph::all_edges(b),
        crate::debug::graph::all_edges(seq![entry]) == crate::debug::graph::dot_edges(
            entry.0,
            entry.1,
        ),
        crate::debug::graph::all_edges(Seq::empty()).len() == 0,
    decreases b.len(),
{
    reveal_with_fuel(crate::debug::graph::all_edges, 2);
    assert(seq![entry].drop_last() =~= Seq::empty());
    assert(crate::debug::graph::all_edges(seq![entry]) =~= crate::debug::graph::dot_edges(
        entry.0,
        entry.1,
    ));
    if b.len() == 0 {
        assert(a + b =~= a);
        assert(crate::debug::graph::all_edges(a) + crate::debug::graph::all_edges(b)
            =~= crate::debug::graph::all_edges(a));
    } else {
        arrows_of_all_queries_are_drawn(a, b.drop_last(), entry);
        assert((a + b).drop_last() =~= a + b.drop_last());
        assert((a + b).last() == b.last());
        assert(crate::debug::graph::all_edges(a + b) =~= crate::debug::graph::all_edges(a)
            + crate::debug::graph::all_edges(b));
    }
}

/// A drawing holds the lines for all vertices before those for all arrows.
pub proof fn drawings_hold_vertices_and_arrows(list: Adjacency)
    ensures
        ({
            let text = crate::debug::graph::dot_text(list);
            let nodes = crate::debug::graph::dot_nodes(crate::debug::graph::all_nodes(list));
            let edges = crate::debug::graph::all_edges(list);
            exists|at: int|
                {
                    &&& 0 <= at
                    &&& at + nodes.len() + 1 + edges.len() + 2 == text.len()
                    &&& (#[trigger] text.skip(at)).take(nodes.len() as int) == nodes
                    &&& text.skip(at).skip(nodes.len() as int + 1).take(edges.len() as int) == edges
                }
        }),
{
    let text = crate::debug::graph::dot_text(list);
    let nodes = crate::debug::graph::dot_nodes(crate::debug::graph::all_nodes(list));
    let edges = crate::debug::graph::all_edges(list);
    let head = "digraph dependencies {\n  rankdir=LR;\n  node [shape=box];\n\n"@;
    reveal_strlit("\n");
    reveal_strlit("}\n");
    let at = head.len() as int;
    assert(text.skip(at).take(nodes.len() as int) =~= nodes);
    assert(text.skip(at).skip(nodes.len() as int + 1).take(edges.len() as int) =~= edges);
}

/// How often a number occurs is how many of the items are that number.
pub proof fn occurrences_are_counted(items: Seq<u64>, k: u64)
    ensures
        crate::debug::tally::times(items, k) == items.filter(|n: u64| n == k).len(),
    decreases items.len(),
{
    reveal(Seq::filter);
    if items.len() > 0 {
        occurrences_are_counted(items.drop_last(), k);
    }
}

/// The arrows of a graph are counted query by query.
pub proof fn arrows_are_counted(a: Listing, b: Listing, entry: (DynKey, Arc<Vec<Dep>>))
    ensures
        crate::debug::stats::edge_count(a + b) == crate::debug::stats::edge_count(a)
            + crate::debug::stats::edge_count(b),
        crate::debug::stats::edge_count(seq![entry]) == entry.1@.len(),
        crate::debug::stats::edge_count(Seq::empty()) == 0,
    decreases b.len(),
{
    reveal_with_fuel(crate::debug::stats::edge_count, 2);
    assert(seq![entry].drop_last() =~= Seq::empty());
    if b.len() == 0 {
        assert(a + b =~= a);
    } else {
        arrows_are_counted(a, b.drop_last(), entry);
        assert((a + b).drop_last() =~= a + b.drop_last());
        assert((a + b).last() == b.last());
    }
}

/// How many queries of a list have so many dependencies.
pub open spec fn with_count(list: Listing, n: u64) -> nat {
    list.filter(|e: (DynKey, Arc<Vec<Dep>>)| e.1@.len() as u64 == n).len()
}

proof fn counts_are_of_queries(list: Listing, n: u64)
    ensures
        crate::debug::tally::times(crate::debug::stats::dep_counts(list), n) == with_count(list, n),
    decreases list.len(),
{
    let counts = crate::debug::stats::dep_counts(list);
    reveal(Seq::filter);
    if list.len() > 0 {
        counts_are_of_queries(list.drop_last(), n);
        assert(counts.drop_last() =~= crate::debug::stats::dep_counts(list.drop_last()));
        assert(counts.last() == list.last().1@.len() as u64);
    } else {
        assert(counts =~= Seq::empty());
    }
}

/// Statistics count what is in the graph: each query with recorded dependencies once, all arrows
/// between them, those without any dependency as roots, and for each number of dependencies the
/// queries that have so many.
pub proof fn statistics_count_the_graph(stats: CacheStats, deps: DepGraph, list: Listing)
    requires
        crate::debug::stats::describes(stats, deps, list),
    ensures
        stats.forward_deps_count == deps.forward().dom().len(),
        crate::debug::stats::edge_count(list) <= usize::MAX ==> stats.total_dependency_edges
            == crate::debug::stats::edge_count(list),
        stats.root_query_count == with_count(list, 0),
        forall|n: u64| #[trigger]
            stats.dep_count_histogram@.contains_key(n) <==> with_count(list, n) > 0,
        forall|n: u64| #[trigger]
            stats.dep_count_histogram@.contains_key(n) ==> stats.dep_count_histogram@[n]
                == with_count(list, n),
        forall|q: Node| #[trigger]
            deps.forward().contains_key(q) <==> exists|i: int|
                0 <= i < list.len() && (#[trigger] list[i]).0@ == q,
        forall|i: int|
            0 <= i < list.len() ==> deps.forward()[(#[trigger] list[i]).0@].len() == list[i].1@.len(),
{
    counts_are_of_queries(list, 0);
    assert forall|n: u64|
        (#[trigger] stats.dep_count_histogram@.contains_key(n) <==> with_count(list, n) > 0) && (
        stats.dep_count_histogram@.contains_key(n) ==> stats.dep_count_histogram@[n] == with_count(
            list,
            n,
        )) by {
        counts_are_of_queries(list, n);
    }
}

/// What is recorded of a notification says what the notification said: its revision, the kind and
/// the key's hash, and of an invalidation also those of the cause. Only a revision that was set
/// directly is not recorded.
pub proof fn recorded_events_say_the_same(event: RuntimeEvent, at: u64)
    ensures
        crate::debug::trace::traced(event, at) is None <==> event is RevisionSet,
        crate::debug::trace::traced(event, at) matches Some(recorded) ==> {
            &&& crate::debug::trace::timestamp_of(recorded) == at
            &&& match (event, recorded) {
                (
                    RuntimeEvent::RevisionBumped { revision },
                    TraceEvent::RevisionBumped { revision: r, timestamp },
                ) => r == revision && timestamp == at,
                (
                    RuntimeEvent::InputSet { revision, kind, key_hash, .. },
                    TraceEvent::InputSet { revision: r, kind: k, key_hash: h, timestamp },
                ) => r == revision && k == kind && h == key_hash && timestamp == at,
                (
                    RuntimeEvent::InputRemoved { revision, kind, key_hash, .. },
                    TraceEvent::InputRemoved { revision: r, kind: k, key_hash: h, timestamp },
                ) => r == revision && k == kind && h == key_hash && timestamp == at,
                (
                    RuntimeEvent::QueryInvalidated {
                        revision,
                        kind,
                        key_hash,
                        by_kind,
                        by_key_hash,
                        ..
                    },
                    TraceEvent::QueryInvalidated {
                        revision: r,
                        kind: k,
                        key_hash: h,
                        by_kind: bk,
                        by_key_hash: bh,
                        timestamp,
                    },
                ) => r == revision && k == kind && h == key_hash && bk == by_kind && bh
                    == by_key_hash && timestamp == at,
                (
                    RuntimeEvent::QueryChanged { revision, kind, key_hash, .. },
                    TraceEvent::QueryChanged { revision: r, kind: k, key_hash: h, timestamp },
                ) => r == revision && k == kind && h == key_hash && timestamp == at,
                _ => false,
            }
        },
{
}

/// Whether an event of a trace happened at a revision.
pub open spec fn is_at(event: TraceEvent, at: u64) -> bool {
    ||| event matches TraceEvent::RevisionBumped { revision, .. } && revision.0 == at
    ||| event matches TraceEvent::InputSet { revision, .. } && revision.0 == at
    ||| event matches TraceEvent::InputRemoved { revision, .. } && revision.0 == at
    ||| event matches TraceEvent::QueryInvalidated { revision, .. } && revision.0 == at
    ||| event matches TraceEvent::QueryChanged { revision, .. } && revision.0 == at
}

/// Whether an event of a trace happened at a time.
pub open spec fn was_seen_at(event: TraceEvent, at: u64) -> bool {
    ||| event matches TraceEvent::RevisionBumped { timestamp, .. } && timestamp == at
    ||| event matches TraceEvent::InputSet { timestamp, .. } && timestamp == at
    ||| event matches TraceEvent::InputRemoved { timestamp, .. } && timestamp == at
    ||| event matches TraceEvent::QueryInvalidated { timestamp, .. } && timestamp == at
    ||| event matches TraceEvent::QueryChanged { timestamp, .. } && timestamp == at
}

/// How many of the events of a trace are such as `p` says.
pub open spec fn how_many(trace: Seq<TraceEvent>, p: spec_fn(TraceEvent) -> bool) -> nat
    decreases trace.len(),
{
    if trace.len() == 0 {
        0
    } else {
        (if p(trace[0]) {
            1nat
        } else {
            0nat
        }) + how_many(trace.drop_first(), p)
    }
}

proof fn how_many_are_filtered(trace: Seq<TraceEvent>, p: spec_fn(TraceEvent) -> bool)
    ensures
        how_many(trace, p) == trace.filter(p).len(),
    decreases trace.len(),
{
    if trace.len() == 0 {
        assert(trace.filter(p).len() == 0) by {
            reveal(Seq::filter);
        }
    } else {
        how_many_are_filtered(trace.drop_first(), p);
        let first = seq![trace[0]];
        assert(trace =~= first + trace.drop_first());
        Seq::filter_distributes_over_add(first, trace.drop_first(), p);
        assert(first.filter(p).len() == if p(trace[0]) {
            1nat
        } else {
            0nat
        }) by {
            reveal_with_fuel(Seq::filter, 2);
            assert(first.drop_last() =~= Seq::empty());
        }
    }
}

proof fn revisions_are_tallied(trace: Seq<TraceEvent>, at: u64)
    ensures
        crate::debug::tally::times(crate::debug::trace::revisions_of(trace), at) == trace.filter(
            |e: TraceEvent| is_at(e, at),
        ).len(),
    decreases trace.len(),
{
    let revisions = crate::debug::trace::revisions_of(trace);
    reveal(Seq::filter);
    if trace.len() > 0 {
        revisions_are_tallied(trace.drop_last(), at);
        assert(revisions.drop_last() =~= crate::debug::trace::revisions_of(trace.drop_last()));
        assert(revisions.last() == crate::debug::trace::revision_of(trace.last()));
    } else {
        assert(revisions =~= Seq::empty());
    }
}

/// An analysis counts the events of a trace: all of them, those that set or remove an input, the
/// invalidations, the changes of queries, and those of each revision. It takes the time from the
/// first event to the last, or none where the last was seen before the first.
pub proof fn analyses_count_the_events(trace: Seq<TraceEvent>, analysis: TraceAnalysis)
    requires
        analysis.analyses(trace),
    ensures
        analysis.total_events == trace.len(),
        analysis.input_changes == how_many(
            trace,
            |e: TraceEvent| e is InputSet || e is InputRemoved,
        ),
        analysis.invalidations == how_many(trace, |e: TraceEvent| e is QueryInvalidated),
        analysis.recomputations == how_many(trace, |e: TraceEvent| e is QueryChanged),
        forall|at: u64| #[trigger]
            analysis.events_by_revision@.contains_key(at) <==> how_many(
                trace,
                |e: TraceEvent| is_at(e, at),
            ) > 0,
        forall|at: u64| #[trigger]
            analysis.events_by_revision@.contains_key(at) ==> analysis.events_by_revision@[at]
                == how_many(trace, |e: TraceEvent| is_at(e, at)),
        trace.len() == 0 ==> analysis.duration == 0,
        forall|start: u64, end: u64|
            trace.len() > 0 && #[trigger] was_seen_at(trace[0], start) && #[trigger] was_seen_at(
                trace[trace.len() - 1],
                end,
            ) ==> analysis.duration == (if end >= start {
                end - start
            } else {
                0
            }),
{
    how_many_are_filtered(trace, |e: TraceEvent| e is InputSet || e is InputRemoved);
    how_many_are_filtered(trace, |e: TraceEvent| e is QueryInvalidated);
    how_many_are_filtered(trace, |e: TraceEvent| e is QueryChanged);
    assert forall|at: u64|
        (#[trigger] analysis.events_by_revision@.contains_key(at) <==> how_many(
            trace,
            |e: TraceEvent| is_at(e, at),
        ) > 0) && (analysis.events_by_revision@.contains_key(at)
            ==> analysis.events_by_revision@[at] == how_many(
            trace,
            |e: TraceEvent| is_at(e, at),
        )) by {
        how_many_are_filtered(trace, |e: TraceEvent| is_at(e, at));
        revisions_are_tallied(trace, at);
    }
}

/// A number between two texts.
pub open spec fn between(start: Seq<char>, n: nat, rest: Seq<char>) -> Seq<char> {
    start + (crate::text::decimal(n) + rest)
}

proof fn numbers_between_are_told_apart(start: Seq<char>, m: nat, n: nat, x: Seq<char>, y: Seq<char>)
    requires
        between(start, m, x) == between(start, n, y),
        crate::text_laws::starts_with_no_digit(x),
        crate::text_laws::starts_with_no_digit(y),
    ensures
        m == n,
        x == y,
{
    crate::text_laws::same_beginning(
        start,
        crate::text::decimal(m) + x,
        crate::text::decimal(n) + y,
    );
    crate::text_laws::numbers_in_texts_are_told_apart(m, n, x, y);
}

/// Four numbers in a text, each behind another piece of it.
pub open spec fn in_a_row(
    pieces: (Seq<char>, Seq<char>, Seq<char>, Seq<char>),
    numbers: (nat, nat, nat, nat),
    rest: Seq<char>,
) -> Seq<char> {
    pieces.0 + crate::text::decimal(numbers.0) + pieces.1 + crate::text::decimal(numbers.1)
        + pieces.2 + crate::text::decimal(numbers.2) + pieces.3 + crate::text::decimal(numbers.3)
        + rest
}

proof fn rest_is_folded(x: Seq<char>, piece: Seq<char>, n: nat, rest: Seq<char>)
    ensures
        x + piece + crate::text::decimal(n) + rest == x + between(piece, n, rest),
{
    assert(x + piece + crate::text::decimal(n) + rest =~= x + between(piece, n, rest));
}

proof fn row_is_folded(
    pieces: (Seq<char>, Seq<char>, Seq<char>, Seq<char>),
    numbers: (nat, nat, nat, nat),
    rest: Seq<char>,
)
    ensures
        in_a_row(pieces, numbers, rest) == between(
            pieces.0,
            numbers.0,
            between(
                pieces.1,
                numbers.1,
                between(pieces.2, numbers.2, between(pieces.3, numbers.3, rest)),
            ),
        ),
{
    let d0 = crate::text::decimal(numbers.0);
    let d1 = crate::text::decimal(numbers.1);
    let d2 = crate::text::decimal(numbers.2);
    let x1 = pieces.0 + d0;
    let x2 = x1 + pieces.1 + d1;
    let x3 = x2 + pieces.2 + d2;
    let r3 = between(pieces.3, numbers.3, rest);
    let r2 = between(pieces.2, numbers.2, r3);
    let r1 = between(pieces.1, numbers.1, r2);
    rest_is_folded(x3, pieces.3, numbers.3, rest);
    rest_is_folded(x2, pieces.2, numbers.2, r3);
    rest_is_folded(x1, pieces.1, numbers.1, r2);
    assert(x1 + r1 =~= between(pieces.0, numbers.0, r1));
}

proof fn pieces_start_alike(piece: Seq<char>, n: nat, rest: Seq<char>)
    requires
        crate::text_laws::starts_with_no_digit(piece),
    ensures
        crate::text_laws::starts_with_no_digit(between(piece, n, rest)),
{
    assert(between(piece, n, rest)[0] == piece[0]);
}

proof fn numbers_in_a_row_are_told_apart(
    pieces: (Seq<char>, Seq<char>, Seq<char>, Seq<char>),
    m: (nat, nat, nat, nat),
    n: (nat, nat, nat, nat),
    x: Seq<char>,
    y: Seq<char>,
)
    requires
        in_a_row(pieces, m, x) == in_a_row(pieces, n, y),
        crate::text_laws::starts_with_no_digit(pieces.1),
        crate::text_laws::starts_with_no_digit(pieces.2),
        crate::text_laws::starts_with_no_digit(pieces.3),
        crate::text_laws::starts_with_no_digit(x),
        crate::text_laws::starts_with_no_digit(y),
    ensures
        m == n,
{
    row_is_folded(pieces, m, x);
    row_is_folded(pieces, n, y);
    let (a3, b3) = (between(pieces.3, m.3, x), between(pieces.3, n.3, y));
    let (a2, b2) = (between(pieces.2, m.2, a3), between(pieces.2, n.2, b3));
    let (a1, b1) = (between(pieces.1, m.1, a2), between(pieces.1, n.1, b2));
    pieces_start_alike(pieces.3, m.3, x);
    pieces_start_alike(pieces.3, n.3, y);
    pieces_start_alike(pieces.2, m.2, a3);
    pieces_start_alike(pieces.2, n.2, b3);
    pieces_start_alike(pieces.1, m.1, a2);
    pieces_start_alike(pieces.1, n.1, b2);
    numbers_between_are_told_apart(pieces.0, m.0, n.0, a1, b1);
    numbers_between_are_told_apart(pieces.1, m.1, n.1, a2, b2);
    numbers_between_are_told_apart(pieces.2, m.2, n.2, a3, b3);
    numbers_between_are_told_apart(pieces.3, m.3, n.3, x, y);
}

proof fn rest_goes_behind(text: Seq<char>, end: Seq<char>, more: Seq<char>, most: Seq<char>)
    ensures
        (text + end) + more + most == text + (end + more + most),
        text + end == text + (end + Seq::empty()),
{
    assert((text + end) + more + most =~= text + (end + more + most));
    assert(end + Seq::<char>::empty() =~= end);
}

/// The text of statistics tells all their numbers: two are shown alike only if they are the same.
pub proof fn statistics_tell_their_numbers(
    a: CacheStats,
    b: CacheStats,
    counts_a: Seq<u64>,
    counts_b: Seq<u64>,
)
    requires
        crate::debug::stats::stats_text(a, counts_a) == crate::debug::stats::stats_text(b, counts_b),
    ensures
        a.forward_deps_count == b.forward_deps_count,
        a.reverse_deps_count == b.reverse_deps_count,
        a.total_dependency_edges == b.total_dependency_edges,
        a.root_query_count == b.root_query_count,
{
    let x = statistics_are_a_row(a, counts_a);
    let y = statistics_are_a_row(b, counts_b);
    assert(crate::text_laws::starts_with_no_digit("\n  Reverse deps: "@)
        && crate::text_laws::starts_with_no_digit("\n  Total edges: "@)
        && crate::text_laws::starts_with_no_digit("\n  Root queries: "@)) by {
        reveal_strlit("\n  Reverse deps: ");
        reveal_strlit("\n  Total edges: ");
        reveal_strlit("\n  Root queries: ");
    }
    numbers_in_a_row_are_told_apart(
        (
            "Cache Statistics:\n  Forward deps: "@,
            "\n  Reverse deps: "@,
            "\n  Total edges: "@,
            "\n  Root queries: "@,
        ),
        (
            a.forward_deps_count as nat,
            a.reverse_deps_count as nat,
            a.total_dependency_edges as nat,
            a.root_query_count as nat,
        ),
        (
            b.forward_deps_count as nat,
            b.reverse_deps_count as nat,
            b.total_dependency_edges as nat,
            b.root_query_count as nat,
        ),
        x,
        y,
    );
}

proof fn statistics_are_a_row(stats: CacheStats, counts: Seq<u64>) -> (rest: Seq<char>)
    ensures
        crate::debug::stats::stats_text(stats, counts) == in_a_row(
            (
                "Cache Statistics:\n  Forward deps: "@,
                "\n  Reverse deps: "@,
                "\n  Total edges: "@,
                "\n  Root queries: "@,
            ),
            (
                stats.forward_deps_count as nat,
                stats.reverse_deps_count as nat,
                stats.total_dependency_edges as nat,
                stats.root_query_count as nat,
            ),
            rest,
        ),
        crate::text_laws::starts_with_no_digit(rest),
{
    let text = "Cache Statistics:\n  Forward deps: "@ + crate::text::decimal(
        stats.forward_deps_count as nat,
    ) + "\n  Reverse deps: "@ + crate::text::decimal(stats.reverse_deps_count as nat)
        + "\n  Total edges: "@ + crate::text::decimal(stats.total_dependency_edges as nat)
        + "\n  Root queries: "@ + crate::text::decimal(stats.root_query_count as nat);
    let more = "\n  Dependency count distribution:\n"@;
    let lines = crate::debug::stats::histogram_lines(stats.dep_count_histogram@, counts);
    rest_goes_behind(text, "\n"@, more, lines);
    assert("\n"@.len() == 1 && "\n"@[0] == '\n') by {
        reveal_strlit("\n");
    }
    let rest = if counts.len() == 0 {
        "\n"@
    } else {
        "\n"@ + more + lines
    };
    assert(rest[0] == '\n');
    rest
}

/// The text of an analysis tells its numbers: two are shown alike only if their counts are the same.
pub proof fn analyses_tell_their_numbers(
    a: TraceAnalysis,
    b: TraceAnalysis,
    revisions_a: Seq<u64>,
    revisions_b: Seq<u64>,
)
    requires
        crate::debug::trace::analysis_text(a, revisions_a) == crate::debug::trace::analysis_text(
            b,
            revisions_b,
        ),
    ensures
        a.total_events == b.total_events,
        a.input_changes == b.input_changes,
        a.invalidations == b.invalidations,
        a.recomputations == b.recomputations,
{
    let x = analysis_is_a_row(a, revisions_a);
    let y = analysis_is_a_row(b, revisions_b);
    assert(crate::text_laws::starts_with_no_digit("\n  Input changes: "@)
        && crate::text_laws::starts_with_no_digit("\n  Invalidations: "@)
        && crate::text_laws::starts_with_no_digit("\n  Recomputations: "@)) by {
        reveal_strlit("\n  Input changes: ");
        reveal_strlit("\n  Invalidations: ");
        reveal_strlit("\n  Recomputations: ");
    }
    numbers_in_a_row_are_told_apart(
        (
            "Trace Analysis:\n  Total events: "@,
            "\n  Input changes: "@,
            "\n  Invalidations: "@,
            "\n  Recomputations: "@,
        ),
        (
            a.total_events as nat,
            a.input_changes as nat,
            a.invalidations as nat,
            a.recomputations as nat,
        ),
        (
            b.total_events as nat,
            b.input_changes as nat,
            b.invalidations as nat,
            b.recomputations as nat,
        ),
        x,
        y,
    );
}

proof fn analysis_is_a_row(analysis: TraceAnalysis, revisions: Seq<u64>) -> (rest: Seq<char>)
    ensures
        crate::debug::trace::analysis_text(analysis, revisions) == in_a_row(
            (
                "Trace Analysis:\n  Total events: "@,
                "\n  Input changes: "@,
                "\n  Invalidations: "@,
                "\n  Recomputations: "@,
            ),
            (
                analysis.total_events as nat,
                analysis.input_changes as nat,
                analysis.invalidations as nat,
                analysis.recomputations as nat,
            ),
            rest,
        ),
        crate::text_laws::starts_with_no_digit(rest),
{
    let text = "Trace Analysis:\n  Total events: "@ + crate::text::decimal(
        analysis.total_events as nat,
    ) + "\n  Input changes: "@ + crate::text::decimal(analysis.input_changes as nat)
        + "\n  Invalidations: "@ + crate::text::decimal(analysis.invalidations as nat)
        + "\n  Recomputations: "@ + crate::text::decimal(analysis.recomputations as nat);
    let duration = crate::debug::trace::duration_text(analysis.duration);
    let more = "\n  Events by revision:\n"@;
    let lines = crate::debug::trace::revision_lines(analysis.events_by_revision@, revisions);
    let end = "\n  Duration: "@ + duration + "\n"@;
    rest_goes_behind(text, "\n  Duration: "@, duration, "\n"@);
    rest_goes_behind(text, end, more, lines);
    assert("\n  Duration: "@.len() > 0 && "\n  Duration: "@[0] == '\n') by {
        reveal_strlit("\n  Duration: ");
    }
    let rest = if revisions.len() == 0 {
        end
    } else {
        end + more + lines
    };
    assert(rest[0] == '\n');
    rest
}

/// Each line of a histogram and of an analysis tells both its numbers.
pub proof fn lines_tell_their_numbers(a: u64, b: u64, m: usize, n: usize)
    ensures
        crate::debug::stats::histogram_line(a, m) == crate::debug::stats::histogram_line(b, n)
            ==> a == b && m == n,
        crate::debug::trace::revision_line(a, m) == crate::debug::trace::revision_line(b, n) ==> a
            == b && m == n,
{
    reveal_strlit(" deps: ");
    reveal_strlit(" queries\n");
    reveal_strlit(": ");
    reveal_strlit(" events\n");
    if crate::debug::stats::histogram_line(a, m) == crate::debug::stats::histogram_line(b, n) {
        let x = between(" deps: "@, m as nat, " queries\n"@);
        let y = between(" deps: "@, n as nat, " queries\n"@);
        assert(crate::debug::stats::histogram_line(a, m) =~= between("    "@, a as nat, x));
        assert(crate::debug::stats::histogram_line(b, n) =~= between("    "@, b as nat, y));
        assert(x[0] == ' ' && y[0] == ' ');
        numbers_between_are_told_apart("    "@, a as nat, b as nat, x, y);
        numbers_between_are_told_apart(
            " deps: "@,
            m as nat,
            n as nat,
            " queries\n"@,
            " queries\n"@,
        );
    }
    if crate::debug::trace::revision_line(a, m) == crate::debug::trace::revision_line(b, n) {
        let x = between(": "@, m as nat, " events\n"@);
        let y = between(": "@, n as nat, " events\n"@);
        assert(crate::debug::trace::revision_line(a, m) =~= between("    r"@, a as nat, x));
        assert(crate::debug::trace::revision_line(b, n) =~= between("    r"@, b as nat, y));
        assert(x[0] == ':' && y[0] == ':');
        numbers_between_are_told_apart("    r"@, a as nat, b as nat, x, y);
        numbers_between_are_told_apart(": "@, m as nat, n as nat, " events\n"@, " events\n"@);
    }
}

/// A captured graph is the runtime's: it has each query that has run once, with what it read, in
/// order, and no other.
pub proof fn captured_graphs_are_the_runtimes(deps: DepGraph, list: Adjacency, query: Node)
    requires
        crate::debug::graph::lists_forward(deps, list),
    ensures
        deps.forward().contains_key(query) <==> exists|i: int|
            0 <= i < list.len() && (#[trigger] list[i]).0 == query,
        forall|i: int|
            0 <= i < list.len() && (#[trigger] list[i]).0 == query ==> deps.forward()[query]
                == list[i].1,
        forall|i: int, j: int|
            0 <= i < list.len() && 0 <= j < list.len() && (#[trigger] list[i]).0 == query && (
            #[trigger] list[j]).0 == query ==> i == j,
{
    assert forall|i: int, j: int|
        0 <= i < list.len() && 0 <= j < list.len() && (#[trigger] list[i]).0 == query && (
        #[trigger] list[j]).0 == query implies i == j by {
        if i < j {
            assert(list[i].0 != list[j].0);
        } else if j < i {
            assert(list[j].0 != list[i].0);
        }
    }
}

/// The lines of a histogram follow each other, one for each number of dependencies.
pub proof fn histograms_have_a_line_each(
    histogram: Map<u64, usize>,
    a: Seq<u64>,
    b: Seq<u64>,
    n: u64,
)
    ensures
        crate::debug::stats::histogram_lines(histogram, a + b)
            == crate::debug::stats::histogram_lines(histogram, a)
            + crate::debug::stats::histogram_lines(histogram, b),
        crate::debug::stats::histogram_lines(histogram, seq![n])
            == crate::debug::stats::histogram_line(n, histogram[n]),
        crate::debug::stats::histogram_lines(histogram, Seq::empty()).len() == 0,
    decreases b.len(),
{
    reveal_with_fuel(crate::debug::stats::histogram_lines, 2);
    assert(seq![n].drop_last() =~= Seq::empty());
    assert(crate::debug::stats::histogram_lines(histogram, seq![n])
        =~= crate::debug::stats::histogram_line(n, histogram[n]));
    if b.len() == 0 {
        assert(a + b =~= a);
        assert(crate::debug::stats::histogram_lines(histogram, a)
            + crate::debug::stats::histogram_lines(histogram, b)
            =~= crate::debug::stats::histogram_lines(histogram, a));
    } else {
        histograms_have_a_line_each(histogram, a, b.drop_last(), n);
        assert((a + b).drop_last() =~= a + b.drop_last());
        assert((a + b).last() == b.last());
        assert(crate::debug::stats::histogram_lines(histogram, a + b)
            =~= crate::debug::stats::histogram_lines(histogram, a)
            + crate::debug::stats::histogram_lines(histogram, b));
    }
}

/// The lines of an analysis follow each other, one for each revision.
pub proof fn analyses_have_a_line_each(
    counts: Map<u64, usize>,
    a: Seq<u64>,
    b: Seq<u64>,
    n: u64,
)
    ensures
        crate::debug::trace::revision_lines(counts, a + b) == crate::debug::trace::revision_lines(
            counts,
            a,
        ) + crate::debug::trace::revision_lines(counts, b),
        crate::debug::trace::revision_lines(counts, seq![n]) == crate::debug::trace::revision_line(
            n,
            counts[n],
        ),
        crate::debug::trace::revision_lines(counts, Seq::empty()).len() == 0,
    decreases b.len(),
{
    reveal_with_fuel(crate::debug::trace::revision_lines, 2);
    assert(seq![n].drop_last() =~= Seq::empty());
    assert(crate::debug::trace::revision_lines(counts, seq![n])
        =~= crate::debug::trace::revision_line(n, counts[n]));
    if b.len() == 0 {
        assert(a + b =~= a);
        assert(crate::debug::trace::revision_lines(counts, a)
            + crate::debug::trace::revision_lines(counts, b)
            =~= crate::debug::trace::revision_lines(counts, a));
    } else {
        analyses_have_a_line_each(counts, a, b.drop_last(), n);
        assert((a + b).drop_last() =~= a + b.drop_last());
        assert((a + b).last() == b.last());
        assert(crate::debug::trace::revision_lines(counts, a + b)
            =~= crate::debug::trace::revision_lines(counts, a)
            + crate::debug::trace::revision_lines(counts, b));
    }
}

} // verus!
