//! Graphs, statistics and traces.
use picante::debug::{CacheStats, DependencyGraph, TraceAnalysis, TraceCollector, TraceEvent};
use picante::{Dep, DynKey, Key, QueryKindId, Revision, Runtime, RuntimeEvent, RuntimeId};
use std::sync::Arc;

fn node(kind: u32, bytes: &[u8]) -> DynKey {
    DynKey { kind: QueryKindId(kind), key: Key::from_bytes(bytes.to_vec()) }
}

fn deps(list: &[DynKey]) -> Arc<Vec<Dep>> {
    Arc::new(list.iter().map(|k| k.to_dep()).collect())
}

/// Input `a` is read by `x` and `y`, which are both read by `z`; `r` reads nothing.
fn diamond() -> Runtime {
    let mut runtime = Runtime::new(RuntimeId(1));
    runtime.update_query_deps(&node(2, b"x"), deps(&[node(1, b"a")]));
    runtime.update_query_deps(&node(2, b"y"), deps(&[node(1, b"a")]));
    runtime.update_query_deps(&node(3, b"z"), deps(&[node(2, b"x"), node(2, b"y")]));
    runtime.update_query_deps(&node(4, b"r"), deps(&[]));
    runtime
}

#[test]
fn test_dependency_graph_empty() {
    let runtime = Runtime::new(RuntimeId(1));
    let graph = DependencyGraph::from_runtime(&runtime);

    assert_eq!(graph.forward_deps.len(), 0);
    assert_eq!(graph.reverse_deps.len(), 0);
}

#[test]
fn test_cache_stats_empty() {
    let runtime = Runtime::new(RuntimeId(1));
    let stats = CacheStats::collect(&runtime);

    assert_eq!(stats.forward_deps_count, 0);
    assert_eq!(stats.reverse_deps_count, 0);
    assert_eq!(stats.total_dependency_edges, 0);
    assert_eq!(stats.root_query_count, 0);
}

#[test]
fn test_stats_format() {
    let runtime = Runtime::new(RuntimeId(1));
    let stats = CacheStats::collect(&runtime);
    let formatted = stats.format();

    assert!(formatted.contains("Cache Statistics"));
    assert!(formatted.contains("Forward deps: 0"));
}

#[test]
fn test_trace_analysis_empty() {
    let trace: Vec<TraceEvent> = vec![];
    let analysis = TraceAnalysis::from_trace(&trace);

    assert_eq!(analysis.total_events, 0);
    assert_eq!(analysis.input_changes, 0);
    assert_eq!(analysis.invalidations, 0);
    assert_eq!(analysis.recomputations, 0);
}

#[test]
fn roots_and_leaves_are_found() {
    let graph = DependencyGraph::from_runtime(&diamond());
    assert_eq!(graph.forward_deps.len(), 4);
    assert_eq!(graph.reverse_deps.len(), 3);
    let roots = graph.root_queries();
    assert_eq!(roots.len(), 1);
    assert!(roots[0] == node(4, b"r"));
    let leaves = graph.leaf_queries();
    assert_eq!(leaves.len(), 2);
    assert!(leaves.contains(&node(3, b"z")));
    assert!(leaves.contains(&node(4, b"r")));
}

#[test]
fn all_paths_are_found() {
    let graph = DependencyGraph::from_runtime(&diamond());
    let paths = graph.find_paths(&node(3, b"z"), &node(1, b"a"));
    assert_eq!(paths.len(), 2);
    assert!(paths[0] == vec![node(2, b"x").to_dep(), node(1, b"a").to_dep()]);
    assert!(paths[1] == vec![node(2, b"y").to_dep(), node(1, b"a").to_dep()]);
    assert!(graph.find_paths(&node(1, b"a"), &node(3, b"z")).is_empty());
    let own = graph.find_paths(&node(3, b"z"), &node(3, b"z"));
    assert_eq!(own.len(), 1);
    assert!(own[0].is_empty());
}

#[test]
fn a_dependency_that_is_listed_twice_yields_a_path_twice() {
    let mut runtime = Runtime::new(RuntimeId(1));
    runtime.update_query_deps(&node(2, b"x"), deps(&[node(1, b"a"), node(1, b"a")]));
    let graph = DependencyGraph::from_runtime(&runtime);
    assert_eq!(graph.find_paths(&node(2, b"x"), &node(1, b"a")).len(), 2);
}

#[test]
fn the_last_update_of_a_query_counts() {
    let mut runtime = diamond();
    runtime.update_query_deps(&node(2, b"x"), deps(&[node(1, b"b"), node(1, b"c")]));
    runtime.update_query_deps(&node(2, b"x"), deps(&[node(1, b"c")]));
    let graph = DependencyGraph::from_runtime(&runtime);
    assert_eq!(graph.find_paths(&node(2, b"x"), &node(1, b"c")).len(), 1);
    assert!(graph.find_paths(&node(2, b"x"), &node(1, b"a")).is_empty());
    assert!(graph.find_paths(&node(2, b"x"), &node(1, b"b")).is_empty());
    // Other queries keep what they read.
    assert_eq!(graph.find_paths(&node(2, b"y"), &node(1, b"a")).len(), 1);
    let readers: Vec<bool> = graph
        .reverse_deps
        .iter()
        .filter(|(dep, _)| *dep == node(1, b"b"))
        .map(|(_, queries)| queries.is_empty())
        .collect();
    assert!(readers.iter().all(|empty| *empty));
}

#[test]
fn cyclic_graphs_have_finitely_many_paths() {
    let mut runtime = Runtime::new(RuntimeId(1));
    runtime.update_query_deps(&node(1, b"p"), deps(&[node(1, b"q")]));
    runtime.update_query_deps(&node(1, b"q"), deps(&[node(1, b"p"), node(1, b"s")]));
    let graph = DependencyGraph::from_runtime(&runtime);
    assert_eq!(graph.find_paths(&node(1, b"p"), &node(1, b"s")).len(), 1);
}

#[test]
fn a_path_that_is_too_long_is_not_followed() {
    let mut runtime = Runtime::new(RuntimeId(1));
    let at = |n: u32| DynKey { kind: QueryKindId(n), key: Key::from_bytes(vec![]) };
    for n in 0..1000 {
        runtime.update_query_deps(&at(n), deps(&[at(n + 1)]));
    }
    let graph = DependencyGraph::from_runtime(&runtime);
    assert_eq!(graph.find_paths(&at(0), &at(999)).len(), 1);
    assert_eq!(graph.find_paths(&at(0), &at(1000)).len(), 0);
    assert_eq!(graph.find_paths(&at(1), &at(1000)).len(), 1);
}

#[test]
fn the_graph_is_written_in_dot_format() {
    let mut runtime = Runtime::new(RuntimeId(1));
    runtime.update_query_deps(&node(2, b"x"), deps(&[node(1, b"a")]));
    let mut out = String::new();
    DependencyGraph::from_runtime(&runtime).write_dot_to(&mut out);
    let x = format!("{:x}", node(2, b"x").key.hash());
    let a = format!("{:x}", node(1, b"a").key.hash());
    assert_eq!(
        out,
        format!(
            "digraph dependencies {{\n  rankdir=LR;\n  node [shape=box];\n\n  2_{x} [label=\"kind_2\\nkey_{x}\"];\n  1_{a} [label=\"kind_1\\nkey_{a}\"];\n\n  2_{x} -> 1_{a};\n}}\n"
        )
    );
}

#[test]
fn statistics_count_the_graph() {
    let stats = CacheStats::collect(&diamond());
    assert_eq!(stats.forward_deps_count, 4);
    assert_eq!(stats.reverse_deps_count, 3);
    assert_eq!(stats.total_dependency_edges, 4);
    assert_eq!(stats.root_query_count, 1);
    assert_eq!(stats.dep_count_histogram.len(), 3);
    assert_eq!(stats.dep_count_histogram[&1], 2);
    assert_eq!(
        stats.format(),
        "Cache Statistics:\n  Forward deps: 4\n  Reverse deps: 3\n  Total edges: 4\n  Root queries: 1\n\n  Dependency count distribution:\n    0 deps: 1 queries\n    1 deps: 2 queries\n    2 deps: 1 queries\n"
    );
}

#[test]
fn a_trace_is_recorded_and_analysed() {
    let mut runtime = diamond();
    let revision = runtime.bump_revision();
    runtime.notify_input_set(revision, QueryKindId(1), Key::from_bytes(b"a".to_vec()));
    runtime.notify_query_changed(revision, &node(2, b"x"));
    runtime.set_current_revision(Revision(9));
    let later = runtime.bump_revision();
    runtime.notify_input_removed(later, QueryKindId(1), Key::from_bytes(b"a".to_vec()));

    let mut collector = TraceCollector::start();
    let mut at = 1_000;
    for event in runtime.take_events() {
        collector.record(&event, at);
        at += 500;
    }
    // A revision that was set is not recorded.
    collector.record(&RuntimeEvent::RevisionSet { revision: Revision(3) }, at);
    let trace = collector.snapshot();
    let kept = collector.stop();
    assert_eq!(trace.len(), kept.len());

    let analysis = TraceAnalysis::from_trace(&trace);
    assert_eq!(analysis.total_events, trace.len());
    assert_eq!(analysis.input_changes, 2);
    assert_eq!(analysis.invalidations, 6);
    assert_eq!(analysis.recomputations, 1);
    assert_eq!(analysis.events_by_revision.len(), 2);
    assert_eq!(analysis.events_by_revision[&1], 6);
    assert_eq!(analysis.events_by_revision[&10], 5);
    assert_eq!(analysis.duration, 5_500);
    assert_eq!(
        analysis.format(),
        "Trace Analysis:\n  Total events: 11\n  Input changes: 2\n  Invalidations: 6\n  Recomputations: 1\n  Duration: 5.5\u{b5}s\n\n  Events by revision:\n    r1: 6 events\n    r10: 5 events\n"
    );
}
