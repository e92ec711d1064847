//! Debugging and observability tools.
//!
//! - Dependency graph visualization: export the dependency graph in Graphviz DOT format.
//! - Cache statistics: the size and shape of the recorded dependencies.
//! - Tracing: record what happened in a runtime, with timestamps, and analyse it.
pub mod graph;
pub mod paths;
pub mod report_laws;
pub mod stats;
pub mod tally;
pub mod trace;

pub use crate::debug::graph::DependencyGraph;
pub use crate::debug::stats::CacheStats;
pub use crate::debug::trace::{TraceAnalysis, TraceCollector, TraceEvent};
