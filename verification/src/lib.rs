//! An incremental query runtime whose state machines are verified.
//!
//! Inputs, interned values and derived queries are addressed by encoded keys.
//! A runtime keeps the revision counter and the dependency graph; derived cells
//! memoise results and are revalidated against the revisions at which their
//! dependencies last changed. Caches are persisted as snapshots with a
//! write-ahead log beside them, and what the attribute macros generate is
//! planned here too.
//!
//! The library does no input or output and starts no tasks. Where a step has to
//! wait, to run a query or to touch a dependency, the caller is told so and
//! reports back what came of it.

pub mod debug;
pub mod error;
pub mod event_laws;
pub mod format_laws;
pub mod frame;
pub mod graph;
pub mod index;
pub mod identity_laws;
pub mod inflight;
pub mod ingredient;
pub mod key;
pub mod macros;
pub mod order;
pub mod persist;
pub mod postcard;
pub mod revision;
pub mod runtime;
pub mod share;
pub mod sharing_laws;
pub mod table;
pub mod text;
pub mod text_laws;
pub mod wal;
pub mod wal_laws;

pub use crate::error::{PicanteError, PicanteResult};
pub use crate::ingredient::{InputIngredient, InternId, InternedIngredient};
pub use crate::key::{Dep, DynKey, Key, QueryKindId};
pub use crate::revision::Revision;
pub use crate::runtime::{Runtime, RuntimeEvent, RuntimeId};
