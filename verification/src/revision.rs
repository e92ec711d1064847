//! Revision counters used for global invalidation.
use vstd::prelude::*;

verus! {

/// A monotonically increasing revision counter.
#[derive(Copy, Clone, Eq, PartialEq, Ord, PartialOrd, Hash, Debug, Structural)]
pub struct Revision(pub u64);

} // verus!
