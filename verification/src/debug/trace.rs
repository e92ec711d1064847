//! Recording what happens in a runtime, and analysing the record.
use crate::debug::tally::{count_one, sorted_keys};
use crate::key::QueryKindId;
use crate::revision::Revision;
use crate::runtime::RuntimeEvent;
use crate::text::push_decimal;
use std::collections::HashMap;
use vstd::prelude::*;

verus! {

/// A recorded event. Timestamps are in nanoseconds from a point that a trace has in common.
#[derive(Debug, Copy, Clone)]
pub enum TraceEvent {
    /// A revision was bumped.
    RevisionBumped {
        /// The new revision.
        revision: Revision,
        /// When this occurred.
        timestamp: u64,
    },
    /// An input was set.
    InputSet {
        /// Revision when set.
        revision: Revision,
        /// Query kind.
        kind: QueryKindId,
        /// Key hash.
        key_hash: u64,
        /// When this occurred.
        timestamp: u64,
    },
    /// An input was removed.
    InputRemoved {
        /// Revision when removed.
        revision: Revision,
        /// Query kind.
        kind: QueryKindId,
        /// Key hash.
        key_hash: u64,
        /// When this occurred.
        timestamp: u64,
    },
    /// A query was invalidated.
    QueryInvalidated {
        /// Revision when invalidated.
        revision: Revision,
        /// Query kind.
        kind: QueryKindId,
        /// Key hash.
        key_hash: u64,
        /// Invalidated by this kind.
        by_kind: QueryKindId,
        /// Invalidated by this key hash.
        by_key_hash: u64,
        /// When this occurred.
        timestamp: u64,
    },
    /// A query output changed.
    QueryChanged {
        /// Revision when changed.
        revision: Revision,
        /// Query kind.
        kind: QueryKindId,
        /// Key hash.
        key_hash: u64,
        /// When this occurred.
        timestamp: u64,
    },
}

/// What is recorded of an event. A revision that was set directly is not recorded, as that goes
/// with the load of a cache.
pub open spec fn traced(event: RuntimeEvent, timestamp: u64) -> Option<TraceEvent> {
    match event {
        RuntimeEvent::RevisionBumped { revision } => Some(
            TraceEvent::RevisionBumped { revision, timestamp },
        ),
        RuntimeEvent::RevisionSet { revision: _ } => None,
        RuntimeEvent::InputSet { revision, kind, key_hash, key: _ } => Some(
            TraceEvent::InputSet { revision, kind, key_hash, timestamp },
        ),
        RuntimeEvent::InputRemoved { revision, kind, key_hash, key: _ } => Some(
            TraceEvent::InputRemoved { revision, kind, key_hash, timestamp },
        ),
        RuntimeEvent::QueryInvalidated {
            revision,
            kind,
            key_hash,
            key: _,
            by_kind,
            by_key_hash,
            by_key: _,
        } => Some(
            TraceEvent::QueryInvalidated {
                revision,
                kind,
                key_hash,
                by_kind,
                by_key_hash,
                timestamp,
            },
        ),
        RuntimeEvent::QueryChanged { revision, kind, key_hash, key: _ } => Some(
            TraceEvent::QueryChanged { revision, kind, key_hash, timestamp },
        ),
    }
}

/// A collector that records runtime events for analysis.
#[derive(Debug)]
pub struct TraceCollector {
    events: Vec<TraceEvent>,
}

impl TraceCollector {
    /// What was recorded.
    pub closed spec fn recorded(&self) -> Seq<TraceEvent> {
        self.events@
    }

    /// Start collecting.
    pub fn start() -> (r: Self)
        ensures
            r.recorded() == Seq::<TraceEvent>::empty(),
    {
        TraceCollector { events: Vec::new() }
    }

    /// Record an event that was seen at `timestamp`.
    pub fn record(&mut self, event: &RuntimeEvent, timestamp: u64)
        ensures
            final(self).recorded() == (match traced(*event, timestamp) {
                Some(trace) => old(self).recorded().push(trace),
                None => old(self).recorded(),
            }),
    {
        let trace = match event {
            RuntimeEvent::RevisionBumped { revision } => TraceEvent::RevisionBumped {
                revision: *revision,
                timestamp,
            },
            RuntimeEvent::RevisionSet { revision: _ } => {
                return;
            },
            RuntimeEvent::InputSet { revision, kind, key_hash, key: _ } => TraceEvent::InputSet {
                revision: *revision,
                kind: *kind,
                key_hash: *key_hash,
                timestamp,
            },
            RuntimeEvent::InputRemoved { revision, kind, key_hash, key: _ } => {
                TraceEvent::InputRemoved {
                    revision: *revision,
                    kind: *kind,
                    key_hash: *key_hash,
                    timestamp,
                }
            },
            RuntimeEvent::QueryInvalidated {
                revision,
                kind,
                key_hash,
                key: _,
                by_kind,
                by_key_hash,
                by_key: _,
            } => TraceEvent::QueryInvalidated {
                revision: *revision,
                kind: *kind,
                key_hash: *key_hash,
                by_kind: *by_kind,
                by_key_hash: *by_key_hash,
                timestamp,
            },
            RuntimeEvent::QueryChanged { revision, kind, key_hash, key: _ } => {
                TraceEvent::QueryChanged {
                    revision: *revision,
                    kind: *kind,
                    key_hash: *key_hash,
                    timestamp,
                }
            },
        };
        self.events.push(trace);
    }

    /// Stop collecting and return the recorded trace.
    pub fn stop(self) -> (r: Vec<TraceEvent>)
        ensures
            r@ == self.recorded(),
    {
        self.events
    }

    /// A copy of what was recorded so far.
    pub fn snapshot(&self) -> (r: Vec<TraceEvent>)
        ensures
            r@ == self.recorded(),
    {
        let r: Vec<TraceEvent> = self.events.clone();
        assert(r@ =~= self.events@);
        r
    }
}

/// When an event occurred.
pub open spec fn timestamp_of(event: TraceEvent) -> u64 {
    match event {
        TraceEvent::RevisionBumped { timestamp, .. } => timestamp,
        TraceEvent::InputSet { timestamp, .. } => timestamp,
        TraceEvent::InputRemoved { timestamp, .. } => timestamp,
        TraceEvent::QueryInvalidated { timestamp, .. } => timestamp,
        TraceEvent::QueryChanged { timestamp, .. } => timestamp,
    }
}

/// At which revision an event occurred.
pub open spec fn revision_of(event: TraceEvent) -> u64 {
    match event {
        TraceEvent::RevisionBumped { revision, .. } => revision.0,
        TraceEvent::InputSet { revision, .. } => revision.0,
        TraceEvent::InputRemoved { revision, .. } => revision.0,
        TraceEvent::QueryInvalidated { revision, .. } => revision.0,
        TraceEvent::QueryChanged { revision, .. } => revision.0,
    }
}

impl TraceEvent {
    fn timestamp(&self) -> (r: u64)
        ensures
            r == timestamp_of(*self),
    {
        match self {
            TraceEvent::RevisionBumped { timestamp, .. } => *timestamp,
            TraceEvent::InputSet { timestamp, .. } => *timestamp,
            TraceEvent::InputRemoved { timestamp, .. } => *timestamp,
            TraceEvent::QueryInvalidated { timestamp, .. } => *timestamp,
            TraceEvent::QueryChanged { timestamp, .. } => *timestamp,
        }
    }

    fn revision(&self) -> (r: u64)
        ensures
            r == revision_of(*self),
    {
        match self {
            TraceEvent::RevisionBumped { revision, .. } => revision.0,
            TraceEvent::InputSet { revision, .. } => revision.0,
            TraceEvent::InputRemoved { revision, .. } => revision.0,
            TraceEvent::QueryInvalidated { revision, .. } => revision.0,
            TraceEvent::QueryChanged { revision, .. } => revision.0,
        }
    }
}

/// How many events say that an input was set or removed.
pub open spec fn input_changes_in(trace: Seq<TraceEvent>) -> nat {
    trace.filter(|e: TraceEvent| e is InputSet || e is InputRemoved).len()
}

/// How many events say that a query was invalidated.
pub open spec fn invalidations_in(trace: Seq<TraceEvent>) -> nat {
    trace.filter(|e: TraceEvent| e is QueryInvalidated).len()
}

/// How many events say that a query's output changed.
pub open spec fn recomputations_in(trace: Seq<TraceEvent>) -> nat {
    trace.filter(|e: TraceEvent| e is QueryChanged).len()
}

/// The revision of each event.
pub open spec fn revisions_of(trace: Seq<TraceEvent>) -> Seq<u64> {
    trace.map_values(|e: TraceEvent| revision_of(e))
}

/// The time from the first event to the last, or zero where the last is the earlier.
pub open spec fn duration_of(trace: Seq<TraceEvent>) -> u64 {
    if trace.len() == 0 || timestamp_of(trace.last()) < timestamp_of(trace.first()) {
        0
    } else {
        (timestamp_of(trace.last()) - timestamp_of(trace.first())) as u64
    }
}

/// Analysis of a collected trace.
#[derive(Debug, Clone)]
pub struct TraceAnalysis {
    /// Total number of events.
    pub total_events: usize,
    /// Number of input changes.
    pub input_changes: usize,
    /// Number of query invalidations.
    pub invalidations: usize,
    /// Number of query recomputations (changes).
    pub recomputations: usize,
    /// Nanoseconds from the first to the last event.
    pub duration: u64,
    /// How many events there were at each revision.
    pub events_by_revision: HashMap<u64, usize>,
}

/// What `Debug` shows for the `std::time::Duration` of so many nanoseconds.
pub uninterp spec fn duration_text(nanos: u64) -> Seq<char>;

/// Shows the `std::time::Duration` of so many nanoseconds with `Debug`.
#[verifier::external_body]
fn show_duration(nanos: u64) -> (r: String)
    ensures
        r@ == duration_text(nanos),
{
    format!("{:?}", std::time::Duration::from_nanos(nanos))
}

/// One line of the distribution over revisions.
pub open spec fn revision_line(revision: u64, count: usize) -> Seq<char> {
    "    r"@ + crate::text::decimal(revision as nat) + ": "@ + crate::text::decimal(count as nat)
        + " events\n"@
}

/// The lines of the distribution for the given revisions.
pub open spec fn revision_lines(counts: Map<u64, usize>, revisions: Seq<u64>) -> Seq<char>
    decreases revisions.len(),
{
    if revisions.len() == 0 {
        Seq::empty()
    } else {
        revision_lines(counts, revisions.drop_last()) + revision_line(
            revisions.last(),
            counts[revisions.last()],
        )
    }
}

/// An analysis as text, where the distribution is listed by the given revisions.
pub open spec fn analysis_text(analysis: TraceAnalysis, revisions: Seq<u64>) -> Seq<char> {
    let head = "Trace Analysis:\n  Total events: "@ + crate::text::decimal(
        analysis.total_events as nat,
    ) + "\n  Input changes: "@ + crate::text::decimal(analysis.input_changes as nat)
        + "\n  Invalidations: "@ + crate::text::decimal(analysis.invalidations as nat)
        + "\n  Recomputations: "@ + crate::text::decimal(analysis.recomputations as nat)
        + "\n  Duration: "@ + duration_text(analysis.duration) + "\n"@;
    if revisions.len() == 0 {
        head
    } else {
        head + "\n  Events by revision:\n"@ + revision_lines(
            analysis.events_by_revision@,
            revisions,
        )
    }
}

impl TraceAnalysis {
    /// Whether this is the analysis of a trace.
    pub open spec fn analyses(self, trace: Seq<TraceEvent>) -> bool {
        &&& self.total_events == trace.len()
        &&& self.input_changes == input_changes_in(trace)
        &&& self.invalidations == invalidations_in(trace)
        &&& self.recomputations == recomputations_in(trace)
        &&& self.duration == duration_of(trace)
        &&& crate::debug::tally::tallies(self.events_by_revision@, revisions_of(trace))
    }

    /// Analyze a collected trace.
    pub fn from_trace(trace: &[TraceEvent]) -> (r: Self)
        ensures
            r.total_events == trace@.len(),
            r.input_changes == input_changes_in(trace@),
            r.invalidations == invalidations_in(trace@),
            r.recomputations == recomputations_in(trace@),
            r.duration == duration_of(trace@),
            crate::debug::tally::tallies(r.events_by_revision@, revisions_of(trace@)),
            r.analyses(trace@),
    {
        let mut input_changes: usize = 0;
        let mut invalidations: usize = 0;
        let mut recomputations: usize = 0;
        let mut events_by_revision: HashMap<u64, usize> = HashMap::new();
        let ghost revisions = revisions_of(trace@);
        let mut i: usize = 0;
        proof {
            reveal(Seq::filter);
            assert(trace@.take(0) =~= Seq::empty());
            assert(revisions.take(0) =~= Seq::empty());
        }
        while i < trace.len()
            invariant
                i <= trace@.len(),
                revisions == revisions_of(trace@),
                input_changes == input_changes_in(trace@.take(i as int)),
                invalidations == invalidations_in(trace@.take(i as int)),
                recomputations == recomputations_in(trace@.take(i as int)),
                input_changes <= i,
                invalidations <= i,
                recomputations <= i,
                crate::debug::tally::tallies(events_by_revision@, revisions.take(i as int)),
            decreases trace@.len() - i,
        {
            proof {
                reveal(Seq::filter);
                assert(trace@.take(i + 1).drop_last() =~= trace@.take(i as int));
                assert(trace@.take(i + 1).last() == trace@[i as int]);
                assert(revisions.take(i + 1) =~= revisions.take(i as int).push(
                    revisions[i as int],
                ));
            }
            count_one(
                &mut events_by_revision,
                trace[i].revision(),
                Ghost(revisions.take(i as int)),
            );
            match &trace[i] {
                TraceEvent::InputSet { .. } => {
                    input_changes = input_changes + 1;
                },
                TraceEvent::InputRemoved { .. } => {
                    input_changes = input_changes + 1;
                },
                TraceEvent::QueryInvalidated { .. } => {
                    invalidations = invalidations + 1;
                },
                TraceEvent::QueryChanged { .. } => {
                    recomputations = recomputations + 1;
                },
                TraceEvent::RevisionBumped { .. } => {},
            }
            i = i + 1;
        }
        assert(trace@.take(i as int) =~= trace@);
        assert(revisions.take(i as int) =~= revisions);
        let duration: u64 = if trace.len() == 0 {
            0
        } else {
            trace[trace.len() - 1].timestamp().saturating_sub(trace[0].timestamp())
        };
        TraceAnalysis {
            total_events: trace.len(),
            input_changes,
            invalidations,
            recomputations,
            duration,
            events_by_revision,
        }
    }

    /// The analysis as human-readable text.
    pub fn format(&self) -> (r: String)
        ensures
            exists|revisions: Seq<u64>|
                crate::debug::tally::lists_keys(self.events_by_revision@, revisions) && r@
                    == #[trigger] analysis_text(*self, revisions),
    {
        let mut out: String = String::new();
        out.append("Trace Analysis:\n  Total events: ");
        push_decimal(&mut out, self.total_events as u64);
        out.append("\n  Input changes: ");
        push_decimal(&mut out, self.input_changes as u64);
        out.append("\n  Invalidations: ");
        push_decimal(&mut out, self.invalidations as u64);
        out.append("\n  Recomputations: ");
        push_decimal(&mut out, self.recomputations as u64);
        out.append("\n  Duration: ");
        let duration: String = show_duration(self.duration);
        out.append(duration.as_str());
        out.append("\n");
        let revisions: Vec<u64> = sorted_keys(&self.events_by_revision);
        if revisions.len() > 0 {
            out.append("\n  Events by revision:\n");
        }
        let ghost head = out@;
        let mut i: usize = 0;
        while i < revisions.len()
            invariant
                i <= revisions@.len(),
                crate::debug::tally::lists_keys(self.events_by_revision@, revisions@),
                out@ == head + revision_lines(
                    self.events_by_revision@,
                    revisions@.take(i as int),
                ),
            decreases revisions@.len() - i,
        {
            broadcast use vstd::std_specs::hash::group_hash_axioms;

            let ghost longer = revisions@.take(i + 1);
            let ghost before = out@;
            assert(longer.drop_last() =~= revisions@.take(i as int));
            assert(longer.last() == revisions@[i as int]);
            assert(revisions@.contains(revisions@[i as int]));
            let revision: u64 = revisions[i];
            if let Some(count) = self.events_by_revision.get(&revision) {
                out.append("    r");
                push_decimal(&mut out, revision);
                out.append(": ");
                push_decimal(&mut out, *count as u64);
                out.append(" events\n");
            }
            assert(out@ =~= before + revision_line(revision, self.events_by_revision@[revision]));
            assert(out@ =~= head + revision_lines(self.events_by_revision@, longer));
            i = i + 1;
        }
        assert(revisions@.take(i as int) =~= revisions@);
        assert(out@ =~= analysis_text(*self, revisions@));
        out
    }
}

/// Every event of a trace is a bumped revision, an input change, an invalidation or a
/// recomputation: the three counts of an analysis never add up to more than the total.
pub proof fn counts_are_of_different_events(trace: Seq<TraceEvent>)
    ensures
        input_changes_in(trace) + invalidations_in(trace) + recomputations_in(trace)
            <= trace.len(),
    decreases trace.len(),
{
    reveal(Seq::filter);
    if trace.len() > 0 {
        counts_are_of_different_events(trace.drop_last());
    }
}

} // verus!
