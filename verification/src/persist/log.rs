//! The write-ahead log between snapshots: appending changes, replaying them, and compaction.
use crate::error::{cache_error, PicanteResult};
use crate::key::QueryKindId;
use crate::persist::load::{find_place, IngredientInfo};
#[allow(unused_imports)]
use crate::postcard::WireEntryView;
use crate::revision::Revision;
use crate::text::push_decimal;
#[allow(unused_imports)]
use crate::wal::{OpenView, WalRead};
use crate::wal::{WalEntry, WalOperation, WalReader, WalWriter};
use vstd::prelude::*;

verus! {

/// A change of an ingredient: its revision, the encoded key, and the encoded value unless the key
/// was deleted.
pub type RecordChange = (u64, Vec<u8>, Option<Vec<u8>>);

/// The log entry for a change.
pub open spec fn change_entry(kind: QueryKindId, change: RecordChange) -> WireEntryView {
    (
        change.0,
        kind.0,
        match change.2 {
            Some(value) => Ok((change.1@, value@)),
            None => Err(change.1@),
        },
    )
}

/// The log entries for several changes.
pub open spec fn change_entries(kind: QueryKindId, changes: Seq<RecordChange>) -> Seq<
    WireEntryView,
> {
    changes.map_values(|c: RecordChange| change_entry(kind, c))
}

/// The encodings of entries.
pub open spec fn encodings(entries: Seq<WireEntryView>) -> Seq<Seq<u8>> {
    entries.map_values(|e: WireEntryView| crate::postcard::entry_bytes(e))
}

/// Append the changes of one ingredient to the log, and say how many there were.
pub fn append_changes(wal: &mut WalWriter, kind: QueryKindId, changes: Vec<RecordChange>) -> (r:
    PicanteResult<usize>)
    requires
        old(wal).wf(),
    ensures
        final(wal).wf(),
        r matches Ok(count) && count == changes@.len(),
        final(wal).log() == crate::wal::appended_all(
            old(wal).log(),
            encodings(change_entries(kind, changes@)),
        ),
{
    let ghost entries = change_entries(kind, changes@);
    let ghost all = changes@;
    let count: usize = changes.len();
    let mut waiting = changes;
    let mut i: usize = 0;
    assert(encodings(entries.take(0)) =~= Seq::empty());
    while i < count
        invariant
            wal.wf(),
            i <= count,
            count == waiting@.len(),
            all == changes@,
            count == all.len(),
            entries == change_entries(kind, all),
            forall|j: int| i <= j < count ==> #[trigger] waiting@[j] == all[j],
            wal.log() == crate::wal::appended_all(
                old(wal).log(),
                encodings(entries.take(i as int)),
            ),
        decreases count - i,
    {
        let mut key: Vec<u8> = Vec::new();
        let mut taken: Option<Vec<u8>> = None;
        assert(waiting@[i as int] == all[i as int]);
        let change: &mut RecordChange = &mut waiting[i];
        let revision: u64 = change.0;
        key.append(&mut change.1);
        std::mem::swap(&mut taken, &mut change.2);
        assert(key@ =~= all[i as int].1@);
        let operation = match taken {
            Some(value) => WalOperation::Put { key, value },
            None => WalOperation::Delete { key },
        };
        let entry = WalEntry { revision, kind_id: kind.0, operation };
        assert(entry@ == entries[i as int]);
        match wal.append(entry) {
            Ok(_) => {},
            Err(error) => {
                return Err(error);
            },
        }
        proof {
            let longer = entries.take(i + 1);
            assert(longer.drop_last() =~= entries.take(i as int));
            assert(encodings(longer).drop_last() =~= encodings(entries.take(i as int)));
            assert(encodings(longer).last() == crate::postcard::entry_bytes(entries[i as int]));
        }
        i = i + 1;
    }
    assert(entries.take(i as int) =~= entries);
    Ok(count)
}

/// A change for an ingredient to apply.
#[derive(Debug)]
pub struct Change {
    /// Place of the ingredient in the list.
    pub ingredient: usize,
    /// The revision when the change occurred.
    pub revision: u64,
    /// Encoded key.
    pub key: Vec<u8>,
    /// Encoded value, unless the key was deleted.
    pub value: Option<Vec<u8>>,
}

/// What a change says: the ingredient's place, the revision, and a key with its value or alone.
pub type ChangeView = (int, u64, Result<(Seq<u8>, Seq<u8>), Seq<u8>>);

impl View for Change {
    type V = ChangeView;

    open spec fn view(&self) -> ChangeView {
        (
            self.ingredient as int,
            self.revision,
            match self.value {
                Some(value) => Ok((self.key@, value@)),
                None => Err(self.key@),
            },
        )
    }
}

/// What each of several changes says.
pub open spec fn change_views(changes: Seq<Change>) -> Seq<ChangeView> {
    changes.map_values(|c: Change| c@)
}

/// What replaying a log takes.
#[derive(Debug)]
pub struct ReplayPlan {
    /// The changes to apply, in order.
    pub changes: Vec<Change>,
    /// The revision to set after that, if it moves; or why the replay fails.
    pub outcome: PicanteResult<Option<Revision>>,
}

/// The changes for known ingredients among several entries. An entry of an unknown kind is passed
/// over.
pub open spec fn known_changes(
    ingredients: Seq<IngredientInfo>,
    entries: Seq<WireEntryView>,
) -> Seq<ChangeView>
    decreases entries.len(),
{
    if entries.len() == 0 {
        Seq::empty()
    } else {
        let before = known_changes(ingredients, entries.drop_last());
        let last = entries.last();
        match crate::persist::load::place_of(ingredients, last.1) {
            Some(i) => before.push((i, last.0, last.2)),
            None => before,
        }
    }
}

/// The latest of a base revision and those of several changes.
pub open spec fn latest_revision(base: u64, changes: Seq<ChangeView>) -> u64
    decreases changes.len(),
{
    if changes.len() == 0 {
        base
    } else {
        let before = latest_revision(base, changes.drop_last());
        if changes.last().1 > before {
            changes.last().1
        } else {
            before
        }
    }
}

/// What was read, where entries were.
pub open spec fn reads_of(entries: Seq<WireEntryView>) -> Seq<WalRead> {
    entries.map_values(|e: WireEntryView| WalRead::Entry(e))
}

/// Whether a plan is the one for these entries, all of which could be read.
pub open spec fn entries_planned(
    base: u64,
    ingredients: Seq<IngredientInfo>,
    entries: Seq<WireEntryView>,
    plan: ReplayPlan,
) -> bool {
    let changes = known_changes(ingredients, entries);
    let latest = latest_revision(base, changes);
    &&& change_views(plan.changes@) == changes
    &&& plan.outcome matches Ok(revision)
    &&& revision == (if latest > base {
        Some(Revision(latest))
    } else {
        None
    })
}

/// Whether a plan is the one for these entries with `read` behind them, which is no entry.
pub open spec fn failure_planned(
    ingredients: Seq<IngredientInfo>,
    entries: Seq<WireEntryView>,
    read: WalRead,
    plan: ReplayPlan,
) -> bool {
    &&& change_views(plan.changes@) == known_changes(ingredients, entries)
    &&& plan.outcome matches Err(error)
    &&& crate::wal::read_as(Err(error), read)
}

/// Text of the error for a log that does not build upon the current revision.
pub open spec fn wrong_base_text(base: u64, current: u64) -> Seq<char> {
    "WAL base revision ("@ + crate::text::decimal(base as nat)
        + ") does not match snapshot revision ("@ + crate::text::decimal(current as nat) + ")"@
}

/// Whether `entries` are what can be read from `rest` before an entry that cannot, `read`.
pub open spec fn reads_up_to(rest: Seq<u8>, entries: Seq<WireEntryView>, read: WalRead) -> bool {
    &&& entries.len() < crate::wal::all_in(rest).len()
    &&& reads_of(entries) == crate::wal::all_in(rest).take(entries.len() as int)
    &&& crate::wal::all_in(rest)[entries.len() as int] == read
    &&& !(read is Entry)
}

/// Whether `entries` are all that can be read from `rest`.
pub open spec fn reads_through(rest: Seq<u8>, entries: Seq<WireEntryView>) -> bool {
    reads_of(entries) == crate::wal::all_in(rest)
}

/// Whether the plan for a log came out as it must.
pub open spec fn replay_planned(
    bytes: Seq<u8>,
    current: Revision,
    ingredients: Seq<IngredientInfo>,
    r: PicanteResult<ReplayPlan>,
) -> bool {
    match crate::wal::opened(bytes) {
        OpenView::Opened(base, rest) => if current.0 != base {
            r matches Err(error) && crate::error::is_cache_error(
                *error,
                wrong_base_text(base, current.0),
            )
        } else {
            r matches Ok(plan) && match plan.outcome {
                Ok(_) => exists|entries: Seq<WireEntryView>| #[trigger]
                    reads_through(rest, entries) && entries_planned(
                        base,
                        ingredients,
                        entries,
                        plan,
                    ),
                Err(_) => exists|entries: Seq<WireEntryView>, read: WalRead| #[trigger]
                    reads_up_to(rest, entries, read) && failure_planned(
                        ingredients,
                        entries,
                        read,
                        plan,
                    ),
            }
        },
        view => r matches Err(error) && crate::wal::open_refused(*error, view),
    }
}

/// Whether replaying gives back what was appended: the plan for a log that was written at the
/// current revision is the plan for the entries that were appended to it, in order.
pub open spec fn log_is_replayed(
    bytes: Seq<u8>,
    current: Revision,
    ingredients: Seq<IngredientInfo>,
    r: PicanteResult<ReplayPlan>,
) -> bool {
    forall|entries: Seq<WireEntryView>, frames: Seq<Seq<u8>>|
        #[trigger] crate::wal::encodes_entries(entries, frames) && bytes == crate::wal::preamble(
            current.0,
        ) + crate::wal::all_framed(frames) ==> (
        r matches Ok(plan) && entries_planned(current.0, ingredients, entries, plan))
}

fn change_from(entry: WalEntry, ingredient: usize) -> (r: Change)
    ensures
        r@ == (ingredient as int, entry@.0, entry@.2),
{
    match entry.operation {
        WalOperation::Put { key, value } => Change {
            ingredient,
            revision: entry.revision,
            key,
            value: Some(value),
        },
        WalOperation::Delete { key } => Change {
            ingredient,
            revision: entry.revision,
            key,
            value: None,
        },
    }
}

/// Plan the replay of a log onto a database at the `current` revision, which must be the log's
/// base revision.
pub fn plan_replay(bytes: Vec<u8>, current: Revision, ingredients: &[IngredientInfo]) -> (r:
    PicanteResult<ReplayPlan>)
    ensures
        replay_planned(bytes@, current, ingredients@, r),
        log_is_replayed(bytes@, current, ingredients@, r),
{
    let ghost log = bytes@;
    let mut reader = match WalReader::open(bytes) {
        Ok(reader) => reader,
        Err(error) => {
            return Err(error);
        },
    };
    let base: u64 = reader.header().base_revision;
    if current.0 != base {
        let mut text: String = String::new();
        text.append("WAL base revision (");
        push_decimal(&mut text, base);
        text.append(") does not match snapshot revision (");
        push_decimal(&mut text, current.0);
        text.append(")");
        assert(text@ =~= wrong_base_text(base, current.0));
        return Err(cache_error(text));
    }
    let ghost rest = reader.rest();
    let ghost mut seen: Seq<WireEntryView> = Seq::empty();
    let mut changes: Vec<Change> = Vec::new();
    let mut latest: u64 = base;
    proof {
        assert(change_views(changes@) =~= Seq::empty());
        assert(reads_of(seen) + crate::wal::all_in(rest) =~= crate::wal::all_in(rest));
        assert forall|entries: Seq<WireEntryView>, frames: Seq<Seq<u8>>|
            #[trigger] crate::wal::encodes_entries(entries, frames) && log
                == crate::wal::preamble(current.0) + crate::wal::all_framed(frames) implies rest
            == crate::wal::all_framed(frames) by {}
        assert forall|entries: Seq<WireEntryView>, frames: Seq<Seq<u8>>|
            #[trigger] crate::wal::encodes_entries(entries, frames) && rest
                == crate::wal::all_framed(frames) implies {
            &&& seen == entries.take(seen.len() as int)
            &&& rest == crate::wal::all_framed(frames.skip(0))
        } by {
            assert(frames.skip(0) =~= frames);
            assert(seen =~= entries.take(0));
        }
    }
    loop
        invariant
            reader.wf(),
            crate::wal::opened(log) matches OpenView::Opened(b, t) && b == base && t == rest,
            current.0 == base,
            log == bytes@,
            reads_of(seen) + crate::wal::all_in(reader.rest()) == crate::wal::all_in(rest),
            change_views(changes@) == known_changes(ingredients@, seen),
            latest == latest_revision(base, known_changes(ingredients@, seen)),
            forall|entries: Seq<WireEntryView>, frames: Seq<Seq<u8>>|
                #[trigger] crate::wal::encodes_entries(entries, frames) && log
                    == crate::wal::preamble(current.0) + crate::wal::all_framed(frames) ==> rest
                    == crate::wal::all_framed(frames),
            forall|entries: Seq<WireEntryView>, frames: Seq<Seq<u8>>|
                #[trigger] crate::wal::encodes_entries(entries, frames) && rest
                    == crate::wal::all_framed(frames) ==> {
                    &&& seen.len() <= entries.len()
                    &&& seen == entries.take(seen.len() as int)
                    &&& reader.rest() == crate::wal::all_framed(frames.skip(seen.len() as int))
                },
        decreases reader.rest().len(),
    {
        let ghost before = reader.rest();
        let next = reader.next_entry();
        let ghost left = reader.rest();
        proof {
            assert forall|entries: Seq<WireEntryView>, frames: Seq<Seq<u8>>|
                #[trigger] crate::wal::encodes_entries(entries, frames) && rest
                    == crate::wal::all_framed(frames) implies {
                if seen.len() < entries.len() {
                    &&& crate::wal::read_as(next, WalRead::Entry(entries[seen.len() as int]))
                    &&& left == crate::wal::all_framed(frames.skip(seen.len() as int + 1))
                } else {
                    before.len() == 0
                }
            } by {
                let at = seen.len() as int;
                let waiting = frames.skip(at);
                if at < entries.len() {
                    crate::wal::all_framed_first(waiting);
                    assert(waiting.skip(1) =~= frames.skip(at + 1));
                    assert(crate::wal::encodes_entry(entries[at], frames[at]));
                    assert(before == crate::wal::framed(frames[at]) + crate::wal::all_framed(
                        frames.skip(at + 1),
                    ));
                } else {
                    assert(waiting =~= Seq::empty());
                }
            }
        }
        match next {
            Ok(None) => {
                let revision = if latest > base {
                    Some(Revision(latest))
                } else {
                    None
                };
                let plan = ReplayPlan { changes, outcome: Ok(revision) };
                proof {
                    assert(crate::wal::all_in(before) =~= Seq::empty());
                    assert(reads_of(seen) =~= crate::wal::all_in(rest));
                    assert(reads_through(rest, seen));
                    assert(entries_planned(base, ingredients@, seen, plan));
                    assert forall|entries: Seq<WireEntryView>, frames: Seq<Seq<u8>>|
                        #[trigger] crate::wal::encodes_entries(entries, frames) && rest
                            == crate::wal::all_framed(frames) implies seen == entries by {
                        assert(seen =~= entries);
                    }
                }
                return Ok(plan);
            },
            Err(error) => {
                let plan = ReplayPlan { changes, outcome: Err(error) };
                proof {
                    let read = crate::wal::next_in(before).0;
                    assert(left.len() < before.len());
                    assert(crate::wal::all_in(before) =~= seq![read] + crate::wal::all_in(left));
                    assert(reads_of(seen) =~= crate::wal::all_in(rest).take(seen.len() as int));
                    assert(reads_up_to(rest, seen, read));
                    assert(failure_planned(ingredients@, seen, read, plan));
                }
                return Ok(plan);
            },
            Ok(Some(entry)) => {
                let ghost view = entry@;
                let ghost longer = seen.push(view);
                let ghost done = changes@;
                assert(longer.drop_last() =~= seen);
                let revision: u64 = entry.revision;
                if let Some(ingredient) = find_place(ingredients, entry.kind_id) {
                    changes.push(change_from(entry, ingredient));
                    assert(change_views(changes@) =~= change_views(done).push(
                        (ingredient as int, view.0, view.2),
                    ));
                    assert(known_changes(ingredients@, longer).drop_last() =~= known_changes(
                        ingredients@,
                        seen,
                    ));
                    if revision > latest {
                        latest = revision;
                    }
                }
                proof {
                    assert(left.len() < before.len());
                    assert(crate::wal::all_in(before) =~= seq![WalRead::Entry(view)]
                        + crate::wal::all_in(left));
                    assert(reads_of(longer) + crate::wal::all_in(left) =~= reads_of(seen)
                        + crate::wal::all_in(before));
                    assert forall|entries: Seq<WireEntryView>, frames: Seq<Seq<u8>>|
                        #[trigger] crate::wal::encodes_entries(entries, frames) && rest
                            == crate::wal::all_framed(frames) implies {
                        &&& longer.len() <= entries.len()
                        &&& longer == entries.take(longer.len() as int)
                        &&& left == crate::wal::all_framed(frames.skip(longer.len() as int))
                    } by {
                        assert(seen.len() < entries.len());
                        assert(longer =~= entries.take(longer.len() as int));
                    }
                    seen = longer;
                }
            },
        }
    }
}

/// What a replay does next.
#[derive(Debug, Copy, Clone, PartialEq, Eq, Structural)]
pub enum ReplayStep {
    /// The replay is planned, and nothing was done yet. Give the runtime an identity of its own, so
    /// that nothing of what the database held before is taken for what it is about to hold.
    Start,
    /// Have the ingredient of the change at this place in the plan apply it.
    Apply(usize),
    /// Set the revision of the runtime, under an identity of its own once more: what was asked for
    /// during the replay does not count.
    SetRevision(Revision),
    /// Have the ingredient at this place tell the runtime of what it holds.
    Restore(usize),
    /// The replay is complete.
    Done,
    /// The replay failed.
    Failed,
}

/// What comes once the revision has been set, or stays as it was.
pub open spec fn after_revision(ingredients: nat) -> ReplayStep {
    if ingredients > 0 {
        ReplayStep::Restore(0)
    } else {
        ReplayStep::Done
    }
}

/// What comes once every change of the plan has been applied.
pub open spec fn after_changes(
    ingredients: nat,
    outcome: PicanteResult<Option<Revision>>,
) -> ReplayStep {
    match outcome {
        Err(_) => ReplayStep::Failed,
        Ok(Some(revision)) => ReplayStep::SetRevision(revision),
        Ok(None) => after_revision(ingredients),
    }
}

/// The step after `step`, given whether that one succeeded, for so many changes and ingredients
/// and the plan's `outcome`. Setting the revision cannot fail.
pub open spec fn replay_step_after(
    step: ReplayStep,
    succeeded: bool,
    changes: nat,
    ingredients: nat,
    outcome: PicanteResult<Option<Revision>>,
) -> ReplayStep {
    match step {
        ReplayStep::Start => if changes > 0 {
            ReplayStep::Apply(0)
        } else {
            after_changes(ingredients, outcome)
        },
        ReplayStep::Apply(i) => if !succeeded {
            ReplayStep::Failed
        } else if i + 1 < changes {
            ReplayStep::Apply((i + 1) as usize)
        } else {
            after_changes(ingredients, outcome)
        },
        ReplayStep::SetRevision(_) => after_revision(ingredients),
        ReplayStep::Restore(i) => if !succeeded {
            ReplayStep::Failed
        } else if i + 1 < ingredients {
            ReplayStep::Restore((i + 1) as usize)
        } else {
            ReplayStep::Done
        },
        ReplayStep::Done => ReplayStep::Done,
        ReplayStep::Failed => ReplayStep::Failed,
    }
}

/// The step of a replay after `step`. A replay begins with [`ReplayStep::Start`].
pub fn next_replay_step(
    step: ReplayStep,
    succeeded: bool,
    changes: usize,
    ingredients: usize,
    outcome: &PicanteResult<Option<Revision>>,
) -> (r: ReplayStep)
    ensures
        r == replay_step_after(step, succeeded, changes as nat, ingredients as nat, *outcome),
{
    let kept = if ingredients > 0 {
        ReplayStep::Restore(0)
    } else {
        ReplayStep::Done
    };
    let applied = match outcome {
        Err(_) => ReplayStep::Failed,
        Ok(Some(revision)) => ReplayStep::SetRevision(*revision),
        Ok(None) => kept,
    };
    match step {
        ReplayStep::Start => if changes > 0 {
            ReplayStep::Apply(0)
        } else {
            applied
        },
        ReplayStep::Apply(i) => if !succeeded {
            ReplayStep::Failed
        } else if changes > 0 && i < changes - 1 {
            ReplayStep::Apply(i + 1)
        } else {
            applied
        },
        ReplayStep::SetRevision(_) => kept,
        ReplayStep::Restore(i) => if !succeeded {
            ReplayStep::Failed
        } else if ingredients > 0 && i < ingredients - 1 {
            ReplayStep::Restore(i + 1)
        } else {
            ReplayStep::Done
        },
        ReplayStep::Done => ReplayStep::Done,
        ReplayStep::Failed => ReplayStep::Failed,
    }
}

/// The steps of a replay on which nothing fails, in order. The revision is set only where it
/// moves.
pub open spec fn replay_order(changes: nat, ingredients: nat, revision: Option<Revision>) -> Seq<
    ReplayStep,
> {
    seq![ReplayStep::Start] + Seq::new(changes, |i: int| ReplayStep::Apply(i as usize)) + (
    match revision {
        Some(revision) => seq![ReplayStep::SetRevision(revision)],
        None => Seq::empty(),
    }) + Seq::new(ingredients, |i: int| ReplayStep::Restore(i as usize)) + seq![ReplayStep::Done]
}

/// The step that a replay is at after so many steps, all of which succeeded.
pub open spec fn replay_step_at(
    n: nat,
    changes: nat,
    ingredients: nat,
    outcome: PicanteResult<Option<Revision>>,
) -> ReplayStep
    decreases n,
{
    if n == 0 {
        ReplayStep::Start
    } else {
        replay_step_after(
            replay_step_at((n - 1) as nat, changes, ingredients, outcome),
            true,
            changes,
            ingredients,
            outcome,
        )
    }
}

/// A replay on which nothing fails goes in this order: every change is applied, in the order of
/// the log; the revision is set, where it moves; every ingredient is restored. Where the log
/// cannot be read to its end, the replay fails after the last change that could be read.
pub proof fn replay_goes_in_order(
    n: nat,
    changes: usize,
    ingredients: usize,
    outcome: PicanteResult<Option<Revision>>,
)
    ensures
        outcome matches Ok(revision) ==> n < replay_order(
            changes as nat,
            ingredients as nat,
            revision,
        ).len() ==> replay_step_at(n, changes as nat, ingredients as nat, outcome) == replay_order(
            changes as nat,
            ingredients as nat,
            revision,
        )[n as int],
        outcome is Err && 1 <= n <= changes ==> replay_step_at(
            n,
            changes as nat,
            ingredients as nat,
            outcome,
        ) == ReplayStep::Apply((n - 1) as usize),
        outcome is Err && n > changes ==> replay_step_at(
            n,
            changes as nat,
            ingredients as nat,
            outcome,
        ) == ReplayStep::Failed,
    decreases n,
{
    if n > 0 {
        replay_goes_in_order((n - 1) as nat, changes, ingredients, outcome);
        if let Ok(revision) = outcome {
            let order = replay_order(changes as nat, ingredients as nat, revision);
            if n < order.len() {
                let m = n - 1;
                let k = changes + (if revision is Some {
                    1int
                } else {
                    0
                });
                if 1 <= m <= changes {
                    assert(order[m] == ReplayStep::Apply((m - 1) as usize));
                } else if k < m {
                    assert(order[m] == ReplayStep::Restore((m - 1 - k) as usize));
                }
                if n <= changes {
                    assert(order[n as int] == ReplayStep::Apply((n - 1) as usize));
                } else if k < n <= k + ingredients {
                    assert(order[n as int] == ReplayStep::Restore((n - 1 - k) as usize));
                }
            }
        }
    }
}

/// Whatever fails: the revision is set only after the last change was applied, and only to the
/// plan's revision; no ingredient is restored before that, nor where the log cannot be read to its
/// end; and a replay is complete only once the last ingredient was restored. A replay that failed
/// stays failed.
pub proof fn failed_replay_sets_no_revision(
    step: ReplayStep,
    succeeded: bool,
    changes: usize,
    ingredients: usize,
    outcome: PicanteResult<Option<Revision>>,
)
    ensures
        ({
            let next = replay_step_after(
                step,
                succeeded,
                changes as nat,
                ingredients as nat,
                outcome,
            );
            let applied = (step matches ReplayStep::Apply(i) && succeeded && i + 1 >= changes) || (
            changes == 0 && step == ReplayStep::Start);
            let revision_stands = step is SetRevision || (applied && (outcome matches Ok(None)));
            &&& next matches ReplayStep::SetRevision(revision) ==> applied && (outcome matches Ok(
                Some(planned),
            ) && planned == revision)
            &&& next == ReplayStep::Restore(0) ==> revision_stands
            &&& next matches ReplayStep::Restore(i) ==> i > 0 ==> succeeded && step
                == ReplayStep::Restore((i - 1) as usize)
            &&& next == ReplayStep::Done ==> step == ReplayStep::Done || (
            step matches ReplayStep::Restore(i) && succeeded && i + 1 >= ingredients) || (
            ingredients == 0 && revision_stands)
            &&& step is Failed ==> next is Failed
            &&& !succeeded && (step is Apply || step is Restore) ==> next is Failed
        }),
{
}

/// Name of the file that a compaction writes the new snapshot to before it is renamed: the name
/// of the cache file with a suffix, or one made of the process id where that name cannot be used.
pub open spec fn compact_name(file_name: Option<Seq<char>>, process_id: u32) -> Seq<char> {
    match file_name {
        Some(name) => name + ".compact.tmp"@,
        None => "cache-"@ + crate::text::decimal(process_id as nat) + ".compact.tmp"@,
    }
}

/// Name of the file that a compaction writes the new snapshot to.
pub fn compact_file_name(file_name: Option<&str>, process_id: u32) -> (r: String)
    ensures
        r@ == compact_name(
            match file_name {
                Some(name) => Some(name@),
                None => None,
            },
            process_id,
        ),
{
    let mut text: String = String::new();
    match file_name {
        Some(name) => {
            text.append(name);
        },
        None => {
            text.append("cache-");
            push_decimal(&mut text, process_id as u64);
        },
    }
    text.append(".compact.tmp");
    assert(text@ =~= compact_name(
        match file_name {
            Some(name) => Some(name@),
            None => None,
        },
        process_id,
    ));
    text
}

/// A step of a compaction.
#[derive(Debug, Copy, Clone, Eq, PartialEq, Structural)]
pub enum CompactionStep {
    /// Save a snapshot to the temporary file.
    SaveSnapshot,
    /// Rename the temporary file to the cache file.
    InstallSnapshot,
    /// Remove the temporary file (best effort).
    RemoveTemporary,
    /// Delete the old log.
    DeleteLog,
    /// Create a new log at the snapshot's revision.
    CreateLog,
    /// The compaction is complete.
    Done,
    /// The compaction failed.
    Failed,
}

/// The step after `step`, given whether that one succeeded. `log_exists` says whether there is an
/// old log to delete, and `create_new_log` whether a new one is wanted.
pub open spec fn step_after(
    step: CompactionStep,
    succeeded: bool,
    log_exists: bool,
    create_new_log: bool,
) -> CompactionStep {
    let last = if create_new_log {
        CompactionStep::CreateLog
    } else {
        CompactionStep::Done
    };
    match step {
        CompactionStep::SaveSnapshot => if succeeded {
            CompactionStep::InstallSnapshot
        } else {
            CompactionStep::Failed
        },
        CompactionStep::InstallSnapshot => if !succeeded {
            CompactionStep::RemoveTemporary
        } else if log_exists {
            CompactionStep::DeleteLog
        } else {
            last
        },
        CompactionStep::RemoveTemporary => CompactionStep::Failed,
        CompactionStep::DeleteLog => if succeeded {
            last
        } else {
            CompactionStep::Failed
        },
        CompactionStep::CreateLog => if succeeded {
            CompactionStep::Done
        } else {
            CompactionStep::Failed
        },
        CompactionStep::Done => CompactionStep::Done,
        CompactionStep::Failed => CompactionStep::Failed,
    }
}

/// The step of a compaction after `step`.
pub fn next_compaction_step(
    step: CompactionStep,
    succeeded: bool,
    log_exists: bool,
    create_new_log: bool,
) -> (r: CompactionStep)
    ensures
        r == step_after(step, succeeded, log_exists, create_new_log),
{
    let last = if create_new_log {
        CompactionStep::CreateLog
    } else {
        CompactionStep::Done
    };
    match step {
        CompactionStep::SaveSnapshot => if succeeded {
            CompactionStep::InstallSnapshot
        } else {
            CompactionStep::Failed
        },
        CompactionStep::InstallSnapshot => if !succeeded {
            CompactionStep::RemoveTemporary
        } else if log_exists {
            CompactionStep::DeleteLog
        } else {
            last
        },
        CompactionStep::RemoveTemporary => CompactionStep::Failed,
        CompactionStep::DeleteLog => if succeeded {
            last
        } else {
            CompactionStep::Failed
        },
        CompactionStep::CreateLog => if succeeded {
            CompactionStep::Done
        } else {
            CompactionStep::Failed
        },
        CompactionStep::Done => CompactionStep::Done,
        CompactionStep::Failed => CompactionStep::Failed,
    }
}

/// The old log is deleted only once the new snapshot stands in the place of the old one, and a new
/// log is created only after that; a compaction that failed does neither.
pub proof fn log_outlives_the_old_snapshot(
    step: CompactionStep,
    succeeded: bool,
    log_exists: bool,
    create_new_log: bool,
)
    ensures
        step_after(step, succeeded, log_exists, create_new_log) == CompactionStep::DeleteLog
            ==> step == CompactionStep::InstallSnapshot && succeeded,
        step_after(step, succeeded, log_exists, create_new_log) == CompactionStep::CreateLog ==> (
        step == CompactionStep::InstallSnapshot || step == CompactionStep::DeleteLog) && succeeded,
        step_after(step, succeeded, log_exists, create_new_log) == CompactionStep::Done ==> (step
            == CompactionStep::Done || succeeded && step != CompactionStep::SaveSnapshot),
{
}

} // verus!
