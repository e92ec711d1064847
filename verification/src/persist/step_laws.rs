//! In which order loads, replays and compactions go.
use crate::error::PicanteResult;
use crate::persist::load::{LoadEnd, LoadStep};
use crate::persist::log::{CompactionStep, ReplayStep};
use crate::persist::OnCorruptCache;
use crate::revision::Revision;
use vstd::prelude::*;

verus! {

/// The steps of a compaction, given for each whether it succeeded.
pub open spec fn is_compaction(
    steps: Seq<CompactionStep>,
    succeeded: Seq<bool>,
    log_exists: bool,
    create_new_log: bool,
) -> bool {
    &&& steps.len() == succeeded.len() + 1
    &&& steps[0] == CompactionStep::SaveSnapshot
    &&& forall|n: int|
        0 < n < steps.len() ==> (#[trigger] steps[n]) == crate::persist::log::step_after(
            steps[n - 1],
            succeeded[n - 1],
            log_exists,
            create_new_log,
        )
}

/// A compaction on which nothing fails saves the snapshot, puts it in the place of the old one,
/// deletes the log if there is one, creates a new one if that is wanted, and is complete.
pub proof fn compaction_goes_in_order(
    steps: Seq<CompactionStep>,
    succeeded: Seq<bool>,
    log_exists: bool,
    create_new_log: bool,
)
    requires
        is_compaction(steps, succeeded, log_exists, create_new_log),
        steps.len() == 6,
        forall|n: int| 0 <= n < succeeded.len() ==> #[trigger] succeeded[n],
    ensures
        steps[1] == CompactionStep::InstallSnapshot,
        log_exists && create_new_log ==> steps[2] == CompactionStep::DeleteLog && steps[3]
            == CompactionStep::CreateLog && steps[4] == CompactionStep::Done,
        log_exists && !create_new_log ==> steps[2] == CompactionStep::DeleteLog && steps[3]
            == CompactionStep::Done,
        !log_exists && create_new_log ==> steps[2] == CompactionStep::CreateLog && steps[3]
            == CompactionStep::Done,
        !log_exists && !create_new_log ==> steps[2] == CompactionStep::Done,
        steps[5] == CompactionStep::Done,
{
    assert(succeeded[0] && succeeded[1] && succeeded[2] && succeeded[3] && succeeded[4]);
    assert(steps[1] == CompactionStep::InstallSnapshot);
    assert(steps[2] == steps[2]);
    assert(steps[3] == steps[3]);
    assert(steps[4] == steps[4]);
    assert(steps[5] == steps[5]);
}

/// A compaction is at an end once it is complete or has failed. It fails with the first step that
/// fails; where that is putting the snapshot in its place, the temporary file is removed before.
pub proof fn failed_compaction_ends(
    step: CompactionStep,
    succeeded: bool,
    log_exists: bool,
    create_new_log: bool,
)
    ensures
        ({
            let next = crate::persist::log::step_after(step, succeeded, log_exists, create_new_log);
            &&& step == CompactionStep::Done || step == CompactionStep::Failed ==> next == step
            &&& step == CompactionStep::RemoveTemporary ==> next == CompactionStep::Failed
            &&& next == CompactionStep::RemoveTemporary <==> step == CompactionStep::InstallSnapshot
                && !succeeded
            &&& !succeeded && (step == CompactionStep::SaveSnapshot || step
                == CompactionStep::DeleteLog || step == CompactionStep::CreateLog) ==> next
                == CompactionStep::Failed
        }),
{
}

/// The temporary file of a compaction is not the cache file, and different cache files have
/// different ones, as have different processes.
pub proof fn temporary_files_are_apart(a: Seq<char>, b: Seq<char>, p: u32, q: u32)
    ensures
        crate::persist::log::compact_name(Some(a), p) != a,
        a != b ==> crate::persist::log::compact_name(Some(a), p)
            != crate::persist::log::compact_name(Some(b), q),
        p != q ==> crate::persist::log::compact_name(None, p) != crate::persist::log::compact_name(
            None,
            q,
        ),
{
    reveal_strlit(".compact.tmp");
    reveal_strlit("cache-");
    let x = crate::persist::log::compact_name(Some(a), p);
    let y = crate::persist::log::compact_name(Some(b), q);
    assert(x.len() > a.len());
    if x == y {
        assert(x.take(x.len() - 12) =~= a);
        assert(y.take(y.len() - 12) =~= b);
    }
    let u = crate::persist::log::compact_name(None, p);
    let v = crate::persist::log::compact_name(None, q);
    if u == v {
        assert(u.subrange(6, u.len() - 12) =~= crate::text::decimal(p as nat));
        assert(v.subrange(6, v.len() - 12) =~= crate::text::decimal(q as nat));
        crate::text_laws::decimals_are_told_apart(p as nat, q as nat);
    }
}

/// A load clears everything, whether or not clearing something succeeds, and then goes on; one that
/// is complete stays so.
pub proof fn clearing_goes_on(
    step: LoadStep,
    succeeded: bool,
    ingredients: usize,
    loads: usize,
    refused: bool,
)
    ensures
        step is ClearGraph || step is Clear || step is SetRevision || step is Done
            ==> crate::persist::load::load_step_after(
            step,
            succeeded,
            ingredients as nat,
            loads as nat,
            refused,
        ) == crate::persist::load::load_step_after(
            step,
            true,
            ingredients as nat,
            loads as nat,
            refused,
        ),
        crate::persist::load::load_step_after(
            LoadStep::Done,
            succeeded,
            ingredients as nat,
            loads as nat,
            refused,
        ) == LoadStep::Done,
{
}

/// A replay that is complete stays so.
pub proof fn complete_replay_stays_complete(
    succeeded: bool,
    changes: usize,
    ingredients: usize,
    outcome: PicanteResult<Option<Revision>>,
)
    ensures
        crate::persist::log::replay_step_after(
            ReplayStep::Done,
            succeeded,
            changes as nat,
            ingredients as nat,
            outcome,
        ) == ReplayStep::Done,
{
}

/// A file is deleted only where it could not be loaded and corrupt caches are to be deleted. A load
/// that succeeded is told as it was, and one that failed is an error only where it is to be one;
/// otherwise it counts as having found no cache.
pub proof fn corrupt_caches_are_dealt_with(
    outcome: PicanteResult<bool>,
    on_corrupt: OnCorruptCache,
    end: LoadEnd,
)
    requires
        crate::persist::load::load_ended(outcome, on_corrupt, end),
    ensures
        end.delete_file <==> outcome is Err && on_corrupt == OnCorruptCache::Delete,
        end.result is Err <==> outcome is Err && on_corrupt == OnCorruptCache::Error,
        end.result matches Err(error) ==> (outcome matches Err(reason) && reason == error),
        end.result matches Ok(loaded) ==> loaded == (outcome matches Ok(found) && found),
{
}

} // verus!
