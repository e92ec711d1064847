//! What saving keeps, and what loading and replaying hand out.
use crate::error::{PicanteError, PicanteResult};
use crate::key::QueryKindId;
use crate::persist::load::{IngredientInfo, LoadPlan};
use crate::persist::log::{RecordChange, ReplayPlan};
use crate::persist::{CacheFile, CacheLoadOptions, CacheSaveOptions, Section};
#[allow(unused_imports)]
use crate::persist::{CacheFileView, SectionView};
#[allow(unused_imports)]
use crate::postcard::WireEntryView;
use crate::revision::Revision;
#[allow(unused_imports)]
use crate::wal::OpenView;
use vstd::prelude::*;

verus! {

/// Whether some ingredient has a kind id.
pub open spec fn is_known(ingredients: Seq<IngredientInfo>, kind_id: u32) -> bool {
    exists|i: int| 0 <= i < ingredients.len() && (#[trigger] ingredients[i]).kind.0 == kind_id
}

/// Whether the ingredient at a place has a kind id, and none behind it has.
pub open spec fn belongs_at(ingredients: Seq<IngredientInfo>, kind_id: u32, place: int) -> bool {
    &&& 0 <= place < ingredients.len()
    &&& ingredients[place].kind.0 == kind_id
    &&& forall|i: int| place < i < ingredients.len() ==> (#[trigger] ingredients[i]).kind.0 != kind_id
}

/// An ingredient is found by its kind id: at the place of the one that has it, if there is one.
pub proof fn ingredients_are_found_by_kind(ingredients: Seq<IngredientInfo>, kind_id: u32)
    ensures
        match crate::persist::load::place_of(ingredients, kind_id) {
            Some(place) => belongs_at(ingredients, kind_id, place) && is_known(
                ingredients,
                kind_id,
            ),
            None => !is_known(ingredients, kind_id),
        },
    decreases ingredients.len(),
{
    if ingredients.len() > 0 {
        let shorter = ingredients.drop_last();
        ingredients_are_found_by_kind(shorter, kind_id);
        if ingredients.last().kind.0 == kind_id {
            assert(ingredients[ingredients.len() - 1].kind.0 == kind_id);
        } else if let Some(place) = crate::persist::load::place_of(shorter, kind_id) {
            assert(ingredients[place] == shorter[place]);
            assert forall|i: int| place < i < ingredients.len() implies (
            #[trigger] ingredients[i]).kind.0 != kind_id by {
                if i < shorter.len() {
                    assert(shorter[i] == ingredients[i]);
                }
            }
        } else if is_known(ingredients, kind_id) {
            let i = choose|i: int|
                0 <= i < ingredients.len() && (#[trigger] ingredients[i]).kind.0 == kind_id;
            assert(shorter[i] == ingredients[i]);
        }
    }
}

/// Whether `from` picks, in order, exactly those of several kind ids that some ingredient has.
pub open spec fn picks_known(
    from: Seq<int>,
    ingredients: Seq<IngredientInfo>,
    kinds: Seq<u32>,
) -> bool {
    &&& forall|m: int, n: int|
        0 <= m < n < from.len() ==> (#[trigger] from[m]) < (#[trigger] from[n])
    &&& forall|n: int|
        0 <= n < from.len() ==> 0 <= (#[trigger] from[n]) < kinds.len() && is_known(
            ingredients,
            kinds[from[n]],
        )
    &&& forall|j: int|
        0 <= j < kinds.len() && is_known(ingredients, #[trigger] kinds[j]) ==> from.contains(j)
}

spec fn known_places(ingredients: Seq<IngredientInfo>, kinds: Seq<u32>) -> Seq<int>
    decreases kinds.len(),
{
    if kinds.len() == 0 {
        Seq::empty()
    } else {
        let before = known_places(ingredients, kinds.drop_last());
        if is_known(ingredients, kinds.last()) {
            before.push(kinds.len() - 1)
        } else {
            before
        }
    }
}

proof fn known_places_pick(ingredients: Seq<IngredientInfo>, kinds: Seq<u32>)
    ensures
        picks_known(known_places(ingredients, kinds), ingredients, kinds),
    decreases kinds.len(),
{
    if kinds.len() > 0 {
        let shorter = kinds.drop_last();
        let before = known_places(ingredients, shorter);
        let from = known_places(ingredients, kinds);
        known_places_pick(ingredients, shorter);
        assert forall|n: int| 0 <= n < from.len() implies 0 <= (#[trigger] from[n]) < kinds.len()
            && is_known(ingredients, kinds[from[n]]) by {
            if n < before.len() {
                assert(from[n] == before[n]);
                assert(kinds[from[n]] == shorter[before[n]]);
            }
        }
        assert forall|m: int, n: int| 0 <= m < n < from.len() implies (#[trigger] from[m]) < (
        #[trigger] from[n]) by {
            assert(from[m] == before[m]);
            if n < before.len() {
                assert(from[n] == before[n]);
            }
        }
        assert forall|j: int|
            0 <= j < kinds.len() && is_known(ingredients, #[trigger] kinds[j]) implies from.contains(
            j,
        ) by {
            if j < shorter.len() {
                assert(shorter[j] == kinds[j]);
                assert(before.contains(j));
                let n = choose|n: int| 0 <= n < before.len() && before[n] == j;
                assert(from[n] == j);
            } else {
                assert(from[from.len() - 1] == j);
            }
        }
    }
}

/// The kind ids of several sections.
pub open spec fn kinds_of_sections(sections: Seq<Section>) -> Seq<u32> {
    Seq::new(sections.len(), |j: int| sections[j].kind_id)
}

proof fn loads_are_picked(
    ingredients: Seq<IngredientInfo>,
    sections: Seq<SectionView>,
    kinds: Seq<u32>,
)
    requires
        kinds.len() == sections.len(),
        forall|j: int| 0 <= j < kinds.len() ==> #[trigger] kinds[j] == sections[j].kind_id,
    ensures
        ({
            let loads = crate::persist::load::loads_of(ingredients, sections);
            let from = known_places(ingredients, kinds);
            &&& loads.len() == from.len()
            &&& forall|n: int|
                0 <= n < loads.len() ==> {
                    &&& 0 <= from[n] < sections.len()
                    &&& belongs_at(ingredients, sections[from[n]].kind_id, (#[trigger] loads[n]).0)
                    &&& loads[n].1 == sections[from[n]].records
                }
        }),
    decreases sections.len(),
{
    if sections.len() > 0 {
        let shorter = sections.drop_last();
        let fewer = kinds.drop_last();
        loads_are_picked(ingredients, shorter, fewer);
        known_places_pick(ingredients, kinds);
        ingredients_are_found_by_kind(ingredients, sections.last().kind_id);
        assert(kinds.last() == sections.last().kind_id);
        let before = crate::persist::load::loads_of(ingredients, shorter);
        let loads = crate::persist::load::loads_of(ingredients, sections);
        let from = known_places(ingredients, kinds);
        let earlier = known_places(ingredients, fewer);
        assert forall|n: int| 0 <= n < loads.len() implies {
            &&& 0 <= from[n] < sections.len()
            &&& belongs_at(ingredients, sections[from[n]].kind_id, (#[trigger] loads[n]).0)
            &&& loads[n].1 == sections[from[n]].records
        } by {
            if n < before.len() {
                assert(loads[n] == before[n]);
                assert(from[n] == earlier[n]);
                assert(shorter[earlier[n]] == sections[earlier[n]]);
            }
        }
    }
}

proof fn mismatch_is_the_first(ingredients: Seq<IngredientInfo>, sections: Seq<SectionView>)
    ensures
        match crate::persist::load::first_mismatch(ingredients, sections) {
            Some(i) => {
                &&& 0 <= i < sections.len()
                &&& crate::persist::load::mismatched(ingredients, sections[i])
                &&& forall|j: int|
                    0 <= j < i ==> !crate::persist::load::mismatched(
                        ingredients,
                        #[trigger] sections[j],
                    )
            },
            None => forall|j: int|
                0 <= j < sections.len() ==> !crate::persist::load::mismatched(
                    ingredients,
                    #[trigger] sections[j],
                ),
        },
    decreases sections.len(),
{
    if sections.len() > 0 {
        let shorter = sections.drop_last();
        mismatch_is_the_first(ingredients, shorter);
        assert forall|j: int| 0 <= j < shorter.len() implies #[trigger] sections[j]
            == shorter[j] by {}
    }
}

/// Whether a section belongs to an ingredient that stores something else.
pub open spec fn is_of_another_type(ingredients: Seq<IngredientInfo>, section: Section) -> bool {
    exists|place: int| #[trigger]
        belongs_at(ingredients, section.kind_id, place) && ingredients[place].section_type
            != section.section_type
}

/// Whether several loads are, in order, exactly the sections whose kind id some ingredient has, each
/// with all of its records, for the ingredient that has the kind id.
pub open spec fn loads_whole_sections(
    ingredients: Seq<IngredientInfo>,
    sections: Seq<Section>,
    loads: Seq<crate::persist::load::Load>,
) -> bool {
    exists|from: Seq<int>| #[trigger]
        picks_known(from, ingredients, kinds_of_sections(sections)) && from.len() == loads.len() && (
        forall|n: int|
            0 <= n < loads.len() ==> {
                let section = sections[from[n]];
                &&& belongs_at(
                    ingredients,
                    section.kind_id,
                    (#[trigger] loads[n]).ingredient as int,
                )
                &&& loads[n].records.deep_view() == section.records.deep_view()
            })
}

proof fn same_type_belongs(
    ingredients: Seq<IngredientInfo>,
    section: Section,
)
    ensures
        crate::persist::load::mismatched(ingredients, section@) == is_of_another_type(
            ingredients,
            section,
        ),
{
    ingredients_are_found_by_kind(ingredients, section.kind_id);
    if let Some(place) = crate::persist::load::place_of(ingredients, section.kind_id) {
        assert(belongs_at(ingredients, section.kind_id, place));
        if is_of_another_type(ingredients, section) {
            let other = choose|other: int| #[trigger]
                belongs_at(ingredients, section.kind_id, other) && ingredients[other].section_type
                    != section.section_type;
            if other < place {
                assert(ingredients[place].kind.0 != section.kind_id);
            } else if place < other {
                assert(ingredients[other].kind.0 != section.kind_id);
            }
        }
    } else if is_of_another_type(ingredients, section) {
        let other = choose|other: int| #[trigger]
            belongs_at(ingredients, section.kind_id, other) && ingredients[other].section_type
                != section.section_type;
        assert(ingredients[other].kind.0 == section.kind_id);
    }
}

/// Loading hands every section out whole. A file of the version that is written is planned; one of
/// another version is refused. The plan's revision is the file's. If every section fits the
/// ingredient that has its kind id, the loads are exactly the sections that some ingredient has the
/// kind id of, in the order of the file and with all of their records. Otherwise the loads are those
/// before the first section that does not fit, and the plan ends in a failure.
pub proof fn sections_are_loaded_whole(
    cache: CacheFile,
    ingredients: Seq<IngredientInfo>,
    r: PicanteResult<LoadPlan>,
)
    requires
        crate::persist::load::file_planned(cache@, ingredients, r),
    ensures
        r is Ok <==> cache.format_version == crate::persist::FORMAT_VERSION,
        r matches Ok(plan) ==> {
            &&& plan.revision == Revision(cache.current_revision)
            &&& plan.failure is None <==> forall|j: int|
                0 <= j < cache.sections@.len() ==> !is_of_another_type(
                    ingredients,
                    #[trigger] cache.sections@[j],
                )
            &&& plan.failure is None ==> loads_whole_sections(
                ingredients,
                cache.sections@,
                plan.loads@,
            )
            &&& plan.failure is Some ==> exists|j: int|
                {
                    &&& 0 <= j < cache.sections@.len()
                    &&& is_of_another_type(ingredients, #[trigger] cache.sections@[j])
                    &&& forall|k: int|
                        0 <= k < j ==> !is_of_another_type(
                            ingredients,
                            #[trigger] cache.sections@[k],
                        )
                    &&& loads_whole_sections(ingredients, cache.sections@.take(j), plan.loads@)
                }
        },
{
    let all = cache@.sections;
    mismatch_is_the_first(ingredients, all);
    assert forall|j: int| 0 <= j < all.len() implies crate::persist::load::mismatched(
        ingredients,
        #[trigger] all[j],
    ) == is_of_another_type(ingredients, cache.sections@[j]) by {
        same_type_belongs(ingredients, cache.sections@[j]);
    }
    if let Ok(plan) = r {
        match crate::persist::load::first_mismatch(ingredients, all) {
            None => {
                assert forall|j: int| 0 <= j < cache.sections@.len() implies !is_of_another_type(
                    ingredients,
                    #[trigger] cache.sections@[j],
                ) by {
                    assert(!crate::persist::load::mismatched(ingredients, all[j]));
                }
                whole_loads(ingredients, cache.sections@, plan.loads@);
            },
            Some(i) => {
                let sections = cache.sections@.take(i);
                assert(crate::persist::section_views(sections) =~= all.take(i));
                whole_loads(ingredients, sections, plan.loads@);
                assert(is_of_another_type(ingredients, cache.sections@[i]));
                assert forall|k: int| 0 <= k < i implies !is_of_another_type(
                    ingredients,
                    #[trigger] cache.sections@[k],
                ) by {
                    assert(!crate::persist::load::mismatched(ingredients, all[k]));
                }
            },
        }
    }
}

proof fn whole_loads(
    ingredients: Seq<IngredientInfo>,
    sections: Seq<Section>,
    loads: Seq<crate::persist::load::Load>,
)
    requires
        crate::persist::load::load_views(loads) == crate::persist::load::loads_of(
            ingredients,
            crate::persist::section_views(sections),
        ),
    ensures
        loads_whole_sections(ingredients, sections, loads),
{
    let kinds = kinds_of_sections(sections);
    let views = crate::persist::section_views(sections);
    let from = known_places(ingredients, kinds);
    known_places_pick(ingredients, kinds);
    loads_are_picked(ingredients, views, kinds);
    let planned = crate::persist::load::load_views(loads);
    assert(planned.len() == loads.len());
    assert forall|n: int| 0 <= n < loads.len() implies {
        let section = sections[from[n]];
        &&& belongs_at(ingredients, section.kind_id, (#[trigger] loads[n]).ingredient as int)
        &&& loads[n].records.deep_view() == section.records.deep_view()
    } by {
        assert(planned[n] == loads[n]@);
        assert(belongs_at(ingredients, views[from[n]].kind_id, planned[n].0));
    }
    assert(picks_known(from, ingredients, kinds_of_sections(sections)));
}

/// The kind ids of several log entries.
pub open spec fn kinds_of_entries(entries: Seq<WireEntryView>) -> Seq<u32> {
    Seq::new(entries.len(), |j: int| entries[j].1)
}

proof fn changes_are_picked(ingredients: Seq<IngredientInfo>, entries: Seq<WireEntryView>)
    ensures
        ({
            let changes = crate::persist::log::known_changes(ingredients, entries);
            let from = known_places(ingredients, kinds_of_entries(entries));
            &&& changes.len() == from.len()
            &&& forall|n: int|
                0 <= n < changes.len() ==> {
                    &&& 0 <= from[n] < entries.len()
                    &&& belongs_at(ingredients, entries[from[n]].1, (#[trigger] changes[n]).0)
                    &&& changes[n].1 == entries[from[n]].0
                    &&& changes[n].2 == entries[from[n]].2
                }
        }),
    decreases entries.len(),
{
    if entries.len() > 0 {
        let shorter = entries.drop_last();
        changes_are_picked(ingredients, shorter);
        ingredients_are_found_by_kind(ingredients, entries.last().1);
        let kinds = kinds_of_entries(entries);
        assert(kinds.drop_last() =~= kinds_of_entries(shorter));
        known_places_pick(ingredients, kinds);
        let before = crate::persist::log::known_changes(ingredients, shorter);
        let changes = crate::persist::log::known_changes(ingredients, entries);
        let from = known_places(ingredients, kinds);
        let earlier = known_places(ingredients, kinds_of_entries(shorter));
        assert forall|n: int| 0 <= n < changes.len() implies {
            &&& 0 <= from[n] < entries.len()
            &&& belongs_at(ingredients, entries[from[n]].1, (#[trigger] changes[n]).0)
            &&& changes[n].1 == entries[from[n]].0
            &&& changes[n].2 == entries[from[n]].2
        } by {
            if n < before.len() {
                assert(changes[n] == before[n]);
                assert(from[n] == earlier[n]);
                assert(shorter[earlier[n]] == entries[earlier[n]]);
            }
        }
    }
}

/// Whether a change is what a log entry says: its revision, its key, and its value unless the key was
/// deleted.
pub open spec fn says_as(change: crate::persist::log::Change, entry: WireEntryView) -> bool {
    &&& change.revision == entry.0
    &&& match entry.2 {
        Ok((key, value)) => change.key@ == key && (change.value matches Some(held) && held@
            == value),
        Err(key) => change.key@ == key && change.value is None,
    }
}

/// Whether several changes are, in order, exactly the log entries whose kind id some ingredient has,
/// for the ingredient that has it.
pub open spec fn applies_known_entries(
    ingredients: Seq<IngredientInfo>,
    entries: Seq<WireEntryView>,
    changes: Seq<crate::persist::log::Change>,
) -> bool {
    exists|from: Seq<int>| #[trigger]
        picks_known(from, ingredients, kinds_of_entries(entries)) && from.len() == changes.len() && (
        forall|n: int|
            0 <= n < changes.len() ==> {
                &&& belongs_at(
                    ingredients,
                    entries[from[n]].1,
                    (#[trigger] changes[n]).ingredient as int,
                )
                &&& says_as(changes[n], entries[from[n]])
            })
}

proof fn known_entries_are_applied(
    ingredients: Seq<IngredientInfo>,
    entries: Seq<WireEntryView>,
    changes: Seq<crate::persist::log::Change>,
)
    requires
        crate::persist::log::change_views(changes) == crate::persist::log::known_changes(
            ingredients,
            entries,
        ),
    ensures
        applies_known_entries(ingredients, entries, changes),
{
    let from = known_places(ingredients, kinds_of_entries(entries));
    known_places_pick(ingredients, kinds_of_entries(entries));
    changes_are_picked(ingredients, entries);
    let planned = crate::persist::log::change_views(changes);
    assert(planned.len() == changes.len());
    assert forall|n: int| 0 <= n < changes.len() implies {
        &&& belongs_at(ingredients, entries[from[n]].1, (#[trigger] changes[n]).ingredient as int)
        &&& says_as(changes[n], entries[from[n]])
    } by {
        assert(planned[n] == changes[n]@);
    }
    assert(picks_known(from, ingredients, kinds_of_entries(entries)));
}

proof fn latest_is_the_maximum(base: u64, changes: Seq<crate::persist::log::ChangeView>)
    ensures
        ({
            let latest = crate::persist::log::latest_revision(base, changes);
            &&& base <= latest
            &&& forall|n: int| 0 <= n < changes.len() ==> (#[trigger] changes[n]).1 <= latest
            &&& latest == base || exists|n: int|
                0 <= n < changes.len() && (#[trigger] changes[n]).1 == latest
        }),
    decreases changes.len(),
{
    if changes.len() > 0 {
        let shorter = changes.drop_last();
        latest_is_the_maximum(base, shorter);
        let before = crate::persist::log::latest_revision(base, shorter);
        let latest = crate::persist::log::latest_revision(base, changes);
        assert forall|n: int| 0 <= n < changes.len() implies (#[trigger] changes[n]).1 <= latest by {
            if n < shorter.len() {
                assert(shorter[n] == changes[n]);
            }
        }
        if latest == before {
            if before != base {
                let n = choose|n: int| 0 <= n < shorter.len() && (#[trigger] shorter[n]).1 == before;
                assert(changes[n].1 == latest);
            }
        } else {
            assert(changes[changes.len() - 1].1 == latest);
        }
    }
}

/// The revision that a database is at after a replay that set `outcome`.
pub open spec fn revision_after(current: Revision, outcome: Option<Revision>) -> Revision {
    match outcome {
        Some(revision) => revision,
        None => current,
    }
}

/// A replay reaches the latest of its changes: after it the database is at a revision that no change
/// is later than, and that one of the changes is of, unless none is later than where the database
/// was. The revision is set only where it moves on.
pub proof fn replay_reaches_its_latest_change(
    bytes: Seq<u8>,
    current: Revision,
    ingredients: Seq<IngredientInfo>,
    plan: ReplayPlan,
    outcome: Option<Revision>,
)
    requires
        crate::persist::log::replay_planned(bytes, current, ingredients, Ok(plan)),
        plan.outcome == Ok::<Option<Revision>, std::sync::Arc<crate::error::PicanteError>>(outcome),
    ensures
        ({
            let after = revision_after(current, outcome);
            &&& current.0 <= after.0
            &&& outcome is Some <==> current.0 < after.0
            &&& forall|n: int|
                0 <= n < plan.changes@.len() ==> (#[trigger] plan.changes@[n]).revision <= after.0
            &&& after == current || exists|n: int|
                0 <= n < plan.changes@.len() && (#[trigger] plan.changes@[n]).revision == after.0
        }),
{
    if let crate::wal::OpenView::Opened(base, rest) = crate::wal::opened(bytes) {
        let entries = choose|entries: Seq<WireEntryView>| #[trigger]
            crate::persist::log::reads_through(rest, entries)
                && crate::persist::log::entries_planned(base, ingredients, entries, plan);
        let changes = crate::persist::log::known_changes(ingredients, entries);
        latest_is_the_maximum(base, changes);
        let planned = crate::persist::log::change_views(plan.changes@);
        assert(planned == changes);
        assert forall|n: int| 0 <= n < plan.changes@.len() implies (
        #[trigger] plan.changes@[n]).revision <= revision_after(current, outcome).0 by {
            assert(planned[n] == plan.changes@[n]@);
            assert(changes[n].1 <= crate::persist::log::latest_revision(base, changes));
        }
        let latest = crate::persist::log::latest_revision(base, changes);
        if latest != base {
            let n = choose|n: int| 0 <= n < changes.len() && (#[trigger] changes[n]).1 == latest;
            assert(planned[n] == plan.changes@[n]@);
            assert(plan.changes@[n].revision == latest);
        }
    }
}

/// A replay applies what the log holds: the changes of a plan are, in order, the log's entries for
/// known ingredients, as far as the log can be read.
pub proof fn replay_applies_the_log(
    bytes: Seq<u8>,
    current: Revision,
    ingredients: Seq<IngredientInfo>,
    plan: ReplayPlan,
)
    requires
        crate::persist::log::replay_planned(bytes, current, ingredients, Ok(plan)),
    ensures
        crate::wal::opened(bytes) matches crate::wal::OpenView::Opened(base, rest) && base
            == current.0 && exists|entries: Seq<WireEntryView>|
            {
                &&& entries.len() <= crate::wal::all_in(rest).len()
                &&& forall|n: int|
                    0 <= n < entries.len() ==> crate::wal::all_in(rest)[n]
                        == crate::wal::WalRead::Entry(#[trigger] entries[n])
                &&& entries.len() == crate::wal::all_in(rest).len() <==> plan.outcome is Ok
                &&& plan.outcome is Err ==> !(crate::wal::all_in(
                    rest,
                )[entries.len() as int] is Entry)
                &&& #[trigger] applies_known_entries(ingredients, entries, plan.changes@)
            },
{
    if let crate::wal::OpenView::Opened(base, rest) = crate::wal::opened(bytes) {
        let all = crate::wal::all_in(rest);
        if plan.outcome is Ok {
            let entries = choose|entries: Seq<WireEntryView>| #[trigger]
                crate::persist::log::reads_through(rest, entries)
                    && crate::persist::log::entries_planned(base, ingredients, entries, plan);
            let reads = crate::persist::log::reads_of(entries);
            assert(reads == all);
            assert forall|n: int| 0 <= n < entries.len() implies all[n]
                == crate::wal::WalRead::Entry(#[trigger] entries[n]) by {
                assert(reads[n] == crate::wal::WalRead::Entry(entries[n]));
            }
            known_entries_are_applied(ingredients, entries, plan.changes@);
        } else {
            let (entries, read) = choose|
                entries: Seq<WireEntryView>,
                read: crate::wal::WalRead,
            | #[trigger]
                crate::persist::log::reads_up_to(rest, entries, read)
                    && crate::persist::log::failure_planned(ingredients, entries, read, plan);
            let reads = crate::persist::log::reads_of(entries);
            assert(reads == all.take(entries.len() as int));
            assert forall|n: int| 0 <= n < entries.len() implies all[n]
                == crate::wal::WalRead::Entry(#[trigger] entries[n]) by {
                assert(reads[n] == crate::wal::WalRead::Entry(entries[n]));
                assert(all.take(entries.len() as int)[n] == all[n]);
            }
            known_entries_are_applied(ingredients, entries, plan.changes@);
        }
    }
}

/// Whether a record is no longer than a limit, if there is one.
pub open spec fn is_short(record: Seq<u8>, max: Option<usize>) -> bool {
    match max {
        Some(limit) => record.len() <= limit,
        None => true,
    }
}

/// Whether `from` picks, in order, exactly those of several records that are no longer than `max`, if
/// there is a limit.
#[verifier::opaque]
pub open spec fn picks_short(
    from: Seq<int>,
    records: Seq<Seq<u8>>,
    max: Option<usize>,
) -> bool {
    &&& forall|m: int, n: int|
        0 <= m < n < from.len() ==> (#[trigger] from[m]) < (#[trigger] from[n])
    &&& forall|n: int|
        0 <= n < from.len() ==> 0 <= (#[trigger] from[n]) < records.len() && is_short(
            records[from[n]],
            max,
        )
    &&& forall|j: int|
        0 <= j < records.len() && is_short(#[trigger] records[j], max) ==> from.contains(j)
}

spec fn short_places(records: Seq<Seq<u8>>, max: Option<usize>) -> Seq<int>
    decreases records.len(),
{
    if records.len() == 0 {
        Seq::empty()
    } else {
        let before = short_places(records.drop_last(), max);
        if is_short(records.last(), max) {
            before.push(records.len() - 1)
        } else {
            before
        }
    }
}

proof fn short_places_pick(records: Seq<Seq<u8>>, max: Option<usize>)
    ensures
        picks_short(short_places(records, max), records, max),
    decreases records.len(),
{
    reveal(picks_short);
    if records.len() > 0 {
        let shorter = records.drop_last();
        let before = short_places(shorter, max);
        let from = short_places(records, max);
        short_places_pick(shorter, max);
        assert forall|n: int| 0 <= n < from.len() implies 0 <= (#[trigger] from[n]) < records.len()
            && is_short(records[from[n]], max) by {
            if n < before.len() {
                assert(from[n] == before[n]);
                assert(records[from[n]] == shorter[before[n]]);
            }
        }
        assert forall|m: int, n: int| 0 <= m < n < from.len() implies (#[trigger] from[m]) < (
        #[trigger] from[n]) by {
            assert(from[m] == before[m]);
            if n < before.len() {
                assert(from[n] == before[n]);
            }
        }
        assert forall|j: int|
            0 <= j < records.len() && is_short(#[trigger] records[j], max) implies from.contains(
            j,
        ) by {
            if j < shorter.len() {
                assert(shorter[j] == records[j]);
                assert(before.contains(j));
                let n = choose|n: int| 0 <= n < before.len() && before[n] == j;
                assert(from[n] == j);
            } else {
                assert(from[from.len() - 1] == j);
            }
        }
    }
}

proof fn short_records_are_kept(records: Seq<Seq<u8>>, max: Option<usize>)
    ensures
        ({
            let kept = crate::persist::save::kept_by_size(records, max);
            let from = short_places(records, max);
            &&& kept.len() == from.len()
            &&& forall|n: int|
                #![trigger kept[n]]
                #![trigger from[n]]
                0 <= n < kept.len() ==> 0 <= from[n] < records.len() && kept[n] == records[from[n]]
        }),
    decreases records.len(),
{
    let from = short_places(records, max);
    let kept = crate::persist::save::kept_by_size(records, max);
    if records.len() > 0 {
        let shorter = records.drop_last();
        let before = short_places(shorter, max);
        let kept_before = crate::persist::save::kept_by_size(shorter, max);
        short_records_are_kept(shorter, max);
        match max {
            Some(limit) => {
                assert(kept == (if records.last().len() <= limit {
                    kept_before.push(records.last())
                } else {
                    kept_before
                })) by {
                    reveal(Seq::filter);
                }
            },
            None => {
                assert(kept =~= kept_before.push(records.last()));
            },
        }
        assert(from == (if is_short(records.last(), max) {
            before.push(records.len() - 1)
        } else {
            before
        }));
        assert(kept.len() == from.len());
        assert forall|n: int|
            #![trigger kept[n]]
            #![trigger from[n]]
            0 <= n < kept.len() implies 0 <= from[n] < records.len() && kept[n]
            == records[from[n]] by {
            if n < kept_before.len() {
                assert(kept[n] == kept_before[n]);
                assert(from[n] == before[n]);
                assert(shorter[before[n]] == records[before[n]]);
            } else {
                assert(from[n] == records.len() - 1);
                assert(kept[n] == records.last());
            }
        }
    } else {
        assert(from.len() == 0);
        assert(kept.len() == 0) by {
            reveal(Seq::filter);
            if let Some(limit) = max {
                assert(kept == records.filter(|r: Seq<u8>| r.len() <= limit));
            }
        }
    }
}

/// A section holds what the options let into it: of the ingredient's records, in order, those that are
/// not too long, and of these the first, as many as a section may hold. Without limits it holds them
/// all. The section is for the ingredient's kind, with its name and type.
pub proof fn sections_hold_what_the_options_let_in(
    kind: QueryKindId,
    kind_name: Seq<char>,
    section_type: crate::persist::SectionType,
    records: Seq<Seq<u8>>,
    options: CacheSaveOptions,
    section: Section,
)
    requires
        section@ == crate::persist::save::limited(
            SectionView { kind_id: kind.0, kind_name, section_type, records },
            options,
        ),
    ensures
        section.kind_id == kind.0,
        section.kind_name@ == kind_name,
        section.section_type == section_type,
        options.max_record_bytes is None && options.max_records_per_section is None
            ==> section.records.deep_view() == records,
        exists|from: Seq<int>| #[trigger]
            picks_short(from, records, options.max_record_bytes) && {
                let held = section.records.deep_view();
                &&& held.len() == (match options.max_records_per_section {
                    Some(max) => if from.len() <= max {
                        from.len()
                    } else {
                        max as nat
                    },
                    None => from.len(),
                })
                &&& forall|n: int| 0 <= n < held.len() ==> #[trigger] held[n] == records[from[n]]
            },
{
    short_places_pick(records, options.max_record_bytes);
    short_records_are_kept(records, options.max_record_bytes);
    let from = short_places(records, options.max_record_bytes);
    let kept = crate::persist::save::kept_by_size(records, options.max_record_bytes);
    let held = section.records.deep_view();
    assert(held == section@.records);
    assert forall|n: int| 0 <= n < held.len() implies #[trigger] held[n] == records[from[n]] by {
        assert(held[n] == kept[n]);
    }
}

/// What a database at a revision saves, if nothing has to be left out: a file of the version that is
/// read, with that revision and all sections.
pub open spec fn whole_file(revision: u64, sections: Seq<Section>) -> CacheFileView {
    CacheFileView {
        format_version: crate::persist::FORMAT_VERSION,
        current_revision: revision,
        sections: crate::persist::section_views(sections),
    }
}

/// A file that is not too long is saved whole: where there is no limit on the bytes, or all sections
/// keep to it, what is saved is the encoding of all of them, for the revision of the database.
/// Whatever else is saved keeps to the limit.
pub proof fn files_that_fit_are_saved_whole(
    revision: u64,
    sections: Seq<Section>,
    options: CacheSaveOptions,
    r: PicanteResult<Vec<u8>>,
)
    requires
        crate::persist::save::save_came_out(revision, sections, options, r),
    ensures
        ({
            let bytes = crate::postcard::cache_bytes(
                crate::persist::wire_cache(whole_file(revision, sections)),
            );
            (options.max_bytes matches Some(max) ==> bytes.len() <= max) ==> (r matches Ok(out)
                && out@ == bytes)
        }),
        r matches Ok(out) ==> (options.max_bytes matches Some(max) ==> out@.len() <= max),
        r is Err ==> options.max_bytes is Some,
{
    if let Some(max) = options.max_bytes {
        let cache = whole_file(revision, sections);
        if crate::persist::save::shrunk(cache, max as nat).1 is Fits {
            crate::persist::save::shrunk_file_fits(cache, max as nat);
        }
    }
}

/// What was saved is loaded again, whole: if all sections of a database are saved without a limit on
/// the bytes, each for an ingredient of its kind and type, and the file is loaded by a database with
/// the same ingredients, then each ingredient gets all the records of its section, in order, and the
/// revision is the one at which the database was saved.
pub proof fn saved_sections_are_handed_back(
    revision: u64,
    sections: Seq<Section>,
    save_options: CacheSaveOptions,
    saved: PicanteResult<Vec<u8>>,
    ingredients: Seq<IngredientInfo>,
    load_options: CacheLoadOptions,
    loaded: PicanteResult<LoadPlan>,
)
    requires
        crate::persist::save::save_came_out(revision, sections, save_options, saved),
        save_options.max_bytes is None,
        sections.len() == ingredients.len(),
        forall|i: int|
            0 <= i < sections.len() ==> (#[trigger] sections[i]).kind_id == ingredients[i].kind.0
                && sections[i].section_type == ingredients[i].section_type,
        forall|i: int, j: int|
            0 <= i < j < ingredients.len() ==> (#[trigger] ingredients[i]).kind.0 != (
            #[trigger] ingredients[j]).kind.0,
        crate::postcard::cache_fits(crate::persist::wire_cache(whole_file(revision, sections))),
        saved matches Ok(bytes) ==> {
            &&& load_options.max_bytes matches Some(max) ==> bytes@.len() <= max
            &&& crate::persist::load::saved_file_is_planned(
                bytes@,
                ingredients,
                load_options,
                loaded,
            )
        },
    ensures
        saved is Ok,
        loaded matches Ok(plan) && {
            &&& plan.revision == Revision(revision)
            &&& plan.failure is None
            &&& plan.loads@.len() == ingredients.len()
            &&& forall|i: int|
                0 <= i < ingredients.len() ==> {
                    &&& (#[trigger] plan.loads@[i]).ingredient == i
                    &&& plan.loads@[i].records.deep_view() == sections[i].records.deep_view()
                }
        },
{
    let cache = whole_file(revision, sections);
    let bytes = saved->Ok_0;
    files_that_fit_are_saved_whole(revision, sections, save_options, saved);
    assert(crate::postcard::encodes_cache(crate::persist::wire_cache(cache), bytes@));
    assert(crate::persist::load::file_planned(cache, ingredients, loaded));
    let all = cache.sections;
    mismatch_is_the_first(ingredients, all);
    assert forall|i: int| 0 <= i < all.len() implies crate::persist::load::place_of(
        ingredients,
        (#[trigger] all[i]).kind_id,
    ) == Some(i) by {
        assert(all[i] == sections[i]@);
        ingredients_are_found_by_kind(ingredients, all[i].kind_id);
        let place = crate::persist::load::place_of(ingredients, all[i].kind_id);
        assert(ingredients[i].kind.0 == all[i].kind_id);
        if let Some(other) = place {
            if other < i {
                assert(ingredients[other].kind.0 != ingredients[i].kind.0);
            } else if i < other {
                assert(ingredients[i].kind.0 != ingredients[other].kind.0);
            }
        }
    }
    assert forall|i: int| 0 <= i < all.len() implies !crate::persist::load::mismatched(
        ingredients,
        #[trigger] all[i],
    ) by {
        assert(all[i] == sections[i]@);
    }
    every_section_is_loaded(ingredients, all);
    let plan = loaded->Ok_0;
    let planned = crate::persist::load::load_views(plan.loads@);
    assert(planned.len() == plan.loads@.len());
    assert forall|i: int| 0 <= i < ingredients.len() implies {
        &&& (#[trigger] plan.loads@[i]).ingredient == i
        &&& plan.loads@[i].records.deep_view() == sections[i].records.deep_view()
    } by {
        assert(planned[i] == plan.loads@[i]@);
        assert(all[i] == sections[i]@);
    }
}

proof fn every_section_is_loaded(ingredients: Seq<IngredientInfo>, sections: Seq<SectionView>)
    requires
        forall|i: int|
            0 <= i < sections.len() ==> crate::persist::load::place_of(
                ingredients,
                (#[trigger] sections[i]).kind_id,
            ) == Some(i),
    ensures
        ({
            let loads = crate::persist::load::loads_of(ingredients, sections);
            &&& loads.len() == sections.len()
            &&& forall|i: int|
                0 <= i < sections.len() ==> #[trigger] loads[i] == (i, sections[i].records)
        }),
    decreases sections.len(),
{
    if sections.len() > 0 {
        let shorter = sections.drop_last();
        assert forall|i: int| 0 <= i < shorter.len() implies crate::persist::load::place_of(
            ingredients,
            (#[trigger] shorter[i]).kind_id,
        ) == Some(i) by {
            assert(shorter[i] == sections[i]);
        }
        every_section_is_loaded(ingredients, shorter);
        assert(sections[sections.len() - 1] == sections.last());
        let before = crate::persist::load::loads_of(ingredients, shorter);
        let loads = crate::persist::load::loads_of(ingredients, sections);
        assert(loads == before.push((sections.len() - 1, sections.last().records)));
        assert forall|i: int| 0 <= i < sections.len() implies #[trigger] loads[i] == (
            i,
            sections[i].records,
        ) by {
            if i < shorter.len() {
                assert(loads[i] == before[i]);
                assert(shorter[i] == sections[i]);
            }
        }
    }
}

/// What is appended to a log is replayed: if the changes of an ingredient are appended to a log that
/// was started at the revision of the database, and the log is replayed on a database that has an
/// ingredient of that kind, then exactly these changes are applied to it, in order, each with its
/// revision, its key, and its value unless the key was deleted; and the database ends up at the
/// revision of the latest of them.
pub proof fn appended_changes_are_replayed(
    current: Revision,
    kind: QueryKindId,
    changes: Seq<RecordChange>,
    log: crate::wal::LogView,
    after: crate::wal::LogView,
    ingredients: Seq<IngredientInfo>,
    place: int,
    r: PicanteResult<ReplayPlan>,
)
    requires
        log.bytes() == crate::wal::preamble(current.0),
        after == crate::wal::appended_all(
            log,
            crate::persist::log::encodings(crate::persist::log::change_entries(kind, changes)),
        ),
        belongs_at(ingredients, kind.0, place),
        forall|n: int|
            0 <= n < changes.len() ==> crate::postcard::entry_bytes(
                crate::persist::log::change_entry(kind, #[trigger] changes[n]),
            ).len() <= crate::wal::MAX_ENTRY_LEN,
        crate::persist::log::log_is_replayed(after.bytes(), current, ingredients, r),
    ensures
        r matches Ok(plan) && {
            &&& plan.changes@.len() == changes.len()
            &&& forall|n: int|
                0 <= n < changes.len() ==> {
                    let change = #[trigger] plan.changes@[n];
                    &&& change.ingredient == place
                    &&& change.revision == changes[n].0
                    &&& change.key@ == changes[n].1@
                    &&& change.value is Some <==> changes[n].2 is Some
                    &&& changes[n].2 matches Some(value) ==> change.value->0@ == value@
                }
            &&& plan.outcome matches Ok(outcome) && {
                let revision = revision_after(current, outcome);
                &&& forall|n: int|
                    0 <= n < changes.len() ==> (#[trigger] changes[n]).0 <= revision.0
                &&& revision == current || exists|n: int|
                    0 <= n < changes.len() && (#[trigger] changes[n]).0 == revision.0
                &&& current.0 <= revision.0
            }
        },
{
    let entries = crate::persist::log::change_entries(kind, changes);
    let frames = crate::persist::log::encodings(entries);
    crate::wal::log_is_append_only(log, frames);
    assert(crate::wal::encodes_entries(entries, frames)) by {
        assert forall|n: int| 0 <= n < entries.len() implies crate::wal::encodes_entry(
            #[trigger] entries[n],
            frames[n],
        ) by {
            assert(entries[n] == crate::persist::log::change_entry(kind, changes[n]));
        }
    }
    assert(r matches Ok(plan) && crate::persist::log::entries_planned(
        current.0,
        ingredients,
        entries,
        plan,
    ));
    let plan = r->Ok_0;
    let known = crate::persist::log::known_changes(ingredients, entries);
    every_entry_is_known(ingredients, entries, kind.0, place);
    latest_is_the_maximum(current.0, known);
    let planned = crate::persist::log::change_views(plan.changes@);
    assert(planned.len() == plan.changes@.len());
    assert forall|n: int| 0 <= n < changes.len() implies {
        let change = #[trigger] plan.changes@[n];
        &&& change.ingredient == place
        &&& change.revision == changes[n].0
        &&& change.key@ == changes[n].1@
        &&& change.value is Some <==> changes[n].2 is Some
        &&& changes[n].2 matches Some(value) ==> change.value->0@ == value@
    } by {
        assert(planned[n] == plan.changes@[n]@);
        assert(entries[n] == crate::persist::log::change_entry(kind, changes[n]));
    }
    let latest = crate::persist::log::latest_revision(current.0, known);
    assert forall|n: int| 0 <= n < changes.len() implies (#[trigger] changes[n]).0 <= latest by {
        assert(known[n].1 <= latest);
        assert(entries[n] == crate::persist::log::change_entry(kind, changes[n]));
    }
    if latest != current.0 {
        let n = choose|n: int| 0 <= n < known.len() && (#[trigger] known[n]).1 == latest;
        assert(entries[n] == crate::persist::log::change_entry(kind, changes[n]));
        assert(changes[n].0 == latest);
    }
}

proof fn every_entry_is_known(
    ingredients: Seq<IngredientInfo>,
    entries: Seq<WireEntryView>,
    kind_id: u32,
    place: int,
)
    requires
        belongs_at(ingredients, kind_id, place),
        forall|n: int| 0 <= n < entries.len() ==> (#[trigger] entries[n]).1 == kind_id,
    ensures
        ({
            let changes = crate::persist::log::known_changes(ingredients, entries);
            &&& changes.len() == entries.len()
            &&& forall|n: int|
                0 <= n < entries.len() ==> #[trigger] changes[n] == (
                    place,
                    entries[n].0,
                    entries[n].2,
                )
        }),
    decreases entries.len(),
{
    if entries.len() > 0 {
        let shorter = entries.drop_last();
        assert forall|n: int| 0 <= n < shorter.len() implies (#[trigger] shorter[n]).1
            == kind_id by {
            assert(shorter[n] == entries[n]);
        }
        every_entry_is_known(ingredients, shorter, kind_id, place);
        assert(entries[entries.len() - 1].1 == kind_id);
        ingredients_are_found_by_kind(ingredients, kind_id);
        assert(ingredients[place].kind.0 == kind_id);
        if let Some(other) = crate::persist::load::place_of(ingredients, kind_id) {
            if other < place {
                assert(ingredients[place].kind.0 != kind_id);
            } else if place < other {
                assert(ingredients[other].kind.0 != kind_id);
            }
        }
        let before = crate::persist::log::known_changes(ingredients, shorter);
        let changes = crate::persist::log::known_changes(ingredients, entries);
        assert(changes == before.push((place, entries.last().0, entries.last().2)));
        assert forall|n: int| 0 <= n < entries.len() implies #[trigger] changes[n] == (
            place,
            entries[n].0,
            entries[n].2,
        ) by {
            if n < shorter.len() {
                assert(changes[n] == before[n]);
                assert(shorter[n] == entries[n]);
            }
        }
    }
}

/// Ingredients can be saved and loaded if and only if no two of them have the same kind. Otherwise the
/// error tells the id of the first that repeats another.
pub proof fn repeated_kinds_are_refused(kinds: Seq<QueryKindId>, r: PicanteResult<()>)
    requires
        crate::persist::save::kinds_checked(kinds, r),
    ensures
        r is Ok <==> forall|i: int, j: int|
            0 <= i < j < kinds.len() ==> (#[trigger] kinds[i]).0 != (#[trigger] kinds[j]).0,
        r matches Err(error) ==> exists|i: int, j: int|
            {
                &&& 0 <= i < j < kinds.len()
                &&& (#[trigger] kinds[i]).0 == (#[trigger] kinds[j]).0
                &&& kinds.take(j).no_duplicates()
                &&& crate::error::is_cache_error(
                    *error,
                    "duplicate ingredient kind id "@ + crate::text::decimal(kinds[j].0 as nat),
                )
            },
{
    match r {
        Ok(_) => {
            assert forall|i: int, j: int| 0 <= i < j < kinds.len() implies (#[trigger] kinds[i]).0
                != (#[trigger] kinds[j]).0 by {
                assert(kinds[i] != kinds[j]);
            }
        },
        Err(error) => {
            let j = choose|j: int| #[trigger]
                crate::persist::save::first_repeated(kinds, j) && crate::error::is_cache_error(
                    *error,
                    crate::persist::save::duplicate_kind_text(kinds[j].0),
                );
            let i = choose|i: int| 0 <= i < j && kinds.take(j)[i] == kinds[j];
            assert(kinds[i].0 == kinds[j].0);
        },
    }
}

/// A limit on the size of a file refuses the files that are larger, and makes no difference to the
/// others.
pub proof fn files_within_the_limit_are_read(
    bytes: Seq<u8>,
    ingredients: Seq<IngredientInfo>,
    options: CacheLoadOptions,
    max: usize,
    r: PicanteResult<LoadPlan>,
)
    requires
        crate::persist::load::load_planned(
            bytes,
            ingredients,
            (CacheLoadOptions { max_bytes: Some(max), ..options }),
            r,
        ),
    ensures
        bytes.len() > max ==> (r matches Err(error) && *error matches PicanteError::Cache { .. }),
        bytes.len() <= max ==> crate::persist::load::load_planned(
            bytes,
            ingredients,
            (CacheLoadOptions { max_bytes: None, ..options }),
            r,
        ),
{
}

/// A file is planned if and only if it is of the one version there is, and the plan then ends at the
/// revision of the file.
pub proof fn files_of_other_versions_are_refused(
    cache: CacheFileView,
    ingredients: Seq<IngredientInfo>,
    r: PicanteResult<LoadPlan>,
)
    requires
        crate::persist::load::file_planned(cache, ingredients, r),
    ensures
        r is Ok <==> cache.format_version == 1,
        r matches Ok(plan) ==> plan.revision.0 == cache.current_revision,
{
}

/// A log is replayed if and only if it can be opened and starts at the revision that the database is at;
/// whatever is wrong further on is found only when it is reached.
pub proof fn logs_on_another_base_are_refused(
    bytes: Seq<u8>,
    current: Revision,
    ingredients: Seq<IngredientInfo>,
    r: PicanteResult<ReplayPlan>,
)
    requires
        crate::persist::log::replay_planned(bytes, current, ingredients, r),
    ensures
        r is Ok <==> (crate::wal::opened(bytes) matches OpenView::Opened(base, _) && base
            == current.0),
{
}

} // verus!
