//! Loading a cache file: validation, and what each ingredient gets.
//!
//! A plan says what to load, and [`next_load_step`] in which order it is carried out.
use crate::error::{cache_error, PicanteError, PicanteResult};
use crate::key::QueryKindId;
use crate::persist::{
    decode_cache_file, CacheFile, CacheLoadOptions, OnCorruptCache, Section, SectionType,
    FORMAT_VERSION,
};
#[allow(unused_imports)]
use crate::persist::{CacheFileView, SectionView};
use crate::revision::Revision;
use crate::text::push_decimal;
use std::sync::Arc;
use vstd::prelude::*;

verus! {

/// What a cache section is matched with: an ingredient's kind, name and section type.
#[derive(Debug, Copy, Clone)]
pub struct IngredientInfo {
    /// Stable kind id (unique within a database).
    pub kind: QueryKindId,
    /// Debug name.
    pub kind_name: &'static str,
    /// Whether the ingredient stores inputs, derived values or interned values.
    pub section_type: SectionType,
}

/// Records for an ingredient to load.
#[derive(Debug)]
pub struct Load {
    /// Place of the ingredient in the list.
    pub ingredient: usize,
    /// The records of its section.
    pub records: Vec<Vec<u8>>,
}

/// What loading a cache file takes.
#[derive(Debug)]
pub struct LoadPlan {
    /// The revision at which the file was saved.
    pub revision: Revision,
    /// What to load, in order.
    pub loads: Vec<Load>,
    /// Why the load fails after that, if it does.
    pub failure: Option<Arc<PicanteError>>,
}

impl View for Load {
    type V = (int, Seq<Seq<u8>>);

    open spec fn view(&self) -> (int, Seq<Seq<u8>>) {
        (self.ingredient as int, self.records.deep_view())
    }
}

/// What each of several loads says.
pub open spec fn load_views(loads: Seq<Load>) -> Seq<(int, Seq<Seq<u8>>)> {
    loads.map_values(|l: Load| l@)
}

/// The place of the ingredient with a kind id.
pub open spec fn place_of(ingredients: Seq<IngredientInfo>, kind_id: u32) -> Option<int>
    decreases ingredients.len(),
{
    if ingredients.len() == 0 {
        None
    } else if ingredients.last().kind.0 == kind_id {
        Some(ingredients.len() - 1)
    } else {
        place_of(ingredients.drop_last(), kind_id)
    }
}

/// With unique kind ids, an ingredient is found under its own.
pub proof fn place_of_own_kind(ingredients: Seq<IngredientInfo>, i: int)
    requires
        0 <= i < ingredients.len(),
        forall|j: int, k: int|
            0 <= j < k < ingredients.len() ==> (#[trigger] ingredients[j]).kind != (
            #[trigger] ingredients[k]).kind,
    ensures
        place_of(ingredients, ingredients[i].kind.0) == Some(i),
    decreases ingredients.len(),
{
    let shorter = ingredients.drop_last();
    if i < ingredients.len() - 1 {
        assert forall|j: int, k: int| 0 <= j < k < shorter.len() implies (#[trigger] shorter[j]).kind
            != (#[trigger] shorter[k]).kind by {
            assert(shorter[j] == ingredients[j] && shorter[k] == ingredients[k]);
        }
        place_of_own_kind(shorter, i);
        assert(ingredients[i].kind != ingredients[ingredients.len() - 1].kind);
        if ingredients[i].kind.0 == ingredients.last().kind.0 {
            assert(ingredients[i].kind == ingredients.last().kind);
        }
    }
}

pub(crate) fn find_place(ingredients: &[IngredientInfo], kind_id: u32) -> (r: Option<usize>)
    ensures
        match r {
            Some(i) => place_of(ingredients@, kind_id) == Some(i as int) && i < ingredients@.len(),
            None => place_of(ingredients@, kind_id) is None,
        },
{
    let mut i: usize = ingredients.len();
    assert(ingredients@.take(i as int) =~= ingredients@);
    while i > 0
        invariant
            i <= ingredients@.len(),
            place_of(ingredients@, kind_id) == place_of(ingredients@.take(i as int), kind_id),
        decreases i,
    {
        assert(ingredients@.take(i as int).last() == ingredients@[i - 1]);
        assert(ingredients@.take(i as int).drop_last() =~= ingredients@.take(i - 1));
        i = i - 1;
        if ingredients[i].kind.0 == kind_id {
            return Some(i);
        }
    }
    None
}

/// Whether a section belongs to an ingredient of another type.
pub open spec fn mismatched(ingredients: Seq<IngredientInfo>, section: SectionView) -> bool {
    place_of(ingredients, section.kind_id) matches Some(i) && ingredients[i].section_type
        != section.section_type
}

/// The first section that belongs to an ingredient of another type.
pub open spec fn first_mismatch(
    ingredients: Seq<IngredientInfo>,
    sections: Seq<SectionView>,
) -> Option<int>
    decreases sections.len(),
{
    if sections.len() == 0 {
        None
    } else if first_mismatch(ingredients, sections.drop_last()) is Some {
        first_mismatch(ingredients, sections.drop_last())
    } else if mismatched(ingredients, sections.last()) {
        Some(sections.len() - 1)
    } else {
        None
    }
}

/// What is loaded from several sections: each goes to the ingredient with its kind id, and a
/// section without one is passed over. A section's name does not count, so that an ingredient can
/// be renamed.
pub open spec fn loads_of(ingredients: Seq<IngredientInfo>, sections: Seq<SectionView>) -> Seq<
    (int, Seq<Seq<u8>>),
>
    decreases sections.len(),
{
    if sections.len() == 0 {
        Seq::empty()
    } else {
        let before = loads_of(ingredients, sections.drop_last());
        match place_of(ingredients, sections.last().kind_id) {
            Some(i) => before.push((i, sections.last().records)),
            None => before,
        }
    }
}

/// Text of the error for a section that belongs to an ingredient of another type.
pub open spec fn mismatch_text(section: SectionView) -> Seq<char> {
    "section type mismatch for id "@ + crate::text::decimal(section.kind_id as nat) + " (`"@
        + section.kind_name + "`)"@
}

/// Text of the error for a file of another version.
pub open spec fn version_text(version: u32) -> Seq<char> {
    "unsupported cache format version "@ + crate::text::decimal(version as nat) + "; expected "@
        + crate::text::decimal(FORMAT_VERSION as nat)
}

/// Whether the plan for a decoded file came out as it must.
pub open spec fn file_planned(
    cache: CacheFileView,
    ingredients: Seq<IngredientInfo>,
    r: PicanteResult<LoadPlan>,
) -> bool {
    if cache.format_version != FORMAT_VERSION {
        r matches Err(error) && crate::error::is_cache_error(
            *error,
            version_text(cache.format_version),
        )
    } else {
        &&& r matches Ok(plan)
        &&& plan.revision.0 == cache.current_revision
        &&& match first_mismatch(ingredients, cache.sections) {
            None => {
                &&& plan.failure is None
                &&& load_views(plan.loads@) == loads_of(ingredients, cache.sections)
            },
            Some(i) => {
                &&& plan.failure matches Some(error)
                &&& crate::error::is_cache_error(*error, mismatch_text(cache.sections[i]))
                &&& load_views(plan.loads@) == loads_of(ingredients, cache.sections.take(i))
            },
        }
    }
}

fn mismatch(section: &Section) -> (r: Arc<PicanteError>)
    ensures
        crate::error::is_cache_error(*r, mismatch_text(section@)),
{
    let mut text: String = String::new();
    text.append("section type mismatch for id ");
    push_decimal(&mut text, section.kind_id as u64);
    text.append(" (`");
    text.append(section.kind_name.as_str());
    text.append("`)");
    assert(text@ =~= mismatch_text(section@));
    cache_error(text)
}

proof fn first_mismatch_of_prefix(
    ingredients: Seq<IngredientInfo>,
    sections: Seq<SectionView>,
    i: int,
)
    requires
        0 <= i <= sections.len(),
        first_mismatch(ingredients, sections.take(i)) is Some,
    ensures
        first_mismatch(ingredients, sections) == first_mismatch(ingredients, sections.take(i)),
    decreases sections.len() - i,
{
    if i < sections.len() {
        assert(sections.take(i + 1).drop_last() =~= sections.take(i));
        first_mismatch_of_prefix(ingredients, sections, i + 1);
    } else {
        assert(sections.take(i) =~= sections);
    }
}

/// Plan the load of a decoded file.
pub fn plan_file(cache: CacheFile, ingredients: &[IngredientInfo]) -> (r: PicanteResult<LoadPlan>)
    ensures
        file_planned(cache@, ingredients@, r),
{
    let ghost view = cache@;
    if cache.format_version != FORMAT_VERSION {
        let mut text: String = String::new();
        text.append("unsupported cache format version ");
        push_decimal(&mut text, cache.format_version as u64);
        text.append("; expected ");
        push_decimal(&mut text, FORMAT_VERSION as u64);
        assert(text@ =~= version_text(cache.format_version));
        return Err(cache_error(text));
    }
    let revision = Revision(cache.current_revision);
    let mut sections = cache.sections;
    let ghost all = view.sections;
    let count: usize = sections.len();
    let mut loads: Vec<Load> = Vec::new();
    let mut i: usize = 0;
    assert(load_views(loads@) =~= Seq::empty());
    while i < count
        invariant
            i <= count,
            count == sections@.len(),
            count == all.len(),
            view == cache@,
            view.sections == all,
            view.format_version == FORMAT_VERSION,
            revision.0 == view.current_revision,
            forall|j: int| i <= j < count ==> (#[trigger] sections@[j])@ == all[j],
            load_views(loads@) == loads_of(ingredients@, all.take(i as int)),
            first_mismatch(ingredients@, all.take(i as int)) is None,
        decreases count - i,
    {
        let ghost longer = all.take(i + 1);
        assert(longer.drop_last() =~= all.take(i as int));
        assert(longer.last() == all[i as int]);
        assert(sections@[i as int]@ == all[i as int]);
        let place = find_place(ingredients, sections[i].kind_id);
        if let Some(ingredient) = place {
            if sections[i].section_type != ingredients[ingredient].section_type {
                let error = mismatch(&sections[i]);
                proof {
                    assert(first_mismatch(ingredients@, longer) == Some(i as int));
                    first_mismatch_of_prefix(ingredients@, all, i + 1);
                }
                return Ok(LoadPlan { revision, loads, failure: Some(error) });
            }
            let mut records: Vec<Vec<u8>> = Vec::new();
            let section: &mut Section = &mut sections[i];
            let ghost held = section.records;
            records.append(&mut section.records);
            assert(records@ =~= held@);
            assert(records.deep_view() =~= all[i as int].records);
            let ghost before = loads@;
            loads.push(Load { ingredient, records });
            assert(load_views(loads@) =~= load_views(before).push(
                (ingredient as int, all[i as int].records),
            ));
        }
        i = i + 1;
    }
    assert(all.take(i as int) =~= all);
    Ok(LoadPlan { revision, loads, failure: None })
}

/// Text of the error for a file that is too long.
pub open spec fn too_large_text(len: nat, max: usize) -> Seq<char> {
    "cache file too large ("@ + crate::text::decimal(len) + " bytes > max "@
        + crate::text::decimal(max as nat) + ")"@
}

/// Whether the options let a file of this length be loaded.
pub open spec fn size_allowed(len: nat, options: CacheLoadOptions) -> bool {
    options.max_bytes matches Some(max) ==> len <= max
}

/// Whether the plan for the bytes of a file came out as it must.
pub open spec fn load_planned(
    bytes: Seq<u8>,
    ingredients: Seq<IngredientInfo>,
    options: CacheLoadOptions,
    r: PicanteResult<LoadPlan>,
) -> bool {
    if !size_allowed(bytes.len(), options) {
        r matches Err(error) && crate::error::is_cache_error(
            *error,
            too_large_text(bytes.len(), options.max_bytes->0),
        )
    } else {
        match crate::postcard::cache_from_postcard(bytes) {
            Err(message) => r matches Err(error) && crate::error::is_decode_error(
                *error,
                "cache file"@,
                message,
            ),
            Ok(wire) => if crate::persist::types_known(wire) {
                exists|cache: CacheFileView|
                    crate::persist::wire_cache(cache) == wire && #[trigger] file_planned(
                        cache,
                        ingredients,
                        r,
                    )
            } else {
                r matches Err(error) && exists|i: int| #[trigger]
                    crate::persist::type_refused(wire, i, *error)
            },
        }
    }
}

/// Whether loading gives back what was saved: the plan for the encoding of a file is the plan for
/// that file.
pub open spec fn saved_file_is_planned(
    bytes: Seq<u8>,
    ingredients: Seq<IngredientInfo>,
    options: CacheLoadOptions,
    r: PicanteResult<LoadPlan>,
) -> bool {
    forall|cache: CacheFileView|
        size_allowed(bytes.len(), options) && crate::postcard::cache_fits(
            crate::persist::wire_cache(cache),
        ) && #[trigger] crate::postcard::encodes_cache(
            crate::persist::wire_cache(cache),
            bytes,
        ) ==> file_planned(cache, ingredients, r)
}

/// Plan the load of a file, given its bytes.
pub fn plan_load(bytes: &[u8], ingredients: &[IngredientInfo], options: &CacheLoadOptions) -> (r:
    PicanteResult<LoadPlan>)
    ensures
        load_planned(bytes@, ingredients@, *options, r),
        saved_file_is_planned(bytes@, ingredients@, *options, r),
{
    if let Some(max) = options.max_bytes {
        if bytes.len() > max {
            let mut text: String = String::new();
            text.append("cache file too large (");
            push_decimal(&mut text, bytes.len() as u64);
            text.append(" bytes > max ");
            push_decimal(&mut text, max as u64);
            text.append(")");
            assert(text@ =~= too_large_text(bytes@.len(), max));
            return Err(cache_error(text));
        }
    }
    match decode_cache_file(bytes) {
        Ok(cache) => plan_file(cache, ingredients),
        Err(error) => Err(error),
    }
}

/// A step of carrying out a plan.
#[derive(Debug, Copy, Clone, Eq, PartialEq, Structural)]
pub enum LoadStep {
    /// Give the runtime an identity of its own, so that nothing of what the database held before is
    /// taken for what it is about to hold, and forget its dependency graph.
    ClearGraph,
    /// Forget everything that the ingredient at this place holds.
    Clear(usize),
    /// Carry out the load at this place in the plan.
    Load(usize),
    /// Have the ingredient at this place tell the runtime of what was loaded.
    Restore(usize),
    /// Set the revision of the runtime, under an identity of its own once more: what was asked for
    /// during the load does not count.
    SetRevision,
    /// The load is complete.
    Done,
    /// The load failed.
    Failed,
}

/// What comes once every load of the plan has been carried out, where the rest of the file may
/// have been `refused`.
pub open spec fn after_loads(ingredients: nat, refused: bool) -> LoadStep {
    if refused {
        LoadStep::Failed
    } else if ingredients > 0 {
        LoadStep::Restore(0)
    } else {
        LoadStep::SetRevision
    }
}

/// What comes once every ingredient has been cleared.
pub open spec fn after_clears(ingredients: nat, loads: nat, refused: bool) -> LoadStep {
    if loads > 0 {
        LoadStep::Load(0)
    } else {
        after_loads(ingredients, refused)
    }
}

/// The step after `step`, given whether that one succeeded, for so many ingredients and loads.
/// `refused` says whether the plan ends in a failure. Clearing, and setting the revision, cannot
/// fail.
pub open spec fn load_step_after(
    step: LoadStep,
    succeeded: bool,
    ingredients: nat,
    loads: nat,
    refused: bool,
) -> LoadStep {
    match step {
        LoadStep::ClearGraph => if ingredients > 0 {
            LoadStep::Clear(0)
        } else {
            after_clears(ingredients, loads, refused)
        },
        LoadStep::Clear(i) => if i + 1 < ingredients {
            LoadStep::Clear((i + 1) as usize)
        } else {
            after_clears(ingredients, loads, refused)
        },
        LoadStep::Load(i) => if !succeeded {
            LoadStep::Failed
        } else if i + 1 < loads {
            LoadStep::Load((i + 1) as usize)
        } else {
            after_loads(ingredients, refused)
        },
        LoadStep::Restore(i) => if !succeeded {
            LoadStep::Failed
        } else if i + 1 < ingredients {
            LoadStep::Restore((i + 1) as usize)
        } else {
            LoadStep::SetRevision
        },
        LoadStep::SetRevision => LoadStep::Done,
        LoadStep::Done => LoadStep::Done,
        LoadStep::Failed => LoadStep::Failed,
    }
}

/// The step of a load after `step`. A load begins with [`LoadStep::ClearGraph`].
pub fn next_load_step(
    step: LoadStep,
    succeeded: bool,
    ingredients: usize,
    loads: usize,
    refused: bool,
) -> (r: LoadStep)
    ensures
        r == load_step_after(step, succeeded, ingredients as nat, loads as nat, refused),
{
    let loaded = if refused {
        LoadStep::Failed
    } else if ingredients > 0 {
        LoadStep::Restore(0)
    } else {
        LoadStep::SetRevision
    };
    let cleared = if loads > 0 {
        LoadStep::Load(0)
    } else {
        loaded
    };
    match step {
        LoadStep::ClearGraph => if ingredients > 0 {
            LoadStep::Clear(0)
        } else {
            cleared
        },
        LoadStep::Clear(i) => if ingredients > 0 && i < ingredients - 1 {
            LoadStep::Clear(i + 1)
        } else {
            cleared
        },
        LoadStep::Load(i) => if !succeeded {
            LoadStep::Failed
        } else if loads > 0 && i < loads - 1 {
            LoadStep::Load(i + 1)
        } else {
            loaded
        },
        LoadStep::Restore(i) => if !succeeded {
            LoadStep::Failed
        } else if ingredients > 0 && i < ingredients - 1 {
            LoadStep::Restore(i + 1)
        } else {
            LoadStep::SetRevision
        },
        LoadStep::SetRevision => LoadStep::Done,
        LoadStep::Done => LoadStep::Done,
        LoadStep::Failed => LoadStep::Failed,
    }
}

/// The steps of a load on which nothing fails, in order.
pub open spec fn load_order(ingredients: nat, loads: nat) -> Seq<LoadStep> {
    seq![LoadStep::ClearGraph] + Seq::new(ingredients, |i: int| LoadStep::Clear(i as usize))
        + Seq::new(loads, |i: int| LoadStep::Load(i as usize)) + Seq::new(
        ingredients,
        |i: int| LoadStep::Restore(i as usize),
    ) + seq![LoadStep::SetRevision, LoadStep::Done]
}

/// The step that a load is at after so many steps, all of which succeeded.
pub open spec fn load_step_at(n: nat, ingredients: nat, loads: nat, refused: bool) -> LoadStep
    decreases n,
{
    if n == 0 {
        LoadStep::ClearGraph
    } else {
        load_step_after(
            load_step_at((n - 1) as nat, ingredients, loads, refused),
            true,
            ingredients,
            loads,
            refused,
        )
    }
}

/// A load on which nothing fails goes in this order: the graph is cleared, then every ingredient;
/// every load is carried out; every ingredient is restored; the revision is set last. Where the
/// plan ends in a failure, the load fails after its last load.
pub proof fn load_goes_in_order(n: nat, ingredients: usize, loads: usize)
    requires
        n < load_order(ingredients as nat, loads as nat).len(),
    ensures
        load_step_at(n, ingredients as nat, loads as nat, false) == load_order(
            ingredients as nat,
            loads as nat,
        )[n as int],
        n <= ingredients + loads ==> load_step_at(n, ingredients as nat, loads as nat, true)
            == load_order(ingredients as nat, loads as nat)[n as int],
        n > ingredients + loads ==> load_step_at(n, ingredients as nat, loads as nat, true)
            == LoadStep::Failed,
    decreases n,
{
    if n > 0 {
        load_goes_in_order((n - 1) as nat, ingredients, loads);
        let order = load_order(ingredients as nat, loads as nat);
        let m = n - 1;
        let k = ingredients + loads;
        if 1 <= m <= ingredients {
            assert(order[m] == LoadStep::Clear((m - 1) as usize));
        } else if ingredients < m <= k {
            assert(order[m] == LoadStep::Load((m - 1 - ingredients) as usize));
        } else if k < m <= k + ingredients {
            assert(order[m] == LoadStep::Restore((m - 1 - k) as usize));
        }
        if 1 <= n <= ingredients {
            assert(order[n as int] == LoadStep::Clear((n - 1) as usize));
        } else if ingredients < n <= k {
            assert(order[n as int] == LoadStep::Load((n - 1 - ingredients) as usize));
        } else if k < n <= k + ingredients {
            assert(order[n as int] == LoadStep::Restore((n - 1 - k) as usize));
        }
    }
}

/// Whatever fails: no ingredient is restored before the last load has succeeded, nor where the
/// plan ends in a failure; the revision is set only after the last ingredient was restored; and a
/// load is complete only once the revision was set. A load that failed stays failed.
pub proof fn failed_load_sets_no_revision(
    step: LoadStep,
    succeeded: bool,
    ingredients: usize,
    loads: usize,
    refused: bool,
)
    ensures
        ({
            let next = load_step_after(
                step,
                succeeded,
                ingredients as nat,
                loads as nat,
                refused,
            );
            let loads_done = (step matches LoadStep::Load(i) && succeeded && i + 1 >= loads) || (
            loads == 0 && ((step matches LoadStep::Clear(i) && i + 1 >= ingredients) || (
            ingredients == 0 && step == LoadStep::ClearGraph)));
            &&& next == LoadStep::Restore(0) ==> loads_done && !refused
            &&& next matches LoadStep::Restore(i) ==> i > 0 ==> succeeded && step
                == LoadStep::Restore((i - 1) as usize)
            &&& next == LoadStep::SetRevision ==> (step matches LoadStep::Restore(i) && succeeded
                && i + 1 >= ingredients) || (ingredients == 0 && loads_done && !refused)
            &&& next == LoadStep::Done ==> step == LoadStep::SetRevision || step == LoadStep::Done
            &&& step is Failed ==> next is Failed
            &&& !succeeded && (step is Load || step is Restore) ==> next is Failed
        }),
{
}

/// How a load ends for the caller.
#[derive(Debug)]
pub struct LoadEnd {
    /// Whether a cache was loaded, or why that failed.
    pub result: PicanteResult<bool>,
    /// Whether the file is to be deleted.
    pub delete_file: bool,
}

/// Whether a load ended for the caller as the policy for corrupt caches says.
pub open spec fn load_ended(
    outcome: PicanteResult<bool>,
    on_corrupt: OnCorruptCache,
    end: LoadEnd,
) -> bool {
    match (outcome, on_corrupt) {
        (Ok(_), _) => end.result == outcome && !end.delete_file,
        (Err(_), OnCorruptCache::Error) => end.result == outcome && !end.delete_file,
        (Err(_), OnCorruptCache::Ignore) => end.result == Ok::<bool, std::sync::Arc<PicanteError>>(
            false,
        ) && !end.delete_file,
        (Err(_), OnCorruptCache::Delete) => end.result == Ok::<bool, std::sync::Arc<PicanteError>>(
            false,
        ) && end.delete_file,
    }
}

/// Apply the policy for corrupt caches to the outcome of a load.
pub fn end_load(outcome: PicanteResult<bool>, on_corrupt: OnCorruptCache) -> (r: LoadEnd)
    ensures
        r.delete_file == (outcome is Err && on_corrupt == OnCorruptCache::Delete),
        outcome is Ok || on_corrupt == OnCorruptCache::Error ==> r.result == outcome,
        outcome is Err && on_corrupt != OnCorruptCache::Error ==> (r.result matches Ok(loaded)
            && !loaded),
        load_ended(outcome, on_corrupt, r),
{
    match outcome {
        Ok(loaded) => LoadEnd { result: Ok(loaded), delete_file: false },
        Err(error) => match on_corrupt {
            OnCorruptCache::Error => LoadEnd { result: Err(error), delete_file: false },
            OnCorruptCache::Ignore => LoadEnd { result: Ok(false), delete_file: false },
            OnCorruptCache::Delete => LoadEnd { result: Ok(false), delete_file: true },
        },
    }
}

} // verus!
