//! What goes into a cache file: limits on records, and shrinking a file to a number of bytes.
use crate::error::{cache_error, PicanteResult};
use crate::key::QueryKindId;
use crate::persist::{encode_cache_file, CacheFile, CacheSaveOptions, Section, SectionType};
#[allow(unused_imports)]
use crate::persist::{CacheFileView, SectionView};
use crate::text::push_decimal;
use vstd::prelude::*;

verus! {

/// Text of the error for a kind id that two ingredients share.
pub open spec fn duplicate_kind_text(id: u32) -> Seq<char> {
    "duplicate ingredient kind id "@ + crate::text::decimal(id as nat)
}

/// Whether the kind at place `i` is the first that occurred before.
pub open spec fn first_repeated(kinds: Seq<QueryKindId>, i: int) -> bool {
    &&& 0 <= i < kinds.len()
    &&& kinds.take(i).no_duplicates()
    &&& kinds.take(i).contains(kinds[i])
}

/// Whether kinds were checked as they must be: accepted if no two are the same, and otherwise refused
/// for the first that repeats another.
pub open spec fn kinds_checked(kinds: Seq<QueryKindId>, r: PicanteResult<()>) -> bool {
    match r {
        Ok(_) => kinds.no_duplicates(),
        Err(error) => exists|i: int| #[trigger]
            first_repeated(kinds, i) && crate::error::is_cache_error(
                *error,
                duplicate_kind_text(kinds[i].0),
            ),
    }
}

/// Refuse a list of ingredients in which two share a kind id.
pub fn ensure_unique_kinds(kinds: &[QueryKindId]) -> (r: PicanteResult<()>)
    ensures
        match r {
            Ok(_) => kinds@.no_duplicates(),
            Err(error) => exists|i: int| #[trigger]
                first_repeated(kinds@, i) && crate::error::is_cache_error(
                    *error,
                    duplicate_kind_text(kinds@[i].0),
                ),
        },
        kinds_checked(kinds@, r),
{
    let mut i: usize = 0;
    while i < kinds.len()
        invariant
            i <= kinds@.len(),
            kinds@.take(i as int).no_duplicates(),
        decreases kinds@.len() - i,
    {
        let mut j: usize = 0;
        while j < i
            invariant
                j <= i < kinds@.len(),
                kinds@.take(i as int).no_duplicates(),
                forall|k: int| 0 <= k < j ==> (#[trigger] kinds@[k]) != kinds@[i as int],
            decreases i - j,
        {
            if kinds[j].0 == kinds[i].0 {
                assert(kinds@.take(i as int)[j as int] == kinds@[i as int]);
                let mut text: String = String::new();
                text.append("duplicate ingredient kind id ");
                push_decimal(&mut text, kinds[i].0 as u64);
                assert(text@ =~= duplicate_kind_text(kinds@[i as int].0));
                assert(first_repeated(kinds@, i as int));
                return Err(cache_error(text));
            }
            j = j + 1;
        }
        assert(kinds@.take(i + 1) =~= kinds@.take(i as int).push(kinds@[i as int]));
        i = i + 1;
    }
    assert(kinds@.take(i as int) =~= kinds@);
    Ok(())
}

/// The records that are not skipped for their size.
pub open spec fn kept_by_size(records: Seq<Seq<u8>>, max: Option<usize>) -> Seq<Seq<u8>> {
    match max {
        Some(max) => records.filter(|r: Seq<u8>| r.len() <= max),
        None => records,
    }
}

/// The first records, up to a number of them.
pub open spec fn kept_by_count(records: Seq<Seq<u8>>, max: Option<usize>) -> Seq<Seq<u8>> {
    match max {
        Some(max) => if records.len() > max {
            records.take(max as int)
        } else {
            records
        },
        None => records,
    }
}

/// A section without the records that the options leave out.
pub open spec fn limited(section: SectionView, options: CacheSaveOptions) -> SectionView {
    SectionView {
        records: kept_by_count(
            kept_by_size(section.records, options.max_record_bytes),
            options.max_records_per_section,
        ),
        ..section
    }
}

fn keep_by_size(records: Vec<Vec<u8>>, max: Option<usize>) -> (r: Vec<Vec<u8>>)
    ensures
        r.deep_view() == kept_by_size(records.deep_view(), max),
{
    let max: usize = match max {
        Some(max) => max,
        None => {
            return records;
        },
    };
    let ghost all = records.deep_view();
    let ghost short = |r: Seq<u8>| r.len() <= max;
    let mut waiting = records;
    let mut out: Vec<Vec<u8>> = Vec::new();
    let count: usize = waiting.len();
    let mut i: usize = 0;
    proof {
        reveal(Seq::filter);
        assert(all.take(0).filter(short) =~= Seq::empty());
        assert(out.deep_view() =~= Seq::empty());
    }
    while i < count
        invariant
            i <= count,
            count == waiting@.len(),
            count == all.len(),
            short == (|r: Seq<u8>| r.len() <= max),
            forall|j: int| i <= j < count ==> (#[trigger] waiting@[j])@ == all[j],
            out.deep_view() == all.take(i as int).filter(short),
        decreases count - i,
    {
        let mut record: Vec<u8> = Vec::new();
        record.append(&mut waiting[i]);
        proof {
            reveal(Seq::filter);
            assert(record@ =~= all[i as int]);
            assert(all.take(i + 1).drop_last() =~= all.take(i as int));
            assert(all.take(i + 1).last() == all[i as int]);
        }
        if record.len() <= max {
            let ghost before = out;
            out.push(record);
            assert(record.deep_view() =~= all[i as int]);
            assert(out.deep_view() =~= before.deep_view().push(all[i as int]));
        }
        i = i + 1;
    }
    assert(all.take(i as int) =~= all);
    out
}

fn keep_by_count(records: &mut Vec<Vec<u8>>, max: Option<usize>)
    ensures
        final(records).deep_view() == kept_by_count(old(records).deep_view(), max),
{
    if let Some(max) = max {
        if records.len() > max {
            records.truncate(max);
            assert(records.deep_view() =~= old(records).deep_view().take(max as int));
        }
    }
}

/// A section for an ingredient, with the records that the options leave in it.
pub fn build_section(
    kind: QueryKindId,
    kind_name: &str,
    section_type: SectionType,
    records: Vec<Vec<u8>>,
    options: &CacheSaveOptions,
) -> (r: Section)
    ensures
        r@ == limited(
            SectionView {
                kind_id: kind.0,
                kind_name: kind_name@,
                section_type,
                records: records.deep_view(),
            },
            *options,
        ),
{
    let mut kept: Vec<Vec<u8>> = keep_by_size(records, options.max_record_bytes);
    keep_by_count(&mut kept, options.max_records_per_section);
    Section { kind_id: kind.0, kind_name: kind_name.to_owned(), section_type, records: kept }
}

/// The bytes of several records together.
pub open spec fn bytes_of(records: Seq<Seq<u8>>) -> nat
    decreases records.len(),
{
    if records.len() == 0 {
        0
    } else {
        bytes_of(records.drop_last()) + records.last().len()
    }
}

/// The bytes of all records of a file together.
pub open spec fn record_bytes(sections: Seq<SectionView>) -> nat
    decreases sections.len(),
{
    if sections.len() == 0 {
        0
    } else {
        record_bytes(sections.drop_last()) + bytes_of(sections.last().records)
    }
}

/// The bytes of all records of a file together, as far as a machine word counts.
pub open spec fn counted_bytes(sections: Seq<SectionView>) -> nat {
    if record_bytes(sections) <= usize::MAX {
        record_bytes(sections)
    } else {
        usize::MAX as nat
    }
}

fn count_bytes(records: &Vec<Vec<u8>>, start: usize) -> (r: usize)
    ensures
        r == (if start + bytes_of(records.deep_view()) <= usize::MAX {
            start + bytes_of(records.deep_view())
        } else {
            usize::MAX as int
        }),
{
    let ghost all = records.deep_view();
    let mut total: usize = start;
    let mut i: usize = 0;
    while i < records.len()
        invariant
            i <= records@.len(),
            all == records.deep_view(),
            total == (if start + bytes_of(all.take(i as int)) <= usize::MAX {
                start + bytes_of(all.take(i as int))
            } else {
                usize::MAX as int
            }),
        decreases records@.len() - i,
    {
        assert(all.take(i + 1).drop_last() =~= all.take(i as int));
        assert(all.take(i + 1).last() == records@[i as int].deep_view());
        assert(records@[i as int].deep_view() =~= records@[i as int]@);
        total = total.saturating_add(records[i].len());
        i = i + 1;
    }
    assert(all.take(i as int) =~= all);
    total
}

fn count_record_bytes(cache: &CacheFile) -> (r: usize)
    ensures
        r == counted_bytes(cache@.sections),
{
    let ghost all = cache@.sections;
    let mut total: usize = 0;
    let mut i: usize = 0;
    while i < cache.sections.len()
        invariant
            i <= cache.sections@.len(),
            all == cache@.sections,
            total == counted_bytes(all.take(i as int)),
        decreases cache.sections@.len() - i,
    {
        assert(all.take(i + 1).drop_last() =~= all.take(i as int));
        assert(all.take(i + 1).last() == cache.sections@[i as int]@);
        total = count_bytes(&cache.sections[i].records, total);
        i = i + 1;
    }
    assert(all.take(i as int) =~= all);
    total
}

/// A list ordered by length, with one more record in its place: behind all that are no longer.
pub open spec fn inserted_by_len(sorted: Seq<Seq<u8>>, record: Seq<u8>) -> Seq<Seq<u8>>
    decreases sorted.len(),
{
    if sorted.len() == 0 || sorted.last().len() <= record.len() {
        sorted.push(record)
    } else {
        inserted_by_len(sorted.drop_last(), record).push(sorted.last())
    }
}

/// Records by length, the shortest first; those of the same length stay in order.
pub open spec fn sorted_by_len(records: Seq<Seq<u8>>) -> Seq<Seq<u8>>
    decreases records.len(),
{
    if records.len() == 0 {
        Seq::empty()
    } else {
        inserted_by_len(sorted_by_len(records.drop_last()), records.last())
    }
}

/// Two lists ordered by length as one; of records of the same length, those of `a` come first.
spec fn merged(a: Seq<Seq<u8>>, b: Seq<Seq<u8>>) -> Seq<Seq<u8>>
    decreases a.len() + b.len(),
{
    if a.len() == 0 {
        b
    } else if b.len() == 0 {
        a
    } else if a.last().len() > b.last().len() {
        merged(a.drop_last(), b).push(a.last())
    } else {
        merged(a, b.drop_last()).push(b.last())
    }
}

proof fn inserting_merges(a: Seq<Seq<u8>>, b: Seq<Seq<u8>>, record: Seq<u8>)
    ensures
        merged(a, inserted_by_len(b, record)) == inserted_by_len(merged(a, b), record),
    decreases a.len() + b.len(),
{
    let longer = inserted_by_len(b, record);
    if b.len() == 0 || b.last().len() <= record.len() {
        assert(longer.drop_last() =~= b);
        assert(longer.last() == record);
        if a.len() > 0 && a.last().len() > record.len() {
            inserting_merges(a.drop_last(), b, record);
            assert(merged(a, b).drop_last() =~= merged(a.drop_last(), b));
        }
    } else {
        assert(longer.drop_last() =~= inserted_by_len(b.drop_last(), record));
        assert(longer.last() == b.last());
        if a.len() > 0 {
            if a.last().len() > b.last().len() {
                inserting_merges(a.drop_last(), b, record);
                assert(merged(a, b).drop_last() =~= merged(a.drop_last(), b));
            } else {
                inserting_merges(a, b.drop_last(), record);
                assert(merged(a, b).drop_last() =~= merged(a, b.drop_last()));
            }
        }
    }
}

proof fn merging_sorts(a: Seq<Seq<u8>>, b: Seq<Seq<u8>>)
    ensures
        merged(sorted_by_len(a), sorted_by_len(b)) == sorted_by_len(a + b),
    decreases b.len(),
{
    if b.len() == 0 {
        assert(a + b =~= a);
    } else {
        merging_sorts(a, b.drop_last());
        inserting_merges(sorted_by_len(a), sorted_by_len(b.drop_last()), b.last());
        assert((a + b).drop_last() =~= a + b.drop_last());
    }
}

fn merge(a: Vec<Vec<u8>>, b: Vec<Vec<u8>>) -> (r: Vec<Vec<u8>>)
    ensures
        r.deep_view() == merged(a.deep_view(), b.deep_view()),
{
    let ghost all = merged(a.deep_view(), b.deep_view());
    let mut a = a;
    let mut b = b;
    let mut last: Vec<Vec<u8>> = Vec::new();
    assert(all + last.deep_view().reverse() =~= all);
    while a.len() > 0 && b.len() > 0
        invariant
            all == merged(a.deep_view(), b.deep_view()) + last.deep_view().reverse(),
        decreases a@.len() + b@.len(),
    {
        let ghost left = a.deep_view();
        let ghost right = b.deep_view();
        let ghost done = last.deep_view();
        if a[a.len() - 1].len() > b[b.len() - 1].len() {
            if let Some(record) = a.pop() {
                last.push(record);
                assert(a.deep_view() =~= left.drop_last());
            }
        } else {
            if let Some(record) = b.pop() {
                last.push(record);
                assert(b.deep_view() =~= right.drop_last());
            }
        }
        assert(last.deep_view().drop_last() =~= done);
        assert(last.deep_view().reverse() =~= seq![last.deep_view().last()] + done.reverse());
        assert(all =~= merged(a.deep_view(), b.deep_view()) + last.deep_view().reverse());
    }
    let mut r: Vec<Vec<u8>> = if a.len() == 0 {
        b
    } else {
        a
    };
    assert(all == r.deep_view() + last.deep_view().reverse());
    while last.len() > 0
        invariant
            all == r.deep_view() + last.deep_view().reverse(),
        decreases last@.len(),
    {
        let ghost before = r.deep_view();
        let ghost waiting = last.deep_view();
        if let Some(record) = last.pop() {
            r.push(record);
            assert(last.deep_view() =~= waiting.drop_last());
            assert(r.deep_view() =~= before.push(waiting.last()));
            assert(all =~= r.deep_view() + last.deep_view().reverse());
        }
    }
    assert(all =~= r.deep_view());
    r
}

fn sort_by_len(records: Vec<Vec<u8>>) -> (r: Vec<Vec<u8>>)
    ensures
        r.deep_view() == sorted_by_len(records.deep_view()),
    decreases records@.len(),
{
    let ghost all = records.deep_view();
    let len: usize = records.len();
    if len < 2 {
        proof {
            reveal_with_fuel(sorted_by_len, 2);
            assert(sorted_by_len(all) =~= all);
        }
        return records;
    }
    let mut front = records;
    let back = front.split_off(len / 2);
    proof {
        assert(front.deep_view() + back.deep_view() =~= all);
        merging_sorts(front.deep_view(), back.deep_view());
    }
    merge(sort_by_len(front), sort_by_len(back))
}

/// Each section with its records by length.
pub open spec fn sorted_sections(sections: Seq<SectionView>) -> Seq<SectionView> {
    sections.map_values(
        |s: SectionView| SectionView { records: sorted_by_len(s.records), ..s },
    )
}

/// Whether a section can lose a record as one of the given type.
pub open spec fn can_drop(section: SectionView, section_type: SectionType) -> bool {
    section.section_type == section_type && section.records.len() > 0
}

/// The first section of the given type whose last record is the longest.
pub open spec fn largest_last(sections: Seq<SectionView>, section_type: SectionType) -> Option<int>
    decreases sections.len(),
{
    if sections.len() == 0 {
        None
    } else {
        let i = sections.len() - 1;
        let before = largest_last(sections.drop_last(), section_type);
        if can_drop(sections[i], section_type) && (before is None || sections[i].records.last().len()
            > sections[before->0].records.last().len()) {
            Some(i)
        } else {
            before
        }
    }
}

/// The section that loses the next record: derived records go before inputs, and those before
/// interned values.
pub open spec fn next_victim(sections: Seq<SectionView>) -> Option<int> {
    if largest_last(sections, SectionType::Derived) is Some {
        largest_last(sections, SectionType::Derived)
    } else if largest_last(sections, SectionType::Input) is Some {
        largest_last(sections, SectionType::Input)
    } else {
        largest_last(sections, SectionType::Interned)
    }
}

/// The sections once section `i` has lost its last record.
pub open spec fn without_last(sections: Seq<SectionView>, i: int) -> Seq<SectionView> {
    sections.update(
        i,
        SectionView { records: sections[i].records.drop_last(), ..sections[i] },
    )
}

/// How many records there are.
pub open spec fn record_count(sections: Seq<SectionView>) -> nat
    decreases sections.len(),
{
    if sections.len() == 0 {
        0
    } else {
        record_count(sections.drop_last()) + sections.last().records.len()
    }
}

/// What [`largest_last`] picks can lose a record, no other section of the type ends with a longer
/// one, and none before it ends with one as long. It picks nothing only where nothing can be lost.
pub proof fn largest_last_can_drop(sections: Seq<SectionView>, section_type: SectionType)
    ensures
        largest_last(sections, section_type) matches Some(i) ==> {
            &&& 0 <= i < sections.len()
            &&& can_drop(sections[i], section_type)
            &&& forall|j: int|
                0 <= j < sections.len() && can_drop(#[trigger] sections[j], section_type) ==> {
                    &&& sections[j].records.last().len() <= sections[i].records.last().len()
                    &&& j < i ==> sections[j].records.last().len()
                        < sections[i].records.last().len()
                }
        },
        largest_last(sections, section_type) is None ==> forall|j: int|
            0 <= j < sections.len() ==> !can_drop(#[trigger] sections[j], section_type),
    decreases sections.len(),
{
    if sections.len() > 0 {
        let shorter = sections.drop_last();
        largest_last_can_drop(shorter, section_type);
        assert forall|j: int| 0 <= j < shorter.len() implies shorter[j] == #[trigger] sections[j] by {}
    }
}

/// A section that loses a record leaves one record fewer.
pub proof fn without_last_counts(sections: Seq<SectionView>, i: int)
    requires
        0 <= i < sections.len(),
        sections[i].records.len() > 0,
    ensures
        record_count(without_last(sections, i)) + 1 == record_count(sections),
    decreases sections.len(),
{
    let after = without_last(sections, i);
    if i == sections.len() - 1 {
        assert(after.drop_last() =~= sections.drop_last());
    } else {
        without_last_counts(sections.drop_last(), i);
        assert(after.drop_last() =~= without_last(sections.drop_last(), i));
    }
}

/// The sections once records have been dropped until what is left of `current` is within the
/// budget, or none is left.
pub open spec fn dropped_to(sections: Seq<SectionView>, current: nat, budget: nat) -> Seq<
    SectionView,
>
    decreases record_count(sections),
{
    if current <= budget {
        sections
    } else {
        match next_victim(sections) {
            None => sections,
            Some(i) => {
                proof {
                    largest_last_can_drop(sections, SectionType::Derived);
                    largest_last_can_drop(sections, SectionType::Input);
                    largest_last_can_drop(sections, SectionType::Interned);
                    without_last_counts(sections, i);
                }
                let len = sections[i].records.last().len();
                dropped_to(
                    without_last(sections, i),
                    if current >= len {
                        (current - len) as nat
                    } else {
                        0
                    },
                    budget,
                )
            },
        }
    }
}

/// How shrinking a file ends.
pub ghost enum ShrinkEnd {
    /// The file fits.
    Fits,
    /// What is not records takes too many bytes already.
    OverheadTooLarge(nat),
    /// The file is still too long after truncation.
    StillTooLarge(nat),
}

/// A file with other sections.
pub open spec fn with_sections(cache: CacheFileView, sections: Seq<SectionView>) -> CacheFileView {
    CacheFileView { sections, ..cache }
}

/// The encoding of a file.
pub open spec fn encoded_file(cache: CacheFileView) -> Seq<u8> {
    crate::postcard::cache_bytes(crate::persist::wire_cache(cache))
}

/// Where dropping more records leads, with so many tries left: the file as it is then, and how the
/// shrinking ends. Dropping a record also shortens the counts around it, so that the bytes needed
/// beside the records are measured anew on every try.
pub open spec fn refitted(cache: CacheFileView, max: nat, tries: nat) -> (CacheFileView, ShrinkEnd)
    decreases tries,
{
    let len = encoded_file(cache).len();
    let counted = counted_bytes(cache.sections);
    let overhead = if len >= counted {
        (len - counted) as nat
    } else {
        0
    };
    if len <= max {
        (cache, ShrinkEnd::Fits)
    } else if tries == 0 || overhead >= max {
        (cache, ShrinkEnd::StillTooLarge(len))
    } else {
        refitted(
            with_sections(cache, dropped_to(cache.sections, counted, (max - overhead) as nat)),
            max,
            (tries - 1) as nat,
        )
    }
}

/// How often a file that is still too long is measured again.
pub const SHRINK_TRIES: usize = 3;

/// Where shrinking a file to `max` bytes leads: the file as it is then, and how it ends.
pub open spec fn shrunk(cache: CacheFileView, max: nat) -> (CacheFileView, ShrinkEnd) {
    let len = encoded_file(cache).len();
    let counted = counted_bytes(cache.sections);
    let overhead = if len >= counted {
        (len - counted) as nat
    } else {
        len
    };
    if len <= max {
        (cache, ShrinkEnd::Fits)
    } else if overhead >= max {
        (cache, ShrinkEnd::OverheadTooLarge(overhead))
    } else {
        refitted(
            with_sections(
                cache,
                dropped_to(sorted_sections(cache.sections), counted, (max - overhead) as nat),
            ),
            max,
            SHRINK_TRIES as nat,
        )
    }
}

/// Text of the error for a file whose overhead alone is too long.
pub open spec fn overhead_text(overhead: nat, max: nat) -> Seq<char> {
    "cache overhead ("@ + crate::text::decimal(overhead) + " bytes) exceeds max_bytes ("@
        + crate::text::decimal(max) + ")"@
}

/// Text of the error for a file that is still too long.
pub open spec fn still_too_large_text(len: nat, max: nat) -> Seq<char> {
    "cache remains too large after truncation ("@ + crate::text::decimal(len) + " > "@
        + crate::text::decimal(max) + ")"@
}

/// Whether the outcome of shrinking is the one that belongs to its end.
pub open spec fn ended_as(r: PicanteResult<()>, end: ShrinkEnd, max: nat) -> bool {
    match end {
        ShrinkEnd::Fits => r is Ok,
        ShrinkEnd::OverheadTooLarge(overhead) => r matches Err(error)
            && crate::error::is_cache_error(*error, overhead_text(overhead, max)),
        ShrinkEnd::StillTooLarge(len) => r matches Err(error) && crate::error::is_cache_error(
            *error,
            still_too_large_text(len, max),
        ),
    }
}

/// Drop the longest of the records that end a section of the given type. Returns whether there was
/// one.
fn drop_one_record(
    cache: &mut CacheFile,
    section_type: SectionType,
    current_record_bytes: &mut usize,
) -> (r: bool)
    ensures
        match largest_last(old(cache)@.sections, section_type) {
            Some(i) => {
                let len = old(cache)@.sections[i].records.last().len();
                &&& r
                &&& final(cache)@ == with_sections(
                    old(cache)@,
                    without_last(old(cache)@.sections, i),
                )
                &&& *final(current_record_bytes) == (if *old(current_record_bytes) >= len {
                    *old(current_record_bytes) - len
                } else {
                    0
                })
            },
            None => {
                &&& !r
                &&& *final(cache) == *old(cache)
                &&& *final(current_record_bytes) == *old(current_record_bytes)
            },
        },
{
    let ghost all = cache@.sections;
    let mut best: Option<(usize, usize)> = None;
    let mut i: usize = 0;
    while i < cache.sections.len()
        invariant
            i <= cache.sections@.len(),
            *cache == *old(cache),
            all == cache@.sections,
            all.len() == cache.sections@.len(),
            match best {
                Some((at, len)) => {
                    &&& largest_last(all.take(i as int), section_type) == Some(at as int)
                    &&& at < i
                    &&& all[at as int].records.len() > 0
                    &&& len == all[at as int].records.last().len()
                },
                None => largest_last(all.take(i as int), section_type) is None,
            },
        decreases cache.sections@.len() - i,
    {
        let ghost longer = all.take(i + 1);
        assert(longer.drop_last() =~= all.take(i as int));
        assert(longer[i as int] == cache.sections@[i as int]@);
        let section: &Section = &cache.sections[i];
        let count: usize = section.records.len();
        assert(section@.records.len() == count);
        if section.section_type == section_type && count > 0 {
            let len: usize = section.records[count - 1].len();
            assert(section@.records.last() == section.records@[count - 1].deep_view());
            assert(section.records@[count - 1].deep_view() =~= section.records@[count - 1]@);
            let better: bool = match best {
                Some((_, best_len)) => len > best_len,
                None => true,
            };
            if better {
                best = Some((i, len));
            }
        }
        i = i + 1;
    }
    assert(all.take(i as int) =~= all);
    match best {
        Some((at, len)) => {
            let section: &mut Section = &mut cache.sections[at];
            let ghost before = section@;
            let _ = section.records.pop();
            assert(section@ =~= (SectionView { records: before.records.drop_last(), ..before }));
            assert(cache@.sections =~= without_last(all, at as int));
            *current_record_bytes = current_record_bytes.saturating_sub(len);
            true
        },
        None => false,
    }
}

/// Drop records until those left are within the budget, or none is left.
fn drop_records(cache: &mut CacheFile, current_record_bytes: usize, budget: usize)
    ensures
        final(cache)@ == with_sections(
            old(cache)@,
            dropped_to(old(cache)@.sections, current_record_bytes as nat, budget as nat),
        ),
{
    let mut current: usize = current_record_bytes;
    let ghost target = dropped_to(
        old(cache)@.sections,
        current_record_bytes as nat,
        budget as nat,
    );
    assert(cache@ =~= with_sections(old(cache)@, cache@.sections));
    while current > budget
        invariant
            cache@ == with_sections(old(cache)@, cache@.sections),
            dropped_to(cache@.sections, current as nat, budget as nat) == target,
        ensures
            cache@ == with_sections(old(cache)@, cache@.sections),
            cache@.sections == target,
        decreases record_count(cache@.sections),
    {
        let ghost before = cache@.sections;
        proof {
            largest_last_can_drop(before, SectionType::Derived);
            largest_last_can_drop(before, SectionType::Input);
            largest_last_can_drop(before, SectionType::Interned);
            if let Some(i) = next_victim(before) {
                without_last_counts(before, i);
            }
        }
        if !drop_one_record(cache, SectionType::Derived, &mut current) && !drop_one_record(
            cache,
            SectionType::Input,
            &mut current,
        ) && !drop_one_record(cache, SectionType::Interned, &mut current) {
            break;
        }
    }
}

fn sort_records(cache: &mut CacheFile)
    ensures
        final(cache)@ == with_sections(old(cache)@, sorted_sections(old(cache)@.sections)),
{
    let ghost all = cache@.sections;
    let mut i: usize = 0;
    while i < cache.sections.len()
        invariant
            i <= cache.sections@.len(),
            cache.sections@.len() == all.len(),
            all == old(cache)@.sections,
            cache@ == with_sections(old(cache)@, cache@.sections),
            forall|j: int|
                i <= j < all.len() ==> (#[trigger] cache.sections@[j])@ == all[j],
            forall|j: int|
                0 <= j < i ==> (#[trigger] cache.sections@[j])@ == (SectionView {
                    records: sorted_by_len(all[j].records),
                    ..all[j]
                }),
        decreases cache.sections@.len() - i,
    {
        let section: &mut Section = &mut cache.sections[i];
        let mut records: Vec<Vec<u8>> = Vec::new();
        std::mem::swap(&mut section.records, &mut records);
        section.records = sort_by_len(records);
        i = i + 1;
    }
    assert(cache@.sections =~= sorted_sections(all));
}

fn still_too_large(len: usize, max_bytes: usize) -> (r: PicanteResult<()>)
    ensures
        ended_as(r, ShrinkEnd::StillTooLarge(len as nat), max_bytes as nat),
{
    let mut text: String = String::new();
    text.append("cache remains too large after truncation (");
    push_decimal(&mut text, len as u64);
    text.append(" > ");
    push_decimal(&mut text, max_bytes as u64);
    text.append(")");
    assert(text@ =~= still_too_large_text(len as nat, max_bytes as nat));
    Err(cache_error(text))
}

/// Drop records until the encoded file has at most `max_bytes` bytes. Derived records are dropped
/// first, then inputs, then interned values, and of each the longest first.
pub fn shrink_cache_to_fit(cache: &mut CacheFile, max_bytes: usize) -> (r: PicanteResult<()>)
    ensures
        final(cache)@ == shrunk(old(cache)@, max_bytes as nat).0,
        ended_as(r, shrunk(old(cache)@, max_bytes as nat).1, max_bytes as nat),
{
    let bytes: Vec<u8> = match encode_cache_file(cache) {
        Ok(bytes) => bytes,
        Err(error) => {
            return Err(error);
        },
    };
    if bytes.len() <= max_bytes {
        return Ok(());
    }
    let counted: usize = count_record_bytes(cache);
    let overhead: usize = if bytes.len() >= counted {
        bytes.len() - counted
    } else {
        bytes.len()
    };
    if overhead >= max_bytes {
        let mut text: String = String::new();
        text.append("cache overhead (");
        push_decimal(&mut text, overhead as u64);
        text.append(" bytes) exceeds max_bytes (");
        push_decimal(&mut text, max_bytes as u64);
        text.append(")");
        assert(text@ =~= overhead_text(overhead as nat, max_bytes as nat));
        return Err(cache_error(text));
    }
    sort_records(cache);
    drop_records(cache, counted, max_bytes - overhead);
    let mut tries: usize = SHRINK_TRIES;
    loop
        invariant
            shrunk(old(cache)@, max_bytes as nat) == refitted(
                cache@,
                max_bytes as nat,
                tries as nat,
            ),
        decreases tries,
    {
        let bytes: Vec<u8> = match encode_cache_file(cache) {
            Ok(bytes) => bytes,
            Err(error) => {
                return Err(error);
            },
        };
        if bytes.len() <= max_bytes {
            return Ok(());
        }
        let counted: usize = count_record_bytes(cache);
        let overhead: usize = bytes.len().saturating_sub(counted);
        if tries == 0 || overhead >= max_bytes {
            return still_too_large(bytes.len(), max_bytes);
        }
        drop_records(cache, counted, max_bytes - overhead);
        tries = tries - 1;
    }
}

/// What is saved of a database: the revision, and the sections of its ingredients, shrunk where
/// the options ask for it.
pub open spec fn saved(revision: u64, sections: Seq<SectionView>, options: CacheSaveOptions) -> (
    CacheFileView,
    ShrinkEnd,
) {
    let cache = CacheFileView {
        format_version: crate::persist::FORMAT_VERSION,
        current_revision: revision,
        sections,
    };
    match options.max_bytes {
        Some(max) => shrunk(cache, max as nat),
        None => (cache, ShrinkEnd::Fits),
    }
}

/// Whether saving came out as it must.
pub open spec fn save_came_out(
    revision: u64,
    sections: Seq<Section>,
    options: CacheSaveOptions,
    r: PicanteResult<Vec<u8>>,
) -> bool {
    let (cache, end) = saved(revision, crate::persist::section_views(sections), options);
    if end is Fits {
        r matches Ok(out) && out@ == encoded_file(cache)
    } else {
        r matches Err(error) && options.max_bytes matches Some(max) && ended_as(
            Err(error),
            end,
            max as nat,
        )
    }
}

/// The bytes of a cache file for a database at `revision`, given the sections of its ingredients
/// (see [`build_section`]).
pub fn encode_for_save(revision: u64, sections: Vec<Section>, options: &CacheSaveOptions) -> (r:
    PicanteResult<Vec<u8>>)
    ensures
        ({
            let (cache, end) = saved(
                revision,
                crate::persist::section_views(sections@),
                *options,
            );
            if end is Fits {
                r matches Ok(out) && out@ == encoded_file(cache)
            } else {
                r matches Err(error) && options.max_bytes matches Some(max) && ended_as(
                    Err(error),
                    end,
                    max as nat,
                )
            }
        }),
        save_came_out(revision, sections@, *options, r),
{
    let mut cache = CacheFile {
        format_version: crate::persist::FORMAT_VERSION,
        current_revision: revision,
        sections,
    };
    if let Some(max) = options.max_bytes {
        match shrink_cache_to_fit(&mut cache, max) {
            Ok(_) => {},
            Err(error) => {
                return Err(error);
            },
        }
    }
    encode_cache_file(&cache)
}

/// A file that was shrunk without an error has at most as many bytes as were asked for.
pub proof fn shrunk_file_fits(cache: CacheFileView, max: nat)
    requires
        shrunk(cache, max).1 is Fits,
    ensures
        encoded_file(shrunk(cache, max).0).len() <= max,
{
    let len = encoded_file(cache).len();
    if len > max {
        let counted = counted_bytes(cache.sections);
        let overhead = if len >= counted {
            (len - counted) as nat
        } else {
            len
        };
        refitted_file_fits(
            with_sections(
                cache,
                dropped_to(sorted_sections(cache.sections), counted, (max - overhead) as nat),
            ),
            max,
            SHRINK_TRIES as nat,
        );
    }
}

proof fn refitted_file_fits(cache: CacheFileView, max: nat, tries: nat)
    requires
        refitted(cache, max, tries).1 is Fits,
    ensures
        encoded_file(refitted(cache, max, tries).0).len() <= max,
    decreases tries,
{
    let len = encoded_file(cache).len();
    if len > max {
        let counted = counted_bytes(cache.sections);
        let overhead = if len >= counted {
            (len - counted) as nat
        } else {
            0
        };
        refitted_file_fits(
            with_sections(cache, dropped_to(cache.sections, counted, (max - overhead) as nat)),
            max,
            (tries - 1) as nat,
        );
    }
}

/// Whether `after` is `before` with records taken off the ends of sections, derived ones before
/// inputs and those before interned values.
pub open spec fn truncated(before: Seq<SectionView>, after: Seq<SectionView>) -> bool {
    &&& before.len() == after.len()
    &&& forall|i: int|
        0 <= i < before.len() ==> {
            &&& (#[trigger] after[i]).kind_id == before[i].kind_id
            &&& after[i].kind_name == before[i].kind_name
            &&& after[i].section_type == before[i].section_type
            &&& after[i].records.len() <= before[i].records.len()
            &&& after[i].records == before[i].records.take(after[i].records.len() as int)
        }
    &&& forall|i: int, j: int|
        0 <= i < before.len() && 0 <= j < before.len() && #[trigger] lost_some(before, after, i)
            && drop_rank(before[j].section_type) < drop_rank(before[i].section_type) ==> (
        #[trigger] after[j]).records.len() == 0
}

/// Whether section `i` has fewer records than before.
pub open spec fn lost_some(before: Seq<SectionView>, after: Seq<SectionView>, i: int) -> bool {
    after[i].records.len() < before[i].records.len()
}

/// The turn in which sections of a type lose records.
pub open spec fn drop_rank(section_type: SectionType) -> nat {
    match section_type {
        SectionType::Derived => 0,
        SectionType::Input => 1,
        SectionType::Interned => 2,
    }
}

proof fn one_drop_truncates(sections: Seq<SectionView>, i: int)
    requires
        next_victim(sections) == Some(i),
    ensures
        0 <= i < sections.len(),
        sections[i].records.len() > 0,
        truncated(sections, without_last(sections, i)),
{
    largest_last_can_drop(sections, SectionType::Derived);
    largest_last_can_drop(sections, SectionType::Input);
    largest_last_can_drop(sections, SectionType::Interned);
    let after = without_last(sections, i);
    assert forall|k: int| 0 <= k < sections.len() implies {
        &&& (#[trigger] after[k]).records.len() <= sections[k].records.len()
        &&& after[k].records == sections[k].records.take(after[k].records.len() as int)
    } by {
        assert(after[k].records =~= sections[k].records.take(after[k].records.len() as int));
    }
    assert forall|k: int, j: int|
        0 <= k < sections.len() && 0 <= j < sections.len() && #[trigger] lost_some(
            sections,
            after,
            k,
        ) && drop_rank(sections[j].section_type) < drop_rank(sections[k].section_type) implies (
    #[trigger] after[j]).records.len() == 0 by {
        assert(k == i);
        assert(!can_drop(sections[j], sections[j].section_type));
    }
}

proof fn truncating_twice(a: Seq<SectionView>, b: Seq<SectionView>, c: Seq<SectionView>)
    requires
        truncated(a, b),
        truncated(b, c),
    ensures
        truncated(a, c),
{
    assert forall|i: int| 0 <= i < a.len() implies {
        &&& (#[trigger] c[i]).kind_id == a[i].kind_id
        &&& c[i].kind_name == a[i].kind_name
        &&& c[i].section_type == a[i].section_type
        &&& c[i].records.len() <= a[i].records.len()
        &&& c[i].records == a[i].records.take(c[i].records.len() as int)
    } by {
        assert(b[i].kind_id == a[i].kind_id);
        assert(c[i].records =~= a[i].records.take(c[i].records.len() as int));
    }
    assert forall|i: int, j: int|
        0 <= i < a.len() && 0 <= j < a.len() && #[trigger] lost_some(a, c, i) && drop_rank(
            a[j].section_type,
        ) < drop_rank(a[i].section_type) implies (#[trigger] c[j]).records.len() == 0 by {
        assert(b[i].kind_id == a[i].kind_id && b[j].kind_id == a[j].kind_id);
        if lost_some(b, c, i) {
        } else {
            assert(lost_some(a, b, i));
            assert(b[j].records.len() == 0);
        }
    }
}

/// Dropping records takes them off the ends of sections, in turn by the type of the section.
pub proof fn dropping_truncates(sections: Seq<SectionView>, current: nat, budget: nat)
    ensures
        truncated(sections, dropped_to(sections, current, budget)),
    decreases record_count(sections),
{
    nothing_lost(sections);
    if current > budget {
        if let Some(i) = next_victim(sections) {
            one_drop_truncates(sections, i);
            without_last_counts(sections, i);
            let len = sections[i].records.last().len();
            let left = if current >= len {
                (current - len) as nat
            } else {
                0
            };
            dropping_truncates(without_last(sections, i), left, budget);
            truncating_twice(
                sections,
                without_last(sections, i),
                dropped_to(sections, current, budget),
            );
        }
    }
}

proof fn nothing_lost(sections: Seq<SectionView>)
    ensures
        truncated(sections, sections),
{
    assert forall|i: int| 0 <= i < sections.len() implies (#[trigger] sections[i]).records
        == sections[i].records.take(sections[i].records.len() as int) by {
        assert(sections[i].records =~= sections[i].records.take(
            sections[i].records.len() as int,
        ));
    }
}

proof fn refitting_truncates(cache: CacheFileView, max: nat, tries: nat)
    ensures
        truncated(cache.sections, refitted(cache, max, tries).0.sections),
        refitted(cache, max, tries).0 == with_sections(
            cache,
            refitted(cache, max, tries).0.sections,
        ),
    decreases tries,
{
    nothing_lost(cache.sections);
    let len = encoded_file(cache).len();
    let counted = counted_bytes(cache.sections);
    let overhead = if len >= counted {
        (len - counted) as nat
    } else {
        0
    };
    if len > max && tries > 0 && overhead < max {
        let budget = (max - overhead) as nat;
        let fewer = dropped_to(cache.sections, counted, budget);
        dropping_truncates(cache.sections, counted, budget);
        refitting_truncates(with_sections(cache, fewer), max, (tries - 1) as nat);
        truncating_twice(
            cache.sections,
            fewer,
            refitted(cache, max, tries).0.sections,
        );
    }
}

/// Shrinking leaves a file as it was, or orders the records of each section by length and takes
/// records off the ends: no input goes while a derived record is left, and no interned value while
/// an input or a derived record is. Everything else in the file stays.
pub proof fn shrinking_truncates(cache: CacheFileView, max: nat)
    ensures
        shrunk(cache, max).0 == cache || truncated(
            sorted_sections(cache.sections),
            shrunk(cache, max).0.sections,
        ),
        shrunk(cache, max).0 == with_sections(cache, shrunk(cache, max).0.sections),
{
    let len = encoded_file(cache).len();
    let counted = counted_bytes(cache.sections);
    let overhead = if len >= counted {
        (len - counted) as nat
    } else {
        len
    };
    if len > max && overhead < max {
        let sorted = sorted_sections(cache.sections);
        let budget = (max - overhead) as nat;
        let fewer = dropped_to(sorted, counted, budget);
        dropping_truncates(sorted, counted, budget);
        refitting_truncates(with_sections(cache, fewer), max, SHRINK_TRIES as nat);
        truncating_twice(sorted, fewer, shrunk(cache, max).0.sections);
    }
}

proof fn inserting_orders(sorted: Seq<Seq<u8>>, record: Seq<u8>)
    requires
        forall|i: int, j: int| 0 <= i <= j < sorted.len() ==> sorted[i].len() <= sorted[j].len(),
    ensures
        ({
            let longer = inserted_by_len(sorted, record);
            &&& longer.len() == sorted.len() + 1
            &&& longer.to_multiset() == sorted.to_multiset().insert(record)
            &&& forall|i: int, j: int|
                0 <= i <= j < longer.len() ==> longer[i].len() <= longer[j].len()
            &&& longer.last().len() == record.len() || sorted.len() > 0 && longer.last()
                == sorted.last()
        }),
    decreases sorted.len(),
{
    broadcast use vstd::seq_lib::group_to_multiset_ensures;

    if sorted.len() > 0 && sorted.last().len() > record.len() {
        let shorter = sorted.drop_last();
        inserting_orders(shorter, record);
        assert(shorter.push(sorted.last()) =~= sorted);
        let longer = inserted_by_len(sorted, record);
        assert(longer.to_multiset() =~= sorted.to_multiset().insert(record));
        assert forall|i: int, j: int| 0 <= i <= j < longer.len() implies longer[i].len()
            <= longer[j].len() by {
            let front = inserted_by_len(shorter, record);
            if j == longer.len() - 1 && i < j {
                assert(front[i].len() <= front[front.len() - 1].len());
            }
        }
    }
}

/// Ordering records by length keeps every record and puts the shortest first.
pub proof fn sorting_orders(records: Seq<Seq<u8>>)
    ensures
        sorted_by_len(records).to_multiset() == records.to_multiset(),
        sorted_by_len(records).len() == records.len(),
        forall|i: int, j: int|
            0 <= i <= j < records.len() ==> sorted_by_len(records)[i].len() <= sorted_by_len(
                records,
            )[j].len(),
    decreases records.len(),
{
    broadcast use vstd::seq_lib::group_to_multiset_ensures;

    if records.len() > 0 {
        sorting_orders(records.drop_last());
        inserting_orders(sorted_by_len(records.drop_last()), records.last());
        assert(records.drop_last().push(records.last()) =~= records);
    } else {
        assert(records =~= Seq::empty());
    }
}

} // verus!
