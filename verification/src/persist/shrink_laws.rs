//! What shrinking a file to a size keeps.
#[allow(unused_imports)]
use crate::persist::save::ShrinkEnd;
#[allow(unused_imports)]
use crate::persist::{CacheFileView, SectionType, SectionView};
use vstd::prelude::*;

verus! {

/// How many bytes records hold is the sum over them.
pub proof fn record_lengths_add_up(a: Seq<Seq<u8>>, b: Seq<Seq<u8>>, record: Seq<u8>)
    ensures
        crate::persist::save::bytes_of(Seq::empty()) == 0,
        crate::persist::save::bytes_of(seq![record]) == record.len(),
        crate::persist::save::bytes_of(a + b) == crate::persist::save::bytes_of(a)
            + crate::persist::save::bytes_of(b),
    decreases b.len(),
{
    reveal_with_fuel(crate::persist::save::bytes_of, 2);
    assert(seq![record].drop_last() =~= Seq::empty());
    if b.len() == 0 {
        assert(a + b =~= a);
    } else {
        record_lengths_add_up(a, b.drop_last(), record);
        assert((a + b).drop_last() =~= a + b.drop_last());
        assert((a + b).last() == b.last());
    }
}

/// How many bytes sections hold is the sum over them.
pub proof fn section_lengths_add_up(a: Seq<SectionView>, b: Seq<SectionView>, section: SectionView)
    ensures
        crate::persist::save::record_bytes(Seq::empty()) == 0,
        crate::persist::save::record_bytes(seq![section]) == crate::persist::save::bytes_of(
            section.records,
        ),
        crate::persist::save::record_bytes(a + b) == crate::persist::save::record_bytes(a)
            + crate::persist::save::record_bytes(b),
    decreases b.len(),
{
    reveal_with_fuel(crate::persist::save::record_bytes, 2);
    assert(seq![section].drop_last() =~= Seq::empty());
    if b.len() == 0 {
        assert(a + b =~= a);
    } else {
        section_lengths_add_up(a, b.drop_last(), section);
        assert((a + b).drop_last() =~= a + b.drop_last());
        assert((a + b).last() == b.last());
    }
}

proof fn dropping_frees(sections: Seq<SectionView>, i: int)
    requires
        0 <= i < sections.len(),
        sections[i].records.len() > 0,
    ensures
        crate::persist::save::record_bytes(crate::persist::save::without_last(sections, i))
            + sections[i].records.last().len() == crate::persist::save::record_bytes(sections),
    decreases sections.len(),
{
    let after = crate::persist::save::without_last(sections, i);
    if i == sections.len() - 1 {
        assert(after.drop_last() =~= sections.drop_last());
    } else {
        dropping_frees(sections.drop_last(), i);
        assert(after.drop_last() =~= crate::persist::save::without_last(sections.drop_last(), i));
    }
}

/// Records are put in order of their length, and those of one length stay in the order they were
/// in.
pub proof fn sorting_is_stable(records: Seq<Seq<u8>>, len: nat)
    ensures
        crate::persist::save::sorted_by_len(records).filter(|r: Seq<u8>| r.len() == len)
            == records.filter(|r: Seq<u8>| r.len() == len),
    decreases records.len(),
{
    let p = |r: Seq<u8>| r.len() == len;
    assert(Seq::<Seq<u8>>::empty().filter(p) =~= Seq::empty()) by {
        reveal(Seq::filter);
    }
    if records.len() > 0 {
        let shorter = records.drop_last();
        sorting_is_stable(shorter, len);
        let sorted = crate::persist::save::sorted_by_len(shorter);
        inserting_is_stable(sorted, records.last(), len);
        assert(records =~= shorter.push(records.last()));
        assert(records.filter(p) == if p(records.last()) {
            shorter.filter(p).push(records.last())
        } else {
            shorter.filter(p)
        }) by {
            reveal(Seq::filter);
        }
    } else {
        assert(records =~= Seq::empty());
        assert(crate::persist::save::sorted_by_len(records) =~= Seq::empty());
    }
}

proof fn inserting_is_stable(sorted: Seq<Seq<u8>>, record: Seq<u8>, len: nat)
    ensures
        crate::persist::save::inserted_by_len(sorted, record).filter(
            |r: Seq<u8>| r.len() == len,
        ) == (if record.len() == len {
            sorted.filter(|r: Seq<u8>| r.len() == len).push(record)
        } else {
            sorted.filter(|r: Seq<u8>| r.len() == len)
        }),
    decreases sorted.len(),
{
    let p = |r: Seq<u8>| r.len() == len;
    let inserted = crate::persist::save::inserted_by_len(sorted, record);
    if sorted.len() == 0 || sorted.last().len() <= record.len() {
        assert(inserted.drop_last() =~= sorted);
        assert(inserted.last() == record);
        assert(inserted.filter(p) == if p(record) {
            sorted.filter(p).push(record)
        } else {
            sorted.filter(p)
        }) by {
            reveal(Seq::filter);
        }
    } else {
        let shorter = sorted.drop_last();
        inserting_is_stable(shorter, record, len);
        let before = crate::persist::save::inserted_by_len(shorter, record);
        assert(inserted.drop_last() =~= before);
        assert(inserted.last() == sorted.last());
        assert(inserted.filter(p) == if p(sorted.last()) {
            before.filter(p).push(sorted.last())
        } else {
            before.filter(p)
        }) by {
            reveal(Seq::filter);
        }
        assert(sorted.filter(p) == if p(sorted.last()) {
            shorter.filter(p).push(sorted.last())
        } else {
            shorter.filter(p)
        }) by {
            reveal(Seq::filter);
        }
    }
}

/// Whether putting the last record that section `i` lost back would be too much.
pub open spec fn had_to_go(
    before: Seq<SectionView>,
    after: Seq<SectionView>,
    budget: nat,
    i: int,
) -> bool {
    &&& 0 <= i < before.len()
    &&& after[i].records.len() < before[i].records.len()
    &&& crate::persist::save::record_bytes(after)
        + before[i].records[after[i].records.len() as int].len() > budget
}

/// Dropping records to a budget of bytes stops as soon as what is left is within it: nothing is
/// dropped from sections within the budget, what is left is within it unless no record is, and with
/// the record that went last it would not have been.
pub proof fn nothing_is_dropped_in_vain(sections: Seq<SectionView>, budget: nat)
    ensures
        ({
            let held = crate::persist::save::record_bytes(sections);
            let after = crate::persist::save::dropped_to(sections, held, budget);
            &&& held <= budget ==> after == sections
            &&& crate::persist::save::record_bytes(after) <= budget || forall|i: int|
                0 <= i < after.len() ==> (#[trigger] after[i]).records.len() == 0
            &&& after != sections ==> exists|i: int| had_to_go(sections, after, budget, i)
        }),
    decreases crate::persist::save::record_count(sections),
{
    let held = crate::persist::save::record_bytes(sections);
    let after = crate::persist::save::dropped_to(sections, held, budget);
    crate::persist::save::largest_last_can_drop(sections, SectionType::Derived);
    crate::persist::save::largest_last_can_drop(sections, SectionType::Input);
    crate::persist::save::largest_last_can_drop(sections, SectionType::Interned);
    if held > budget {
        match crate::persist::save::next_victim(sections) {
            Some(i) => {
                let fewer = crate::persist::save::without_last(sections, i);
                dropping_frees(sections, i);
                crate::persist::save::without_last_counts(sections, i);
                nothing_is_dropped_in_vain(fewer, budget);
                crate::persist::save::dropping_truncates(
                    fewer,
                    crate::persist::save::record_bytes(fewer),
                    budget,
                );
                if after == fewer {
                    assert(had_to_go(sections, after, budget, i));
                } else {
                    let k = choose|k: int| had_to_go(fewer, after, budget, k);
                    assert(had_to_go(sections, after, budget, k));
                }
            },
            None => {
                assert forall|i: int| 0 <= i < after.len() implies (#[trigger] after[i]).records.len()
                    == 0 by {
                    assert(!crate::persist::save::can_drop(sections[i], sections[i].section_type));
                }
            },
        }
    }
}

/// Whether the records of every section are in order of their length.
pub open spec fn all_in_order(sections: Seq<SectionView>) -> bool {
    forall|i: int, a: int, b: int|
        0 <= i < sections.len() && 0 <= a <= b < sections[i].records.len() ==> (
        #[trigger] sections[i].records[a]).len() <= (#[trigger] sections[i].records[b]).len()
}

/// Whether no record that went was shorter than one that stayed in a section of the same type.
pub open spec fn largest_went(before: Seq<SectionView>, after: Seq<SectionView>) -> bool {
    forall|i: int, j: int, a: int, b: int|
        0 <= i < before.len() && 0 <= j < before.len() && before[i].section_type
            == before[j].section_type && after[i].records.len() <= a < before[i].records.len() && 0
            <= b < after[j].records.len() ==> (#[trigger] before[i].records[a]).len() >= (
        #[trigger] before[j].records[b]).len()
}

/// Of the sections of one type, the largest records go first.
pub proof fn largest_records_go_first(sections: Seq<SectionView>, current: nat, budget: nat)
    requires
        all_in_order(sections),
    ensures
        largest_went(sections, crate::persist::save::dropped_to(sections, current, budget)),
    decreases crate::persist::save::record_count(sections),
{
    let after = crate::persist::save::dropped_to(sections, current, budget);
    if current > budget {
        if let Some(v) = crate::persist::save::next_victim(sections) {
            crate::persist::save::largest_last_can_drop(sections, SectionType::Derived);
            crate::persist::save::largest_last_can_drop(sections, SectionType::Input);
            crate::persist::save::largest_last_can_drop(sections, SectionType::Interned);
            let fewer = crate::persist::save::without_last(sections, v);
            crate::persist::save::without_last_counts(sections, v);
            let len = sections[v].records.last().len();
            let left = if current >= len {
                (current - len) as nat
            } else {
                0
            };
            assert(all_in_order(fewer)) by {
                assert forall|i: int, a: int, b: int|
                    0 <= i < fewer.len() && 0 <= a <= b < fewer[i].records.len() implies (
                #[trigger] fewer[i].records[a]).len() <= (#[trigger] fewer[i].records[b]).len() by {
                    assert(sections[i].records[a].len() <= sections[i].records[b].len());
                }
            }
            largest_records_go_first(fewer, left, budget);
            crate::persist::save::dropping_truncates(fewer, left, budget);
            assert forall|i: int, j: int, a: int, b: int|
                0 <= i < sections.len() && 0 <= j < sections.len() && sections[i].section_type
                    == sections[j].section_type && after[i].records.len() <= a
                    < sections[i].records.len() && 0 <= b < after[j].records.len() implies (
            #[trigger] sections[i].records[a]).len() >= (#[trigger] sections[j].records[b]).len() by {
                assert(after[j].kind_id == fewer[j].kind_id);
                if i == v && a == sections[v].records.len() - 1 {
                    assert(crate::persist::save::can_drop(sections[j], sections[j].section_type));
                    let last = sections[j].records.len() - 1;
                    assert(sections[j].records[b].len() <= sections[j].records[last].len());
                } else {
                    assert(fewer[i].records[a] == sections[i].records[a]);
                    assert(fewer[j].records[b] == sections[j].records[b]);
                }
            }
        }
    }
}

/// A file that is too large is cut down to the size it may have: its records are put in order of
/// their length, and as many bytes of them are kept as the file may have beside everything else in
/// it. Where that is enough, no more goes.
pub proof fn one_cut_is_enough(cache: CacheFileView, max: nat)
    requires
        crate::persist::save::record_bytes(cache.sections) <= usize::MAX,
    ensures
        ({
            let len = crate::persist::save::encoded_file(cache).len();
            let held = crate::persist::save::record_bytes(cache.sections);
            let sorted = crate::persist::save::sorted_sections(cache.sections);
            let cut = CacheFileView {
                sections: crate::persist::save::dropped_to(
                    sorted,
                    crate::persist::save::record_bytes(sorted),
                    (held - (len - max)) as nat,
                ),
                ..cache
            };
            len > max && len >= held && len - held < max && crate::persist::save::encoded_file(
                cut,
            ).len() <= max ==> crate::persist::save::shrunk(cache, max).0 == cut
        }),
{
    sorting_keeps_bytes(cache.sections);
}

/// A file cut down once more: as many bytes of its records are kept as it may have beside everything
/// else in it.
pub open spec fn cut_again(cache: CacheFileView, max: nat) -> CacheFileView {
    let len = crate::persist::save::encoded_file(cache).len();
    let held = crate::persist::save::record_bytes(cache.sections);
    CacheFileView {
        sections: crate::persist::save::dropped_to(
            cache.sections,
            held,
            (held - (len - max)) as nat,
        ),
        ..cache
    }
}

/// Whether a file is too large, but would not be without its records.
pub open spec fn can_be_cut(cache: CacheFileView, max: nat) -> bool {
    let len = crate::persist::save::encoded_file(cache).len();
    let held = crate::persist::save::record_bytes(cache.sections);
    len > max && held <= len && held <= usize::MAX && len - held < max
}

/// A file cut down several times.
pub open spec fn cut_times(cache: CacheFileView, max: nat, times: nat) -> CacheFileView
    decreases times,
{
    if times == 0 {
        cache
    } else {
        cut_times(cut_again(cache, max), max, (times - 1) as nat)
    }
}

proof fn refitting_cuts(cache: CacheFileView, max: nat, times: nat, tries: nat)
    requires
        times <= tries,
        forall|n: nat| n < times ==> can_be_cut(#[trigger] cut_times(cache, max, n), max),
        crate::persist::save::encoded_file(cut_times(cache, max, times)).len() <= max,
    ensures
        crate::persist::save::refitted(cache, max, tries) == (
            cut_times(cache, max, times),
            ShrinkEnd::Fits,
        ),
    decreases times,
{
    if times > 0 {
        let next = cut_again(cache, max);
        assert(cut_times(cache, max, 0) == cache);
        assert(can_be_cut(cache, max));
        assert forall|n: nat| n < times - 1 implies can_be_cut(
            #[trigger] cut_times(next, max, n),
            max,
        ) by {
            assert(cut_times(cache, max, n + 1) == cut_times(next, max, n));
        }
        refitting_cuts(next, max, (times - 1) as nat, (tries - 1) as nat);
    }
}

/// Where the first cut is not enough, because a file is written differently with fewer records in it,
/// it is cut again, up to three times, and kept as soon as it fits.
pub proof fn files_are_cut_until_they_fit(cache: CacheFileView, max: nat, times: nat)
    requires
        can_be_cut(cache, max),
        times <= 3,
        ({
            let first = first_cut(cache, max);
            &&& forall|n: nat| n < times ==> can_be_cut(#[trigger] cut_times(first, max, n), max)
            &&& crate::persist::save::encoded_file(cut_times(first, max, times)).len() <= max
        }),
    ensures
        crate::persist::save::shrunk(cache, max) == (
            cut_times(first_cut(cache, max), max, times),
            ShrinkEnd::Fits,
        ),
{
    sorting_keeps_bytes(cache.sections);
    refitting_cuts(first_cut(cache, max), max, times, 3);
}

/// A file with its records put in order of their length, and cut down once.
pub open spec fn first_cut(cache: CacheFileView, max: nat) -> CacheFileView {
    let len = crate::persist::save::encoded_file(cache).len();
    let held = crate::persist::save::record_bytes(cache.sections);
    CacheFileView {
        sections: crate::persist::save::dropped_to(
            crate::persist::save::sorted_sections(cache.sections),
            held,
            (held - (len - max)) as nat,
        ),
        ..cache
    }
}

proof fn refitting_gives_up_on_large_files(cache: CacheFileView, max: nat, tries: nat)
    ensures
        ({
            let (left, end) = crate::persist::save::refitted(cache, max, tries);
            let len = crate::persist::save::encoded_file(left).len();
            &&& end is Fits <==> len <= max
            &&& end is Fits || end == ShrinkEnd::StillTooLarge(len)
        }),
    decreases tries,
{
    let len = crate::persist::save::encoded_file(cache).len();
    let counted = crate::persist::save::counted_bytes(cache.sections);
    let overhead = if len >= counted {
        (len - counted) as nat
    } else {
        0
    };
    if len > max && tries > 0 && overhead < max {
        refitting_gives_up_on_large_files(
            crate::persist::save::with_sections(
                cache,
                crate::persist::save::dropped_to(cache.sections, counted, (max - overhead) as nat),
            ),
            max,
            (tries - 1) as nat,
        );
    }
}

/// Shrinking a file gives up only on one that is too large: because everything beside its records is
/// already, and then the file is left as it was; or because it still is at the end, and then its
/// length is told.
pub proof fn only_large_files_are_given_up(cache: CacheFileView, max: nat)
    requires
        crate::persist::save::record_bytes(cache.sections) <= usize::MAX,
    ensures
        ({
            let (left, end) = crate::persist::save::shrunk(cache, max);
            let len = crate::persist::save::encoded_file(cache).len();
            let held = crate::persist::save::record_bytes(cache.sections);
            match end {
                ShrinkEnd::Fits => crate::persist::save::encoded_file(left).len() <= max,
                ShrinkEnd::OverheadTooLarge(told) => {
                    &&& left == cache
                    &&& len > max
                    &&& told >= max
                    &&& held <= len ==> told == len - held
                },
                ShrinkEnd::StillTooLarge(told) => {
                    &&& told == crate::persist::save::encoded_file(left).len()
                    &&& told > max
                    &&& held <= len ==> len - held < max
                },
            }
        }),
{
    let len = crate::persist::save::encoded_file(cache).len();
    let counted = crate::persist::save::counted_bytes(cache.sections);
    let overhead = if len >= counted {
        (len - counted) as nat
    } else {
        len
    };
    if len > max && overhead < max {
        refitting_gives_up_on_large_files(
            crate::persist::save::with_sections(
                cache,
                crate::persist::save::dropped_to(
                    crate::persist::save::sorted_sections(cache.sections),
                    counted,
                    (max - overhead) as nat,
                ),
            ),
            max,
            crate::persist::save::SHRINK_TRIES as nat,
        );
    }
}

proof fn sorting_keeps_bytes(sections: Seq<SectionView>)
    ensures
        crate::persist::save::record_bytes(crate::persist::save::sorted_sections(sections))
            == crate::persist::save::record_bytes(sections),
    decreases sections.len(),
{
    let sorted = crate::persist::save::sorted_sections(sections);
    if sections.len() > 0 {
        sorting_keeps_bytes(sections.drop_last());
        assert(sorted.drop_last() =~= crate::persist::save::sorted_sections(sections.drop_last()));
        sorted_records_keep_bytes(sections.last().records);
        assert(sorted.last().records == crate::persist::save::sorted_by_len(
            sections.last().records,
        ));
    }
}

proof fn sorted_records_keep_bytes(records: Seq<Seq<u8>>)
    ensures
        crate::persist::save::bytes_of(crate::persist::save::sorted_by_len(records))
            == crate::persist::save::bytes_of(records),
    decreases records.len(),
{
    if records.len() > 0 {
        sorted_records_keep_bytes(records.drop_last());
        inserted_record_counts(
            crate::persist::save::sorted_by_len(records.drop_last()),
            records.last(),
        );
    }
}

proof fn inserted_record_counts(sorted: Seq<Seq<u8>>, record: Seq<u8>)
    ensures
        crate::persist::save::bytes_of(crate::persist::save::inserted_by_len(sorted, record))
            == crate::persist::save::bytes_of(sorted) + record.len(),
    decreases sorted.len(),
{
    let inserted = crate::persist::save::inserted_by_len(sorted, record);
    if sorted.len() == 0 || sorted.last().len() <= record.len() {
        assert(inserted.drop_last() =~= sorted);
    } else {
        inserted_record_counts(sorted.drop_last(), record);
        assert(inserted.drop_last() =~= crate::persist::save::inserted_by_len(
            sorted.drop_last(),
            record,
        ));
    }
}

} // verus!
