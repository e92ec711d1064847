//! Cache persistence for ingredients: the cache file, its limits and its policies.
//!
//! A cache file holds a format version, the revision of the database and one section of opaque
//! records per ingredient. The functions here work on bytes and records; reading and writing
//! files, and asking the ingredients for their records, is left to the caller.
use crate::error::{PicanteError, PicanteResult};
use crate::postcard::{decode_cache, encode_cache, WireCache, WireSection};
#[allow(unused_imports)]
use crate::postcard::{WireCacheView, WireSectionView};
use crate::text::push_decimal;
use std::sync::Arc;
use vstd::prelude::*;
use vstd::slice::slice_to_vec;

pub mod load;
pub mod log;
pub mod plan_laws;
pub mod save;
pub mod shrink_laws;
pub mod step_laws;

verus! {

/// Format version of the cache file.
pub const FORMAT_VERSION: u32 = 1;

/// Controls what happens when a cache file can't be decoded or validated.
#[derive(Debug, Copy, Clone, Eq, PartialEq, Structural)]
pub enum OnCorruptCache {
    /// Return an error from the load function.
    Error,
    /// Ignore the cache and return `Ok(false)`.
    Ignore,
    /// Delete the cache file (best effort) and return `Ok(false)`.
    Delete,
}

/// Options for loading a cache file.
#[derive(Debug, Clone)]
pub struct CacheLoadOptions {
    /// If set, rejects cache files larger than this.
    pub max_bytes: Option<usize>,
    /// Policy for decode/validation failures.
    pub on_corrupt: OnCorruptCache,
}

impl Default for CacheLoadOptions {
    fn default() -> (r: Self)
        ensures
            r == (CacheLoadOptions { max_bytes: None, on_corrupt: OnCorruptCache::Error }),
    {
        CacheLoadOptions { max_bytes: None, on_corrupt: OnCorruptCache::Error }
    }
}

/// Options for saving a cache file.
#[derive(Debug, Clone)]
pub struct CacheSaveOptions {
    /// If set, best-effort truncates records to fit within this many bytes.
    ///
    /// Truncation prefers dropping derived records over input/interned records.
    pub max_bytes: Option<usize>,
    /// If set, truncates each section to at most this many records.
    pub max_records_per_section: Option<usize>,
    /// If set, records larger than this are skipped (best effort).
    pub max_record_bytes: Option<usize>,
}

impl Default for CacheSaveOptions {
    fn default() -> (r: Self)
        ensures
            r == (CacheSaveOptions {
                max_bytes: None,
                max_records_per_section: None,
                max_record_bytes: None,
            }),
    {
        CacheSaveOptions { max_bytes: None, max_records_per_section: None, max_record_bytes: None }
    }
}

/// Section type for persistence.
#[derive(Debug, Copy, Clone, Eq, PartialEq, Structural)]
pub enum SectionType {
    /// Key-value input storage.
    Input,
    /// Memoized derived query cells.
    Derived,
    /// Interned value tables.
    Interned,
}

/// A per-ingredient cache section.
#[derive(Debug)]
pub struct Section {
    /// Stable ingredient kind id.
    pub kind_id: u32,
    /// Human-readable name (debugging / mismatch detection).
    pub kind_name: String,
    /// Whether this section is for an input, a derived query or interned values.
    pub section_type: SectionType,
    /// Ingredient-defined records (each record is its own encoded blob).
    pub records: Vec<Vec<u8>>,
}

/// Top-level cache file payload.
#[derive(Debug)]
pub struct CacheFile {
    /// Cache format version.
    pub format_version: u32,
    /// The database's current revision at the time of the snapshot.
    pub current_revision: u64,
    /// Per-ingredient sections.
    pub sections: Vec<Section>,
}

/// What a section holds.
#[verifier::ext_equal]
pub ghost struct SectionView {
    /// Stable ingredient kind id.
    pub kind_id: u32,
    /// Human-readable name.
    pub kind_name: Seq<char>,
    /// What kind of ingredient the section is for.
    pub section_type: SectionType,
    /// The records.
    pub records: Seq<Seq<u8>>,
}

/// What a cache file holds.
#[verifier::ext_equal]
pub ghost struct CacheFileView {
    /// Cache format version.
    pub format_version: u32,
    /// The database's revision.
    pub current_revision: u64,
    /// The sections.
    pub sections: Seq<SectionView>,
}

impl View for Section {
    type V = SectionView;

    open spec fn view(&self) -> SectionView {
        SectionView {
            kind_id: self.kind_id,
            kind_name: self.kind_name@,
            section_type: self.section_type,
            records: self.records.deep_view(),
        }
    }
}

/// What each of several sections holds.
pub open spec fn section_views(sections: Seq<Section>) -> Seq<SectionView> {
    sections.map_values(|s: Section| s@)
}

impl View for CacheFile {
    type V = CacheFileView;

    open spec fn view(&self) -> CacheFileView {
        CacheFileView {
            format_version: self.format_version,
            current_revision: self.current_revision,
            sections: section_views(self.sections@),
        }
    }
}

/// The number that stands for a section type in the file.
pub open spec fn type_index(section_type: SectionType) -> u64 {
    match section_type {
        SectionType::Input => 0,
        SectionType::Derived => 1,
        SectionType::Interned => 2,
    }
}

/// A section as it is encoded.
pub open spec fn wire_section(section: SectionView) -> WireSectionView {
    (section.kind_id, section.kind_name, type_index(section.section_type), section.records)
}

/// A cache file as it is encoded.
pub open spec fn wire_cache(cache: CacheFileView) -> WireCacheView {
    (
        cache.format_version,
        cache.current_revision,
        cache.sections.map_values(|s: SectionView| wire_section(s)),
    )
}

/// Files that are encoded alike are the same.
proof fn wire_cache_injective(a: CacheFileView, b: CacheFileView)
    requires
        wire_cache(a) == wire_cache(b),
    ensures
        a == b,
{
    assert(a.sections.len() == wire_cache(a).2.len());
    assert(b.sections.len() == wire_cache(b).2.len());
    assert forall|i: int| 0 <= i < a.sections.len() implies a.sections[i] == b.sections[i] by {
        assert(wire_cache(a).2[i] == wire_section(a.sections[i]));
        assert(wire_cache(b).2[i] == wire_section(b.sections[i]));
    }
    assert(a.sections =~= b.sections);
}

/// Copy a list of byte strings.
pub(crate) fn copy_records(records: &Vec<Vec<u8>>) -> (r: Vec<Vec<u8>>)
    ensures
        r.deep_view() == records.deep_view(),
{
    let mut out: Vec<Vec<u8>> = Vec::new();
    let mut i: usize = 0;
    while i < records.len()
        invariant
            i <= records@.len(),
            out@.len() == i,
            forall|j: int| 0 <= j < i ==> (#[trigger] out@[j])@ == records@[j]@,
        decreases records@.len() - i,
    {
        out.push(slice_to_vec(records[i].as_slice()));
        i = i + 1;
    }
    proof {
        assert forall|j: int| 0 <= j < out@.len() implies #[trigger] out.deep_view()[j]
            == records.deep_view()[j] by {
            assert(out@[j].deep_view() =~= out@[j]@);
            assert(records@[j].deep_view() =~= records@[j]@);
        }
        assert(out.deep_view() =~= records.deep_view());
    }
    out
}

fn section_to_wire(section: &Section) -> (r: WireSection)
    ensures
        r.deep_view() == wire_section(section@),
{
    let index: u64 = match section.section_type {
        SectionType::Input => 0,
        SectionType::Derived => 1,
        SectionType::Interned => 2,
    };
    (section.kind_id, section.kind_name.clone(), index, copy_records(&section.records))
}

fn cache_to_wire(cache: &CacheFile) -> (r: WireCache)
    ensures
        r.deep_view() == wire_cache(cache@),
{
    let mut sections: Vec<WireSection> = Vec::new();
    let mut i: usize = 0;
    while i < cache.sections.len()
        invariant
            i <= cache.sections@.len(),
            sections@.len() == i,
            forall|j: int|
                0 <= j < i ==> (#[trigger] sections@[j]).deep_view() == wire_section(
                    cache.sections@[j]@,
                ),
        decreases cache.sections@.len() - i,
    {
        sections.push(section_to_wire(&cache.sections[i]));
        i = i + 1;
    }
    let r = (cache.format_version, cache.current_revision, sections);
    assert(r.deep_view().2 =~= wire_cache(cache@).2);
    r
}

/// Encode a cache file.
pub fn encode_cache_file(cache: &CacheFile) -> (r: PicanteResult<Vec<u8>>)
    ensures
        r matches Ok(out) && out@ == crate::postcard::cache_bytes(wire_cache(cache@)),
{
    let wire: WireCache = cache_to_wire(cache);
    match encode_cache(&wire) {
        Ok(bytes) => Ok(bytes),
        Err(message) => Err(Arc::new(PicanteError::Encode { what: "cache file", message })),
    }
}

/// Whether every section of an encoded file is of a known type.
pub open spec fn types_known(wire: WireCacheView) -> bool {
    forall|i: int| 0 <= i < wire.2.len() ==> (#[trigger] wire.2[i]).2 <= 2
}

/// Text of the error for a section type that does not exist.
pub open spec fn unknown_type_text(index: u64) -> Seq<char> {
    "unknown section type "@ + crate::text::decimal(index as nat)
}

/// Whether section `i` is the first whose type does not exist, and `error` says so.
pub open spec fn type_refused(wire: WireCacheView, i: int, error: PicanteError) -> bool {
    &&& 0 <= i < wire.2.len()
    &&& wire.2[i].2 > 2
    &&& forall|j: int| 0 <= j < i ==> (#[trigger] wire.2[j]).2 <= 2
    &&& crate::error::is_decode_error(error, "cache file"@, unknown_type_text(wire.2[i].2))
}

/// Whether decoding a cache file came out as it must: the file that was encoded, or the decoder's
/// error, or an error for the first section whose type does not exist.
pub open spec fn cache_decoded(bytes: Seq<u8>, r: PicanteResult<CacheFile>) -> bool {
    match crate::postcard::cache_from_postcard(bytes) {
        Err(message) => r matches Err(error) && crate::error::is_decode_error(
            *error,
            "cache file"@,
            message,
        ),
        Ok(wire) => match r {
            Ok(cache) => types_known(wire) && wire_cache(cache@) == wire,
            Err(error) => exists|i: int| #[trigger] type_refused(wire, i, *error),
        },
    }
}

/// Whether decoding `bytes` gives back the file that they are the encoding of. The decoder takes
/// no more than 2^24 sections, and no more than 2^24 records in a section.
pub open spec fn cache_is_read_back(bytes: Seq<u8>, r: PicanteResult<CacheFile>) -> bool {
    forall|cache: CacheFileView|
        crate::postcard::cache_fits(wire_cache(cache)) && #[trigger] crate::postcard::encodes_cache(
            wire_cache(cache),
            bytes,
        ) ==> (r matches Ok(out) && out@ == cache)
}

fn section_from_wire(wire: WireSection) -> (r: Result<Section, u64>)
    ensures
        match r {
            Ok(section) => wire_section(section@) == wire.deep_view(),
            Err(index) => index > 2 && index == wire.2,
        },
{
    let section_type = match wire.2 {
        0 => SectionType::Input,
        1 => SectionType::Derived,
        2 => SectionType::Interned,
        index => {
            return Err(index);
        },
    };
    Ok(Section { kind_id: wire.0, kind_name: wire.1, section_type, records: wire.3 })
}

/// Decode a cache file.
pub fn decode_cache_file(bytes: &[u8]) -> (r: PicanteResult<CacheFile>)
    ensures
        cache_decoded(bytes@, r),
        cache_is_read_back(bytes@, r),
{
    let wire: WireCache = match decode_cache(bytes) {
        Ok(wire) => wire,
        Err(message) => {
            return Err(Arc::new(PicanteError::Decode { what: "cache file", message }));
        },
    };
    let ghost all = wire.deep_view();
    let (format_version, current_revision, mut waiting) = wire;
    let ghost listed = waiting@;
    let ghost count = waiting@.len();
    assert(all.2.len() == count);
    assert forall|j: int| 0 <= j < count implies #[trigger] all.2[j] == listed[j].deep_view() by {}
    let mut sections: Vec<Section> = Vec::new();
    while waiting.len() > 0
        invariant
            sections@.len() + waiting@.len() == count,
            count == listed.len(),
            waiting@ == listed.skip(sections@.len() as int),
            all.2.len() == count,
            crate::postcard::cache_from_postcard(bytes@) matches Ok(w) && w == all,
            forall|j: int| 0 <= j < count ==> #[trigger] all.2[j] == listed[j].deep_view(),
            forall|j: int|
                0 <= j < sections@.len() ==> wire_section((#[trigger] sections@[j])@) == all.2[j],
            forall|cache: CacheFileView|
                crate::postcard::cache_fits(wire_cache(cache))
                    && #[trigger] crate::postcard::encodes_cache(wire_cache(cache), bytes@)
                    ==> wire_cache(cache) == all,
        decreases waiting@.len(),
    {
        let ghost done = sections@.len() as int;
        let section = waiting.remove(0);
        assert(section == listed[done]);
        assert(all.2[done].2 == section.2);
        match section_from_wire(section) {
            Ok(section) => {
                sections.push(section);
                assert(waiting@ =~= listed.skip(done + 1));
            },
            Err(index) => {
                let mut message: String = String::new();
                message.append("unknown section type ");
                push_decimal(&mut message, index);
                assert(message@ =~= unknown_type_text(index));
                proof {
                    assert forall|j: int| 0 <= j < done implies (#[trigger] all.2[j]).2 <= 2 by {
                        assert(wire_section(sections@[j]@) == all.2[j]);
                    }
                    assert forall|cache: CacheFileView|
                        crate::postcard::cache_fits(wire_cache(cache))
                            && #[trigger] crate::postcard::encodes_cache(
                            wire_cache(cache),
                            bytes@,
                        ) implies false by {
                        assert(wire_cache(cache).2[done] == wire_section(cache.sections[done]));
                    }
                }
                let error = Arc::new(PicanteError::Decode { what: "cache file", message });
                assert(type_refused(all, done, *error));
                return Err(error);
            },
        }
    }
    let r = CacheFile { format_version, current_revision, sections };
    proof {
        assert(wire_cache(r@).2 =~= all.2);
        assert(wire_cache(r@) == all);
        assert forall|i: int| 0 <= i < all.2.len() implies (#[trigger] all.2[i]).2 <= 2 by {
            assert(wire_section(sections@[i]@) == all.2[i]);
        }
        assert forall|cache: CacheFileView|
            crate::postcard::cache_fits(wire_cache(cache))
                && #[trigger] crate::postcard::encodes_cache(
                wire_cache(cache),
                bytes@,
            ) implies r@ == cache by {
            wire_cache_injective(r@, cache);
        }
    }
    Ok(r)
}

} // verus!
