//! The postcard encoding of plain values, by `facet-postcard`.
//!
//! A struct is encoded as its fields one after the other, which is also how a tuple is
//! encoded; so the values here are tuples.
use vstd::prelude::*;

verus! {

/// Outcome of an encoding: the bytes, or the text of the error.
pub type Encoded = Result<Seq<u8>, Seq<char>>;

/// What can be seen of the outcome of an encoding.
pub open spec fn encoded(r: Result<Vec<u8>, String>) -> Encoded {
    match r {
        Ok(bytes) => Ok(bytes@),
        Err(message) => Err(message@),
    }
}

/// Whether an encoding came out as `bytes`.
pub open spec fn came_out_as(r: Encoded, bytes: Seq<u8>) -> bool {
    r matches Ok(out) && out == bytes
}

/// What can be seen of the outcome of a decoding.
pub open spec fn decoded<T>(r: Result<T, String>) -> Result<T, Seq<char>> {
    match r {
        Ok(value) => Ok(value),
        Err(message) => Err(message@),
    }
}

/// The most elements that a decoded list may have. A byte string is read in one piece and has no
/// such limit.
pub open spec fn max_elements() -> nat {
    16_777_216
}

/// A number of variable length: seven bits to a byte, the lowest first, and the highest bit of a
/// byte set where another byte follows.
pub open spec fn varint(n: nat) -> Seq<u8>
    decreases n,
{
    if n < 128 {
        seq![n as u8]
    } else {
        seq![(n % 128 + 128) as u8] + varint(n / 128)
    }
}

/// Whether bytes are the encoding of a number.
pub open spec fn encodes_u32(value: u32, bytes: Seq<u8>) -> bool {
    bytes == varint(value as nat)
}

/// What `facet_postcard::from_slice` returns when a `u32` is asked for; the error as `Debug`
/// shows it.
pub uninterp spec fn u32_from_postcard(bytes: Seq<u8>) -> Result<u32, Seq<char>>;

/// Calls `facet_postcard::to_vec` on a `u32`, which never fails: it writes the number with a
/// variable length.
#[verifier::external_body]
pub(crate) fn encode_u32(value: u32) -> (r: Result<Vec<u8>, String>)
    ensures
        came_out_as(encoded(r), varint(value as nat)),
{
    facet_postcard::to_vec(&value).map_err(|e| format!("{e:?}"))
}

/// Whether a decoding gives back the number whose encoding the bytes are.
pub open spec fn restores_u32(bytes: Seq<u8>, r: Result<u32, String>) -> bool {
    forall|value: u32| #[trigger]
        encodes_u32(value, bytes) ==> (r matches Ok(out) && out == value)
}

/// Calls `facet_postcard::from_slice` for a `u32`. It gives back the number whose encoding the
/// bytes are.
#[verifier::external_body]
pub(crate) fn decode_u32(bytes: &[u8]) -> (r: Result<u32, String>)
    ensures
        decoded(r) == u32_from_postcard(bytes@),
        restores_u32(bytes@, r),
{
    facet_postcard::from_slice::<u32>(bytes).map_err(|e| format!("{e:?}"))
}

/// A cache section as a tuple: kind id, kind name, type index and records. The index of an enum's
/// variant is encoded as a number of variable length, which is also how a `u64` is encoded.
pub type WireSection = (u32, String, u64, Vec<Vec<u8>>);

/// What a section tuple holds.
pub type WireSectionView = (u32, Seq<char>, u64, Seq<Seq<u8>>);

/// A cache file as a tuple: format version, revision and sections.
pub type WireCache = (u32, u64, Vec<WireSection>);

/// What a cache tuple holds.
pub type WireCacheView = (u32, u64, Seq<WireSectionView>);

/// Whether a cache has no more sections, and no section more records, than can be decoded again.
pub open spec fn cache_fits(wire: WireCacheView) -> bool {
    &&& wire.2.len() <= max_elements()
    &&& forall|i: int| 0 <= i < wire.2.len() ==> (#[trigger] wire.2[i]).3.len() <= max_elements()
}

/// What can be seen of the outcome of decoding a cache tuple.
pub open spec fn decoded_cache(r: Result<WireCache, String>) -> Result<WireCacheView, Seq<char>> {
    match r {
        Ok(wire) => Ok(wire.deep_view()),
        Err(message) => Err(message@),
    }
}

/// The encoding of a string of bytes: its length, and the bytes.
pub open spec fn byte_string(bytes: Seq<u8>) -> Seq<u8> {
    varint(bytes.len()) + bytes
}

/// The encodings of several records, one after the other.
pub open spec fn records_bytes(records: Seq<Seq<u8>>) -> Seq<u8>
    decreases records.len(),
{
    if records.len() == 0 {
        Seq::empty()
    } else {
        byte_string(records[0]) + records_bytes(records.drop_first())
    }
}

/// The encoding of a section tuple. A text is encoded as its UTF-8 bytes are, and a list as its
/// length and its elements.
pub open spec fn section_bytes(wire: WireSectionView) -> Seq<u8> {
    varint(wire.0 as nat) + byte_string(vstd::utf8::encode_utf8(wire.1)) + varint(wire.2 as nat)
        + varint(wire.3.len()) + records_bytes(wire.3)
}

/// The encodings of several section tuples, one after the other.
pub open spec fn sections_bytes(sections: Seq<WireSectionView>) -> Seq<u8>
    decreases sections.len(),
{
    if sections.len() == 0 {
        Seq::empty()
    } else {
        section_bytes(sections[0]) + sections_bytes(sections.drop_first())
    }
}

/// The encoding of a cache tuple.
pub open spec fn cache_bytes(wire: WireCacheView) -> Seq<u8> {
    varint(wire.0 as nat) + varint(wire.1 as nat) + varint(wire.2.len()) + sections_bytes(wire.2)
}

/// Whether bytes are the encoding of a cache tuple.
pub open spec fn encodes_cache(wire: WireCacheView, bytes: Seq<u8>) -> bool {
    bytes == cache_bytes(wire)
}

/// What `facet_postcard::from_slice` returns when a cache tuple is asked for; the error as
/// `Debug` shows it.
pub uninterp spec fn cache_from_postcard(bytes: Seq<u8>) -> Result<WireCacheView, Seq<char>>;

/// Calls `facet_postcard::to_vec` on a cache tuple, which never fails: it writes the numbers with
/// variable lengths, and before each text and each list its length.
#[verifier::external_body]
pub(crate) fn encode_cache(wire: &WireCache) -> (r: Result<Vec<u8>, String>)
    ensures
        came_out_as(encoded(r), cache_bytes(wire.deep_view())),
{
    facet_postcard::to_vec(wire).map_err(|e| format!("{e:?}"))
}

/// Whether a decoding gives back the cache tuple whose encoding the bytes are.
pub open spec fn restores_cache(bytes: Seq<u8>, r: Result<WireCache, String>) -> bool {
    forall|wire: WireCacheView|
        cache_fits(wire) && #[trigger] encodes_cache(wire, bytes) ==> (r matches Ok(out)
            && out.deep_view() == wire)
}

/// Calls `facet_postcard::from_slice` for a cache tuple. It gives back the tuple whose encoding
/// the bytes are, where it has no more sections, and no section more records, than the decoder
/// allows.
#[verifier::external_body]
pub(crate) fn decode_cache(bytes: &[u8]) -> (r: Result<WireCache, String>)
    ensures
        decoded_cache(r) == cache_from_postcard(bytes@),
        restores_cache(bytes@, r),
{
    facet_postcard::from_slice::<WireCache>(bytes).map_err(|e| format!("{e:?}"))
}

/// The encoding of the header tuple of a log: format version and base revision.
pub open spec fn header_bytes(wire: (u32, u64)) -> Seq<u8> {
    varint(wire.0 as nat) + varint(wire.1 as nat)
}

/// Whether bytes are the encoding of a header tuple.
pub open spec fn encodes_header(wire: (u32, u64), bytes: Seq<u8>) -> bool {
    bytes == header_bytes(wire)
}

proof fn varint_len(n: nat, most: nat)
    requires
        most >= 1,
        n < vstd::arithmetic::power::pow(128, most),
    ensures
        1 <= varint(n).len() <= most,
    decreases most,
{
    reveal(vstd::arithmetic::power::pow);
    if n >= 128 {
        if most == 1 {
            reveal_with_fuel(vstd::arithmetic::power::pow, 2);
        }
        varint_len(n / 128, (most - 1) as nat);
    }
}

/// A header takes two to fifteen bytes: its `u32` at most five, and its `u64` at most ten.
pub proof fn header_is_short(wire: (u32, u64))
    ensures
        2 <= header_bytes(wire).len() <= 15,
{
    reveal_with_fuel(vstd::arithmetic::power::pow, 11);
    assert(vstd::arithmetic::power::pow(128, 5) == 34_359_738_368);
    assert(vstd::arithmetic::power::pow(128, 10) == 1_180_591_620_717_411_303_424);
    varint_len(wire.0 as nat, 5);
    varint_len(wire.1 as nat, 10);
}

/// What `facet_postcard::from_slice` returns when a header tuple is asked for; the error as
/// `Display` shows it.
pub uninterp spec fn header_from_postcard(bytes: Seq<u8>) -> Result<(u32, u64), Seq<char>>;

/// Calls `facet_postcard::to_vec` on a header tuple, which never fails: it writes the two numbers
/// with variable lengths, one after the other.
#[verifier::external_body]
pub(crate) fn encode_header(wire: &(u32, u64)) -> (r: Result<Vec<u8>, String>)
    ensures
        came_out_as(encoded(r), header_bytes(*wire)),
{
    facet_postcard::to_vec(wire).map_err(|e| format!("{e}"))
}

/// Whether a decoding gives back the header tuple whose encoding the bytes are.
pub open spec fn restores_header(bytes: Seq<u8>, r: Result<(u32, u64), String>) -> bool {
    forall|wire: (u32, u64)| #[trigger]
        encodes_header(wire, bytes) ==> (r matches Ok(out) && out == wire)
}

/// Calls `facet_postcard::from_slice` for a header tuple. It gives back the tuple whose encoding
/// the bytes are.
#[verifier::external_body]
pub(crate) fn decode_header(bytes: &[u8]) -> (r: Result<(u32, u64), String>)
    ensures
        decoded(r) == header_from_postcard(bytes@),
        restores_header(bytes@, r),
{
    facet_postcard::from_slice::<(u32, u64)>(bytes).map_err(|e| format!("{e}"))
}

/// A log entry as a tuple: revision, kind id, and a key with its value, or a key alone. The two
/// variants of the operation are encoded by their index, as those of `Result` are.
pub type WireEntry = (u64, u32, Result<(Vec<u8>, Vec<u8>), Vec<u8>>);

/// What an entry tuple holds.
pub type WireEntryView = (u64, u32, Result<(Seq<u8>, Seq<u8>), Seq<u8>>);

/// What can be seen of an entry tuple.
pub open spec fn entry_view(wire: WireEntry) -> WireEntryView {
    (
        wire.0,
        wire.1,
        match wire.2 {
            Ok((key, value)) => Ok((key@, value@)),
            Err(key) => Err(key@),
        },
    )
}

/// What can be seen of the outcome of decoding an entry tuple.
pub open spec fn decoded_entry(r: Result<WireEntry, String>) -> Result<WireEntryView, Seq<char>> {
    match r {
        Ok(wire) => Ok(entry_view(wire)),
        Err(message) => Err(message@),
    }
}

/// The encoding of an entry tuple.
pub open spec fn entry_bytes(wire: WireEntryView) -> Seq<u8> {
    varint(wire.0 as nat) + varint(wire.1 as nat) + (match wire.2 {
        Ok((key, value)) => seq![0u8] + byte_string(key) + byte_string(value),
        Err(key) => seq![1u8] + byte_string(key),
    })
}

/// Whether bytes are the encoding of an entry tuple.
pub open spec fn encodes_entry(wire: WireEntryView, bytes: Seq<u8>) -> bool {
    bytes == entry_bytes(wire)
}

/// What `facet_postcard::from_slice` returns when an entry tuple is asked for; the error as
/// `Display` shows it.
pub uninterp spec fn entry_from_postcard(bytes: Seq<u8>) -> Result<WireEntryView, Seq<char>>;

/// Calls `facet_postcard::to_vec` on an entry tuple, which never fails: it writes the two numbers,
/// the index of the operation, and the key and the value with their lengths.
#[verifier::external_body]
pub(crate) fn encode_entry(wire: &WireEntry) -> (r: Result<Vec<u8>, String>)
    ensures
        came_out_as(encoded(r), entry_bytes(entry_view(*wire))),
{
    facet_postcard::to_vec(wire).map_err(|e| format!("{e}"))
}

/// Whether a decoding gives back the entry tuple whose encoding the bytes are.
pub open spec fn restores_entry(bytes: Seq<u8>, r: Result<WireEntry, String>) -> bool {
    forall|wire: WireEntryView| #[trigger]
        encodes_entry(wire, bytes) ==> (r matches Ok(out) && entry_view(out) == wire)
}

/// Calls `facet_postcard::from_slice` for an entry tuple. It gives back the tuple whose encoding
/// the bytes are.
#[verifier::external_body]
pub(crate) fn decode_entry(bytes: &[u8]) -> (r: Result<WireEntry, String>)
    ensures
        decoded_entry(r) == entry_from_postcard(bytes@),
        restores_entry(bytes@, r),
{
    facet_postcard::from_slice::<WireEntry>(bytes).map_err(|e| format!("{e}"))
}

} // verus!
