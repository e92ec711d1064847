//! The encodings tell their values apart.
#[allow(unused_imports)]
use crate::persist::{SectionType, SectionView};
#[allow(unused_imports)]
use crate::postcard::{WireCacheView, WireEntryView, WireSectionView};
use vstd::prelude::*;

verus! {

/// Where a number ends can be told from its bytes: what begins with the encodings of two numbers
/// begins with one and the same.
pub proof fn numbers_are_told_apart(a: nat, b: nat, x: Seq<u8>, y: Seq<u8>)
    requires
        crate::postcard::varint(a) + x == crate::postcard::varint(b) + y,
    ensures
        a == b,
        x == y,
    decreases a,
{
    let whole = crate::postcard::varint(a) + x;
    assert(whole[0] == crate::postcard::varint(a)[0]);
    assert(whole[0] == crate::postcard::varint(b)[0]);
    if a < 128 {
        assert(b < 128);
        assert(x =~= whole.skip(1));
        assert(y =~= whole.skip(1));
    } else {
        assert(b >= 128);
        let rest_a = crate::postcard::varint(a / 128);
        let rest_b = crate::postcard::varint(b / 128);
        assert(rest_a + x =~= whole.skip(1));
        assert(rest_b + y =~= whole.skip(1));
        numbers_are_told_apart(a / 128, b / 128, x, y);
    }
}

proof fn byte_strings_are_told_apart(a: Seq<u8>, b: Seq<u8>, x: Seq<u8>, y: Seq<u8>)
    requires
        crate::postcard::byte_string(a) + x == crate::postcard::byte_string(b) + y,
    ensures
        a == b,
        x == y,
{
    let whole = crate::postcard::byte_string(a) + x;
    assert(whole =~= crate::postcard::varint(a.len()) + (a + x));
    assert(whole =~= crate::postcard::varint(b.len()) + (b + y));
    numbers_are_told_apart(a.len(), b.len(), a + x, b + y);
    assert(a =~= (a + x).take(a.len() as int));
    assert(b =~= (b + y).take(a.len() as int));
    assert(x =~= (a + x).skip(a.len() as int));
    assert(y =~= (b + y).skip(a.len() as int));
}

proof fn records_are_told_apart(a: Seq<Seq<u8>>, b: Seq<Seq<u8>>, x: Seq<u8>, y: Seq<u8>)
    requires
        a.len() == b.len(),
        crate::postcard::records_bytes(a) + x == crate::postcard::records_bytes(b) + y,
    ensures
        a == b,
        x == y,
    decreases a.len(),
{
    let whole = crate::postcard::records_bytes(a) + x;
    if a.len() == 0 {
        assert(whole =~= x);
        assert(whole =~= y);
        assert(a =~= b);
    } else {
        let rest_a = crate::postcard::records_bytes(a.drop_first());
        let rest_b = crate::postcard::records_bytes(b.drop_first());
        assert(whole =~= crate::postcard::byte_string(a[0]) + (rest_a + x));
        assert(whole =~= crate::postcard::byte_string(b[0]) + (rest_b + y));
        byte_strings_are_told_apart(a[0], b[0], rest_a + x, rest_b + y);
        records_are_told_apart(a.drop_first(), b.drop_first(), x, y);
        assert(a =~= seq![a[0]] + a.drop_first());
        assert(b =~= seq![b[0]] + b.drop_first());
    }
}

proof fn regrouped(a: Seq<u8>, b: Seq<u8>, c: Seq<u8>)
    ensures
        (a + b) + c == a + (b + c),
{
    assert((a + b) + c =~= a + (b + c));
}

/// The bytes of a section and what follows, from the front.
proof fn section_from_front(s: WireSectionView, x: Seq<u8>)
    ensures
        crate::postcard::section_bytes(s) + x == crate::postcard::varint(s.0 as nat) + (
        crate::postcard::byte_string(vstd::utf8::encode_utf8(s.1)) + (crate::postcard::varint(
            s.2 as nat,
        ) + (crate::postcard::varint(s.3.len()) + (crate::postcard::records_bytes(s.3) + x)))),
{
    let kind = crate::postcard::varint(s.0 as nat);
    let name = crate::postcard::byte_string(vstd::utf8::encode_utf8(s.1));
    let index = crate::postcard::varint(s.2 as nat);
    let count = crate::postcard::varint(s.3.len());
    let records = crate::postcard::records_bytes(s.3);
    regrouped(kind + name + index + count, records, x);
    regrouped(kind + name + index, count, records + x);
    regrouped(kind + name, index, count + (records + x));
    regrouped(kind, name, index + (count + (records + x)));
}

proof fn sections_are_told_apart(a: WireSectionView, b: WireSectionView, x: Seq<u8>, y: Seq<u8>)
    requires
        crate::postcard::section_bytes(a) + x == crate::postcard::section_bytes(b) + y,
    ensures
        a == b,
        x == y,
{
    section_from_front(a, x);
    section_from_front(b, y);
    let name_a = vstd::utf8::encode_utf8(a.1);
    let name_b = vstd::utf8::encode_utf8(b.1);
    let list_a = crate::postcard::records_bytes(a.3) + x;
    let list_b = crate::postcard::records_bytes(b.3) + y;
    let count_a = crate::postcard::varint(a.3.len()) + list_a;
    let count_b = crate::postcard::varint(b.3.len()) + list_b;
    let index_a = crate::postcard::varint(a.2 as nat) + count_a;
    let index_b = crate::postcard::varint(b.2 as nat) + count_b;
    let text_a = crate::postcard::byte_string(name_a) + index_a;
    let text_b = crate::postcard::byte_string(name_b) + index_b;
    numbers_are_told_apart(a.0 as nat, b.0 as nat, text_a, text_b);
    byte_strings_are_told_apart(name_a, name_b, index_a, index_b);
    vstd::utf8::encode_utf8_decode_utf8(a.1);
    vstd::utf8::encode_utf8_decode_utf8(b.1);
    numbers_are_told_apart(a.2 as nat, b.2 as nat, count_a, count_b);
    numbers_are_told_apart(a.3.len(), b.3.len(), list_a, list_b);
    records_are_told_apart(a.3, b.3, x, y);
}

proof fn section_lists_are_told_apart(a: Seq<WireSectionView>, b: Seq<WireSectionView>)
    requires
        a.len() == b.len(),
        crate::postcard::sections_bytes(a) == crate::postcard::sections_bytes(b),
    ensures
        a == b,
    decreases a.len(),
{
    if a.len() == 0 {
        assert(a =~= b);
    } else {
        let rest_a = crate::postcard::sections_bytes(a.drop_first());
        let rest_b = crate::postcard::sections_bytes(b.drop_first());
        sections_are_told_apart(a[0], b[0], rest_a, rest_b);
        section_lists_are_told_apart(a.drop_first(), b.drop_first());
        assert(a =~= seq![a[0]] + a.drop_first());
        assert(b =~= seq![b[0]] + b.drop_first());
    }
}

/// Two headers with the same encoding are the same.
pub proof fn headers_are_told_apart(a: (u32, u64), b: (u32, u64))
    requires
        crate::postcard::header_bytes(a) == crate::postcard::header_bytes(b),
    ensures
        a == b,
{
    let base_a = crate::postcard::varint(a.1 as nat);
    let base_b = crate::postcard::varint(b.1 as nat);
    numbers_are_told_apart(a.0 as nat, b.0 as nat, base_a, base_b);
    assert(base_a + Seq::<u8>::empty() =~= base_a);
    assert(base_b + Seq::<u8>::empty() =~= base_b);
    numbers_are_told_apart(a.1 as nat, b.1 as nat, Seq::empty(), Seq::empty());
}

/// Two log entries with the same encoding are the same.
pub proof fn entries_are_told_apart(a: WireEntryView, b: WireEntryView)
    requires
        crate::postcard::entry_bytes(a) == crate::postcard::entry_bytes(b),
    ensures
        a == b,
{
    let whole = crate::postcard::entry_bytes(a);
    let nothing = Seq::<u8>::empty();
    let op_a = match a.2 {
        Ok((key, value)) => seq![0u8] + crate::postcard::byte_string(key)
            + crate::postcard::byte_string(value),
        Err(key) => seq![1u8] + crate::postcard::byte_string(key),
    };
    let op_b = match b.2 {
        Ok((key, value)) => seq![0u8] + crate::postcard::byte_string(key)
            + crate::postcard::byte_string(value),
        Err(key) => seq![1u8] + crate::postcard::byte_string(key),
    };
    let kind_a = crate::postcard::varint(a.1 as nat) + op_a;
    let kind_b = crate::postcard::varint(b.1 as nat) + op_b;
    assert(whole =~= crate::postcard::varint(a.0 as nat) + kind_a);
    assert(whole =~= crate::postcard::varint(b.0 as nat) + kind_b);
    numbers_are_told_apart(a.0 as nat, b.0 as nat, kind_a, kind_b);
    numbers_are_told_apart(a.1 as nat, b.1 as nat, op_a, op_b);
    assert(op_a[0] == op_b[0]);
    match (a.2, b.2) {
        (Ok((key_a, value_a)), Ok((key_b, value_b))) => {
            let last_a = crate::postcard::byte_string(value_a);
            let last_b = crate::postcard::byte_string(value_b);
            assert(op_a.skip(1) =~= crate::postcard::byte_string(key_a) + last_a);
            assert(op_b.skip(1) =~= crate::postcard::byte_string(key_b) + last_b);
            byte_strings_are_told_apart(key_a, key_b, last_a, last_b);
            assert(last_a + nothing =~= last_a);
            assert(last_b + nothing =~= last_b);
            byte_strings_are_told_apart(value_a, value_b, nothing, nothing);
        },
        (Err(key_a), Err(key_b)) => {
            assert(op_a.skip(1) =~= crate::postcard::byte_string(key_a) + nothing);
            assert(op_b.skip(1) =~= crate::postcard::byte_string(key_b) + nothing);
            byte_strings_are_told_apart(key_a, key_b, nothing, nothing);
        },
        _ => {},
    }
}

/// Two cache files with the same encoding are the same.
pub proof fn caches_are_told_apart(a: WireCacheView, b: WireCacheView)
    requires
        crate::postcard::cache_bytes(a) == crate::postcard::cache_bytes(b),
    ensures
        a == b,
{
    let whole = crate::postcard::cache_bytes(a);
    let list_a = crate::postcard::sections_bytes(a.2);
    let list_b = crate::postcard::sections_bytes(b.2);
    let count_a = crate::postcard::varint(a.2.len()) + list_a;
    let count_b = crate::postcard::varint(b.2.len()) + list_b;
    let revision_a = crate::postcard::varint(a.1 as nat) + count_a;
    let revision_b = crate::postcard::varint(b.1 as nat) + count_b;
    assert(whole =~= crate::postcard::varint(a.0 as nat) + revision_a);
    assert(whole =~= crate::postcard::varint(b.0 as nat) + revision_b);
    numbers_are_told_apart(a.0 as nat, b.0 as nat, revision_a, revision_b);
    numbers_are_told_apart(a.1 as nat, b.1 as nat, count_a, count_b);
    numbers_are_told_apart(a.2.len(), b.2.len(), list_a, list_b);
    section_lists_are_told_apart(a.2, b.2);
}

/// Sections are written with their kind, their name, the number of their type and all their records;
/// inputs are numbered 0, results 1 and interned values 2.
pub proof fn sections_are_written_with_their_type(section: SectionView)
    ensures
        ({
            let written = crate::persist::wire_section(section);
            &&& written.0 == section.kind_id
            &&& written.1 == section.kind_name
            &&& written.2 == (match section.section_type {
                SectionType::Input => 0u64,
                SectionType::Derived => 1u64,
                SectionType::Interned => 2u64,
            })
            &&& written.3 == section.records
        }),
{
}

} // verus!
