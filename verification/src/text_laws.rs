//! What the numbers in texts say, and which texts are read as numbers.
use crate::error::PicanteError;
#[allow(unused_imports)]
use crate::key::DynKey;
use std::collections::hash_map::DefaultHasher;
use vstd::arithmetic::power::pow;
use vstd::prelude::*;
#[allow(unused_imports)]
use vstd::std_specs::hash::DefaultHasherAdditionalSpecFns;

verus! {

/// The number that a character stands for as a digit: `0` to `9`, and then `a` to `f`.
pub open spec fn digit_value(c: char) -> nat {
    if '0' <= c && c <= '9' {
        (c as nat - '0' as nat) as nat
    } else {
        (c as nat - 'a' as nat + 10) as nat
    }
}

/// The number that digits write down in a base, the most significant first.
pub open spec fn number_in(text: Seq<char>, base: nat) -> nat
    decreases text.len(),
{
    if text.len() == 0 {
        0
    } else {
        number_in(text.drop_last(), base) * base + digit_value(text.last())
    }
}

/// Whether every character of a text is a decimal digit.
pub open spec fn are_digits(text: Seq<char>) -> bool {
    forall|i: int| 0 <= i < text.len() ==> '0' <= #[trigger] text[i] && text[i] <= '9'
}

/// A number is written in decimal: with decimal digits only, which write down that number, and
/// without leading zeros.
pub proof fn decimals_say_their_number(n: nat)
    ensures
        number_in(crate::text::decimal(n), 10) == n,
        are_digits(crate::text::decimal(n)),
        crate::text::decimal(n).len() > 0,
        n > 0 ==> crate::text::decimal(n)[0] != '0',
    decreases n,
{
    reveal_with_fuel(number_in, 2);
    let text = crate::text::decimal(n);
    if n < 10 {
        assert(text.drop_last() =~= Seq::empty());
        assert(text.last() == crate::text::digit_char(n));
    } else {
        decimals_say_their_number(n / 10);
        assert(text.drop_last() =~= crate::text::decimal(n / 10));
        assert(text.last() == crate::text::digit_char(n % 10));
    }
}

/// Different numbers are written differently.
pub proof fn decimals_are_told_apart(m: nat, n: nat)
    requires
        crate::text::decimal(m) == crate::text::decimal(n),
    ensures
        m == n,
{
    decimals_say_their_number(m);
    decimals_say_their_number(n);
}

/// A number is written in hexadecimal without leading zeros.
pub proof fn short_hexadecimals_say_their_number(n: nat)
    ensures
        number_in(crate::text::short_hex(n), 16) == n,
        n > 0 ==> crate::text::short_hex(n)[0] != '0',
        crate::text::short_hex(n).len() > 0,
    decreases n,
{
    reveal_with_fuel(number_in, 2);
    let text = crate::text::short_hex(n);
    if n < 16 {
        assert(text.drop_last() =~= Seq::empty());
        assert(text.last() == crate::text::digit_char(n));
    } else {
        short_hexadecimals_say_their_number(n / 16);
        assert(text.drop_last() =~= crate::text::short_hex(n / 16));
        assert(text.last() == crate::text::digit_char(n % 16));
    }
}

/// A number below sixteen to the power of the width is written in hexadecimal with as many digits
/// as the width says.
pub proof fn hexadecimals_say_their_number(n: nat, width: nat)
    requires
        n < pow(16, width),
    ensures
        number_in(crate::text::hex(n, width), 16) == n,
        crate::text::hex(n, width).len() == width,
    decreases width,
{
    vstd::arithmetic::power::lemma_pow0(16);
    let text = crate::text::hex(n, width);
    if width > 0 {
        let less = (width - 1) as nat;
        assert(pow(16, width) == 16 * pow(16, less)) by {
            reveal(vstd::arithmetic::power::pow);
        }
        assert(n / 16 < pow(16, less));
        hexadecimals_say_their_number(n / 16, less);
        assert(text.drop_last() =~= crate::text::hex(n / 16, less));
        assert(text.last() == crate::text::digit_char(n % 16));
    }
}

/// The bytes of a text that consists of characters of one byte.
pub open spec fn as_bytes(text: Seq<char>) -> Seq<u8> {
    text.map_values(|c: char| c as u8)
}

proof fn digits_are_read(text: Seq<char>)
    requires
        are_digits(text),
    ensures
        crate::inflight::decimal_value(as_bytes(text)) == Some(number_in(text, 10)),
    decreases text.len(),
{
    let bytes = as_bytes(text);
    if text.len() > 0 {
        let shorter = text.drop_last();
        assert(are_digits(shorter)) by {
            assert forall|i: int| 0 <= i < shorter.len() implies '0' <= #[trigger] shorter[i]
                && shorter[i] <= '9' by {
                assert(shorter[i] == text[i]);
            }
        }
        digits_are_read(shorter);
        assert(bytes.drop_last() =~= as_bytes(shorter));
        let c = text[text.len() - 1];
        assert('0' <= c && c <= '9');
        assert(bytes.last() == c as u8);
    }
}

/// A limit is read from decimal digits, with or without a plus sign and however many zeros before
/// them, if the number that they write down fits.
pub proof fn limits_are_decimal_numbers(text: Seq<char>)
    requires
        are_digits(text),
        text.len() > 0,
    ensures
        crate::inflight::limit_in_text(as_bytes(text)) == (if number_in(text, 10) <= usize::MAX {
            Some(number_in(text, 10) as usize)
        } else {
            None
        }),
        crate::inflight::limit_in_text(seq!['+' as u8] + as_bytes(text))
            == crate::inflight::limit_in_text(as_bytes(text)),
{
    digits_are_read(text);
    let bytes = as_bytes(text);
    assert('0' <= text[0] && text[0] <= '9');
    assert(bytes[0] == text[0] as u8);
    assert((seq!['+' as u8] + bytes).drop_first() =~= bytes);
}

/// A limit that was written in decimal is read back.
pub proof fn written_limits_are_read(n: usize)
    ensures
        crate::inflight::limit_in_text(as_bytes(crate::text::decimal(n as nat))) == Some(n),
{
    decimals_say_their_number(n as nat);
    limits_are_decimal_numbers(crate::text::decimal(n as nat));
}

proof fn others_are_not_digits(digits: Seq<u8>, i: int)
    requires
        0 <= i < digits.len(),
        !('0' as u8 <= digits[i] && digits[i] <= '9' as u8),
    ensures
        crate::inflight::decimal_value(digits) is None,
    decreases digits.len(),
{
    if i < digits.len() - 1 {
        others_are_not_digits(digits.drop_last(), i);
    }
}

/// Text with anything else in it than decimal digits after an optional plus sign is no limit, nor
/// is text without a digit.
pub proof fn other_texts_are_no_limits(text: Seq<u8>, i: int)
    requires
        0 <= i < text.len() && !('0' as u8 <= text[i] && text[i] <= '9' as u8) && (i > 0 || text[0]
            != '+' as u8 || text.len() == 1) || text.len() == 0,
    ensures
        crate::inflight::limit_in_text(text) is None,
{
    if text.len() > 0 {
        if text[0] == '+' as u8 {
            if i > 0 {
                others_are_not_digits(text.drop_first(), i - 1);
            }
        } else {
            others_are_not_digits(text, i);
        }
    }
}

/// Bytes mixed into a hash one after the other, first to last.
pub open spec fn mixed_in(hash: u32, bytes: Seq<u8>) -> u32
    decreases bytes.len(),
{
    if bytes.len() == 0 {
        hash
    } else {
        mixed_in(
            (((hash ^ (bytes[0] as u32)) * 16777619) % 0x1_0000_0000) as u32,
            bytes.drop_first(),
        )
    }
}

/// The id of a name mixes its bytes in from the first to the last, from a fixed start.
pub proof fn names_are_hashed_first_to_last(bytes: Seq<u8>)
    ensures
        crate::key::fnv1a(bytes) == mixed_in(2166136261, bytes),
{
    mixing_splits(Seq::empty(), bytes);
    assert(Seq::<u8>::empty() + bytes =~= bytes);
}

proof fn mixing_splits(a: Seq<u8>, b: Seq<u8>)
    ensures
        crate::key::fnv1a(a + b) == mixed_in(crate::key::fnv1a(a), b),
    decreases b.len(),
{
    if b.len() == 0 {
        assert(a + b =~= a);
    } else {
        let longer = a.push(b[0]);
        mixing_splits(longer, b.drop_first());
        assert(a + b =~= longer + b.drop_first());
        assert(longer.drop_last() =~= a);
        let mixed = crate::key::fnv1a(a) ^ (b[0] as u32);
        assert(u32::wrapping_mul(mixed, 16777619u32) == ((mixed * 16777619) % 0x1_0000_0000) as u32);
    }
}

/// The hash of a key is that of its length and of all its bytes: whatever a hasher was fed, if that is
/// the length in eight bytes and then the key, the hash is what the hasher comes out with.
pub proof fn keys_are_hashed_whole(bytes: Seq<u8>, fed: Seq<Seq<u8>>)
    requires
        bytes.len() <= u64::MAX,
        fed.len() == 2,
        fed[0].len() == 8,
        vstd::bytes::spec_u64_from_le_bytes(fed[0]) == bytes.len(),
        fed[1] == bytes,
    ensures
        crate::key::stable_hash_of(bytes) == DefaultHasher::spec_finish(fed),
{
    vstd::bytes::lemma_auto_spec_u64_to_from_le_bytes();
    assert(fed[0] =~= vstd::bytes::spec_u64_to_le_bytes(bytes.len() as u64));
    assert(fed =~= seq![vstd::bytes::spec_u64_to_le_bytes(bytes.len() as u64), bytes]);
}

/// One line for each query, in order.
pub open spec fn lines_of(queries: Seq<DynKey>) -> Seq<char>
    decreases queries.len(),
{
    if queries.len() == 0 {
        Seq::empty()
    } else {
        crate::error::frame_line(queries[0]) + lines_of(queries.drop_first())
    }
}

proof fn lines_of_split(a: Seq<DynKey>, last: DynKey)
    ensures
        lines_of(a.push(last)) == lines_of(a) + crate::error::frame_line(last),
    decreases a.len(),
{
    reveal_with_fuel(lines_of, 2);
    if a.len() == 0 {
        assert(a.push(last).drop_first() =~= Seq::empty());
        assert(lines_of(a.push(last)) =~= lines_of(a) + crate::error::frame_line(last));
    } else {
        lines_of_split(a.drop_first(), last);
        assert(a.push(last).drop_first() =~= a.drop_first().push(last));
        assert(lines_of(a.push(last)) =~= lines_of(a) + crate::error::frame_line(last));
    }
}

/// A cycle is told from the outermost query to the innermost, with a line for each. Only the
/// outermost is marked as the one it started with.
pub proof fn cycles_are_told_outermost_first(stack: Seq<DynKey>)
    requires
        stack.len() > 0,
    ensures
        crate::error::stack_lines(stack) == crate::error::frame_line(stack[0]) + "  (initial)"@
            + lines_of(stack.drop_first()),
    decreases stack.len(),
{
    let first = crate::error::frame_line(stack[0]) + "  (initial)"@;
    if stack.len() == 1 {
        assert(stack.drop_first() =~= Seq::empty());
        assert(crate::error::stack_lines(stack) =~= first + lines_of(stack.drop_first()));
    } else {
        let shorter = stack.drop_last();
        cycles_are_told_outermost_first(shorter);
        lines_of_split(shorter.drop_first(), stack.last());
        assert(stack.drop_first() =~= shorter.drop_first().push(stack.last()));
        assert(crate::error::stack_lines(stack) =~= first + lines_of(stack.drop_first()));
    }
}

/// Whether a text does not start with a digit, and is not empty.
pub open spec fn starts_with_no_digit(text: Seq<char>) -> bool {
    text.len() > 0 && !('0' <= text[0] && text[0] <= '9')
}

/// Where a number in a text ends can be told: texts that start with numbers, and go on with something
/// that is no digit, are the same only if the numbers are, and all that follows.
pub proof fn numbers_in_texts_are_told_apart(m: nat, n: nat, x: Seq<char>, y: Seq<char>)
    requires
        crate::text::decimal(m) + x == crate::text::decimal(n) + y,
        starts_with_no_digit(x),
        starts_with_no_digit(y),
    ensures
        m == n,
        x == y,
{
    let a = crate::text::decimal(m);
    let b = crate::text::decimal(n);
    decimals_say_their_number(m);
    decimals_say_their_number(n);
    let whole = a + x;
    assert(whole[a.len() as int] == x[0]);
    assert((b + y)[b.len() as int] == y[0]);
    if a.len() < b.len() {
        assert((b + y)[a.len() as int] == b[a.len() as int]);
        assert('0' <= b[a.len() as int] && b[a.len() as int] <= '9');
    } else if b.len() < a.len() {
        assert(whole[b.len() as int] == a[b.len() as int]);
        assert('0' <= a[b.len() as int] && a[b.len() as int] <= '9');
    }
    assert(a =~= whole.take(a.len() as int));
    assert(b =~= (b + y).take(a.len() as int));
    assert(x =~= whole.skip(a.len() as int));
    assert(y =~= (b + y).skip(a.len() as int));
}

/// Texts that start alike and are the same go on alike.
pub proof fn same_beginning(start: Seq<char>, x: Seq<char>, y: Seq<char>)
    requires
        start + x == start + y,
    ensures
        x == y,
{
    assert(x =~= (start + x).skip(start.len() as int));
    assert(y =~= (start + y).skip(start.len() as int));
}

/// What an error tells is in its text: errors of one sort are shown alike only if they tell the same.
pub proof fn errors_tell_what_they_are_about(a: PicanteError, b: PicanteError)
    requires
        crate::error::error_text(a) == crate::error::error_text(b),
    ensures
        match (a, b) {
            (PicanteError::Cache { message: m }, PicanteError::Cache { message: n }) => m@ == n@,
            (PicanteError::Panic { message: m }, PicanteError::Panic { message: n }) => m@ == n@,
            (
                PicanteError::Encode { what: w, message: m },
                PicanteError::Encode { what: v, message: n },
            ) => w@ == v@ ==> m@ == n@,
            (
                PicanteError::Decode { what: w, message: m },
                PicanteError::Decode { what: v, message: n },
            ) => w@ == v@ ==> m@ == n@,
            (
                PicanteError::MissingInternedValue { kind: j, id: m },
                PicanteError::MissingInternedValue { kind: k, id: n },
            ) => j == k && m == n,
            (
                PicanteError::MissingInputValue { kind: j, key_hash: m },
                PicanteError::MissingInputValue { kind: k, key_hash: n },
            ) => j == k && m == n,
            _ => true,
        },
{
    match (a, b) {
        (PicanteError::Cache { message: m }, PicanteError::Cache { message: n }) => {
            same_beginning("cache error: "@, m@, n@);
        },
        (PicanteError::Panic { message: m }, PicanteError::Panic { message: n }) => {
            same_beginning("query panicked: "@, m@, n@);
        },
        (
            PicanteError::Encode { what: w, message: m },
            PicanteError::Encode { what: v, message: n },
        ) => {
            if w@ == v@ {
                same_beginning("encode "@ + w@ + " failed: "@, m@, n@);
            }
        },
        (
            PicanteError::Decode { what: w, message: m },
            PicanteError::Decode { what: v, message: n },
        ) => {
            if w@ == v@ {
                same_beginning("decode "@ + w@ + " failed: "@, m@, n@);
            }
        },
        (
            PicanteError::MissingInternedValue { kind: j, id: m },
            PicanteError::MissingInternedValue { kind: k, id: n },
        ) => {
            reveal_strlit(", id ");
            reveal_strlit(")");
            let start = "missing interned value (kind "@;
            let (p, q) = (crate::text::decimal(m as nat) + ")"@, crate::text::decimal(n as nat) + ")"@);
            let (x, y) = (", id "@ + p, ", id "@ + q);
            let (u, v) = (crate::text::decimal(j.0 as nat) + x, crate::text::decimal(k.0 as nat) + y);
            assert(crate::error::error_text(a) =~= start + u);
            assert(crate::error::error_text(b) =~= start + v);
            same_beginning(start, u, v);
            assert(x[0] == ',' && y[0] == ',');
            numbers_in_texts_are_told_apart(j.0 as nat, k.0 as nat, x, y);
            same_beginning(", id "@, p, q);
            numbers_in_texts_are_told_apart(m as nat, n as nat, ")"@, ")"@);
        },
        (
            PicanteError::MissingInputValue { kind: j, key_hash: m },
            PicanteError::MissingInputValue { kind: k, key_hash: n },
        ) => {
            reveal_strlit(", key ");
            let start = "missing input value (kind "@;
            let (c, d) = (crate::text::hex(m as nat, 16), crate::text::hex(n as nat, 16));
            let (p, q) = (c + ")"@, d + ")"@);
            let (x, y) = (", key "@ + p, ", key "@ + q);
            let (u, v) = (crate::text::decimal(j.0 as nat) + x, crate::text::decimal(k.0 as nat) + y);
            assert(crate::error::error_text(a) =~= start + u);
            assert(crate::error::error_text(b) =~= start + v);
            same_beginning(start, u, v);
            assert(x[0] == ',' && y[0] == ',');
            numbers_in_texts_are_told_apart(j.0 as nat, k.0 as nat, x, y);
            same_beginning(", key "@, p, q);
            sixteen_digits_hold_a_hash(m);
            sixteen_digits_hold_a_hash(n);
            assert(c =~= p.take(16));
            assert(d =~= q.take(16));
        },
        _ => {},
    }
}

proof fn sixteen_digits_hold_a_hash(n: u64)
    ensures
        number_in(crate::text::hex(n as nat, 16), 16) == n,
        crate::text::hex(n as nat, 16).len() == 16,
{
    assert(n < pow(16, 16)) by {
        assert(pow(16, 16) == 0x1_0000_0000_0000_0000) by {
            reveal_with_fuel(vstd::arithmetic::power::pow, 17);
        }
    }
    hexadecimals_say_their_number(n as nat, 16);
}

} // verus!
