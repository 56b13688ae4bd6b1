//! What is read from the entropy, in terms of its bits and of binary numbers.

use crate::bits::{bit_at, byte_bit};
use crate::entropy::{
    bit_width, bits_of, entropy_after, entropy_after_range, entropy_bit, entropy_bytes,
    entropy_number, entropy_range, lemma_bit_width_bound, lemma_bit_width_suffices,
    lemma_entropy_number_bound,
};
use vstd::arithmetic::div_mod::{lemma_basic_div, lemma_hoist_over_denominator};
use vstd::arithmetic::power2::{
    lemma2_to64, lemma_pow2_adds, lemma_pow2_pos, lemma_pow2_unfold, pow2,
};
use vstd::prelude::*;

verus! {

/// Whether the first `width` bits are the binary digits of `number`, the least significant first,
/// where the bits past the end are zero.
pub open spec fn is_number_of(bits: Seq<bool>, width: nat, number: nat) -> bool {
    &&& number < pow2(width)
    &&& forall|i: nat|
        i < width ==> ((number / #[trigger] pow2(i)) % 2 == 1) == (i < bits.len() && bits[i as int])
}

/// Whether `width` is the least number of binary digits that can write `number`.
pub open spec fn is_width_of(number: nat, width: nat) -> bool {
    &&& number < pow2(width)
    &&& forall|other: nat| number < #[trigger] pow2(other) ==> width <= other
}

/// Whether `rest` is what the first `count` bits leave.
pub open spec fn is_rest_of(bits: Seq<bool>, count: nat, rest: Seq<bool>) -> bool {
    &&& rest.len() == if count <= bits.len() {
        bits.len() - count
    } else {
        0
    }
    &&& forall|i: int| 0 <= i < rest.len() ==> #[trigger] rest[i] == bits[count + i]
}

/// Whether reading a number between `min` and `max` from `bits` gives `number` and leaves `rest`:
/// the fewest bits that can write the span are read as a binary number, which is taken modulo the
/// number of choices.
pub open spec fn reads(
    bits: Seq<bool>,
    min: int,
    max: int,
    number: int,
    rest: Seq<bool>,
) -> bool {
    exists|width: nat, raw: nat|
        {
            &&& #[trigger] is_width_of((max - min) as nat, width)
            &&& #[trigger] is_number_of(bits, width, raw)
            &&& number == min + raw as int % (max - min + 1)
            &&& is_rest_of(bits, width, rest)
        }
}

/// Adding a higher power of two changes no lower binary digit.
proof fn lemma_higher_power(number: nat, low: nat, high: nat)
    requires
        low < high,
    ensures
        ((number + pow2(high)) / pow2(low)) % 2 == (number / pow2(low)) % 2,
{
    let gap: nat = (high - low) as nat;
    lemma_pow2_pos(low);
    lemma_pow2_adds(gap, low);
    lemma_pow2_unfold(gap);
    lemma_hoist_over_denominator(number as int, pow2(gap) as int, pow2(low));
    let half: int = pow2((gap - 1) as nat) as int;
    let quotient: int = number as int / pow2(low) as int;
    assert(pow2(gap) == 2 * half);
    assert((quotient + 2 * half) % 2 == quotient % 2);
}

/// The number that the entropy writes has the bits as its digits.
proof fn lemma_number_has_bits(bits: Seq<bool>, width: nat)
    ensures
        is_number_of(bits, width, entropy_number(bits, width)),
    decreases width,
{
    lemma_entropy_number_bound(bits, width);
    if width > 0 {
        let top: nat = (width - 1) as nat;
        let low: nat = entropy_number(bits, top);
        let number: nat = entropy_number(bits, width);
        lemma_number_has_bits(bits, top);
        lemma_pow2_pos(top);
        lemma_basic_div(low as int, pow2(top) as int);
        lemma_hoist_over_denominator(low as int, 1, pow2(top));
        assert forall|i: nat| i < width implies ((number / #[trigger] pow2(i)) % 2 == 1) == (i
            < bits.len() && bits[i as int]) by {
            if i < top {
                lemma_higher_power(low, i, top);
            } else {
                assert(i == top);
            }
        }
    }
}

/// A number is determined by its digits.
proof fn lemma_digits_determine(bits: Seq<bool>, width: nat, number: nat)
    requires
        is_number_of(bits, width, number),
    ensures
        number == entropy_number(bits, width),
    decreases width,
{
    lemma2_to64();
    if width > 0 {
        let top: nat = (width - 1) as nat;
        lemma_pow2_unfold(width);
        lemma_pow2_pos(top);
        let low: nat = if number < pow2(top) {
            number
        } else {
            (number - pow2(top)) as nat
        };
        lemma_basic_div(low as int, pow2(top) as int);
        lemma_hoist_over_denominator(low as int, 1, pow2(top));
        assert(((number / pow2(top)) % 2 == 1) == (top < bits.len() && bits[top as int]));
        assert((number < pow2(top)) == !entropy_bit(bits, top as int));
        assert forall|i: nat| i < top implies ((low / #[trigger] pow2(i)) % 2 == 1) == (i
            < bits.len() && bits[i as int]) by {
            lemma_higher_power(low, i, top);
            assert(((number / pow2(i)) % 2 == 1) == (i < bits.len() && bits[i as int]));
        }
        lemma_digits_determine(bits, top, low);
    }
}

/// The number that some bits write is the only one that has them as its binary digits, the least
/// significant first.
pub proof fn law_number(bits: Seq<bool>, width: nat, number: nat)
    ensures
        entropy_number(bits, width) < pow2(width),
        forall|i: nat|
            i < width ==> ((entropy_number(bits, width) / #[trigger] pow2(i)) % 2 == 1) == (i
                < bits.len() && bits[i as int]),
        number < pow2(width) && (forall|i: nat|
            i < width ==> ((number / #[trigger] pow2(i)) % 2 == 1) == (i < bits.len()
                && bits[i as int])) ==> entropy_number(bits, width) == number,
{
    lemma_number_has_bits(bits, width);
    if is_number_of(bits, width, number) {
        lemma_digits_determine(bits, width, number);
    }
}

/// The bits are read in order, zeros past the end, and what is left of the entropy is what follows
/// the bits that were read.
pub proof fn law_bits(bits: Seq<bool>, index: int, count: nat)
    ensures
        entropy_bit(bits, index) == (0 <= index < bits.len() && bits[index]),
        count <= bits.len() ==> entropy_after(bits, count) == bits.skip(count as int),
        count > bits.len() ==> entropy_after(bits, count).len() == 0,
{
}

/// A byte is written by eight bits, the least significant first, and the bytes follow one another.
pub proof fn law_bytes(bits: Seq<bool>, length: nat, i: int, j: nat)
    requires
        0 <= i < length,
        j < 8,
    ensures
        entropy_bytes(bits, length).len() == length,
        ((entropy_bytes(bits, length)[i] as nat / pow2(j)) % 2 == 1) == (8 * i + j < bits.len()
            && bits[8 * i + j]),
{
    let tail = entropy_after(bits, (8 * i) as nat);
    lemma2_to64();
    lemma_number_has_bits(tail, 8);
    assert(((entropy_number(tail, 8) / pow2(j)) % 2 == 1) == (j < tail.len() && tail[j as int]));
}

/// The value of a bit of a byte is its binary digit.
pub proof fn law_byte_bit(byte: u8, index: u8)
    requires
        index < 8,
    ensures
        byte_bit(byte, index) == ((byte as nat / pow2(index as nat)) % 2 == 1),
{
    lemma2_to64();
    assert((byte & (1u8 << 0u8) != 0) == (byte / 1 % 2 == 1)) by (bit_vector);
    assert((byte & (1u8 << 1u8) != 0) == (byte / 2 % 2 == 1)) by (bit_vector);
    assert((byte & (1u8 << 2u8) != 0) == (byte / 4 % 2 == 1)) by (bit_vector);
    assert((byte & (1u8 << 3u8) != 0) == (byte / 8 % 2 == 1)) by (bit_vector);
    assert((byte & (1u8 << 4u8) != 0) == (byte / 16 % 2 == 1)) by (bit_vector);
    assert((byte & (1u8 << 5u8) != 0) == (byte / 32 % 2 == 1)) by (bit_vector);
    assert((byte & (1u8 << 6u8) != 0) == (byte / 64 % 2 == 1)) by (bit_vector);
    assert((byte & (1u8 << 7u8) != 0) == (byte / 128 % 2 == 1)) by (bit_vector);
}

/// The bits of some bytes are the binary digits of each byte in turn, the least significant first.
pub proof fn law_bits_of_bytes(data: Seq<u8>, pos: int)
    requires
        0 <= pos < 8 * data.len(),
    ensures
        bit_at(data, pos) == ((data[pos / 8] as nat / pow2((pos % 8) as nat)) % 2 == 1),
        bits_of(data).len() == 8 * data.len(),
        bits_of(data)[pos] == ((data[pos / 8] as nat / pow2((pos % 8) as nat)) % 2 == 1),
{
    law_byte_bit(data[pos / 8], (pos % 8) as u8);
}

/// The width of a number is the least number of binary digits that can write it.
pub proof fn law_width(number: nat, width: nat)
    ensures
        number < pow2(bit_width(number)),
        number < pow2(width) ==> bit_width(number) <= width,
{
    lemma_bit_width_suffices(number);
    if number < pow2(width) {
        lemma_bit_width_bound(number, width);
    }
}

/// A number of a range is read from the fewest bits that can write the span of the range: they are
/// taken as a binary number, the least significant digit first, modulo the number of choices. The
/// bits that follow are left.
pub proof fn law_range(
    bits: Seq<bool>,
    min: int,
    max: int,
    width: nat,
    raw: nat,
    rest: Seq<bool>,
)
    requires
        min <= max,
        max - min < pow2(width),
        width > 0 ==> pow2((width - 1) as nat) <= max - min,
        raw < pow2(width),
        forall|i: nat|
            i < width ==> ((raw / #[trigger] pow2(i)) % 2 == 1) == (i < bits.len()
                && bits[i as int]),
        width <= bits.len() ==> rest == bits.skip(width as int),
        width > bits.len() ==> rest == Seq::<bool>::empty(),
    ensures
        entropy_range(bits, min, max) == min + raw as int % (max - min + 1),
        entropy_after_range(bits, min, max) == rest,
        reads(bits, min, max, min + raw as int % (max - min + 1), rest),
{
    let span: nat = (max - min) as nat;
    assert forall|other: nat| span < #[trigger] pow2(other) implies width <= other by {
        if other < width {
            if other < width - 1 {
                vstd::arithmetic::power2::lemma_pow2_strictly_increases(
                    other,
                    (width - 1) as nat,
                );
            }
        }
    }
    lemma_bit_width_suffices(span);
    lemma_bit_width_bound(span, width);
    assert(bit_width(span) == width);
    lemma_digits_determine(bits, width, raw);
    assert(is_width_of(span, width) && is_number_of(bits, width, raw));
    assert(is_rest_of(bits, width, rest));
}

/// Each number of a range that can be read is the one that the entropy selects.
pub proof fn law_reads(bits: Seq<bool>, min: int, max: int, number: int, rest: Seq<bool>)
    requires
        min <= max,
    ensures
        reads(bits, min, max, number, rest) <==> number == entropy_range(bits, min, max) && rest
            == entropy_after_range(bits, min, max),
        reads(bits, min, max, number, rest) ==> min <= number <= max,
{
    let span: nat = (max - min) as nat;
    let width: nat = bit_width(span);
    crate::entropy::lemma_entropy_range_bounds(bits, min, max);
    lemma_bit_width_suffices(span);
    lemma_number_has_bits(bits, width);
    assert forall|other: nat| span < #[trigger] pow2(other) implies width <= other by {
        lemma_bit_width_bound(span, other);
    }
    assert(is_width_of(span, width));
    if reads(bits, min, max, number, rest) {
        let (w, raw): (nat, nat) = choose|w: nat, raw: nat|
            {
                &&& #[trigger] is_width_of((max - min) as nat, w)
                &&& #[trigger] is_number_of(bits, w, raw)
                &&& number == min + raw as int % (max - min + 1)
                &&& is_rest_of(bits, w, rest)
            };
        assert(span < pow2(w) && span < pow2(width));
        assert(w == width);
        lemma_digits_determine(bits, width, raw);
        assert(rest =~= entropy_after_range(bits, min, max));
    }
    if number == entropy_range(bits, min, max) && rest == entropy_after_range(bits, min, max) {
        assert(is_number_of(bits, width, entropy_number(bits, width)));
        assert(is_rest_of(bits, width, rest));
    }
}

/// A byte is determined by its binary digits.
pub proof fn lemma_byte_digits_determine(a: u8, b: u8)
    requires
        forall|j: nat|
            j < 8 ==> ((a as nat / #[trigger] pow2(j)) % 2 == 1) == ((b as nat / pow2(j)) % 2 == 1),
    ensures
        a == b,
{
    let digits = Seq::new(8, |j: int| (a as nat / pow2(j as nat)) % 2 == 1);
    lemma2_to64();
    assert(is_number_of(digits, 8, a as nat));
    assert(is_number_of(digits, 8, b as nat));
    lemma_digits_determine(digits, 8, a as nat);
    lemma_digits_determine(digits, 8, b as nat);
}

} // verus!
