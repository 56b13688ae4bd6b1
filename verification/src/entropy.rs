//! Bit-level entropy read from a byte slice.
//!
//! The entropy is modelled by the sequence of its remaining bits. Reading past the end gives zeros.

use crate::bits::{bit_at, byte_bit};
use vstd::arithmetic::power2::{
    lemma2_to64, lemma2_to64_rest, lemma_pow2_pos, lemma_pow2_unfold, pow2,
};
use vstd::prelude::*;

verus! {

/// Bit `index` of the entropy `bits`, zero past the end.
pub open spec fn entropy_bit(bits: Seq<bool>, index: int) -> bool {
    0 <= index < bits.len() && bits[index]
}

/// What remains of the entropy `bits` after `count` bits were read.
pub open spec fn entropy_after(bits: Seq<bool>, count: nat) -> Seq<bool> {
    if count <= bits.len() {
        bits.skip(count as int)
    } else {
        Seq::empty()
    }
}

/// The number that the first `count` bits of the entropy write, least significant bit first.
pub open spec fn entropy_number(bits: Seq<bool>, count: nat) -> nat
    decreases count,
{
    if count == 0 {
        0
    } else {
        let low = entropy_number(bits, (count - 1) as nat);
        if entropy_bit(bits, count - 1) {
            low + pow2((count - 1) as nat)
        } else {
            low
        }
    }
}

/// The first `length` bytes of the entropy.
pub open spec fn entropy_bytes(bits: Seq<bool>, length: nat) -> Seq<u8> {
    Seq::new(length, |i: int| entropy_number(entropy_after(bits, (8 * i) as nat), 8) as u8)
}

/// The number of bits necessary to represent `x`.
pub open spec fn bit_width(x: nat) -> nat
    decreases x,
{
    if x == 0 {
        0
    } else {
        1 + bit_width(x / 2)
    }
}

/// The number between `min` and `max`, bounds included, that the entropy selects.
pub open spec fn entropy_range(bits: Seq<bool>, min: int, max: int) -> int {
    min + entropy_number(bits, bit_width((max - min) as nat)) as int % (max - min + 1)
}

/// What remains of the entropy after a number between `min` and `max` was read.
pub open spec fn entropy_after_range(bits: Seq<bool>, min: int, max: int) -> Seq<bool> {
    entropy_after(bits, bit_width((max - min) as nat))
}

/// Reading some bits and then some more reads them all.
pub proof fn lemma_entropy_after_adds(bits: Seq<bool>, a: nat, b: nat)
    ensures
        entropy_after(entropy_after(bits, a), b) == entropy_after(bits, a + b),
{
    assert(entropy_after(entropy_after(bits, a), b) =~= entropy_after(bits, a + b));
}

/// A number of `count` bits is below the `count`-th power of two.
pub proof fn lemma_entropy_number_bound(bits: Seq<bool>, count: nat)
    ensures
        entropy_number(bits, count) < pow2(count),
    decreases count,
{
    lemma_pow2_pos(count);
    if count > 0 {
        lemma_entropy_number_bound(bits, (count - 1) as nat);
        lemma_pow2_unfold(count);
    }
}

/// A number below the `count`-th power of two needs at most `count` bits.
pub proof fn lemma_bit_width_bound(x: nat, count: nat)
    requires
        x < pow2(count),
    ensures
        bit_width(x) <= count,
    decreases count,
{
    if count == 0 {
        lemma2_to64();
    } else if x > 0 {
        lemma_pow2_unfold(count);
        lemma_bit_width_bound(x / 2, (count - 1) as nat);
    }
}

/// A number is below the power of two of its width.
pub proof fn lemma_bit_width_suffices(x: nat)
    ensures
        x < pow2(bit_width(x)),
    decreases x,
{
    lemma_pow2_pos(bit_width(x));
    if x > 0 {
        lemma_bit_width_suffices(x / 2);
        lemma_pow2_unfold(bit_width(x));
    }
}

/// A `usize` holds as many bits as it says.
proof fn lemma_usize_width(x: usize)
    ensures
        bit_width(x as nat) <= usize::BITS,
        pow2(usize::BITS as nat) == usize::MAX + 1,
{
    lemma2_to64();
    lemma2_to64_rest();
    lemma_bit_width_bound(x as nat, usize::BITS as nat);
}

/// The number read between `min` and `max` lies between them.
pub proof fn lemma_entropy_range_bounds(bits: Seq<bool>, min: int, max: int)
    requires
        min <= max,
    ensures
        min <= entropy_range(bits, min, max) <= max,
{
    let width: int = max - min + 1;
    let delta: int = entropy_number(bits, bit_width((max - min) as nat)) as int;
    assert(0 <= delta % width < width) by (nonlinear_arith)
        requires
            width > 0,
    ;
}

/// Consumed entropy reads as zero bits, and thus as the smallest number of each range.
pub proof fn law_consumed_entropy_reads_zero(count: nat, min: int, max: int)
    requires
        min <= max,
    ensures
        entropy_number(Seq::empty(), count) == 0,
        entropy_after(Seq::empty(), count) == Seq::<bool>::empty(),
        entropy_range(Seq::empty(), min, max) == min,
{
    lemma_zero_number(count);
    lemma_zero_number(bit_width((max - min) as nat));
    assert(entropy_after(Seq::empty(), count) =~= Seq::<bool>::empty());
}

/// No bits at all write zero.
proof fn lemma_zero_number(count: nat)
    ensures
        entropy_number(Seq::empty(), count) == 0,
    decreases count,
{
    if count > 0 {
        lemma_zero_number((count - 1) as nat);
    }
}

/// The `count` bits that write `number`, least significant bit first.
pub open spec fn written(number: nat, count: nat) -> Seq<bool>
    decreases count,
{
    if count == 0 {
        Seq::empty()
    } else {
        let high = pow2((count - 1) as nat);
        if number < high {
            written(number, (count - 1) as nat).push(false)
        } else {
            written((number - high) as nat, (count - 1) as nat).push(true)
        }
    }
}

/// Only the first bits matter for a number.
proof fn lemma_number_of_prefix(a: Seq<bool>, b: Seq<bool>, count: nat)
    requires
        forall|i: int| 0 <= i < count ==> entropy_bit(a, i) == #[trigger] entropy_bit(b, i),
    ensures
        entropy_number(a, count) == entropy_number(b, count),
    decreases count,
{
    if count > 0 {
        lemma_number_of_prefix(a, b, (count - 1) as nat);
        assert(entropy_bit(a, count - 1) == entropy_bit(b, count - 1));
    }
}

/// The bits that write a number read as that number, whatever follows.
pub proof fn lemma_written_is_read(number: nat, count: nat, rest: Seq<bool>)
    requires
        number < pow2(count),
    ensures
        written(number, count).len() == count,
        entropy_number(written(number, count) + rest, count) == number,
        entropy_after(written(number, count) + rest, count) == rest,
    decreases count,
{
    if count == 0 {
        lemma2_to64();
    } else {
        lemma_pow2_unfold(count);
        let high: nat = pow2((count - 1) as nat);
        let low: nat = if number < high {
            number
        } else {
            (number - high) as nat
        };
        let shorter = written(low, (count - 1) as nat);
        lemma_written_is_read(low, (count - 1) as nat, rest);
        assert forall|i: int| 0 <= i < count - 1 implies entropy_bit(
            written(number, count) + rest,
            i,
        ) == #[trigger] entropy_bit(shorter + rest, i) by {}
        lemma_number_of_prefix(
            written(number, count) + rest,
            shorter + rest,
            (count - 1) as nat,
        );
    }
    assert(entropy_after(written(number, count) + rest, count) =~= rest);
}

/// The entropy that selects `number` between `min` and `max`.
pub open spec fn selecting(number: int, min: int, max: int) -> Seq<bool> {
    written((number - min) as nat, bit_width((max - min) as nat))
}

/// Each number of a range is selected by some entropy, whatever follows.
pub proof fn law_range_is_covered(number: int, min: int, max: int, rest: Seq<bool>)
    requires
        min <= number <= max,
    ensures
        entropy_range(selecting(number, min, max) + rest, min, max) == number,
        entropy_after_range(selecting(number, min, max) + rest, min, max) == rest,
{
    let width: nat = bit_width((max - min) as nat);
    lemma_bit_width_suffices((max - min) as nat);
    lemma_written_is_read((number - min) as nat, width, rest);
    assert((number - min) % (max - min + 1) == number - min) by (nonlinear_arith)
        requires
            min <= number <= max,
    ;
}

/// Reading never adds entropy, and reading a number of a range of at least two numbers consumes
/// some if there is any.
pub proof fn law_range_consumes(bits: Seq<bool>, min: int, max: int)
    requires
        min <= max,
    ensures
        entropy_after_range(bits, min, max).len() <= bits.len(),
        min < max && bits.len() > 0 ==> entropy_after_range(bits, min, max).len() < bits.len(),
{
}

/// Bit-level entropy source based on a byte slice.
pub struct Entropy<'a> {
    /// The byte slice that provides the entropy.
    data: &'a [u8],
    /// The position in the slice of the byte that holds the next bit.
    byte: usize,
    /// The position of the next bit in its byte.
    bit: u8,
}

impl<'a> View for Entropy<'a> {
    type V = Seq<bool>;

    /// The remaining bits.
    closed spec fn view(&self) -> Seq<bool> {
        Seq::new(
            (8 * (self.data@.len() - self.byte) - self.bit) as nat,
            |i: int| bit_at(self.data@, 8 * self.byte + self.bit + i),
        )
    }
}

/// The bits of `data`, the least significant of each byte first.
pub open spec fn bits_of(data: Seq<u8>) -> Seq<bool> {
    Seq::new(8 * data.len(), |i: int| bit_at(data, i))
}

impl<'a> Entropy<'a> {
    /// The next bit is a bit of the slice, or the end of the slice is reached.
    pub closed spec fn wf(&self) -> bool {
        &&& self.byte <= self.data@.len()
        &&& self.bit < 8
        &&& self.byte == self.data@.len() ==> self.bit == 0
    }

    /// Creates a bit-level entropy given a byte slice.
    pub fn new(data: &'a [u8]) -> (result: Entropy<'a>)
        ensures
            result.wf(),
            result@ == bits_of(data@),
    {
        let result = Entropy { data, byte: 0, bit: 0 };
        assert(result@ =~= bits_of(data@));
        result
    }

    /// Consumes the remaining entropy.
    pub fn consume_all(&mut self)
        requires
            old(self).wf(),
        ensures
            final(self).wf(),
            final(self)@ == Seq::<bool>::empty(),
    {
        self.byte = self.data.len();
        self.bit = 0;
        assert(self@ =~= Seq::<bool>::empty());
    }

    /// Returns whether there is no entropy remaining.
    pub fn is_empty(&self) -> (result: bool)
        requires
            self.wf(),
        ensures
            result == (self@.len() == 0),
    {
        self.byte == self.data.len()
    }

    /// Reads a bit.
    pub fn read_bit(&mut self) -> (result: bool)
        requires
            old(self).wf(),
        ensures
            final(self).wf(),
            result == entropy_bit(old(self)@, 0),
            final(self)@ == entropy_after(old(self)@, 1),
    {
        if self.byte == self.data.len() {
            return false;
        }
        let result: bool = self.data[self.byte] & (1u8 << self.bit) != 0;
        proof {
            let pos: int = 8 * self.byte + self.bit;
            assert(pos / 8 == self.byte && pos % 8 == self.bit);
            assert(result == byte_bit(self.data@[self.byte as int], self.bit));
            assert(result == self@[0]);
        }
        if self.bit == 7 {
            self.byte += 1;
            self.bit = 0;
        } else {
            self.bit += 1;
        }
        assert(self@ =~= entropy_after(old(self)@, 1));
        result
    }

    /// Reads a number with a given bit-width.
    pub fn read_bits(&mut self, count: usize) -> (result: usize)
        requires
            old(self).wf(),
            count <= usize::BITS,
        ensures
            final(self).wf(),
            result == entropy_number(old(self)@, count as nat),
            final(self)@ == entropy_after(old(self)@, count as nat),
    {
        let ghost bits = self@;
        let mut result: usize = 0;
        let mut weight: usize = 1;
        let mut i: usize = 0;
        proof {
            lemma2_to64();
            assert(entropy_after(bits, 0) =~= bits);
        }
        while i < count
            invariant
                self.wf(),
                i <= count <= usize::BITS,
                i < count ==> weight == pow2(i as nat),
                result == entropy_number(bits, i as nat),
                self@ == entropy_after(bits, i as nat),
            decreases count - i,
        {
            proof {
                lemma_entropy_number_bound(bits, (i + 1) as nat);
                lemma_usize_width(0);
                lemma_entropy_after_adds(bits, i as nat, 1);
                lemma_pow2_no_overflow((i + 1) as nat);
            }
            if self.read_bit() {
                result = result + weight;
            }
            i += 1;
            if i < count {
                proof {
                    lemma_pow2_unfold(i as nat);
                }
                weight = 2 * weight;
            }
        }
        result
    }

    /// Reads a byte.
    pub fn read_byte(&mut self) -> (result: u8)
        requires
            old(self).wf(),
        ensures
            final(self).wf(),
            result == entropy_number(old(self)@, 8),
            final(self)@ == entropy_after(old(self)@, 8),
    {
        proof {
            lemma_entropy_number_bound(self@, 8);
            lemma2_to64();
        }
        self.read_bits(8) as u8
    }

    /// Reads a slice.
    pub fn read_slice(&mut self, length: usize) -> (result: Vec<u8>)
        requires
            old(self).wf(),
        ensures
            final(self).wf(),
            result@ == entropy_bytes(old(self)@, length as nat),
            final(self)@ == entropy_after(old(self)@, 8 * length as nat),
    {
        let ghost bits = self@;
        let mut result: Vec<u8> = Vec::with_capacity(length);
        let mut i: usize = 0;
        assert(entropy_after(bits, 0) =~= bits);
        while i < length
            invariant
                self.wf(),
                i <= length,
                result@ =~= entropy_bytes(bits, i as nat),
                self@ == entropy_after(bits, 8 * i as nat),
            decreases length - i,
        {
            proof {
                lemma_entropy_after_adds(bits, 8 * i as nat, 8);
            }
            let byte: u8 = self.read_byte();
            result.push(byte);
            i += 1;
        }
        result
    }

    /// Reads a number between `min` and `max` (inclusive bounds).
    pub fn read_range(&mut self, min: usize, max: usize) -> (result: usize)
        requires
            old(self).wf(),
            min <= max,
        ensures
            final(self).wf(),
            min <= result <= max,
            result == entropy_range(old(self)@, min as int, max as int),
            final(self)@ == entropy_after_range(old(self)@, min as int, max as int),
    {
        let span: usize = max - min;
        let count: usize = num_bits(span);
        proof {
            lemma_usize_width(span);
            lemma_entropy_number_bound(self@, count as nat);
            lemma_entropy_range_bounds(self@, min as int, max as int);
        }
        let delta: usize = self.read_bits(count);
        if span == usize::MAX {
            proof {
                assert(delta as int % (span + 1) == delta) by (nonlinear_arith)
                    requires
                        0 <= delta <= span,
                ;
            }
            delta
        } else {
            min + delta % (span + 1)
        }
    }
}

/// The powers of two up to the width of a `usize` are at most the first that it cannot hold.
proof fn lemma_pow2_no_overflow(count: nat)
    requires
        count <= usize::BITS,
    ensures
        0 < pow2(count) <= usize::MAX + 1,
        count < usize::BITS ==> pow2(count) <= usize::MAX,
{
    lemma2_to64();
    lemma2_to64_rest();
    lemma_pow2_pos(count);
    if count < usize::BITS {
        vstd::arithmetic::power2::lemma_pow2_strictly_increases(count, usize::BITS as nat);
    }
}

/// Returns the number of bits necessary to represent a number.
fn num_bits(x: usize) -> (result: usize)
    ensures
        result == bit_width(x as nat),
{
    let mut rest: usize = x;
    let mut result: usize = 0;
    proof {
        lemma_usize_width(x);
    }
    while rest > 0
        invariant
            result + bit_width(rest as nat) == bit_width(x as nat),
            bit_width(x as nat) <= usize::BITS,
        decreases rest,
    {
        rest = rest / 2;
        result += 1;
    }
    result
}

} // verus!
