//! A compact stack of bits.

use crate::bits::{bit_at, byte_bit, lemma_clear_bit, lemma_set_bit, lemma_zero_bits};
use crate::decimal::{decimal, decimal_text};
use vstd::prelude::*;

verus! {

/// Compact stack of bits.
#[derive(Debug)]
pub struct BitStack {
    /// Bits stored in little-endian (for bytes and bits).
    ///
    /// The last byte only contains `len` bits, its other bits are zero.
    data: Vec<u8>,
    /// Number of bits stored in the last byte.
    ///
    /// It is 0 if the last byte is full, not 8.
    len: usize,
}

/// What popping a bit from the stack `bits` gives, and what it leaves.
pub open spec fn popped(bits: Seq<bool>) -> (Option<bool>, Seq<bool>) {
    if bits.len() == 0 {
        (None, bits)
    } else {
        (Some(bits.last()), bits.drop_last())
    }
}

/// The bit that was pushed last is popped first, and popping it leaves the stack as it was before.
pub proof fn law_pop_undoes_push(bits: Seq<bool>, value: bool)
    ensures
        popped(bits.push(value)) == (Some(value), bits),
{
    assert(bits.push(value).drop_last() =~= bits);
}

/// The text of a stack has a digit for each bit, the top of the stack first, and then the number of
/// bits in decimal, in parentheses.
pub proof fn law_text(bits: Seq<bool>)
    ensures
        stack_text(bits).len() == bits.len() + decimal_text(bits.len()).len() + 8,
        forall|i: int|
            0 <= i < bits.len() ==> #[trigger] stack_text(bits)[i] == (if bits[bits.len() - 1 - i] {
                '1'
            } else {
                '0'
            }),
        stack_text(bits).skip(bits.len() as int) == seq![' ', '('] + decimal_text(bits.len())
            + seq![' ', 'b', 'i', 't', 's', ')'],
{
    assert(stack_text(bits).skip(bits.len() as int) =~= seq![' ', '('] + decimal_text(bits.len())
        + seq![' ', 'b', 'i', 't', 's', ')']);
}

/// A digit for each bit of the stack `bits`, from the top to the bottom.
pub open spec fn bit_digits(bits: Seq<bool>) -> Seq<char> {
    Seq::new(
        bits.len(),
        |i: int|
            if bits[bits.len() - 1 - i] {
                '1'
            } else {
                '0'
            },
    )
}

/// The text of the stack `bits`: its digits, and then their number.
pub open spec fn stack_text(bits: Seq<bool>) -> Seq<char> {
    bit_digits(bits) + seq![' ', '('] + decimal_text(bits.len())
        + seq![' ', 'b', 'i', 't', 's', ')']
}

impl View for BitStack {
    type V = Seq<bool>;

    /// The bits of the stack, from the bottom to the top.
    closed spec fn view(&self) -> Seq<bool> {
        Seq::new(self.size(), |i: int| bit_at(self.data@, i))
    }
}

impl BitStack {
    /// The number of bits that the representation holds.
    spec fn size(&self) -> nat {
        if self.len == 0 {
            8 * self.data@.len()
        } else {
            (8 * (self.data@.len() - 1) + self.len) as nat
        }
    }

    /// The number of bits in the last byte is below 8, only an existing byte holds bits, and the
    /// bits of the last byte beyond the stack are zero.
    pub closed spec fn wf(&self) -> bool {
        &&& self.len < 8
        &&& self.len > 0 ==> self.data@.len() > 0 && forall|j: u8|
            self.len <= j < 8 ==> !#[trigger] byte_bit(self.data@.last(), j)
    }

    /// The number of bytes that hold the bits.
    pub closed spec fn byte_count(&self) -> nat {
        self.data@.len()
    }

    /// The number of bits in the last byte, or 0 if it is full.
    pub closed spec fn last_byte_bits(&self) -> nat {
        self.len as nat
    }

    /// The stack is compact: it uses no more bytes than its bits need, and the last byte holds the
    /// bits that do not fill a byte.
    pub proof fn law_compact(&self)
        requires
            self.wf(),
        ensures
            self.byte_count() == (self@.len() + 7) / 8,
            self.last_byte_bits() == self@.len() % 8,
            self.last_byte_bits() < 8,
            self.last_byte_bits() > 0 ==> self.byte_count() > 0,
    {
    }

    /// Returns whether the stack is empty.
    pub fn is_empty(&self) -> (result: bool)
        requires
            self.wf(),
        ensures
            result == (self@.len() == 0),
    {
        self.data.len() == 0
    }

    /// Returns the length of the stack.
    pub fn len(&self) -> (result: usize)
        requires
            self.wf(),
            self@.len() <= usize::MAX,
        ensures
            result == self@.len(),
    {
        if self.len == 0 {
            8 * self.data.len()
        } else {
            8 * (self.data.len() - 1) + self.len
        }
    }

    /// Pushes a bit to the stack.
    pub fn push(&mut self, value: bool)
        requires
            old(self).wf(),
        ensures
            final(self).wf(),
            final(self)@ == old(self)@.push(value),
            final(self).byte_count() == (final(self)@.len() + 7) / 8,
            final(self).last_byte_bits() == final(self)@.len() % 8,
    {
        proof {
            lemma_zero_bits();
        }
        if self.len == 0 {
            self.data.push(0);
        }
        let shift: u8 = self.len as u8;
        let last: usize = self.data.len() - 1;
        let ghost before: u8 = self.data@.last();
        if value {
            proof {
                lemma_set_bit(self.data@[last as int], shift);
            }
            self.data[last] = self.data[last] | (1u8 << shift);
        }
        self.len += 1;
        if self.len == 8 {
            self.len = 0;
        }
        proof {
            let after: u8 = self.data@.last();
            assert forall|j: u8| j < 8 implies #[trigger] byte_bit(after, j) == (if j == shift {
                value
            } else {
                byte_bit(before, j)
            }) by {
                assert(!byte_bit(before, shift));
            }
            assert forall|i: int| 0 <= i < self@.len() implies self@[i] == old(self)@.push(
                value,
            )[i] by {
                if i / 8 == last {
                    assert(byte_bit(after, (i % 8) as u8) == self@[i]);
                }
            }
            assert(self@ =~= old(self)@.push(value));
        }
    }

    /// Pops a bit from the stack.
    pub fn pop(&mut self) -> (result: Option<bool>)
        requires
            old(self).wf(),
        ensures
            final(self).wf(),
            (result, final(self)@) == popped(old(self)@),
            old(self)@.len() == 0 ==> result is None && *final(self) == *old(self),
            old(self)@.len() > 0 ==> result == Some(old(self)@.last()) && final(self)@
                == old(self)@.drop_last(),
            final(self).byte_count() == (final(self)@.len() + 7) / 8,
            final(self).last_byte_bits() == final(self)@.len() % 8,
    {
        if self.len == 0 {
            if self.data.len() == 0 {
                return None;
            }
            self.len = 8;
        }
        self.len -= 1;
        let shift: u8 = self.len as u8;
        let last: usize = self.data.len() - 1;
        let byte: u8 = self.data[last];
        let result: bool = byte & (1u8 << shift) != 0;
        if self.len == 0 {
            self.data.pop();
        } else {
            proof {
                lemma_clear_bit(byte, shift);
            }
            self.data[last] = byte & !(1u8 << shift);
        }
        proof {
            if self.len != 0 {
                let after: u8 = self.data@.last();
                assert forall|j: u8| self.len <= j < 8 implies !#[trigger] byte_bit(after, j) by {
                    if j != shift && old(self).len != 0 {
                        assert(!byte_bit(old(self).data@.last(), j));
                    }
                }
            }
            assert(self@ =~= old(self)@.drop_last());
        }
        Some(result)
    }

    /// Returns the bits from the top to the bottom, followed by their number.
    pub fn to_string(&self) -> (result: String)
        requires
            self.wf(),
            self@.len() <= usize::MAX,
        ensures
            result@ == stack_text(self@),
    {
        let mut bits: BitStack = self.clone();
        let mut result: String = String::new();
        let ghost length: int = self@.len() as int;
        let ghost digits = bit_digits(self@);
        let ghost mut remaining: int = length;
        proof {
            reveal_strlit("0");
            reveal_strlit("1");
            reveal_strlit(" (");
            reveal_strlit(" bits)");
        }
        proof {
            assert(self@.take(length) =~= self@);
            assert(digits.take(0) =~= Seq::<char>::empty());
        }
        let mut next: Option<bool> = bits.pop();
        while next.is_some()
            invariant
                bits.wf(),
                remaining <= length == self@.len(),
                (next, bits@) == popped(self@.take(remaining)),
                digits == bit_digits(self@),
                result@ == digits.take(length - remaining),
                remaining >= 0,
                "0"@ =~= seq!['0'],
                "1"@ =~= seq!['1'],
            decreases remaining,
        {
            if let Some(true) = next {
                result.append("1");
            } else {
                result.append("0");
            }
            proof {
                assert(self@.take(remaining).drop_last() =~= self@.take(remaining - 1));
                remaining = remaining - 1;
                assert(result@ =~= digits.take(length - remaining));
            }
            next = bits.pop();
        }
        assert(result@ =~= digits);
        result.append(" (");
        let count: String = decimal(self.len());
        result.append(count.as_str());
        result.append(" bits)");
        assert(result@ =~= stack_text(self@));
        result
    }
}

impl Clone for BitStack {
    fn clone(&self) -> (result: BitStack)
        ensures
            self.wf() ==> result.wf(),
            result@ == self@,
    {
        let result = BitStack { data: self.data.clone(), len: self.len };
        assert(result.data@ =~= self.data@);
        result
    }
}

impl Default for BitStack {
    fn default() -> (result: BitStack)
        ensures
            result.wf(),
            result@ == Seq::<bool>::empty(),
            result.byte_count() == 0,
    {
        let result = BitStack { data: Vec::new(), len: 0 };
        assert(result@ =~= Seq::<bool>::empty());
        result
    }
}

} // verus!
