//! Bits of bytes, least significant first.

use vstd::prelude::*;

verus! {

/// Whether bit `index` of `byte` is set.
pub open spec fn byte_bit(byte: u8, index: u8) -> bool {
    byte & (1u8 << index) != 0
}

/// Whether the bit at position `pos` of `bytes` is set, where byte `i` holds the positions from
/// `8 * i` to `8 * i + 7`.
pub open spec fn bit_at(bytes: Seq<u8>, pos: int) -> bool {
    byte_bit(bytes[pos / 8], (pos % 8) as u8)
}

/// Setting a bit changes no other bit.
pub proof fn lemma_set_bit(byte: u8, index: u8)
    requires
        index < 8,
    ensures
        forall|j: u8|
            j < 8 ==> #[trigger] byte_bit(byte | (1u8 << index), j) == (j == index || byte_bit(
                byte,
                j,
            )),
{
    assert forall|j: u8| j < 8 implies #[trigger] byte_bit(byte | (1u8 << index), j) == (j == index
        || byte_bit(byte, j)) by {
        assert(((byte | (1u8 << index)) & (1u8 << j) != 0) == (j == index || byte & (1u8 << j)
            != 0)) by (bit_vector)
            requires
                index < 8,
                j < 8,
        ;
    }
}

/// Clearing a bit changes no other bit.
pub proof fn lemma_clear_bit(byte: u8, index: u8)
    requires
        index < 8,
    ensures
        forall|j: u8|
            j < 8 ==> #[trigger] byte_bit(byte & !(1u8 << index), j) == (j != index && byte_bit(
                byte,
                j,
            )),
{
    assert forall|j: u8| j < 8 implies #[trigger] byte_bit(byte & !(1u8 << index), j) == (j != index
        && byte_bit(byte, j)) by {
        assert(((byte & !(1u8 << index)) & (1u8 << j) != 0) == (j != index && byte & (1u8 << j)
            != 0)) by (bit_vector)
            requires
                index < 8,
                j < 8,
        ;
    }
}

/// Flipping a bit changes no other bit.
pub proof fn lemma_flip_bit(byte: u8, index: u8)
    requires
        index < 8,
    ensures
        forall|j: u8|
            j < 8 ==> #[trigger] byte_bit(byte ^ (1u8 << index), j) == ((j == index) != byte_bit(
                byte,
                j,
            )),
{
    assert forall|j: u8| j < 8 implies #[trigger] byte_bit(byte ^ (1u8 << index), j) == ((j
        == index) != byte_bit(byte, j)) by {
        assert(((byte ^ (1u8 << index)) & (1u8 << j) != 0) == ((j == index) != (byte & (1u8 << j)
            != 0))) by (bit_vector)
            requires
                index < 8,
                j < 8,
        ;
    }
}

/// Two bytes agree under the mask of a bit if and only if they agree on that bit.
pub proof fn lemma_masked_bits(a: u8, b: u8, index: u8)
    requires
        index < 8,
    ensures
        (a & (1u8 << index) == b & (1u8 << index)) == (byte_bit(a, index) == byte_bit(b, index)),
{
    let mask: u8 = 1u8 << index;
    assert((a & mask == b & mask) == ((a & mask != 0) == (b & mask != 0))) by (bit_vector)
        requires
            mask == 1u8 << index,
            index < 8,
    ;
}

/// No bit of zero is set.
pub proof fn lemma_zero_bits()
    ensures
        forall|j: u8| !#[trigger] byte_bit(0, j),
{
    assert forall|j: u8| !#[trigger] byte_bit(0, j) by {
        assert(0u8 & (1u8 << j) == 0) by (bit_vector);
    }
}

/// A byte is determined by its bits.
pub proof fn lemma_same_bits(a: u8, b: u8)
    requires
        forall|j: u8| j < 8 ==> #[trigger] byte_bit(a, j) == byte_bit(b, j),
    ensures
        a == b,
{
    assert(byte_bit(a, 0) == byte_bit(b, 0));
    assert(byte_bit(a, 1) == byte_bit(b, 1));
    assert(byte_bit(a, 2) == byte_bit(b, 2));
    assert(byte_bit(a, 3) == byte_bit(b, 3));
    assert(byte_bit(a, 4) == byte_bit(b, 4));
    assert(byte_bit(a, 5) == byte_bit(b, 5));
    assert(byte_bit(a, 6) == byte_bit(b, 6));
    assert(byte_bit(a, 7) == byte_bit(b, 7));
    assert(a == b) by (bit_vector)
        requires
            (a & (1u8 << 0u8) != 0) == (b & (1u8 << 0u8) != 0),
            (a & (1u8 << 1u8) != 0) == (b & (1u8 << 1u8) != 0),
            (a & (1u8 << 2u8) != 0) == (b & (1u8 << 2u8) != 0),
            (a & (1u8 << 3u8) != 0) == (b & (1u8 << 3u8) != 0),
            (a & (1u8 << 4u8) != 0) == (b & (1u8 << 4u8) != 0),
            (a & (1u8 << 5u8) != 0) == (b & (1u8 << 5u8) != 0),
            (a & (1u8 << 6u8) != 0) == (b & (1u8 << 6u8) != 0),
            (a & (1u8 << 7u8) != 0) == (b & (1u8 << 7u8) != 0),
    ;
}

} // verus!
