//! Corruption of an interrupted storage operation.
//!
//! An interrupted operation leaves each bit that it was to change either changed or not. Which of
//! the two is told by a stack of bits, from which one bit is popped for each bit to change.

use crate::bit_stack::BitStack;
use crate::bits::{bit_at, byte_bit, lemma_flip_bit, lemma_masked_bits, lemma_same_bits};
use crate::reading::law_byte_bit;
use vstd::arithmetic::power2::pow2;
use vstd::prelude::*;

verus! {

/// The number of bit positions that `current` and `target` share.
pub open spec fn shared_positions(current: Seq<u8>, target: Seq<u8>) -> nat {
    if current.len() <= target.len() {
        8 * current.len()
    } else {
        8 * target.len()
    }
}

/// Whether the bit at position `pos` is to change.
pub open spec fn differs(current: Seq<u8>, target: Seq<u8>, pos: int) -> bool {
    bit_at(current, pos) != bit_at(target, pos)
}

/// The number of bits to change among the first `count` positions.
pub open spec fn differences(current: Seq<u8>, target: Seq<u8>, count: nat) -> nat
    decreases count,
{
    if count == 0 {
        0
    } else {
        let before = differences(current, target, (count - 1) as nat);
        if differs(current, target, count - 1) {
            before + 1
        } else {
            before
        }
    }
}

/// Whether `complete_bits` has a bit for each bit to change.
pub open spec fn can_corrupt(
    current: Seq<u8>,
    target: Seq<u8>,
    complete_bits: Seq<bool>,
) -> bool {
    differences(current, target, shared_positions(current, target)) <= complete_bits.len()
}

/// Whether the bit at position `pos` gets changed: it is to change, and the bit that is popped
/// for it from `complete_bits` is set.
pub open spec fn completed(
    current: Seq<u8>,
    target: Seq<u8>,
    complete_bits: Seq<bool>,
    pos: int,
) -> bool {
    &&& differs(current, target, pos)
    &&& complete_bits[complete_bits.len() - 1 - differences(current, target, pos as nat)]
}

/// The bit at position `pos` after the corruption.
pub open spec fn corrupted_bit(
    current: Seq<u8>,
    target: Seq<u8>,
    complete_bits: Seq<bool>,
    pos: int,
) -> bool {
    if completed(current, target, complete_bits, pos) {
        bit_at(target, pos)
    } else {
        bit_at(current, pos)
    }
}

/// Whether `result` is what the corruption leaves of `current`: each shared bit is the corrupted
/// one, and the bytes beyond those of `target` are untouched.
pub open spec fn is_corrupted(
    current: Seq<u8>,
    target: Seq<u8>,
    complete_bits: Seq<bool>,
    result: Seq<u8>,
) -> bool {
    &&& result.len() == current.len()
    &&& forall|pos: int|
        0 <= pos < shared_positions(current, target) ==> #[trigger] bit_at(result, pos)
            == corrupted_bit(current, target, complete_bits, pos)
    &&& forall|i: int|
        target.len() <= i < current.len() ==> #[trigger] result[i] == current[i]
}

/// The number of bits to change grows with the number of positions.
pub proof fn lemma_differences_monotonic(current: Seq<u8>, target: Seq<u8>, a: nat, b: nat)
    requires
        a <= b,
    ensures
        differences(current, target, a) <= differences(current, target, b),
        differences(current, target, b) <= differences(current, target, a) + (b - a),
    decreases b,
{
    if a < b {
        lemma_differences_monotonic(current, target, a, (b - 1) as nat);
    }
}

/// The positions below `count` at which the binary digits of the bytes differ.
pub open spec fn differing_positions(current: Seq<u8>, target: Seq<u8>, count: nat) -> Set<int> {
    Set::new(
        |pos: int|
            0 <= pos < count && ((current[pos / 8] as nat / pow2((pos % 8) as nat)) % 2 == 1) != ((
            target[pos / 8] as nat / pow2((pos % 8) as nat)) % 2 == 1),
    )
}

/// The number of bits to change is the number of positions at which the bits differ, and each
/// position at which they differ has its own place in that count.
pub proof fn law_differences(current: Seq<u8>, target: Seq<u8>, count: nat)
    ensures
        forall|pos: int| #[trigger]
            differing_positions(current, target, count).contains(pos) <==> 0 <= pos < count && ((
            current[pos / 8] as nat / pow2((pos % 8) as nat)) % 2 == 1) != ((target[pos / 8] as nat
                / pow2((pos % 8) as nat)) % 2 == 1),
        differing_positions(current, target, count).finite(),
        differences(current, target, count) == differing_positions(current, target, count).len(),
        differences(current, target, 0) == 0,
        differences(current, target, count + 1) == differences(current, target, count) + (if ((
        current[count as int / 8] as nat / pow2((count % 8) as nat)) % 2 == 1) != ((target[count
            as int / 8] as nat / pow2((count % 8) as nat)) % 2 == 1) {
            1nat
        } else {
            0nat
        }),
    decreases count,
{
    law_byte_bit(current[count as int / 8], (count % 8) as u8);
    law_byte_bit(target[count as int / 8], (count % 8) as u8);
    let positions = differing_positions(current, target, count);
    if count == 0 {
        assert(positions =~= Set::<int>::empty());
    } else {
        let last: nat = (count - 1) as nat;
        law_differences(current, target, last);
        let before = differing_positions(current, target, last);
        if differs(current, target, last as int) {
            law_byte_bit(current[last as int / 8], (last % 8) as u8);
            law_byte_bit(target[last as int / 8], (last % 8) as u8);
            assert(positions =~= before.insert(last as int));
        } else {
            law_byte_bit(current[last as int / 8], (last % 8) as u8);
            law_byte_bit(target[last as int / 8], (last % 8) as u8);
            assert(positions =~= before);
        }
    }
}

/// The corruption changes the bit at a position, as far as both have bytes there, if the bits
/// differ there and the bit that is popped for the position is set: the one as far below the top of
/// the stack as there are positions below at which the bits differ. It changes nothing else. It
/// needs as many bits as there are positions at which the bits differ.
pub proof fn law_corruption(
    current: Seq<u8>,
    target: Seq<u8>,
    complete_bits: Seq<bool>,
    result: Seq<u8>,
)
    ensures
        shared_positions(current, target) == 8 * (if current.len() <= target.len() {
            current.len()
        } else {
            target.len()
        }),
        can_corrupt(current, target, complete_bits) <==> differing_positions(
            current,
            target,
            8 * (if current.len() <= target.len() {
                current.len()
            } else {
                target.len()
            }),
        ).len() <= complete_bits.len(),
        is_corrupted(current, target, complete_bits, result) ==> {
            &&& result.len() == current.len()
            &&& forall|pos: int|
                #![trigger result[pos / 8], pow2((pos % 8) as nat)]
                0 <= pos < 8 * current.len() && pos < 8 * target.len() ==> {
                    let was = (current[pos / 8] as nat / pow2((pos % 8) as nat)) % 2 == 1;
                    let goal = (target[pos / 8] as nat / pow2((pos % 8) as nat)) % 2 == 1;
                    let below = differing_positions(current, target, pos as nat).len();
                    ((result[pos / 8] as nat / pow2((pos % 8) as nat)) % 2 == 1) == (if was != goal
                        && complete_bits[complete_bits.len() - 1 - below] {
                        goal
                    } else {
                        was
                    })
                }
            &&& forall|i: int|
                target.len() <= i < current.len() ==> #[trigger] result[i] == current[i]
        },
{
    law_differences(current, target, shared_positions(current, target));
    if is_corrupted(current, target, complete_bits, result) {
        assert forall|pos: int|
            #![trigger result[pos / 8], pow2((pos % 8) as nat)]
            0 <= pos < 8 * current.len() && pos < 8 * target.len() implies {
            let was = (current[pos / 8] as nat / pow2((pos % 8) as nat)) % 2 == 1;
            let goal = (target[pos / 8] as nat / pow2((pos % 8) as nat)) % 2 == 1;
            let below = differing_positions(current, target, pos as nat).len();
            ((result[pos / 8] as nat / pow2((pos % 8) as nat)) % 2 == 1) == (if was != goal
                && complete_bits[complete_bits.len() - 1 - below] {
                goal
            } else {
                was
            })
        } by {
            law_byte_bit(current[pos / 8], (pos % 8) as u8);
            law_byte_bit(target[pos / 8], (pos % 8) as u8);
            law_byte_bit(result[pos / 8], (pos % 8) as u8);
            law_differences(current, target, pos as nat);
            assert(bit_at(result, pos) == corrupted_bit(current, target, complete_bits, pos));
        }
    }
}

/// The bits to change and the stack determine what the corruption leaves.
pub proof fn law_corruption_is_determined(
    current: Seq<u8>,
    target: Seq<u8>,
    complete_bits: Seq<bool>,
    a: Seq<u8>,
    b: Seq<u8>,
)
    requires
        is_corrupted(current, target, complete_bits, a),
        is_corrupted(current, target, complete_bits, b),
    ensures
        a == b,
{
    assert forall|i: int| 0 <= i < a.len() implies a[i] == b[i] by {
        if i < target.len() {
            assert forall|j: u8| j < 8 implies #[trigger] byte_bit(a[i], j) == byte_bit(
                b[i],
                j,
            ) by {
                let pos: int = 8 * i + j;
                assert(pos / 8 == i && pos % 8 == j);
                assert(bit_at(a, pos) == corrupted_bit(current, target, complete_bits, pos));
                assert(bit_at(b, pos) == corrupted_bit(current, target, complete_bits, pos));
            }
            lemma_same_bits(a[i], b[i]);
        } else {
            assert(a[i] == current[i] && b[i] == current[i]);
        }
    }
    assert(a =~= b);
}

/// The corruption leaves each bit either as it was or as it was to become.
pub proof fn law_corruption_mixes(
    current: Seq<u8>,
    target: Seq<u8>,
    complete_bits: Seq<bool>,
    result: Seq<u8>,
    pos: int,
)
    requires
        is_corrupted(current, target, complete_bits, result),
        0 <= pos < shared_positions(current, target),
    ensures
        bit_at(result, pos) == bit_at(current, pos) || bit_at(result, pos) == bit_at(target, pos),
        !differs(current, target, pos) ==> bit_at(result, pos) == bit_at(current, pos),
{
}

/// If every popped bit is set, the interrupted operation is completed. If none is, it has no
/// effect.
pub proof fn law_corruption_extremes(
    current: Seq<u8>,
    target: Seq<u8>,
    complete_bits: Seq<bool>,
    result: Seq<u8>,
)
    requires
        current.len() == target.len(),
        can_corrupt(current, target, complete_bits),
        is_corrupted(current, target, complete_bits, result),
    ensures
        (forall|i: int| 0 <= i < complete_bits.len() ==> complete_bits[i]) ==> result == target,
        (forall|i: int| 0 <= i < complete_bits.len() ==> !complete_bits[i]) ==> result == current,
{
    let all: bool = forall|i: int| 0 <= i < complete_bits.len() ==> complete_bits[i];
    let none: bool = forall|i: int| 0 <= i < complete_bits.len() ==> !complete_bits[i];
    assert forall|i: int| 0 <= i < result.len() implies (all ==> result[i] == target[i]) && (none
        ==> result[i] == current[i]) by {
        let goal: Seq<u8> = if all {
            target
        } else {
            current
        };
        if all || none {
            assert forall|j: u8| j < 8 implies #[trigger] byte_bit(result[i], j) == byte_bit(
                goal[i],
                j,
            ) && (none ==> byte_bit(result[i], j) == byte_bit(current[i], j)) by {
                let pos: int = 8 * i + j;
                assert(pos / 8 == i && pos % 8 == j);
                assert(bit_at(result, pos) == corrupted_bit(current, target, complete_bits, pos));
                lemma_differences_monotonic(
                    current,
                    target,
                    (pos + 1) as nat,
                    8 * current.len(),
                );
            }
            lemma_same_bits(result[i], goal[i]);
            if none {
                lemma_same_bits(result[i], current[i]);
            }
        }
    }
    if all {
        assert(result =~= target);
    }
    if none {
        assert(result =~= current);
    }
}

/// Returns the number of bits to change from `current` to `target`.
///
/// This is the number of bits that [`corrupt`] pops.
pub fn changed_bits(current: &[u8], target: &[u8]) -> (result: u128)
    ensures
        result == differences(current@, target@, shared_positions(current@, target@)),
{
    let size: usize = if current.len() <= target.len() {
        current.len()
    } else {
        target.len()
    };
    let mut result: u128 = 0;
    let mut i: usize = 0;
    while i < size
        invariant
            i <= size,
            size <= current@.len(),
            size <= target@.len(),
            result == differences(current@, target@, 8 * i as nat),
            result <= 8 * i,
        decreases size - i,
    {
        let byte: u8 = current[i];
        let goal: u8 = target[i];
        let mut bit: u8 = 0;
        while bit < 8
            invariant
                bit <= 8,
                i < size,
                size <= current@.len(),
                size <= target@.len(),
                byte == current@[i as int],
                goal == target@[i as int],
                result == differences(current@, target@, (8 * i + bit) as nat),
                result <= 8 * i + bit,
            decreases 8 - bit,
        {
            let mask: u8 = 1u8 << bit;
            let ghost pos: int = 8 * i + bit;
            proof {
                assert(pos / 8 == i && pos % 8 == bit);
                lemma_masked_bits(byte, goal, bit);
            }
            if byte & mask != goal & mask {
                result = result + 1;
            }
            bit += 1;
        }
        i += 1;
    }
    result
}

/// Corrupts `current` on its way to `target`.
///
/// The bits that differ are visited from the first byte to the last, and in a byte from the least
/// significant bit to the most significant one. For each of them a bit is popped from
/// `complete_bits`, and the bit is changed if the popped one is set.
pub fn corrupt(complete_bits: &mut BitStack, current: &mut [u8], target: &[u8])
    requires
        old(complete_bits).wf(),
        can_corrupt(old(current)@, target@, old(complete_bits)@),
    ensures
        final(complete_bits).wf(),
        final(complete_bits)@ == old(complete_bits)@.take(
            old(complete_bits)@.len() - differences(
                old(current)@,
                target@,
                shared_positions(old(current)@, target@),
            ),
        ),
        is_corrupted(old(current)@, target@, old(complete_bits)@, final(current)@),
{
    let ghost before = current@;
    let ghost bits = complete_bits@;
    let ghost shared: nat = shared_positions(before, target@);
    let size: usize = if current.len() <= target.len() {
        current.len()
    } else {
        target.len()
    };
    let mut i: usize = 0;
    assert(bits.take(bits.len() as int) =~= bits);
    while i < size
        invariant
            complete_bits.wf(),
            i <= size,
            8 * size == shared,
            size <= before.len(),
            size <= target@.len(),
            current@.len() == before.len(),
            differences(before, target@, shared) <= bits.len(),
            complete_bits@ == bits.take(bits.len() - differences(before, target@, 8 * i as nat)),
            forall|pos: int|
                0 <= pos < 8 * i ==> #[trigger] bit_at(current@, pos) == corrupted_bit(
                    before,
                    target@,
                    bits,
                    pos,
                ),
            forall|k: int| i <= k < before.len() ==> #[trigger] current@[k] == before[k],
        decreases size - i,
    {
        let goal: u8 = target[i];
        let mut byte: u8 = current[i];
        let mut bit: u8 = 0;
        while bit < 8
            invariant
                complete_bits.wf(),
                bit <= 8,
                i < size,
                8 * size == shared,
                size <= before.len(),
                size <= target@.len(),
                goal == target@[i as int],
                differences(before, target@, shared) <= bits.len(),
                complete_bits@ == bits.take(
                    bits.len() - differences(before, target@, (8 * i + bit) as nat),
                ),
                forall|j: u8|
                    j < bit ==> #[trigger] byte_bit(byte, j) == corrupted_bit(
                        before,
                        target@,
                        bits,
                        8 * i + j,
                    ),
                forall|j: u8|
                    bit <= j < 8 ==> #[trigger] byte_bit(byte, j) == byte_bit(
                        before[i as int],
                        j,
                    ),
            decreases 8 - bit,
        {
            let mask: u8 = 1u8 << bit;
            let ghost pos: int = 8 * i + bit;
            proof {
                lemma_differences_monotonic(before, target@, (pos + 1) as nat, shared);
                assert(pos / 8 == i && pos % 8 == bit);
                assert(byte_bit(byte, bit) == bit_at(before, pos));
                assert(byte_bit(goal, bit) == bit_at(target@, pos));
                lemma_masked_bits(byte, goal, bit);
                lemma_flip_bit(byte, bit);
            }
            if byte & mask != goal & mask {
                let popped: Option<bool> = complete_bits.pop();
                if let Some(true) = popped {
                    byte = byte ^ mask;
                }
                assert(complete_bits@ =~= bits.take(
                    bits.len() - differences(before, target@, (pos + 1) as nat),
                ));
            }
            bit += 1;
        }
        let ghost previous = current@;
        current[i] = byte;
        proof {
            assert forall|pos: int| 0 <= pos < 8 * (i + 1) implies #[trigger] bit_at(current@, pos)
                == corrupted_bit(before, target@, bits, pos) by {
                if pos < 8 * i {
                    assert(pos / 8 < i);
                    assert(bit_at(previous, pos) == bit_at(current@, pos));
                } else {
                    assert(pos / 8 == i);
                    let j: u8 = (pos % 8) as u8;
                    assert(byte_bit(byte, j) == corrupted_bit(before, target@, bits, 8 * i + j));
                }
            }
        }
        i += 1;
    }
}

} // verus!
