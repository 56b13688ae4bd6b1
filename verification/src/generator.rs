//! The pseudo-random generator behind the values of entries.

use rand_core::{RngCore, SeedableRng};
use rand_pcg::Pcg32;
use vstd::prelude::*;

verus! {

/// The generator `rand_pcg::Pcg32`, carried as an opaque value.
#[verifier::external_type_specification]
#[verifier::external_body]
pub struct ExPcg32(rand_pcg::Lcg64Xsh32);

/// The generator that `Pcg32::from_seed` makes of the 16 bytes `seed`.
pub uninterp spec fn seeded_generator(seed: Seq<u8>) -> Pcg32;

/// What `fill_bytes` does for `length` bytes with `generator`: the generator that it leaves, and
/// the bytes that it writes.
pub uninterp spec fn generated_bytes(generator: Pcg32, length: nat) -> (Pcg32, Seq<u8>);

/// Calls `<Pcg32 as rand_core::SeedableRng>::from_seed`.
///
/// It is trusted that the generator is a function of the seed. The call takes an array, so the
/// seed must have 16 bytes.
#[verifier::external_body]
pub(crate) fn generator_from_seed(seed: &Vec<u8>) -> (result: Pcg32)
    requires
        seed@.len() == 16,
    ensures
        result == seeded_generator(seed@),
{
    Pcg32::from_seed(seed[..].try_into().unwrap())
}

/// Calls `<Pcg32 as rand_core::RngCore>::fill_bytes`.
///
/// It is trusted that the call overwrites every byte of `bytes` and keeps their number, and that
/// the bytes and the next state of the generator are functions of its state and of that number.
#[verifier::external_body]
pub(crate) fn fill_bytes(generator: &mut Pcg32, bytes: &mut Vec<u8>)
    ensures
        final(bytes)@.len() == old(bytes)@.len(),
        final(bytes)@ == generated_bytes(*old(generator), old(bytes)@.len()).1,
        *final(generator) == generated_bytes(*old(generator), old(bytes)@.len()).0,
{
    generator.fill_bytes(bytes);
}

} // verus!
