//! The scrambling sequence, bit by bit.

use crate::bits::{lemma_uint_bits_len, uint_bits};
use crate::scrambler::{lemma_sequence_binary, scrambled, sequence_bit};
use vstd::prelude::*;

verus! {

/// The sequence starts with the seed, lowest bit first, and each further bit is
/// the sum of the bits four and seven places before it: x^7 + x^4 + 1.
pub proof fn lemma_sequence(seed: u8, i: nat)
    ensures
        sequence_bit(seed, 0) + 2 * sequence_bit(seed, 1) + 4 * sequence_bit(seed, 2) + 8
            * sequence_bit(seed, 3) + 16 * sequence_bit(seed, 4) + 32 * sequence_bit(seed, 5) + 64
            * sequence_bit(seed, 6) == seed % 128,
        sequence_bit(seed, i) <= 1,
        sequence_bit(seed, i + 7) == (sequence_bit(seed, i + 3) + sequence_bit(seed, i)) % 2,
{
    let v = seed as nat;
    assert(uint_bits(v, 7)[0] + 2 * uint_bits(v, 7)[1] + 4 * uint_bits(v, 7)[2] + 8 * uint_bits(v, 7)[3]
        + 16 * uint_bits(v, 7)[4] + 32 * uint_bits(v, 7)[5] + 64 * uint_bits(v, 7)[6] == v % 128) by {
        lemma_uint_bits_len(v, 7);
        reveal_with_fuel(uint_bits, 8);
    }
    lemma_sequence_binary(seed, i);
    lemma_sequence_binary(seed, i + 3);
    let a = sequence_bit(seed, i + 3);
    let b = sequence_bit(seed, i);
    assert(a <= 1 && b <= 1 ==> a ^ b == (a + b) % 2) by (bit_vector);
}

/// Scrambling adds the sequence, bit by bit from its start.
pub proof fn lemma_scrambled_bit(seed: u8, bits: Seq<u8>, i: int)
    requires
        0 <= i < bits.len(),
        bits[i] <= 1,
    ensures
        scrambled(seed, bits).len() == bits.len(),
        scrambled(seed, bits)[i] == (bits[i] + sequence_bit(seed, i as nat)) % 2,
{
    lemma_sequence_binary(seed, i as nat);
    let a = bits[i];
    let b = sequence_bit(seed, i as nat);
    assert(a <= 1 && b <= 1 ==> a ^ b == (a + b) % 2) by (bit_vector);
}

} // verus!
