//! Frame-synchronous data scrambler, x^7 + x^4 + 1 [23.3.9.3, 17.3.5.5].
//!
//! The scrambling sequence's first 7 bits equal the seed's bits LSB-first;
//! thereafter s[i] = s[i-4] ^ s[i-7]. Scrambling and descrambling are the
//! same XOR. Because the S1G SERVICE field's first 7 bits are transmitted as
//! zero [23.3.9.2], the first 7 *scrambled* bits on air are exactly the
//! sequence bits; that is how a receiver recovers the seed.

use crate::bits::{is_binary, lemma_uint_bits_len, lemma_uint_roundtrip, uint_bits, uint_lsb};
use crate::bits::{bits_to_uint_lsb_first, push_uint_lsb_first};
use vstd::arithmetic::power2::*;
use vstd::prelude::*;

pub mod laws;

verus! {

/// Bit `i` of the scrambling sequence that starts from `seed`.
pub open spec fn sequence_bit(seed: u8, i: nat) -> u8
    decreases i,
{
    if i < 7 {
        uint_bits(seed as nat, 7)[i as int]
    } else {
        sequence_bit(seed, (i - 4) as nat) ^ sequence_bit(seed, (i - 7) as nat)
    }
}

/// `bits` XORed with the sequence for `seed`.
pub open spec fn scrambled(seed: u8, bits: Seq<u8>) -> Seq<u8> {
    Seq::new(bits.len(), |i: int| bits[i] ^ sequence_bit(seed, i as nat))
}

/// The algebra of XOR.
pub proof fn lemma_xor(a: u8, b: u8, c: u8)
    ensures
        a ^ b == b ^ a,
        (a ^ b) ^ c == a ^ (b ^ c),
        a ^ a == 0,
        a ^ 0 == a,
        0 ^ a == a,
        a <= 1 && b <= 1 ==> a ^ b <= 1,
{
    assert(a ^ b == b ^ a && (a ^ b) ^ c == a ^ (b ^ c) && a ^ a == 0 && a ^ 0 == a && 0 ^ a == a
        && (a <= 1 && b <= 1 ==> a ^ b <= 1)) by (bit_vector);
}

pub(crate) proof fn lemma_sequence_binary(seed: u8, i: nat)
    ensures
        sequence_bit(seed, i) <= 1,
    decreases i,
{
    if i < 7 {
        lemma_uint_bits_len(seed as nat, 7);
    } else {
        lemma_sequence_binary(seed, (i - 4) as nat);
        lemma_sequence_binary(seed, (i - 7) as nat);
        lemma_xor(sequence_bit(seed, (i - 4) as nat), sequence_bit(seed, (i - 7) as nat), 0);
    }
}

/// Generate `len` bits of the scrambling sequence for `seed` (1..=127; only
/// the low 7 bits are used). A zero seed is forbidden on transmit
/// [17.3.5.5], but some chips send it; it yields the all-zero
/// sequence (no scrambling), which is what a receiver must apply.
pub fn sequence(seed: u8, len: usize) -> (s: Vec<u8>)
    ensures
        s@ == Seq::new(len as nat, |i: int| sequence_bit(seed, i as nat)),
        is_binary(s@),
{
    let mut s: Vec<u8> = Vec::with_capacity(len);
    let mut first: Vec<u8> = Vec::with_capacity(7);
    push_uint_lsb_first(&mut first, seed as u64, 7);
    proof {
        lemma_uint_bits_len(seed as nat, 7);
        assert(first@ =~= uint_bits(seed as nat, 7));
    }
    for i in 0..len
        invariant
            first@ == uint_bits(seed as nat, 7),
            first@.len() == 7,
            s@ == Seq::new(i as nat, |k: int| sequence_bit(seed, k as nat)),
    {
        if i < 7 {
            s.push(first[i]);
        } else {
            let b: u8 = s[i - 4] ^ s[i - 7];
            s.push(b);
        }
        proof {
            assert(s@ =~= Seq::new((i + 1) as nat, |k: int| sequence_bit(seed, k as nat)));
        }
    }
    proof {
        assert forall|i: int| 0 <= i < s@.len() implies #[trigger] s@[i] <= 1 by {
            lemma_sequence_binary(seed, i as nat);
        }
    }
    s
}

/// Scramble/descramble `bits` in place with the sequence for `seed`.
pub fn scramble_in_place(seed: u8, bits: &mut [u8])
    ensures
        final(bits)@ == scrambled(seed, old(bits)@),
{
    let n: usize = bits.len();
    let seq: Vec<u8> = sequence(seed, n);
    let ghost before = bits@;
    for i in 0..n
        invariant
            n == before.len(),
            bits@.len() == n,
            seq@ == Seq::new(n as nat, |k: int| sequence_bit(seed, k as nat)),
            forall|k: int| 0 <= k < i ==> bits@[k] == before[k] ^ sequence_bit(seed, k as nat),
            forall|k: int| i <= k < n ==> bits@[k] == before[k],
    {
        bits[i] = bits[i] ^ seq[i];
    }
    proof {
        assert(bits@ =~= scrambled(seed, before));
    }
}

/// Recover the seed from the first 7 scrambled bits of the SERVICE field
/// (valid because SERVICE B0-B6 are zero before scrambling). A zero result
/// means the transmitter used the (illegal but observed in the wild)
/// all-zero state, i.e. no scrambling.
pub fn recover_seed(first7: &[u8]) -> (seed: u8)
    requires
        first7.len() >= 7,
    ensures
        seed == uint_lsb(first7@.take(7)),
        seed < 128,
{
    let head = &first7[0..7];
    let v: u64 = bits_to_uint_lsb_first(head);
    proof {
        lemma2_to64();
        assert(head@ =~= first7@.take(7));
    }
    v as u8
}

/// Scrambling twice with one seed changes nothing.
pub proof fn lemma_scramble_involution(seed: u8, bits: Seq<u8>)
    ensures
        scrambled(seed, scrambled(seed, bits)) == bits,
{
    assert forall|i: int| 0 <= i < bits.len() implies scrambled(seed, scrambled(seed, bits))[i]
        == bits[i] by {
        let s = sequence_bit(seed, i as nat);
        lemma_xor(bits[i], s, s);
        lemma_xor(s, s, 0);
    }
    assert(scrambled(seed, scrambled(seed, bits)) =~= bits);
}

/// The seed is read back from any scrambled field whose first 7 bits are
/// zero before scrambling.
pub proof fn lemma_seed_recovery(seed: u8, bits: Seq<u8>)
    requires
        seed < 128,
        bits.len() >= 7,
        forall|i: int| 0 <= i < 7 ==> bits[i] == 0,
    ensures
        uint_lsb(scrambled(seed, bits).take(7)) == seed,
{
    lemma_uint_bits_len(seed as nat, 7);
    assert forall|i: int| 0 <= i < 7 implies scrambled(seed, bits)[i] == uint_bits(
        seed as nat,
        7,
    )[i] by {
        lemma_xor(sequence_bit(seed, i as nat), 0, 0);
    }
    assert(scrambled(seed, bits).take(7) =~= uint_bits(seed as nat, 7));
    lemma_uint_roundtrip(seed as nat, 7);
    lemma2_to64();
}

/// The all-zero seed does not scramble.
pub proof fn lemma_zero_seed(bits: Seq<u8>)
    ensures
        scrambled(0, bits) == bits,
{
    assert forall|i: int| 0 <= i < bits.len() implies scrambled(0, bits)[i] == bits[i] by {
        lemma_zero_sequence(i as nat);
        lemma_xor(bits[i], 0, 0);
    }
    assert(scrambled(0, bits) =~= bits);
}

proof fn lemma_zero_sequence(i: nat)
    ensures
        sequence_bit(0, i) == 0,
    decreases i,
{
    if i < 7 {
        reveal_with_fuel(uint_bits, 8);
    } else {
        lemma_zero_sequence((i - 4) as nat);
        lemma_zero_sequence((i - 7) as nat);
        lemma_xor(0, 0, 0);
    }
}

/// The feedback polynomial raised to the `p`-th power, `p` a power of two.
spec fn spaced_feedback(seed: u8, p: nat) -> bool {
    forall|i: nat| #[trigger]
        sequence_bit(seed, i + 7 * p) == sequence_bit(seed, i + 3 * p) ^ sequence_bit(seed, i)
}

proof fn lemma_spaced_feedback_doubles(seed: u8, p: nat)
    requires
        spaced_feedback(seed, p),
    ensures
        spaced_feedback(seed, 2 * p),
{
    assert forall|i: nat| #[trigger]
        sequence_bit(seed, i + 7 * (2 * p)) == sequence_bit(seed, i + 3 * (2 * p)) ^ sequence_bit(
            seed,
            i,
        ) by {
        let a = sequence_bit(seed, i + 6 * p);
        let b = sequence_bit(seed, i + 3 * p);
        let c = sequence_bit(seed, i);
        assert(sequence_bit(seed, (i + 7 * p) + 7 * p) == sequence_bit(seed, (i + 7 * p) + 3 * p)
            ^ sequence_bit(seed, i + 7 * p));
        assert(sequence_bit(seed, (i + 3 * p) + 7 * p) == sequence_bit(seed, (i + 3 * p) + 3 * p)
            ^ sequence_bit(seed, i + 3 * p));
        assert(i + 7 * (2 * p) == (i + 7 * p) + 7 * p);
        assert((i + 7 * p) + 3 * p == (i + 3 * p) + 7 * p);
        assert((i + 3 * p) + 3 * p == i + 6 * p);
        assert((a ^ b) ^ (b ^ c) == a ^ c) by {
            lemma_xor(a, b, b ^ c);
            lemma_xor(b, b, c);
            lemma_xor(c, b, 0);
        }
    }
}

/// The sequence repeats every 127 bits.
pub proof fn lemma_period(seed: u8, i: nat)
    ensures
        sequence_bit(seed, i + 127) == sequence_bit(seed, i),
{
    assert(spaced_feedback(seed, 1)) by {
        assert forall|k: nat| #[trigger]
            sequence_bit(seed, k + 7 * 1) == sequence_bit(seed, k + 3 * 1) ^ sequence_bit(seed, k) by {
        }
    }
    lemma_spaced_feedback_doubles(seed, 1);
    lemma_spaced_feedback_doubles(seed, 2);
    lemma_spaced_feedback_doubles(seed, 4);
    lemma_spaced_feedback_doubles(seed, 8);
    let s15 = sequence_bit(seed, i + 15);
    let s7 = sequence_bit(seed, i + 7);
    let s3 = sequence_bit(seed, i + 3);
    let s0 = sequence_bit(seed, i);
    assert(sequence_bit(seed, (i + 15) + 7 * 16) == sequence_bit(seed, (i + 15) + 3 * 16) ^ s15);
    assert(sequence_bit(seed, (i + 7) + 7 * 8) == sequence_bit(seed, (i + 7) + 3 * 8) ^ s7);
    assert(sequence_bit(seed, (i + 3) + 7 * 4) == sequence_bit(seed, (i + 3) + 3 * 4) ^ s3);
    assert(sequence_bit(seed, i + 7 * 1) == sequence_bit(seed, i + 3 * 1) ^ s0);
    assert(((s15 ^ s3) ^ (s3 ^ s0)) ^ s15 == s0) by {
        lemma_xor(s15, s3, s3 ^ s0);
        lemma_xor(s3, s3, s0);
        lemma_xor(s0, s3, 0);
        lemma_xor(s15, s0, s15);
        lemma_xor(s0, s15, s15);
        lemma_xor(s15, s15, 0);
    }
}

/// How many of the `len` sequence bits from bit `from` on are ones.
pub open spec fn ones(seed: u8, from: nat, len: nat) -> nat
    decreases len,
{
    if len == 0 {
        0
    } else {
        ones(seed, from, (len - 1) as nat) + sequence_bit(seed, (from + len - 1) as nat) as nat
    }
}

/// Bit `i` of a word.
spec fn bit_of(w: u128, i: u128) -> u128 {
    (w >> i) & 1
}

/// `w` holds the first `n` bits of the sequence, and nothing else.
spec fn holds(seed: u8, w: u128, n: u128) -> bool {
    forall|i: u128|
        i < 128 ==> #[trigger] bit_of(w, i) == if i < n {
            sequence_bit(seed, i as nat)
        } else {
            0
        }
}

/// `w` with `4 * p` more bits behind its first `n`, by the feedback at spacing
/// `p`.
spec fn extended(w: u128, n: u128, p: u128) -> u128 {
    w | ((((w >> ((n - 7 * p) as u128)) ^ (w >> ((n - 4 * p) as u128))) & ((1u128 << ((4
        * p) as u128)) - 1) as u128) << n)
}

/// How many of the low `n` bits of `w` are ones.
spec fn ones_in(w: u128, n: u8) -> u8
    decreases n,
{
    if n == 0 {
        0
    } else {
        (ones_in(w, (n - 1) as u8) + (((w >> (n - 1)) & 1) as u8)) as u8
    }
}

/// Seven nonzero bits, extended to 127 by the feedback, have 64 ones.
proof fn lemma_extended_ones(
    x: u128,
    a: u128,
    b: u128,
    c: u128,
    d: u128,
    e: u128,
    f: u128,
    g: u128,
    h: u128,
)
    by (bit_vector)
    requires
        0 < x < 128,
        a == extended(x, 7, 1),
        b == extended(a, 11, 1),
        c == extended(b, 15, 2),
        d == extended(c, 23, 2),
        e == extended(d, 31, 4),
        f == extended(e, 47, 4),
        g == extended(f, 63, 8),
        h == extended(g, 95, 8),
    ensures
        ones_in(h, 127) == 64,
{
}

/// The bits of a shifted, masked or combined word.
#[verifier::rlimit(80)]
proof fn lemma_bits_of_words(a: u128, b: u128, k: u128, i: u128)
    by (bit_vector)
    requires
        i < 128,
        k < 128,
    ensures
        bit_of(a | b, i) == bit_of(a, i) | bit_of(b, i),
        bit_of(a ^ b, i) == bit_of(a, i) ^ bit_of(b, i),
        bit_of(a << k, i) == if i < k {
            0
        } else {
            bit_of(a, (i - k) as u128)
        },
        bit_of(a >> k, i) == if i + k < 128 {
            bit_of(a, (i + k) as u128)
        } else {
            0
        },
        bit_of(a & ((1u128 << k) - 1) as u128, i) == if i < k {
            bit_of(a, i)
        } else {
            0
        },
{
}

proof fn lemma_extended(seed: u8, w: u128, n: u128, p: u128)
    requires
        holds(seed, w, n),
        spaced_feedback(seed, p as nat),
        1 <= p <= 8,
        7 * p <= n,
        n + 4 * p <= 127,
    ensures
        holds(seed, extended(w, n, p), (n + 4 * p) as u128),
{
    let far = (n - 7 * p) as u128;
    let near = (n - 4 * p) as u128;
    let k = (4 * p) as u128;
    let sum = (w >> far) ^ (w >> near);
    let low = sum & ((1u128 << k) - 1) as u128;
    let e = extended(w, n, p);
    assert(e == w | (low << n));
    assert forall|i: u128| i < 128 implies #[trigger] bit_of(e, i) == if i < n + 4 * p {
        sequence_bit(seed, i as nat)
    } else {
        0
    } by {
        lemma_bits_of_words(w, low << n, 0, i);
        lemma_bits_of_words(low, 0, n, i);
        let old = bit_of(w, i);
        if i < n {
            assert(old | 0 == old) by (bit_vector);
        } else {
            let j = (i - n) as u128;
            lemma_bits_of_words(sum, 0, k, j);
            assert(old == 0);
            if j < k {
                lemma_bits_of_words(w >> far, w >> near, 0, j);
                lemma_bits_of_words(w, 0, far, j);
                lemma_bits_of_words(w, 0, near, j);
                let first = (j + far) as u128;
                let second = (j + near) as u128;
                assert(bit_of(sum, j) == bit_of(w, first) ^ bit_of(w, second));
                let f = first as nat;
                assert(sequence_bit(seed, f + 7 * (p as nat)) == sequence_bit(
                    seed,
                    f + 3 * (p as nat),
                ) ^ sequence_bit(seed, f));
                assert(f + 7 * (p as nat) == i as nat);
                assert(f + 3 * (p as nat) == second as nat);
                let s = sequence_bit(seed, f);
                let t = sequence_bit(seed, second as nat);
                assert((s as u128) ^ (t as u128) == (t ^ s) as u128) by (bit_vector);
                assert(0 | ((t ^ s) as u128) == (t ^ s) as u128) by (bit_vector);
            } else {
                assert(0u128 | 0 == 0) by (bit_vector);
            }
        }
    }
}

proof fn lemma_word_bits(v: u128, n: nat, i: u128)
    requires
        i < n <= 128,
    ensures
        bit_of(v, i) == uint_bits(v as nat, n)[i as int],
    decreases n,
{
    if i == 0 {
        assert(bit_of(v, 0) == v % 2) by (bit_vector);
    } else {
        let half = v / 2;
        let j = (i - 1) as u128;
        lemma_word_bits(half, (n - 1) as nat, j);
        lemma_uint_bits_len(half as nat, (n - 1) as nat);
        assert((v as nat) / 2 == half as nat);
        assert(bit_of(v, i) == bit_of((v / 2) as u128, (i - 1) as u128)) by (bit_vector)
            requires
                0 < i < 128,
        ;
        assert(uint_bits(v as nat, n)[i as int] == uint_bits(half as nat, (n - 1) as nat)[j as int]);
    }
}

proof fn lemma_seed_bits(seed: u8)
    ensures
        holds(seed, (seed % 128) as u128, 7),
{
    let x = (seed % 128) as u128;
    let v = seed as u128;
    assert forall|i: u128| i < 128 implies #[trigger] bit_of(x, i) == if i < 7 {
        sequence_bit(seed, i as nat)
    } else {
        0
    } by {
        assert(bit_of((v % 128) as u128, i) == if i < 7 {
            bit_of(v, i)
        } else {
            0
        }) by (bit_vector)
            requires
                i < 128,
        ;
        if i < 7 {
            lemma_word_bits(v, 7, i);
        }
    }
}

proof fn lemma_ones_in(seed: u8, w: u128, n: u8)
    requires
        n <= 127,
        holds(seed, w, 127),
    ensures
        ones_in(w, n) == ones(seed, 0, n as nat),
        ones(seed, 0, n as nat) <= n,
    decreases n,
{
    if n > 0 {
        lemma_ones_in(seed, w, (n - 1) as u8);
        lemma_sequence_binary(seed, (n - 1) as nat);
        let i = (n - 1) as u128;
        assert(bit_of(w, i) == sequence_bit(seed, (n - 1) as nat));
        let k = (n - 1) as u8;
        assert((w >> k) & 1 == (w >> (k as u128)) & 1) by (bit_vector)
            requires
                k < 128,
        ;
    }
}

proof fn lemma_ones_shift(seed: u8, from: nat, len: nat)
    ensures
        ones(seed, from, len + 1) == sequence_bit(seed, from) as nat + ones(seed, from + 1, len),
    decreases len,
{
    if len > 0 {
        lemma_ones_shift(seed, from, (len - 1) as nat);
        assert(from + 1 + len - 1 == from + (len + 1) - 1);
    } else {
        reveal_with_fuel(ones, 2);
    }
}

/// The sequence for any seed with a nonzero low part is balanced: each window
/// of 127 bits has 64 ones.
pub proof fn lemma_balanced(seed: u8, from: nat)
    requires
        seed % 128 != 0,
    ensures
        ones(seed, from, 127) == 64,
    decreases from,
{
    if from > 0 {
        let before = (from - 1) as nat;
        lemma_balanced(seed, before);
        lemma_ones_shift(seed, before, 126);
        lemma_period(seed, before);
        assert(ones(seed, from, 127) == ones(seed, from, 126) + sequence_bit(
            seed,
            (from + 127 - 1) as nat,
        ) as nat);
        assert((from + 127 - 1) as nat == before + 127);
    } else {
        assert(spaced_feedback(seed, 1)) by {
            assert forall|k: nat| #[trigger]
                sequence_bit(seed, k + 7 * 1) == sequence_bit(seed, k + 3 * 1) ^ sequence_bit(
                    seed,
                    k,
                ) by {
            }
        }
        lemma_spaced_feedback_doubles(seed, 1);
        lemma_spaced_feedback_doubles(seed, 2);
        lemma_spaced_feedback_doubles(seed, 4);
        let x = (seed % 128) as u128;
        lemma_seed_bits(seed);
        lemma_extended(seed, x, 7, 1);
        let a = extended(x, 7, 1);
        lemma_extended(seed, a, 11, 1);
        let b = extended(a, 11, 1);
        lemma_extended(seed, b, 15, 2);
        let c = extended(b, 15, 2);
        lemma_extended(seed, c, 23, 2);
        let d = extended(c, 23, 2);
        lemma_extended(seed, d, 31, 4);
        let e = extended(d, 31, 4);
        lemma_extended(seed, e, 47, 4);
        let f = extended(e, 47, 4);
        lemma_extended(seed, f, 63, 8);
        let g = extended(f, 63, 8);
        lemma_extended(seed, g, 95, 8);
        let h = extended(g, 95, 8);
        lemma_extended_ones(x, a, b, c, d, e, f, g, h);
        lemma_ones_in(seed, h, 127);
    }
}

/// Only the low 7 bits of a seed matter.
pub proof fn lemma_low_bits(seed: u8, i: nat)
    ensures
        sequence_bit(seed, i) == sequence_bit((seed % 128) as u8, i),
    decreases i,
{
    if i < 7 {
        lemma_seed_bits(seed);
        lemma_seed_bits((seed % 128) as u8);
        let x = (seed % 128) as u128;
        assert(bit_of(x, i as u128) == sequence_bit(seed, i));
        assert(bit_of(x, i as u128) == sequence_bit((seed % 128) as u8, i));
    } else {
        lemma_low_bits(seed, (i - 4) as nat);
        lemma_low_bits(seed, (i - 7) as nat);
    }
}

} // verus!
