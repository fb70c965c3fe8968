//! Constellation mapping [23.3.9.9.1, 21.3.10.9.1, 17.3.5.8; 1024-QAM:
//! 27.3.12.9].
//!
//! Within each group of N_BPSCS interleaved bits, the first half selects the
//! I axis and the second half the Q axis; the earliest bit of each half is
//! the most significant of the axis' Gray index [17.3.5.8]. Axis level for
//! Gray index n is 2n - (M-1); axis bit pattern is gray(n) = n ^ (n >> 1).
//! A point is the pair of its odd integer axis levels; dividing by the square
//! root of [`Modulation::norm`] (K_MOD, Eq 17-20) gives unit average power.

use crate::bits::is_binary;
use crate::params::Modulation;
use vstd::arithmetic::power2::*;
use vstd::prelude::*;

verus! {

/// The axis bit pattern of Gray index `n` on `m` bits, earliest bit first.
pub open spec fn gray_bits(n: nat, m: nat) -> Seq<u8>
    decreases m,
{
    if m == 0 {
        Seq::empty()
    } else {
        gray_bits(n / 2, (m - 1) as nat).push(((n + n / 2) % 2) as u8)
    }
}

/// The Gray index of an axis bit pattern: each binary digit is the XOR of the
/// pattern bit and the digit before it.
pub open spec fn gray_index(bits: Seq<u8>) -> nat
    decreases bits.len(),
{
    if bits.len() == 0 {
        0
    } else {
        let prev = gray_index(bits.drop_last());
        2 * prev + (prev + bits.last() as nat) % 2
    }
}

/// The amplitude of an axis bit pattern: the Gray index mapped to the odd
/// integers around zero.
pub open spec fn level(bits: Seq<u8>) -> int {
    2 * gray_index(bits) - (pow2(bits.len()) - 1)
}

/// The integer that a bit pattern spells, earliest bit most significant.
pub open spec fn msb_first(bits: Seq<u8>) -> nat
    decreases bits.len(),
{
    if bits.len() == 0 {
        0
    } else {
        2 * msb_first(bits.drop_last()) + (bits.last() % 2) as nat
    }
}

/// Gray index to axis bit pattern (MSB = earliest bit).
pub fn gray(n: u32) -> (g: u32)
    ensures
        g == n ^ (n >> 1),
{
    n ^ (n >> 1)
}

/// [`gray`] computes the pattern of [`gray_bits`].
pub proof fn lemma_gray_pattern(n: u32, m: nat)
    requires
        n < pow2(m),
    ensures
        msb_first(gray_bits(n as nat, m)) == n ^ (n >> 1),
    decreases m,
{
    if m == 0 {
        lemma2_to64();
        assert(0u32 ^ (0u32 >> 1) == 0) by (bit_vector);
    } else {
        let h = n / 2;
        lemma_pow2_unfold(m);
        lemma_gray_pattern(h, (m - 1) as nat);
        let bits = gray_bits(n as nat, m);
        assert(bits.drop_last() =~= gray_bits((n / 2) as nat, (m - 1) as nat));
        assert(h == n / 2 ==> n ^ (n >> 1) == 2 * (h ^ (h >> 1)) + (n % 2 + h % 2) % 2)
            by (bit_vector);
        assert((n + n / 2) % 2 == (n % 2 + h % 2) % 2);
    }
}

proof fn lemma_gray_bits_len(n: nat, m: nat)
    ensures
        gray_bits(n, m).len() == m,
        is_binary(gray_bits(n, m)),
    decreases m,
{
    if m > 0 {
        lemma_gray_bits_len(n / 2, (m - 1) as nat);
    }
}

/// Every pattern has its index: the pattern of a pattern's index is the
/// pattern.
pub proof fn lemma_gray_of_index(bits: Seq<u8>)
    requires
        is_binary(bits),
    ensures
        gray_bits(gray_index(bits), bits.len()) == bits,
        gray_index(bits) < pow2(bits.len()),
    decreases bits.len(),
{
    if bits.len() == 0 {
        lemma2_to64();
    } else {
        let rest = bits.drop_last();
        assert forall|i: int| 0 <= i < rest.len() implies #[trigger] rest[i] <= 1 by {
            assert(rest[i] == bits[i]);
        }
        lemma_gray_of_index(rest);
        lemma_pow2_unfold(bits.len());
        let prev = gray_index(rest);
        let n = gray_index(bits);
        assert(bits.last() <= 1);
        assert(n / 2 == prev);
        assert(gray_bits(n, bits.len()) =~= bits);
    }
}

/// Every index has its pattern: the index of an index's pattern is the index.
pub proof fn lemma_index_of_gray(n: nat, m: nat)
    requires
        n < pow2(m),
    ensures
        gray_index(gray_bits(n, m)) == n,
    decreases m,
{
    if m == 0 {
        lemma2_to64();
    } else {
        lemma_pow2_unfold(m);
        lemma_index_of_gray(n / 2, (m - 1) as nat);
        lemma_gray_bits_len(n, m);
        let bits = gray_bits(n, m);
        assert(bits.drop_last() =~= gray_bits(n / 2, (m - 1) as nat));
    }
}

/// Neighbouring levels differ in exactly one bit: in some position `i`, and in
/// no other.
pub proof fn lemma_gray_neighbours(n: nat, m: nat) -> (i: int)
    requires
        n + 1 < pow2(m),
    ensures
        0 <= i < m,
        gray_bits(n + 1, m)[i] != gray_bits(n, m)[i],
        forall|k: int|
            0 <= k < m && k != i ==> gray_bits(n + 1, m)[k] == #[trigger] gray_bits(n, m)[k],
    decreases m,
{
    if m == 0 {
        lemma2_to64();
        assert(false);
        0
    } else {
        lemma_pow2_unfold(m);
        lemma_gray_bits_len(n, m);
        lemma_gray_bits_len(n + 1, m);
        lemma_gray_bits_len(n / 2, (m - 1) as nat);
        lemma_gray_bits_len((n + 1) / 2, (m - 1) as nat);
        let a = gray_bits(n, m);
        let b = gray_bits(n + 1, m);
        assert(a.drop_last() =~= gray_bits(n / 2, (m - 1) as nat));
        assert(b.drop_last() =~= gray_bits((n + 1) / 2, (m - 1) as nat));
        if n % 2 == 0 {
            assert((n + 1) / 2 == n / 2);
            assert forall|k: int| 0 <= k < m && k != m - 1 implies b[k] == #[trigger] a[k] by {
                assert(a[k] == a.drop_last()[k]);
                assert(b[k] == b.drop_last()[k]);
            }
            m - 1
        } else {
            assert((n + 1) / 2 == n / 2 + 1);
            let i = lemma_gray_neighbours(n / 2, (m - 1) as nat);
            assert(b.drop_last()[i] == b[i] && a.drop_last()[i] == a[i]);
            assert forall|k: int| 0 <= k < m && k != i implies b[k] == #[trigger] a[k] by {
                if k < m - 1 {
                    assert(a[k] == a.drop_last()[k]);
                    assert(b[k] == b.drop_last()[k]);
                }
            }
            i
        }
    }
}

/// Axis bits (earliest first) to amplitude level (odd integer).
pub fn axis_level(bits: &[u8]) -> (l: i32)
    requires
        bits@.len() <= 30,
    ensures
        l == level(bits@),
{
    let mut n: i32 = 0;
    let mut top: i32 = 1;
    proof {
        lemma2_to64();
    }
    for i in 0..bits.len()
        invariant
            bits@.len() <= 30,
            n == gray_index(bits@.take(i as int)),
            top == pow2(i as nat),
            0 <= n < top <= 0x4000_0000,
    {
        proof {
            assert(bits@.take(i + 1).drop_last() =~= bits@.take(i as int));
            lemma_pow2_unfold((i + 1) as nat);
            if i + 1 < 30 {
                lemma_pow2_strictly_increases((i + 1) as nat, 30);
            }
            lemma2_to64();
        }
        let b: i32 = (bits[i] % 2) as i32;
        n = 2 * n + (n % 2 + b) % 2;
        top = 2 * top;
    }
    proof {
        assert(bits@.take(bits@.len() as int) =~= bits@);
    }
    2 * n - (top - 1)
}

impl Modulation {
    /// The mean of I^2 + Q^2 over the constellation: 1 / K_MOD^2.
    pub open spec fn spec_norm(self) -> u32 {
        match self {
            Modulation::Bpsk => 1,
            Modulation::Qpsk => 2,
            Modulation::Qam16 => 10,
            Modulation::Qam64 => 42,
            Modulation::Qam256 => 170,
            Modulation::Qam1024 => 682,
        }
    }

    /// The inverse square of K_MOD [Eq 17-20; 21.3.10.9.1; 27.3.12.9].
    pub fn norm(self) -> (n: u32)
        ensures
            n == self.spec_norm(),
    {
        match self {
            Modulation::Bpsk => 1,
            Modulation::Qpsk => 2,
            Modulation::Qam16 => 10,
            Modulation::Qam64 => 42,
            Modulation::Qam256 => 170,
            Modulation::Qam1024 => 682,
        }
    }
}

/// The point of one group of bits: all of them on the I axis for BPSK,
/// otherwise the first half on I and the second half on Q.
pub open spec fn point(group: Seq<u8>) -> (int, int) {
    if group.len() == 1 {
        (level(group), 0)
    } else {
        let half = group.len() as int / 2;
        (level(group.take(half)), level(group.skip(half)))
    }
}

/// Map a symbol's interleaved bits (`52 * m.n_bpscs()` of them for a Data
/// symbol) to points in data-subcarrier order, as pairs of axis levels.
pub fn map(bits: &[u8], m: Modulation) -> (points: Vec<(i32, i32)>)
    requires
        bits@.len() % m.spec_n_bpscs() as nat == 0,
    ensures
        points@.len() == bits@.len() / m.spec_n_bpscs() as nat,
        forall|k: int|
            0 <= k < points@.len() ==> (((#[trigger] points@[k]).0 as int, points@[k].1 as int)
                == point(
                bits@.subrange(k * m.spec_n_bpscs(), (k + 1) * m.spec_n_bpscs()),
            )),
{
    let nb: usize = m.n_bpscs();
    let count: usize = bits.len() / nb;
    let mut points: Vec<(i32, i32)> = Vec::with_capacity(count);
    for k in 0..count
        invariant
            nb == m.spec_n_bpscs(),
            1 <= nb <= 10,
            count == bits@.len() / nb as nat,
            bits@.len() <= usize::MAX,
            points@.len() == k,
            forall|j: int|
                0 <= j < k ==> (((#[trigger] points@[j]).0 as int, points@[j].1 as int) == point(
                    bits@.subrange(j * nb, (j + 1) * nb),
                )),
    {
        proof {
            assert(0 <= k * nb && (k + 1) * nb <= bits@.len() && k * nb + nb == (k + 1) * nb)
                by (nonlinear_arith)
                requires
                    0 <= k,
                    k + 1 <= count,
                    count == bits@.len() as int / nb as int,
                    nb > 0,
            ;
        }
        let start: usize = k * nb;
        let ghost group = bits@.subrange(start as int, start + nb);
        if nb == 1 {
            let g = &bits[start..start + 1];
            proof {
                assert(g@ =~= group);
            }
            points.push((axis_level(g), 0));
        } else {
            let half: usize = nb / 2;
            let gi = &bits[start..start + half];
            let gq = &bits[start + half..start + nb];
            proof {
                assert(gi@ =~= group.take(half as int));
                assert(gq@ =~= group.skip(half as int));
            }
            points.push((axis_level(gi), axis_level(gq)));
        }
    }
    points
}

/// Sum of the squared levels of the Gray indices below `k`, of `m` in all.
pub open spec fn energy(m: int, k: int) -> int
    decreases k,
{
    if k <= 0 {
        0
    } else {
        let l = 2 * (k - 1) - (m - 1);
        energy(m, k - 1) + l * l
    }
}

proof fn lemma_energy(m: int, k: int)
    requires
        0 <= k,
    ensures
        3 * energy(m, k) == 2 * (k * (k - 1) * (2 * k - 1)) - 6 * ((m - 1) * (k * (k - 1))) + 3 * (k
            * ((m - 1) * (m - 1))),
    decreases k,
{
    if k > 0 {
        lemma_energy(m, k - 1);
        let c = m - 1;
        let l = 2 * (k - 1) - c;
        let j = k - 1;
        assert(2 * (k * (k - 1) * (2 * k - 1)) - 6 * (c * (k * (k - 1))) + 3 * (k * (c * c)) == 2 * (
        j * (j - 1) * (2 * j - 1)) - 6 * (c * (j * (j - 1))) + 3 * (j * (c * c)) + 3 * (l * l))
            by (nonlinear_arith)
            requires
                j == k - 1,
                l == 2 * j - c,
        ;
    } else {
        assert(2 * (k * (k - 1) * (2 * k - 1)) - 6 * ((m - 1) * (k * (k - 1))) + 3 * (k * ((m - 1)
            * (m - 1))) == 0) by (nonlinear_arith)
            requires
                k == 0,
        ;
    }
}

/// Each modulation's average energy is its norm: summed over all levels of an
/// axis (both axes but for BPSK), the squares make `norm` times the number of
/// levels, so that points scaled by K_MOD have unit average power.
#[verifier::nonlinear]
pub proof fn lemma_unit_average_power(m: Modulation)
    ensures
        m == Modulation::Bpsk ==> energy(2, 2) == 2 * m.spec_norm(),
        m == Modulation::Qpsk ==> 2 * energy(2, 2) == 2 * m.spec_norm(),
        m == Modulation::Qam16 ==> 2 * energy(4, 4) == 4 * m.spec_norm(),
        m == Modulation::Qam64 ==> 2 * energy(8, 8) == 8 * m.spec_norm(),
        m == Modulation::Qam256 ==> 2 * energy(16, 16) == 16 * m.spec_norm(),
        m == Modulation::Qam1024 ==> 2 * energy(32, 32) == 32 * m.spec_norm(),
{
    lemma_energy(2, 2);
    lemma_energy(4, 4);
    lemma_energy(8, 8);
    lemma_energy(16, 16);
    lemma_energy(32, 32);
}

/// The axis levels are reflected: one bit gives -1 for 0 and +1 for 1; an earlier
/// bit of 0 moves the level of the others down by the number of their patterns,
/// and an earlier bit of 1 gives the opposite of that.
pub proof fn lemma_level_reflected(rest: Seq<u8>)
    requires
        is_binary(rest),
        rest.len() >= 1,
    ensures
        level(seq![0u8]) == -1,
        level(seq![1u8]) == 1,
        level(seq![0u8] + rest) == level(rest) - pow2(rest.len()),
        level(seq![1u8] + rest) == pow2(rest.len()) - level(rest),
{
    lemma2_to64();
    reveal_with_fuel(gray_index, 2);
    assert(seq![0u8].drop_last().len() == 0 && seq![1u8].drop_last().len() == 0);
    lemma_index_reflected(rest);
    lemma_pow2_unfold((rest.len() + 1) as nat);
}

proof fn lemma_index_reflected(rest: Seq<u8>)
    requires
        is_binary(rest),
    ensures
        gray_index(seq![0u8] + rest) == gray_index(rest),
        gray_index(seq![1u8] + rest) + gray_index(rest) == 2 * pow2(rest.len()) - 1,
    decreases rest.len(),
{
    let a = seq![0u8] + rest;
    let b = seq![1u8] + rest;
    if rest.len() == 0 {
        lemma2_to64();
        reveal_with_fuel(gray_index, 2);
        assert(a.drop_last().len() == 0 && b.drop_last().len() == 0);
        assert(a.last() == 0 && b.last() == 1);
    } else {
        let r = rest.drop_last();
        assert forall|i: int| 0 <= i < r.len() implies #[trigger] r[i] <= 1 by {
            assert(r[i] == rest[i]);
        }
        lemma_index_reflected(r);
        lemma_pow2_unfold(rest.len());
        assert(a.drop_last() =~= seq![0u8] + r);
        assert(b.drop_last() =~= seq![1u8] + r);
        assert(a.last() == rest.last() && b.last() == rest.last() && rest.last() <= 1);
    }
}

/// BPSK points lie on the I axis; of the bits of any other point the first half
/// gives I and the second half Q.
pub proof fn lemma_point_axes(i_bits: Seq<u8>, q_bits: Seq<u8>, b: u8)
    requires
        i_bits.len() == q_bits.len(),
        i_bits.len() >= 1,
        b <= 1,
    ensures
        point(i_bits + q_bits) == (level(i_bits), level(q_bits)),
        point(seq![b]) == (2 * b - 1, 0int),
{
    let g = i_bits + q_bits;
    assert(g.take(i_bits.len() as int) =~= i_bits);
    assert(g.skip(i_bits.len() as int) =~= q_bits);
    lemma2_to64();
    reveal_with_fuel(gray_index, 2);
    assert(seq![b].drop_last().len() == 0 && seq![b].last() == b);
}

} // verus!
