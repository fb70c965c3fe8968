//! S1G preamble fields for 2 MHz, 1 STS [23.3.8.2.2, 23.3.8.2.3]: the
//! training sequences, and how their time-domain periods make up the fields.
//! STF = 20 MHz L-STF pattern (Eq 19-8) scaled 1/sqrt(12); LTF = VHT-LTF
//! sequence (Eq 21-36) scaled 1/sqrt(56).

use crate::ofdm::append_from;
use vstd::prelude::*;

verus! {

/// Nonzero STF tones: (subcarrier, sign of (1+j)/sqrt(2)) [Eq 19-8].
pub const STF_TONES: [(i32, i8); 12] = [
    (-24, 1),
    (-20, -1),
    (-16, 1),
    (-12, -1),
    (-8, -1),
    (-4, 1),
    (4, -1),
    (8, -1),
    (12, 1),
    (16, 1),
    (20, 1),
    (24, 1),
];

/// LTF sequence values for k = -28..+28 (57 entries incl. DC=0) [Eq 21-36].
pub const LTF_SEQ: [i8; 57] = [
    1, 1, 1, 1, -1, -1, 1, 1, -1, 1, -1, 1, 1, 1, 1, 1, 1, -1, -1, 1, 1, -1, 1, -1, 1, 1, 1, 1,
    0,
    1, -1, -1, 1, 1, -1, 1, -1, 1, -1, -1, -1, -1, -1, 1, 1, -1, -1, 1, -1, 1, -1, 1, 1, 1, 1, -1, -1,
];

/// The sign on array index `a` of the STF, 0 where the tone is empty.
pub open spec fn stf_sign(a: int) -> int {
    if (a - 32) % 4 != 0 || a - 32 == 0 || a - 32 < -24 || a - 32 > 24 {
        0
    } else if a < 32 {
        STF_TONES[(a - 32 + 24) / 4].1 as int
    } else {
        STF_TONES[(a - 32 + 20) / 4].1 as int
    }
}

/// STF frequency-domain sequence in logical bin order, as the signs of
/// (1+j)/sqrt(2).
pub fn stf_freq() -> (sym: [i8; 64])
    ensures
        forall|a: int| 0 <= a < 64 ==> #[trigger] sym@[a] == stf_sign(a),
        forall|i: int| 0 <= i < 12 ==> sym@[(#[trigger] STF_TONES[i]).0 + 32] == STF_TONES[i].1,
{
    let mut sym: [i8; 64] = [0i8; 64];
    for i in 0..12usize
        invariant
            forall|a: int|
                0 <= a < 64 ==> #[trigger] sym@[a] == if i == 0 || a > STF_TONES[i - 1].0 + 32 {
                    0
                } else {
                    stf_sign(a)
                },
    {
        let (k, s) = STF_TONES[i];
        sym[(k + 32) as usize] = s;
    }
    sym
}

/// LTF frequency-domain sequence in logical bin order.
pub fn ltf_freq() -> (sym: [i8; 64])
    ensures
        forall|a: int|
            0 <= a < 64 ==> #[trigger] sym@[a] == if 4 <= a <= 60 {
                LTF_SEQ[a - 4] as int
            } else {
                0
            },
{
    let mut sym: [i8; 64] = [0i8; 64];
    for i in 0..57usize
        invariant
            forall|a: int|
                0 <= a < 64 ==> #[trigger] sym@[a] == if 4 <= a < 4 + i {
                    LTF_SEQ[a - 4] as int
                } else {
                    0
                },
    {
        sym[i + 4] = LTF_SEQ[i];
    }
    sym
}

/// `n` periods of 16 samples.
fn periods<T: Copy>(p: &[T; 16], n: usize) -> (out: Vec<T>)
    requires
        n <= 10,
    ensures
        out@ == Seq::new((16 * n) as nat, |i: int| p@[i % 16]),
{
    let mut out: Vec<T> = Vec::with_capacity(16 * n);
    for i in 0..16 * n
        invariant
            n <= 10,
            out@ == Seq::new(i as nat, |k: int| p@[k % 16]),
    {
        out.push(p[i % 16]);
        proof {
            assert(out@ =~= Seq::new((i + 1) as nat, |k: int| p@[k % 16]));
        }
    }
    out
}

/// One 16-sample period of the time-domain STF, cut from the 64 samples of its
/// inverse DFT (the waveform is periodic because every occupied tone index is
/// a multiple of 4).
pub fn stf_period<T: Copy>(x: &[T; 64]) -> (p: [T; 16])
    ensures
        p@ == x@.take(16),
{
    let mut p: [T; 16] = [x[0]; 16];
    for i in 0..16usize
        invariant
            forall|k: int| 0 <= k < i ==> #[trigger] p@[k] == x@[k],
    {
        p[i] = x[i];
    }
    proof {
        assert(p@ =~= x@.take(16));
    }
    p
}

/// Full STF field: 160 samples = 10 periods [T_STF = 80 us].
pub fn stf_time<T: Copy>(period: &[T; 16]) -> (out: Vec<T>)
    ensures
        out@ == Seq::new(160, |i: int| period@[i % 16]),
{
    periods(period, 10)
}

/// D-STF of the S1G_LONG beam-changeable portion: the same STF sequence
/// over one 40 us symbol = 5 periods, 80 samples [23.3.8.2.3.3.3].
pub fn dstf_time<T: Copy>(period: &[T; 16]) -> (out: Vec<T>)
    ensures
        out@ == Seq::new(80, |i: int| period@[i % 16]),
{
    periods(period, 5)
}

/// Full LTF1 field: [GI2 = last 32 samples][LTS 64][LTS 64] = 160 samples.
pub fn ltf1_time<T: Copy>(x: &[T; 64]) -> (out: Vec<T>)
    ensures
        out@ == x@.skip(32) + x@ + x@,
        out@.len() == 160,
{
    let mut out: Vec<T> = Vec::with_capacity(160);
    append_from(&mut out, x, 32);
    append_from(&mut out, x, 0);
    append_from(&mut out, x, 0);
    proof {
        assert(x@.skip(0) =~= x@);
        assert(Seq::<T>::empty() + x@.skip(32) =~= x@.skip(32));
    }
    out
}

/// One D-LTF symbol: [GI 16 = last 16 samples of the LTS][LTS 64], 80
/// samples [23.3.8.2.3.3.4, Eq 23-27]. For an SU PPDU the SIG-B symbol is
/// an identical copy [23.3.8.2.3.3.5].
pub fn dltf_time<T: Copy>(x: &[T; 64]) -> (out: Vec<T>)
    ensures
        out@ == x@.skip(48) + x@,
        out@.len() == 80,
{
    let mut out: Vec<T> = Vec::with_capacity(80);
    append_from(&mut out, x, 48);
    append_from(&mut out, x, 0);
    proof {
        assert(x@.skip(0) =~= x@);
        assert(Seq::<T>::empty() + x@.skip(48) =~= x@.skip(48));
    }
    out
}

/// The LTF occupies every subcarrier from -28 to 28 but DC, with +1 but for the
/// listed ones, which carry -1.
pub proof fn lemma_ltf_signs(k: int)
    requires
        -28 <= k <= 28,
    ensures
        LTF_SEQ[k + 28] == 0 <==> k == 0,
        LTF_SEQ[k + 28] == -1 <==> (k == -24 || k == -23 || k == -20 || k == -18 || k == -11 || k == -10 || k == -7 || k == -5 || k == 2 || k == 3 || k == 6 || k == 8 || k == 10 || k == 11 || k == 12 || k == 13 || k == 14 || k == 17 || k == 18 || k == 20 || k == 22 || k == 27 || k == 28),
        -1 <= LTF_SEQ[k + 28] <= 1,
{
}

/// The STF occupies every fourth subcarrier from -24 to 24 but DC, with +1 but
/// for -20, -12, -8, 4 and 8, which carry -1.
pub proof fn lemma_stf_signs(k: int)
    requires
        -32 <= k < 32,
    ensures
        stf_sign(k + 32) == 0 <==> (k % 4 != 0 || k == 0 || k < -24 || k > 24),
        stf_sign(k + 32) == -1 <==> (k == -20 || k == -12 || k == -8 || k == 4 || k == 8),
        -1 <= stf_sign(k + 32) <= 1,
{
}

} // verus!
