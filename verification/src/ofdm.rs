//! OFDM symbol assembly for 2 MHz: subcarrier layout, bin order, GI insertion,
//! LDPC tone mapping. Everything here moves values around and is generic in
//! the value type.
//!
//! Subcarrier convention: logical indices -32..31 (DC = 0); a frequency-domain
//! symbol's array index a holds subcarrier k = a - 32 (fftshift order).
//!
//! Windowing: fields/symbols are concatenated rectangularly (the T_TR = 0
//! degenerate case of Eq 17-4, explicitly spec-conformant; spectral shaping
//! is left to the SDR-side interpolation filtering).

use vstd::prelude::*;

verus! {

/// The 52 Data-field subcarrier indices with fixed pilots, ascending
/// (+-1..+-28 minus pilots at +-7, +-21). Ascending order matches M'_2(k)
/// [Eq 23-30]: data symbol i goes on the i-th of these tones.
pub const DATA_SUBCARRIER_INDICES: [i32; 52] = [
    -28, -27, -26, -25, -24, -23, -22, -20, -19, -18, -17, -16, -15,
    -14, -13, -12, -11, -10, -9, -8, -6, -5, -4, -3, -2, -1,
    1, 2, 3, 4, 5, 6, 8, 9, 10, 11, 12, 13, 14,
    15, 16, 17, 18, 19, 20, 22, 23, 24, 25, 26, 27, 28,
];

/// The 48 SIG-field subcarrier indices, ascending (+-1..+-26 minus pilots)
/// [Table 23-6; Eq 23-20/23-21 M'2 for SIG].
pub const SIG_SUBCARRIER_INDICES: [i32; 48] = [
    -26, -25, -24, -23, -22, -20, -19, -18, -17, -16, -15, -14, -13,
    -12, -11, -10, -9, -8, -6, -5, -4, -3, -2, -1, 1, 2,
    3, 4, 5, 6, 8, 9, 10, 11, 12, 13, 14, 15, 16,
    17, 18, 19, 20, 22, 23, 24, 25, 26,
];

/// `k` is DC or a fixed pilot.
pub open spec fn is_dc_or_pilot(k: int) -> bool {
    k == 0 || k == -21 || k == -7 || k == 7 || k == 21
}

/// Position of subcarrier `k` among the data tones that start at `-edge`:
/// how many data tones are below it.
pub open spec fn tone_position(edge: int, k: int) -> int {
    k + edge - (if k > -21 {
        1int
    } else {
        0
    }) - (if k > -7 {
        1int
    } else {
        0
    }) - (if k > 0 {
        1int
    } else {
        0
    }) - (if k > 7 {
        1int
    } else {
        0
    }) - (if k > 21 {
        1int
    } else {
        0
    })
}

/// The Data tones are exactly the subcarriers -28..28 without DC and pilots,
/// ascending, and so are the SIG tones for -26..26.
pub proof fn lemma_subcarriers()
    ensures
        forall|i: int|
            0 <= i < 52 ==> {
                let k = #[trigger] DATA_SUBCARRIER_INDICES[i] as int;
                -28 <= k <= 28 && !is_dc_or_pilot(k) && tone_position(28, k) == i
            },
        forall|k: int|
            -28 <= k <= 28 && !is_dc_or_pilot(k) ==> 0 <= (#[trigger] tone_position(28, k)) < 52
                && DATA_SUBCARRIER_INDICES[tone_position(28, k)] == k,
        forall|i: int|
            0 <= i < 48 ==> {
                let k = #[trigger] SIG_SUBCARRIER_INDICES[i] as int;
                -26 <= k <= 26 && !is_dc_or_pilot(k) && tone_position(26, k) == i
            },
        forall|k: int|
            -26 <= k <= 26 && !is_dc_or_pilot(k) ==> 0 <= (#[trigger] tone_position(26, k)) < 48
                && SIG_SUBCARRIER_INDICES[tone_position(26, k)] == k,
{
}

/// LDPC tone-mapping distance D_TM for 2 MHz (= VHT 20 MHz) [Table 21-19;
/// 23.3.9.9.2].
pub const LDPC_D_TM: usize = 4;

/// The tone of constellation point `k`: t(k) = 4*(k mod 13) + floor(4k / 52).
pub open spec fn tone_of(k: int) -> int {
    4 * (k % 13) + (4 * k) / 52
}

/// The constellation point on tone `t`.
pub open spec fn point_on(t: int) -> int {
    13 * (t % 4) + t / 4
}

/// The tone mapper permutes the 52 tones.
pub proof fn lemma_tone_map_bijective(k: int)
    requires
        0 <= k < 52,
    ensures
        0 <= tone_of(k) < 52,
        point_on(tone_of(k)) == k,
        0 <= point_on(k) < 52,
        tone_of(point_on(k)) == k,
{
}

/// The tone mapper spreads: consecutive points lie D_TM tones apart, but for
/// the wrap from one row of 13 to the next.
pub proof fn lemma_tone_map_spreads(k: int)
    requires
        0 <= k < 51,
        k % 13 != 12,
    ensures
        tone_of(k + 1) == tone_of(k) + 4,
{
}

/// LDPC tone mapper permutation t(k) [Eq 21-86] for N_SD = 52, D_TM = 4:
/// t(k) = D_TM*(k mod (N_SD/D_TM)) + floor(k*D_TM/N_SD). Constellation point k
/// is transmitted on data tone t(k), so consecutive points land D_TM data
/// tones apart.
pub fn ldpc_tone_map_index(k: usize) -> (t: usize)
    requires
        4 * k <= usize::MAX,
    ensures
        k < 52 ==> t < 52,
        t == tone_of(k as int),
{
    let n_sd: usize = 52;
    LDPC_D_TM * (k % (n_sd / LDPC_D_TM)) + (k * LDPC_D_TM) / n_sd
}

/// Apply the LDPC tone mapper to 52 constellation points (output index =
/// data-tone index).
pub fn ldpc_tone_map<T: Copy>(points: &[T]) -> (out: Vec<T>)
    requires
        points@.len() == 52,
    ensures
        out@.len() == 52,
        forall|k: int| 0 <= k < 52 ==> out@[tone_of(k)] == #[trigger] points@[k],
{
    let mut out: Vec<T> = Vec::with_capacity(52);
    for t in 0..52usize
        invariant
            points@.len() == 52,
            out@.len() == t,
            forall|j: int| 0 <= j < t ==> #[trigger] out@[j] == points@[point_on(j)],
    {
        proof {
            lemma_tone_map_bijective(t as int);
        }
        let k: usize = 13 * (t % 4) + t / 4;
        out.push(points[k]);
    }
    proof {
        assert forall|k: int| 0 <= k < 52 implies out@[tone_of(k)] == #[trigger] points@[k] by {
            lemma_tone_map_bijective(k);
        }
    }
    out
}

/// Undo the LDPC tone mapper on per-bit soft values (`n_bpscs` per data tone,
/// in data-tone order), giving constellation-point order.
pub fn ldpc_tone_demap_llrs<T: Copy>(llrs: &[T], n_bpscs: usize) -> (out: Vec<T>)
    requires
        llrs@.len() == 52 * n_bpscs,
        llrs@.len() <= usize::MAX,
    ensures
        out@.len() == llrs@.len(),
        forall|k: int, b: int|
            0 <= k < 52 && 0 <= b < n_bpscs ==> #[trigger] out@[k * n_bpscs + b]
                == llrs@[tone_of(k) * n_bpscs + b],
{
    let mut out: Vec<T> = Vec::with_capacity(llrs.len());
    proof {
        assert(0 * n_bpscs == 0) by (nonlinear_arith);
    }
    for k in 0..52usize
        invariant
            llrs@.len() == 52 * n_bpscs,
            llrs@.len() <= usize::MAX,
            out@.len() == k * n_bpscs,
            forall|j: int, b: int|
                0 <= j < k && 0 <= b < n_bpscs ==> #[trigger] out@[j * n_bpscs + b]
                    == llrs@[tone_of(j) * n_bpscs + b],
    {
        let t: usize = ldpc_tone_map_index(k);
        proof {
            assert(t * n_bpscs + n_bpscs <= 52 * n_bpscs && 0 <= t * n_bpscs && k * n_bpscs + n_bpscs
                == (k + 1) * n_bpscs) by (nonlinear_arith)
                requires
                    0 <= t < 52,
                    0 <= n_bpscs,
            ;
        }
        let ghost before = out@;
        for b in 0..n_bpscs
            invariant
                llrs@.len() == 52 * n_bpscs,
                llrs@.len() <= usize::MAX,
                t * n_bpscs + n_bpscs <= 52 * n_bpscs,
                0 <= t * n_bpscs,
                before.len() == k * n_bpscs,
                out@.len() == before.len() + b,
                forall|j: int| 0 <= j < before.len() ==> #[trigger] out@[j] == before[j],
                forall|j: int|
                    0 <= j < b ==> #[trigger] out@[before.len() + j] == llrs@[t * n_bpscs + j],
        {
            out.push(llrs[t * n_bpscs + b]);
        }
        proof {
            assert forall|j: int, b: int| 0 <= j < k + 1 && 0 <= b < n_bpscs implies
                #[trigger] out@[j * n_bpscs + b] == llrs@[tone_of(j) * n_bpscs + b] by {
                if j < k {
                    assert(0 <= j * n_bpscs && j * n_bpscs + n_bpscs <= k * n_bpscs)
                        by (nonlinear_arith)
                        requires
                            0 <= j < k,
                            0 <= n_bpscs,
                    ;
                    assert(out@[j * n_bpscs + b] == before[j * n_bpscs + b]);
                } else {
                    assert(out@[before.len() + b] == llrs@[t * n_bpscs + b]);
                }
            }
        }
    }
    out
}

/// Array index for logical subcarrier k.
pub fn bin(k: i32) -> (a: usize)
    requires
        -32 <= k <= i32::MAX - 32,
    ensures
        a == k + 32,
{
    (k + 32) as usize
}

/// `base` with the first `n` values placed on their subcarriers, in order.
pub open spec fn placed<T>(base: Seq<T>, indices: Seq<i32>, values: Seq<T>, n: int) -> Seq<T>
    decreases n,
{
    if n <= 0 {
        base
    } else {
        placed(base, indices, values, n - 1).update(indices[n - 1] + 32, values[n - 1])
    }
}

proof fn lemma_placed_len<T>(base: Seq<T>, indices: Seq<i32>, values: Seq<T>, n: int)
    requires
        base.len() == 64,
        n <= indices.len(),
        forall|j: int| 0 <= j < n ==> -32 <= #[trigger] indices[j] < 32,
    ensures
        placed(base, indices, values, n).len() == base.len(),
    decreases n,
{
    if n > 0 {
        lemma_placed_len(base, indices, values, n - 1);
    }
}

/// A value stands on its subcarrier, unless a later one took the place.
pub proof fn lemma_placed_at<T>(base: Seq<T>, indices: Seq<i32>, values: Seq<T>, n: int, i: int)
    requires
        base.len() == 64,
        0 <= i < n <= indices.len(),
        forall|j: int| 0 <= j < n ==> -32 <= #[trigger] indices[j] < 32,
        forall|j: int| i < j < n ==> indices[j] != indices[i],
    ensures
        placed(base, indices, values, n)[indices[i] + 32] == values[i],
    decreases n,
{
    lemma_placed_len(base, indices, values, n - 1);
    if i < n - 1 {
        lemma_placed_at(base, indices, values, n - 1, i);
    }
}

/// Place data values onto `indices` and pilot values onto `pilot_indices`
/// of a symbol that is `zero` elsewhere.
pub fn assemble_freq_symbol<T: Copy>(
    indices: &[i32],
    values: &[T],
    pilot_indices: &[i32; 4],
    pilots: &[T; 4],
    zero: T,
) -> (sym: [T; 64])
    requires
        indices@.len() == values@.len(),
        forall|i: int| 0 <= i < indices@.len() ==> -32 <= #[trigger] indices@[i] < 32,
        forall|l: int| 0 <= l < 4 ==> -32 <= #[trigger] pilot_indices@[l] < 32,
    ensures
        sym@ == placed(
            placed(
                Seq::new(64, |a: int| zero),
                indices@,
                values@,
                indices@.len() as int,
            ),
            pilot_indices@,
            pilots@,
            4,
        ),
{
    let mut sym: [T; 64] = [zero; 64];
    let ghost base = Seq::new(64, |a: int| zero);
    proof {
        assert(sym@ =~= base);
    }
    for i in 0..indices.len()
        invariant
            indices@.len() == values@.len(),
            forall|j: int| 0 <= j < indices@.len() ==> -32 <= #[trigger] indices@[j] < 32,
            sym@ == placed(base, indices@, values@, i as int),
    {
        let a: usize = bin(indices[i]);
        proof {
            assert(-32 <= indices@[i as int] < 32);
        }
        sym[a] = values[i];
    }
    let ghost data = sym@;
    for l in 0..4usize
        invariant
            forall|j: int| 0 <= j < 4 ==> -32 <= #[trigger] pilot_indices@[j] < 32,
            sym@ == placed(data, pilot_indices@, pilots@, l as int),
    {
        proof {
            assert(-32 <= pilot_indices@[l as int] < 32);
        }
        let a: usize = bin(pilot_indices[l]);
        sym[a] = pilots[l];
    }
    sym
}

/// Rotate 64 values by 32 places: logical order -32..31 to DFT order 0..63
/// (subcarrier k at index k mod 64), and back.
pub fn rotate_half<T: Copy>(x: &[T; 64]) -> (out: [T; 64])
    ensures
        forall|a: int| 0 <= a < 64 ==> #[trigger] out@[a] == x@[(a + 32) % 64],
{
    let mut out: [T; 64] = [x[0]; 64];
    for a in 0..64usize
        invariant
            forall|j: int| 0 <= j < a ==> #[trigger] out@[j] == x@[(j + 32) % 64],
    {
        out[a] = x[(a + 32) % 64];
    }
    out
}

/// A symbol with its cyclic prefix: the last `gi_len` samples, then all 64.
pub fn with_guard_interval<T: Copy>(x: &[T; 64], gi_len: usize) -> (out: Vec<T>)
    requires
        gi_len <= 64,
    ensures
        out@ == x@.skip(64 - gi_len) + x@,
{
    let mut out: Vec<T> = Vec::with_capacity(64 + gi_len);
    append_from(&mut out, x, 64 - gi_len);
    append_from(&mut out, x, 0);
    proof {
        assert(x@.skip(0) =~= x@);
    }
    out
}

/// Append the entries of `x` from `from` on.
pub fn append_from<T: Copy>(out: &mut Vec<T>, x: &[T; 64], from: usize)
    requires
        from <= 64,
    ensures
        final(out)@ == old(out)@ + x@.skip(from as int),
{
    let ghost before = out@;
    proof {
        assert(before =~= before + x@.subrange(from as int, from as int));
    }
    for i in from..64
        invariant
            from <= 64,
            out@ == before + x@.subrange(from as int, i as int),
    {
        out.push(x[i]);
        proof {
            assert(before + x@.subrange(from as int, i + 1) =~= (before + x@.subrange(
                from as int,
                i as int,
            )).push(x@[i as int]));
        }
    }
    proof {
        assert(x@.subrange(from as int, 64) =~= x@.skip(from as int));
    }
}

/// The tone mapper deals the tones out in four rounds: points 0 to 12 go to tones
/// 0, 4, 8 and so on, the next thirteen to 1, 5, 9, then to 2, 6, 10, then to 3, 7,
/// 11.
pub proof fn lemma_tone_map_rounds(k: int)
    requires
        0 <= k < 13,
    ensures
        tone_of(k) == 4 * k,
        tone_of(k + 13) == 4 * k + 1,
        tone_of(k + 26) == 4 * k + 2,
        tone_of(k + 39) == 4 * k + 3,
        point_on(4 * k) == k,
        point_on(4 * k + 1) == k + 13,
        point_on(4 * k + 2) == k + 26,
        point_on(4 * k + 3) == k + 39,
{
}

/// DC and the pilots -21, -7, 7 and 21 carry no data, and the data tones are
/// counted from the lowest without them.
pub proof fn lemma_tone_positions(edge: int, k: int)
    requires
        edge == 26 || edge == 28,
        -edge <= k < edge,
    ensures
        is_dc_or_pilot(k) <==> k * k == 0 || k * k == 49 || k * k == 441,
        tone_position(edge, -edge) == 0,
        tone_position(edge, k + 1) == tone_position(edge, k) + if is_dc_or_pilot(k) { 0int } else {
            1
        },
{
    assert(k * k == 0 ==> k == 0) by (nonlinear_arith);
    assert(k * k == 49 ==> k == 7 || k == -7) by (nonlinear_arith);
    assert(k * k == 441 ==> k == 21 || k == -21) by (nonlinear_arith);
    assert(0 * 0 == 0 && 7 * 7 == 49 && (-7) * (-7) == 49 && 21 * 21 == 441 && (-21) * (-21) == 441);
}

/// A value on subcarrier `k` stands at index `k + 32`; what no value was placed on
/// stays as it was.
pub proof fn lemma_placed_elsewhere<T>(
    base: Seq<T>,
    indices: Seq<i32>,
    values: Seq<T>,
    n: int,
    a: int,
)
    requires
        base.len() == 64,
        n <= indices.len(),
        0 <= a < 64,
        forall|j: int| 0 <= j < n ==> -32 <= #[trigger] indices[j] < 32 && indices[j] + 32 != a,
    ensures
        placed(base, indices, values, n)[a] == base[a],
    decreases n,
{
    if n > 0 {
        lemma_placed_elsewhere(base, indices, values, n - 1, a);
        lemma_placed_len(base, indices, values, n - 1);
        assert(indices[n - 1] + 32 != a);
    }
}

} // verus!
