//! PPDU-level LDPC coding: codeword selection, shortening, puncturing and
//! repetition [19.3.11.7.5 with the substitutions of 23.3.9.4.4].

use crate::arith::{ceil_div, lemma_ceil_div, spec_ceil_div};
use crate::ldpc::tables::is_block_length;
use crate::ldpc::{codeword, info_len, lemma_dimensions, Code};
use crate::params::CodeRate;
use vstd::prelude::*;

pub mod laws;

verus! {

/// `x * (1 - rate)`, for `x` a multiple of 12.
#[verifier::opaque]
pub open spec fn parity_share(x: int, rate: CodeRate) -> int {
    match rate {
        CodeRate::R1_2 => x / 2,
        CodeRate::R2_3 => x / 3,
        CodeRate::R3_4 => x / 4,
        CodeRate::R5_6 => x / 6,
    }
}

/// `rate / (1 - rate)`.
pub open spec fn info_per_parity(rate: CodeRate) -> int {
    match rate {
        CodeRate::R1_2 => 1,
        CodeRate::R2_3 => 2,
        CodeRate::R3_4 => 3,
        CodeRate::R5_6 => 5,
    }
}

/// Codeword count and length for a payload of `n_pld` bits in `n_avbits`
/// coded bits [Table 19-16].
#[verifier::opaque]
pub open spec fn codeword_choice(n_pld: int, n_avbits: int, rate: CodeRate) -> (int, int) {
    if n_avbits <= 648 {
        (1, if n_avbits >= n_pld + parity_share(912, rate) {
            1296
        } else {
            648
        })
    } else if n_avbits <= 1296 {
        (1, if n_avbits >= n_pld + parity_share(1464, rate) {
            1944
        } else {
            1296
        })
    } else if n_avbits <= 1944 {
        (1, 1944)
    } else if n_avbits <= 2592 {
        (2, if n_avbits >= n_pld + parity_share(2916, rate) {
            1944
        } else {
            1296
        })
    } else {
        let k = 1944 - parity_share(1944, rate);
        ((n_pld + k - 1) / k, 1944)
    }
}

/// The positive part of `x`.
pub open spec fn at_least_zero(x: int) -> int {
    if x < 0 {
        0
    } else {
        x
    }
}

/// One more OFDM symbol is owed: puncturing takes more than a tenth of the
/// parity while shortening is less than 1.2 times the punctured bits scaled
/// by R/(1-R), or puncturing takes more than three tenths.
#[verifier::opaque]
pub open spec fn needs_extra_symbol(n_shrt: int, n_punc: int, parity: int, rate: CodeRate) -> bool {
    ||| 10 * n_punc > parity && 10 * n_shrt < 12 * (n_punc * info_per_parity(rate))
    ||| 10 * n_punc > 3 * parity
}

/// PPDU-level LDPC parameters [19.3.11.7.5 with 23.3.9.4.4 substitutions].
#[derive(Debug, Clone, Copy, PartialEq, Eq, Structural)]
pub struct PpduParams {
    pub rate: CodeRate,
    /// Bits to encode: N_SYM,init * N_DBPS (SERVICE + PSDU + pad, no tail).
    pub n_pld: usize,
    /// Coded bits available: N_SYM * N_CBPS (after any extra symbol).
    pub n_avbits: usize,
    pub n_cw: usize,
    pub l_ldpc: usize,
    pub n_shrt: usize,
    pub n_punc: usize,
    pub n_rep: usize,
    /// Final symbol count (N_SYM,init or N_SYM,init + 1).
    pub n_sym: usize,
    /// LDPC Extra OFDM Symbol flag.
    pub extra_symbol: bool,
}

/// Which bits of one codeword are sent, and where they stand in the payload
/// and in the coded bits.
#[derive(Debug, Clone, Copy, PartialEq, Eq, Structural)]
pub struct CodewordPlan {
    /// First payload bit that this codeword carries.
    pub data_start: usize,
    /// First coded bit of this codeword.
    pub tx_start: usize,
    /// Information bits sent (the rest of the `k` are known zeros).
    pub n_info: usize,
    /// Parity bits sent.
    pub n_parity: usize,
    /// Bits sent a second time.
    pub n_rep: usize,
}

/// The share of codeword `j` of `total` dealt out to `n_cw` codewords: the
/// first `total mod n_cw` codewords take one more.
pub open spec fn share(total: int, n_cw: int, j: int) -> int {
    total / n_cw + if j < total % n_cw {
        1int
    } else {
        0
    }
}

/// What the first `j` codewords take together.
pub open spec fn share_before(total: int, n_cw: int, j: int) -> int {
    j * (total / n_cw) + if j < total % n_cw {
        j
    } else {
        total % n_cw
    }
}

proof fn lemma_share(total: int, n_cw: int, j: int)
    requires
        0 <= total,
        0 < n_cw,
        0 <= j < n_cw,
    ensures
        share_before(total, n_cw, 0) == 0,
        share_before(total, n_cw, j + 1) == share_before(total, n_cw, j) + share(total, n_cw, j),
        share_before(total, n_cw, n_cw) == total,
        0 <= share(total, n_cw, j),
        0 <= share_before(total, n_cw, j),
{
    let q = total / n_cw;
    let rem = total % n_cw;
    assert(total == n_cw * q + rem && 0 <= rem < n_cw && 0 <= q) by (nonlinear_arith)
        requires
            q == total / n_cw,
            rem == total % n_cw,
            0 < n_cw,
            0 <= total,
    ;
    assert((j + 1) * q == j * q + q) by (nonlinear_arith);
    assert(0 * q == 0);
    assert(0 <= j * q) by (nonlinear_arith)
        requires
            0 <= j,
            0 <= q,
    ;
}

/// No codeword takes more than its even share of an upper bound.
proof fn lemma_share_bound(total: int, n_cw: int, j: int, each: int)
    requires
        0 <= total <= n_cw * each,
        0 < n_cw,
        0 <= j < n_cw,
    ensures
        0 <= share(total, n_cw, j) <= each,
{
    let q = total / n_cw;
    let rem = total % n_cw;
    assert(q < each || (q == each && rem == 0)) by (nonlinear_arith)
        requires
            q == total / n_cw,
            rem == total % n_cw,
            0 < n_cw,
            0 <= total <= n_cw * each,
    ;
    assert(0 <= q && 0 <= rem) by (nonlinear_arith)
        requires
            q == total / n_cw,
            rem == total % n_cw,
            0 < n_cw,
            0 <= total,
    ;
}

/// The share of one codeword, see [`share`].
fn deal(total: usize, n_cw: usize, j: usize) -> (c: usize)
    requires
        j < n_cw,
    ensures
        c == share(total as int, n_cw as int, j as int),
{
    let q: usize = total / n_cw;
    let rem: usize = total % n_cw;
    if j < rem {
        assert(q < total) by (nonlinear_arith)
            requires
                q == total / n_cw,
                rem == total % n_cw,
                0 < rem,
                0 < n_cw,
        ;
        q + 1
    } else {
        q
    }
}

/// What the first `j` codewords take together, see [`share_before`].
fn dealt_before(total: usize, n_cw: usize, j: usize) -> (c: usize)
    requires
        j < n_cw,
    ensures
        c == share_before(total as int, n_cw as int, j as int),
        c <= total,
{
    let q: usize = total / n_cw;
    let rem: usize = total % n_cw;
    proof {
        lemma_dealt_bound(total as int, n_cw as int, j as int);
        assert(0 <= j * q) by (nonlinear_arith)
            requires
                0 <= j,
                0 <= q,
        ;
    }
    j * q + if j < rem {
        j
    } else {
        rem
    }
}

proof fn lemma_dealt_bound(total: int, n_cw: int, j: int)
    requires
        0 <= total,
        0 <= j < n_cw,
    ensures
        0 <= share_before(total, n_cw, j) <= total,
        j * (total / n_cw) <= total,
{
    let q = total / n_cw;
    let rem = total % n_cw;
    assert(0 <= j * q && j * q + rem <= total && 0 <= rem) by (nonlinear_arith)
        requires
            q == total / n_cw,
            rem == total % n_cw,
            0 <= j < n_cw,
            0 <= total,
    ;
}

/// `j * each` less what the first `j` codewords take of `total`.
fn start_of(total: usize, n_cw: usize, j: usize, each: usize) -> (c: usize)
    requires
        j < n_cw,
        total <= n_cw * each <= usize::MAX,
    ensures
        c == j * each - share_before(total as int, n_cw as int, j as int),
{
    proof {
        lemma_start_nonneg(total as int, n_cw as int, j as int, each as int);
        assert(j * each <= n_cw * each) by (nonlinear_arith)
            requires
                j <= n_cw,
                0 <= each,
        ;
        assert(0 <= j * each) by (nonlinear_arith);
    }
    j * each - dealt_before(total, n_cw, j)
}

proof fn lemma_start_nonneg(total: int, n_cw: int, j: int, each: int)
    requires
        0 <= total <= n_cw * each,
        0 <= j < n_cw,
    ensures
        0 <= share_before(total, n_cw, j) <= j * each,
    decreases j,
{
    if j == 0 {
        lemma_share(total, n_cw, 0);
        assert(0 * each == 0);
    } else {
        lemma_start_nonneg(total, n_cw, j - 1, each);
        lemma_share(total, n_cw, j - 1);
        lemma_share(total, n_cw, j);
        lemma_share_bound(total, n_cw, j - 1, each);
        assert((j - 1) * each + each == j * each) by (nonlinear_arith);
    }
}

impl CodewordPlan {
    /// Index within the codeword (of `k` information bits) of its
    /// transmitted bit `t`.
    pub fn source(&self, k: usize, t: usize) -> (i: usize)
        requires
            self.n_info + self.n_parity <= usize::MAX,
            self.n_info + self.n_parity > 0,
            k + self.n_parity <= usize::MAX,
        ensures
            ({
                let s = t as int % (self.n_info + self.n_parity);
                i == if s < self.n_info {
                    s
                } else {
                    k + (s - self.n_info)
                }
            }),
            i < self.n_info || k <= i < k + self.n_parity,
    {
        let s: usize = t % (self.n_info + self.n_parity);
        if s < self.n_info {
            s
        } else {
            k + (s - self.n_info)
        }
    }
}

/// Parity bits of a codeword of length `l`.
fn parity_len(l: usize, rate: CodeRate) -> (m: usize)
    requires
        is_block_length(l as int),
    ensures
        m == parity_share(l as int, rate),
        m == l - info_len(l as int, rate),
        0 < m < l,
{
    proof {
        lemma_parity_share(l as int, rate);
        reveal(parity_share);
    }
    match rate {
        CodeRate::R1_2 => l / 2,
        CodeRate::R2_3 => l / 3,
        CodeRate::R3_4 => l / 4,
        CodeRate::R5_6 => l / 6,
    }
}

pub(crate) proof fn lemma_parity_share(l: int, rate: CodeRate)
    requires
        is_block_length(l),
    ensures
        parity_share(l, rate) == l - info_len(l, rate),
        0 < parity_share(l, rate) < l,
{
    reveal(parity_share);
    let z = l / 24;
    assert(z == 27 || z == 54 || z == 81);
    lemma_dimensions(l, rate);
    match rate {
        CodeRate::R1_2 => {
            assert(info_len(l, rate) == 12 * z);
        },
        CodeRate::R2_3 => {
            assert(info_len(l, rate) == 16 * z);
        },
        CodeRate::R3_4 => {
            assert(info_len(l, rate) == 18 * z);
        },
        CodeRate::R5_6 => {
            assert(info_len(l, rate) == 20 * z);
        },
    }
}

/// What is left of `a` without `b` and `c`, if anything.
fn remainder(a: usize, b: usize, c: usize) -> (r: usize)
    ensures
        r == at_least_zero(a - b - c),
{
    if a >= b && a - b >= c {
        a - b - c
    } else {
        0
    }
}

/// Whether an extra OFDM symbol is owed, see [`needs_extra_symbol`].
fn extra_symbol_needed(n_shrt: usize, n_punc: usize, parity: usize, rate: CodeRate) -> (b: bool)
    ensures
        b == needs_extra_symbol(n_shrt as int, n_punc as int, parity as int, rate),
{
    reveal(needs_extra_symbol);
    let shrt: u128 = n_shrt as u128;
    let punc: u128 = n_punc as u128;
    let scaled: u128 = match rate {
        CodeRate::R1_2 => punc,
        CodeRate::R2_3 => 2 * punc,
        CodeRate::R3_4 => 3 * punc,
        CodeRate::R5_6 => 5 * punc,
    };
    proof {
        assert(scaled == n_punc * info_per_parity(rate)) by {
            match rate {
                CodeRate::R1_2 => {
                    assert(n_punc * 1 == n_punc);
                },
                _ => {},
            }
        }
    }
    10 * punc > parity as u128 && 10 * shrt < 12 * scaled || 10 * punc > 3 * (parity as u128)
}

/// The codewords' bits fit in a `usize`, given that those of a payload of more
/// than 2592 coded bits do.
pub(crate) proof fn lemma_choice_bound(n_pld: int, n_avbits: int, rate: CodeRate)
    requires
        0 <= n_pld,
        n_avbits > 2592 ==> spec_ceil_div(n_pld, info_len(1944, rate)) * 1944 <= usize::MAX,
    ensures
        ({
            let (n_cw, l) = codeword_choice(n_pld, n_avbits, rate);
            0 <= n_cw && 0 <= n_cw * l <= usize::MAX
        }),
{
    reveal(codeword_choice);
    lemma_parity_share(1944, rate);
    let (n_cw, l) = codeword_choice(n_pld, n_avbits, rate);
    if n_avbits > 2592 {
        let k = info_len(1944, rate);
        assert(n_cw == spec_ceil_div(n_pld, k));
        assert(0 <= n_cw) by (nonlinear_arith)
            requires
                n_cw == (n_pld + k - 1) / k,
                k > 0,
                n_pld >= 0,
        ;
    }
}

/// Codeword count and length [Table 19-16].
fn choose_codewords(n_pld: usize, n_avbits: usize, rate: CodeRate) -> (c: (usize, usize))
    requires
        n_avbits > 2592 ==> spec_ceil_div(n_pld as int, info_len(1944, rate)) * 1944 <= usize::MAX,
    ensures
        (c.0 as int, c.1 as int) == codeword_choice(n_pld as int, n_avbits as int, rate),
        is_block_length(c.1 as int),
        c.0 * c.1 <= usize::MAX,
{
    reveal(codeword_choice);
    reveal(parity_share);
    let share_912: usize = match rate {
        CodeRate::R1_2 => 456,
        CodeRate::R2_3 => 304,
        CodeRate::R3_4 => 228,
        CodeRate::R5_6 => 152,
    };
    let share_1464: usize = match rate {
        CodeRate::R1_2 => 732,
        CodeRate::R2_3 => 488,
        CodeRate::R3_4 => 366,
        CodeRate::R5_6 => 244,
    };
    let share_2916: usize = match rate {
        CodeRate::R1_2 => 1458,
        CodeRate::R2_3 => 972,
        CodeRate::R3_4 => 729,
        CodeRate::R5_6 => 486,
    };
    if n_avbits <= 648 {
        (1, if n_avbits >= share_912 && n_avbits - share_912 >= n_pld {
            1296
        } else {
            648
        })
    } else if n_avbits <= 1296 {
        (1, if n_avbits >= share_1464 && n_avbits - share_1464 >= n_pld {
            1944
        } else {
            1296
        })
    } else if n_avbits <= 1944 {
        (1, 1944)
    } else if n_avbits <= 2592 {
        (2, if n_avbits >= share_2916 && n_avbits - share_2916 >= n_pld {
            1944
        } else {
            1296
        })
    } else {
        let k: usize = 1944 - parity_len(1944, rate);
        let n_cw: usize = ceil_div(n_pld, k);
        (n_cw, 1944)
    }
}

/// Whole symbols at the code rate: the chosen codewords hold the payload.
proof fn lemma_payload_fits(n_sym: int, n_dbps: int, n_cbps: int, rate: CodeRate)
    requires
        n_sym >= 1,
        n_dbps >= 0,
        n_cbps > 0,
        n_dbps * rate.den() == n_cbps * rate.num(),
    ensures
        ({
            let n_pld = n_sym * n_dbps;
            let (n_cw, l) = codeword_choice(n_pld, n_sym * n_cbps, rate);
            &&& n_cw >= 1
            &&& is_block_length(l)
            &&& n_pld <= n_cw * info_len(l, rate)
            &&& 0 < n_pld <= n_sym * n_cbps
            &&& parity_share(l, rate) == l - info_len(l, rate)
        }),
{
    let n_pld = n_sym * n_dbps;
    let n_av = n_sym * n_cbps;
    let num = rate.num();
    let den = rate.den();
    assert(n_pld * den == n_av * num) by (nonlinear_arith)
        requires
            n_pld == n_sym * n_dbps,
            n_av == n_sym * n_cbps,
            n_dbps * den == n_cbps * num,
    ;
    assert(n_av > 0) by (nonlinear_arith)
        requires
            n_av == n_sym * n_cbps,
            n_sym >= 1,
            n_cbps > 0,
    ;
    reveal(codeword_choice);
    reveal(parity_share);
    let (n_cw, l) = codeword_choice(n_pld, n_av, rate);
    lemma_parity_share(648, rate);
    lemma_parity_share(1296, rate);
    lemma_parity_share(1944, rate);
    match rate {
        CodeRate::R1_2 => {
            assert(n_pld * 2 == n_av * 1);
        },
        CodeRate::R2_3 => {
            assert(n_pld * 3 == n_av * 2);
        },
        CodeRate::R3_4 => {
            assert(n_pld * 4 == n_av * 3);
        },
        CodeRate::R5_6 => {
            assert(n_pld * 6 == n_av * 5);
        },
    }
    if n_av > 2592 {
        let k = info_len(1944, rate);
        assert(n_cw * k >= n_pld && n_cw >= 1) by (nonlinear_arith)
            requires
                n_cw == (n_pld + k - 1) / k,
                k > 0,
                n_pld > 0,
        ;
    } else {
        let k = info_len(l, rate);
        assert(n_cw == 1 ==> n_cw * k == k) by (nonlinear_arith);
        assert(n_cw == 2 ==> n_cw * k == 2 * k) by (nonlinear_arith);
    }
}

/// Once the codewords hold the payload, the shortened, punctured and repeated
/// counts balance.
proof fn lemma_balance(p: PpduParams)
    requires
        is_block_length(p.l_ldpc as int),
        p.n_cw >= 1,
        p.n_cw * p.l_ldpc <= usize::MAX,
        p.n_pld <= p.n_avbits,
        p.n_pld <= p.n_cw * info_len(p.l_ldpc as int, p.rate),
        p.n_shrt == p.n_cw * (p.l_ldpc - parity_share(p.l_ldpc as int, p.rate)) - p.n_pld,
        p.n_punc == at_least_zero(p.n_cw * p.l_ldpc - p.n_avbits - p.n_shrt),
        p.n_rep == at_least_zero(
            p.n_avbits - p.n_cw * parity_share(p.l_ldpc as int, p.rate) - p.n_pld,
        ),
    ensures
        p.wf(),
        p.n_cw * p.l_ldpc + p.n_rep == p.n_avbits + p.n_shrt + p.n_punc,
{
    let l = p.l_ldpc as int;
    let n = p.n_cw as int;
    let m = parity_share(l, p.rate);
    let k = info_len(l, p.rate);
    lemma_parity_share(l, p.rate);
    assert(n * k + n * m == n * l) by (nonlinear_arith)
        requires
            k + m == l,
    ;
}

impl PpduParams {
    /// The counts balance: the codewords carry exactly the payload and fill
    /// exactly the coded bits.
    pub open spec fn wf(&self) -> bool {
        let k = info_len(self.l_ldpc as int, self.rate);
        let m = self.l_ldpc - k;
        &&& is_block_length(self.l_ldpc as int)
        &&& self.n_cw >= 1
        &&& self.n_shrt + self.n_pld == self.n_cw * k
        &&& self.n_punc <= self.n_cw * m
        &&& self.n_avbits == self.n_pld + self.n_cw * m - self.n_punc + self.n_rep
        &&& self.n_rep > 0 ==> self.n_punc == 0
        &&& self.n_cw * self.l_ldpc <= usize::MAX
    }

    /// Shortened bits of codeword `j`.
    pub open spec fn shrt(&self, j: int) -> int {
        share(self.n_shrt as int, self.n_cw as int, j)
    }

    /// Punctured bits of codeword `j`.
    pub open spec fn punc(&self, j: int) -> int {
        share(self.n_punc as int, self.n_cw as int, j)
    }

    /// Repeated bits of codeword `j`.
    pub open spec fn rep(&self, j: int) -> int {
        share(self.n_rep as int, self.n_cw as int, j)
    }

    /// Information bits of codeword `j` that are sent.
    pub open spec fn n_info(&self, j: int) -> int {
        info_len(self.l_ldpc as int, self.rate) - self.shrt(j)
    }

    /// Parity bits of codeword `j` that are sent.
    pub open spec fn n_parity(&self, j: int) -> int {
        self.l_ldpc - info_len(self.l_ldpc as int, self.rate) - self.punc(j)
    }

    /// Transmitted bits of codeword `j`.
    pub open spec fn spec_tx_len(&self, j: int) -> int {
        self.n_info(j) + self.n_parity(j) + self.rep(j)
    }

    /// Payload bits before codeword `j`.
    pub open spec fn data_start(&self, j: int) -> int {
        j * info_len(self.l_ldpc as int, self.rate) - share_before(
            self.n_shrt as int,
            self.n_cw as int,
            j,
        )
    }

    /// Coded bits before codeword `j`.
    pub open spec fn tx_start(&self, j: int) -> int {
        self.data_start(j) + (j * (self.l_ldpc - info_len(self.l_ldpc as int, self.rate))
            - share_before(self.n_punc as int, self.n_cw as int, j)) + share_before(
            self.n_rep as int,
            self.n_cw as int,
            j,
        )
    }

    /// Index within codeword `j` of its transmitted bit `t`: the information
    /// bits, then the parity bits, then both again from the start.
    pub open spec fn source(&self, j: int, t: int) -> int {
        let s = t % (self.n_info(j) + self.n_parity(j));
        if s < self.n_info(j) {
            s
        } else {
            info_len(self.l_ldpc as int, self.rate) + (s - self.n_info(j))
        }
    }

    /// The information part of codeword `j`: payload bits, then zeros.
    pub open spec fn info_block(&self, data: Seq<u8>, j: int) -> Seq<u8> {
        Seq::new(
            info_len(self.l_ldpc as int, self.rate) as nat,
            |i: int|
                if i < self.n_info(j) {
                    data[self.data_start(j) + i]
                } else {
                    0
                },
        )
    }

    /// The bits that are sent of codeword `j`.
    pub open spec fn tx_block(&self, data: Seq<u8>, j: int) -> Seq<u8> {
        let cw = codeword(self.l_ldpc as int, self.rate, self.info_block(data, j));
        Seq::new(self.spec_tx_len(j) as nat, |t: int| cw[self.source(j, t)])
    }

    /// The first `j` transmitted codewords, one after the other.
    pub open spec fn coded(&self, data: Seq<u8>, j: int) -> Seq<u8>
        decreases j,
    {
        if j <= 0 {
            Seq::empty()
        } else {
            self.coded(data, j - 1) + self.tx_block(data, j - 1)
        }
    }

    /// The parameters that [`PpduParams::new`] computes.
    pub open spec fn spec_new(n_sym_init: int, n_dbps: int, n_cbps: int, rate: CodeRate) -> PpduParams {
        let n_pld = n_sym_init * n_dbps;
        let n_init = n_sym_init * n_cbps;
        let (n_cw, l_ldpc) = codeword_choice(n_pld, n_init, rate);
        let parity = n_cw * parity_share(l_ldpc, rate);
        let n_shrt = at_least_zero(n_cw * (l_ldpc - parity_share(l_ldpc, rate)) - n_pld);
        let punc_init = at_least_zero(n_cw * l_ldpc - n_init - n_shrt);
        let extra = needs_extra_symbol(n_shrt, punc_init, parity, rate);
        let n_avbits = if extra {
            n_init + n_cbps
        } else {
            n_init
        };
        PpduParams {
            rate,
            n_pld: n_pld as usize,
            n_avbits: n_avbits as usize,
            n_cw: n_cw as usize,
            l_ldpc: l_ldpc as usize,
            n_shrt: n_shrt as usize,
            n_punc: at_least_zero(n_cw * l_ldpc - n_avbits - n_shrt) as usize,
            n_rep: at_least_zero(n_avbits - parity - n_pld) as usize,
            n_sym: (if extra {
                n_sym_init + 1
            } else {
                n_sym_init
            }) as usize,
            extra_symbol: extra,
        }
    }

    /// Compute the encoding parameters for an SU PPDU with `n_sym_init`
    /// initial symbols (Eq 23-46/47), no STBC. The payload, coded and
    /// codeword bits fit in a `usize` (see [`PpduParams::lemma_products_fit`]).
    pub fn new(n_sym_init: usize, n_dbps: usize, n_cbps: usize, rate: CodeRate) -> (p: PpduParams)
        requires
            n_cbps > 0,
            n_sym_init * n_dbps <= usize::MAX,
            n_sym_init * n_cbps <= usize::MAX,
            n_sym_init * n_cbps > 2592 ==> spec_ceil_div(
                n_sym_init * n_dbps,
                info_len(1944, rate),
            ) * 1944 <= usize::MAX,
            PpduParams::spec_new(
                n_sym_init as int,
                n_dbps as int,
                n_cbps as int,
                rate,
            ).extra_symbol ==> n_sym_init * n_cbps + n_cbps <= usize::MAX,
        ensures
            p == PpduParams::spec_new(n_sym_init as int, n_dbps as int, n_cbps as int, rate),
            p.n_pld == n_sym_init * n_dbps,
            p.n_sym == n_sym_init + if p.extra_symbol {
                1int
            } else {
                0
            },
            p.n_avbits == p.n_sym * n_cbps,
            n_sym_init >= 1 && n_dbps * rate.den() == n_cbps * rate.num() ==> {
                &&& p.wf()
                &&& p.n_cw * p.l_ldpc + p.n_rep == p.n_avbits + p.n_shrt + p.n_punc
            },
    {
        let n_pld: usize = n_sym_init * n_dbps;  // Eq 23-45
        let n_init: usize = n_sym_init * n_cbps;  // Eq 23-48
        assert(n_sym_init <= n_init) by (nonlinear_arith)
            requires
                n_init == n_sym_init * n_cbps,
                n_cbps >= 1,
        ;
        let (n_cw, l_ldpc) = choose_codewords(n_pld, n_init, rate);
        let m: usize = parity_len(l_ldpc, rate);
        let ghost n_ = n_cw as int;
        let ghost l_ = l_ldpc as int;
        let ghost m_ = m as int;
        proof {
            assert(n_ * (l_ - m_) == n_ * l_ - n_ * m_) by (nonlinear_arith);
            assert(0 <= n_ * m_ <= n_ * l_) by (nonlinear_arith)
                requires
                    0 <= m_ <= l_,
                    0 <= n_,
            ;
        }
        let total: usize = n_cw * l_ldpc;
        let parity: usize = n_cw * m;
        let k_total: usize = total - parity;
        let n_shrt: usize = if k_total >= n_pld {
            k_total - n_pld
        } else {
            0
        };  // Eq 19-37
        let punc_init: usize = remainder(total, n_init, n_shrt);  // Eq 19-38
        let extra_symbol: bool = extra_symbol_needed(n_shrt, punc_init, parity, rate);
        let n_avbits: usize = if extra_symbol {
            n_init + n_cbps
        } else {
            n_init
        };  // Eq 19-39 (m_STBC = 1)
        let n_punc: usize = remainder(total, n_avbits, n_shrt);  // Eq 19-40
        let n_sym: usize = if extra_symbol {
            n_sym_init + 1
        } else {
            n_sym_init
        };  // Eq 19-41
        let n_rep: usize = remainder(n_avbits, parity, n_pld);  // Eq 19-42
        let p = PpduParams {
            rate,
            n_pld,
            n_avbits,
            n_cw,
            l_ldpc,
            n_shrt,
            n_punc,
            n_rep,
            n_sym,
            extra_symbol,
        };
        proof {
            assert((n_sym_init + 1) * n_cbps == n_init + n_cbps) by (nonlinear_arith)
                requires
                    n_init == n_sym_init * n_cbps,
            ;
            if n_sym_init >= 1 && n_dbps * rate.den() == n_cbps * rate.num() {
                lemma_payload_fits(n_sym_init as int, n_dbps as int, n_cbps as int, rate);
                lemma_balance(p);
            }
        }
        p
    }

    /// At the code rate, the payload is no longer than the coded bits, and the
    /// codewords exceed them by less than one codeword.
    pub proof fn lemma_products_fit(n_sym_init: int, n_dbps: int, n_cbps: int, rate: CodeRate)
        requires
            1 <= n_sym_init,
            0 <= n_dbps,
            0 < n_cbps,
            n_dbps * rate.den() == n_cbps * rate.num(),
        ensures
            0 < n_sym_init * n_dbps <= n_sym_init * n_cbps,
            spec_ceil_div(n_sym_init * n_dbps, info_len(1944, rate)) * 1944 < n_sym_init * n_cbps
                + 1944,
    {
        lemma_payload_fits(n_sym_init, n_dbps, n_cbps, rate);
        lemma_parity_share(1944, rate);
        let n_pld = n_sym_init * n_dbps;
        let n_av = n_sym_init * n_cbps;
        let k = info_len(1944, rate);
        let q = spec_ceil_div(n_pld, k);
        lemma_ceil_div(n_pld, k);
        let num = rate.num();
        let den = rate.den();
        assert(n_pld * den == n_av * num) by (nonlinear_arith)
            requires
                n_pld == n_sym_init * n_dbps,
                n_av == n_sym_init * n_cbps,
                n_dbps * den == n_cbps * num,
        ;
        match rate {
            CodeRate::R1_2 => {
                assert(k == 972);
                assert(n_pld * 2 == n_av * 1);
            },
            CodeRate::R2_3 => {
                assert(k == 1296);
                assert(n_pld * 3 == n_av * 2);
            },
            CodeRate::R3_4 => {
                assert(k == 1458);
                assert(n_pld * 4 == n_av * 3);
            },
            CodeRate::R5_6 => {
                assert(k == 1620);
                assert(n_pld * 6 == n_av * 5);
            },
        }
    }

    /// Whole symbols at the code rate give balanced parameters.
    pub proof fn lemma_new(n_sym_init: int, n_dbps: int, n_cbps: int, rate: CodeRate)
        requires
            1 <= n_sym_init,
            0 <= n_dbps,
            0 < n_cbps,
            n_sym_init * n_cbps <= usize::MAX,
            PpduParams::spec_new(n_sym_init, n_dbps, n_cbps, rate).extra_symbol ==> n_sym_init
                * n_cbps + n_cbps <= usize::MAX,
            n_sym_init * n_cbps > 2592 ==> spec_ceil_div(
                n_sym_init * n_dbps,
                info_len(1944, rate),
            ) * 1944 <= usize::MAX,
            n_dbps * rate.den() == n_cbps * rate.num(),
        ensures
            PpduParams::spec_new(n_sym_init, n_dbps, n_cbps, rate).wf(),
            PpduParams::spec_new(n_sym_init, n_dbps, n_cbps, rate).n_pld == n_sym_init * n_dbps,
    {
        let n_pld = n_sym_init * n_dbps;
        let n_init = n_sym_init * n_cbps;
        let (n_cw, l) = codeword_choice(n_pld, n_init, rate);
        lemma_payload_fits(n_sym_init, n_dbps, n_cbps, rate);
        lemma_choice_bound(n_pld, n_init, rate);
        let m = parity_share(l, rate);
        lemma_parity_share(l, rate);
        assert(n_cw * (l - m) == n_cw * l - n_cw * m && 0 <= n_cw * m <= n_cw * l && n_cw <= n_cw * l)
            by (nonlinear_arith)
            requires
                0 <= m <= l,
                1 <= l,
                0 <= n_cw,
        ;
        lemma_balance(PpduParams::spec_new(n_sym_init, n_dbps, n_cbps, rate));
    }

    /// Per-codeword (shortening, puncturing, repetition) counts: the first
    /// `N mod N_CW` codewords take one more.
    fn per_codeword(&self, j: usize) -> (c: (usize, usize, usize))
        requires
            self.wf(),
            j < self.n_cw,
        ensures
            c.0 == self.shrt(j as int),
            c.1 == self.punc(j as int),
            c.2 == self.rep(j as int),
    {
        proof {
            self.lemma_codeword(j as int);
        }
        (
            deal(self.n_shrt, self.n_cw, j),
            deal(self.n_punc, self.n_cw, j),
            deal(self.n_rep, self.n_cw, j),
        )
    }

    /// Number of transmitted bits of codeword `j`.
    pub fn tx_len(&self, j: usize) -> (n: usize)
        requires
            self.wf(),
            j < self.n_cw,
        ensures
            n == self.spec_tx_len(j as int),
    {
        let p: CodewordPlan = self.plan(j);
        p.n_info + p.n_parity + p.n_rep
    }

    /// Which bits of codeword `j` are sent, and where.
    pub fn plan(&self, j: usize) -> (p: CodewordPlan)
        requires
            self.wf(),
            j < self.n_cw,
        ensures
            p.data_start == self.data_start(j as int),
            p.tx_start == self.tx_start(j as int),
            p.n_info == self.n_info(j as int),
            p.n_parity == self.n_parity(j as int),
            p.n_rep == self.rep(j as int),
            p.data_start + p.n_info <= self.n_pld,
            p.tx_start + p.n_info + p.n_parity + p.n_rep <= self.n_avbits,
    {
        proof {
            lemma_dimensions(self.l_ldpc as int, self.rate);
            lemma_parity_share(self.l_ldpc as int, self.rate);
            self.lemma_codeword(j as int);
            self.lemma_starts_ordered(0, j as int);
            self.lemma_starts_ordered(j as int, j + 1);
        }
        let m: usize = parity_len(self.l_ldpc, self.rate);
        let k: usize = self.l_ldpc - m;
        let (shrt, punc, rep) = self.per_codeword(j);
        let n_info: usize = k - shrt;
        let n_parity: usize = m - punc;
        proof {
            let n = self.n_cw as int;
            assert(0 <= n * k <= n * self.l_ldpc && 0 <= n * m <= n * self.l_ldpc)
                by (nonlinear_arith)
                requires
                    0 <= k <= self.l_ldpc,
                    0 <= m <= self.l_ldpc,
                    0 <= n,
            ;
        }
        let data_start: usize = start_of(self.n_shrt, self.n_cw, j, k);
        let parity_start: usize = start_of(self.n_punc, self.n_cw, j, m);
        let rep_start: usize = dealt_before(self.n_rep, self.n_cw, j);
        proof {
            assert(self.n_rep <= self.n_avbits);
            lemma_dealt_bound(self.n_rep as int, self.n_cw as int, j as int);
        }
        CodewordPlan {
            data_start,
            tx_start: data_start + parity_start + rep_start,
            n_info,
            n_parity,
            n_rep: rep,
        }
    }

    /// Encode `n_pld` scrambled data bits into `n_avbits` coded bits
    /// (codewords concatenated, i0 first) [19.3.11.7.5 steps c-g]: shorten
    /// (the last information bits are zero and are not sent), puncture the
    /// last parity bits, repeat from i0 onward, wrapping if necessary.
    pub fn encode_data(&self, data: &[u8]) -> (out: Vec<u8>)
        requires
            self.wf(),
            data@.len() == self.n_pld,
        ensures
            out@ == self.coded(data@, self.n_cw as int),
            out@.len() == self.n_avbits,
    {
        let code: Code = Code::get(self.l_ldpc, self.rate);
        let k: usize = code.k;
        let mut out: Vec<u8> = Vec::with_capacity(self.n_avbits);
        for j in 0..self.n_cw
            invariant
                self.wf(),
                data@.len() == self.n_pld,
                code.wf(),
                code.n == self.l_ldpc,
                code.rate == self.rate,
                k == code.k,
                k == info_len(self.l_ldpc as int, self.rate),
                out@ == self.coded(data@, j as int),
        {
            let p: CodewordPlan = self.plan(j);
            proof {
                lemma_dimensions(self.l_ldpc as int, self.rate);
                self.lemma_codeword(j as int);
            }
            let mut info: Vec<u8> = Vec::with_capacity(k);
            for i in 0..k
                invariant
                    self.wf(),
                    0 <= j < self.n_cw,
                    data@.len() == self.n_pld,
                    p.data_start == self.data_start(j as int),
                    p.n_info == self.n_info(j as int),
                    p.n_info <= k,
                    p.data_start + p.n_info <= self.n_pld,
                    k == info_len(self.l_ldpc as int, self.rate),
                    info@ == self.info_block(data@, j as int).take(i as int),
            {
                if i < p.n_info {
                    info.push(data[p.data_start + i]);
                } else {
                    info.push(0);
                }
                proof {
                    assert(info@ =~= self.info_block(data@, j as int).take(i + 1));
                }
            }
            proof {
                assert(info@ =~= self.info_block(data@, j as int));
            }
            let cw: Vec<u8> = code.encode(info.as_slice());
            let n_tx: usize = p.n_info + p.n_parity + p.n_rep;
            let ghost before = out@;
            let ghost block = self.tx_block(data@, j as int);
            proof {
                assert(out@ =~= before + block.take(0));
            }
            for t in 0..n_tx
                invariant
                    self.wf(),
                    0 <= j < self.n_cw,
                    p.n_info == self.n_info(j as int),
                    p.n_parity == self.n_parity(j as int),
                    p.n_rep == self.rep(j as int),
                    p.n_info <= k,
                    n_tx == p.n_info + p.n_parity + p.n_rep,
                    k == info_len(self.l_ldpc as int, self.rate),
                    k + p.n_parity <= self.l_ldpc,
                    p.n_rep > 0 ==> p.n_info + p.n_parity > 0,
                    cw@ == codeword(
                        self.l_ldpc as int,
                        self.rate,
                        self.info_block(data@, j as int),
                    ),
                    cw@.len() == self.l_ldpc,
                    block == self.tx_block(data@, j as int),
                    block.len() == n_tx,
                    out@ == before + block.take(t as int),
            {
                let src: usize = p.source(k, t);
                out.push(cw[src]);
                proof {
                    assert(out@ =~= before + block.take(t + 1));
                }
            }
            proof {
                assert(block.take(n_tx as int) =~= block);
            }
        }
        proof {
            self.lemma_codeword(0);
            self.lemma_coded_len(data@, self.n_cw as int);
        }
        out
    }

    proof fn lemma_coded_len(&self, data: Seq<u8>, j: int)
        requires
            self.wf(),
            0 <= j <= self.n_cw,
        ensures
            self.coded(data, j).len() == self.tx_start(j),
        decreases j,
    {
        if j == 0 {
            self.lemma_codeword(0);
        } else {
            self.lemma_codeword(j - 1);
            self.lemma_coded_len(data, j - 1);
        }
    }

    proof fn lemma_coded_block(&self, data: Seq<u8>, upto: int, j: int, t: int)
        requires
            self.wf(),
            0 <= j < upto <= self.n_cw,
            0 <= t < self.spec_tx_len(j),
        ensures
            0 <= self.tx_start(j) + t < self.coded(data, upto).len(),
            self.coded(data, upto)[self.tx_start(j) + t] == self.tx_block(data, j)[t],
        decreases upto,
    {
        self.lemma_coded_len(data, upto);
        self.lemma_coded_len(data, upto - 1);
        self.lemma_codeword(j);
        self.lemma_starts_ordered(0, j);
        self.lemma_starts_ordered(j + 1, upto);
        if j < upto - 1 {
            self.lemma_coded_block(data, upto - 1, j, t);
        }
    }

    /// Every coded bit is the bit of its codeword that [`CodewordPlan`] names.
    pub proof fn lemma_coded_bit(&self, data: Seq<u8>, j: int, t: int)
        requires
            self.wf(),
            data.len() == self.n_pld,
            0 <= j < self.n_cw,
            0 <= t < self.spec_tx_len(j),
        ensures
            self.coded(data, self.n_cw as int)[self.tx_start(j) + t] == codeword(
                self.l_ldpc as int,
                self.rate,
                self.info_block(data, j),
            )[self.source(j, t)],
    {
        self.lemma_coded_block(data, self.n_cw as int, j, t);
    }

    /// The bits that are sent of codeword `j`, and not repeated: the payload
    /// bits and the parity bits that are not punctured.
    pub open spec fn sent_once(&self, data: Seq<u8>, j: int) -> Seq<u8> {
        let k = info_len(self.l_ldpc as int, self.rate);
        let cw = codeword(self.l_ldpc as int, self.rate, self.info_block(data, j));
        cw.take(k - self.shrt(j)) + cw.subrange(k, self.l_ldpc - self.punc(j))
    }

    /// What is sent of each codeword, segment by segment: the codeword encodes
    /// the next payload bits, in order, and zeros for the shortened ones; its
    /// first bits without the shortened ones are sent, then its parity without
    /// the punctured last bits, then these again from the start, around and
    /// around, as many as are repeated.
    pub proof fn lemma_segments(&self, data: Seq<u8>, j: int)
        requires
            self.wf(),
            data.len() == self.n_pld,
            0 <= j < self.n_cw,
        ensures
            ({
                let once = self.sent_once(data, j);
                let k = info_len(self.l_ldpc as int, self.rate);
                &&& self.data_start(0) == 0
                &&& self.data_start(j + 1) == self.data_start(j) + (k - self.shrt(j))
                &&& self.data_start(self.n_cw as int) == data.len()
                &&& 0 <= self.data_start(j) <= self.data_start(j + 1) <= data.len()
                &&& self.info_block(data, j) == data.subrange(
                    self.data_start(j),
                    self.data_start(j + 1),
                ) + Seq::new(self.shrt(j) as nat, |i: int| 0u8)
                &&& self.tx_block(data, j) == once + Seq::new(
                    self.rep(j) as nat,
                    |i: int| once[i % once.len() as int],
                )
                &&& self.coded(data, j + 1) == self.coded(data, j) + self.tx_block(data, j)
                &&& self.coded(data, self.n_cw as int).len() == self.n_avbits
            }),
    {
        self.lemma_codeword(j);
        self.lemma_starts_ordered(0, j);
        self.lemma_starts_ordered(j, j + 1);
        self.lemma_coded_len(data, self.n_cw as int);
        lemma_dimensions(self.l_ldpc as int, self.rate);
        let k = info_len(self.l_ldpc as int, self.rate);
        let zeros = Seq::new(self.shrt(j) as nat, |i: int| 0u8);
        assert(self.info_block(data, j) =~= data.subrange(
            self.data_start(j),
            self.data_start(j + 1),
        ) + zeros);
        let once = self.sent_once(data, j);
        let cw = codeword(self.l_ldpc as int, self.rate, self.info_block(data, j));
        let base = self.n_info(j) + self.n_parity(j);
        assert(cw.len() == self.l_ldpc);
        assert(once.len() == base);
        let again = Seq::new(self.rep(j) as nat, |i: int| once[i % once.len() as int]);
        assert forall|t: int| 0 <= t < self.spec_tx_len(j) implies #[trigger] self.tx_block(
            data,
            j,
        )[t] == (once + again)[t] by {
            if t < base {
                vstd::arithmetic::div_mod::lemma_small_mod(t as nat, base as nat);
            } else {
                vstd::arithmetic::div_mod::lemma_mod_sub_multiples_vanish(t, base);
                vstd::arithmetic::div_mod::lemma_mod_bound(t, base);
                assert((t - base) % base == t % base);
            }
        }
        assert(self.tx_block(data, j) =~= once + again);
    }

    /// The code is systematic: every payload bit stands unchanged among the
    /// coded bits, at the information part of its codeword.
    pub proof fn lemma_data_recoverable(&self, data: Seq<u8>, j: int, i: int)
        requires
            self.wf(),
            data.len() == self.n_pld,
            0 <= j < self.n_cw,
            0 <= i < self.n_info(j),
        ensures
            0 <= self.tx_start(j) + i < self.n_avbits,
            0 <= self.data_start(j) + i < self.n_pld,
            self.coded(data, self.n_cw as int)[self.tx_start(j) + i] == data[self.data_start(j) + i],
    {
        self.lemma_codeword(j);
        self.lemma_starts_ordered(0, j);
        self.lemma_starts_ordered(j, j + 1);
        self.lemma_starts_ordered(j + 1, self.n_cw as int);
        self.lemma_coded_block(data, self.n_cw as int, j, i);
        let base = self.n_info(j) + self.n_parity(j);
        vstd::arithmetic::div_mod::lemma_small_mod(i as nat, base as nat);
        lemma_dimensions(self.l_ldpc as int, self.rate);
    }

    /// Every payload bit belongs to exactly one codeword: the codewords'
    /// information parts tile the payload.
    pub proof fn lemma_data_covered(&self, d: int) -> (j: int)
        requires
            self.wf(),
            0 <= d < self.n_pld,
        ensures
            0 <= j < self.n_cw,
            self.data_start(j) <= d < self.data_start(j) + self.n_info(j),
    {
        self.lemma_codeword(0);
        self.lemma_data_covered_from(d, 0)
    }

    proof fn lemma_data_covered_from(&self, d: int, from: int) -> (j: int)
        requires
            self.wf(),
            0 <= from < self.n_cw,
            self.data_start(from) <= d < self.n_pld,
        ensures
            0 <= j < self.n_cw,
            self.data_start(j) <= d < self.data_start(j) + self.n_info(j),
        decreases self.n_cw - from,
    {
        self.lemma_codeword(from);
        if d < self.data_start(from) + self.n_info(from) {
            from
        } else {
            self.lemma_data_covered_from(d, from + 1)
        }
    }

    /// What holds of every codeword of well-formed parameters.
    proof fn lemma_codeword(&self, j: int)
        requires
            self.wf(),
            0 <= j < self.n_cw,
        ensures
            0 <= self.shrt(j) <= info_len(self.l_ldpc as int, self.rate),
            0 <= self.punc(j) <= self.l_ldpc - info_len(self.l_ldpc as int, self.rate),
            0 <= self.rep(j),
            0 <= self.n_info(j),
            0 <= self.n_parity(j),
            self.rep(j) > 0 ==> self.n_info(j) + self.n_parity(j) > 0,
            self.data_start(0) == 0,
            self.tx_start(0) == 0,
            self.data_start(j + 1) == self.data_start(j) + self.n_info(j),
            self.tx_start(j + 1) == self.tx_start(j) + self.spec_tx_len(j),
            self.data_start(self.n_cw as int) == self.n_pld,
            self.tx_start(self.n_cw as int) == self.n_avbits,
    {
        let k = info_len(self.l_ldpc as int, self.rate);
        let m = self.l_ldpc - k;
        let n = self.n_cw as int;
        lemma_dimensions(self.l_ldpc as int, self.rate);
        lemma_share(self.n_shrt as int, n, j);
        lemma_share(self.n_punc as int, n, j);
        lemma_share(self.n_rep as int, n, j);
        lemma_share(self.n_shrt as int, n, 0);
        lemma_share(self.n_punc as int, n, 0);
        lemma_share(self.n_rep as int, n, 0);
        assert(0 <= self.n_shrt as int <= n * k);
        lemma_share_bound(self.n_shrt as int, n, j, k);
        lemma_share_bound(self.n_punc as int, n, j, m);
        assert((j + 1) * k == j * k + k) by (nonlinear_arith);
        assert((j + 1) * m == j * m + m) by (nonlinear_arith);
        assert(0 * k == 0 && 0 * m == 0);
        if self.n_rep == 0 {
            assert(0int / n == 0) by (nonlinear_arith)
                requires
                    n > 0,
            ;
            assert(0int % n == 0) by (nonlinear_arith)
                requires
                    n > 0,
            ;
            assert(self.rep(j) == 0);
        } else {
            assert(0int / n == 0 && 0int % n == 0) by (nonlinear_arith)
                requires
                    n > 0,
            ;
            assert(self.punc(j) == 0);
        }
    }

    /// Starts do not decrease from codeword to codeword.
    proof fn lemma_starts_ordered(&self, a: int, b: int)
        requires
            self.wf(),
            0 <= a <= b <= self.n_cw,
        ensures
            0 <= self.data_start(a) <= self.data_start(b) <= self.n_pld,
            0 <= self.tx_start(a) <= self.tx_start(b) <= self.n_avbits,
        decreases b - a, self.n_cw - b, a,
    {
        self.lemma_codeword(0);
        if a < b {
            self.lemma_codeword(a);
            self.lemma_starts_ordered(a + 1, b);
            if a > 0 {
                self.lemma_start_nonneg(a);
            }
        } else {
            self.lemma_start_nonneg(a);
            self.lemma_start_bounded(a);
        }
    }

    proof fn lemma_start_nonneg(&self, a: int)
        requires
            self.wf(),
            0 <= a <= self.n_cw,
        ensures
            0 <= self.data_start(a),
            0 <= self.tx_start(a),
        decreases a,
    {
        self.lemma_codeword(0);
        if a > 0 {
            self.lemma_codeword(a - 1);
            self.lemma_start_nonneg(a - 1);
        }
    }

    proof fn lemma_start_bounded(&self, a: int)
        requires
            self.wf(),
            0 <= a <= self.n_cw,
        ensures
            self.data_start(a) <= self.n_pld,
            self.tx_start(a) <= self.n_avbits,
        decreases self.n_cw - a,
    {
        self.lemma_codeword(0);
        if a < self.n_cw {
            self.lemma_codeword(a);
            self.lemma_start_bounded(a + 1);
        }
    }
}

} // verus!
