//! The PPDU-level LDPC parameters in numbers: codeword count and length, the
//! extra symbol, and how shortening, puncturing and repetition are dealt out.

use crate::arith::{lemma_ceil_div, spec_ceil_div};
use crate::ldpc::info_len;
use crate::ldpc::ppdu::{codeword_choice, lemma_choice_bound, lemma_parity_share};
use crate::ldpc::ppdu::{needs_extra_symbol, parity_share, share, PpduParams};
use crate::params::CodeRate;
use vstd::prelude::*;

verus! {

/// Codeword count and length by the number of available bits and the payload
/// [Table 19-16]. Up to 648: one codeword, 1296 bits long where N_pld + 912 (1 - R)
/// fits, else 648. Up to 1296: one, 1944 where N_pld + 1464 (1 - R) fits, else 1296.
/// Up to 1944: one of 1944. Up to 2592: two, 1944 where N_pld + 2916 (1 - R) fits,
/// else 1296. Beyond: the least number of codewords of 1944 bits that hold the
/// payload.
pub proof fn lemma_codeword_table(n_sym_init: int, n_dbps: int, n_cbps: int, rate: CodeRate)
    requires
        0 <= n_sym_init,
        0 <= n_dbps,
        n_sym_init * n_dbps >= 0,
        n_sym_init * n_cbps > 2592 ==> spec_ceil_div(n_sym_init * n_dbps, info_len(1944, rate)) * 1944
            <= usize::MAX,
    ensures
        ({
            let p = PpduParams::spec_new(n_sym_init, n_dbps, n_cbps, rate);
            let n_pld = n_sym_init * n_dbps;
            let n_avbits = n_sym_init * n_cbps;
            let spare_912: int = match rate {
                CodeRate::R1_2 => 456,
                CodeRate::R2_3 => 304,
                CodeRate::R3_4 => 228,
                CodeRate::R5_6 => 152,
            };
            let spare_1464: int = match rate {
                CodeRate::R1_2 => 732,
                CodeRate::R2_3 => 488,
                CodeRate::R3_4 => 366,
                CodeRate::R5_6 => 244,
            };
            let spare_2916: int = match rate {
                CodeRate::R1_2 => 1458,
                CodeRate::R2_3 => 972,
                CodeRate::R3_4 => 729,
                CodeRate::R5_6 => 486,
            };
            &&& n_avbits <= 648 ==> p.n_cw == 1 && p.l_ldpc == if n_avbits >= n_pld + spare_912 {
                1296int
            } else {
                648
            }
            &&& 648 < n_avbits <= 1296 ==> p.n_cw == 1 && p.l_ldpc == if n_avbits >= n_pld
                + spare_1464 {
                1944int
            } else {
                1296
            }
            &&& 1296 < n_avbits <= 1944 ==> p.n_cw == 1 && p.l_ldpc == 1944
            &&& 1944 < n_avbits <= 2592 ==> p.n_cw == 2 && p.l_ldpc == if n_avbits >= n_pld
                + spare_2916 {
                1944int
            } else {
                1296
            }
            &&& 2592 < n_avbits ==> p.l_ldpc == 1944 && match rate {
                CodeRate::R1_2 => 972 * (p.n_cw - 1) < n_pld <= 972 * p.n_cw,
                CodeRate::R2_3 => 1296 * (p.n_cw - 1) < n_pld <= 1296 * p.n_cw,
                CodeRate::R3_4 => 1458 * (p.n_cw - 1) < n_pld <= 1458 * p.n_cw,
                CodeRate::R5_6 => 1620 * (p.n_cw - 1) < n_pld <= 1620 * p.n_cw,
            }
        }),
{
    reveal(codeword_choice);
    reveal(parity_share);
    let n_pld = n_sym_init * n_dbps;
    let n_avbits = n_sym_init * n_cbps;
    lemma_choice_bound(n_pld, n_avbits, rate);
    if n_avbits > 2592 {
        let (n_cw, l) = codeword_choice(n_pld, n_avbits, rate);
        assert(n_cw <= n_cw * l) by (nonlinear_arith)
            requires
                0 <= n_cw,
                l == 1944,
        ;
        match rate {
            CodeRate::R1_2 => {
                assert(n_cw == (n_pld + 972 - 1) / 972);
                lemma_ceil_div(n_pld, 972);
            },
            CodeRate::R2_3 => {
                assert(n_cw == (n_pld + 1296 - 1) / 1296);
                lemma_ceil_div(n_pld, 1296);
            },
            CodeRate::R3_4 => {
                assert(n_cw == (n_pld + 1458 - 1) / 1458);
                lemma_ceil_div(n_pld, 1458);
            },
            CodeRate::R5_6 => {
                assert(n_cw == (n_pld + 1620 - 1) / 1620);
                lemma_ceil_div(n_pld, 1620);
            },
        }
        assert(PpduParams::spec_new(n_sym_init, n_dbps, n_cbps, rate).n_cw == n_cw);
    } else {
        let p = PpduParams::spec_new(n_sym_init, n_dbps, n_cbps, rate);
        let (n_cw, l) = codeword_choice(n_pld, n_avbits, rate);
        assert(p.n_cw == n_cw && p.l_ldpc == l);
    }
}

/// Where the payload has exactly the code rate, as for every MCS, the available
/// bits alone decide: one codeword of the least length that holds them, up to
/// 1944, and two of 1296 up to 2592.
pub proof fn lemma_codewords_at_rate(n_sym_init: int, n_dbps: int, n_cbps: int, rate: CodeRate)
    requires
        0 <= n_sym_init,
        0 <= n_dbps,
        0 < n_sym_init * n_cbps <= 2592,
        match rate {
            CodeRate::R1_2 => 2 * n_dbps == n_cbps,
            CodeRate::R2_3 => 3 * n_dbps == 2 * n_cbps,
            CodeRate::R3_4 => 4 * n_dbps == 3 * n_cbps,
            CodeRate::R5_6 => 6 * n_dbps == 5 * n_cbps,
        },
    ensures
        ({
            let p = PpduParams::spec_new(n_sym_init, n_dbps, n_cbps, rate);
            let n_avbits = n_sym_init * n_cbps;
            &&& n_avbits <= 648 ==> p.n_cw == 1 && p.l_ldpc == 648
            &&& 648 < n_avbits <= 1296 ==> p.n_cw == 1 && p.l_ldpc == 1296
            &&& 1296 < n_avbits <= 1944 ==> p.n_cw == 1 && p.l_ldpc == 1944
            &&& 1944 < n_avbits ==> p.n_cw == 2 && p.l_ldpc == 1296
        }),
{
    let n_pld = n_sym_init * n_dbps;
    let n_avbits = n_sym_init * n_cbps;
    assert(n_pld >= 0) by (nonlinear_arith)
        requires
            n_pld == n_sym_init * n_dbps,
            0 <= n_sym_init,
            0 <= n_dbps,
    ;
    lemma_codeword_table(n_sym_init, n_dbps, n_cbps, rate);
    match rate {
        CodeRate::R1_2 => {
            assert(2 * n_pld == n_avbits) by (nonlinear_arith)
                requires
                    n_pld == n_sym_init * n_dbps,
                    n_avbits == n_sym_init * n_cbps,
                    2 * n_dbps == n_cbps,
            ;
        },
        CodeRate::R2_3 => {
            assert(3 * n_pld == 2 * n_avbits) by (nonlinear_arith)
                requires
                    n_pld == n_sym_init * n_dbps,
                    n_avbits == n_sym_init * n_cbps,
                    3 * n_dbps == 2 * n_cbps,
            ;
        },
        CodeRate::R3_4 => {
            assert(4 * n_pld == 3 * n_avbits) by (nonlinear_arith)
                requires
                    n_pld == n_sym_init * n_dbps,
                    n_avbits == n_sym_init * n_cbps,
                    4 * n_dbps == 3 * n_cbps,
            ;
        },
        CodeRate::R5_6 => {
            assert(6 * n_pld == 5 * n_avbits) by (nonlinear_arith)
                requires
                    n_pld == n_sym_init * n_dbps,
                    n_avbits == n_sym_init * n_cbps,
                    6 * n_dbps == 5 * n_cbps,
            ;
        },
    }
}

/// How a payload is fitted to the available bits. Of the codewords' information
/// bits those that the payload leaves are shortened. What then exceeds the
/// available bits is punctured; where that is more than 3/10 of the parity, or
/// more than 1/10 while shortening is less than 12/10 R/(1 - R) of it, one more
/// symbol is added first. What the codewords leave of the available bits is
/// filled by repetition.
pub proof fn lemma_fitting(n_sym_init: int, n_dbps: int, n_cbps: int, rate: CodeRate)
    requires
        0 <= n_sym_init,
        0 <= n_dbps,
        0 < n_cbps,
        0 <= n_sym_init * n_dbps <= usize::MAX,
        0 <= n_sym_init * n_cbps,
        n_sym_init * n_cbps + n_cbps <= usize::MAX,
        n_sym_init < usize::MAX,
        n_sym_init * n_cbps > 2592 ==> spec_ceil_div(n_sym_init * n_dbps, info_len(1944, rate)) * 1944
            <= usize::MAX,
    ensures
        ({
            let p = PpduParams::spec_new(n_sym_init, n_dbps, n_cbps, rate);
            let n_pld = n_sym_init * n_dbps;
            let n_init = n_sym_init * n_cbps;
            let l = p.l_ldpc as int;
            let m: int = match rate {
                CodeRate::R1_2 => l / 2,
                CodeRate::R2_3 => l / 3,
                CodeRate::R3_4 => l / 4,
                CodeRate::R5_6 => l / 6,
            };
            let info = p.n_cw * (l - m);
            let parity = p.n_cw * m;
            let over = p.n_cw * l - n_init - p.n_shrt;
            &&& p.rate == rate
            &&& p.n_pld == n_pld
            &&& info >= n_pld ==> p.n_shrt == info - n_pld
            &&& info < n_pld ==> p.n_shrt == 0
            &&& p.extra_symbol <==> over > 0 && (10 * over > 3 * parity || (10 * over > parity
                && match rate {
                CodeRate::R1_2 => 10 * p.n_shrt < 12 * over,
                CodeRate::R2_3 => 10 * p.n_shrt < 24 * over,
                CodeRate::R3_4 => 10 * p.n_shrt < 36 * over,
                CodeRate::R5_6 => 10 * p.n_shrt < 60 * over,
            }))
            &&& p.extra_symbol ==> p.n_sym == n_sym_init + 1 && p.n_avbits == n_init + n_cbps
            &&& !p.extra_symbol ==> p.n_sym == n_sym_init && p.n_avbits == n_init
            &&& p.n_punc == if p.n_cw * l > p.n_avbits + p.n_shrt {
                p.n_cw * l - p.n_avbits - p.n_shrt
            } else {
                0
            }
            &&& p.n_rep == if p.n_avbits > parity + n_pld { p.n_avbits - parity - n_pld } else { 0 }
        }),
{
    reveal(needs_extra_symbol);
    let n_pld = n_sym_init * n_dbps;
    let n_init = n_sym_init * n_cbps;
    let p = PpduParams::spec_new(n_sym_init, n_dbps, n_cbps, rate);
    let (n_cw, l) = codeword_choice(n_pld, n_init, rate);
    lemma_choice_bound(n_pld, n_init, rate);
    assert(l == 648 || l == 1296 || l == 1944) by {
        reveal(codeword_choice);
    }
    let m = parity_share(l, rate);
    lemma_parity_share(l, rate);
    assert(n_cw * (l - m) == n_cw * l - n_cw * m && 0 <= n_cw * m <= n_cw * l && n_cw <= n_cw * l)
        by (nonlinear_arith)
        requires
            0 <= m <= l,
            1 <= l,
            0 <= n_cw,
    ;
    reveal(parity_share);
    let over = n_cw * l - n_init - p.n_shrt;
    match rate {
        CodeRate::R1_2 => {
            assert(over * 1 == over && 0 * 1 == 0);
        },
        CodeRate::R2_3 => {
            assert(over * 2 == 2 * over);
        },
        CodeRate::R3_4 => {
            assert(over * 3 == 3 * over);
        },
        CodeRate::R5_6 => {
            assert(over * 5 == 5 * over);
        },
    }
}

/// Shortened, punctured and repeated bits are dealt to the codewords in turn,
/// one by one and the first codeword first: codeword `j` gets the bits `j`,
/// `j + n_cw`, `j + 2 n_cw` and so on of each kind.
pub proof fn lemma_dealing(p: PpduParams, j: int)
    requires
        0 <= j < p.n_cw,
    ensures
        p.n_cw * (p.shrt(j) - 1) + j < p.n_shrt <= p.n_cw * p.shrt(j) + j,
        p.n_cw * (p.punc(j) - 1) + j < p.n_punc <= p.n_cw * p.punc(j) + j,
        p.n_cw * (p.rep(j) - 1) + j < p.n_rep <= p.n_cw * p.rep(j) + j,
{
    lemma_share_in_turn(p.n_shrt as int, p.n_cw as int, j);
    lemma_share_in_turn(p.n_punc as int, p.n_cw as int, j);
    lemma_share_in_turn(p.n_rep as int, p.n_cw as int, j);
}

proof fn lemma_share_in_turn(total: int, n: int, j: int)
    requires
        0 <= total,
        0 <= j < n,
    ensures
        n * (share(total, n, j) - 1) + j < total <= n * share(total, n, j) + j,
{
    let q = total / n;
    let r = total % n;
    assert(total == n * q + r && 0 <= r < n) by (nonlinear_arith)
        requires
            q == total / n,
            r == total % n,
            0 < n,
    ;
    assert(n * (q + 1) == n * q + n) by (nonlinear_arith);
    assert(n * (q - 1) == n * q - n) by (nonlinear_arith);
}

/// What each codeword sends: its payload bits are what shortening leaves of its
/// information bits, its parity bits what puncturing leaves of the rest, and it
/// sends as many again as are repeated. The information bits are 1/2, 2/3, 3/4
/// or 5/6 of the codeword.
pub proof fn lemma_codeword_parts(p: PpduParams, j: int)
    requires
        p.l_ldpc == 648 || p.l_ldpc == 1296 || p.l_ldpc == 1944,
    ensures
        ({
            let k: int = match p.rate {
                CodeRate::R1_2 => p.l_ldpc as int / 2,
                CodeRate::R2_3 => 2 * p.l_ldpc as int / 3,
                CodeRate::R3_4 => 3 * p.l_ldpc as int / 4,
                CodeRate::R5_6 => 5 * p.l_ldpc as int / 6,
            };
            &&& info_len(p.l_ldpc as int, p.rate) == k
            &&& p.n_info(j) == k - p.shrt(j)
            &&& p.n_parity(j) == p.l_ldpc - k - p.punc(j)
            &&& p.spec_tx_len(j) == p.n_info(j) + p.n_parity(j) + p.rep(j)
        }),
{
    lemma_parity_share(p.l_ldpc as int, p.rate);
    reveal(parity_share);
}

} // verus!
