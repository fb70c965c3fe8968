//! LDPC coding for S1G [23.3.9.4.4, 19.3.11.7; matrices from Annex F].
//!
//! The codes are the 802.11n/ac quasi-cyclic LDPC codes: three block lengths
//! (648 / 1296 / 1944) x four rates (1/2, 2/3, 3/4, 5/6), each parity-check
//! matrix built from Z x Z cyclic-permutation blocks (Z = 27 / 54 / 81). The
//! parity part has the dual-diagonal structure that allows linear-time
//! systematic encoding.
//!
//! The PPDU-level process (codeword length/count selection, shortening,
//! puncturing, repetition: 19.3.11.7.5 with the S1G N_pld/N_avbits
//! substitutions of 23.3.9.4.4) lives in [`PpduParams`]; `encode_data` turns
//! N_pld scrambled data bits into N_avbits coded bits, and [`CodewordPlan`]
//! says where each received bit belongs. No BCC interleaver is used for LDPC;
//! the constellation points are LDPC tone-mapped instead
//! (`ofdm::ldpc_tone_map`).
//!
//! Support for LDPC is optional in the standard [4.3.14.1].

use crate::ldpc::tables::{block_rows, is_block_length, lemma_column_used, lemma_prototype};
use crate::ldpc::tables::{prototype_entry, shift};
use crate::params::CodeRate;
use crate::scrambler::lemma_xor;
use vstd::prelude::*;

pub use crate::ldpc::ppdu::{CodewordPlan, PpduParams};

pub mod ppdu;
pub mod tables;

verus! {

/// Codeword block lengths [Table 19-15].
pub const BLOCK_LENGTHS: [usize; 3] = [648, 1296, 1944];

/// Block columns that carry information bits.
pub open spec fn info_cols(rate: CodeRate) -> int {
    24 - block_rows(rate)
}

/// Information bits per codeword.
pub open spec fn info_len(n: int, rate: CodeRate) -> int {
    info_cols(rate) * (n / 24)
}

/// What block column `c` contributes to check `r` of block row `i`: a null
/// block nothing, the permutation P_s the bit at offset `(r + s) mod z`.
pub open spec fn term(n: int, rate: CodeRate, bits: Seq<u8>, i: int, r: int, c: int) -> u8 {
    let z = n / 24;
    let s = shift(n, rate, i, c);
    if s < 0 {
        0
    } else {
        bits[c * z + (r + s) % z]
    }
}

/// The sum (XOR) of check `r` of block row `i` over the first `upto` block
/// columns.
pub open spec fn row_sum(n: int, rate: CodeRate, bits: Seq<u8>, i: int, r: int, upto: int) -> u8
    decreases upto,
{
    if upto <= 0 {
        0
    } else {
        row_sum(n, rate, bits, i, r, upto - 1) ^ term(n, rate, bits, i, r, upto - 1)
    }
}

/// Every parity-check equation holds: H * bits = 0.
pub open spec fn satisfies_checks(n: int, rate: CodeRate, bits: Seq<u8>) -> bool {
    forall|i: int, r: int|
        0 <= i < block_rows(rate) && 0 <= r < n / 24 ==> #[trigger] row_sum(n, rate, bits, i, r, 24)
            == 0
}

/// Sum over the first `rows` block rows of the information part of check `r`.
pub open spec fn info_sum(n: int, rate: CodeRate, info: Seq<u8>, rows: int, r: int) -> u8
    decreases rows,
{
    if rows <= 0 {
        0
    } else {
        info_sum(n, rate, info, rows - 1, r) ^ row_sum(n, rate, info, rows - 1, r, info_cols(rate))
    }
}

/// Bit `r` of parity block `j`.
pub open spec fn parity_bit(n: int, rate: CodeRate, info: Seq<u8>, j: int, r: int) -> u8 {
    let rows = block_rows(rate);
    let z = n / 24;
    if j == 0 {
        info_sum(n, rate, info, rows, r)
    } else {
        (info_sum(n, rate, info, j, r) ^ info_sum(n, rate, info, rows, (r + 1) % z)) ^ if rows / 2
            < j {
            info_sum(n, rate, info, rows, r)
        } else {
            0
        }
    }
}

/// The codeword of some information bits: the bits themselves, then the
/// parity blocks.
pub open spec fn codeword(n: int, rate: CodeRate, info: Seq<u8>) -> Seq<u8> {
    let z = n / 24;
    let k = info_len(n, rate);
    Seq::new(
        n as nat,
        |v: int|
            if v < k {
                info[v]
            } else {
                parity_bit(n, rate, info, (v - k) / z, (v - k) % z)
            },
    )
}

/// Bit `r` of parity block `j` within a whole codeword.
spec fn par(n: int, rate: CodeRate, bits: Seq<u8>, j: int, r: int) -> u8 {
    bits[(info_cols(rate) + j) * (n / 24) + r]
}

/// Column sums only read the blocks that they cover.
proof fn lemma_row_sum_prefix(
    n: int,
    rate: CodeRate,
    a: Seq<u8>,
    b: Seq<u8>,
    i: int,
    r: int,
    upto: int,
)
    requires
        is_block_length(n),
        0 <= i < block_rows(rate),
        0 <= r < n / 24,
        0 <= upto <= 24,
        forall|v: int| 0 <= v < upto * (n / 24) ==> a[v] == b[v],
    ensures
        row_sum(n, rate, a, i, r, upto) == row_sum(n, rate, b, i, r, upto),
    decreases upto,
{
    if upto > 0 {
        let z = n / 24;
        let c = upto - 1;
        assert(c * z + z == upto * z) by (nonlinear_arith)
            requires
                c == upto - 1,
        ;
        lemma_row_sum_prefix(n, rate, a, b, i, r, c);
        let s = shift(n, rate, i, c);
        if s >= 0 {
            lemma_offset(n, c, r + s);
        }
    }
}

/// A block-relative position lies inside its block.
proof fn lemma_offset(n: int, c: int, t: int)
    requires
        is_block_length(n),
        0 <= c < 24,
    ensures
        0 <= t % (n / 24) < n / 24,
        0 <= c * (n / 24),
        0 <= c * (n / 24) + t % (n / 24) < (c + 1) * (n / 24),
        (c + 1) * (n / 24) <= n,
        c * (n / 24) + n / 24 == (c + 1) * (n / 24),
{
    let z = n / 24;
    assert(z == 27 || z == 54 || z == 81);
    assert(0 <= c * z && c * z + z == (c + 1) * z && (c + 1) * z <= 24 * z) by (nonlinear_arith)
        requires
            0 <= c < 24,
            z >= 27,
    ;
}

/// The dual-diagonal part of a row: beyond the first parity column only the
/// diagonal block and the one right of it contribute.
proof fn lemma_row_tail(n: int, rate: CodeRate, bits: Seq<u8>, i: int, r: int, upto: int)
    requires
        is_block_length(n),
        0 <= i < block_rows(rate),
        0 <= r < n / 24,
        info_cols(rate) < upto <= 24,
    ensures
        row_sum(n, rate, bits, i, r, upto) == (row_sum(n, rate, bits, i, r, info_cols(rate) + 1)
            ^ (if i >= 1 && info_cols(rate) + i < upto {
            par(n, rate, bits, i, r)
        } else {
            0
        })) ^ (if info_cols(rate) + i + 1 < upto {
            par(n, rate, bits, i + 1, r)
        } else {
            0
        }),
    decreases upto,
{
    let kb = info_cols(rate);
    let base = row_sum(n, rate, bits, i, r, kb + 1);
    let d = par(n, rate, bits, i, r);
    let e = par(n, rate, bits, i + 1, r);
    lemma_xor(base, 0, 0);
    lemma_xor(base, d, 0);
    lemma_xor(base ^ d, 0, 0);
    if upto > kb + 1 {
        let c = upto - 1;
        lemma_row_tail(n, rate, bits, i, r, c);
        lemma_prototype(n, rate, i, c);
        let z = n / 24;
        assert(r % z == r) by {
            vstd::arithmetic::div_mod::lemma_small_mod(r as nat, z as nat);
        }
        let t = term(n, rate, bits, i, r, c);
        lemma_xor(row_sum(n, rate, bits, i, r, c), t, 0);
        lemma_xor(base ^ d, e, 0);
    }
}

/// For a block row above the last, its checks hold exactly when the next
/// parity block is the sum of everything left of it.
proof fn lemma_row_zero(n: int, rate: CodeRate, bits: Seq<u8>, i: int, r: int)
    requires
        is_block_length(n),
        0 <= i < block_rows(rate) - 1,
        0 <= r < n / 24,
    ensures
        row_sum(n, rate, bits, i, r, 24) == 0 <==> par(n, rate, bits, i + 1, r) == row_sum(
            n,
            rate,
            bits,
            i,
            r,
            info_cols(rate) + i + 1,
        ),
{
    let left = row_sum(n, rate, bits, i, r, info_cols(rate) + i + 1);
    let next = par(n, rate, bits, i + 1, r);
    lemma_row_tail(n, rate, bits, i, r, 24);
    lemma_row_tail(n, rate, bits, i, r, info_cols(rate) + i + 1);
    let base = row_sum(n, rate, bits, i, r, info_cols(rate) + 1);
    let diagonal = if i >= 1 {
        par(n, rate, bits, i, r)
    } else {
        0
    };
    lemma_xor(base ^ diagonal, 0, 0);
    assert(left ^ next == 0 <==> next == left) by (bit_vector);
}

/// The parity recurrence, solved.
proof fn lemma_chain(n: int, rate: CodeRate, bits: Seq<u8>, j: int, r: int)
    requires
        is_block_length(n),
        1 <= j < block_rows(rate),
        0 <= r < n / 24,
        forall|i: int|
            0 <= i < j ==> #[trigger] par(n, rate, bits, i + 1, r) == row_sum(
                n,
                rate,
                bits,
                i,
                r,
                info_cols(rate) + i + 1,
            ),
    ensures
        par(n, rate, bits, j, r) == (info_sum(n, rate, bits, j, r) ^ par(
            n,
            rate,
            bits,
            0,
            (r + 1) % (n / 24),
        )) ^ (if block_rows(rate) / 2 < j {
            par(n, rate, bits, 0, r)
        } else {
            0
        }),
    decreases j,
{
    let i = j - 1;
    let kb = info_cols(rate);
    let z = n / 24;
    let a = row_sum(n, rate, bits, i, r, kb);
    let p1 = par(n, rate, bits, 0, (r + 1) % z);
    let p0 = par(n, rate, bits, 0, r);
    let s = info_sum(n, rate, bits, i, r);
    lemma_prototype(n, rate, i, kb);
    assert(r % z == r) by {
        vstd::arithmetic::div_mod::lemma_small_mod(r as nat, z as nat);
    }
    assert(par(n, rate, bits, i + 1, r) == row_sum(n, rate, bits, i, r, kb + i + 1));
    lemma_row_tail(n, rate, bits, i, r, kb + i + 1);
    assert(row_sum(n, rate, bits, i, r, kb + 1) == a ^ term(n, rate, bits, i, r, kb));
    assert(info_sum(n, rate, bits, j, r) == s ^ a);
    lemma_chain_step(a, s, p0, p1);
    if i > 0 {
        lemma_chain(n, rate, bits, i, r);
    }
}

/// One step of the parity recurrence, as XOR identities.
proof fn lemma_chain_step(a: u8, s: u8, p0: u8, p1: u8)
    ensures
        ((a ^ p1) ^ 0) ^ 0 == ((0 ^ a) ^ p1) ^ 0,
        ((a ^ 0) ^ ((s ^ p1) ^ 0)) ^ 0 == ((s ^ a) ^ p1) ^ 0,
        ((a ^ p0) ^ ((s ^ p1) ^ 0)) ^ 0 == ((s ^ a) ^ p1) ^ p0,
        ((a ^ 0) ^ ((s ^ p1) ^ p0)) ^ 0 == ((s ^ a) ^ p1) ^ p0,
{
    assert((((a ^ p1) ^ 0) ^ 0 == ((0 ^ a) ^ p1) ^ 0) && (((a ^ 0) ^ ((s ^ p1) ^ 0)) ^ 0 == ((s ^ a)
        ^ p1) ^ 0) && (((a ^ p0) ^ ((s ^ p1) ^ 0)) ^ 0 == ((s ^ a) ^ p1) ^ p0) && (((a ^ 0) ^ ((s
        ^ p1) ^ p0)) ^ 0 == ((s ^ a) ^ p1) ^ p0)) by (bit_vector);
}

/// With the recurrence in force, the last block row adds up to the sum of all
/// information parts and the first parity block.
proof fn lemma_last_row(n: int, rate: CodeRate, bits: Seq<u8>, r: int)
    requires
        is_block_length(n),
        0 <= r < n / 24,
        forall|i: int|
            0 <= i < block_rows(rate) - 1 ==> #[trigger] par(n, rate, bits, i + 1, r) == row_sum(
                n,
                rate,
                bits,
                i,
                r,
                info_cols(rate) + i + 1,
            ),
    ensures
        row_sum(n, rate, bits, block_rows(rate) - 1, r, 24) == info_sum(
            n,
            rate,
            bits,
            block_rows(rate),
            r,
        ) ^ par(n, rate, bits, 0, r),
{
    let rows = block_rows(rate);
    let i = rows - 1;
    let kb = info_cols(rate);
    let z = n / 24;
    let a = row_sum(n, rate, bits, i, r, kb);
    let p1 = par(n, rate, bits, 0, (r + 1) % z);
    let p0 = par(n, rate, bits, 0, r);
    let s = info_sum(n, rate, bits, i, r);
    lemma_prototype(n, rate, i, kb);
    lemma_chain(n, rate, bits, i, r);
    lemma_row_tail(n, rate, bits, i, r, 24);
    assert(row_sum(n, rate, bits, i, r, kb + 1) == a ^ term(n, rate, bits, i, r, kb));
    assert(info_sum(n, rate, bits, rows, r) == s ^ a);
    assert(((a ^ p1) ^ ((s ^ p1) ^ p0)) ^ 0 == (s ^ a) ^ p0) by (bit_vector);
}

/// Information sums only read the information bits.
proof fn lemma_info_sum_prefix(
    n: int,
    rate: CodeRate,
    a: Seq<u8>,
    b: Seq<u8>,
    rows: int,
    r: int,
)
    requires
        is_block_length(n),
        0 <= rows <= block_rows(rate),
        0 <= r < n / 24,
        forall|v: int| 0 <= v < info_len(n, rate) ==> a[v] == b[v],
    ensures
        info_sum(n, rate, a, rows, r) == info_sum(n, rate, b, rows, r),
    decreases rows,
{
    if rows > 0 {
        lemma_info_sum_prefix(n, rate, a, b, rows - 1, r);
        lemma_row_sum_prefix(n, rate, a, b, rows - 1, r, info_cols(rate));
    }
}

/// The recurrence that a systematic encoder follows.
spec fn follows_recurrence(n: int, rate: CodeRate, bits: Seq<u8>) -> bool {
    &&& forall|r: int|
        0 <= r < n / 24 ==> #[trigger] par(n, rate, bits, 0, r) == info_sum(
            n,
            rate,
            bits,
            block_rows(rate),
            r,
        )
    &&& forall|i: int, r: int|
        0 <= i < block_rows(rate) - 1 && 0 <= r < n / 24 ==> #[trigger] par(
            n,
            rate,
            bits,
            i + 1,
            r,
        ) == row_sum(n, rate, bits, i, r, info_cols(rate) + i + 1)
}

/// A block position is the codeword index of a parity bit, and back.
proof fn lemma_parity_index(n: int, rate: CodeRate, v: int)
    requires
        is_block_length(n),
        info_len(n, rate) <= v < n,
    ensures
        ({
            let z = n / 24;
            let j = (v - info_len(n, rate)) / z;
            let r = (v - info_len(n, rate)) % z;
            &&& 0 <= j < block_rows(rate)
            &&& 0 <= r < z
            &&& v == (info_cols(rate) + j) * z + r
        }),
{
    let z = n / 24;
    let kb = info_cols(rate);
    let rows = block_rows(rate);
    let d = v - kb * z;
    let j = d / z;
    assert(kb * z + rows * z == n) by (nonlinear_arith)
        requires
            kb + rows == 24,
            24 * z == n,
    ;
    assert(0 <= d / z < rows && 0 <= d % z < z && d == (d / z) * z + d % z) by (nonlinear_arith)
        requires
            0 <= d < rows * z,
            z > 0,
    ;
    assert((kb + j) * z == kb * z + j * z) by (nonlinear_arith);
}

proof fn lemma_recurrence_is_codeword(n: int, rate: CodeRate, bits: Seq<u8>)
    requires
        is_block_length(n),
        bits.len() == n,
        follows_recurrence(n, rate, bits),
    ensures
        bits == codeword(n, rate, bits.take(info_len(n, rate))),
{
    let k = info_len(n, rate);
    let z = n / 24;
    let rows = block_rows(rate);
    let info = bits.take(k);
    lemma_offset(n, info_cols(rate) - 1, 0);
    assert forall|v: int| 0 <= v < n implies bits[v] == codeword(n, rate, info)[v] by {
        if v >= k {
            lemma_parity_index(n, rate, v);
            let j = (v - k) / z;
            let r = (v - k) % z;
            assert(bits[v] == par(n, rate, bits, j, r));
            lemma_offset(n, 0, r + 1);
            lemma_info_sum_prefix(n, rate, bits, info, j, r);
            lemma_info_sum_prefix(n, rate, bits, info, rows, r);
            lemma_info_sum_prefix(n, rate, bits, info, rows, (r + 1) % z);
            assert(par(n, rate, bits, 0, r) == info_sum(n, rate, bits, rows, r));
            assert(par(n, rate, bits, 0, (r + 1) % z) == info_sum(
                n,
                rate,
                bits,
                rows,
                (r + 1) % z,
            ));
            if j > 0 {
                lemma_chain(n, rate, bits, j, r);
            }
        }
    }
    assert(bits =~= codeword(n, rate, info));
}

proof fn lemma_checks_give_recurrence(n: int, rate: CodeRate, bits: Seq<u8>)
    requires
        is_block_length(n),
        satisfies_checks(n, rate, bits),
    ensures
        follows_recurrence(n, rate, bits),
{
    let rows = block_rows(rate);
    assert forall|i: int, r: int| 0 <= i < rows - 1 && 0 <= r < n / 24 implies #[trigger] par(
        n,
        rate,
        bits,
        i + 1,
        r,
    ) == row_sum(n, rate, bits, i, r, info_cols(rate) + i + 1) by {
        lemma_row_zero(n, rate, bits, i, r);
        assert(row_sum(n, rate, bits, i, r, 24) == 0);
    }
    assert forall|r: int| 0 <= r < n / 24 implies #[trigger] par(n, rate, bits, 0, r) == info_sum(
        n,
        rate,
        bits,
        rows,
        r,
    ) by {
        lemma_last_row(n, rate, bits, r);
        assert(row_sum(n, rate, bits, rows - 1, r, 24) == 0);
        let p = par(n, rate, bits, 0, r);
        let s = info_sum(n, rate, bits, rows, r);
        assert(s ^ p == 0 ==> p == s) by (bit_vector);
    }
}

proof fn lemma_recurrence_gives_checks(n: int, rate: CodeRate, bits: Seq<u8>)
    requires
        is_block_length(n),
        follows_recurrence(n, rate, bits),
    ensures
        satisfies_checks(n, rate, bits),
{
    let rows = block_rows(rate);
    assert forall|i: int, r: int| 0 <= i < rows && 0 <= r < n / 24 implies #[trigger] row_sum(
        n,
        rate,
        bits,
        i,
        r,
        24,
    ) == 0 by {
        if i < rows - 1 {
            assert(par(n, rate, bits, i + 1, r) == row_sum(
                n,
                rate,
                bits,
                i,
                r,
                info_cols(rate) + i + 1,
            ));
            lemma_row_zero(n, rate, bits, i, r);
        } else {
            lemma_last_row(n, rate, bits, r);
            lemma_xor(info_sum(n, rate, bits, rows, r), 0, 0);
        }
    }
}

/// A codeword is determined by its information bits: whatever satisfies the
/// checks is the codeword of its own first bits.
pub proof fn lemma_codeword_unique(n: int, rate: CodeRate, bits: Seq<u8>)
    requires
        is_block_length(n),
        bits.len() == n,
        satisfies_checks(n, rate, bits),
    ensures
        bits == codeword(n, rate, bits.take(info_len(n, rate))),
{
    lemma_checks_give_recurrence(n, rate, bits);
    lemma_recurrence_is_codeword(n, rate, bits);
}

/// Every codeword satisfies the parity checks, whatever the information bits.
pub proof fn lemma_codeword_valid(n: int, rate: CodeRate, info: Seq<u8>)
    requires
        is_block_length(n),
        info.len() == info_len(n, rate),
    ensures
        satisfies_checks(n, rate, codeword(n, rate, info)),
        codeword(n, rate, info).take(info_len(n, rate)) == info,
{
    let bits = codeword(n, rate, info);
    let rows = block_rows(rate);
    let kb = info_cols(rate);
    let z = n / 24;
    lemma_dimensions(n, rate);
    assert(bits.take(info_len(n, rate)) =~= info);
    assert forall|j: int, r: int| 0 <= j < rows && 0 <= r < z implies #[trigger] par(
        n,
        rate,
        bits,
        j,
        r,
    ) == parity_bit(n, rate, info, j, r) by {
        let v = (kb + j) * z + r;
        assert((kb + j) * z == kb * z + j * z) by (nonlinear_arith);
        lemma_row_index(j, r, rows, z);
        assert((j * z + r) / z == j && (j * z + r) % z == r) by (nonlinear_arith)
            requires
                0 <= r < z,
                0 <= j,
        ;
    }
    assert forall|r: int| 0 <= r < z implies #[trigger] par(n, rate, bits, 0, r) == info_sum(
        n,
        rate,
        bits,
        rows,
        r,
    ) by {
        lemma_info_sum_prefix(n, rate, bits, info, rows, r);
    }
    assert forall|i: int, r: int| 0 <= i < rows - 1 && 0 <= r < z implies #[trigger] par(
        n,
        rate,
        bits,
        i + 1,
        r,
    ) == row_sum(n, rate, bits, i, r, kb + i + 1) by {
        let a = row_sum(n, rate, info, i, r, kb);
        let s = info_sum(n, rate, info, i, r);
        let p0 = info_sum(n, rate, info, rows, r);
        let p1 = info_sum(n, rate, info, rows, (r + 1) % z);
        lemma_offset(n, kb, r + 1);
        lemma_row_sum_prefix(n, rate, info, bits, i, r, kb);
        lemma_prototype(n, rate, i, kb);
        assert(r % z == r) by {
            vstd::arithmetic::div_mod::lemma_small_mod(r as nat, z as nat);
        }
        lemma_row_tail(n, rate, bits, i, r, kb + i + 1);
        assert(row_sum(n, rate, bits, i, r, kb + 1) == a ^ term(n, rate, bits, i, r, kb));
        assert(par(n, rate, bits, 0, r) == p0);
        assert(par(n, rate, bits, 0, (r + 1) % z) == p1);
        assert(par(n, rate, bits, i, r) == parity_bit(n, rate, info, i, r));
        assert(par(n, rate, bits, i + 1, r) == parity_bit(n, rate, info, i + 1, r));
        assert(info_sum(n, rate, info, i + 1, r) == s ^ a);
        lemma_chain_step(a, s, p0, p1);
    }
    lemma_recurrence_gives_checks(n, rate, bits);
}

/// How one changed bit changes a check that reads it.
proof fn lemma_row_change(n: int, rate: CodeRate, bits: Seq<u8>, i: int, r: int, c: int, b: u8, upto: int)
    requires
        is_block_length(n),
        bits.len() == n,
        0 <= i < block_rows(rate),
        0 <= r < n / 24,
        0 <= c < 24,
        0 <= upto <= 24,
        shift(n, rate, i, c) >= 0,
    ensures
        ({
            let v = c * (n / 24) + (r + shift(n, rate, i, c)) % (n / 24);
            row_sum(n, rate, bits.update(v, b), i, r, upto) == row_sum(n, rate, bits, i, r, upto) ^ if c
                < upto {
                bits[v] ^ b
            } else {
                0
            }
        }),
    decreases upto,
{
    let z = n / 24;
    let v = c * z + (r + shift(n, rate, i, c)) % z;
    let new = bits.update(v, b);
    lemma_offset(n, c, r + shift(n, rate, i, c));
    if upto == 0 {
        lemma_xor(0, 0, 0);
    } else {
        let e = upto - 1;
        lemma_row_change(n, rate, bits, i, r, c, b, e);
        let old_sum = row_sum(n, rate, bits, i, r, e);
        let t = term(n, rate, bits, i, r, e);
        let d = bits[v] ^ b;
        if e != c {
            let s = shift(n, rate, i, e);
            if s >= 0 {
                lemma_offset(n, e, r + s);
                if e < c {
                    assert((e + 1) * z <= c * z) by (nonlinear_arith)
                        requires
                            e + 1 <= c,
                            z >= 0,
                    ;
                } else {
                    assert((c + 1) * z <= e * z) by (nonlinear_arith)
                        requires
                            c + 1 <= e,
                            z >= 0,
                    ;
                }
            }
            assert(term(n, rate, new, i, r, e) == t);
        }
        let x = bits[v];
        assert(((old_sum ^ d) ^ t == (old_sum ^ t) ^ d) && ((old_sum ^ 0) ^ t == (old_sum ^ t) ^ 0)
            && ((old_sum ^ 0) ^ b == (old_sum ^ x) ^ (x ^ b))) by (bit_vector);
    }
}

/// No two codewords differ in a single bit: changing any one bit of a codeword
/// breaks a check.
pub proof fn lemma_single_change(n: int, rate: CodeRate, bits: Seq<u8>, v: int, b: u8)
    requires
        is_block_length(n),
        bits.len() == n,
        satisfies_checks(n, rate, bits),
        0 <= v < n,
        b != bits[v],
    ensures
        !satisfies_checks(n, rate, bits.update(v, b)),
{
    let z = n / 24;
    lemma_dimensions(n, rate);
    let c = v / z;
    let t = v % z;
    assert(0 <= c < 24 && 0 <= t < z && v == c * z + t) by (nonlinear_arith)
        requires
            c == v / z,
            t == v % z,
            0 <= v < 24 * z,
            z > 0,
    ;
    let i = lemma_column_used(n, rate, c);
    let s = shift(n, rate, i, c);
    lemma_prototype(n, rate, i, c);
    let r = if t >= s {
        t - s
    } else {
        t - s + z
    };
    assert((r + s) % z == t) by {
        if t >= s {
            vstd::arithmetic::div_mod::lemma_small_mod(t as nat, z as nat);
        } else {
            vstd::arithmetic::div_mod::lemma_mod_add_multiples_vanish(t, z);
            vstd::arithmetic::div_mod::lemma_small_mod(t as nat, z as nat);
        }
    }
    lemma_row_change(n, rate, bits, i, r, c, b, 24);
    let x = bits[v];
    assert(x != b ==> 0 ^ (x ^ b) != 0) by (bit_vector);
    assert(row_sum(n, rate, bits, i, r, 24) == 0);
    assert(row_sum(n, rate, bits.update(v, b), i, r, 24) != 0);
}

/// The columns that check `r` of block row `i` touches among the first `upto`
/// block columns.
pub open spec fn check_columns(n: int, rate: CodeRate, i: int, r: int, upto: int) -> Seq<u32>
    decreases upto,
{
    if upto <= 0 {
        Seq::empty()
    } else {
        let z = n / 24;
        let c = upto - 1;
        let s = shift(n, rate, i, c);
        let left = check_columns(n, rate, i, r, c);
        if s < 0 {
            left
        } else {
            left.push((c * z + (r + s) % z) as u32)
        }
    }
}

/// XOR of the entries of `bits` at the positions `columns`.
pub open spec fn sum_at(bits: Seq<u8>, columns: Seq<u32>) -> u8
    decreases columns.len(),
{
    if columns.len() == 0 {
        0
    } else {
        sum_at(bits, columns.drop_last()) ^ bits[columns.last() as int]
    }
}

/// A check, listed as the columns of the bits that it reads, sums the same bits.
pub proof fn lemma_check_columns(n: int, rate: CodeRate, bits: Seq<u8>, i: int, r: int, upto: int)
    requires
        is_block_length(n),
        0 <= i < block_rows(rate),
        0 <= r < n / 24,
        0 <= upto <= 24,
    ensures
        sum_at(bits, check_columns(n, rate, i, r, upto)) == row_sum(n, rate, bits, i, r, upto),
        forall|p: int|
            0 <= p < check_columns(n, rate, i, r, upto).len() ==> (#[trigger] check_columns(
                n,
                rate,
                i,
                r,
                upto,
            )[p]) < n,
    decreases upto,
{
    if upto > 0 {
        let c = upto - 1;
        let left = check_columns(n, rate, i, r, c);
        lemma_check_columns(n, rate, bits, i, r, c);
        let s = shift(n, rate, i, c);
        if s < 0 {
            lemma_xor(row_sum(n, rate, bits, i, r, c), 0, 0);
        } else {
            lemma_offset(n, c, r + s);
            let all = check_columns(n, rate, i, r, upto);
            assert(all.drop_last() =~= left);
        }
    }
}

/// One of the twelve codes: expanded parity-check structure plus the block
/// prototype used by the encoder.
pub struct Code {
    pub n: usize,
    pub k: usize,
    pub z: usize,
    pub rate: CodeRate,
    /// Prototype: `proto[block_row][block_col]` = shift or -1.
    pub proto: Vec<Vec<i16>>,
    /// Expanded check-node adjacency: `checks[c]` = variable indices.
    pub checks: Vec<Vec<u32>>,
}

impl Code {
    /// The fields are those of the Annex F code for (`n`, `rate`).
    pub open spec fn wf(&self) -> bool {
        let rows = block_rows(self.rate);
        &&& is_block_length(self.n as int)
        &&& self.z == self.n / 24
        &&& self.k == info_len(self.n as int, self.rate)
        &&& self.proto@.len() == rows
        &&& forall|i: int| 0 <= i < rows ==> (#[trigger] self.proto@[i])@.len() == 24
        &&& forall|i: int, j: int|
            0 <= i < rows && 0 <= j < 24 ==> #[trigger] self.proto@[i]@[j] == shift(
                self.n as int,
                self.rate,
                i,
                j,
            )
        &&& self.checks@.len() == rows * self.z
        &&& forall|i: int, r: int|
            0 <= i < rows && 0 <= r < self.z ==> (#[trigger] self.checks@[i * self.z + r])@
                == check_columns(self.n as int, self.rate, i, r, 24)
    }

    /// What a well-formed code's public fields satisfy.
    pub proof fn lemma_wf(&self)
        requires
            self.wf(),
        ensures
            is_block_length(self.n as int),
            self.z == self.n / 24,
            self.k == info_len(self.n as int, self.rate),
            self.k * self.rate.den() == self.n * self.rate.num(),
            self.k < self.n,
    {
        lemma_dimensions(self.n as int, self.rate);
    }

    fn build(n: usize, rate: CodeRate) -> (code: Code)
        requires
            is_block_length(n as int),
        ensures
            code.wf(),
            code.n == n,
            code.rate == rate,
    {
        let z: usize = n / 24;
        let rows: usize = match rate {
            CodeRate::R1_2 => 12,
            CodeRate::R2_3 => 8,
            CodeRate::R3_4 => 6,
            CodeRate::R5_6 => 4,
        };
        let mut proto: Vec<Vec<i16>> = Vec::with_capacity(rows);
        for i in 0..rows
            invariant
                is_block_length(n as int),
                rows == block_rows(rate),
                proto@.len() == i,
                forall|a: int| 0 <= a < i ==> (#[trigger] proto@[a])@.len() == 24,
                forall|a: int, b: int|
                    0 <= a < i && 0 <= b < 24 ==> #[trigger] proto@[a]@[b] == shift(
                        n as int,
                        rate,
                        a,
                        b,
                    ),
        {
            let mut row: Vec<i16> = Vec::with_capacity(24);
            for j in 0..24usize
                invariant
                    is_block_length(n as int),
                    rows == block_rows(rate),
                    i < rows,
                    row@.len() == j,
                    forall|b: int|
                        0 <= b < j ==> #[trigger] row@[b] == shift(n as int, rate, i as int, b),
            {
                row.push(prototype_entry(n, rate, i, j));
            }
            proto.push(row);
        }
        proof {
            lemma_dimensions(n as int, rate);
            assert((24 - rows) * z == n - rows * z) by (nonlinear_arith)
                requires
                    24 * z == n,
            ;
            assert(0 <= rows * z <= n) by (nonlinear_arith)
                requires
                    24 * z == n,
                    0 <= rows <= 24,
                    0 <= z,
            ;
        }
        let k: usize = n - rows * z;
        let mut checks: Vec<Vec<u32>> = Vec::with_capacity(rows * z);
        proof {
            assert(0 * z == 0) by (nonlinear_arith);
        }
        for i in 0..rows
            invariant
                is_block_length(n as int),
                z == n / 24,
                rows == block_rows(rate),
                rows * z <= n,
                checks@.len() == i * z,
                forall|a: int, r: int|
                    0 <= a < i && 0 <= r < z ==> (#[trigger] checks@[a * z + r])@ == check_columns(
                        n as int,
                        rate,
                        a,
                        r,
                        24,
                    ),
        {
            for r in 0..z
                invariant
                    is_block_length(n as int),
                    z == n / 24,
                    rows == block_rows(rate),
                    i < rows,
                    rows * z <= n,
                    checks@.len() == i * z + r,
                    forall|a: int, b: int|
                        0 <= a < i && 0 <= b < z ==> (#[trigger] checks@[a * z + b])@
                            == check_columns(n as int, rate, a, b, 24),
                    forall|b: int|
                        0 <= b < r ==> (#[trigger] checks@[i * z + b])@ == check_columns(
                            n as int,
                            rate,
                            i as int,
                            b,
                            24,
                        ),
            {
                let mut columns: Vec<u32> = Vec::new();
                for c in 0..24usize
                    invariant
                        is_block_length(n as int),
                        z == n / 24,
                        i < block_rows(rate),
                        r < z,
                        columns@ == check_columns(n as int, rate, i as int, r as int, c as int),
                {
                    let s: i16 = prototype_entry(n, rate, i, c);
                    if s >= 0 {
                        proof {
                            lemma_prototype(n as int, rate, i as int, c as int);
                            lemma_offset(n as int, c as int, r + s);
                        }
                        // P_s has a 1 at (r, (r + s) mod z).
                        let col: usize = c * z + (r + s as usize) % z;
                        columns.push(col as u32);
                    }
                }
                let ghost before = checks@;
                checks.push(columns);
                proof {
                    assert forall|a: int, b: int| 0 <= a < i && 0 <= b < z implies (
                    #[trigger] checks@[a * z + b])@ == check_columns(n as int, rate, a, b, 24) by {
                        lemma_row_index(a, b, i as int, z as int);
                        assert(before[a * z + b]@ == check_columns(n as int, rate, a, b, 24));
                    }
                    assert forall|b: int| 0 <= b < r implies (#[trigger] checks@[i * z + b])@
                        == check_columns(n as int, rate, i as int, b, 24) by {
                        lemma_row_index(i as int, b, i + 1, z as int);
                        assert(before[i * z + b]@ == check_columns(n as int, rate, i as int, b, 24));
                    }
                }
            }
            proof {
                assert(i * z + z == (i + 1) * z) by (nonlinear_arith);
                assert forall|a: int, b: int| 0 <= a < i + 1 && 0 <= b < z implies (
                #[trigger] checks@[a * z + b])@ == check_columns(n as int, rate, a, b, 24) by {
                    if a == i {
                        assert(checks@[i * z + b]@ == check_columns(n as int, rate, i as int, b, 24));
                    }
                }
            }
        }
        Code { n, k, z, rate, proto, checks }
    }

    /// The code for (n, rate).
    pub fn get(n: usize, rate: CodeRate) -> (code: Code)
        requires
            is_block_length(n as int),
        ensures
            code.wf(),
            code.n == n,
            code.rate == rate,
            code.z == n / 24,
            code.k == info_len(n as int, rate),
    {
        Code::build(n, rate)
    }

    /// Number of parity-check equations.
    pub fn m(&self) -> (m: usize)
        requires
            self.wf(),
        ensures
            m == self.n - self.k,
            m == block_rows(self.rate) * self.z,
    {
        proof {
            lemma_dimensions(self.n as int, self.rate);
        }
        self.n - self.k
    }

    /// Add block columns `from..to` of block row `i` to the running sums.
    fn accumulate(&self, bits: &[u8], i: usize, from: usize, to: usize, acc: &mut Vec<u8>)
        requires
            self.wf(),
            i < block_rows(self.rate),
            from <= to <= 24,
            bits@.len() >= to * self.z,
            old(acc)@.len() == self.z,
            forall|r: int|
                0 <= r < self.z ==> #[trigger] old(acc)@[r] == row_sum(
                    self.n as int,
                    self.rate,
                    bits@,
                    i as int,
                    r,
                    from as int,
                ),
        ensures
            final(acc)@.len() == self.z,
            forall|r: int|
                0 <= r < self.z ==> #[trigger] final(acc)@[r] == row_sum(
                    self.n as int,
                    self.rate,
                    bits@,
                    i as int,
                    r,
                    to as int,
                ),
    {
        let z: usize = self.z;
        for c in from..to
            invariant
                self.wf(),
                z == self.z,
                i < block_rows(self.rate),
                from <= to <= 24,
                bits@.len() >= to * z,
                acc@.len() == z,
                forall|r: int|
                    0 <= r < z ==> #[trigger] acc@[r] == row_sum(
                        self.n as int,
                        self.rate,
                        bits@,
                        i as int,
                        r,
                        c as int,
                    ),
        {
            let s: i16 = self.proto[i][c];
            let ghost before = acc@;
            proof {
                lemma_prototype(self.n as int, self.rate, i as int, c as int);
                assert((c + 1) * z <= to * z) by (nonlinear_arith)
                    requires
                        c + 1 <= to,
                        0 <= z,
                ;
            }
            if s >= 0 {
                for r in 0..z
                    invariant
                        self.wf(),
                        z == self.z,
                        i < block_rows(self.rate),
                        c < 24,
                        bits@.len() >= (c + 1) * z,
                        0 <= s < z,
                        s == shift(self.n as int, self.rate, i as int, c as int),
                        acc@.len() == z,
                        before.len() == z,
                        forall|b: int|
                            0 <= b < r ==> #[trigger] acc@[b] == before[b] ^ term(
                                self.n as int,
                                self.rate,
                                bits@,
                                i as int,
                                b,
                                c as int,
                            ),
                        forall|b: int| r <= b < z ==> #[trigger] acc@[b] == before[b],
                {
                    proof {
                        lemma_offset(self.n as int, c as int, r + s);
                    }
                    acc[r] = acc[r] ^ bits[c * z + (r + s as usize) % z];
                }
            } else {
                proof {
                    assert forall|r: int| 0 <= r < z implies #[trigger] acc@[r] == row_sum(
                        self.n as int,
                        self.rate,
                        bits@,
                        i as int,
                        r,
                        c + 1,
                    ) by {
                        lemma_xor(acc@[r], 0, 0);
                    }
                }
            }
        }
    }

    /// Systematic encoding of `k` information bits to `n` codeword bits
    /// (information first), using the dual-diagonal parity structure:
    /// p0 = sum_i A_i*s, then p_{i+1} = A_i*s + sum_{j<=i} B_{i,j}*p_j.
    pub fn encode(&self, info: &[u8]) -> (out: Vec<u8>)
        requires
            self.wf(),
            info@.len() == self.k,
        ensures
            out@ == codeword(self.n as int, self.rate, info@),
            out@.len() == self.n,
            out@.take(self.k as int) == info@,
            satisfies_checks(self.n as int, self.rate, out@),
    {
        let z: usize = self.z;
        let ghost n = self.n as int;
        let ghost rate = self.rate;
        let ghost kb_ = info_cols(rate);
        proof {
            lemma_dimensions(n, rate);
            assert((kb_ * z) / (z as int) == kb_) by (nonlinear_arith)
                requires
                    z > 0,
            ;
        }
        let kb: usize = self.k / z;
        let mb: usize = 24 - kb;
        // A_i * s for every block row, as z-bit vectors.
        let mut a_s: Vec<Vec<u8>> = Vec::with_capacity(mb);
        let mut first: Vec<u8> = vec![0u8; z];
        for i in 0..mb
            invariant
                self.wf(),
                n == self.n,
                rate == self.rate,
                z == self.z,
                kb == info_cols(rate),
                mb == block_rows(rate),
                info@.len() == self.k,
                a_s@.len() == i,
                forall|a: int| 0 <= a < i ==> (#[trigger] a_s@[a])@.len() == z,
                forall|a: int, r: int|
                    0 <= a < i && 0 <= r < z ==> #[trigger] a_s@[a]@[r] == row_sum(
                        n,
                        rate,
                        info@,
                        a,
                        r,
                        kb as int,
                    ),
                first@.len() == z,
                forall|r: int|
                    0 <= r < z ==> #[trigger] first@[r] == info_sum(n, rate, info@, i as int, r),
        {
            let mut acc: Vec<u8> = vec![0u8; z];
            self.accumulate(info, i, 0, kb, &mut acc);
            let ghost before = first@;
            for r in 0..z
                invariant
                    acc@.len() == z,
                    first@.len() == z,
                    before.len() == z,
                    forall|b: int| 0 <= b < r ==> #[trigger] first@[b] == before[b] ^ acc@[b],
                    forall|b: int| r <= b < z ==> #[trigger] first@[b] == before[b],
            {
                first[r] = first[r] ^ acc[r];
            }
            a_s.push(acc);
        }
        let mut out: Vec<u8> = Vec::with_capacity(self.n);
        out.extend_from_slice(info);
        // p0 = sum_i A_i s (column 0 of the parity part sums to the identity,
        // the dual-diagonal columns sum to zero).
        out.append(&mut first);
        let ghost p0 = out@;
        proof {
            assert(kb * z + z == (kb + 1) * z) by (nonlinear_arith);
            assert forall|r: int| 0 <= r < z implies out@[kb * z + r] == info_sum(
                n,
                rate,
                info@,
                mb as int,
                r,
            ) by {
            }
        }
        for i in 0..mb - 1
            invariant
                self.wf(),
                n == self.n,
                rate == self.rate,
                z == self.z,
                kb == info_cols(rate),
                mb == block_rows(rate),
                info@.len() == self.k,
                self.k == kb * z,
                a_s@.len() == mb,
                forall|a: int| 0 <= a < mb ==> (#[trigger] a_s@[a])@.len() == z,
                forall|a: int, r: int|
                    0 <= a < mb && 0 <= r < z ==> #[trigger] a_s@[a]@[r] == row_sum(
                        n,
                        rate,
                        info@,
                        a,
                        r,
                        kb as int,
                    ),
                out@.len() == (kb + i + 1) * z,
                p0.len() == (kb + 1) * z,
                (kb + 1) * z <= out@.len(),
                forall|v: int| 0 <= v < (kb + 1) * z ==> out@[v] == p0[v],
                forall|v: int| 0 <= v < kb * z ==> out@[v] == info@[v],
                forall|a: int, r: int|
                    0 <= a < i && 0 <= r < z ==> #[trigger] par(n, rate, out@, a + 1, r) == row_sum(
                        n,
                        rate,
                        out@,
                        a,
                        r,
                        kb + a + 1,
                    ),
        {
            let mut acc: Vec<u8> = a_s[i].clone();
            proof {
                assert(kb * z <= (kb + i + 1) * z) by (nonlinear_arith)
                    requires
                        0 <= z,
                ;
                assert(acc@ =~= a_s@[i as int]@);
                assert forall|r: int| 0 <= r < z implies #[trigger] acc@[r] == row_sum(
                    n,
                    rate,
                    out@,
                    i as int,
                    r,
                    kb as int,
                ) by {
                    assert(a_s@[i as int]@[r] == row_sum(n, rate, info@, i as int, r, kb as int));
                    lemma_row_sum_prefix(n, rate, info@, out@, i as int, r, kb as int);
                }
            }
            self.accumulate(out.as_slice(), i, kb, kb + i + 1, &mut acc);
            let ghost before = out@;
            let ghost block = acc@;
            out.append(&mut acc);
            proof {
                assert((kb + i + 1) * z + z == (kb + i + 2) * z) by (nonlinear_arith);
                assert forall|a: int, r: int| 0 <= a < i + 1 && 0 <= r < z implies #[trigger] par(
                    n,
                    rate,
                    out@,
                    a + 1,
                    r,
                ) == row_sum(n, rate, out@, a, r, kb + a + 1) by {
                    assert((kb + a + 1) * z <= (kb + i + 1) * z) by (nonlinear_arith)
                        requires
                            a <= i,
                            0 <= z,
                    ;
                    lemma_row_sum_prefix(n, rate, before, out@, a, r, kb + a + 1);
                    if a == i {
                        assert(out@[(kb + i + 1) * z + r] == block[r]);
                    } else {
                        assert((kb + (a + 1)) * z + z <= (kb + i + 1) * z) by (nonlinear_arith)
                            requires
                                a + 1 <= i,
                                0 <= z,
                        ;
                        assert((kb + (a + 1)) * z >= 0) by (nonlinear_arith)
                            requires
                                0 <= a,
                                0 <= z,
                                0 <= kb,
                        ;
                        assert(par(n, rate, before, a + 1, r) == row_sum(
                            n,
                            rate,
                            before,
                            a,
                            r,
                            kb + a + 1,
                        ));
                    }
                }
            }
        }
        proof {
            assert((kb + mb) * z == n) by (nonlinear_arith)
                requires
                    kb + mb == 24,
                    24 * z == n,
            ;
            assert(out@.take(self.k as int) =~= info@);
            assert forall|r: int| 0 <= r < z implies #[trigger] par(n, rate, out@, 0, r) == info_sum(
                n,
                rate,
                out@,
                mb as int,
                r,
            ) by {
                lemma_info_sum_prefix(n, rate, info@, out@, mb as int, r);
                assert(out@[kb * z + r] == p0[kb * z + r]);
            }
            lemma_recurrence_gives_checks(n, rate, out@);
            lemma_recurrence_is_codeword(n, rate, out@);
        }
        out
    }

    /// Syndrome check: true if every parity equation holds.
    pub fn is_codeword(&self, bits: &[u8]) -> (ok: bool)
        requires
            self.wf(),
            bits@.len() >= self.n,
        ensures
            ok == satisfies_checks(self.n as int, self.rate, bits@),
    {
        let ghost n = self.n as int;
        let ghost rows = block_rows(self.rate);
        let z: usize = self.z;
        proof {
            lemma_dimensions(n, self.rate);
        }
        for c in 0..self.checks.len()
            invariant
                self.wf(),
                n == self.n,
                rows == block_rows(self.rate),
                z == self.z,
                27 <= z,
                bits@.len() >= n,
                forall|a: int, b: int|
                    0 <= a < rows && 0 <= b < z && a * z + b < c ==> #[trigger] row_sum(
                        n,
                        self.rate,
                        bits@,
                        a,
                        b,
                        24,
                    ) == 0,
        {
            let ghost i = c as int / z as int;
            let ghost r = c as int % z as int;
            proof {
                assert(0 <= i < rows && 0 <= r < z && c == i * z + r) by (nonlinear_arith)
                    requires
                        i == c as int / z as int,
                        r == c as int % z as int,
                        0 <= c < rows * z,
                        z > 0,
                ;
                assert(self.checks@[i * z + r]@ == check_columns(n, self.rate, i, r, 24));
                lemma_check_columns(n, self.rate, bits@, i, r, 24);
            }
            let columns: &Vec<u32> = &self.checks[c];
            let mut acc: u8 = 0;
            for p in 0..columns.len()
                invariant
                    bits@.len() >= n,
                    forall|q: int| 0 <= q < columns@.len() ==> (#[trigger] columns@[q]) < n,
                    acc == sum_at(bits@, columns@.take(p as int)),
            {
                proof {
                    assert(columns@.take(p + 1).drop_last() =~= columns@.take(p as int));
                }
                acc = acc ^ bits[columns[p] as usize];
            }
            proof {
                assert(columns@.take(columns@.len() as int) =~= columns@);
                assert forall|a: int, b: int|
                    0 <= a < rows && 0 <= b < z && a * z + b == c implies #[trigger] row_sum(
                    n,
                    self.rate,
                    bits@,
                    a,
                    b,
                    24,
                ) == row_sum(n, self.rate, bits@, i, r, 24) by {
                    assert(a == i && b == r) by (nonlinear_arith)
                        requires
                            a * z + b == i * z + r,
                            0 <= b < z,
                            0 <= r < z,
                    ;
                }
            }
            if acc != 0 {
                return false;
            }
        }
        proof {
            assert forall|a: int, b: int| 0 <= a < rows && 0 <= b < z implies #[trigger] row_sum(
                n,
                self.rate,
                bits@,
                a,
                b,
                24,
            ) == 0 by {
                lemma_row_index(a, b, rows, z as int);
            }
        }
        true
    }
}

/// Row `a`, offset `b` lies before the start of row `rows`.
proof fn lemma_row_index(a: int, b: int, rows: int, z: int)
    requires
        0 <= a < rows,
        0 <= b < z,
    ensures
        0 <= a * z + b < rows * z,
{
    assert(0 <= a * z && (a + 1) * z <= rows * z && (a + 1) * z == a * z + z) by (nonlinear_arith)
        requires
            0 <= a < rows,
            0 <= z,
    ;
}

/// k : n is the code rate.
pub proof fn lemma_dimensions(n: int, rate: CodeRate)
    requires
        is_block_length(n),
    ensures
        n % 24 == 0,
        27 <= n / 24 <= 81,
        info_len(n, rate) * rate.den() == n * rate.num(),
        324 <= info_len(n, rate) < n,
        info_len(n, rate) + block_rows(rate) * (n / 24) == n,
{
    let z = n / 24;
    assert(z == 27 || z == 54 || z == 81);
    match rate {
        CodeRate::R1_2 => {
            assert(info_len(n, rate) == 12 * z);
        },
        CodeRate::R2_3 => {
            assert(info_len(n, rate) == 16 * z);
        },
        CodeRate::R3_4 => {
            assert(info_len(n, rate) == 18 * z);
        },
        CodeRate::R5_6 => {
            assert(info_len(n, rate) == 20 * z);
        },
    }
}

/// A prototype entry `s` is the identity matrix with its columns shifted right by
/// `s`: the first check of the block reads the bit at offset `s` of its block
/// column, and each further check the bit one further on, around the block; a
/// null block is read by no check.
pub proof fn lemma_block_shift(n: int, rate: CodeRate, bits: Seq<u8>, i: int, r: int, c: int)
    requires
        n == 648 || n == 1296 || n == 1944,
        0 <= r < n / 24,
    ensures
        ({
            let s = shift(n, rate, i, c);
            &&& s < 0 ==> term(n, rate, bits, i, r, c) == 0
            &&& 0 <= s < n / 24 ==> term(n, rate, bits, i, r, c) == if r + s < n / 24 {
                bits[c * (n / 24) + r + s]
            } else {
                bits[c * (n / 24) + r + s - n / 24]
            }
        }),
{
    let s = shift(n, rate, i, c);
    let z = n / 24;
    if 0 <= s < z {
        assert((r + s) % z == if r + s < z { r + s } else { r + s - z }) by (nonlinear_arith)
            requires
                0 <= r < z,
                0 <= s < z,
        ;
        assert(c * z + (r + s) == c * z + r + s);
    }
}

} // verus!
