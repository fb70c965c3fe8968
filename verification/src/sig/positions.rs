//! Where each field of a SIG or SIG-A word stands, bit by bit, in what is sent
//! and in what is read.

use crate::bits::{is_binary, lemma_bits_roundtrip, lemma_uint_bits_len, lemma_uint_lsb_bound};
use crate::bits::{uint_bits, uint_lsb};
use crate::sig::laws::lemma_word_valid;
use crate::sig::parse::{field, ndp_field_bits, spec_parse_long, spec_parse_short};
use crate::sig::{crc_bits, crc_register, crc_step, flag, sig_word, su_layout, word_error};
use crate::sig::{SigAMu, SigASu, SigContent, SigError, SigFields};
use crate::vector::ResponseIndication;
use vstd::arithmetic::div_mod::lemma_div_denominator;
use vstd::arithmetic::power2::*;
use vstd::prelude::*;

verus! {

proof fn lemma_bits_2(v: nat)
    requires
        v < 4,
    ensures
        uint_bits(v, 2).len() == 2,
        uint_bits(v, 2)[0] + 2 * uint_bits(v, 2)[1] == v,
        uint_bits(v, 2)[0] <= 1,
        uint_bits(v, 2)[1] <= 1,
{
    reveal_with_fuel(uint_bits, 3);
}

proof fn lemma_bits_4(v: nat)
    requires
        v < 16,
    ensures
        uint_bits(v, 4).len() == 4,
        uint_bits(v, 4)[0] + 2 * uint_bits(v, 4)[1] + 4 * uint_bits(v, 4)[2] + 8 * uint_bits(v, 4)[3]
            == v,
        forall|i: int| 0 <= i < 4 ==> #[trigger] uint_bits(v, 4)[i] <= 1,
{
    reveal_with_fuel(uint_bits, 5);
}

proof fn lemma_bits_9(v: nat)
    requires
        v < 512,
    ensures
        ({
            let u = uint_bits(v, 9);
            &&& u.len() == 9
            &&& u[0] + 2 * u[1] + 4 * u[2] + 8 * u[3] + 16 * u[4] + 32 * u[5] + 64 * u[6] + 128
                * u[7] + 256 * u[8] == v
            &&& forall|i: int| 0 <= i < 9 ==> #[trigger] u[i] <= 1
        }),
{
    lemma_uint_bits_len(v, 9);
    reveal_with_fuel(uint_bits, 10);
}

/// The bits of a word with the layout that SIG and SU SIG-A share, each given as
/// a number.
proof fn lemma_su_positions(
    b0: u8,
    b1: u8,
    b2: u8,
    bw: nat,
    nsts: nat,
    id: nat,
    b16: u8,
    b17: u8,
    b18: u8,
    mcs: nat,
    b23: u8,
    b24: u8,
    length: nat,
    ri: nat,
    b36: u8,
    b37: u8,
)
    requires
        bw < 4,
        nsts < 4,
        id < 512,
        mcs < 16,
        length < 512,
        ri < 4,
    ensures
        ({
            let w = sig_word(
                su_layout(b0, b1, b2, bw, nsts, id, b16, b17, b18, mcs, b23, b24, length, ri, b36, b37),
            );
            &&& w.len() == 48
            &&& w[0] == b0 && w[1] == b1 && w[2] == b2
            &&& w[3] <= 1 && w[4] <= 1 && w[3] + 2 * w[4] == bw
            &&& w[5] <= 1 && w[6] <= 1 && w[5] + 2 * w[6] == nsts
            &&& w[7] <= 1 && w[8] <= 1 && w[9] <= 1 && w[10] <= 1 && w[11] <= 1 && w[12] <= 1
            &&& w[13] <= 1 && w[14] <= 1 && w[15] <= 1
            &&& w[7] + 2 * w[8] + 4 * w[9] + 8 * w[10] + 16 * w[11] + 32 * w[12] + 64 * w[13] + 128
                * w[14] + 256 * w[15] == id
            &&& w[16] == b16 && w[17] == b17 && w[18] == b18
            &&& w[19] <= 1 && w[20] <= 1 && w[21] <= 1 && w[22] <= 1
            &&& w[19] + 2 * w[20] + 4 * w[21] + 8 * w[22] == mcs
            &&& w[23] == b23 && w[24] == b24
            &&& w[25] <= 1 && w[26] <= 1 && w[27] <= 1 && w[28] <= 1 && w[29] <= 1 && w[30] <= 1
            &&& w[31] <= 1 && w[32] <= 1 && w[33] <= 1
            &&& w[25] + 2 * w[26] + 4 * w[27] + 8 * w[28] + 16 * w[29] + 32 * w[30] + 64 * w[31]
                + 128 * w[32] + 256 * w[33] == length
            &&& w[34] <= 1 && w[35] <= 1 && w[34] + 2 * w[35] == ri
            &&& w[36] == b36 && w[37] == b37
            &&& w[42] == 0 && w[43] == 0 && w[44] == 0 && w[45] == 0 && w[46] == 0 && w[47] == 0
        }),
{
    reveal(su_layout);
    lemma_bits_2(bw);
    lemma_bits_2(nsts);
    lemma_bits_9(id);
    lemma_bits_4(mcs);
    lemma_bits_9(length);
    lemma_bits_2(ri);
    let ubw = uint_bits(bw, 2);
    let unsts = uint_bits(nsts, 2);
    let uid = uint_bits(id, 9);
    let umcs = uint_bits(mcs, 4);
    let ulen = uint_bits(length, 9);
    let uri = uint_bits(ri, 2);
    let a = seq![b0, b1, b2] + ubw + unsts + uid;
    let b = a.push(b16).push(b17).push(b18) + umcs;
    let c = b.push(b23).push(b24) + ulen + uri;
    let fields = c.push(b36).push(b37);
    let w = sig_word(fields);
    lemma_word_valid(fields);
    assert(a.len() == 16 && b.len() == 23 && c.len() == 36);
    assert(forall|i: int| 0 <= i < 38 ==> w[i] == w.take(38)[i]);
    assert(w.subrange(3, 5) =~= ubw);
    assert(w.subrange(5, 7) =~= unsts);
    assert(w.subrange(7, 16) =~= uid);
    assert(w.subrange(19, 23) =~= umcs);
    assert(w.subrange(25, 34) =~= ulen);
    assert(w.subrange(34, 36) =~= uri);
}

/// The bits of the S1G_SHORT SIG [Table 23-12]: B0 is 1, then STBC, Uplink
/// Indication, bandwidth (2 bits), Nsts (2), ID (9), Short GI, Coding, LDPC
/// Extra, MCS (4), Smoothing; B24 is Aggregation, then Length (9), Response
/// Indication (2), Traveling Pilots, and B37, NDP Indication, is 0. Numbers
/// stand with their lowest bit first.
pub proof fn lemma_short_positions(f: SigFields)
    requires
        f.wf(),
    ensures
        ({
            let w = sig_word(f.field_bits());
            &&& w.len() == 48
            &&& w[0] == 1
            &&& w[1] == (if f.stbc { 1int } else { 0 })
            &&& w[2] == (if f.uplink_indication { 1int } else { 0 })
            &&& w[3] <= 1 && w[4] <= 1 && w[3] + 2 * w[4] == f.bandwidth
            &&& w[5] <= 1 && w[6] <= 1 && w[5] + 2 * w[6] == f.nsts
            &&& w[7] <= 1 && w[8] <= 1 && w[9] <= 1 && w[10] <= 1 && w[11] <= 1 && w[12] <= 1
            &&& w[13] <= 1 && w[14] <= 1 && w[15] <= 1
            &&& w[7] + 2 * w[8] + 4 * w[9] + 8 * w[10] + 16 * w[11] + 32 * w[12] + 64 * w[13] + 128
                * w[14] + 256 * w[15] == f.id
            &&& w[16] == (if f.short_gi { 1int } else { 0 })
            &&& w[17] == (if f.ldpc { 1int } else { 0 })
            &&& w[18] == (if f.ldpc_extra { 1int } else { 0 })
            &&& w[19] <= 1 && w[20] <= 1 && w[21] <= 1 && w[22] <= 1
            &&& w[19] + 2 * w[20] + 4 * w[21] + 8 * w[22] == f.mcs
            &&& w[23] == (if f.smoothing { 1int } else { 0 })
            &&& w[24] == (if f.aggregation { 1int } else { 0 })
            &&& w[25] <= 1 && w[26] <= 1 && w[27] <= 1 && w[28] <= 1 && w[29] <= 1 && w[30] <= 1
            &&& w[31] <= 1 && w[32] <= 1 && w[33] <= 1
            &&& w[25] + 2 * w[26] + 4 * w[27] + 8 * w[28] + 16 * w[29] + 32 * w[30] + 64 * w[31]
                + 128 * w[32] + 256 * w[33] == f.length
            &&& w[34] <= 1 && w[35] <= 1 && w[34] + 2 * w[35] == match f.response_indication {
                ResponseIndication::NoResponse => 0int,
                ResponseIndication::Ndp => 1,
                ResponseIndication::Normal => 2,
                ResponseIndication::Long => 3,
            }
            &&& w[36] == (if f.traveling_pilots { 1int } else { 0 })
            &&& w[37] == 0
            &&& w[42] == 0 && w[43] == 0 && w[44] == 0 && w[45] == 0 && w[46] == 0 && w[47] == 0
        }),
{
    lemma_su_positions(
        1,
        flag(f.stbc),
        flag(f.uplink_indication),
        f.bandwidth as nat,
        f.nsts as nat,
        f.id as nat,
        flag(f.short_gi),
        flag(f.ldpc),
        flag(f.ldpc_extra),
        f.mcs as nat,
        flag(f.smoothing),
        flag(f.aggregation),
        f.length as nat,
        f.response_indication.code() as nat,
        flag(f.traveling_pilots),
        0,
    );
}

/// The bits of the S1G_LONG SU SIG-A [Table 23-14]: as in the S1G_SHORT SIG, but
/// B0 is 0 (SU), B23 is Beam Change / Smoothing, B36 is reserved at 1 and B37
/// is Traveling Pilots.
pub proof fn lemma_long_su_positions(f: SigASu)
    requires
        f.wf(),
    ensures
        ({
            let w = sig_word(f.field_bits());
            &&& w.len() == 48
            &&& w[0] == 0
            &&& w[1] == (if f.stbc { 1int } else { 0 })
            &&& w[2] == (if f.uplink_indication { 1int } else { 0 })
            &&& w[3] <= 1 && w[4] <= 1 && w[3] + 2 * w[4] == f.bandwidth
            &&& w[5] <= 1 && w[6] <= 1 && w[5] + 2 * w[6] == f.nsts
            &&& w[7] <= 1 && w[8] <= 1 && w[9] <= 1 && w[10] <= 1 && w[11] <= 1 && w[12] <= 1
            &&& w[13] <= 1 && w[14] <= 1 && w[15] <= 1
            &&& w[7] + 2 * w[8] + 4 * w[9] + 8 * w[10] + 16 * w[11] + 32 * w[12] + 64 * w[13] + 128
                * w[14] + 256 * w[15] == f.id
            &&& w[16] == (if f.short_gi { 1int } else { 0 })
            &&& w[17] == (if f.ldpc { 1int } else { 0 })
            &&& w[18] == (if f.ldpc_extra { 1int } else { 0 })
            &&& w[19] <= 1 && w[20] <= 1 && w[21] <= 1 && w[22] <= 1
            &&& w[19] + 2 * w[20] + 4 * w[21] + 8 * w[22] == f.mcs
            &&& w[23] == (if f.beam_change_or_smoothing { 1int } else { 0 })
            &&& w[24] == (if f.aggregation { 1int } else { 0 })
            &&& w[25] <= 1 && w[26] <= 1 && w[27] <= 1 && w[28] <= 1 && w[29] <= 1 && w[30] <= 1
            &&& w[31] <= 1 && w[32] <= 1 && w[33] <= 1
            &&& w[25] + 2 * w[26] + 4 * w[27] + 8 * w[28] + 16 * w[29] + 32 * w[30] + 64 * w[31]
                + 128 * w[32] + 256 * w[33] == f.length
            &&& w[34] <= 1 && w[35] <= 1 && w[34] + 2 * w[35] == match f.response_indication {
                ResponseIndication::NoResponse => 0int,
                ResponseIndication::Ndp => 1,
                ResponseIndication::Normal => 2,
                ResponseIndication::Long => 3,
            }
            &&& w[36] == 1
            &&& w[37] == (if f.traveling_pilots { 1int } else { 0 })
            &&& w[42] == 0 && w[43] == 0 && w[44] == 0 && w[45] == 0 && w[46] == 0 && w[47] == 0
        }),
{
    lemma_su_positions(
        0,
        flag(f.stbc),
        flag(f.uplink_indication),
        f.bandwidth as nat,
        f.nsts as nat,
        f.id as nat,
        flag(f.short_gi),
        flag(f.ldpc),
        flag(f.ldpc_extra),
        f.mcs as nat,
        flag(f.beam_change_or_smoothing),
        flag(f.aggregation),
        f.length as nat,
        f.response_indication.code() as nat,
        1,
        flag(f.traveling_pilots),
    );
}


proof fn lemma_bits_6(v: nat)
    requires
        v < 64,
    ensures
        ({
            let u = uint_bits(v, 6);
            &&& u.len() == 6
            &&& u[0] + 2 * u[1] + 4 * u[2] + 8 * u[3] + 16 * u[4] + 32 * u[5] == v
            &&& forall|i: int| 0 <= i < 6 ==> #[trigger] u[i] <= 1
        }),
{
    lemma_uint_bits_len(v, 6);
    reveal_with_fuel(uint_bits, 7);
}

/// The bits of a word with the layout of the MU SIG-A, each given as a number.
proof fn lemma_mu_positions(
    fields: Seq<u8>,
    b1: u8,
    n0: nat,
    n1: nat,
    n2: nat,
    n3: nat,
    bw: nat,
    group: nat,
    b19: u8,
    b20: u8,
    b21: u8,
    b22: u8,
    b23: u8,
    b24: u8,
    length: nat,
    ri: nat,
    b37: u8,
)
    requires
        n0 < 4,
        n1 < 4,
        n2 < 4,
        n3 < 4,
        bw < 4,
        group < 64,
        length < 512,
        ri < 4,
        fields == ((seq![1u8, b1, 1u8] + uint_bits(n0, 2) + uint_bits(n1, 2) + uint_bits(n2, 2)
            + uint_bits(n3, 2) + uint_bits(bw, 2) + uint_bits(group, 6)).push(b19).push(b20).push(
            b21,
        ).push(b22).push(b23).push(b24).push(1) + uint_bits(length, 9) + uint_bits(ri, 2)).push(b37),
    ensures
        ({
            let w = sig_word(fields);
            &&& w.len() == 48
            &&& w[0] == 1 && w[1] == b1 && w[2] == 1
            &&& w[3] <= 1 && w[4] <= 1 && w[3] + 2 * w[4] == n0
            &&& w[5] <= 1 && w[6] <= 1 && w[5] + 2 * w[6] == n1
            &&& w[7] <= 1 && w[8] <= 1 && w[7] + 2 * w[8] == n2
            &&& w[9] <= 1 && w[10] <= 1 && w[9] + 2 * w[10] == n3
            &&& w[11] <= 1 && w[12] <= 1 && w[11] + 2 * w[12] == bw
            &&& w[13] <= 1 && w[14] <= 1 && w[15] <= 1 && w[16] <= 1 && w[17] <= 1 && w[18] <= 1
            &&& w[13] + 2 * w[14] + 4 * w[15] + 8 * w[16] + 16 * w[17] + 32 * w[18] == group
            &&& w[19] == b19 && w[20] == b20 && w[21] == b21 && w[22] == b22 && w[23] == b23
            &&& w[24] == b24 && w[25] == 1
            &&& w[26] <= 1 && w[27] <= 1 && w[28] <= 1 && w[29] <= 1 && w[30] <= 1 && w[31] <= 1
            &&& w[32] <= 1 && w[33] <= 1 && w[34] <= 1
            &&& w[26] + 2 * w[27] + 4 * w[28] + 8 * w[29] + 16 * w[30] + 32 * w[31] + 64 * w[32]
                + 128 * w[33] + 256 * w[34] == length
            &&& w[35] <= 1 && w[36] <= 1 && w[35] + 2 * w[36] == ri
            &&& w[37] == b37
            &&& w[42] == 0 && w[43] == 0 && w[44] == 0 && w[45] == 0 && w[46] == 0 && w[47] == 0
        }),
{
    lemma_bits_2(n0);
    lemma_bits_2(n1);
    lemma_bits_2(n2);
    lemma_bits_2(n3);
    lemma_bits_2(bw);
    lemma_bits_6(group);
    lemma_bits_9(length);
    lemma_bits_2(ri);
    let a = seq![1u8, b1, 1u8] + uint_bits(n0, 2) + uint_bits(n1, 2) + uint_bits(n2, 2) + uint_bits(
        n3,
        2,
    ) + uint_bits(bw, 2) + uint_bits(group, 6);
    let b = a.push(b19).push(b20).push(b21).push(b22).push(b23).push(b24).push(1);
    let d = b + uint_bits(length, 9) + uint_bits(ri, 2);
    let w = sig_word(fields);
    assert(a.len() == 19 && b.len() == 26 && d.len() == 37);
    lemma_word_valid(fields);
    assert(forall|i: int| 0 <= i < 38 ==> w[i] == w.take(38)[i]);
    assert(w.subrange(3, 5) =~= uint_bits(n0, 2));
    assert(w.subrange(5, 7) =~= uint_bits(n1, 2));
    assert(w.subrange(7, 9) =~= uint_bits(n2, 2));
    assert(w.subrange(9, 11) =~= uint_bits(n3, 2));
    assert(w.subrange(11, 13) =~= uint_bits(bw, 2));
    assert(w.subrange(13, 19) =~= uint_bits(group, 6));
    assert(w.subrange(26, 35) =~= uint_bits(length, 9));
    assert(w.subrange(35, 37) =~= uint_bits(ri, 2));
}

/// The bits of the S1G_LONG MU SIG-A [Table 23-15]: B0 is 1 (MU), STBC, B2
/// reserved at 1, the Nsts of the four user positions (2 bits each), bandwidth
/// (2), group ID (6), Short GI, the four Coding-I bits (at 1 where the position
/// is not in use), Coding-II, B25 reserved at 1, Length (9), Response Indication
/// (2), Traveling Pilots.
pub proof fn lemma_long_mu_positions(f: SigAMu)
    requires
        f.wf(),
    ensures
        ({
            let w = sig_word(f.field_bits());
            &&& w.len() == 48
            &&& w[0] == 1
            &&& w[1] == (if f.stbc { 1int } else { 0 })
            &&& w[2] == 1
            &&& w[3] <= 1 && w[4] <= 1 && w[3] + 2 * w[4] == f.nsts@[0]
            &&& w[5] <= 1 && w[6] <= 1 && w[5] + 2 * w[6] == f.nsts@[1]
            &&& w[7] <= 1 && w[8] <= 1 && w[7] + 2 * w[8] == f.nsts@[2]
            &&& w[9] <= 1 && w[10] <= 1 && w[9] + 2 * w[10] == f.nsts@[3]
            &&& w[11] <= 1 && w[12] <= 1 && w[11] + 2 * w[12] == f.bandwidth
            &&& w[13] <= 1 && w[14] <= 1 && w[15] <= 1 && w[16] <= 1 && w[17] <= 1 && w[18] <= 1
            &&& w[13] + 2 * w[14] + 4 * w[15] + 8 * w[16] + 16 * w[17] + 32 * w[18] == f.group_id
            &&& w[19] == (if f.short_gi { 1int } else { 0 })
            &&& w[20] == (if f.nsts@[0] == 0 || f.ldpc@[0] { 1int } else { 0 })
            &&& w[21] == (if f.nsts@[1] == 0 || f.ldpc@[1] { 1int } else { 0 })
            &&& w[22] == (if f.nsts@[2] == 0 || f.ldpc@[2] { 1int } else { 0 })
            &&& w[23] == (if f.nsts@[3] == 0 || f.ldpc@[3] { 1int } else { 0 })
            &&& w[24] == (if f.ldpc_extra { 1int } else { 0 })
            &&& w[25] == 1
            &&& w[26] <= 1 && w[27] <= 1 && w[28] <= 1 && w[29] <= 1 && w[30] <= 1 && w[31] <= 1
            &&& w[32] <= 1 && w[33] <= 1 && w[34] <= 1
            &&& w[26] + 2 * w[27] + 4 * w[28] + 8 * w[29] + 16 * w[30] + 32 * w[31] + 64 * w[32]
                + 128 * w[33] + 256 * w[34] == f.length
            &&& w[35] <= 1 && w[36] <= 1 && w[35] + 2 * w[36] == match f.response_indication {
                ResponseIndication::NoResponse => 0int,
                ResponseIndication::Ndp => 1,
                ResponseIndication::Normal => 2,
                ResponseIndication::Long => 3,
            }
            &&& w[37] == (if f.traveling_pilots { 1int } else { 0 })
            &&& w[42] == 0 && w[43] == 0 && w[44] == 0 && w[45] == 0 && w[46] == 0 && w[47] == 0
        }),
{
    lemma_mu_positions(
        f.field_bits(),
        flag(f.stbc),
        f.nsts@[0] as nat,
        f.nsts@[1] as nat,
        f.nsts@[2] as nat,
        f.nsts@[3] as nat,
        f.bandwidth as nat,
        f.group_id as nat,
        flag(f.short_gi),
        f.coding_bit(0),
        f.coding_bit(1),
        f.coding_bit(2),
        f.coding_bit(3),
        flag(f.ldpc_extra),
        f.length as nat,
        f.response_indication.code() as nat,
        flag(f.traveling_pilots),
    );
}

/// Bit `k` of the `n` low bits of `v` is its `k`-th binary digit.
proof fn lemma_uint_bit(v: nat, n: nat, k: nat)
    requires
        k < n,
    ensures
        uint_bits(v, n).len() == n,
        uint_bits(v, n)[k as int] == (v / pow2(k)) % 2,
    decreases k,
{
    lemma_uint_bits_len(v, n);
    lemma2_to64();
    if k > 0 {
        let j = (k - 1) as nat;
        lemma_uint_bit(v / 2, (n - 1) as nat, j);
        lemma_uint_bits_len(v / 2, (n - 1) as nat);
        lemma_pow2_unfold(k);
        lemma_pow2_pos(j);
        lemma_div_denominator(v as int, 2, pow2(j) as int);
        assert(uint_bits(v, n)[k as int] == uint_bits(v / 2, (n - 1) as nat)[j as int]);
        assert((v / 2) / pow2(j) == v / pow2(k));
    } else {
        assert(v / pow2(0) == v);
    }
}

/// The bits of an NDP: B0..B36 are the binary digits of the body, lowest first,
/// and B37, NDP Indication, is 1.
pub proof fn lemma_ndp_positions(body: u64, k: nat)
    requires
        k < 37,
    ensures
        ({
            let w = sig_word(ndp_field_bits(body));
            &&& w.len() == 48
            &&& w[k as int] == (body as nat / pow2(k)) % 2
            &&& w[37] == 1
            &&& w[42] == 0 && w[43] == 0 && w[44] == 0 && w[45] == 0 && w[46] == 0 && w[47] == 0
        }),
{
    lemma_uint_bit(body as nat, 37, k);
    let fields = ndp_field_bits(body);
    lemma_word_valid(fields);
    let w = sig_word(fields);
    assert(w[k as int] == w.take(38)[k as int]);
    assert(w[37] == w.take(38)[37]);
}

/// The CRC of a longer message from that of a shorter one, with
/// G(D) = D^4 + D + 1: of no bits it is 0000; each further bit shifts it by one
/// place, and the sum of that bit and of the bit shifted out comes in at the end
/// and is added, complemented, in the place before.
pub proof fn lemma_crc_recurrence(m: Seq<u8>, b: u8)
    requires
        b <= 1,
    ensures
        crc_bits(Seq::<u8>::empty()) == seq![0u8, 0, 0, 0],
        ({
            let c = crc_bits(m);
            let e = crc_bits(m.push(b));
            &&& c.len() == 4 && e.len() == 4
            &&& c[0] <= 1 && c[1] <= 1 && c[2] <= 1 && c[3] <= 1
            &&& e[0] == c[1]
            &&& e[1] == c[2]
            &&& e[2] == (c[3] + c[0] + b + 1) % 2
            &&& e[3] == (c[0] + b) % 2
        }),
{
    assert(m.push(b).drop_last() =~= m);
    lemma_register_binary(m);
    let r = crc_register(m);
    let (r0, r1, r2, r3) = r;
    let fb = b ^ r0;
    assert(b % 2 == b);
    assert(1u8 ^ 1u8 == 0u8) by (bit_vector);
    assert(1u8 ^ 0u8 == 1u8) by (bit_vector);
    assert(0u8 ^ 1u8 == 1u8) by (bit_vector);
    assert(0u8 ^ 0u8 == 0u8) by (bit_vector);
    assert(crc_register(m.push(b)) == crc_step(r, b));
}

/// The CRC register holds bits.
proof fn lemma_register_binary(m: Seq<u8>)
    ensures
        crc_register(m).0 <= 1,
        crc_register(m).1 <= 1,
        crc_register(m).2 <= 1,
        crc_register(m).3 <= 1,
    decreases m.len(),
{
    if m.len() > 0 {
        lemma_register_binary(m.drop_last());
        let r = crc_register(m.drop_last());
        let b = m.last() % 2;
        let (r0, r1, r2, r3) = r;
        assert(r0 <= 1 && b <= 1 ==> (b ^ r0) <= 1) by (bit_vector);
        let fb = b ^ r0;
        assert(r3 <= 1 && fb <= 1 ==> (r3 ^ fb) <= 1) by (bit_vector);
    }
}

proof fn lemma_field_2(w: Seq<u8>, at: int)
    requires
        0 <= at,
        at + 2 <= w.len(),
        is_binary(w),
    ensures
        field(w, at, at + 2) == w[at] + 2 * w[at + 1],
{
    reveal_with_fuel(uint_lsb, 3);
    let p = w.subrange(at, at + 2);
    assert(p.drop_first().drop_first().len() == 0);
    assert(p[0] == w[at] && p.drop_first()[0] == w[at + 1]);
}

proof fn lemma_field_6(w: Seq<u8>, at: int)
    requires
        0 <= at,
        at + 6 <= w.len(),
        is_binary(w),
    ensures
        field(w, at, at + 6) == w[at] + 2 * w[at + 1] + 4 * w[at + 2] + 8 * w[at + 3] + 16 * w[at + 4]
            + 32 * w[at + 5],
{
    let p = w.subrange(at, at + 6);
    let q = p.drop_first().drop_first();
    assert(q =~= w.subrange(at + 2, at + 6));
    lemma_field_4(w, at + 2);
    assert(p[0] == w[at] && p.drop_first()[0] == w[at + 1]);
    reveal_with_fuel(uint_lsb, 3);
}

proof fn lemma_field_4(w: Seq<u8>, at: int)
    requires
        0 <= at,
        at + 4 <= w.len(),
        is_binary(w),
    ensures
        field(w, at, at + 4) == w[at] + 2 * w[at + 1] + 4 * w[at + 2] + 8 * w[at + 3],
{
    let p = w.subrange(at, at + 4);
    let q = p.drop_first().drop_first();
    assert(q =~= w.subrange(at + 2, at + 4));
    lemma_field_2(w, at + 2);
    assert(p[0] == w[at] && p.drop_first()[0] == w[at + 1]);
    reveal_with_fuel(uint_lsb, 3);
}

proof fn lemma_field_9(w: Seq<u8>, at: int)
    requires
        0 <= at,
        at + 9 <= w.len(),
        is_binary(w),
    ensures
        field(w, at, at + 9) == w[at] + 2 * w[at + 1] + 4 * w[at + 2] + 8 * w[at + 3] + 16 * w[at + 4]
            + 32 * w[at + 5] + 64 * w[at + 6] + 128 * w[at + 7] + 256 * w[at + 8],
{
    let p = w.subrange(at, at + 9);
    let q = p.drop_first().drop_first().drop_first();
    assert(q =~= w.subrange(at + 3, at + 9));
    lemma_field_6(w, at + 3);
    assert(p[0] == w[at] && p.drop_first()[0] == w[at + 1]);
    assert(p.drop_first().drop_first()[0] == w[at + 2]);
    reveal_with_fuel(uint_lsb, 4);
}

/// What is read from 48 bits as an S1G_SHORT SIG. The tail B42..B47 has to be
/// zero and B38..B41 the CRC of B0..B37; B37 tells an NDP, whose body is
/// B0..B36; otherwise B0 has to be 1, and each field is read at its place.
pub proof fn lemma_short_reads(w: Seq<u8>)
    requires
        w.len() == 48,
        forall|i: int| 0 <= i < 48 ==> #[trigger] w[i] <= 1,
    ensures
        spec_parse_short(w) is Ok <==> w[42] == 0 && w[43] == 0 && w[44] == 0 && w[45] == 0 && w[46]
            == 0 && w[47] == 0 && crc_bits(w.take(38)) == seq![w[38], w[39], w[40], w[41]] && (w[37]
            == 1 || w[0] == 1),
        match spec_parse_short(w) {
            Ok(SigContent::Normal(g)) => {
                &&& w[37] == 0 && w[0] == 1
                &&& (g.stbc <==> w[1] == 1)
                &&& (g.uplink_indication <==> w[2] == 1)
                &&& g.bandwidth == w[3] + 2 * w[4]
                &&& g.nsts == w[5] + 2 * w[6]
                &&& g.id == w[7] + 2 * w[8] + 4 * w[9] + 8 * w[10] + 16 * w[11] + 32 * w[12] + 64 * w[13] + 128 * w[14] + 256 * w[15]
                &&& (g.short_gi <==> w[16] == 1)
                &&& (g.ldpc <==> w[17] == 1)
                &&& (g.ldpc_extra <==> w[18] == 1)
                &&& g.mcs == w[19] + 2 * w[20] + 4 * w[21] + 8 * w[22]
                &&& (g.smoothing <==> w[23] == 1)
                &&& (g.aggregation <==> w[24] == 1)
                &&& g.length == w[25] + 2 * w[26] + 4 * w[27] + 8 * w[28] + 16 * w[29] + 32 * w[30] + 64 * w[31] + 128 * w[32] + 256 * w[33]
                &&& g.response_indication == (if w[34] + 2 * w[35] == 0 {
                    ResponseIndication::NoResponse
                } else if w[34] + 2 * w[35] == 1 {
                    ResponseIndication::Ndp
                } else if w[34] + 2 * w[35] == 2 {
                    ResponseIndication::Normal
                } else {
                    ResponseIndication::Long
                })
                &&& (g.traveling_pilots <==> w[36] == 1)
            },
            Ok(SigContent::Ndp { body }) => w[37] == 1 && sig_word(ndp_field_bits(body)) == w,
            Ok(_) => false,
            Err(SigError::CrcFailed) => crc_bits(w.take(38)) != seq![w[38], w[39], w[40], w[41]],
            Err(SigError::Reserved { reason, duration_us }) => if w[42] + w[43] + w[44] + w[45]
                + w[46] + w[47] > 0 {
                reason@ == "nonzero tail bits"@ && duration_us is None
            } else {
                reason@ == "SIG B0 = 0"@ && w[0] == 0
            },
        },
{
    assert(is_binary(w));
    lemma_word_parts(w);
    lemma_field_2(w, 3);
    lemma_field_2(w, 5);
    lemma_field_9(w, 7);
    lemma_field_4(w, 19);
    lemma_field_9(w, 25);
    lemma_field_2(w, 34);
    if word_error(w) is None && w[37] == 1 {
        let p = w.subrange(0, 37);
        assert(is_binary(p));
        lemma_bits_roundtrip(p);
        lemma_uint_lsb_bound(p);
        lemma2_to64();
        lemma_pow2_adds(32, 5);
        let body = field(w, 0, 37) as u64;
        assert(uint_bits(body as nat, 37) == p);
        assert(ndp_field_bits(body) =~= w.take(38));
        assert(sig_word(ndp_field_bits(body)) =~= w);
    }
}

/// A word is in order exactly where its tail is zero and its CRC matches.
proof fn lemma_word_parts(w: Seq<u8>)
    requires
        w.len() == 48,
    ensures
        w.subrange(42, 48) == seq![0u8, 0, 0, 0, 0, 0] <==> w[42] == 0 && w[43] == 0 && w[44] == 0
            && w[45] == 0 && w[46] == 0 && w[47] == 0,
        w.subrange(38, 42) == seq![w[38], w[39], w[40], w[41]],
        w == w.take(38) + w.subrange(38, 42) + w.subrange(42, 48),
{
    let t = w.subrange(42, 48);
    assert(t[0] == w[42] && t[1] == w[43] && t[2] == w[44] && t[3] == w[45] && t[4] == w[46] && t[5]
        == w[47]);
    if w[42] == 0 && w[43] == 0 && w[44] == 0 && w[45] == 0 && w[46] == 0 && w[47] == 0 {
        assert(t =~= seq![0u8, 0, 0, 0, 0, 0]);
    }
    assert(w.subrange(38, 42) =~= seq![w[38], w[39], w[40], w[41]]);
    assert(w =~= w.take(38) + w.subrange(38, 42) + w.subrange(42, 48));
}

/// What is read from 48 bits as an S1G_LONG SU SIG-A: with B0 at 0, the tail
/// zero, the CRC right and B36 at 1, each field at its place.
pub proof fn lemma_long_su_reads(w: Seq<u8>)
    requires
        w.len() == 48,
        forall|i: int| 0 <= i < 48 ==> #[trigger] w[i] <= 1,
        w[0] == 0,
    ensures
        spec_parse_long(w) is Ok <==> w[42] == 0 && w[43] == 0 && w[44] == 0 && w[45] == 0 && w[46]
            == 0 && w[47] == 0 && crc_bits(w.take(38)) == seq![w[38], w[39], w[40], w[41]] && w[36]
            == 1,
        match spec_parse_long(w) {
            Ok(SigContent::LongSu(g)) => {
                &&& w[0] == 0 && w[36] == 1
                &&& (g.stbc <==> w[1] == 1)
                &&& (g.uplink_indication <==> w[2] == 1)
                &&& g.bandwidth == w[3] + 2 * w[4]
                &&& g.nsts == w[5] + 2 * w[6]
                &&& g.id == w[7] + 2 * w[8] + 4 * w[9] + 8 * w[10] + 16 * w[11] + 32 * w[12] + 64 * w[13] + 128 * w[14] + 256 * w[15]
                &&& (g.short_gi <==> w[16] == 1)
                &&& (g.ldpc <==> w[17] == 1)
                &&& (g.ldpc_extra <==> w[18] == 1)
                &&& g.mcs == w[19] + 2 * w[20] + 4 * w[21] + 8 * w[22]
                &&& (g.beam_change_or_smoothing <==> w[23] == 1)
                &&& (g.aggregation <==> w[24] == 1)
                &&& g.length == w[25] + 2 * w[26] + 4 * w[27] + 8 * w[28] + 16 * w[29] + 32 * w[30] + 64 * w[31] + 128 * w[32] + 256 * w[33]
                &&& g.response_indication == (if w[34] + 2 * w[35] == 0 {
                    ResponseIndication::NoResponse
                } else if w[34] + 2 * w[35] == 1 {
                    ResponseIndication::Ndp
                } else if w[34] + 2 * w[35] == 2 {
                    ResponseIndication::Normal
                } else {
                    ResponseIndication::Long
                })
                &&& (g.traveling_pilots <==> w[37] == 1)
            },
            Ok(_) => false,
            Err(SigError::CrcFailed) => crc_bits(w.take(38)) != seq![w[38], w[39], w[40], w[41]],
            Err(SigError::Reserved { reason, duration_us }) => if w[42] + w[43] + w[44] + w[45]
                + w[46] + w[47] > 0 {
                reason@ == "nonzero tail bits"@ && duration_us is None
            } else {
                reason@ == "SIG-A2 B12 = 0"@ && w[36] == 0
            },
        },
{
    assert(is_binary(w));
    lemma_word_parts(w);
    lemma_field_2(w, 3);
    lemma_field_2(w, 5);
    lemma_field_9(w, 7);
    lemma_field_4(w, 19);
    lemma_field_9(w, 25);
    lemma_field_2(w, 34);
}

/// What is read from 48 bits as an S1G_LONG MU SIG-A: with B0 at 1, the tail
/// zero, the CRC right, B2 and B25 at 1 and the Coding-I bit of each unused user
/// position at 1, each field at its place.
pub proof fn lemma_long_mu_reads(w: Seq<u8>)
    requires
        w.len() == 48,
        forall|i: int| 0 <= i < 48 ==> #[trigger] w[i] <= 1,
        w[0] == 1,
    ensures
        spec_parse_long(w) is Ok <==> w[42] == 0 && w[43] == 0 && w[44] == 0 && w[45] == 0 && w[46]
            == 0 && w[47] == 0 && crc_bits(w.take(38)) == seq![w[38], w[39], w[40], w[41]] && w[2]
            == 1 && w[25] == 1 && (w[3] + w[4] > 0 || w[20] == 1) && (w[5] + w[6] > 0 || w[21] == 1)
            && (w[7] + w[8] > 0 || w[22] == 1) && (w[9] + w[10] > 0 || w[23] == 1),
        match spec_parse_long(w) {
            Ok(SigContent::LongMu(g)) => {
                &&& w[0] == 1 && w[2] == 1 && w[25] == 1
                &&& (g.stbc <==> w[1] == 1)
                &&& g.nsts@[0] == w[3] + 2 * w[4]
                &&& g.nsts@[1] == w[5] + 2 * w[6]
                &&& g.nsts@[2] == w[7] + 2 * w[8]
                &&& g.nsts@[3] == w[9] + 2 * w[10]
                &&& g.bandwidth == w[11] + 2 * w[12]
                &&& g.group_id == w[13] + 2 * w[14] + 4 * w[15] + 8 * w[16] + 16 * w[17] + 32 * w[18]
                &&& (g.short_gi <==> w[19] == 1)
                &&& (g.ldpc@[0] <==> w[20] == 1)
                &&& (g.ldpc@[1] <==> w[21] == 1)
                &&& (g.ldpc@[2] <==> w[22] == 1)
                &&& (g.ldpc@[3] <==> w[23] == 1)
                &&& (w[3] + 2 * w[4] == 0 ==> w[20] == 1)
                &&& (w[5] + 2 * w[6] == 0 ==> w[21] == 1)
                &&& (w[7] + 2 * w[8] == 0 ==> w[22] == 1)
                &&& (w[9] + 2 * w[10] == 0 ==> w[23] == 1)
                &&& (g.ldpc_extra <==> w[24] == 1)
                &&& g.length == w[26] + 2 * w[27] + 4 * w[28] + 8 * w[29] + 16 * w[30] + 32 * w[31] + 64 * w[32] + 128 * w[33] + 256 * w[34]
                &&& g.response_indication == (if w[35] + 2 * w[36] == 0 {
                    ResponseIndication::NoResponse
                } else if w[35] + 2 * w[36] == 1 {
                    ResponseIndication::Ndp
                } else if w[35] + 2 * w[36] == 2 {
                    ResponseIndication::Normal
                } else {
                    ResponseIndication::Long
                })
                &&& (g.traveling_pilots <==> w[37] == 1)
            },
            Ok(_) => false,
            Err(SigError::CrcFailed) => crc_bits(w.take(38)) != seq![w[38], w[39], w[40], w[41]],
            Err(SigError::Reserved { reason, duration_us }) => if w[42] + w[43] + w[44] + w[45]
                + w[46] + w[47] > 0 {
                reason@ == "nonzero tail bits"@ && duration_us is None
            } else if w[2] == 0 {
                reason@ == "SIG-A1 B2 = 0"@
            } else if w[25] == 0 {
                reason@ == "SIG-A2 B1 = 0"@
            } else {
                reason@ == "Coding-I reserved bit = 0"@
            },
        },
{
    assert(is_binary(w));
    lemma_word_parts(w);
    lemma_field_2(w, 3);
    lemma_field_2(w, 5);
    lemma_field_2(w, 7);
    lemma_field_2(w, 9);
    lemma_field_2(w, 11);
    lemma_field_6(w, 13);
    lemma_field_9(w, 26);
    lemma_field_2(w, 35);
}

} // verus!
