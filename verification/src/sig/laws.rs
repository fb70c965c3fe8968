//! What holds of the SIG and SIG-A words as a whole: reading undoes writing,
//! and the CRC catches every single-bit error.

use crate::bits::{lemma_uint_bits_len, lemma_uint_roundtrip, uint_bits};
use crate::sig::parse::{coding_reserved, field, long_mu_fields, ndp_field_bits};
use crate::sig::parse::{spec_parse_long, spec_parse_short};
use crate::sig::{crc_bits, crc_register, crc_step, flag, sig_word, su_layout, word_error};
use crate::sig::{SigAMu, SigASu, SigContent, SigError, SigFields};
use vstd::arithmetic::power2::*;
use vstd::prelude::*;

verus! {

/// A written word passes the tail and CRC checks, and its first 38 bits are
/// the fields.
pub(crate) proof fn lemma_word_valid(fields: Seq<u8>)
    requires
        fields.len() == 38,
    ensures
        sig_word(fields).len() == 48,
        sig_word(fields).take(38) == fields,
        word_error(sig_word(fields)) is None,
{
    let w = sig_word(fields);
    assert(w.take(38) =~= fields);
    assert(w.subrange(38, 42) =~= crc_bits(fields));
    assert(w.subrange(42, 48) =~= seq![0u8, 0, 0, 0, 0, 0]);
}

/// A field that was written as `uint_bits(v, to - from)` is read as `v`.
proof fn lemma_field_read(bits: Seq<u8>, from: int, to: int, v: nat)
    requires
        0 <= from <= to <= bits.len(),
        bits.subrange(from, to) == uint_bits(v, (to - from) as nat),
        v < pow2((to - from) as nat),
    ensures
        field(bits, from, to) == v,
{
    lemma_uint_roundtrip(v, (to - from) as nat);
    vstd::arithmetic::div_mod::lemma_small_mod(v, pow2((to - from) as nat));
}

/// Where the parts of an SU word stand: three flags, `bw`, `nsts`, `id`,
/// three flags, `mcs`, two flags, `length`, `ri`, two flags.
proof fn lemma_su_layout(
    b0: u8,
    b1: u8,
    b2: u8,
    bw: nat,
    nsts: nat,
    id: nat,
    b16: u8,
    b17: u8,
    b18: u8,
    mcs: nat,
    b23: u8,
    b24: u8,
    length: nat,
    ri: nat,
    b36: u8,
    b37: u8,
)
    requires
        bw < 4,
        nsts < 4,
        id < 512,
        mcs < 16,
        length < 512,
        ri < 4,
    ensures
        ({
            let w = sig_word(
                su_layout(b0, b1, b2, bw, nsts, id, b16, b17, b18, mcs, b23, b24, length, ri, b36, b37),
            );
            &&& w.len() == 48
            &&& word_error(w) is None
            &&& w[0] == b0 && w[1] == b1 && w[2] == b2
            &&& field(w, 3, 5) == bw
            &&& field(w, 5, 7) == nsts
            &&& field(w, 7, 16) == id
            &&& w[16] == b16 && w[17] == b17 && w[18] == b18
            &&& field(w, 19, 23) == mcs
            &&& w[23] == b23 && w[24] == b24
            &&& field(w, 25, 34) == length
            &&& field(w, 34, 36) == ri
            &&& w[36] == b36 && w[37] == b37
        }),
{
    reveal(su_layout);
    lemma2_to64();
    lemma_uint_bits_len(bw, 2);
    lemma_uint_bits_len(nsts, 2);
    lemma_uint_bits_len(id, 9);
    lemma_uint_bits_len(mcs, 4);
    lemma_uint_bits_len(length, 9);
    lemma_uint_bits_len(ri, 2);
    let ubw = uint_bits(bw, 2);
    let unsts = uint_bits(nsts, 2);
    let uid = uint_bits(id, 9);
    let umcs = uint_bits(mcs, 4);
    let ulen = uint_bits(length, 9);
    let uri = uint_bits(ri, 2);
    let a = seq![b0, b1, b2] + ubw + unsts + uid;
    let b = a.push(b16).push(b17).push(b18) + umcs;
    let c = b.push(b23).push(b24) + ulen + uri;
    let fields = c.push(b36).push(b37);
    let w = sig_word(fields);
    lemma_word_valid(fields);
    assert(a.len() == 16 && b.len() == 23 && c.len() == 36);
    assert(forall|i: int| 0 <= i < 38 ==> w[i] == w.take(38)[i]);
    assert(w.subrange(3, 5) =~= ubw);
    assert(w.subrange(5, 7) =~= unsts);
    assert(w.subrange(7, 16) =~= uid);
    assert(w.subrange(19, 23) =~= umcs);
    assert(w.subrange(25, 34) =~= ulen);
    assert(w.subrange(34, 36) =~= uri);
    lemma_field_read(w, 3, 5, bw);
    lemma_field_read(w, 5, 7, nsts);
    lemma_field_read(w, 7, 16, id);
    lemma_field_read(w, 19, 23, mcs);
    lemma_field_read(w, 25, 34, length);
    lemma_field_read(w, 34, 36, ri);
}

/// Parsing the bits of an S1G_SHORT SIG gives the fields back.
pub proof fn lemma_short_roundtrip(f: SigFields)
    requires
        f.wf(),
    ensures
        spec_parse_short(sig_word(f.field_bits())) == Ok::<SigContent, SigError>(
            SigContent::Normal(f),
        ),
{
    f.response_indication.lemma_roundtrip();
    lemma_su_layout(
        1,
        flag(f.stbc),
        flag(f.uplink_indication),
        f.bandwidth as nat,
        f.nsts as nat,
        f.id as nat,
        flag(f.short_gi),
        flag(f.ldpc),
        flag(f.ldpc_extra),
        f.mcs as nat,
        flag(f.smoothing),
        flag(f.aggregation),
        f.length as nat,
        f.response_indication.code() as nat,
        flag(f.traveling_pilots),
        0,
    );
}

/// Parsing the bits of an S1G_LONG SU SIG-A gives the fields back.
pub proof fn lemma_long_su_roundtrip(f: SigASu)
    requires
        f.wf(),
    ensures
        spec_parse_long(sig_word(f.field_bits())) == Ok::<SigContent, SigError>(
            SigContent::LongSu(f),
        ),
{
    f.response_indication.lemma_roundtrip();
    lemma_su_layout(
        0,
        flag(f.stbc),
        flag(f.uplink_indication),
        f.bandwidth as nat,
        f.nsts as nat,
        f.id as nat,
        flag(f.short_gi),
        flag(f.ldpc),
        flag(f.ldpc_extra),
        f.mcs as nat,
        flag(f.beam_change_or_smoothing),
        flag(f.aggregation),
        f.length as nat,
        f.response_indication.code() as nat,
        1,
        flag(f.traveling_pilots),
    );
}

/// The fields as an MU word carries them: the Coding-I flag of a user position
/// that is not in use is 1.
pub open spec fn mu_as_sent(f: SigAMu) -> SigAMu {
    SigAMu {
        ldpc: [
            f.coding_bit(0) == 1,
            f.coding_bit(1) == 1,
            f.coding_bit(2) == 1,
            f.coding_bit(3) == 1,
        ],
        ..f
    }
}

/// Parsing the bits of an S1G_LONG MU SIG-A gives the fields back, up to the
/// Coding-I flags of unused user positions.
pub proof fn lemma_long_mu_roundtrip(f: SigAMu)
    requires
        f.wf(),
    ensures
        spec_parse_long(sig_word(f.field_bits())) == Ok::<SigContent, SigError>(
            SigContent::LongMu(mu_as_sent(f)),
        ),
{
    f.response_indication.lemma_roundtrip();
    lemma2_to64();
    lemma_uint_bits_len(f.nsts@[0] as nat, 2);
    lemma_uint_bits_len(f.nsts@[1] as nat, 2);
    lemma_uint_bits_len(f.nsts@[2] as nat, 2);
    lemma_uint_bits_len(f.nsts@[3] as nat, 2);
    lemma_uint_bits_len(f.bandwidth as nat, 2);
    lemma_uint_bits_len(f.group_id as nat, 6);
    lemma_uint_bits_len(f.length as nat, 9);
    lemma_uint_bits_len(f.response_indication.code() as nat, 2);
    let u0 = uint_bits(f.nsts@[0] as nat, 2);
    let u1 = uint_bits(f.nsts@[1] as nat, 2);
    let u2 = uint_bits(f.nsts@[2] as nat, 2);
    let u3 = uint_bits(f.nsts@[3] as nat, 2);
    let ubw = uint_bits(f.bandwidth as nat, 2);
    let ugid = uint_bits(f.group_id as nat, 6);
    let ulen = uint_bits(f.length as nat, 9);
    let uri = uint_bits(f.response_indication.code() as nat, 2);
    let a = seq![1u8, flag(f.stbc), 1u8] + u0 + u1 + u2 + u3;
    let b = a + ubw + ugid;
    let c = b.push(flag(f.short_gi)).push(f.coding_bit(0)).push(f.coding_bit(1)).push(
        f.coding_bit(2),
    ).push(f.coding_bit(3));
    let d = c.push(flag(f.ldpc_extra)).push(1) + ulen + uri;
    let w = sig_word(f.field_bits());
    assert(f.field_bits() == d.push(flag(f.traveling_pilots)));
    assert(a.len() == 11 && b.len() == 19 && c.len() == 24 && d.len() == 37);
    lemma_word_valid(f.field_bits());
    assert(forall|i: int| 0 <= i < 38 ==> w[i] == w.take(38)[i]);
    assert(w.subrange(3, 5) =~= u0);
    assert(w.subrange(5, 7) =~= u1);
    assert(w.subrange(7, 9) =~= u2);
    assert(w.subrange(9, 11) =~= u3);
    assert(w.subrange(11, 13) =~= ubw);
    assert(w.subrange(13, 19) =~= ugid);
    assert(w.subrange(26, 35) =~= ulen);
    assert(w.subrange(35, 37) =~= uri);
    lemma_field_read(w, 3, 5, f.nsts@[0] as nat);
    lemma_field_read(w, 5, 7, f.nsts@[1] as nat);
    lemma_field_read(w, 7, 9, f.nsts@[2] as nat);
    lemma_field_read(w, 9, 11, f.nsts@[3] as nat);
    lemma_field_read(w, 11, 13, f.bandwidth as nat);
    lemma_field_read(w, 13, 19, f.group_id as nat);
    lemma_field_read(w, 26, 35, f.length as nat);
    lemma_field_read(w, 35, 37, f.response_indication.code() as nat);
    let g = long_mu_fields(w);
    assert(g.nsts =~= f.nsts);
    assert(g.ldpc =~= mu_as_sent(f).ldpc);
    assert(g == mu_as_sent(f));
    assert(!coding_reserved(g));
}

/// Parsing the bits of an NDP gives its 37-bit body back.
pub proof fn lemma_ndp_roundtrip(body: u64)
    requires
        body < pow2(37),
    ensures
        spec_parse_short(sig_word(ndp_field_bits(body))) == Ok::<SigContent, SigError>(
            SigContent::Ndp { body },
        ),
{
    lemma_uint_bits_len(body as nat, 37);
    let fields = ndp_field_bits(body);
    let w = sig_word(fields);
    lemma_word_valid(fields);
    assert(w[37] == w.take(38)[37]);
    assert(w.subrange(0, 37) =~= uint_bits(body as nat, 37)) by {
        assert(forall|i: int| 0 <= i < 38 ==> w[i] == w.take(38)[i]);
    }
    lemma_field_read(w, 0, 37, body as nat);
}

/// The register distinguishes what it distinguished one bit earlier.
proof fn lemma_step_injective(c: (u8, u8, u8, u8), d: (u8, u8, u8, u8), b: u8)
    requires
        c != d,
    ensures
        crc_step(c, b) != crc_step(d, b),
{
    let x = b % 2;
    let c0 = c.0;
    let d0 = d.0;
    let c3 = c.3;
    let d3 = d.3;
    let fb = x ^ c0;
    let gb = x ^ d0;
    assert((x ^ c0 == x ^ d0) ==> c0 == d0) by (bit_vector);
    assert((c3 ^ fb == d3 ^ fb) ==> c3 == d3) by (bit_vector);
}

/// Two registers that differ after `i` bits still differ after all of them,
/// if the bits that follow are the same.
proof fn lemma_register_differs(a: Seq<u8>, b: Seq<u8>, i: int)
    requires
        a.len() == b.len(),
        0 <= i <= a.len(),
        crc_register(a.take(i)) != crc_register(b.take(i)),
        forall|k: int| i <= k < a.len() ==> a[k] == b[k],
    ensures
        crc_register(a) != crc_register(b),
    decreases a.len() - i,
{
    if i == a.len() {
        assert(a.take(i) =~= a);
        assert(b.take(i) =~= b);
    } else {
        assert(a.take(i + 1).drop_last() =~= a.take(i));
        assert(b.take(i + 1).drop_last() =~= b.take(i));
        lemma_step_injective(crc_register(a.take(i)), crc_register(b.take(i)), a[i]);
        lemma_register_differs(a, b, i + 1);
    }
}

/// The CRC detects every single-bit error: two messages that differ in the
/// lowest bit of exactly one entry have different CRCs.
pub proof fn lemma_crc_detects_bit_error(a: Seq<u8>, i: int, v: u8)
    requires
        0 <= i < a.len(),
        v % 2 != a[i] % 2,
    ensures
        crc_bits(a.update(i, v)) != crc_bits(a),
{
    let b = a.update(i, v);
    assert(a.take(i + 1).drop_last() =~= a.take(i));
    assert(b.take(i + 1).drop_last() =~= a.take(i));
    let c = crc_register(a.take(i));
    let x = a[i] % 2;
    let y = v % 2;
    let c0 = c.0;
    assert((x ^ c0 == y ^ c0) ==> x == y) by (bit_vector);
    assert(crc_register(a.take(i + 1)) != crc_register(b.take(i + 1)));
    lemma_register_differs(a, b, i + 1);
    let p = crc_register(a);
    let q = crc_register(b);
    let (p0, p1, p2, p3) = p;
    let (q0, q1, q2, q3) = q;
    assert((1u8 ^ p0 == 1u8 ^ q0 ==> p0 == q0) && (1u8 ^ p1 == 1u8 ^ q1 ==> p1 == q1) && (1u8 ^ p2
        == 1u8 ^ q2 ==> p2 == q2) && (1u8 ^ p3 == 1u8 ^ q3 ==> p3 == q3)) by (bit_vector);
    if crc_bits(a) == crc_bits(b) {
        assert(crc_bits(a)[0] == crc_bits(b)[0]);
        assert(crc_bits(a)[1] == crc_bits(b)[1]);
        assert(crc_bits(a)[2] == crc_bits(b)[2]);
        assert(crc_bits(a)[3] == crc_bits(b)[3]);
    }
}

/// Any one bit of a valid word flipped is noticed: in the fields or the CRC
/// as a CRC failure, in the tail as a reserved indication.
pub proof fn lemma_bit_error_detected(word: Seq<u8>, i: int, v: u8)
    requires
        word.len() == 48,
        word_error(word) is None,
        0 <= i < 48,
        v % 2 != word[i] % 2,
    ensures
        i < 42 ==> word_error(word.update(i, v)) == Some(SigError::CrcFailed),
        i >= 42 ==> word_error(word.update(i, v)) == Some(
            SigError::Reserved { reason: "nonzero tail bits", duration_us: None },
        ),
{
    let bad = word.update(i, v);
    if i < 38 {
        lemma_crc_detects_bit_error(word.take(38), i, v);
        assert(bad.take(38) =~= word.take(38).update(i, v));
        assert(bad.subrange(38, 42) =~= word.subrange(38, 42));
        assert(bad.subrange(42, 48) =~= word.subrange(42, 48));
    } else if i < 42 {
        assert(bad.take(38) =~= word.take(38));
        assert(bad.subrange(38, 42)[i - 38] != word.subrange(38, 42)[i - 38]);
        assert(bad.subrange(42, 48) =~= word.subrange(42, 48));
    } else {
        assert(bad.subrange(42, 48)[i - 42] == v);
        assert(word.subrange(42, 48)[i - 42] == word[i]);
        assert(seq![0u8, 0, 0, 0, 0, 0][i - 42] == 0);
    }
}

} // verus!
