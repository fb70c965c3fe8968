//! Integers in little-endian octets.

use vstd::prelude::*;

verus! {

/// The two octets of a 16-bit value, least significant first.
pub open spec fn le16(v: int) -> Seq<u8> {
    seq![(v % 256) as u8, (v / 256 % 256) as u8]
}

/// The four octets of a 32-bit value, least significant first.
pub open spec fn le32(v: int) -> Seq<u8> {
    seq![
        (v % 256) as u8,
        (v / 256 % 256) as u8,
        (v / 65536 % 256) as u8,
        (v / 16777216 % 256) as u8,
    ]
}

/// The 16-bit value at `i`.
pub open spec fn at16(s: Seq<u8>, i: int) -> int {
    s[i] + 256 * s[i + 1]
}

/// The 32-bit value at `i`.
pub open spec fn at32(s: Seq<u8>, i: int) -> int {
    s[i] + 256 * s[i + 1] + 65536 * s[i + 2] + 16777216 * s[i + 3]
}

/// Reading a written value gives it back.
pub proof fn lemma_le_roundtrip(v: int)
    ensures
        0 <= v < 65536 ==> at16(le16(v), 0) == v,
        0 <= v < 4294967296 ==> at32(le32(v), 0) == v,
{
}

/// Append a 16-bit value.
pub fn push_le16(out: &mut Vec<u8>, v: u16)
    ensures
        final(out)@ == old(out)@ + le16(v as int),
{
    out.push((v % 256) as u8);
    out.push((v / 256) as u8);
    proof {
        assert(out@ =~= old(out)@ + le16(v as int));
    }
}

/// Append a 32-bit value.
pub fn push_le32(out: &mut Vec<u8>, v: u32)
    ensures
        final(out)@ == old(out)@ + le32(v as int),
{
    out.push((v % 256) as u8);
    out.push((v / 256 % 256) as u8);
    out.push((v / 65536 % 256) as u8);
    out.push((v / 16777216) as u8);
    proof {
        assert(out@ =~= old(out)@ + le32(v as int));
    }
}

/// Append octets.
pub fn push_octets(out: &mut Vec<u8>, s: &[u8])
    ensures
        final(out)@ == old(out)@ + s@,
{
    let ghost before = out@;
    out.extend_from_slice(s);
    proof {
        assert(out@ =~= before + s@);
    }
}

/// Read a 16-bit value.
pub fn read_le16(s: &[u8], i: usize) -> (v: u16)
    requires
        i + 2 <= s@.len(),
    ensures
        v == at16(s@, i as int),
{
    s[i] as u16 + 256 * s[i + 1] as u16
}

/// Read a 32-bit value.
pub fn read_le32(s: &[u8], i: usize) -> (v: u32)
    requires
        i + 4 <= s@.len(),
    ensures
        v == at32(s@, i as int),
{
    s[i] as u32 + 256 * s[i + 1] as u32 + 65536 * s[i + 2] as u32 + 16777216 * s[i + 3] as u32
}

/// A 16-bit value as a two's-complement number.
pub open spec fn signed16(v: int) -> int {
    if v >= 32768 {
        v - 65536
    } else {
        v
    }
}

/// A 32-bit value as a two's-complement number.
pub open spec fn signed32(v: int) -> int {
    if v >= 2147483648 {
        v - 4294967296
    } else {
        v
    }
}

/// Read a signed 16-bit value.
pub fn read_i16(s: &[u8], i: usize) -> (v: i16)
    requires
        i + 2 <= s@.len(),
    ensures
        v == signed16(at16(s@, i as int)),
{
    let u: u16 = read_le16(s, i);
    if u >= 32768 {
        (u as i32 - 65536) as i16
    } else {
        u as i16
    }
}

/// Read a signed 32-bit value.
pub fn read_i32(s: &[u8], i: usize) -> (v: i32)
    requires
        i + 4 <= s@.len(),
    ensures
        v == signed32(at32(s@, i as int)),
{
    let u: u32 = read_le32(s, i);
    if u >= 2147483648 {
        (u as i64 - 4294967296) as i32
    } else {
        u as i32
    }
}

/// `s` padded with zeros to a multiple of `n`.
pub open spec fn aligned(s: Seq<u8>, n: int) -> Seq<u8> {
    if s.len() as int % n == 0 {
        s
    } else {
        s + Seq::new((n - s.len() as int % n) as nat, |i: int| 0u8)
    }
}

/// Pad with zeros to a multiple of `n`.
pub fn align(b: &mut Vec<u8>, n: usize)
    requires
        n > 0,
        old(b)@.len() + n <= usize::MAX,
    ensures
        final(b)@ == aligned(old(b)@, n as int),
        final(b)@.len() % n as nat == 0,
        final(b)@.len() < old(b)@.len() + n,
{
    let over: usize = b.len() % n;
    let ghost before = b@;
    if over != 0 {
        let pad: usize = n - over;
        for i in 0..pad
            invariant
                b@ == before + Seq::new(i as nat, |k: int| 0u8),
        {
            b.push(0);
            proof {
                assert(b@ =~= before + Seq::new((i + 1) as nat, |k: int| 0u8));
            }
        }
        proof {
            assert(b@.len() == before.len() + n - over);
            let q = before.len() as int / n as int;
            assert(b@.len() as int % n as int == 0) by {
                vstd::arithmetic::div_mod::lemma_fundamental_div_mod(before.len() as int, n as int);
                assert(b@.len() == n * (q + 1)) by (nonlinear_arith)
                    requires
                        before.len() as int == n * q + over,
                        b@.len() == before.len() + n - over,
                ;
                vstd::arithmetic::div_mod::lemma_mod_multiples_basic(q + 1, n as int);
                assert((q + 1) * n == n * (q + 1)) by (nonlinear_arith);
            }
        }
    }
}

/// Octets stand least significant first.
pub proof fn lemma_octet_order(v: int, s: Seq<u8>, i: int)
    requires
        0 <= v < 4294967296,
    ensures
        le32(v).len() == 4,
        le32(v)[0] == v % 256,
        le32(v)[1] == v / 256 % 256,
        le32(v)[2] == v / 65536 % 256,
        le32(v)[3] == v / 16777216,
        v < 65536 ==> le16(v).len() == 2 && le16(v)[0] == v % 256 && le16(v)[1] == v / 256,
        at16(s, i) == s[i] + 256 * s[i + 1],
        at32(s, i) == s[i] + 256 * s[i + 1] + 65536 * s[i + 2] + 16777216 * s[i + 3],
{
}

/// A signed value is the one in its range that agrees with the octets modulo a
/// power of two.
pub proof fn lemma_signed(v: int)
    ensures
        0 <= v < 65536 ==> -32768 <= signed16(v) < 32768 && (signed16(v) == v || signed16(v) == v
            - 65536),
        0 <= v < 4294967296 ==> -2147483648 <= signed32(v) < 2147483648 && (signed32(v) == v
            || signed32(v) == v - 4294967296),
{
}

/// Alignment appends as few zeros as make the length a multiple.
pub proof fn lemma_aligned(s: Seq<u8>, n: int)
    requires
        n == 2 || n == 4,
    ensures
        aligned(s, n).len() as int % n == 0,
        s.len() <= aligned(s, n).len() < s.len() + n,
        aligned(s, n).take(s.len() as int) == s,
        forall|i: int| s.len() <= i < aligned(s, n).len() ==> #[trigger] aligned(s, n)[i] == 0,
{
    assert(aligned(s, n).take(s.len() as int) =~= s);
}

} // verus!
