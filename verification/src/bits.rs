//! Bit-vector helpers.
//!
//! Convention used throughout the crate: bits travel as `u8` values 0/1 in
//! `Vec<u8>`/`&[u8]`. Bytes are serialized **LSB first** (802.11 transmit
//! order): the byte 0x01 expands to `[1,0,0,0,0,0,0,0]`.
//!
//! Soft bits (LLRs) follow the convention **LLR > 0 => bit = 0**.

use vstd::arithmetic::power2::*;
use vstd::prelude::*;

verus! {

/// The unsigned integer that `bits` spell, first bit = LSB; only the lowest
/// bit of each entry counts.
pub open spec fn uint_lsb(bits: Seq<u8>) -> nat
    decreases bits.len(),
{
    if bits.len() == 0 {
        0
    } else {
        (bits[0] % 2) as nat + 2 * uint_lsb(bits.drop_first())
    }
}

/// The `n` low bits of `v`, LSB first.
pub open spec fn uint_bits(v: nat, n: nat) -> Seq<u8>
    decreases n,
{
    if n == 0 {
        Seq::empty()
    } else {
        seq![(v % 2) as u8] + uint_bits(v / 2, (n - 1) as nat)
    }
}

/// Every byte of `bytes` as eight bits, LSB first.
pub open spec fn byte_bits(bytes: Seq<u8>) -> Seq<u8> {
    Seq::new(8 * bytes.len(), |p: int| uint_bits(bytes[p / 8] as nat, 8)[p % 8])
}

/// The bytes that groups of eight bits spell.
pub open spec fn packed_bytes(bits: Seq<u8>) -> Seq<u8> {
    Seq::new(bits.len() / 8, |i: int| uint_lsb(bits.subrange(8 * i, 8 * i + 8)) as u8)
}

/// Every entry is 0 or 1.
pub open spec fn is_binary(bits: Seq<u8>) -> bool {
    forall|i: int| 0 <= i < bits.len() ==> #[trigger] bits[i] <= 1
}

pub proof fn lemma_uint_bits_len(v: nat, n: nat)
    ensures
        uint_bits(v, n).len() == n,
        is_binary(uint_bits(v, n)),
    decreases n,
{
    if n > 0 {
        lemma_uint_bits_len(v / 2, (n - 1) as nat);
        let rest = uint_bits(v / 2, (n - 1) as nat);
        assert forall|i: int| 0 <= i < n implies #[trigger] uint_bits(v, n)[i] <= 1 by {
            if i > 0 {
                assert(uint_bits(v, n)[i] == rest[i - 1]);
            }
        }
    }
}

/// Reading `n` bits back gives the value modulo `2^n`.
pub proof fn lemma_uint_roundtrip(v: nat, n: nat)
    ensures
        uint_lsb(uint_bits(v, n)) == v % pow2(n),
    decreases n,
{
    if n == 0 {
        lemma2_to64();
    } else {
        let m = (n - 1) as nat;
        lemma_uint_roundtrip(v / 2, m);
        let s = uint_bits(v, n);
        assert(s.drop_first() =~= uint_bits(v / 2, m));
        lemma_pow2_unfold(n);
        lemma_pow2_pos(m);
        assert(v % 2 + 2 * ((v / 2) % pow2(m)) == v % (2 * pow2(m))) by {
            vstd::arithmetic::div_mod::lemma_mod_breakdown(v as int, 2, pow2(m) as int);
        }
    }
}

/// Writing the integer that 0/1 bits spell gives the bits back.
pub proof fn lemma_bits_roundtrip(bits: Seq<u8>)
    requires
        is_binary(bits),
    ensures
        uint_bits(uint_lsb(bits), bits.len()) == bits,
    decreases bits.len(),
{
    if bits.len() > 0 {
        let rest = bits.drop_first();
        assert forall|i: int| 0 <= i < rest.len() implies #[trigger] rest[i] <= 1 by {
            assert(rest[i] == bits[i + 1]);
        }
        lemma_bits_roundtrip(rest);
        assert(bits[0] <= 1);
        let v = uint_lsb(bits);
        assert(v / 2 == uint_lsb(rest));
        assert(uint_bits(v, bits.len()) =~= bits);
    }
}

pub proof fn lemma_uint_lsb_bound(bits: Seq<u8>)
    ensures
        uint_lsb(bits) < pow2(bits.len()),
    decreases bits.len(),
{
    if bits.len() == 0 {
        lemma2_to64();
    } else {
        lemma_uint_lsb_bound(bits.drop_first());
        lemma_pow2_unfold(bits.len());
    }
}

/// Expand bytes to bits, LSB of each byte first.
pub fn bytes_to_bits(bytes: &[u8]) -> (out: Vec<u8>)
    requires
        8 * bytes.len() <= usize::MAX,
    ensures
        out@ == byte_bits(bytes@),
{
    let mut out: Vec<u8> = Vec::with_capacity(bytes.len() * 8);
    for n in 0..bytes.len()
        invariant
            out@ == byte_bits(bytes@).take(8 * n as int),
    {
        let ghost start = out@;
        push_uint_lsb_first(&mut out, bytes[n] as u64, 8);
        proof {
            lemma_uint_bits_len(bytes[n as int] as nat, 8);
            let all = byte_bits(bytes@);
            assert forall|p: int| 0 <= p < 8 * (n + 1) implies out@[p] == all[p] by {
                if p < 8 * n {
                    assert(start[p] == all[p]);
                } else {
                    assert(p / 8 == n && p % 8 == p - 8 * n);
                }
            }
            assert(out@ =~= all.take(8 * (n + 1)));
        }
    }
    proof {
        assert(byte_bits(bytes@).take(8 * bytes.len() as int) =~= byte_bits(bytes@));
    }
    out
}

/// Pack bits (LSB-first per byte) back into bytes. `bits.len()` must be a
/// multiple of 8.
pub fn bits_to_bytes(bits: &[u8]) -> (out: Vec<u8>)
    requires
        bits.len() % 8 == 0,
    ensures
        out@ == packed_bytes(bits@),
{
    let n: usize = bits.len() / 8;
    let mut out: Vec<u8> = Vec::with_capacity(n);
    for i in 0..n
        invariant
            n == bits.len() / 8,
            bits.len() % 8 == 0,
            out@ == packed_bytes(bits@).take(i as int),
    {
        let chunk = &bits[8 * i..8 * i + 8];
        let v: u64 = bits_to_uint_lsb_first(chunk);
        proof {
            lemma_uint_lsb_bound(chunk@);
            lemma2_to64();
        }
        out.push(v as u8);
        proof {
            assert(out@ =~= packed_bytes(bits@).take(i + 1));
        }
    }
    proof {
        assert(packed_bytes(bits@).take(n as int) =~= packed_bytes(bits@));
    }
    out
}

/// Interpret bits (as produced by [`bytes_to_bits`]) as an unsigned integer,
/// first bit = LSB.
pub fn bits_to_uint_lsb_first(bits: &[u8]) -> (v: u64)
    requires
        bits.len() <= 64,
    ensures
        v == uint_lsb(bits@),
        v < pow2(bits@.len()),
{
    let mut acc: u64 = 0;
    let mut i: usize = bits.len();
    proof {
        assert(bits@.skip(i as int) =~= Seq::<u8>::empty());
        lemma_uint_lsb_bound(bits@);
    }
    while i > 0
        invariant
            i <= bits.len() <= 64,
            acc == uint_lsb(bits@.skip(i as int)),
        decreases i,
    {
        let ghost tail = bits@.skip(i - 1);
        proof {
            assert(tail.drop_first() =~= bits@.skip(i as int));
            lemma_uint_lsb_bound(tail);
            if tail.len() < 64 {
                lemma_pow2_strictly_increases(tail.len(), 64);
            }
            lemma2_to64();
            lemma2_to64_rest();
        }
        i = i - 1;
        acc = 2 * acc + (bits[i] % 2) as u64;
    }
    proof {
        assert(bits@.skip(0) =~= bits@);
    }
    acc
}

/// Write `n` bits of `value` into a bit vector, LSB first.
pub fn push_uint_lsb_first(out: &mut Vec<u8>, value: u64, n: usize)
    requires
        n <= 64,
    ensures
        final(out)@ == old(out)@ + uint_bits(value as nat, n as nat),
{
    let mut v: u64 = value;
    let ghost start = out@;
    let ghost all = uint_bits(value as nat, n as nat);
    proof {
        lemma_uint_bits_len(value as nat, n as nat);
        assert(out@ =~= start + all.take(0));
        assert(all.skip(0) =~= all);
    }
    for i in 0..n
        invariant
            all.len() == n,
            out@ == start + all.take(i as int),
            all.skip(i as int) == uint_bits(v as nat, (n - i) as nat),
    {
        let ghost rest = uint_bits(v as nat, (n - i) as nat);
        proof {
            assert(rest[0] == all[i as int]);
            assert(rest.drop_first() =~= uint_bits((v / 2) as nat, (n - i - 1) as nat));
            assert(all.skip(i + 1) =~= rest.drop_first());
        }
        out.push((v % 2) as u8);
        v = v / 2;
        proof {
            assert(out@ =~= start + all.take(i + 1));
        }
    }
    proof {
        assert(all.take(n as int) =~= all);
    }
}

/// Packing the bits of some bytes gives the bytes back.
pub proof fn lemma_bytes_roundtrip(bytes: Seq<u8>)
    ensures
        packed_bytes(byte_bits(bytes)) == bytes,
{
    let bits = byte_bits(bytes);
    assert forall|i: int| 0 <= i < bytes.len() implies packed_bytes(bits)[i] == bytes[i] by {
        lemma_uint_bits_len(bytes[i] as nat, 8);
        assert(bits.subrange(8 * i, 8 * i + 8) =~= uint_bits(bytes[i] as nat, 8)) by {
            assert forall|k: int| 0 <= k < 8 implies bits.subrange(8 * i, 8 * i + 8)[k]
                == uint_bits(bytes[i] as nat, 8)[k] by {
                assert((8 * i + k) / 8 == i && (8 * i + k) % 8 == k);
            }
        }
        lemma_uint_roundtrip(bytes[i] as nat, 8);
        lemma2_to64();
        assert(bytes[i] as nat % 256 == bytes[i]);
    }
    assert(packed_bytes(bits) =~= bytes);
}

/// Expanding packed bytes gives the 0/1 bits back.
pub proof fn lemma_packed_roundtrip(bits: Seq<u8>)
    requires
        bits.len() % 8 == 0,
        is_binary(bits),
    ensures
        byte_bits(packed_bytes(bits)) == bits,
{
    let bytes = packed_bytes(bits);
    assert forall|p: int| 0 <= p < bits.len() implies byte_bits(bytes)[p] == bits[p] by {
        let i = p / 8;
        let group = bits.subrange(8 * i, 8 * i + 8);
        assert forall|k: int| 0 <= k < 8 implies #[trigger] group[k] <= 1 by {
            assert(group[k] == bits[8 * i + k]);
        }
        lemma_bits_roundtrip(group);
        lemma_uint_lsb_bound(group);
        lemma2_to64();
        assert(group[p % 8] == bits[p]);
    }
    assert(byte_bits(bytes) =~= bits);
}

/// The eight bits of each byte, lowest first, and of nothing else.
pub proof fn lemma_byte_bits_order(bytes: Seq<u8>, i: int)
    requires
        0 <= i < bytes.len(),
    ensures
        ({
            let b = byte_bits(bytes);
            &&& b.len() == 8 * bytes.len()
            &&& forall|k: int| 0 <= k < 8 ==> #[trigger] b[8 * i + k] <= 1
            &&& b[8 * i] + 2 * b[8 * i + 1] + 4 * b[8 * i + 2] + 8 * b[8 * i + 3] + 16 * b[8 * i + 4]
                + 32 * b[8 * i + 5] + 64 * b[8 * i + 6] + 128 * b[8 * i + 7] == bytes[i]
        }),
{
    let v = bytes[i] as nat;
    let u = uint_bits(v, 8);
    lemma_uint_bits_len(v, 8);
    let b = byte_bits(bytes);
    assert forall|k: int| 0 <= k < 8 implies #[trigger] b[8 * i + k] == u[k] by {
        assert((8 * i + k) / 8 == i && (8 * i + k) % 8 == k);
    }
    assert(u[0] + 2 * u[1] + 4 * u[2] + 8 * u[3] + 16 * u[4] + 32 * u[5] + 64 * u[6] + 128 * u[7]
        == v) by {
        reveal_with_fuel(uint_bits, 9);
    }
    assert(b[8 * i + 0] == u[0]);
}

/// The byte that eight bits spell, the first bit counting 1 and the last 128.
pub proof fn lemma_packed_order(bits: Seq<u8>, i: int)
    requires
        is_binary(bits),
        0 <= i < bits.len() / 8,
    ensures
        packed_bytes(bits).len() == bits.len() / 8,
        packed_bytes(bits)[i] == bits[8 * i] + 2 * bits[8 * i + 1] + 4 * bits[8 * i + 2] + 8 * bits[8
            * i + 3] + 16 * bits[8 * i + 4] + 32 * bits[8 * i + 5] + 64 * bits[8 * i + 6] + 128
            * bits[8 * i + 7],
{
    let s = bits.subrange(8 * i, 8 * i + 8);
    let t = s.drop_first().drop_first().drop_first().drop_first();
    assert(uint_lsb(t) == bits[8 * i + 4] + 2 * bits[8 * i + 5] + 4 * bits[8 * i + 6] + 8 * bits[8
        * i + 7]) by {
        reveal_with_fuel(uint_lsb, 5);
        assert(t.len() == 4);
    }
    assert(uint_lsb(s) == bits[8 * i] + 2 * bits[8 * i + 1] + 4 * bits[8 * i + 2] + 8 * bits[8 * i
        + 3] + 16 * uint_lsb(t)) by {
        reveal_with_fuel(uint_lsb, 5);
    }
}

/// The value of bits, the first one counting 1 and each further one twice as
/// much.
pub proof fn lemma_uint_value(b: u8, rest: Seq<u8>)
    ensures
        uint_lsb(Seq::<u8>::empty()) == 0,
        uint_lsb(seq![b] + rest) == b % 2 + 2 * uint_lsb(rest),
{
    assert((seq![b] + rest).drop_first() =~= rest);
}

} // verus!
