//! Data-field bit-level decoding: descramble the decoded bits and cut the PSDU
//! out [23.3.9.2, 23.3.9.3].

use crate::bits::{bits_to_bytes, byte_bits, lemma_bytes_roundtrip, lemma_uint_bits_len};
use crate::bits::{is_binary, lemma_packed_order, packed_bytes, uint_bits, uint_lsb};
use crate::params::{N_SERVICE, N_TAIL};
use crate::scrambler::{lemma_scramble_involution, lemma_seed_recovery, recover_seed};
use crate::scrambler::laws::lemma_scrambled_bit;
use crate::scrambler::{scramble_in_place, scrambled, sequence_bit};
use crate::tx::{data_bits, overhead_bits, payload_bits};
use crate::vector::Coding;
use vstd::prelude::*;

verus! {

/// What a Data field decodes to.
#[derive(Debug, PartialEq, Eq)]
pub struct DecodeResult {
    pub psdu: Vec<u8>,
    /// Recovered scrambler seed (SERVICE field B0..B6).
    pub scrambler_seed: u8,
}

/// The part of the decoded bits that is scrambled: all but the BCC tail.
pub open spec fn scrambled_part(coding: Coding, bits: Seq<u8>) -> Seq<u8> {
    match coding {
        Coding::Bcc => bits.take(bits.len() - 6),
        Coding::Ldpc => bits,
    }
}

/// The seed in the SERVICE field.
pub open spec fn carried_seed(bits: Seq<u8>) -> u8 {
    uint_lsb(bits.take(7)) as u8
}

/// The PSDU of `octets` octets in decoded bits.
pub open spec fn carried_psdu(coding: Coding, bits: Seq<u8>, octets: int) -> Seq<u8> {
    packed_bytes(
        scrambled(carried_seed(bits), scrambled_part(coding, bits)).subrange(8, 8 + 8 * octets),
    )
}

/// Descramble decoded Data-field bits (everything but the BCC tail) with the
/// seed recovered from the first 7 bits (SERVICE B0..B6 are zero before
/// scrambling) and return the PSDU.
pub fn extract_psdu(coding: Coding, bits: &[u8], psdu_length: usize) -> (r: DecodeResult)
    requires
        8 * psdu_length + overhead_bits(coding) <= bits@.len(),
    ensures
        r.scrambler_seed == carried_seed(bits@),
        r.scrambler_seed < 128,
        r.psdu@ == carried_psdu(coding, bits@, psdu_length as int),
        r.psdu@.len() == psdu_length,
{
    let seed: u8 = recover_seed(bits);
    let scr_len: usize = match coding {
        Coding::Bcc => bits.len() - N_TAIL,
        Coding::Ldpc => bits.len(),
    };
    let mut part: Vec<u8> = Vec::with_capacity(scr_len);
    part.extend_from_slice(&bits[0..scr_len]);
    proof {
        assert(part@ =~= scrambled_part(coding, bits@));
    }
    scramble_in_place(seed, part.as_mut_slice());
    let all = part.as_slice();
    let psdu_bits = &all[N_SERVICE..N_SERVICE + 8 * psdu_length];
    proof {
        assert(psdu_bits@ =~= all@.subrange(8, 8 + 8 * psdu_length as int));
    }
    DecodeResult { psdu: bits_to_bytes(psdu_bits), scrambler_seed: seed }
}

/// What the transmitter scrambles the receiver descrambles: from the Data-field
/// bits of a PSDU the seed and the PSDU come back, for either coding.
pub proof fn lemma_extract_inverts_build(coding: Coding, seed: u8, psdu: Seq<u8>, n: int)
    requires
        seed < 128,
        8 * psdu.len() + overhead_bits(coding) <= n,
    ensures
        carried_seed(data_bits(coding, seed, psdu, n)) == seed,
        carried_psdu(coding, data_bits(coding, seed, psdu, n), psdu.len() as int) == psdu,
{
    let m = match coding {
        Coding::Bcc => n - 6,
        Coding::Ldpc => n,
    };
    let payload = payload_bits(psdu, m);
    let bits = data_bits(coding, seed, psdu, n);
    lemma_seed_recovery(seed, payload);
    assert(bits.take(7) =~= scrambled(seed, payload).take(7));
    assert(scrambled_part(coding, bits) =~= scrambled(seed, payload));
    lemma_scramble_involution(seed, payload);
    let body = payload.subrange(8, 8 + 8 * psdu.len() as int);
    assert(body =~= byte_bits(psdu));
    lemma_bytes_roundtrip(psdu);
}

proof fn lemma_zero_bits(n: nat, i: int)
    requires
        0 <= i < n,
    ensures
        uint_bits(0, n)[i] == 0,
    decreases n,
{
    lemma_uint_bits_len(0, (n - 1) as nat);
    if i > 0 {
        lemma_zero_bits((n - 1) as nat, i - 1);
        assert(uint_bits(0, n)[i] == uint_bits(0, (n - 1) as nat)[i - 1]);
    }
}

/// A receiver that reads more octets than the PSDU has, as far as the field
/// goes, gets the PSDU and zeros behind it.
pub proof fn lemma_extract_pads_with_zeros(
    coding: Coding,
    seed: u8,
    psdu: Seq<u8>,
    n: int,
    octets: int,
)
    requires
        seed < 128,
        psdu.len() <= octets,
        8 * octets + overhead_bits(coding) <= n,
    ensures
        carried_psdu(coding, data_bits(coding, seed, psdu, n), octets) == psdu + Seq::new(
            (octets - psdu.len()) as nat,
            |i: int| 0u8,
        ),
{
    let m = match coding {
        Coding::Bcc => n - 6,
        Coding::Ldpc => n,
    };
    let padded = psdu + Seq::new((octets - psdu.len()) as nat, |i: int| 0u8);
    let a = payload_bits(psdu, m);
    let b = payload_bits(padded, m);
    assert forall|i: int| 0 <= i < m implies a[i] == b[i] by {
        let p = i - 8;
        if 0 <= p < 8 * psdu.len() {
            assert(padded[p / 8] == psdu[p / 8]);
        } else if 0 <= p < 8 * octets {
            assert(padded[p / 8] == 0);
            lemma_zero_bits(8, p % 8);
        }
    }
    assert(a =~= b);
    lemma_extract_inverts_build(coding, seed, padded, n);
}

/// Collects the soft bits of a Data field symbol by symbol.
pub struct DataDecoder<T> {
    pub coding: Coding,
    pub n_sym: usize,
    pub psdu_length: usize,
    pub soft: Vec<T>,
    pub fed: usize,
}

impl<T: Copy> DataDecoder<T> {
    /// An empty decoder for `n_sym` symbols that carry `psdu_length` octets.
    pub fn new(coding: Coding, n_sym: usize, psdu_length: usize) -> (d: Self)
        ensures
            d.coding == coding,
            d.n_sym == n_sym,
            d.psdu_length == psdu_length,
            d.soft@ == Seq::<T>::empty(),
            d.fed == 0,
    {
        DataDecoder { coding, n_sym, psdu_length, soft: Vec::new(), fed: 0 }
    }

    /// Feed the soft bits of one symbol. Returns true after the final symbol.
    pub fn push_symbol(&mut self, symbol: &[T]) -> (done: bool)
        requires
            old(self).fed < old(self).n_sym,
        ensures
            final(self).soft@ == old(self).soft@ + symbol@,
            final(self).fed == old(self).fed + 1,
            final(self).coding == old(self).coding,
            final(self).n_sym == old(self).n_sym,
            final(self).psdu_length == old(self).psdu_length,
            done == (final(self).fed == final(self).n_sym),
    {
        let ghost before = self.soft@;
        for i in 0..symbol.len()
            invariant
                self.soft@ == before + symbol@.take(i as int),
                self.fed == old(self).fed,
                self.coding == old(self).coding,
                self.n_sym == old(self).n_sym,
                self.psdu_length == old(self).psdu_length,
        {
            self.soft.push(symbol[i]);
            proof {
                assert(before + symbol@.take(i + 1) =~= (before + symbol@.take(i as int)).push(
                    symbol@[i as int],
                ));
            }
        }
        proof {
            assert(symbol@.take(symbol@.len() as int) =~= symbol@);
        }
        self.fed = self.fed + 1;
        self.fed >= self.n_sym
    }
}

/// What is cut out of decoded bits: the seed is the number that the first seven
/// spell, lowest first; octet `i` of the PSDU is the number that the eight bits
/// from `8 + 8 i` on spell, lowest first, each less its bit of the sequence for that
/// seed.
pub proof fn lemma_cut_out(coding: Coding, bits: Seq<u8>, octets: int, i: int)
    requires
        is_binary(bits),
        0 <= i < octets,
        8 * octets + 14 <= bits.len(),
    ensures
        carried_seed(bits) == bits[0] + 2 * bits[1] + 4 * bits[2] + 8 * bits[3] + 16 * bits[4] + 32
            * bits[5] + 64 * bits[6],
        carried_psdu(coding, bits, octets).len() == octets,
        ({
            let s = carried_seed(bits);
            let p = 8 + 8 * i;
            carried_psdu(coding, bits, octets)[i] == (bits[p] + sequence_bit(s, p as nat)) % 2 + 2 * ((
            bits[p + 1] + sequence_bit(s, (p + 1) as nat)) % 2) + 4 * ((bits[p + 2] + sequence_bit(
                s,
                (p + 2) as nat,
            )) % 2) + 8 * ((bits[p + 3] + sequence_bit(s, (p + 3) as nat)) % 2) + 16 * ((bits[p + 4]
                + sequence_bit(s, (p + 4) as nat)) % 2) + 32 * ((bits[p + 5] + sequence_bit(
                s,
                (p + 5) as nat,
            )) % 2) + 64 * ((bits[p + 6] + sequence_bit(s, (p + 6) as nat)) % 2) + 128 * ((bits[p + 7]
                + sequence_bit(s, (p + 7) as nat)) % 2)
        }),
{
    let t = bits.take(7);
    assert(uint_lsb(t) == bits[0] + 2 * bits[1] + 4 * bits[2] + 8 * bits[3] + 16 * bits[4] + 32
        * bits[5] + 64 * bits[6]) by {
        let u = t.drop_first().drop_first().drop_first();
        assert(uint_lsb(u) == bits[3] + 2 * bits[4] + 4 * bits[5] + 8 * bits[6]) by {
            reveal_with_fuel(uint_lsb, 5);
        }
        reveal_with_fuel(uint_lsb, 4);
    }
    let s = carried_seed(bits);
    let part = scrambled_part(coding, bits);
    let plain = scrambled(s, part);
    let body = plain.subrange(8, 8 + 8 * octets);
    assert forall|k: int| 0 <= k < 8 * octets implies #[trigger] body[k] == (bits[8 + k]
        + sequence_bit(s, (8 + k) as nat)) % 2 by {
        assert(part[8 + k] == bits[8 + k]);
        lemma_scrambled_bit(s, part, 8 + k);
    }
    assert(is_binary(body)) by {
        assert forall|k: int| 0 <= k < body.len() implies #[trigger] body[k] <= 1 by {
            assert(body[k] == (bits[8 + k] + sequence_bit(s, (8 + k) as nat)) % 2);
        }
    }
    lemma_packed_order(body, i);
}

} // verus!
