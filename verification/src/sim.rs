//! Simulation helpers: a splitmix64 generator, and the rules of the loopback
//! simulator.

use crate::params::valid_mcs;
use crate::text::{chars_of, equals, parse_unsigned, unsigned_value};
use vstd::arithmetic::div_mod::{lemma_add_mod_noop, lemma_small_mod};
use vstd::prelude::*;

verus! {

/// splitmix64. A bare LCG has lattice correlation at the STF
/// autocorrelation lag and falsely triggers the detector; this does not.
#[derive(Debug, Clone, Copy, PartialEq, Eq, Structural)]
pub struct Rng(pub u64);

/// The state that follows `s`.
pub open spec fn next_state(s: u64) -> u64 {
    ((s + 0x9E37_79B9_7F4A_7C15) % 0x1_0000_0000_0000_0000) as u64
}

/// The low 64 bits of a product.
pub open spec fn times(x: u64, y: u64) -> u64 {
    ((x * y) % 0x1_0000_0000_0000_0000) as u64
}

/// The output drawn from state `s`.
pub open spec fn mix(s: u64) -> u64 {
    let a = times(s ^ (s >> 30), 0xBF58_476D_1CE4_E5B9);
    let b = times(a ^ (a >> 27), 0x94D0_49BB_1331_11EB);
    b ^ (b >> 31)
}

/// The state after `n` draws.
pub open spec fn state_after(s: u64, n: nat) -> u64
    decreases n,
{
    if n == 0 {
        s
    } else {
        next_state(state_after(s, (n - 1) as nat))
    }
}

impl Rng {
    /// Draw 64 bits.
    pub fn next_u64(&mut self) -> (z: u64)
        ensures
            final(self).0 == next_state(old(self).0),
            z == mix(final(self).0),
    {
        self.0 = self.0.wrapping_add(0x9E37_79B9_7F4A_7C15);
        let s: u64 = self.0;
        let a: u64 = (s ^ (s >> 30)).wrapping_mul(0xBF58_476D_1CE4_E5B9);
        let b: u64 = (a ^ (a >> 27)).wrapping_mul(0x94D0_49BB_1331_11EB);
        b ^ (b >> 31)
    }

    /// Draw `n` bytes, each bits 40 to 47 of one draw.
    pub fn bytes(&mut self, n: usize) -> (out: Vec<u8>)
        ensures
            out@ == Seq::new(
                n as nat,
                |i: int| (mix(state_after(old(self).0, (i + 1) as nat)) >> 40) as u8,
            ),
            final(self).0 == state_after(old(self).0, n as nat),
    {
        let ghost start = self.0;
        let mut out: Vec<u8> = Vec::with_capacity(n);
        for i in 0..n
            invariant
                self.0 == state_after(start, i as nat),
                out@ == Seq::new(
                    i as nat,
                    |k: int| (mix(state_after(start, (k + 1) as nat)) >> 40) as u8,
                ),
        {
            let z: u64 = self.next_u64();
            out.push(
                #[verifier::truncate]
                ((z >> 40) as u8),
            );
            proof {
                assert(out@ =~= Seq::new(
                    (i + 1) as nat,
                    |k: int| (mix(state_after(start, (k + 1) as nat)) >> 40) as u8,
                ));
            }
        }
        out
    }
}

/// The MCS indices to simulate: all valid ones for the word `all`, else the
/// one index that the text spells.
pub fn mcs_list(text: &str) -> (r: Option<Vec<u8>>)
    ensures
        if text@ == "all"@ {
            r matches Some(v) && v@ == seq![0u8, 1, 2, 3, 4, 5, 6, 7, 8, 11]
        } else {
            match unsigned_value(text@, 10, 255) {
                Some(n) => r matches Some(v) && v@ == seq![n as u8],
                None => r is None,
            }
        },
{
    let cs: Vec<char> = chars_of(text);
    if equals(cs.as_slice(), "all") {
        return Some(valid_mcs());
    }
    match parse_unsigned(cs.as_slice(), 10, 255) {
        Some(n) => {
            let v: Vec<u8> = vec![n as u8];
            proof {
                assert(v@ =~= seq![n as u8]);
            }
            Some(v)
        },
        None => None,
    }
}

/// The sent PSDU came through: the received one begins with it. (An
/// aggregated PSDU comes back padded to the symbol capacity.)
pub fn delivered(received: &[u8], sent: &[u8]) -> (ok: bool)
    ensures
        ok == sent@.is_prefix_of(received@),
{
    if received.len() < sent.len() {
        return false;
    }
    for i in 0..sent.len()
        invariant
            sent@.len() <= received@.len(),
            forall|k: int| 0 <= k < i ==> sent@[k] == #[trigger] received@[k],
    {
        if received[i] != sent[i] {
            proof {
                assert(received@.subrange(0, sent@.len() as int)[i as int] == received@[i as int]);
            }
            return false;
        }
    }
    proof {
        assert(sent@ =~= received@.subrange(0, sent@.len() as int));
    }
    true
}

/// The generator counts: after `n` draws the state has grown by `n` times the odd
/// constant, modulo 2^64.
pub proof fn lemma_state_counts(s: u64, n: nat)
    ensures
        state_after(s, n) == (s + n * 0x9E37_79B9_7F4A_7C15) % 0x1_0000_0000_0000_0000,
    decreases n,
{
    if n == 0 {
        lemma_small_mod(s as nat, 0x1_0000_0000_0000_0000);
    } else {
        let m = (n - 1) as nat;
        lemma_state_counts(s, m);
        assert(n * 0x9E37_79B9_7F4A_7C15 == m * 0x9E37_79B9_7F4A_7C15 + 0x9E37_79B9_7F4A_7C15)
            by (nonlinear_arith)
            requires
                n == m + 1,
        ;
        lemma_add_mod_noop(
            s + m * 0x9E37_79B9_7F4A_7C15,
            0x9E37_79B9_7F4A_7C15,
            0x1_0000_0000_0000_0000,
        );
        lemma_small_mod(0x9E37_79B9_7F4A_7C15, 0x1_0000_0000_0000_0000);
    }
}

/// What is drawn from a state: twice the state is folded with itself, shifted right
/// by 30 and 27, and multiplied by an odd constant, and at last folded with itself
/// shifted by 31.
pub proof fn lemma_mixing(s: u64) -> (steps: (u64, u64))
    ensures
        steps.0 == ((s ^ (s >> 30)) * 0xBF58_476D_1CE4_E5B9) % 0x1_0000_0000_0000_0000,
        steps.1 == ((steps.0 ^ (steps.0 >> 27)) * 0x94D0_49BB_1331_11EB) % 0x1_0000_0000_0000_0000,
        mix(s) == steps.1 ^ (steps.1 >> 31),
{
    let a = times(s ^ (s >> 30), 0xBF58_476D_1CE4_E5B9);
    let b = times(a ^ (a >> 27), 0x94D0_49BB_1331_11EB);
    (a, b)
}

} // verus!
