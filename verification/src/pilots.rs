//! Pilot subcarriers for 2 MHz [23.3.9.10].
//!
//! Fixed pilots at k in {-21, -7, +7, +21}. Data symbol n (0-based within the
//! Data field) carries value p_{n+2} * Psi_{(n+l) mod 4} on pilot l, with
//! Psi = [1, 1, 1, -1] [Eq 21-91; Table 19-19 N_STS=1] and p the 127-element
//! polarity sequence [Eq 17-25]. SIG symbol n in {0, 1} carries p_n * P_k
//! with P = [1, 1, 1, -1] (Clause-17 fixed values) [Eq 23-18, 17.3.5.10].

use crate::bits::{lemma_uint_bits_len, uint_bits};
use crate::scrambler::{lemma_xor, sequence_bit};
use vstd::prelude::*;

verus! {

/// Pilot subcarrier indices for 2 MHz, ascending (pilot l = 0..3).
pub const PILOT_INDICES: [i32; 4] = [-21, -7, 7, 21];

/// Psi row for N_STS = 1 [Table 19-19].
pub const PSI: [i8; 4] = [1, 1, 1, -1];

/// Clause-17 fixed pilot values P_k at {-21,-7,+7,+21} (SIG field) [Eq 17-24].
pub const SIG_PILOT_VALUES: [i8; 4] = [1, 1, 1, -1];

/// 127-element pilot polarity sequence [Eq 17-25].
pub const POLARITY: [i8; 127] = [
    1, 1, 1, 1, -1, -1, -1, 1, -1, -1, -1, -1, 1, 1, -1, 1,
    -1, -1, 1, 1, -1, 1, 1, -1, 1, 1, 1, 1, 1, 1, -1, 1,
    1, 1, -1, 1, 1, -1, -1, 1, 1, 1, -1, 1, -1, -1, -1, 1,
    -1, 1, -1, -1, 1, -1, -1, 1, 1, 1, 1, 1, -1, -1, 1, 1,
    -1, -1, 1, -1, 1, -1, 1, 1, -1, -1, -1, 1, 1, -1, -1, -1,
    -1, 1, -1, -1, 1, -1, 1, 1, 1, 1, -1, 1, -1, 1, -1, 1,
    -1, -1, -1, -1, -1, 1, -1, 1, 1, -1, 1, -1, 1, 1, 1, -1,
    -1, 1, -1, -1, -1, 1, 1, 1, -1, -1, -1, -1, -1, -1, -1,
];

/// p_n, cyclic with period 127.
pub open spec fn spec_polarity(n: int) -> int {
    POLARITY[n % 127] as int
}

/// The table obeys the scrambler's feedback, with -1 for a one.
proof fn lemma_polarity_feedback(i: int)
    requires
        0 <= i < 127,
    ensures
        POLARITY[i] == 1 || POLARITY[i] == -1,
        i >= 7 ==> (POLARITY[i] == 1 <==> POLARITY[i - 4] == POLARITY[i - 7]),
        i < 4 ==> POLARITY[i] == 1,
        4 <= i < 7 ==> POLARITY[i] == -1,
{
}

/// p is the scrambler output for the all-ones *register* state with 1 as -1
/// and 0 as +1; in the seed convention (first 7 output bits, LSB first) that
/// register state produces the seed-112 sequence.
pub proof fn lemma_polarity_is_scrambler(i: int)
    requires
        0 <= i < 127,
    ensures
        POLARITY[i] == 1 - 2 * sequence_bit(112, i as nat),
    decreases i,
{
    lemma_polarity_feedback(i);
    if i < 7 {
        reveal_with_fuel(uint_bits, 8);
        lemma_uint_bits_len(112, 7);
    } else {
        lemma_polarity_is_scrambler(i - 4);
        lemma_polarity_is_scrambler(i - 7);
        lemma_polarity_feedback(i - 4);
        lemma_polarity_feedback(i - 7);
        lemma_xor(0, 0, 0);
        lemma_xor(1, 0, 0);
        lemma_xor(1, 1, 0);
    }
}

/// Pilot polarity p_n (cyclic).
pub fn polarity(n: usize) -> (p: i8)
    ensures
        p == spec_polarity(n as int),
        p == 1 || p == -1,
{
    proof {
        lemma_polarity_feedback(n as int % 127);
    }
    POLARITY[n % 127]
}

/// Pilot values for Data symbol `n` (0-based within the Data field), in
/// `PILOT_INDICES` order. Includes the p_{n+2} polarity (the two SIG symbols
/// consume p_0 and p_1) [Eq 23-55].
pub fn data_pilots(n: usize) -> (v: [i8; 4])
    requires
        n + 3 <= usize::MAX,
    ensures
        forall|l: int|
            0 <= l < 4 ==> #[trigger] v@[l] == spec_polarity(n + 2) * PSI[(n + l) % 4],
{
    let pol: i8 = polarity(n + 2);
    let v: [i8; 4] = [
        signed(pol, PSI[n % 4]),
        signed(pol, PSI[(n + 1) % 4]),
        signed(pol, PSI[(n + 2) % 4]),
        signed(pol, PSI[(n + 3) % 4]),
    ];
    proof {
        assert((n + 0) % 4 == n % 4);
    }
    v
}

/// `sign * v` for a sign and a sign.
fn signed(sign: i8, v: i8) -> (r: i8)
    requires
        sign == 1 || sign == -1,
        v == 1 || v == -1,
    ensures
        r == sign * v,
{
    if sign == 1 {
        proof {
            assert(1 * v == v);
        }
        v
    } else {
        proof {
            assert((-1) * v == -v);
        }
        -v
    }
}

/// Pilot values for SIG symbol `n` (0 or 1), in `PILOT_INDICES` order.
pub fn sig_pilots(n: usize) -> (v: [i8; 4])
    requires
        n < 2,
    ensures
        forall|l: int|
            0 <= l < 4 ==> #[trigger] v@[l] == spec_polarity(n as int) * SIG_PILOT_VALUES[l],
{
    let pol: i8 = polarity(n);
    [
        signed(pol, SIG_PILOT_VALUES[0]),
        signed(pol, SIG_PILOT_VALUES[1]),
        signed(pol, SIG_PILOT_VALUES[2]),
        signed(pol, SIG_PILOT_VALUES[3]),
    ]
}

/// p_0 = p_1 = +1: both SIG symbols carry {1, 1, 1, -1}.
pub proof fn lemma_sig_pilots_constant(n: int)
    requires
        0 <= n < 2,
    ensures
        spec_polarity(n) == 1,
{
}

/// The polarity repeats every 127 symbols, and there are four pilots, at -21, -7,
/// 7 and 21, of which the last has the other sign.
pub proof fn lemma_pilot_values(n: int)
    requires
        n >= 0,
    ensures
        spec_polarity(n) == 1 - 2 * sequence_bit(112, (n % 127) as nat),
        PILOT_INDICES[0] == -21 && PILOT_INDICES[1] == -7 && PILOT_INDICES[2] == 7
            && PILOT_INDICES[3] == 21,
        PSI[0] == 1 && PSI[1] == 1 && PSI[2] == 1 && PSI[3] == -1,
        SIG_PILOT_VALUES[0] == 1 && SIG_PILOT_VALUES[1] == 1 && SIG_PILOT_VALUES[2] == 1
            && SIG_PILOT_VALUES[3] == -1,
{
    lemma_polarity_is_scrambler(n % 127);
}

} // verus!
