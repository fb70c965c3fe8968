//! The TX chain down to bits: TXVECTOR + PSDU to SIG bits and Data-field bits
//! [23.3.4.3, 23.3.4.6.1].
//!
//! PPDU = STF, LTF1, SIG, Data (S1G_SHORT) or STF, LTF1, SIG-A, D-STF, D-LTF,
//! SIG-B, Data (S1G_LONG SU, 1 STS). Data symbols carry an 8 us GI, or 4 us
//! from the second symbol on with short GI. Data field:
//!
//! * **BCC**: SERVICE(8x0) + PSDU bits (LSB-first per octet) + pad, scrambled,
//!   then 6 zero tail bits; then BCC encoding and per-symbol interleaving.
//! * **LDPC** [23.3.9.4.4]: SERVICE + PSDU + pad (no tail), all scrambled;
//!   then LDPC PPDU encoding (codeword selection, shortening,
//!   puncturing/repetition, possibly one extra symbol).

use crate::arith::{ceil_div, lemma_ceil_div, spec_ceil_div};
use crate::bits::{byte_bits, bytes_to_bits, lemma_byte_bits_order};
use crate::clock::{since_epoch, EpochTime};
use crate::error::PhyError;
use crate::ldpc::PpduParams;
use crate::mapping::{level, point};
use crate::ofdm::{ldpc_tone_map, tone_of};
use crate::params::{lemma_mcs_row, mcs_params, spec_mcs_params, McsParams, Modulation};
use crate::params::{N_GI_LONG, N_GI_SHORT, N_SERVICE, N_SYM_MAX, N_TAIL, PSDU_MAX_NO_AGG};
use crate::params::{T_PREAMBLE_US, T_SYML_US};
use crate::scrambler::laws::lemma_scrambled_bit;
use crate::scrambler::{scramble_in_place, scrambled, sequence_bit};
use crate::sig::parse::{ndp_bits, ndp_field_bits};
use crate::sig::{sig_word, spec_id_from_txvector, SigASu, SigFields};
use crate::vector::{data_us, ppdu_duration_us, preamble_us, spec_data_field_geometry};
use crate::vector::{Coding, GuardInterval, PreambleType, TxVector};
use vstd::prelude::*;

verus! {

/// Data-field geometry chosen by the TX chain for a PSDU.
#[derive(Debug, Clone, Copy, PartialEq, Eq, Structural)]
pub struct DataGeometry {
    /// Symbols actually transmitted.
    pub n_sym: usize,
    /// N_SYM,init (LDPC), equals `n_sym` for BCC.
    pub n_sym_init: usize,
    /// LDPC Extra OFDM Symbol flag.
    pub ldpc_extra: bool,
    /// Value of the SIG Length field (octets or `n_sym`).
    pub length_field: u16,
}

/// Bits around the PSDU: SERVICE, and for BCC the tail.
pub open spec fn overhead_bits(coding: Coding) -> int {
    match coding {
        Coding::Bcc => 14,
        Coding::Ldpc => 8,
    }
}

/// The symbols that the payload bits fill: N_SYM for BCC, N_SYM,init for LDPC.
pub open spec fn payload_symbols(p: McsParams, psdu_len: int, coding: Coding) -> int {
    spec_ceil_div(8 * psdu_len + overhead_bits(coding), p.n_dbps as int)
}

/// LDPC encoding of `n_init` symbols takes one more.
#[verifier::opaque]
pub open spec fn takes_extra(p: McsParams, n_init: int, coding: Coding) -> bool {
    coding == Coding::Ldpc && PpduParams::spec_new(
        n_init,
        p.n_dbps as int,
        p.n_cbps as int,
        p.rate,
    ).extra_symbol
}

/// The geometry for `psdu_len` octets, or why there is none.
pub open spec fn spec_data_geometry(
    mcs: u8,
    psdu_len: usize,
    aggregation: bool,
    coding: Coding,
) -> Result<DataGeometry, PhyError> {
    match spec_mcs_params(mcs) {
        None => Err(PhyError::InvalidMcs(mcs)),
        Some(p) => if !aggregation && (psdu_len == 0 || psdu_len > 511) {
            Err(
                PhyError::InvalidLength {
                    len: psdu_len,
                    reason: "non-aggregated PSDU must be 1..=511 octets",
                },
            )
        } else if psdu_len == 0 {
            Err(PhyError::InvalidLength { len: 0, reason: "empty A-MPDU" })
        } else {
            let n_init = payload_symbols(p, psdu_len as int, coding);
            let extra = takes_extra(p, n_init, coding);
            let n_sym = if extra {
                n_init + 1
            } else {
                n_init
            };
            if n_sym > 511 {
                Err(
                    PhyError::InvalidLength {
                        len: psdu_len,
                        reason: "needs more than 511 symbols",
                    },
                )
            } else {
                Ok(
                    DataGeometry {
                        n_sym: n_sym as usize,
                        n_sym_init: n_init as usize,
                        ldpc_extra: extra,
                        length_field: if aggregation {
                            n_sym as u16
                        } else {
                            psdu_len as u16
                        },
                    },
                )
            }
        },
    }
}

/// An upper bound on PSDUs that fit 511 symbols at the highest rate.
const PSDU_NEVER_FITS: usize = 30_000;

/// Choose the Data-field geometry for `psdu_len` octets [Eq 23-79/23-80
/// (BCC), 23-46/23-47 + 19.3.11.7.5 (LDPC)].
pub fn data_geometry(mcs: u8, psdu_len: usize, aggregation: bool, coding: Coding) -> (r: Result<
    DataGeometry,
    PhyError,
>)
    ensures
        r == spec_data_geometry(mcs, psdu_len, aggregation, coding),
        r matches Ok(g) ==> 1 <= g.n_sym_init <= g.n_sym <= 511 && psdu_len <= 30_000,
{
    let p: McsParams = match mcs_params(mcs) {
        Ok(p) => p,
        Err(e) => {
            return Err(e);
        },
    };
    if !aggregation && (psdu_len == 0 || psdu_len > PSDU_MAX_NO_AGG) {
        return Err(
            PhyError::InvalidLength {
                len: psdu_len,
                reason: "non-aggregated PSDU must be 1..=511 octets",
            },
        );
    }
    if aggregation && psdu_len == 0 {
        return Err(PhyError::InvalidLength { len: 0, reason: "empty A-MPDU" });
    }
    proof {
        lemma_payload_symbols(p, psdu_len as int, coding);
    }
    if psdu_len > PSDU_NEVER_FITS {
        return Err(
            PhyError::InvalidLength { len: psdu_len, reason: "needs more than 511 symbols" },
        );
    }
    reveal(takes_extra);
    let (n_sym, n_sym_init, ldpc_extra): (usize, usize, bool) = match coding {
        Coding::Bcc => {
            let n: usize = ceil_div(8 * psdu_len + N_SERVICE + N_TAIL, p.n_dbps);
            (n, n, false)
        },
        Coding::Ldpc => {
            let n_init: usize = ceil_div(8 * psdu_len + N_SERVICE, p.n_dbps);
            proof {
                lemma_mcs_row(mcs);
                lemma_symbol_products(n_init as int, p.n_dbps as int, p.n_cbps as int);
                PpduParams::lemma_products_fit(
                    n_init as int,
                    p.n_dbps as int,
                    p.n_cbps as int,
                    p.rate,
                );
            }
            let lp: PpduParams = PpduParams::new(n_init, p.n_dbps, p.n_cbps, p.rate);
            (lp.n_sym, n_init, lp.extra_symbol)
        },
    };
    if n_sym > N_SYM_MAX {
        return Err(
            PhyError::InvalidLength { len: psdu_len, reason: "needs more than 511 symbols" },
        );
    }
    let length_field: u16 = if aggregation {
        n_sym as u16
    } else {
        psdu_len as u16
    };
    Ok(DataGeometry { n_sym, n_sym_init, ldpc_extra, length_field })
}

pub proof fn lemma_symbol_products(n: int, n_dbps: int, n_cbps: int)
    requires
        0 <= n <= 20_000,
        0 <= n_dbps <= 390,
        0 <= n_cbps <= 520,
    ensures
        0 <= n * n_dbps <= 0x0FFF_FFFF,
        0 <= n * n_cbps + n_cbps <= 0x0FFF_FFFF,
{
    assert(0 <= n * n_dbps <= 20_000 * 390 && 0 <= n * n_cbps <= 20_000 * 520) by (nonlinear_arith)
        requires
            0 <= n <= 20_000,
            0 <= n_dbps <= 390,
            0 <= n_cbps <= 520,
    ;
}

/// The payload fits the symbols and needs them all.
pub proof fn lemma_payload_symbols(p: McsParams, psdu_len: int, coding: Coding)
    requires
        26 <= p.n_dbps <= 390,
        psdu_len >= 0,
    ensures
        ({
            let n = payload_symbols(p, psdu_len, coding);
            let bits = 8 * psdu_len + overhead_bits(coding);
            &&& 1 <= n
            &&& (n - 1) * p.n_dbps < bits <= n * p.n_dbps
            &&& psdu_len > 30_000 ==> n > 511
            &&& psdu_len <= 30_000 ==> n <= 20_000
        }),
{
    let n = payload_symbols(p, psdu_len, coding);
    let bits = 8 * psdu_len + overhead_bits(coding);
    let d = p.n_dbps as int;
    lemma_ceil_div(bits, d);
    assert((n - 1) * d == n * d - d) by (nonlinear_arith);
    if n <= 0 {
        assert(n * d <= 0) by (nonlinear_arith)
            requires
                n <= 0,
                d > 0,
        ;
    }
    if n <= 511 {
        assert(n * d <= 511 * 390) by (nonlinear_arith)
            requires
                1 <= n <= 511,
                26 <= d <= 390,
        ;
    }
    if n > 20_000 {
        assert((n - 1) * d >= 20_000 * 26) by (nonlinear_arith)
            requires
                n > 20_000,
                d >= 26,
        ;
    }
}

/// Number of Data-field OFDM symbols for a BCC PPDU [Eq 23-79/23-80
/// specialized: ceil((8*LEN + 14) / N_DBPS)].
pub fn n_sym(mcs: u8, psdu_len: usize, aggregation: bool) -> (r: Result<usize, PhyError>)
    ensures
        r == match spec_data_geometry(mcs, psdu_len, aggregation, Coding::Bcc) {
            Ok(g) => Ok::<usize, PhyError>(g.n_sym),
            Err(e) => Err(e),
        },
{
    match data_geometry(mcs, psdu_len, aggregation, Coding::Bcc) {
        Ok(g) => Ok(g.n_sym),
        Err(e) => Err(e),
    }
}

/// PPDU airtime in us for a BCC S1G_SHORT / long-GI PPDU [Eq 23-74
/// specialized: 240 + 40*N_SYM].
pub fn txtime_us(mcs: u8, psdu_len: usize, aggregation: bool) -> (r: Result<u32, PhyError>)
    ensures
        r == match spec_data_geometry(mcs, psdu_len, aggregation, Coding::Bcc) {
            Ok(g) => Ok::<u32, PhyError>((240 + 40 * g.n_sym) as u32),
            Err(e) => Err(e),
        },
{
    txtime_us_coded(mcs, psdu_len, aggregation, Coding::Bcc)
}

/// PPDU airtime in us for either coding (S1G_SHORT, long GI).
pub fn txtime_us_coded(mcs: u8, psdu_len: usize, aggregation: bool, coding: Coding) -> (r: Result<
    u32,
    PhyError,
>)
    ensures
        r == match spec_data_geometry(mcs, psdu_len, aggregation, coding) {
            Ok(g) => Ok::<u32, PhyError>((240 + 40 * g.n_sym) as u32),
            Err(e) => Err(e),
        },
{
    match data_geometry(mcs, psdu_len, aggregation, coding) {
        Ok(g) => Ok(T_PREAMBLE_US + T_SYML_US * g.n_sym as u32),
        Err(e) => Err(e),
    }
}

/// PSDU octets that the payload symbols hold.
pub open spec fn capacity(p: McsParams, n_sym_init: int, coding: Coding) -> int {
    (n_sym_init * p.n_dbps - overhead_bits(coding)) / 8
}

/// PSDU capacity in octets of an aggregated PPDU that must carry at least
/// `min_octets`: the MAC pads its A-MPDU to exactly this size [23.3.9.4.3.2,
/// 23.3.9.4.4.2; Eq 23-81/23-82].
pub fn aggregated_capacity(mcs: u8, min_octets: usize, coding: Coding) -> (r: Result<
    usize,
    PhyError,
>)
    ensures
        r == match spec_data_geometry(mcs, min_octets, true, coding) {
            Ok(g) => Ok::<usize, PhyError>(
                capacity(spec_mcs_params(mcs)->0, g.n_sym_init as int, coding) as usize,
            ),
            Err(e) => Err(e),
        },
        r matches Ok(c) ==> c >= min_octets,
{
    let p: McsParams = match mcs_params(mcs) {
        Ok(p) => p,
        Err(e) => {
            return Err(e);
        },
    };
    let g: DataGeometry = match data_geometry(mcs, min_octets, true, coding) {
        Ok(g) => g,
        Err(e) => {
            return Err(e);
        },
    };
    proof {
        reveal(takes_extra);
        lemma_payload_symbols(p, min_octets as int, coding);
        lemma_symbol_products(g.n_sym_init as int, p.n_dbps as int, p.n_cbps as int);
    }
    Ok(
        match coding {
            Coding::Bcc => (g.n_sym * p.n_dbps - N_SERVICE - N_TAIL) / 8,
            Coding::Ldpc => (g.n_sym_init * p.n_dbps - N_SERVICE) / 8,
        },
    )
}

/// An A-MPDU padded to the capacity occupies the same symbols: the capacity
/// of the capacity is the capacity.
pub proof fn lemma_capacity_stable(mcs: u8, min_octets: usize, coding: Coding)
    requires
        spec_data_geometry(mcs, min_octets, true, coding) is Ok,
    ensures
        ({
            let g = spec_data_geometry(mcs, min_octets, true, coding)->Ok_0;
            let c = capacity(spec_mcs_params(mcs)->0, g.n_sym_init as int, coding);
            &&& min_octets <= c
            &&& c <= 30_000
            &&& spec_data_geometry(mcs, c as usize, true, coding) == Ok::<DataGeometry, PhyError>(g)
        }),
{
    lemma_mcs_row(mcs);
    let p = spec_mcs_params(mcs)->0;
    let g = spec_data_geometry(mcs, min_octets, true, coding)->Ok_0;
    let n = g.n_sym_init as int;
    let d = p.n_dbps as int;
    lemma_payload_symbols(p, min_octets as int, coding);
    let c = capacity(p, n, coding);
    let bits = 8 * c + overhead_bits(coding);
    assert(n * d <= 511 * 390) by (nonlinear_arith)
        requires
            1 <= n <= 511,
            26 <= d <= 390,
    ;
    assert(min_octets <= c);
    lemma_payload_symbols(p, c, coding);
    let m = payload_symbols(p, c, coding);
    assert(m == n) by (nonlinear_arith)
        requires
            (m - 1) * d < bits <= m * d,
            (n - 1) * d < bits <= n * d,
            d > 0,
    ;
}

/// A chosen geometry is within the SIG Length field's range.
pub proof fn lemma_geometry_bounds(mcs: u8, psdu_len: usize, aggregation: bool, coding: Coding)
    requires
        spec_data_geometry(mcs, psdu_len, aggregation, coding) is Ok,
    ensures
        ({
            let g = spec_data_geometry(mcs, psdu_len, aggregation, coding)->Ok_0;
            &&& mcs <= 11
            &&& 1 <= g.n_sym_init <= g.n_sym <= 511
            &&& 1 <= g.length_field <= 511
            &&& coding == Coding::Bcc ==> !g.ldpc_extra
        }),
{
    lemma_mcs_row(mcs);
    let p = spec_mcs_params(mcs)->0;
    lemma_payload_symbols(p, psdu_len as int, coding);
    reveal(takes_extra);
}

/// The receiver derives from the SIG fields what the transmitter chose: the
/// symbol count, and the PSDU length (unaggregated: as given; aggregated: the
/// capacity that the MAC pads to).
pub proof fn lemma_receiver_geometry(mcs: u8, psdu_len: usize, aggregation: bool, coding: Coding)
    requires
        spec_data_geometry(mcs, psdu_len, aggregation, coding) is Ok,
    ensures
        ({
            let p = spec_mcs_params(mcs)->0;
            let g = spec_data_geometry(mcs, psdu_len, aggregation, coding)->Ok_0;
            spec_data_field_geometry(
                g.length_field as int,
                aggregation,
                coding,
                g.ldpc_extra,
                false,
                p.n_dbps as int,
            ) == Some(
                (
                    g.n_sym as int,
                    if aggregation {
                        capacity(p, g.n_sym_init as int, coding)
                    } else {
                        psdu_len as int
                    },
                ),
            )
        }),
{
    reveal(spec_data_field_geometry);
    lemma_mcs_row(mcs);
    let p = spec_mcs_params(mcs)->0;
    let g = spec_data_geometry(mcs, psdu_len, aggregation, coding)->Ok_0;
    lemma_payload_symbols(p, psdu_len as int, coding);
    lemma_geometry_bounds(mcs, psdu_len, aggregation, coding);
    assert(1 * p.n_dbps == p.n_dbps);
}

/// The pseudo-random seed for a clock reading: 1 to 127, from the nanoseconds.
pub open spec fn seed_of(nanos: u32) -> u8 {
    (nanos % 127 + 1) as u8
}

/// The seed for a clock reading; a fixed one where the clock gives none.
pub fn seed_from_clock(t: Option<EpochTime>) -> (seed: u8)
    ensures
        seed == match t {
            Some(e) => seed_of(e.nanos),
            None => seed_of(12345),
        },
        1 <= seed <= 127,
{
    let nanos: u32 = match t {
        Some(e) => e.nanos,
        None => 12345,
    };
    (nanos % 127) as u8 + 1
}

/// Pseudo-random nonzero 7-bit seed [Table 17-7]; entropy from the clock.
pub fn pick_seed() -> (seed: u8)
    ensures
        1 <= seed <= 127,
{
    seed_from_clock(since_epoch())
}

/// What the PHY reports back after building a PPDU (PHY-TXEND.confirm
/// SCRAMBLER_OR_CRC plus the geometry).
#[derive(Debug, Clone, Copy, PartialEq, Eq, Structural)]
pub struct TxInfo {
    pub scrambler_seed: u8,
    pub geometry: DataGeometry,
    pub txtime_us: u32,
}

/// SERVICE, PSDU and pad bits: `n` bits in all.
pub open spec fn payload_bits(psdu: Seq<u8>, n: int) -> Seq<u8> {
    let body = byte_bits(psdu);
    Seq::new(
        n as nat,
        |i: int|
            if 8 <= i < 8 + body.len() {
                body[i - 8]
            } else {
                0
            },
    )
}

/// The scrambled Data-field bits before coding: `n` payload bits under
/// `seed`, and for BCC six of them an unscrambled zero tail.
pub open spec fn data_bits(coding: Coding, seed: u8, psdu: Seq<u8>, n: int) -> Seq<u8> {
    match coding {
        Coding::Bcc => scrambled(seed, payload_bits(psdu, n - 6)) + seq![0u8, 0, 0, 0, 0, 0],
        Coding::Ldpc => scrambled(seed, payload_bits(psdu, n)),
    }
}

fn scrambled_payload(psdu: &[u8], seed: u8, n: usize) -> (out: Vec<u8>)
    requires
        8 + 8 * psdu@.len() <= n,
    ensures
        out@ == scrambled(seed, payload_bits(psdu@, n as int)),
{
    let body: Vec<u8> = bytes_to_bits(psdu);
    let mut out: Vec<u8> = vec![0u8; N_SERVICE];
    out.extend_from_slice(body.as_slice());
    let ghost filled = out@;
    proof {
        assert forall|i: int| 0 <= i < filled.len() implies filled[i] == payload_bits(
            psdu@,
            n as int,
        )[i] by {
            if i >= 8 {
                assert(filled[i] == body@[i - 8]);
            }
        }
    }
    out.resize(n, 0);
    proof {
        assert forall|i: int| 0 <= i < n implies out@[i] == payload_bits(psdu@, n as int)[i] by {
            if i < filled.len() {
                assert(out@[i] == filled[i]);
            } else {
                assert(out@[i] == 0);
            }
        }
        assert(out@ =~= payload_bits(psdu@, n as int));
    }
    scramble_in_place(seed, out.as_mut_slice());
    out
}

/// Build the scrambled Data-field bits of a PSDU for `n` bits (N_SYM * N_DBPS
/// for BCC, N_SYM,init * N_DBPS for LDPC).
pub fn build_data_bits(coding: Coding, seed: u8, psdu: &[u8], n: usize) -> (out: Vec<u8>)
    requires
        8 * psdu@.len() + overhead_bits(coding) <= n,
    ensures
        out@ == data_bits(coding, seed, psdu@, n as int),
        out@.len() == n,
{
    match coding {
        Coding::Bcc => {
            let mut bits: Vec<u8> = scrambled_payload(psdu, seed, n - N_TAIL);
            bits.resize(n, 0);  // unscrambled zero tail
            proof {
                assert(bits@ =~= data_bits(coding, seed, psdu@, n as int));
            }
            bits
        },
        Coding::Ldpc => scrambled_payload(psdu, seed, n),
    }
}

/// Guard interval of Data symbol `n`, samples: the short one starts with the
/// second symbol [Eq 23-58].
pub open spec fn spec_symbol_gi(gi: GuardInterval, n: int) -> int {
    if n > 0 && gi == GuardInterval::Short {
        8
    } else {
        16
    }
}

/// Guard interval of Data symbol `n`, samples: the short one starts with the
/// second symbol [Eq 23-58].
pub fn symbol_gi(gi: GuardInterval, n: usize) -> (s: usize)
    ensures
        s == spec_symbol_gi(gi, n as int),
{
    if n > 0 && gi == GuardInterval::Short {
        N_GI_SHORT
    } else {
        N_GI_LONG
    }
}

/// Samples of the first `n` Data symbols, each a guard interval and 64 samples.
pub open spec fn data_samples(gi: GuardInterval, n: int) -> int
    decreases n,
{
    if n <= 0 {
        0
    } else {
        data_samples(gi, n - 1) + spec_symbol_gi(gi, n - 1) + 64
    }
}

/// At 2 MS/s the Data field's samples are exactly its duration.
pub proof fn lemma_data_samples(gi: GuardInterval, n: int)
    requires
        n >= 0,
    ensures
        data_samples(gi, n) == 2 * data_us(gi, n),
    decreases n,
{
    if n > 0 {
        lemma_data_samples(gi, n - 1);
    }
}

/// Samples of a PPDU before its Data field: STF, LTF1 and SIG, for S1G_LONG
/// also D-STF, one D-LTF and SIG-B.
pub open spec fn lead_samples(preamble: PreambleType) -> int {
    match preamble {
        PreambleType::S1gShort => 160int + 160 + 160,
        PreambleType::S1gLong => 160int + 160 + 160 + 80 + 80 + 80,
    }
}

/// A PPDU's waveform at 2 MS/s is exactly as long as the PPDU.
pub proof fn lemma_waveform_fills_txtime(preamble: PreambleType, gi: GuardInterval, n: int)
    requires
        n >= 0,
    ensures
        lead_samples(preamble) + data_samples(gi, n) == 2 * (preamble_us(preamble, 1) + data_us(
            gi,
            n,
        )),
{
    lemma_data_samples(gi, n);
}

/// The points of one Data symbol in subcarrier order, as axis levels. `bits`
/// are the symbol's coded bits in mapping order (interleaved for BCC); with
/// LDPC the points are spread over the tones.
pub fn symbol_points(bits: &[u8], modulation: Modulation, coding: Coding) -> (points: Vec<
    (i32, i32),
>)
    requires
        bits@.len() == 52 * modulation.spec_n_bpscs(),
    ensures
        points@.len() == 52,
        forall|k: int|
            0 <= k < 52 ==> {
                let p = points@[symbol_tone(coding, k)];
                (p.0 as int, p.1 as int) == #[trigger] symbol_point(bits@, modulation, k)
            },
{
    proof {
        assert(bits@.len() % modulation.spec_n_bpscs() as nat == 0 && bits@.len()
            / modulation.spec_n_bpscs() as nat == 52);
    }
    let points: Vec<(i32, i32)> = crate::mapping::map(bits, modulation);
    match coding {
        Coding::Bcc => points,
        Coding::Ldpc => {
            let spread: Vec<(i32, i32)> = ldpc_tone_map(points.as_slice());
            proof {
                assert forall|k: int| 0 <= k < 52 implies {
                    let p = spread@[symbol_tone(coding, k)];
                    (p.0 as int, p.1 as int) == #[trigger] symbol_point(bits@, modulation, k)
                } by {
                    assert(spread@[tone_of(k)] == points@[k]);
                }
            }
            spread
        },
    }
}

/// The tone of the `k`-th point of a Data symbol.
pub open spec fn symbol_tone(coding: Coding, k: int) -> int {
    match coding {
        Coding::Bcc => k,
        Coding::Ldpc => tone_of(k),
    }
}

/// The `k`-th point of a Data symbol with these coded bits.
pub open spec fn symbol_point(bits: Seq<u8>, modulation: Modulation, k: int) -> (int, int) {
    point(bits.subrange(k * modulation.spec_n_bpscs(), (k + 1) * modulation.spec_n_bpscs()))
}

/// Everything about a PPDU that is decided before the waveform.
#[derive(Debug, PartialEq, Eq)]
pub struct TxPlan {
    pub info: TxInfo,
    pub mcs: McsParams,
    pub preamble_type: PreambleType,
    pub gi: GuardInterval,
    pub fec_coding: Coding,
    pub traveling_pilots: bool,
    /// The 48 uncoded SIG or SIG-A bits.
    pub sig_bits: [u8; 48],
    /// BCC: the bits to be convolutionally encoded (N_SYM * N_DBPS).
    /// LDPC: the coded bits (N_SYM * N_CBPS).
    pub data: Vec<u8>,
}

/// Why no PPDU can be built.
pub open spec fn plan_error(txv: &TxVector, psdu_len: usize) -> Option<PhyError> {
    match spec_data_geometry(txv.mcs, psdu_len, txv.aggregation, txv.fec_coding) {
        Err(e) => Some(e),
        Ok(_) => match spec_id_from_txvector(txv) {
            Err(e) => Some(e),
            Ok(_) => match txv.scrambler_seed {
                Some(s) => if 1 <= s <= 127 {
                    None
                } else {
                    Some(PhyError::InvalidTxVector("scrambler seed must be 1..=127"))
                },
                None => None,
            },
        },
    }
}

/// The SIG or SIG-A field bits of a PPDU.
pub open spec fn sig_field_bits(txv: &TxVector, g: DataGeometry) -> Seq<u8> {
    match txv.preamble_type {
        PreambleType::S1gShort => SigFields::spec_from_txvector(
            txv,
            g.length_field,
            g.ldpc_extra,
        )->Ok_0.field_bits(),
        PreambleType::S1gLong => SigASu::spec_from_txvector(
            txv,
            g.length_field,
            g.ldpc_extra,
        )->Ok_0.field_bits(),
    }
}

/// The Data-field bits of a PPDU: before convolutional coding for BCC, coded
/// for LDPC.
pub open spec fn field_data(txv: &TxVector, p: McsParams, g: DataGeometry, seed: u8, psdu: Seq<u8>) -> Seq<u8> {
    let bits = data_bits(txv.fec_coding, seed, psdu, g.n_sym_init * p.n_dbps);
    match txv.fec_coding {
        Coding::Bcc => bits,
        Coding::Ldpc => {
            let lp = PpduParams::spec_new(
                g.n_sym_init as int,
                p.n_dbps as int,
                p.n_cbps as int,
                p.rate,
            );
            lp.coded(bits, lp.n_cw as int)
        },
    }
}

impl TxPlan {
    /// This is the plan for the PSDU under `seed`.
    pub open spec fn is_for(&self, txv: &TxVector, psdu: Seq<u8>, seed: u8) -> bool {
        let p = spec_mcs_params(txv.mcs)->0;
        let g = spec_data_geometry(
            txv.mcs,
            psdu.len() as usize,
            txv.aggregation,
            txv.fec_coding,
        )->Ok_0;
        &&& self.info.scrambler_seed == seed
        &&& self.info.geometry == g
        &&& self.info.txtime_us == preamble_us(txv.preamble_type, 1) + data_us(
            txv.gi,
            g.n_sym as int,
        )
        &&& self.mcs == p
        &&& self.preamble_type == txv.preamble_type
        &&& self.gi == txv.gi
        &&& self.fec_coding == txv.fec_coding
        &&& self.traveling_pilots == txv.traveling_pilots
        &&& self.sig_bits@ == sig_word(sig_field_bits(txv, g))
        &&& self.data@ == field_data(txv, p, g, seed, psdu)
        &&& self.data@.len() == g.n_sym * match txv.fec_coding {
            Coding::Bcc => p.n_dbps,
            Coding::Ldpc => p.n_cbps,
        }
    }
}

/// Plan a PPDU under a given scrambler seed (1 to 127).
pub fn plan_with_seed(txv: &TxVector, psdu: &[u8], seed: u8) -> (r: Result<TxPlan, PhyError>)
    requires
        1 <= seed <= 127,
    ensures
        match plan_error(txv, psdu@.len() as usize) {
            Some(e) => r == Err::<TxPlan, PhyError>(e),
            None => r matches Ok(plan) && plan.is_for(txv, psdu@, seed),
        },
{
    let geom: DataGeometry = match data_geometry(
        txv.mcs,
        psdu.len(),
        txv.aggregation,
        txv.fec_coding,
    ) {
        Ok(g) => g,
        Err(e) => {
            return Err(e);
        },
    };
    let p: McsParams = match mcs_params(txv.mcs) {
        Ok(p) => p,
        Err(e) => {
            return Err(e);
        },
    };
    let sig_bits: [u8; 48] = match txv.preamble_type {
        PreambleType::S1gShort => match SigFields::from_txvector(
            txv,
            geom.length_field,
            geom.ldpc_extra,
        ) {
            Ok(f) => f.to_bits(),
            Err(e) => {
                return Err(e);
            },
        },
        PreambleType::S1gLong => match SigASu::from_txvector(
            txv,
            geom.length_field,
            geom.ldpc_extra,
        ) {
            Ok(f) => f.to_bits(),
            Err(e) => {
                return Err(e);
            },
        },
    };
    match txv.scrambler_seed {
        Some(s) => {
            if s < 1 || s > 127 {
                return Err(PhyError::InvalidTxVector("scrambler seed must be 1..=127"));
            }
        },
        None => {},
    }
    proof {
        reveal(takes_extra);
        lemma_payload_symbols(p, psdu@.len() as int, txv.fec_coding);
        lemma_symbol_products(geom.n_sym_init as int, p.n_dbps as int, p.n_cbps as int);
    }
    let n_bits: usize = geom.n_sym_init * p.n_dbps;
    let bits: Vec<u8> = build_data_bits(txv.fec_coding, seed, psdu, n_bits);
    let data: Vec<u8> = match txv.fec_coding {
        Coding::Bcc => bits,
        Coding::Ldpc => {
            proof {
                lemma_mcs_row(txv.mcs);
                PpduParams::lemma_products_fit(
                    geom.n_sym_init as int,
                    p.n_dbps as int,
                    p.n_cbps as int,
                    p.rate,
                );
            }
            let lp: PpduParams = PpduParams::new(geom.n_sym_init, p.n_dbps, p.n_cbps, p.rate);
            lp.encode_data(bits.as_slice())
        },
    };
    let txtime_us: u32 = ppdu_duration_us(txv.preamble_type, txv.gi, geom.n_sym);
    Ok(
        TxPlan {
            info: TxInfo { scrambler_seed: seed, geometry: geom, txtime_us },
            mcs: p,
            preamble_type: txv.preamble_type,
            gi: txv.gi,
            fec_coding: txv.fec_coding,
            traveling_pilots: txv.traveling_pilots,
            sig_bits,
            data,
        },
    )
}

/// Plan a PPDU: under the TXVECTOR's seed, or a pseudo-random one where it
/// names none.
pub fn plan_ppdu(txv: &TxVector, psdu: &[u8]) -> (r: Result<TxPlan, PhyError>)
    ensures
        match plan_error(txv, psdu@.len() as usize) {
            Some(e) => r == Err::<TxPlan, PhyError>(e),
            None => r matches Ok(plan) && plan.is_for(txv, psdu@, plan.info.scrambler_seed) && 1
                <= plan.info.scrambler_seed <= 127 && (txv.scrambler_seed matches Some(s) ==> s
                == plan.info.scrambler_seed),
        },
{
    let seed: u8 = match txv.scrambler_seed {
        Some(s) => if 1 <= s && s <= 127 {
            s
        } else {
            1  // refused below
        },
        None => pick_seed(),
    };
    plan_with_seed(txv, psdu, seed)
}

/// The 48 SIG bits of an NDP CMAC PPDU (no Data field), whose body has 37
/// bits [23.3.11].
pub fn plan_ndp(body_37: u64) -> (r: Result<[u8; 48], PhyError>)
    ensures
        body_37 >= 0x20_0000_0000 ==> r == Err::<[u8; 48], PhyError>(
            PhyError::InvalidTxVector("NDP body exceeds 37 bits"),
        ),
        body_37 < 0x20_0000_0000 ==> (r matches Ok(w) && w@ == sig_word(ndp_field_bits(body_37))),
{
    if body_37 >= 0x20_0000_0000 {
        return Err(PhyError::InvalidTxVector("NDP body exceeds 37 bits"));
    }
    Ok(ndp_bits(body_37))
}

/// The Data-field geometry. The symbols are the least that hold the SERVICE field,
/// the PSDU and, with BCC, the tail (14 bits beside the octets, 8 with LDPC), with
/// LDPC one more where the codewords ask for it; the Length field counts symbols
/// with aggregation and octets without.
pub proof fn lemma_geometry(mcs: u8, psdu_len: usize, aggregation: bool, coding: Coding)
    ensures
        spec_data_geometry(mcs, psdu_len, aggregation, coding) matches Ok(g) ==> {
            let d = (spec_mcs_params(mcs)->0).n_dbps;
            let bits = 8 * psdu_len + (match coding {
                Coding::Bcc => 14int,
                Coding::Ldpc => 8,
            });
            &&& spec_mcs_params(mcs) is Some && 1 <= psdu_len
            &&& (g.n_sym_init - 1) * d < bits <= g.n_sym_init * d
            &&& g.n_sym == g.n_sym_init + (if g.ldpc_extra { 1int } else { 0 })
            &&& coding == Coding::Bcc ==> !g.ldpc_extra
            &&& coding == Coding::Ldpc ==> g.ldpc_extra == PpduParams::spec_new(
                g.n_sym_init as int,
                (spec_mcs_params(mcs)->0).n_dbps as int,
                (spec_mcs_params(mcs)->0).n_cbps as int,
                (spec_mcs_params(mcs)->0).rate,
            ).extra_symbol
            &&& g.n_sym <= 511
            &&& aggregation ==> g.length_field == g.n_sym
            &&& !aggregation ==> g.length_field == psdu_len && psdu_len <= 511
        },
        spec_data_geometry(mcs, psdu_len, aggregation, coding) is Ok || spec_mcs_params(mcs) is None
            || psdu_len == 0 || (!aggregation && psdu_len > 511) || 8 * psdu_len + 14 > 510 * (
        spec_mcs_params(mcs)->0).n_dbps,
{
    reveal(takes_extra);
    if let Some(p) = spec_mcs_params(mcs) {
        lemma_mcs_row(mcs);
        lemma_payload_symbols(p, psdu_len as int, coding);
        let n = payload_symbols(p, psdu_len as int, coding);
        if n > 510 {
            assert((n - 1) * p.n_dbps >= 510 * p.n_dbps) by (nonlinear_arith)
                requires
                    n > 510,
                    p.n_dbps >= 0,
            ;
        }
    }
}

/// The capacity of some symbols: all whole octets beside the SERVICE field and,
/// with BCC, the tail.
pub proof fn lemma_capacity(p: McsParams, n_sym_init: int, coding: Coding)
    ensures
        ({
            let spare: int = match coding {
                Coding::Bcc => 14,
                Coding::Ldpc => 8,
            };
            let c = capacity(p, n_sym_init, coding);
            8 * c + spare <= n_sym_init * p.n_dbps < 8 * (c + 1) + spare
        }),
{
}

/// The seed that the clock gives is one of 1 to 127, each 127 nanoseconds again.
pub proof fn lemma_clock_seed(nanos: u32)
    ensures
        1 <= seed_of(nanos) <= 127,
        (seed_of(nanos) - 1 - nanos) % 127 == 0,
{
}

/// The payload before scrambling: the SERVICE field of eight zeros, the octets of
/// the PSDU in order, each with its lowest bit first, then zeros.
pub proof fn lemma_payload_bits(psdu: Seq<u8>, n: int, i: int)
    requires
        8 + 8 * psdu.len() <= n,
        0 <= i < n,
    ensures
        payload_bits(psdu, n).len() == n,
        i < 8 ==> payload_bits(psdu, n)[i] == 0,
        i >= 8 + 8 * psdu.len() ==> payload_bits(psdu, n)[i] == 0,
        0 <= i < psdu.len() ==> {
            let b = payload_bits(psdu, n);
            &&& b[8 * i + 8] <= 1 && b[8 * i + 9] <= 1 && b[8 * i + 10] <= 1 && b[8 * i + 11] <= 1
            &&& b[8 * i + 12] <= 1 && b[8 * i + 13] <= 1 && b[8 * i + 14] <= 1 && b[8 * i + 15] <= 1
            &&& b[8 * i + 8] + 2 * b[8 * i + 9] + 4 * b[8 * i + 10] + 8 * b[8 * i + 11] + 16 * b[8 * i
                + 12] + 32 * b[8 * i + 13] + 64 * b[8 * i + 14] + 128 * b[8 * i + 15] == psdu[i]
        },
{
    if i < psdu.len() {
        lemma_byte_bits_order(psdu, i);
        let b = byte_bits(psdu);
        let q = payload_bits(psdu, n);
        assert(q[8 * i + 8] == b[8 * i + 0] && q[8 * i + 9] == b[8 * i + 1] && q[8 * i + 10] == b[8 * i
            + 2] && q[8 * i + 11] == b[8 * i + 3]);
        assert(q[8 * i + 12] == b[8 * i + 4] && q[8 * i + 13] == b[8 * i + 5] && q[8 * i + 14] == b[8
            * i + 6] && q[8 * i + 15] == b[8 * i + 7]);
    }
}

/// The bits before coding: with LDPC all are scrambled payload; with BCC the last
/// six are zeros, not scrambled. Scrambling adds the sequence from its start.
pub proof fn lemma_data_bits(coding: Coding, seed: u8, psdu: Seq<u8>, n: int, i: int)
    requires
        14 + 8 * psdu.len() <= n,
        0 <= i < n,
    ensures
        data_bits(coding, seed, psdu, n).len() == n,
        coding == Coding::Bcc && i >= n - 6 ==> data_bits(coding, seed, psdu, n)[i] == 0,
        coding == Coding::Ldpc || i < n - 6 ==> data_bits(coding, seed, psdu, n)[i] == (payload_bits(
            psdu,
            n,
        )[i] + sequence_bit(seed, i as nat)) % 2,
{
    let body = byte_bits(psdu);
    assert(payload_bits(psdu, n)[i] <= 1) by {
        if 8 <= i < 8 + body.len() {
            let k = (i - 8) / 8;
            lemma_byte_bits_order(psdu, k);
            assert(body[8 * k + (i - 8) % 8] <= 1);
            assert(8 * k + (i - 8) % 8 == i - 8);
        }
    }
    match coding {
        Coding::Bcc => {
            if i < n - 6 {
                lemma_scrambled_bit(seed, payload_bits(psdu, n - 6), i);
                assert(data_bits(coding, seed, psdu, n)[i] == scrambled(
                    seed,
                    payload_bits(psdu, n - 6),
                )[i]);
            }
        },
        Coding::Ldpc => {
            lemma_scrambled_bit(seed, payload_bits(psdu, n), i);
        },
    }
}

/// Guard intervals are 16 samples, from the second symbol on 8 with the short
/// one; the first Data symbol starts 480 samples into the PPDU, with the long
/// preamble 720.
pub proof fn lemma_sample_layout(gi: GuardInterval, n: int)
    requires
        n >= 0,
    ensures
        spec_symbol_gi(GuardInterval::Long, n) == 16,
        spec_symbol_gi(GuardInterval::Short, 0) == 16,
        n >= 1 ==> spec_symbol_gi(GuardInterval::Short, n) == 8,
        data_samples(gi, 0) == 0,
        data_samples(gi, n + 1) == data_samples(gi, n) + spec_symbol_gi(gi, n) + 64,
        lead_samples(PreambleType::S1gShort) == 480,
        lead_samples(PreambleType::S1gLong) == 720,
{
}

/// Which bits make up a point, and which tone carries it: point `k` takes the
/// `k`-th group of coded bits, one, two, four, six, eight or ten by modulation, the
/// first half for I and the second for Q; with BCC it stands on tone `k`, with LDPC
/// four tones further for each point before it in its round of thirteen.
pub proof fn lemma_symbol_layout(bits: Seq<u8>, modulation: Modulation, k: int)
    requires
        0 <= k < 52,
        bits.len() == 52 * modulation.spec_n_bpscs(),
    ensures
        symbol_tone(Coding::Bcc, k) == k,
        symbol_tone(Coding::Ldpc, k) == 4 * (k % 13) + k / 13,
        match modulation {
            Modulation::Bpsk => symbol_point(bits, modulation, k) == point(bits.subrange(k, k + 1)),
            Modulation::Qpsk => symbol_point(bits, modulation, k) == (
                level(bits.subrange(2 * k, 2 * k + 1)),
                level(bits.subrange(2 * k + 1, 2 * k + 2)),
            ),
            Modulation::Qam16 => symbol_point(bits, modulation, k) == (
                level(bits.subrange(4 * k, 4 * k + 2)),
                level(bits.subrange(4 * k + 2, 4 * k + 4)),
            ),
            Modulation::Qam64 => symbol_point(bits, modulation, k) == (
                level(bits.subrange(6 * k, 6 * k + 3)),
                level(bits.subrange(6 * k + 3, 6 * k + 6)),
            ),
            Modulation::Qam256 => symbol_point(bits, modulation, k) == (
                level(bits.subrange(8 * k, 8 * k + 4)),
                level(bits.subrange(8 * k + 4, 8 * k + 8)),
            ),
            Modulation::Qam1024 => symbol_point(bits, modulation, k) == (
                level(bits.subrange(10 * k, 10 * k + 5)),
                level(bits.subrange(10 * k + 5, 10 * k + 10)),
            ),
        },
{
    let m = modulation.spec_n_bpscs() as int;
    let g = bits.subrange(k * m, (k + 1) * m);
    assert((k + 1) * m == k * m + m && k * m + m <= 52 * m && 0 <= k * m) by (nonlinear_arith)
        requires
            0 <= k < 52,
            m >= 1,
    ;
    let h = m / 2;
    assert(g.take(h) =~= bits.subrange(k * m, k * m + h));
    assert(g.skip(h) =~= bits.subrange(k * m + h, k * m + m));
    match modulation {
        Modulation::Bpsk => {
            assert(k * 1 == k);
        },
        Modulation::Qpsk => {
            assert(k * 2 == 2 * k);
        },
        Modulation::Qam16 => {
            assert(k * 4 == 4 * k);
        },
        Modulation::Qam64 => {
            assert(k * 6 == 6 * k);
        },
        Modulation::Qam256 => {
            assert(k * 8 == 8 * k);
        },
        Modulation::Qam1024 => {
            assert(k * 10 == 10 * k);
        },
    }
}

/// Why no PPDU is built: an MCS without parameters, an empty PSDU or one that
/// does not fit, a color or partial AID that does not fit, a seed of 0 or above
/// 127; in every other case one is.
pub proof fn lemma_plan_errors(txv: &TxVector, psdu_len: usize)
    ensures
        plan_error(txv, psdu_len) is None <==> {
            &&& spec_data_geometry(txv.mcs, psdu_len, txv.aggregation, txv.fec_coding) is Ok
            &&& txv.color <= 7
            &&& txv.partial_aid <= (if txv.uplink_indication { 511int } else { 63 })
            &&& txv.scrambler_seed matches Some(s) ==> 1 <= s <= 127
        },
{
}

/// What a plan for a PSDU holds: the seed, the geometry and the parameters that were
/// asked for, a duration of 240 or 360 us for the preamble and 40 us for each symbol,
/// less 4 us for each but the first with the short guard interval, the SIG word of the
/// fields for the preamble, and the data bits of all symbols.
pub proof fn lemma_plan(plan: TxPlan, txv: &TxVector, psdu: Seq<u8>, seed: u8)
    requires
        psdu.len() <= usize::MAX,
        plan_error(txv, psdu.len() as usize) is None,
        plan.is_for(txv, psdu, seed),
    ensures
        ({
            let g = plan.info.geometry;
            &&& spec_data_geometry(txv.mcs, psdu.len() as usize, txv.aggregation, txv.fec_coding)
                == Ok::<DataGeometry, PhyError>(g)
            &&& spec_mcs_params(txv.mcs) == Some(plan.mcs)
            &&& plan.info.scrambler_seed == seed
            &&& plan.preamble_type == txv.preamble_type && plan.gi == txv.gi
            &&& plan.fec_coding == txv.fec_coding && plan.traveling_pilots == txv.traveling_pilots
            &&& plan.info.txtime_us == (match txv.preamble_type {
                PreambleType::S1gShort => 240int,
                PreambleType::S1gLong => 360,
            }) + 40 * g.n_sym - (match txv.gi {
                GuardInterval::Long => 0int,
                GuardInterval::Short => 4 * (g.n_sym - 1),
            })
            &&& match txv.preamble_type {
                PreambleType::S1gShort => SigFields::spec_from_txvector(
                    txv,
                    g.length_field,
                    g.ldpc_extra,
                ) matches Ok(f) && plan.sig_bits@ == sig_word(f.field_bits()),
                PreambleType::S1gLong => SigASu::spec_from_txvector(
                    txv,
                    g.length_field,
                    g.ldpc_extra,
                ) matches Ok(f) && plan.sig_bits@ == sig_word(f.field_bits()),
            }
            &&& txv.fec_coding == Coding::Bcc ==> plan.data@ == data_bits(
                Coding::Bcc,
                seed,
                psdu,
                g.n_sym * plan.mcs.n_dbps,
            )
            &&& txv.fec_coding == Coding::Ldpc ==> {
                let lp = PpduParams::spec_new(
                    g.n_sym_init as int,
                    plan.mcs.n_dbps as int,
                    plan.mcs.n_cbps as int,
                    plan.mcs.rate,
                );
                plan.data@ == lp.coded(
                    data_bits(Coding::Ldpc, seed, psdu, g.n_sym_init * plan.mcs.n_dbps),
                    lp.n_cw as int,
                )
            }
        }),
{
    lemma_mcs_row(txv.mcs);
    lemma_geometry_bounds(txv.mcs, psdu.len() as usize, txv.aggregation, txv.fec_coding);
    lemma_geometry(txv.mcs, psdu.len() as usize, txv.aggregation, txv.fec_coding);
}

} // verus!
