//! S1G PHY constants and MCS tables for 2 MHz.
//! All values from IEEE 802.11-2024; citations are [clause or table].

use crate::error::PhyError;
use vstd::prelude::*;

pub mod characteristics;
pub mod laws;
pub mod rf;
pub mod tx_limits;

verus! {

/// FFT length for 2 MHz S1G [23.3.7].
pub const N_FFT: usize = 64;

/// Native complex baseband sample rate, Hz (64 x 31.25 kHz).
pub const SAMPLE_RATE_HZ: u32 = 2_000_000;

/// Subcarrier spacing, Hz [Table 23-5].
pub const DELTA_F_HZ: u32 = 31_250;

/// Long guard interval, samples (8 us) [Table 23-5].
pub const N_GI_LONG: usize = 16;

/// Short guard interval, samples (4 us) [Table 23-5].
pub const N_GI_SHORT: usize = 8;

/// Double guard interval, samples (16 us, LTF1 only) [Table 23-5].
pub const N_GI2: usize = 32;

/// Long-GI OFDM symbol, samples (40 us).
pub const N_SYM_SAMPLES_LGI: usize = N_FFT + N_GI_LONG;

/// Data subcarriers of the Data field (2 MHz) [Table 23-5].
pub const N_SD: usize = 52;

/// Pilot subcarriers of the Data field.
pub const N_SP: usize = 4;

/// Occupied subcarriers of the Data field.
pub const N_ST: usize = N_SD + N_SP;

/// Highest occupied subcarrier index in the Data field / LTF.
pub const N_SR: i32 = 28;

/// Data subcarriers of the SIG field (2 MHz S1G_SHORT; 11a-like) [Table 23-6].
pub const SIG_N_SD: usize = 48;

/// Occupied subcarriers of the SIG field.
pub const SIG_N_ST: usize = 52;

/// Highest occupied subcarrier index in the SIG field.
pub const SIG_N_SR: i32 = 26;

/// STF, samples at 2 MS/s: 80 us, 10 periods of 16 samples [Table 23-5].
pub const N_STF_SAMPLES: usize = 160;

/// LTF1, samples: 80 us, [GI2 32][LTS 64][LTS 64].
pub const N_LTF1_SAMPLES: usize = 160;

/// SIG, samples: 80 us, 2 x (16 GI + 64).
pub const N_SIG_SAMPLES: usize = 160;

/// Preamble total (STF+LTF1+SIG) for 1 STS: 240 us.
pub const N_PREAMBLE_SAMPLES: usize = N_STF_SAMPLES + N_LTF1_SAMPLES + N_SIG_SAMPLES;

/// STF duration, us [Table 23-5].
pub const T_STF_US: u32 = 80;

/// LTF1 duration, us.
pub const T_LTF1_US: u32 = 80;

/// SIG / SIG-A duration, us.
pub const T_SIG_US: u32 = 80;

/// Second and later LTFs of an S1G_SHORT PPDU (N_STS > 1), us.
pub const T_LTF_US: u32 = 40;

/// D-STF duration (S1G_LONG only), us [Table 23-5].
pub const T_DSTF_US: u32 = 40;

/// Duration of each D-LTF (S1G_LONG only), us.
pub const T_DLTF_US: u32 = 40;

/// SIG-B duration (S1G_LONG only), us.
pub const T_SIGB_US: u32 = 40;

/// Long-GI OFDM symbol duration, us.
pub const T_SYML_US: u32 = 40;

/// Short-GI OFDM symbol duration, us.
pub const T_SYMS_US: u32 = 36;

/// STF + LTF1 + SIG (or SIG-A): the omnidirectional part shared by
/// S1G_SHORT and S1G_LONG, us.
pub const T_PREAMBLE_US: u32 = T_STF_US + T_LTF1_US + T_SIG_US;

/// Tone-scaling count N_Tone of the STF [Table 23-8].
pub const N_TONE_STF: usize = 12;

/// Tone-scaling count of the LTF.
pub const N_TONE_LTF: usize = 56;

/// Tone-scaling count of the SIG field.
pub const N_TONE_SIG: usize = 52;

/// Tone-scaling count of the Data field.
pub const N_TONE_DATA: usize = 56;

/// SERVICE field bits (8 in S1G, 16 in other OFDM PHYs) [Table 23-5; 23.3.9.2].
pub const N_SERVICE: usize = 8;

/// BCC tail bits [Table 23-5].
pub const N_TAIL: usize = 6;

/// Max PSDU octets without aggregation (9-bit SIG Length) [Table 23-41].
pub const PSDU_MAX_NO_AGG: usize = 511;

/// Max Data-field symbol count (9-bit SIG Length, aggregated) [23.4.3].
pub const N_SYM_MAX: usize = 511;

/// Number of LTF / D-LTF symbols for N_STS space-time streams [Table 23-11].
pub open spec fn spec_n_ltf(n_sts: u8) -> u8 {
    if n_sts <= 1 {
        1
    } else if n_sts == 2 {
        2
    } else {
        4
    }
}

/// Number of LTF / D-LTF symbols for N_STS space-time streams [Table 23-11].
#[verifier::when_used_as_spec(spec_n_ltf)]
pub fn n_ltf(n_sts: u8) -> (n: u8)
    ensures
        n == spec_n_ltf(n_sts),
{
    match n_sts {
        0 | 1 => 1,
        2 => 2,
        _ => 4,
    }
}

/// Subcarrier modulation.
#[derive(Debug, Clone, Copy, PartialEq, Eq, Structural)]
pub enum Modulation {
    Bpsk,
    Qpsk,
    Qam16,
    Qam64,
    Qam256,
    Qam1024,
}

impl Modulation {
    /// Coded bits per subcarrier.
    pub open spec fn spec_n_bpscs(self) -> usize {
        match self {
            Modulation::Bpsk => 1,
            Modulation::Qpsk => 2,
            Modulation::Qam16 => 4,
            Modulation::Qam64 => 6,
            Modulation::Qam256 => 8,
            Modulation::Qam1024 => 10,
        }
    }

    /// Coded bits per subcarrier (N_BPSCS).
    #[verifier::when_used_as_spec(spec_n_bpscs)]
    pub fn n_bpscs(self) -> (n: usize)
        ensures
            n == self.spec_n_bpscs(),
    {
        match self {
            Modulation::Bpsk => 1,
            Modulation::Qpsk => 2,
            Modulation::Qam16 => 4,
            Modulation::Qam64 => 6,
            Modulation::Qam256 => 8,
            Modulation::Qam1024 => 10,
        }
    }
}

/// Forward-error-correction code rate.
#[derive(Debug, Clone, Copy, PartialEq, Eq, Structural)]
pub enum CodeRate {
    R1_2,
    R2_3,
    R3_4,
    R5_6,
}

impl CodeRate {
    /// Numerator of the rate.
    pub open spec fn num(self) -> int {
        match self {
            CodeRate::R1_2 => 1,
            CodeRate::R2_3 => 2,
            CodeRate::R3_4 => 3,
            CodeRate::R5_6 => 5,
        }
    }

    /// Denominator of the rate.
    pub open spec fn den(self) -> int {
        match self {
            CodeRate::R1_2 => 2,
            CodeRate::R2_3 => 3,
            CodeRate::R3_4 => 4,
            CodeRate::R5_6 => 6,
        }
    }

    /// (numerator, denominator).
    pub fn as_fraction(self) -> (f: (usize, usize))
        ensures
            f.0 == self.num(),
            f.1 == self.den(),
    {
        match self {
            CodeRate::R1_2 => (1, 2),
            CodeRate::R2_3 => (2, 3),
            CodeRate::R3_4 => (3, 4),
            CodeRate::R5_6 => (5, 6),
        }
    }
}

/// Modulation and code rate of an S1G-MCS index.
pub open spec fn spec_mcs_modulation_rate(mcs: u8) -> Option<(Modulation, CodeRate)> {
    if mcs == 0 {
        Some((Modulation::Bpsk, CodeRate::R1_2))
    } else if mcs == 1 {
        Some((Modulation::Qpsk, CodeRate::R1_2))
    } else if mcs == 2 {
        Some((Modulation::Qpsk, CodeRate::R3_4))
    } else if mcs == 3 {
        Some((Modulation::Qam16, CodeRate::R1_2))
    } else if mcs == 4 {
        Some((Modulation::Qam16, CodeRate::R3_4))
    } else if mcs == 5 {
        Some((Modulation::Qam64, CodeRate::R2_3))
    } else if mcs == 6 {
        Some((Modulation::Qam64, CodeRate::R3_4))
    } else if mcs == 7 {
        Some((Modulation::Qam64, CodeRate::R5_6))
    } else if mcs == 8 {
        Some((Modulation::Qam256, CodeRate::R3_4))
    } else if mcs == 9 {
        Some((Modulation::Qam256, CodeRate::R5_6))
    } else if mcs == 11 {
        Some((Modulation::Qam1024, CodeRate::R3_4))
    } else if mcs == 12 {
        Some((Modulation::Qam1024, CodeRate::R5_6))
    } else {
        None
    }
}

/// Modulation and code rate for every S1G-MCS index defined for >= 2 MHz
/// [23.3.5, Tables 23-46..23-49]. Validity for a given N_SS is a separate
/// question (see [`n_dbps_2mhz`]); MCS 10 exists only at 1 MHz.
#[verifier::when_used_as_spec(spec_mcs_modulation_rate)]
pub fn mcs_modulation_rate(mcs: u8) -> (r: Option<(Modulation, CodeRate)>)
    ensures
        r == spec_mcs_modulation_rate(mcs),
{
    match mcs {
        0 => Some((Modulation::Bpsk, CodeRate::R1_2)),
        1 => Some((Modulation::Qpsk, CodeRate::R1_2)),
        2 => Some((Modulation::Qpsk, CodeRate::R3_4)),
        3 => Some((Modulation::Qam16, CodeRate::R1_2)),
        4 => Some((Modulation::Qam16, CodeRate::R3_4)),
        5 => Some((Modulation::Qam64, CodeRate::R2_3)),
        6 => Some((Modulation::Qam64, CodeRate::R3_4)),
        7 => Some((Modulation::Qam64, CodeRate::R5_6)),
        8 => Some((Modulation::Qam256, CodeRate::R3_4)),
        9 => Some((Modulation::Qam256, CodeRate::R5_6)),
        11 => Some((Modulation::Qam1024, CodeRate::R3_4)),
        12 => Some((Modulation::Qam1024, CodeRate::R5_6)),
        _ => None,
    }
}

/// N_DBPS = 52 * N_BPSCS * N_SS * R, where the MCS index is defined, N_SS is
/// 1 to 4 and the product is an integer.
#[verifier::opaque]
pub open spec fn spec_n_dbps_2mhz(mcs: u8, n_ss: u8) -> Option<usize> {
    match spec_mcs_modulation_rate(mcs) {
        Some((m, r)) => {
            let scaled = 52 * m.spec_n_bpscs() * n_ss * r.num();
            if 1 <= n_ss <= 4 && scaled % r.den() == 0 {
                Some((scaled / r.den()) as usize)
            } else {
                None
            }
        },
        None => None,
    }
}

/// N_DBPS for (MCS, N_SS) at 2 MHz, or `None` when the combination is "Not
/// valid" in Tables 23-46..23-49 (N_DBPS = 52*N_BPSCS*N_SS*R must be an
/// integer; e.g. MCS 9 and 12 exist only for N_SS = 3). Used for PPDU
/// duration prediction of PPDUs this receiver cannot decode.
#[verifier::when_used_as_spec(spec_n_dbps_2mhz)]
pub fn n_dbps_2mhz(mcs: u8, n_ss: u8) -> (r: Option<usize>)
    ensures
        r == spec_n_dbps_2mhz(mcs, n_ss),
        r matches Some(n) ==> 26 <= n <= 1733,
{
    reveal(spec_n_dbps_2mhz);
    if n_ss < 1 || n_ss > 4 {
        return None;
    }
    match mcs_modulation_rate(mcs) {
        None => None,
        Some((m, r)) => {
            let bpscs: usize = m.n_bpscs();
            let streams: usize = n_ss as usize;
            assert(52 * bpscs * streams <= 2080) by (nonlinear_arith)
                requires
                    bpscs <= 10,
                    streams <= 4,
            ;
            assert(52 * bpscs * streams >= 52) by (nonlinear_arith)
                requires
                    bpscs >= 1,
                    streams >= 1,
            ;
            let n_cbps: usize = N_SD * bpscs * streams;
            let (num, den) = r.as_fraction();
            proof {
                assert(n_cbps * num == 52 * m.spec_n_bpscs() * n_ss * r.num());
            }
            assert(n_cbps * num <= 10400) by (nonlinear_arith)
                requires
                    n_cbps <= 2080,
                    num <= 5,
            ;
            if n_cbps * num % den == 0 {
                proof {
                    if den == 2 {
                        assert(num == 1);
                    } else if den == 3 {
                        assert(num == 2);
                    } else if den == 4 {
                        assert(num == 3);
                    } else {
                        assert(num == 5 && den == 6);
                    }
                }
                Some(n_cbps * num / den)
            } else {
                None
            }
        },
    }
}

/// A defined N_DBPS is positive.
pub proof fn lemma_n_dbps_positive(mcs: u8, n_ss: u8)
    ensures
        spec_n_dbps_2mhz(mcs, n_ss) matches Some(n) ==> 0 < n,
{
    reveal(spec_n_dbps_2mhz);
    match spec_mcs_modulation_rate(mcs) {
        Some((m, r)) => {
            let b = m.spec_n_bpscs() as int;
            let s = n_ss as int;
            let num = r.num();
            let den = r.den();
            if 1 <= n_ss <= 4 {
                assert(52 <= 52 * b * s * num <= 10_400) by (nonlinear_arith)
                    requires
                        1 <= b <= 10,
                        1 <= s <= 4,
                        1 <= num <= 5,
                ;
                let x = 52 * b * s * num;
                assert(0 < x / den <= 10_400) by (nonlinear_arith)
                    requires
                        52 <= x <= 10_400,
                        2 <= den <= 6,
                ;
            }
        },
        None => {},
    }
}

/// Per-MCS derived parameters (2 MHz, 1 SS) [Table 23-46].
#[derive(Debug, Clone, Copy, PartialEq, Eq, Structural)]
pub struct McsParams {
    pub mcs: u8,
    pub modulation: Modulation,
    pub rate: CodeRate,
    pub n_bpscs: usize,
    /// Coded bits per OFDM symbol.
    pub n_cbps: usize,
    /// Data bits per OFDM symbol.
    pub n_dbps: usize,
}

/// The parameters that the modulation and code rate of an index imply for
/// one spatial stream, where N_DBPS is an integer.
pub open spec fn spec_mcs_params(mcs: u8) -> Option<McsParams> {
    match (spec_mcs_modulation_rate(mcs), spec_n_dbps_2mhz(mcs, 1)) {
        (Some((m, r)), Some(n_dbps)) => Some(
            McsParams {
                mcs,
                modulation: m,
                rate: r,
                n_bpscs: m.spec_n_bpscs(),
                n_cbps: (52 * m.spec_n_bpscs()) as usize,
                n_dbps,
            },
        ),
        _ => None,
    }
}

fn mcs_row(mcs: u8, modulation: Modulation, rate: CodeRate, n_cbps: usize, n_dbps: usize) -> (p: McsParams)
    ensures
        p == (McsParams {
            mcs,
            modulation,
            rate,
            n_bpscs: modulation.spec_n_bpscs(),
            n_cbps,
            n_dbps,
        }),
{
    McsParams { mcs, modulation, rate, n_bpscs: modulation.n_bpscs(), n_cbps, n_dbps }
}

/// Look up MCS parameters. Valid for 2 MHz / 1 SS: 0..=8 and 11 (9, 10 and
/// 12 are "Not valid" in Table 23-46).
#[verifier::nonlinear]
pub fn mcs_params(mcs: u8) -> (r: Result<McsParams, PhyError>)
    ensures
        r == match spec_mcs_params(mcs) {
            Some(p) => Ok::<McsParams, PhyError>(p),
            None => Err(PhyError::InvalidMcs(mcs)),
        },
        r is Ok <==> mcs <= 8 || mcs == 11,
        r matches Ok(p) ==> {
            &&& 52 <= p.n_cbps <= 520
            &&& 26 <= p.n_dbps <= 390
            &&& p.n_cbps * p.rate.num() == p.n_dbps * p.rate.den()
        },
{
    reveal(spec_n_dbps_2mhz);
    match mcs {
        0 => Ok(mcs_row(0, Modulation::Bpsk, CodeRate::R1_2, 52, 26)),
        1 => Ok(mcs_row(1, Modulation::Qpsk, CodeRate::R1_2, 104, 52)),
        2 => Ok(mcs_row(2, Modulation::Qpsk, CodeRate::R3_4, 104, 78)),
        3 => Ok(mcs_row(3, Modulation::Qam16, CodeRate::R1_2, 208, 104)),
        4 => Ok(mcs_row(4, Modulation::Qam16, CodeRate::R3_4, 208, 156)),
        5 => Ok(mcs_row(5, Modulation::Qam64, CodeRate::R2_3, 312, 208)),
        6 => Ok(mcs_row(6, Modulation::Qam64, CodeRate::R3_4, 312, 234)),
        7 => Ok(mcs_row(7, Modulation::Qam64, CodeRate::R5_6, 312, 260)),
        8 => Ok(mcs_row(8, Modulation::Qam256, CodeRate::R3_4, 416, 312)),
        11 => Ok(mcs_row(11, Modulation::Qam1024, CodeRate::R3_4, 520, 390)),
        _ => Err(PhyError::InvalidMcs(mcs)),
    }
}

/// The ranges of a defined row, and its code rate.
#[verifier::nonlinear]
pub proof fn lemma_mcs_row(mcs: u8)
    requires
        spec_mcs_params(mcs) is Some,
    ensures
        ({
            let p = spec_mcs_params(mcs)->0;
            &&& mcs <= 11
            &&& 52 <= p.n_cbps <= 520
            &&& 26 <= p.n_dbps <= 390
            &&& p.n_cbps * p.rate.num() == p.n_dbps * p.rate.den()
        }),
{
    reveal(spec_n_dbps_2mhz);
}

/// All valid MCS indices for 2 MHz / 1 SS, ascending.
#[verifier::nonlinear]
pub fn valid_mcs() -> (v: Vec<u8>)
    ensures
        v@ == seq![0u8, 1, 2, 3, 4, 5, 6, 7, 8, 11],
        forall|m: u8| v@.contains(m) <==> spec_mcs_params(m) is Some,
{
    let v: Vec<u8> = vec![0, 1, 2, 3, 4, 5, 6, 7, 8, 11];
    proof {
        reveal(spec_n_dbps_2mhz);
        assert forall|m: u8| spec_mcs_params(m) is Some implies v@.contains(m) by {
            assert(v@[0] == 0 && v@[1] == 1 && v@[2] == 2 && v@[3] == 3 && v@[4] == 4);
            assert(v@[5] == 5 && v@[6] == 6 && v@[7] == 7 && v@[8] == 8 && v@[9] == 11);
        }
    }
    v
}

} // verus!
