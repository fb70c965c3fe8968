//! TXVECTOR / RXVECTOR analogues (IEEE 802.11-2024 23.2.2, Table 23-1) for
//! 2 MHz operation.
//!
//! These are the contract between PHY and MAC. The MAC constructs a
//! [`TxVector`] per PPDU and receives an [`RxVector`] with `PHY-RXSTART` /
//! each decoded PSDU. Transmission is restricted to 1 spatial stream, BCC or
//! LDPC. Reception decodes the same set; every other mode the SIG / SIG-A can
//! signal is still *identified* (for CCA and RID) and reported as an
//! unsupported rate.

use crate::arith::{ceil_div, lemma_ceil_div, spec_ceil_div};
use crate::params::{n_ltf, spec_n_ltf, N_SERVICE, N_TAIL};
use crate::params::{T_DLTF_US, T_DSTF_US, T_LTF_US, T_PREAMBLE_US, T_SIGB_US, T_SYML_US, T_SYMS_US};
use vstd::prelude::*;

pub mod laws;

verus! {

/// Guard interval selection. With `Short` (4 us) the first Data symbol still
/// carries the long (8 us) interval.
#[derive(Debug, Clone, Copy, PartialEq, Eq, Structural)]
pub enum GuardInterval {
    Long,
    Short,
}

impl Default for GuardInterval {
    fn default() -> (g: Self)
        ensures
            g == GuardInterval::Long,
    {
        GuardInterval::Long
    }
}

/// FEC_CODING [Table 23-1].
#[derive(Debug, Clone, Copy, PartialEq, Eq, Structural)]
pub enum Coding {
    Bcc,
    Ldpc,
}

impl Default for Coding {
    fn default() -> (c: Self)
        ensures
            c == Coding::Bcc,
    {
        Coding::Bcc
    }
}

/// PREAMBLE_TYPE [Table 23-1]. S1G_1M is out of scope (1 MHz).
#[derive(Debug, Clone, Copy, PartialEq, Eq, Structural)]
pub enum PreambleType {
    S1gShort,
    S1gLong,
}

impl Default for PreambleType {
    fn default() -> (p: Self)
        ensures
            p == PreambleType::S1gShort,
    {
        PreambleType::S1gShort
    }
}

/// SIG-2 Response Indication field (what the transmitter expects SIFS after
/// this PPDU; used by third parties for RID deferral) [Table 23-12; 10.3.2.5].
#[derive(Debug, Clone, Copy, PartialEq, Eq, Structural)]
pub enum ResponseIndication {
    NoResponse,
    Ndp,
    Normal,
    Long,
}

impl Default for ResponseIndication {
    fn default() -> (r: Self)
        ensures
            r == ResponseIndication::NoResponse,
    {
        ResponseIndication::NoResponse
    }
}

impl ResponseIndication {
    /// The two-bit code of the indication.
    pub open spec fn code(self) -> u8 {
        match self {
            ResponseIndication::NoResponse => 0,
            ResponseIndication::Ndp => 1,
            ResponseIndication::Normal => 2,
            ResponseIndication::Long => 3,
        }
    }

    /// The indication that a two-bit code stands for.
    pub open spec fn of_code(v: int) -> Self {
        if v == 0 {
            ResponseIndication::NoResponse
        } else if v == 1 {
            ResponseIndication::Ndp
        } else if v == 2 {
            ResponseIndication::Normal
        } else {
            ResponseIndication::Long
        }
    }

    /// The two-bit field value.
    pub fn to_bits(self) -> (v: u8)
        ensures
            v == self.code(),
            v < 4,
    {
        match self {
            ResponseIndication::NoResponse => 0,
            ResponseIndication::Ndp => 1,
            ResponseIndication::Normal => 2,
            ResponseIndication::Long => 3,
        }
    }

    /// The indication in the two low bits of `v`.
    pub fn from_bits(v: u8) -> (r: Self)
        ensures
            r == ResponseIndication::of_code(v as int % 4),
    {
        match v % 4 {
            0 => ResponseIndication::NoResponse,
            1 => ResponseIndication::Ndp,
            2 => ResponseIndication::Normal,
            _ => ResponseIndication::Long,
        }
    }

    /// Reading a written indication gives it back.
    pub proof fn lemma_roundtrip(self)
        ensures
            ResponseIndication::of_code(self.code() as int) == self,
            self.code() < 4,
    {
    }
}

/// Per-PPDU transmit parameters (TXVECTOR analogue).
#[derive(Debug, Clone, Copy, PartialEq, Eq, Structural)]
pub struct TxVector {
    /// S1G MCS index; valid for 2 MHz / 1 SS: 0..=8 or 11.
    pub mcs: u8,
    /// Preamble format.
    pub preamble_type: PreambleType,
    /// Guard interval.
    pub gi: GuardInterval,
    /// FEC_CODING: BCC (mandatory) or LDPC (optional, 23.3.9.4.4).
    pub fec_coding: Coding,
    /// True when the PSDU is an A-MPDU. Mandatory for PSDUs > 511 octets
    /// (SIG Length is 9 bits). Changes SIG Length semantics to symbols.
    pub aggregation: bool,
    /// SIG-2 Response Indication.
    pub response_indication: ResponseIndication,
    /// Scrambler initial state (1..=127). `None`: pseudo-random per PPDU.
    /// A MAC that expects an NDP Ack / NDP BlockAck must choose the seed
    /// itself, because the Ack ID is derived from it [23.3.12.2.4].
    pub scrambler_seed: Option<u8>,
    /// SIG-1 Smoothing bit (channel-smoothing recommendation to receivers).
    pub smoothing: bool,
    /// Traveling pilots (Doppler mode) [23.3.9.10]. Optional feature; only
    /// send to a peer that advertised support (10.55).
    pub traveling_pilots: bool,
    /// SIG-1 Uplink Indication: 1 = PPDU addressed to an AP [Table 23-12].
    /// For OCB/non-BSS operation leave false.
    pub uplink_indication: bool,
    /// BSS COLOR (0..=7), carried in SIG-1 ID bits when
    /// `uplink_indication` is false.
    pub color: u8,
    /// Partial AID: 0..=511 when `uplink_indication`, else 0..=63.
    pub partial_aid: u16,
}

impl Default for TxVector {
    fn default() -> (t: Self)
        ensures
            t == (TxVector {
                mcs: 0,
                preamble_type: PreambleType::S1gShort,
                gi: GuardInterval::Long,
                fec_coding: Coding::Bcc,
                aggregation: false,
                response_indication: ResponseIndication::NoResponse,
                scrambler_seed: None,
                smoothing: true,
                traveling_pilots: false,
                uplink_indication: false,
                color: 0,
                partial_aid: 0,
            }),
    {
        TxVector {
            mcs: 0,
            preamble_type: PreambleType::S1gShort,
            gi: GuardInterval::Long,
            fec_coding: Coding::Bcc,
            aggregation: false,
            response_indication: ResponseIndication::NoResponse,
            scrambler_seed: None,
            smoothing: true,
            traveling_pilots: false,
            uplink_indication: false,
            color: 0,
            partial_aid: 0,
        }
    }
}

/// Per-PPDU receive parameters and measurements (RXVECTOR analogue). Levels
/// are carried by their 8-bit codes.
#[derive(Debug, Clone, Copy, PartialEq, Eq, Structural)]
pub struct RxVector {
    /// FORMAT is always S1G at 2 MHz; PREAMBLE_TYPE distinguishes the two
    /// >= 2 MHz preambles.
    pub preamble_type: PreambleType,
    /// MU/SU subfield of an S1G_LONG SIG-A (always false for S1G_SHORT).
    pub mu: bool,
    /// CH_BANDWIDTH as the SIG BW field code: 0 = 2 MHz, 1 = 4, 2 = 8, 3 = 16.
    pub bandwidth_code: u8,
    /// NUM_STS (total space-time streams; per-user for MU is not tracked).
    pub num_sts: u8,
    pub stbc: bool,
    pub mcs: u8,
    pub gi: GuardInterval,
    pub fec_coding: Coding,
    /// LDPC Extra OFDM Symbol bit.
    pub ldpc_extra: bool,
    pub aggregation: bool,
    pub response_indication: ResponseIndication,
    pub smoothing: bool,
    pub traveling_pilots: bool,
    pub uplink_indication: bool,
    /// COLOR when `uplink_indication` is false (0 otherwise).
    pub color: u8,
    pub partial_aid: u16,
    /// Group ID of an MU PPDU (S1G_LONG only).
    pub group_id: u8,
    /// Raw 9-bit SIG LENGTH field (octets or symbols per `aggregation`).
    pub length: u16,
    /// PSDU length in octets derived from the SIG (Eq 23-71 / 23-72 when
    /// aggregated). 0 for an NDP.
    pub psdu_length: usize,
    /// Number of Data-field OFDM symbols.
    pub n_sym: usize,
    /// Recovered scrambler seed (RXVECTOR SCRAMBLER_OR_CRC); 0 until the
    /// SERVICE field has been decoded.
    pub scrambler_seed: u8,
    /// RSSI, 0-255, measured over LTF1, monotonically increasing with
    /// received power [23.3.18.6]: 2*(dBFS + 127.5).
    pub rssi: u8,
    /// RCPI code [Table 9-215] for the LTF1 power converted to dBm through
    /// the receiver's calibration offset [23.3.18.7]; 255 = not available.
    pub rcpi: u8,
}

/// The RXVECTOR of which nothing is known yet.
pub open spec fn blank_rxvector() -> RxVector {
    RxVector {
        preamble_type: PreambleType::S1gShort,
        mu: false,
        bandwidth_code: 0,
        num_sts: 1,
        stbc: false,
        mcs: 0,
        gi: GuardInterval::Long,
        fec_coding: Coding::Bcc,
        ldpc_extra: false,
        aggregation: false,
        response_indication: ResponseIndication::NoResponse,
        smoothing: false,
        traveling_pilots: false,
        uplink_indication: false,
        color: 0,
        partial_aid: 0,
        group_id: 0,
        length: 0,
        psdu_length: 0,
        n_sym: 0,
        scrambler_seed: 0,
        rssi: 0,
        rcpi: 255,
    }
}

impl Default for RxVector {
    fn default() -> (r: Self)
        ensures
            r == blank_rxvector(),
    {
        RxVector {
            preamble_type: PreambleType::S1gShort,
            mu: false,
            bandwidth_code: 0,
            num_sts: 1,
            stbc: false,
            mcs: 0,
            gi: GuardInterval::Long,
            fec_coding: Coding::Bcc,
            ldpc_extra: false,
            aggregation: false,
            response_indication: ResponseIndication::NoResponse,
            smoothing: false,
            traveling_pilots: false,
            uplink_indication: false,
            color: 0,
            partial_aid: 0,
            group_id: 0,
            length: 0,
            psdu_length: 0,
            n_sym: 0,
            scrambler_seed: 0,
            rssi: 0,
            rcpi: 255,
        }
    }
}

/// Duration of everything before the Data field, us: STF + LTF1 + SIG
/// (+ LTF2..N for S1G_SHORT; + D-STF + D-LTFs + SIG-B for S1G_LONG).
pub open spec fn preamble_us(preamble: PreambleType, num_sts: u8) -> int {
    match preamble {
        PreambleType::S1gShort => 240 + 40 * (spec_n_ltf(num_sts) - 1),
        PreambleType::S1gLong => 240 + 40 + 40 * spec_n_ltf(num_sts) + 40,
    }
}

/// Data-field duration, us: 40 per symbol, or with the short guard interval
/// 40 for the first symbol and 36 for each further one.
pub open spec fn data_us(gi: GuardInterval, n_sym: int) -> int {
    match gi {
        GuardInterval::Long => 40 * n_sym,
        GuardInterval::Short => if n_sym == 0 {
            0
        } else {
            40 + 36 * (n_sym - 1)
        },
    }
}

fn preamble_duration(preamble: PreambleType, num_sts: u8) -> (us: u32)
    ensures
        us == preamble_us(preamble, num_sts),
        240 <= us <= 480,
{
    let n: u32 = n_ltf(num_sts) as u32;
    match preamble {
        PreambleType::S1gShort => T_PREAMBLE_US + (n - 1) * T_LTF_US,
        PreambleType::S1gLong => T_PREAMBLE_US + T_DSTF_US + n * T_DLTF_US + T_SIGB_US,
    }
}

fn data_duration(gi: GuardInterval, n_sym: usize) -> (us: u32)
    requires
        data_us(gi, n_sym as int) <= u32::MAX,
    ensures
        us == data_us(gi, n_sym as int),
{
    let n: u32 = n_sym as u32;
    match gi {
        GuardInterval::Long => n * T_SYML_US,
        GuardInterval::Short => {
            if n == 0 {
                0
            } else {
                T_SYML_US + (n - 1) * T_SYMS_US
            }
        },
    }
}

/// TXTIME of a one-stream PPDU, us [Eq 23-74, 23-75].
pub fn ppdu_duration_us(preamble: PreambleType, gi: GuardInterval, n_sym: usize) -> (us: u32)
    requires
        preamble_us(preamble, 1) + data_us(gi, n_sym as int) <= u32::MAX,
    ensures
        us == preamble_us(preamble, 1) + data_us(gi, n_sym as int),
{
    preamble_duration(preamble, 1) + data_duration(gi, n_sym)
}

impl RxVector {
    /// Number of spatial streams (N_STS halved under STBC), at least 1.
    pub fn num_ss(&self) -> (n: u8)
        ensures
            n == {
                let raw = if self.stbc {
                    self.num_sts / 2
                } else {
                    self.num_sts
                };
                if raw == 0 {
                    1
                } else {
                    raw
                }
            },
    {
        let raw: u8 = if self.stbc {
            self.num_sts / 2
        } else {
            self.num_sts
        };
        if raw == 0 {
            1
        } else {
            raw
        }
    }

    /// Duration of everything before the Data field, us: STF + LTF1 + SIG
    /// (+ LTF2..N for S1G_SHORT; + D-STF + D-LTFs + SIG-B for S1G_LONG)
    /// [Figure 23-5; Table 23-5].
    pub fn preamble_duration_us(&self) -> (us: u32)
        ensures
            us == preamble_us(self.preamble_type, self.num_sts),
            240 <= us <= 480,
    {
        preamble_duration(self.preamble_type, self.num_sts)
    }

    /// Data-field duration, us (short GI: first symbol long, rest short)
    /// [Eq 23-69].
    pub fn data_duration_us(&self) -> (us: u32)
        requires
            data_us(self.gi, self.n_sym as int) <= u32::MAX,
        ensures
            us == data_us(self.gi, self.n_sym as int),
    {
        data_duration(self.gi, self.n_sym)
    }

    /// Duration of the whole PPDU.
    pub open spec fn ppdu_us(&self) -> int {
        preamble_us(self.preamble_type, self.num_sts) + data_us(self.gi, self.n_sym as int)
    }

    /// Total PPDU duration (TXTIME of the received PPDU), us.
    pub fn ppdu_duration_us(&self) -> (us: u32)
        requires
            self.ppdu_us() <= u32::MAX,
        ensures
            us == self.ppdu_us(),
    {
        self.preamble_duration_us() + self.data_duration_us()
    }

    /// RXTIME as literally defined by Eq 23-69 (S1G_SHORT) / Eq 23-70
    /// (S1G_LONG): the duration after SIG/SIG-A, for S1G_SHORT plus one
    /// 40 us margin.
    pub fn rxtime_us(&self) -> (us: u32)
        requires
            self.ppdu_us() <= u32::MAX,
        ensures
            us == self.ppdu_us() - 240 + if self.preamble_type == PreambleType::S1gLong {
                0int
            } else {
                40
            },
    {
        let after_sig: u32 = self.ppdu_duration_us() - T_PREAMBLE_US;
        if self.preamble_type == PreambleType::S1gLong {
            after_sig
        } else {
            after_sig + T_DSTF_US
        }
    }
}

/// N_SYM and PSDU_LENGTH that the SIG/SIG-A fields give.
#[verifier::opaque]
pub open spec fn spec_data_field_geometry(
    length: int,
    aggregation: bool,
    coding: Coding,
    ldpc_extra: bool,
    stbc: bool,
    n_dbps: int,
) -> Option<(int, int)> {
    let m_stbc = if stbc {
        2int
    } else {
        1
    };
    let extra = if ldpc_extra {
        m_stbc
    } else {
        0
    };
    if length == 0 {
        None
    } else {
        match (coding, aggregation) {
            (Coding::Bcc, true) => Some((length, octets_in(length * n_dbps - 14))),
            (Coding::Bcc, false) => Some(
                (m_stbc * spec_ceil_div(8 * length + 14, m_stbc * n_dbps), length),
            ),
            (Coding::Ldpc, true) => if length < extra {
                None
            } else {
                let n_init = if length == extra {
                    1
                } else {
                    length - extra
                };
                Some((length, octets_in(n_init * n_dbps - 8)))
            },
            (Coding::Ldpc, false) => Some(
                (m_stbc * spec_ceil_div(8 * length + 8, m_stbc * n_dbps) + extra, length),
            ),
        }
    }
}

/// Whole octets in `bits` bits, none where the count is negative.
pub open spec fn octets_in(bits: int) -> int {
    if bits < 0 {
        0
    } else {
        bits / 8
    }
}

fn octets_after(bits: usize, overhead: usize) -> (n: usize)
    ensures
        n == octets_in(bits - overhead),
{
    if bits < overhead {
        0
    } else {
        (bits - overhead) / 8
    }
}

/// N_SYM and PSDU_LENGTH from the SIG/SIG-A fields, for any coding and STBC
/// setting [23.3.20, Eqs 23-65..23-68, 23-71, 23-72]. `n_dbps` is the
/// (possibly multi-stream) N_DBPS. Returns `None` for an empty data field.
pub fn data_field_geometry(
    length: u16,
    aggregation: bool,
    coding: Coding,
    ldpc_extra: bool,
    stbc: bool,
    n_dbps: usize,
) -> (r: Option<(usize, usize)>)
    requires
        length > 0 && !aggregation ==> n_dbps > 0,
        length > 0 && !aggregation && stbc ==> 2 * n_dbps <= usize::MAX,
        aggregation ==> length * n_dbps <= usize::MAX,
    ensures
        match spec_data_field_geometry(
            length as int,
            aggregation,
            coding,
            ldpc_extra,
            stbc,
            n_dbps as int,
        ) {
            Some((n_sym, octets)) => r matches Some((a, b)) && a == n_sym && b == octets,
            None => r is None,
        },
        r matches Some((n_sym, _)) ==> 0 < n_sym <= 8 * length + 18,
{
    reveal(spec_data_field_geometry);
    let m_stbc: usize = if stbc {
        2
    } else {
        1
    };
    let extra: usize = if ldpc_extra {
        m_stbc
    } else {
        0
    };
    let len: usize = length as usize;
    if len == 0 {
        return None;
    }
    match (coding, aggregation) {
        (Coding::Bcc, true) => Some((len, octets_after(len * n_dbps, N_SERVICE + N_TAIL))),
        (Coding::Bcc, false) => {
            let n: usize = ceil_div(8 * len + N_SERVICE + N_TAIL, m_stbc * n_dbps);
            proof {
                lemma_symbol_bound(8 * len + 14, m_stbc as int, n_dbps as int);
            }
            Some((m_stbc * n, len))
        },
        (Coding::Ldpc, true) => {
            // LENGTH counts the transmitted symbols including any LDPC extra
            // symbol(s); the PSDU capacity is that of N_SYM,init (Eq 23-82).
            if len < extra {
                return None;
            }
            let n_init: usize = if len == extra {
                1
            } else {
                len - extra
            };
            proof {
                assert(n_init * n_dbps <= length * n_dbps) by (nonlinear_arith)
                    requires
                        n_init <= length,
                        0 <= n_dbps,
                ;
            }
            Some((len, octets_after(n_init * n_dbps, N_SERVICE)))
        },
        (Coding::Ldpc, false) => {
            let n: usize = ceil_div(8 * len + N_SERVICE, m_stbc * n_dbps);
            proof {
                lemma_symbol_bound(8 * len + 8, m_stbc as int, n_dbps as int);
            }
            Some((m_stbc * n + extra, len))
        },
    }
}

/// A Data field that has a geometry has symbols, about as many as it has bits
/// at most.
pub proof fn lemma_geometry_symbols(
    length: int,
    aggregation: bool,
    coding: Coding,
    ldpc_extra: bool,
    stbc: bool,
    n_dbps: int,
)
    requires
        length >= 0,
        n_dbps > 0,
    ensures
        spec_data_field_geometry(length, aggregation, coding, ldpc_extra, stbc, n_dbps) matches Some(
            (n_sym, octets),
        ) ==> 0 < n_sym <= 8 * length + 18,
{
    reveal(spec_data_field_geometry);
    let m: int = if stbc {
        2
    } else {
        1
    };
    if length > 0 {
        lemma_symbol_bound(8 * length + 14, m, n_dbps);
        lemma_symbol_bound(8 * length + 8, m, n_dbps);
    }
}

proof fn lemma_symbol_bound(bits: int, m: int, n_dbps: int)
    requires
        bits > 0,
        1 <= m <= 2,
        n_dbps > 0,
    ensures
        0 < m * spec_ceil_div(bits, m * n_dbps) <= bits + 2,
        m * n_dbps > 0,
{
    assert(m * n_dbps > 0) by (nonlinear_arith)
        requires
            m >= 1,
            n_dbps > 0,
    ;
    lemma_ceil_div(bits, m * n_dbps);
    let q = spec_ceil_div(bits, m * n_dbps);
    assert(0 < m * q <= bits + 2) by (nonlinear_arith)
        requires
            bits > 0,
            1 <= m <= 2,
            n_dbps >= 1,
            bits <= q * (m * n_dbps) < bits + m * n_dbps,
    {
        assert(q * (m * n_dbps) == (m * q) * n_dbps);
        assert((q - 1) * (m * n_dbps) < bits);
        assert((q - 1) * m <= (q - 1) * (m * n_dbps) || q < 1);
    }
}

} // verus!
