//! SIG (S1G_SHORT, Table 23-12) and SIG-A (S1G_LONG, Tables 23-14/23-15)
//! fields: bit layouts, CRC-4 [23.3.8.2.2.6] and classification.
//!
//! Both fields are 48 uncoded bits (symbol 1 B0..B23 then symbol 2 B0..B23),
//! sent as BCC R=1/2 (96 bits), per-symbol 48-bit Clause-17 interleave, BPSK
//! on 48 data tones (+-1..+-26 minus pilots) with Clause-17 pilots, 8 us GI.
//! The difference is the constellation rotation:
//!
//! * S1G_SHORT SIG: **both** symbols rotated +90 degrees (QBPSK).
//! * S1G_LONG SIG-A: symbol 1 rotated (QBPSK), symbol 2 plain BPSK; that
//!   asymmetry is how a receiver tells the two >= 2 MHz formats apart, and
//!   decoding SIG-A is mandatory for every S1G STA [4.3.14.1].
//!
//! All numeric fields are LSB-first [23.3.8.1].

use crate::bits::{lemma_uint_bits_len, push_uint_lsb_first, uint_bits};
use crate::error::PhyError;
use crate::params::{mcs_params, n_dbps_2mhz, spec_mcs_params, spec_n_dbps_2mhz, McsParams};
use crate::vector::{blank_rxvector, data_field_geometry, data_us, preamble_us};
use crate::vector::{spec_data_field_geometry, Coding, GuardInterval, PreambleType};
use crate::vector::{ResponseIndication, RxVector, TxVector};
use vstd::prelude::*;

pub use crate::sig::parse::{parse, parse_long, parse_short};

pub mod laws;
pub mod parse;
pub mod positions;
pub mod verdicts;

verus! {

/// Decoded/encodable S1G_SHORT SIG contents for a normal (non-NDP) PPDU
/// [Table 23-12].
#[derive(Debug, Clone, Copy, PartialEq, Eq, Structural)]
pub struct SigFields {
    pub stbc: bool,
    pub uplink_indication: bool,
    /// BW field: 0=2 MHz, 1=4, 2=8, 3=16.
    pub bandwidth: u8,
    /// Nsts field: N_STS - 1 (0: 1 stream).
    pub nsts: u8,
    /// Raw 9-bit ID field (COLOR + partial AID packing depends on
    /// `uplink_indication`, see accessors).
    pub id: u16,
    pub short_gi: bool,
    pub ldpc: bool,
    /// LDPC Extra OFDM Symbol when `ldpc`; must be 1 on transmit for BCC
    /// [Table 23-12 B18].
    pub ldpc_extra: bool,
    pub mcs: u8,
    pub smoothing: bool,
    pub aggregation: bool,
    /// 9-bit Length: octets when !aggregation, N_SYM when aggregation.
    pub length: u16,
    pub response_indication: ResponseIndication,
    pub traveling_pilots: bool,
}

/// S1G_LONG SIG-A contents for an SU PPDU [Table 23-14].
#[derive(Debug, Clone, Copy, PartialEq, Eq, Structural)]
pub struct SigASu {
    pub stbc: bool,
    pub uplink_indication: bool,
    pub bandwidth: u8,
    /// N_STS - 1.
    pub nsts: u8,
    pub id: u16,
    pub short_gi: bool,
    pub ldpc: bool,
    pub ldpc_extra: bool,
    pub mcs: u8,
    /// Beam Change (1 STS) / Smoothing (> 1 STS) indication, B23.
    pub beam_change_or_smoothing: bool,
    pub aggregation: bool,
    pub length: u16,
    pub response_indication: ResponseIndication,
    pub traveling_pilots: bool,
}

/// S1G_LONG SIG-A contents for an MU PPDU [Table 23-15].
#[derive(Debug, Clone, Copy, PartialEq, Eq)]
pub struct SigAMu {
    pub stbc: bool,
    /// MU[0..4] Nsts (0 = user position unused).
    pub nsts: [u8; 4],
    pub bandwidth: u8,
    pub group_id: u8,
    pub short_gi: bool,
    /// Coding-I: per-user LDPC flag (meaningful only where nsts[u] > 0).
    pub ldpc: [bool; 4],
    /// Coding-II: LDPC extra symbol.
    pub ldpc_extra: bool,
    /// N_SYM (MU PPDUs are always aggregated).
    pub length: u16,
    pub response_indication: ResponseIndication,
    pub traveling_pilots: bool,
}

/// Result of decoding a SIG / SIG-A field.
#[derive(Debug, Clone, Copy, PartialEq, Eq)]
pub enum SigContent {
    /// S1G_SHORT data PPDU.
    Normal(SigFields),
    /// NDP CMAC PPDU: 37-bit body (B0 first = LSB) [23.3.11, Fig 23-21].
    Ndp { body: u64 },
    /// S1G_LONG SU PPDU.
    LongSu(SigASu),
    /// S1G_LONG MU PPDU.
    LongMu(SigAMu),
}

/// Why 48 decoded bits are no valid SIG / SIG-A.
#[derive(Debug, Clone, Copy, PartialEq, Eq)]
pub enum SigError {
    /// CRC over bits 0..37 failed.
    CrcFailed,
    /// Tail bits nonzero, or a reserved bit transmitted as 0 ("Reserved SIG
    /// Indication" [23.3.20]). When the remaining fields still allow it,
    /// `duration_us` carries the PPDU duration so CCA can be held for it.
    Reserved { reason: &'static str, duration_us: Option<u32> },
}

/// What the receiver should do with a CRC-valid SIG/SIG-A.
#[derive(Debug, Clone, Copy, PartialEq, Eq)]
pub enum SigVerdict {
    /// A mode this receiver decodes: proceed to the Data field.
    Supported(RxVector),
    /// Valid but not decodable here (PHY-RXSTART then RXEND(UnsupportedRate));
    /// the RXVECTOR still carries everything needed for CCA/RID.
    Unsupported(RxVector, &'static str),
    /// Reserved SIG Indication: PHY-RXEND(FormatViolation). CCA is still
    /// held for `duration_us` when the fields allow computing it [23.3.20].
    Reserved { reason: &'static str, duration_us: Option<u32> },
}

/// A flag as a bit.
pub open spec fn flag(b: bool) -> u8 {
    if b {
        1
    } else {
        0
    }
}

fn bit_of(b: bool) -> (v: u8)
    ensures
        v == flag(b),
{
    if b {
        1
    } else {
        0
    }
}

/// One step of the CRC register (c3, c2, c1, c0).
pub open spec fn crc_step(c: (u8, u8, u8, u8), b: u8) -> (u8, u8, u8, u8) {
    let fb = (b % 2) ^ c.0;
    (c.1, c.2, c.3 ^ fb, fb)
}

/// The CRC register after `bits`, started from all ones.
pub open spec fn crc_register(bits: Seq<u8>) -> (u8, u8, u8, u8)
    decreases bits.len(),
{
    if bits.len() == 0 {
        (1, 1, 1, 1)
    } else {
        crc_step(crc_register(bits.drop_last()), bits.last())
    }
}

/// CRC-4 of `bits`: the complement of the register, c3 first.
pub open spec fn crc_bits(bits: Seq<u8>) -> Seq<u8> {
    let c = crc_register(bits);
    seq![1 ^ c.0, 1 ^ c.1, 1 ^ c.2, 1 ^ c.3]
}

/// 38 field bits, their CRC, six zero tail bits.
pub open spec fn sig_word(fields: Seq<u8>) -> Seq<u8> {
    fields + crc_bits(fields) + seq![0u8, 0, 0, 0, 0, 0]
}

/// What is wrong with 48 decoded bits, before any field is read.
pub open spec fn word_error(bits: Seq<u8>) -> Option<SigError> {
    if bits.subrange(42, 48) != seq![0u8, 0, 0, 0, 0, 0] {
        Some(SigError::Reserved { reason: "nonzero tail bits", duration_us: None })
    } else if bits.subrange(38, 42) != crc_bits(bits.take(38)) {
        Some(SigError::CrcFailed)
    } else {
        None
    }
}

/// CRC-4, G(D)=D^4+D+1, register init all-ones, output ones-complemented,
/// c3 first [23.3.8.2.2.6].
pub fn crc4(bits: &[u8]) -> (crc: [u8; 4])
    ensures
        crc@ == crc_bits(bits@),
{
    let mut c3: u8 = 1;
    let mut c2: u8 = 1;
    let mut c1: u8 = 1;
    let mut c0: u8 = 1;
    for i in 0..bits.len()
        invariant
            (c3, c2, c1, c0) == crc_register(bits@.take(i as int)),
    {
        proof {
            assert(bits@.take(i + 1).drop_last() =~= bits@.take(i as int));
        }
        let fb: u8 = (bits[i] % 2) ^ c3;
        c3 = c2;
        c2 = c1;
        c1 = c0 ^ fb;
        c0 = fb;
    }
    proof {
        assert(bits@.take(bits@.len() as int) =~= bits@);
    }
    let crc: [u8; 4] = [1 ^ c3, 1 ^ c2, 1 ^ c1, 1 ^ c0];
    proof {
        assert(crc@ =~= crc_bits(bits@));
    }
    crc
}

/// Append CRC (over the 38 bits present) and 6 zero tail bits.
pub(crate) fn finish_48(v: Vec<u8>) -> (out: [u8; 48])
    requires
        v@.len() == 38,
    ensures
        out@ == sig_word(v@),
{
    let crc: [u8; 4] = crc4(v.as_slice());
    let mut out: [u8; 48] = [0u8; 48];
    for i in 0..38usize
        invariant
            v@.len() == 38,
            forall|k: int| 0 <= k < i ==> out@[k] == v@[k],
            forall|k: int| i <= k < 48 ==> out@[k] == 0,
    {
        out[i] = v[i];
    }
    out[38] = crc[0];
    out[39] = crc[1];
    out[40] = crc[2];
    out[41] = crc[3];
    proof {
        assert(out@ =~= sig_word(v@));
    }
    out
}

/// Check tail and CRC of 48 decoded bits.
pub(crate) fn check_48(bits: &[u8; 48]) -> (r: Result<(), SigError>)
    ensures
        r == match word_error(bits@) {
            Some(e) => Err::<(), SigError>(e),
            None => Ok(()),
        },
{
    let all = bits.as_slice();
    for i in 42..48usize
        invariant
            all@ == bits@,
            bits@.len() == 48,
            forall|k: int| 42 <= k < i ==> bits@[k] == 0,
    {
        if all[i] != 0 {
            proof {
                assert(bits@.subrange(42, 48)[i - 42] != 0);
            }
            return Err(SigError::Reserved { reason: "nonzero tail bits", duration_us: None });
        }
    }
    proof {
        assert(bits@.subrange(42, 48) =~= seq![0u8, 0, 0, 0, 0, 0]);
    }
    let head = &all[0..38];
    let crc: [u8; 4] = crc4(head);
    proof {
        assert(head@ =~= bits@.take(38));
    }
    if all[38] != crc[0] || all[39] != crc[1] || all[40] != crc[2] || all[41] != crc[3] {
        proof {
            let got = bits@.subrange(38, 42);
            assert(got[0] != crc@[0] || got[1] != crc@[1] || got[2] != crc@[2] || got[3] != crc@[3]);
        }
        return Err(SigError::CrcFailed);
    }
    proof {
        assert(bits@.subrange(38, 42) =~= crc@);
    }
    Ok(())
}

/// The ID field of a TXVECTOR: the partial AID alone on the uplink, otherwise
/// the partial AID above three COLOR bits.
pub open spec fn spec_id_from_txvector(txv: &TxVector) -> Result<u16, PhyError> {
    if txv.color > 7 {
        Err(PhyError::InvalidTxVector("color > 7"))
    } else if txv.uplink_indication {
        if txv.partial_aid > 511 {
            Err(PhyError::InvalidTxVector("partial_aid > 511"))
        } else {
            Ok(txv.partial_aid)
        }
    } else {
        if txv.partial_aid > 63 {
            Err(PhyError::InvalidTxVector("partial_aid > 63 with uplink_indication = false"))
        } else {
            Ok((8 * txv.partial_aid + txv.color) as u16)
        }
    }
}

fn id_from_txvector(txv: &TxVector) -> (r: Result<u16, PhyError>)
    ensures
        r == spec_id_from_txvector(txv),
        r matches Ok(id) ==> id < 512,
{
    if txv.color > 7 {
        return Err(PhyError::InvalidTxVector("color > 7"));
    }
    if txv.uplink_indication {
        if txv.partial_aid > 511 {
            return Err(PhyError::InvalidTxVector("partial_aid > 511"));
        }
        Ok(txv.partial_aid)
    } else {
        if txv.partial_aid > 63 {
            return Err(
                PhyError::InvalidTxVector("partial_aid > 63 with uplink_indication = false"),
            );
        }
        Ok(8 * txv.partial_aid + txv.color as u16)
    }
}

/// COLOR and partial AID of an ID field.
pub open spec fn spec_split_id(id: u16, uplink: bool) -> (u8, u16) {
    if uplink {
        (0u8, (id % 512) as u16)
    } else {
        ((id % 8) as u8, ((id / 8) % 64) as u16)
    }
}

fn split_id(id: u16, uplink: bool) -> (r: (u8, u16))
    ensures
        r == spec_split_id(id, uplink),
{
    if uplink {
        (0, id % 512)
    } else {
        ((id % 8) as u8, (id / 8) % 64)
    }
}

/// COLOR and partial AID survive the packing into the ID field.
pub proof fn lemma_id_roundtrip(txv: &TxVector)
    requires
        spec_id_from_txvector(txv) is Ok,
    ensures
        ({
            let (color, aid) = spec_split_id(
                spec_id_from_txvector(txv)->Ok_0,
                txv.uplink_indication,
            );
            &&& aid == txv.partial_aid
            &&& !txv.uplink_indication ==> color == txv.color
        }),
{
}

/// The fields of an SU PPDU's SIG or SIG-A that decide how it is received.
#[derive(Debug, Clone, Copy, PartialEq, Eq, Structural)]
pub struct SuFields {
    pub preamble: PreambleType,
    pub stbc: bool,
    pub uplink_indication: bool,
    pub bandwidth: u8,
    pub nsts: u8,
    pub id: u16,
    pub short_gi: bool,
    pub ldpc: bool,
    pub ldpc_extra: bool,
    pub mcs: u8,
    pub smoothing: bool,
    pub aggregation: bool,
    pub length: u16,
    pub response_indication: ResponseIndication,
    pub traveling_pilots: bool,
}

/// The guard interval that the Short GI bit selects.
pub open spec fn gi_of(short_gi: bool) -> GuardInterval {
    if short_gi {
        GuardInterval::Short
    } else {
        GuardInterval::Long
    }
}

/// The coding that the Coding bit selects.
pub open spec fn coding_of(ldpc: bool) -> Coding {
    if ldpc {
        Coding::Ldpc
    } else {
        Coding::Bcc
    }
}

fn to_gi(short_gi: bool) -> (g: GuardInterval)
    ensures
        g == gi_of(short_gi),
{
    if short_gi {
        GuardInterval::Short
    } else {
        GuardInterval::Long
    }
}

fn to_coding(ldpc: bool) -> (c: Coding)
    ensures
        c == coding_of(ldpc),
{
    if ldpc {
        Coding::Ldpc
    } else {
        Coding::Bcc
    }
}

/// At least 1.
pub open spec fn at_least_one(n: u8) -> u8 {
    if n == 0 {
        1
    } else {
        n
    }
}

/// PPDU duration for a (possibly invalid) field combination: `None` when the
/// symbol count cannot be derived (unknown N_DBPS without aggregation, or an
/// empty Data field).
pub open spec fn spec_duration_from_fields(
    preamble: PreambleType,
    n_sts: u8,
    stbc: bool,
    short_gi: bool,
    mcs: u8,
    ldpc: bool,
    ldpc_extra: bool,
    aggregation: bool,
    length: u16,
) -> Option<u32> {
    let n_ss = at_least_one(if stbc {
        n_sts / 2
    } else {
        n_sts
    });
    let n_sym = if aggregation {
        if length > 0 {
            Some(length as int)
        } else {
            None
        }
    } else {
        match spec_n_dbps_2mhz(mcs, n_ss) {
            Some(n_dbps) => match spec_data_field_geometry(
                length as int,
                false,
                coding_of(ldpc),
                ldpc && ldpc_extra,
                stbc,
                n_dbps as int,
            ) {
                Some((n, _)) => Some(n),
                None => None,
            },
            None => None,
        }
    };
    match n_sym {
        Some(n) => Some(
            (preamble_us(preamble, at_least_one(n_sts)) + data_us(gi_of(short_gi), n)) as u32,
        ),
        None => None,
    }
}

/// PPDU duration for a (possibly invalid) field combination, or `None` when
/// the symbol count cannot be derived (unknown N_DBPS without aggregation).
fn duration_from_fields(
    preamble: PreambleType,
    n_sts: u8,
    stbc: bool,
    short_gi: bool,
    mcs: u8,
    ldpc: bool,
    ldpc_extra: bool,
    aggregation: bool,
    length: u16,
) -> (r: Option<u32>)
    ensures
        r == spec_duration_from_fields(
            preamble,
            n_sts,
            stbc,
            short_gi,
            mcs,
            ldpc,
            ldpc_extra,
            aggregation,
            length,
        ),
{
    let halved: u8 = if stbc {
        n_sts / 2
    } else {
        n_sts
    };
    let n_ss: u8 = if halved == 0 {
        1
    } else {
        halved
    };
    let n_sym: usize = if aggregation {
        if length == 0 {
            return None;
        }
        length as usize
    } else {
        match n_dbps_2mhz(mcs, n_ss) {
            None => {
                return None;
            },
            Some(n_dbps) => {
                proof {
                    lemma_length_product(length as int, n_dbps as int);
                }
                match data_field_geometry(
                    length,
                    false,
                    to_coding(ldpc),
                    ldpc && ldpc_extra,
                    stbc,
                    n_dbps,
                ) {
                    None => {
                        return None;
                    },
                    Some((n, _octets)) => n,
                }
            },
        }
    };
    let mut r: RxVector = RxVector::default();
    r.preamble_type = preamble;
    r.num_sts = if n_sts == 0 {
        1
    } else {
        n_sts
    };
    r.gi = to_gi(short_gi);
    r.n_sym = n_sym;
    Some(r.ppdu_duration_us())
}

proof fn lemma_length_product(length: int, n_dbps: int)
    requires
        0 <= length <= 65535,
        0 <= n_dbps <= 1733,
    ensures
        0 <= length * n_dbps <= 0xFFFF_FFFF,
{
    assert(0 <= length * n_dbps <= 65535 * 1733) by (nonlinear_arith)
        requires
            0 <= length <= 65535,
            0 <= n_dbps <= 1733,
    ;
}

impl SuFields {
    /// The RXVECTOR skeleton for a Data field of `n_sym` symbols that carries
    /// `psdu_length` octets.
    pub open spec fn rxvector(&self, n_sym: int, psdu_length: int) -> RxVector {
        let (color, partial_aid) = spec_split_id(self.id, self.uplink_indication);
        RxVector {
            preamble_type: self.preamble,
            mu: false,
            bandwidth_code: self.bandwidth,
            num_sts: (self.nsts + 1) as u8,
            stbc: self.stbc,
            mcs: self.mcs,
            gi: gi_of(self.short_gi),
            fec_coding: coding_of(self.ldpc),
            ldpc_extra: self.ldpc && self.ldpc_extra,
            aggregation: self.aggregation,
            response_indication: self.response_indication,
            smoothing: self.smoothing,
            traveling_pilots: self.traveling_pilots,
            uplink_indication: self.uplink_indication,
            color,
            partial_aid,
            group_id: 0,
            length: self.length,
            psdu_length: psdu_length as usize,
            n_sym: n_sym as usize,
            ..blank_rxvector()
        }
    }

    /// The PPDU duration that the fields imply, if any.
    pub open spec fn duration(&self) -> Option<u32> {
        spec_duration_from_fields(
            self.preamble,
            (self.nsts + 1) as u8,
            self.stbc,
            self.short_gi,
            self.mcs,
            self.ldpc,
            self.ldpc_extra,
            self.aggregation,
            self.length,
        )
    }

    /// Why a valid PPDU cannot be decoded here.
    pub open spec fn unsupported(&self) -> Option<&'static str> {
        if self.bandwidth != 0 {
            Some("bandwidth > 2 MHz")
        } else if self.stbc {
            Some("STBC")
        } else if self.nsts != 0 {
            Some("multiple spatial streams")
        } else if spec_mcs_params(self.mcs) is None {
            Some("MCS not supported")
        } else {
            None
        }
    }

    /// The class of the PPDU [23.3.20].
    pub open spec fn spec_verdict(&self) -> SigVerdict {
        let n_sts = self.nsts + 1;
        let n_ss = if self.stbc {
            n_sts / 2
        } else {
            n_sts
        };
        let duration_us = self.duration();
        if self.stbc && n_sts % 2 != 0 {
            SigVerdict::Reserved { reason: "STBC with odd N_STS", duration_us }
        } else if !self.ldpc && !self.ldpc_extra {
            SigVerdict::Reserved { reason: "B18 must be 1 with BCC", duration_us }
        } else {
            match spec_n_dbps_2mhz(self.mcs, n_ss as u8) {
                None => SigVerdict::Reserved {
                    reason: "MCS/N_SS combination not in 23.5",
                    duration_us,
                },
                Some(n_dbps) => match spec_data_field_geometry(
                    self.length as int,
                    self.aggregation,
                    coding_of(self.ldpc),
                    self.ldpc && self.ldpc_extra,
                    self.stbc,
                    n_dbps as int,
                ) {
                    None => SigVerdict::Reserved { reason: "zero-length Data field", duration_us },
                    Some((n_sym, psdu_length)) => match self.unsupported() {
                        Some(why) => SigVerdict::Unsupported(
                            self.rxvector(n_sym, psdu_length),
                            why,
                        ),
                        None => SigVerdict::Supported(self.rxvector(n_sym, psdu_length)),
                    },
                },
            }
        }
    }

    fn duration_if_computable(&self) -> (r: Option<u32>)
        requires
            self.nsts < 255,
        ensures
            r == self.duration(),
    {
        duration_from_fields(
            self.preamble,
            self.nsts + 1,
            self.stbc,
            self.short_gi,
            self.mcs,
            self.ldpc,
            self.ldpc_extra,
            self.aggregation,
            self.length,
        )
    }

    fn reserved(&self, reason: &'static str) -> (v: SigVerdict)
        requires
            self.nsts < 255,
        ensures
            v == (SigVerdict::Reserved { reason, duration_us: self.duration() }),
    {
        SigVerdict::Reserved { reason, duration_us: self.duration_if_computable() }
    }

    /// Classify and derive the RXVECTOR skeleton [23.3.20].
    fn verdict(&self) -> (v: SigVerdict)
        requires
            self.nsts < 255,
        ensures
            v == self.spec_verdict(),
    {
        let n_sts: u8 = self.nsts + 1;
        let n_ss: u8 = if self.stbc {
            n_sts / 2
        } else {
            n_sts
        };
        if self.stbc && n_sts % 2 != 0 {
            return self.reserved("STBC with odd N_STS");
        }
        if !self.ldpc && !self.ldpc_extra {
            return self.reserved("B18 must be 1 with BCC");
        }
        let n_dbps: usize = match n_dbps_2mhz(self.mcs, n_ss) {
            None => {
                return self.reserved("MCS/N_SS combination not in 23.5");
            },
            Some(n) => n,
        };
        proof {
            lemma_length_product(self.length as int, n_dbps as int);
        }
        let coding: Coding = to_coding(self.ldpc);
        let (n_sym, psdu_length) = match data_field_geometry(
            self.length,
            self.aggregation,
            coding,
            self.ldpc && self.ldpc_extra,
            self.stbc,
            n_dbps,
        ) {
            None => {
                return self.reserved("zero-length Data field");
            },
            Some(g) => g,
        };
        let (color, partial_aid) = split_id(self.id, self.uplink_indication);
        let rxv = RxVector {
            preamble_type: self.preamble,
            mu: false,
            bandwidth_code: self.bandwidth,
            num_sts: n_sts,
            stbc: self.stbc,
            mcs: self.mcs,
            gi: to_gi(self.short_gi),
            fec_coding: coding,
            ldpc_extra: self.ldpc && self.ldpc_extra,
            aggregation: self.aggregation,
            response_indication: self.response_indication,
            smoothing: self.smoothing,
            traveling_pilots: self.traveling_pilots,
            uplink_indication: self.uplink_indication,
            color,
            partial_aid,
            group_id: 0,
            length: self.length,
            psdu_length,
            n_sym,
            ..RxVector::default()
        };
        if self.bandwidth != 0 {
            SigVerdict::Unsupported(rxv, "bandwidth > 2 MHz")
        } else if self.stbc {
            SigVerdict::Unsupported(rxv, "STBC")
        } else if n_sts != 1 {
            SigVerdict::Unsupported(rxv, "multiple spatial streams")
        } else if mcs_params(self.mcs).is_err() {
            SigVerdict::Unsupported(rxv, "MCS not supported")
        } else {
            SigVerdict::Supported(rxv)
        }
    }
}

/// The 38 bits that SIG and SU SIG-A lay out alike: the first bit, two flags,
/// BW, Nsts and ID, the three GI and coding flags, MCS, two flags, Length,
/// Response Indication and the last two bits.
#[verifier::opaque]
pub open spec fn su_layout(
    b0: u8,
    stbc: u8,
    uplink: u8,
    bandwidth: nat,
    nsts: nat,
    id: nat,
    short_gi: u8,
    ldpc: u8,
    ldpc_extra: u8,
    mcs: nat,
    b23: u8,
    aggregation: u8,
    length: nat,
    response: nat,
    b36: u8,
    b37: u8,
) -> Seq<u8> {
    let a = seq![b0, stbc, uplink] + uint_bits(bandwidth, 2) + uint_bits(nsts, 2) + uint_bits(id, 9);
    let b = a.push(short_gi).push(ldpc).push(ldpc_extra) + uint_bits(mcs, 4);
    let c = b.push(b23).push(aggregation) + uint_bits(length, 9) + uint_bits(response, 2);
    c.push(b36).push(b37)
}

/// Write the 48 bits of a SIG or SU SIG-A.
fn write_su(f: &SuFields, b0: u8, b23: u8, b36: u8, b37: u8) -> (out: [u8; 48])
    ensures
        out@ == sig_word(
            su_layout(
                b0,
                flag(f.stbc),
                flag(f.uplink_indication),
                f.bandwidth as nat,
                f.nsts as nat,
                f.id as nat,
                flag(f.short_gi),
                flag(f.ldpc),
                flag(f.ldpc_extra),
                f.mcs as nat,
                b23,
                flag(f.aggregation),
                f.length as nat,
                f.response_indication.code() as nat,
                b36,
                b37,
            ),
        ),
{
    reveal(su_layout);
    let mut v: Vec<u8> = Vec::with_capacity(48);
    v.push(b0);
    v.push(bit_of(f.stbc));
    v.push(bit_of(f.uplink_indication));
    push_uint_lsb_first(&mut v, f.bandwidth as u64, 2);
    push_uint_lsb_first(&mut v, f.nsts as u64, 2);
    assert(v@ == seq![b0, flag(f.stbc), flag(f.uplink_indication)] + uint_bits(
        f.bandwidth as nat,
        2,
    ) + uint_bits(f.nsts as nat, 2));
    push_uint_lsb_first(&mut v, f.id as u64, 9);
    v.push(bit_of(f.short_gi));
    v.push(bit_of(f.ldpc));
    v.push(bit_of(f.ldpc_extra));
    push_uint_lsb_first(&mut v, f.mcs as u64, 4);
    v.push(b23);
    v.push(bit_of(f.aggregation));
    push_uint_lsb_first(&mut v, f.length as u64, 9);
    push_uint_lsb_first(&mut v, f.response_indication.to_bits() as u64, 2);
    v.push(b36);
    v.push(b37);
    proof {
        lemma_uint_bits_len(f.bandwidth as nat, 2);
        lemma_uint_bits_len(f.nsts as nat, 2);
        lemma_uint_bits_len(f.id as nat, 9);
        lemma_uint_bits_len(f.mcs as nat, 4);
        lemma_uint_bits_len(f.length as nat, 9);
        lemma_uint_bits_len(f.response_indication.code() as nat, 2);
    }
    finish_48(v)
}

impl SigFields {
    /// Every field fits its place in the word.
    pub open spec fn wf(&self) -> bool {
        self.bandwidth < 4 && self.nsts < 4 && self.id < 512 && self.mcs < 16 && self.length < 512
    }

    /// The 38 field bits B0..B37.
    pub open spec fn field_bits(&self) -> Seq<u8> {
        su_layout(
            1,
            flag(self.stbc),
            flag(self.uplink_indication),
            self.bandwidth as nat,
            self.nsts as nat,
            self.id as nat,
            flag(self.short_gi),
            flag(self.ldpc),
            flag(self.ldpc_extra),
            self.mcs as nat,
            flag(self.smoothing),
            flag(self.aggregation),
            self.length as nat,
            self.response_indication.code() as nat,
            flag(self.traveling_pilots),
            0,
        )
    }

    /// The fields that decide reception.
    pub open spec fn su(&self) -> SuFields {
        SuFields {
            preamble: PreambleType::S1gShort,
            stbc: self.stbc,
            uplink_indication: self.uplink_indication,
            bandwidth: self.bandwidth,
            nsts: self.nsts,
            id: self.id,
            short_gi: self.short_gi,
            ldpc: self.ldpc,
            ldpc_extra: self.ldpc_extra,
            mcs: self.mcs,
            smoothing: self.smoothing,
            aggregation: self.aggregation,
            length: self.length,
            response_indication: self.response_indication,
            traveling_pilots: self.traveling_pilots,
        }
    }

    fn to_su(&self) -> (f: SuFields)
        ensures
            f == self.su(),
    {
        SuFields {
            preamble: PreambleType::S1gShort,
            stbc: self.stbc,
            uplink_indication: self.uplink_indication,
            bandwidth: self.bandwidth,
            nsts: self.nsts,
            id: self.id,
            short_gi: self.short_gi,
            ldpc: self.ldpc,
            ldpc_extra: self.ldpc_extra,
            mcs: self.mcs,
            smoothing: self.smoothing,
            aggregation: self.aggregation,
            length: self.length,
            response_indication: self.response_indication,
            traveling_pilots: self.traveling_pilots,
        }
    }

    /// COLOR carried in the ID field (only meaningful when
    /// `uplink_indication` is false).
    pub fn color(&self) -> (c: u8)
        ensures
            c == spec_split_id(self.id, self.uplink_indication).0,
    {
        split_id(self.id, self.uplink_indication).0
    }

    /// Partial AID from the ID field.
    pub fn partial_aid(&self) -> (a: u16)
        ensures
            a == spec_split_id(self.id, self.uplink_indication).1,
    {
        split_id(self.id, self.uplink_indication).1
    }

    /// Serialize to the 48 SIG bits (computes CRC; B0 reserved = 1, tail 0).
    pub fn to_bits(&self) -> (out: [u8; 48])
        ensures
            out@ == sig_word(self.field_bits()),
    {
        // B0 is reserved and set to 1 on transmit; B37, the NDP Indication, is 0.
        write_su(&self.to_su(), 1, bit_of(self.smoothing), bit_of(self.traveling_pilots), 0)
    }

    /// The fields for a TXVECTOR.
    pub open spec fn spec_from_txvector(
        txv: &TxVector,
        length_field: u16,
        ldpc_extra: bool,
    ) -> Result<SigFields, PhyError> {
        if spec_mcs_params(txv.mcs) is None {
            Err(PhyError::InvalidMcs(txv.mcs))
        } else {
            match spec_id_from_txvector(txv) {
                Err(e) => Err(e),
                Ok(id) => Ok(
                    SigFields {
                        stbc: false,
                        uplink_indication: txv.uplink_indication,
                        bandwidth: 0,
                        nsts: 0,
                        id,
                        short_gi: txv.gi == GuardInterval::Short,
                        ldpc: txv.fec_coding == Coding::Ldpc,
                        ldpc_extra: ldpc_extra || txv.fec_coding == Coding::Bcc,
                        mcs: txv.mcs,
                        smoothing: txv.smoothing,
                        aggregation: txv.aggregation,
                        length: length_field,
                        response_indication: txv.response_indication,
                        traveling_pilots: txv.traveling_pilots,
                    },
                ),
            }
        }
    }

    /// Build from a TXVECTOR plus the Length-field value (octets or N_SYM
    /// per aggregation) and the LDPC Extra flag, both computed by the TX
    /// chain.
    pub fn from_txvector(txv: &TxVector, length_field: u16, ldpc_extra: bool) -> (r: Result<
        SigFields,
        PhyError,
    >)
        ensures
            r == SigFields::spec_from_txvector(txv, length_field, ldpc_extra),
    {
        let known: Result<McsParams, PhyError> = mcs_params(txv.mcs);
        if known.is_err() {
            return Err(PhyError::InvalidMcs(txv.mcs));
        }
        let id: u16 = match id_from_txvector(txv) {
            Ok(id) => id,
            Err(e) => {
                return Err(e);
            },
        };
        let ldpc: bool = txv.fec_coding == Coding::Ldpc;
        Ok(
            SigFields {
                stbc: false,
                uplink_indication: txv.uplink_indication,
                bandwidth: 0,
                nsts: 0,
                id,
                short_gi: txv.gi == GuardInterval::Short,
                ldpc,
                // BCC: "this field is set to 1" [Table 23-12 B18].
                ldpc_extra: if ldpc {
                    ldpc_extra
                } else {
                    true
                },
                mcs: txv.mcs,
                smoothing: txv.smoothing,
                aggregation: txv.aggregation,
                length: length_field,
                response_indication: txv.response_indication,
                traveling_pilots: txv.traveling_pilots,
            },
        )
    }

    /// PPDU duration implied by the fields even when the combination is
    /// reserved, if it can be computed.
    pub fn duration_if_computable(&self) -> (r: Option<u32>)
        requires
            self.nsts < 255,
        ensures
            r == self.su().duration(),
    {
        self.to_su().duration_if_computable()
    }

    /// Classify and derive the RXVECTOR skeleton [23.3.20].
    pub fn verdict(&self) -> (v: SigVerdict)
        requires
            self.nsts < 255,
        ensures
            v == self.su().spec_verdict(),
    {
        self.to_su().verdict()
    }

    /// Derive the RXVECTOR for a supported PPDU (see
    /// [`SigFields::verdict`]).
    pub fn to_rxvector(&self) -> (r: Result<RxVector, PhyError>)
        requires
            self.nsts < 255,
        ensures
            r == match self.su().spec_verdict() {
                SigVerdict::Supported(rxv) => Ok::<RxVector, PhyError>(rxv),
                SigVerdict::Unsupported(_, why) => Err(PhyError::Unsupported(why)),
                SigVerdict::Reserved { reason, duration_us: _ } => Err(
                    PhyError::InvalidLength { len: self.length as usize, reason },
                ),
            },
    {
        match self.verdict() {
            SigVerdict::Supported(r) => Ok(r),
            SigVerdict::Unsupported(_, why) => Err(PhyError::Unsupported(why)),
            SigVerdict::Reserved { reason, .. } => Err(
                PhyError::InvalidLength { len: self.length as usize, reason },
            ),
        }
    }
}

impl SigASu {
    /// Every field fits its place in the word.
    pub open spec fn wf(&self) -> bool {
        self.bandwidth < 4 && self.nsts < 4 && self.id < 512 && self.mcs < 16 && self.length < 512
    }

    /// The 38 field bits.
    pub open spec fn field_bits(&self) -> Seq<u8> {
        su_layout(
            0,
            flag(self.stbc),
            flag(self.uplink_indication),
            self.bandwidth as nat,
            self.nsts as nat,
            self.id as nat,
            flag(self.short_gi),
            flag(self.ldpc),
            flag(self.ldpc_extra),
            self.mcs as nat,
            flag(self.beam_change_or_smoothing),
            flag(self.aggregation),
            self.length as nat,
            self.response_indication.code() as nat,
            1,
            flag(self.traveling_pilots),
        )
    }

    /// The fields that decide reception. With one stream B23 = 0 means that
    /// the beam-changeable portion is sent through the same Q as the omni
    /// portion and smoothing is fine [Table 23-14 NOTE 1]; with more streams
    /// B23 is the Beam Change Indication and says nothing about smoothing.
    pub open spec fn su(&self) -> SuFields {
        SuFields {
            preamble: PreambleType::S1gLong,
            stbc: self.stbc,
            uplink_indication: self.uplink_indication,
            bandwidth: self.bandwidth,
            nsts: self.nsts,
            id: self.id,
            short_gi: self.short_gi,
            ldpc: self.ldpc,
            ldpc_extra: self.ldpc_extra,
            mcs: self.mcs,
            smoothing: self.nsts == 0 && !self.beam_change_or_smoothing,
            aggregation: self.aggregation,
            length: self.length,
            response_indication: self.response_indication,
            traveling_pilots: self.traveling_pilots,
        }
    }

    fn to_su(&self) -> (f: SuFields)
        ensures
            f == self.su(),
    {
        SuFields {
            preamble: PreambleType::S1gLong,
            stbc: self.stbc,
            uplink_indication: self.uplink_indication,
            bandwidth: self.bandwidth,
            nsts: self.nsts,
            id: self.id,
            short_gi: self.short_gi,
            ldpc: self.ldpc,
            ldpc_extra: self.ldpc_extra,
            mcs: self.mcs,
            smoothing: self.nsts == 0 && !self.beam_change_or_smoothing,
            aggregation: self.aggregation,
            length: self.length,
            response_indication: self.response_indication,
            traveling_pilots: self.traveling_pilots,
        }
    }

    /// PPDU duration implied by the fields even when the combination is
    /// reserved, if it can be computed.
    pub fn duration_if_computable(&self) -> (r: Option<u32>)
        requires
            self.nsts < 255,
        ensures
            r == self.su().duration(),
    {
        self.to_su().duration_if_computable()
    }

    /// Serialize to the 48 SIG-A bits (MU/SU = 0, SIG-A2 B12 reserved = 1).
    pub fn to_bits(&self) -> (out: [u8; 48])
        ensures
            out@ == sig_word(self.field_bits()),
    {
        // B0 is MU/SU; SIG-A2 B12 is reserved and set to 1.
        write_su(
            &self.to_su(),
            0,
            bit_of(self.beam_change_or_smoothing),
            1,
            bit_of(self.traveling_pilots),
        )
    }

    /// The fields for a TXVECTOR.
    pub open spec fn spec_from_txvector(
        txv: &TxVector,
        length_field: u16,
        ldpc_extra: bool,
    ) -> Result<SigASu, PhyError> {
        if spec_mcs_params(txv.mcs) is None {
            Err(PhyError::InvalidMcs(txv.mcs))
        } else {
            match spec_id_from_txvector(txv) {
                Err(e) => Err(e),
                Ok(id) => Ok(
                    SigASu {
                        stbc: false,
                        uplink_indication: txv.uplink_indication,
                        bandwidth: 0,
                        nsts: 0,
                        id,
                        short_gi: txv.gi == GuardInterval::Short,
                        ldpc: txv.fec_coding == Coding::Ldpc,
                        ldpc_extra: ldpc_extra || txv.fec_coding == Coding::Bcc,
                        mcs: txv.mcs,
                        beam_change_or_smoothing: !txv.smoothing,
                        aggregation: txv.aggregation,
                        length: length_field,
                        response_indication: txv.response_indication,
                        traveling_pilots: txv.traveling_pilots,
                    },
                ),
            }
        }
    }

    /// Build from a TXVECTOR for an S1G_LONG SU transmission (1 STS).
    pub fn from_txvector(txv: &TxVector, length_field: u16, ldpc_extra: bool) -> (r: Result<
        SigASu,
        PhyError,
    >)
        ensures
            r == SigASu::spec_from_txvector(txv, length_field, ldpc_extra),
    {
        let known: Result<McsParams, PhyError> = mcs_params(txv.mcs);
        if known.is_err() {
            return Err(PhyError::InvalidMcs(txv.mcs));
        }
        let id: u16 = match id_from_txvector(txv) {
            Ok(id) => id,
            Err(e) => {
                return Err(e);
            },
        };
        let ldpc: bool = txv.fec_coding == Coding::Ldpc;
        Ok(
            SigASu {
                stbc: false,
                uplink_indication: txv.uplink_indication,
                bandwidth: 0,
                nsts: 0,
                id,
                short_gi: txv.gi == GuardInterval::Short,
                ldpc,
                ldpc_extra: if ldpc {
                    ldpc_extra
                } else {
                    true
                },
                mcs: txv.mcs,
                // With 1 STS, B23 = 0 means "no beam change, smoothing allowed"
                // [Table 23-14 NOTE 1].
                beam_change_or_smoothing: !txv.smoothing,
                aggregation: txv.aggregation,
                length: length_field,
                response_indication: txv.response_indication,
                traveling_pilots: txv.traveling_pilots,
            },
        )
    }

    /// Classify and derive the RXVECTOR skeleton. SU PPDUs with one
    /// space-time stream at 2 MHz are decoded (an optional feature for a
    /// <= 2 MHz STA [4.3.14.1]); everything else is identified for CCA and
    /// RID only.
    pub fn verdict(&self) -> (v: SigVerdict)
        requires
            self.nsts < 255,
        ensures
            v == self.su().spec_verdict(),
    {
        self.to_su().verdict()
    }
}

impl SigAMu {
    /// Every field fits its place in the word.
    pub open spec fn wf(&self) -> bool {
        &&& self.nsts@[0] < 4 && self.nsts@[1] < 4 && self.nsts@[2] < 4 && self.nsts@[3] < 4
        &&& self.bandwidth < 4 && self.group_id < 64 && self.length < 512
    }

    /// The Coding-I bit of user position `u`: reserved (1) where unused.
    pub open spec fn coding_bit(&self, u: int) -> u8 {
        if self.nsts@[u] > 0 {
            flag(self.ldpc@[u])
        } else {
            1
        }
    }

    /// The 38 field bits.
    pub open spec fn field_bits(&self) -> Seq<u8> {
        let a = seq![1u8, flag(self.stbc), 1u8] + uint_bits(self.nsts@[0] as nat, 2) + uint_bits(
            self.nsts@[1] as nat,
            2,
        ) + uint_bits(self.nsts@[2] as nat, 2) + uint_bits(self.nsts@[3] as nat, 2);
        let b = a + uint_bits(self.bandwidth as nat, 2) + uint_bits(self.group_id as nat, 6);
        let c = b.push(flag(self.short_gi)).push(self.coding_bit(0)).push(self.coding_bit(1)).push(
            self.coding_bit(2),
        ).push(self.coding_bit(3));
        let d = c.push(flag(self.ldpc_extra)).push(1) + uint_bits(self.length as nat, 9)
            + uint_bits(self.response_indication.code() as nat, 2);
        d.push(flag(self.traveling_pilots))
    }

    proof fn lemma_field_bits_len(&self)
        ensures
            self.field_bits().len() == 38,
    {
        lemma_uint_bits_len(self.nsts@[0] as nat, 2);
        lemma_uint_bits_len(self.nsts@[1] as nat, 2);
        lemma_uint_bits_len(self.nsts@[2] as nat, 2);
        lemma_uint_bits_len(self.nsts@[3] as nat, 2);
        lemma_uint_bits_len(self.bandwidth as nat, 2);
        lemma_uint_bits_len(self.group_id as nat, 6);
        lemma_uint_bits_len(self.length as nat, 9);
        lemma_uint_bits_len(self.response_indication.code() as nat, 2);
    }

    fn coding_i(&self, u: usize) -> (b: u8)
        requires
            u < 4,
        ensures
            b == self.coding_bit(u as int),
    {
        if self.nsts[u] > 0 {
            bit_of(self.ldpc[u])
        } else {
            1
        }
    }

    /// Serialize to the 48 SIG-A bits (MU/SU = 1, reserved bits 1).
    pub fn to_bits(&self) -> (out: [u8; 48])
        ensures
            out@ == sig_word(self.field_bits()),
    {
        let mut v: Vec<u8> = Vec::with_capacity(48);
        v.push(1);  // MU/SU = 1
        v.push(bit_of(self.stbc));
        v.push(1);  // B2 reserved
        push_uint_lsb_first(&mut v, self.nsts[0] as u64, 2);
        push_uint_lsb_first(&mut v, self.nsts[1] as u64, 2);
        push_uint_lsb_first(&mut v, self.nsts[2] as u64, 2);
        push_uint_lsb_first(&mut v, self.nsts[3] as u64, 2);
        assert(v@ == seq![1u8, flag(self.stbc), 1u8] + uint_bits(self.nsts@[0] as nat, 2)
            + uint_bits(self.nsts@[1] as nat, 2) + uint_bits(self.nsts@[2] as nat, 2) + uint_bits(
            self.nsts@[3] as nat,
            2,
        ));
        push_uint_lsb_first(&mut v, self.bandwidth as u64, 2);
        push_uint_lsb_first(&mut v, self.group_id as u64, 6);
        v.push(bit_of(self.short_gi));
        v.push(self.coding_i(0));
        v.push(self.coding_i(1));
        v.push(self.coding_i(2));
        v.push(self.coding_i(3));
        v.push(bit_of(self.ldpc_extra));
        v.push(1);  // B1 reserved
        push_uint_lsb_first(&mut v, self.length as u64, 9);
        push_uint_lsb_first(&mut v, self.response_indication.to_bits() as u64, 2);
        v.push(bit_of(self.traveling_pilots));
        proof {
            self.lemma_field_bits_len();
        }
        finish_48(v)
    }

    /// Space-time streams of all users together.
    pub open spec fn total_sts(&self) -> int {
        self.nsts@[0] + self.nsts@[1] + self.nsts@[2] + self.nsts@[3]
    }

    fn sum_sts(&self) -> (n: u8)
        requires
            self.total_sts() <= 255,
        ensures
            n == self.total_sts(),
    {
        self.nsts[0] + self.nsts[1] + self.nsts[2] + self.nsts[3]
    }

    /// The PPDU duration: N_SYM = Length, where it is not zero.
    pub open spec fn duration(&self) -> Option<u32> {
        spec_duration_from_fields(
            PreambleType::S1gLong,
            at_least_one(self.total_sts() as u8),
            self.stbc,
            self.short_gi,
            0,
            false,
            false,
            true,
            self.length,
        )
    }

    /// PPDU duration (MU PPDUs are always aggregated, so N_SYM = Length).
    pub fn duration_if_computable(&self) -> (r: Option<u32>)
        requires
            self.total_sts() <= 255,
        ensures
            r == self.duration(),
            r matches Some(us) ==> us == preamble_us(
                PreambleType::S1gLong,
                self.total_sts() as u8,
            ) + data_us(gi_of(self.short_gi), self.length as int),
            r is None <==> self.length == 0,
    {
        let total: u8 = self.sum_sts();
        duration_from_fields(
            PreambleType::S1gLong,
            if total == 0 {
                1
            } else {
                total
            },
            self.stbc,
            self.short_gi,
            0,
            false,
            false,
            true,
            self.length,
        )
    }

    /// Some user position in use has LDPC coding.
    pub open spec fn any_ldpc(&self) -> bool {
        exists|u: int| 0 <= u < 4 && #[trigger] self.ldpc@[u] && self.nsts@[u] > 0
    }

    /// The RXVECTOR skeleton.
    pub open spec fn rxvector(&self) -> RxVector {
        RxVector {
            preamble_type: PreambleType::S1gLong,
            mu: true,
            bandwidth_code: self.bandwidth,
            num_sts: self.total_sts() as u8,
            stbc: self.stbc,
            mcs: 0,
            gi: gi_of(self.short_gi),
            fec_coding: coding_of(self.any_ldpc()),
            ldpc_extra: self.ldpc_extra,
            aggregation: true,
            response_indication: self.response_indication,
            traveling_pilots: self.traveling_pilots,
            group_id: self.group_id,
            length: self.length,
            psdu_length: 0,
            n_sym: self.length as usize,
            ..blank_rxvector()
        }
    }

    /// The class of the PPDU: MU PPDUs are never decoded.
    pub open spec fn spec_verdict(&self) -> SigVerdict {
        if self.total_sts() == 0 {
            SigVerdict::Reserved {
                reason: "MU PPDU with no space-time streams",
                duration_us: self.duration(),
            }
        } else if self.length == 0 {
            SigVerdict::Reserved { reason: "zero-length Data field", duration_us: None }
        } else {
            SigVerdict::Unsupported(self.rxvector(), "S1G MU PPDU")
        }
    }

    /// Classify and derive the RXVECTOR skeleton.
    pub fn verdict(&self) -> (v: SigVerdict)
        requires
            self.total_sts() <= 255,
        ensures
            v == self.spec_verdict(),
    {
        let total_sts: u8 = self.sum_sts();
        if total_sts == 0 {
            return SigVerdict::Reserved {
                reason: "MU PPDU with no space-time streams",
                duration_us: self.duration_if_computable(),
            };
        }
        if self.length == 0 {
            return SigVerdict::Reserved { reason: "zero-length Data field", duration_us: None };
        }
        let any: bool = self.ldpc[0] && self.nsts[0] > 0 || self.ldpc[1] && self.nsts[1] > 0
            || self.ldpc[2] && self.nsts[2] > 0 || self.ldpc[3] && self.nsts[3] > 0;
        proof {
            assert(self.ldpc@[0] == self.ldpc[0] && self.ldpc@[1] == self.ldpc[1]);
            assert(self.ldpc@[2] == self.ldpc[2] && self.ldpc@[3] == self.ldpc[3]);
        }
        let rxv = RxVector {
            preamble_type: PreambleType::S1gLong,
            mu: true,
            bandwidth_code: self.bandwidth,
            num_sts: total_sts,
            stbc: self.stbc,
            mcs: 0,
            gi: to_gi(self.short_gi),
            fec_coding: to_coding(any),
            ldpc_extra: self.ldpc_extra,
            aggregation: true,
            response_indication: self.response_indication,
            traveling_pilots: self.traveling_pilots,
            group_id: self.group_id,
            length: self.length,
            psdu_length: 0,
            n_sym: self.length as usize,
            ..RxVector::default()
        };
        SigVerdict::Unsupported(rxv, "S1G MU PPDU")
    }
}

/// Which of the two SIG symbols are rotated by 90 degrees (QBPSK): both for
/// S1G_SHORT, only the first for S1G_LONG. The second symbol tells the
/// formats apart [23.3.8.2.3.2.5].
pub fn rotation(ptype: PreambleType) -> (r: [bool; 2])
    ensures
        r@ == seq![true, ptype == PreambleType::S1gShort],
{
    let r: [bool; 2] = match ptype {
        PreambleType::S1gShort => [true, true],
        PreambleType::S1gLong => [true, false],
    };
    proof {
        assert(r@ =~= seq![true, ptype == PreambleType::S1gShort]);
    }
    r
}

/// The point of a SIG bit: +1 for a 1 and -1 for anything else, on the Q axis
/// where the symbol is rotated.
pub fn sig_tone(bit: u8, rotated: bool) -> (p: (i32, i32))
    ensures
        ({
            let v = if bit == 1 {
                1int
            } else {
                -1
            };
            (p.0 as int, p.1 as int) == if rotated {
                (0, v)
            } else {
                (v, 0)
            }
        }),
{
    let v: i32 = if bit == 1 {
        1
    } else {
        -1
    };
    if rotated {
        (0, v)
    } else {
        (v, 0)
    }
}

} // verus!
