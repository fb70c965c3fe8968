//! Reading decoded SIG / SIG-A bits back into fields.

use crate::bits::{bits_to_uint_lsb_first, push_uint_lsb_first};
use crate::bits::{lemma_uint_bits_len, uint_bits, uint_lsb};
use crate::params::{lemma_n_dbps_positive, spec_n_dbps_2mhz};
use crate::sig::{at_least_one, check_48, coding_of, finish_48, sig_word, word_error};
use crate::sig::{SigAMu, SigASu, SigContent, SigError, SigFields, SigVerdict, SuFields};
use crate::vector::{lemma_geometry_symbols, PreambleType, ResponseIndication};
use vstd::arithmetic::power2::*;
use vstd::prelude::*;

verus! {

/// The integer in bits `from..to`.
pub open spec fn field(bits: Seq<u8>, from: int, to: int) -> nat {
    uint_lsb(bits.subrange(from, to))
}

/// Read bits `from..to`.
fn read_field(bits: &[u8; 48], from: usize, to: usize) -> (v: u64)
    requires
        from <= to <= 48,
    ensures
        v == field(bits@, from as int, to as int),
        v < pow2((to - from) as nat),
{
    let all = bits.as_slice();
    let part = &all[from..to];
    proof {
        assert(part@ =~= bits@.subrange(from as int, to as int));
    }
    bits_to_uint_lsb_first(part)
}

/// The S1G_SHORT SIG fields of 48 bits [Table 23-12].
pub open spec fn short_fields(bits: Seq<u8>) -> SigFields {
    SigFields {
        stbc: bits[1] == 1,
        uplink_indication: bits[2] == 1,
        bandwidth: field(bits, 3, 5) as u8,
        nsts: field(bits, 5, 7) as u8,
        id: field(bits, 7, 16) as u16,
        short_gi: bits[16] == 1,
        ldpc: bits[17] == 1,
        ldpc_extra: bits[18] == 1,
        mcs: field(bits, 19, 23) as u8,
        smoothing: bits[23] == 1,
        aggregation: bits[24] == 1,
        length: field(bits, 25, 34) as u16,
        response_indication: ResponseIndication::of_code(field(bits, 34, 36) as int),
        traveling_pilots: bits[36] == 1,
    }
}

/// The S1G_LONG SU SIG-A fields of 48 bits [Table 23-14].
pub open spec fn long_su_fields(bits: Seq<u8>) -> SigASu {
    SigASu {
        stbc: bits[1] == 1,
        uplink_indication: bits[2] == 1,
        bandwidth: field(bits, 3, 5) as u8,
        nsts: field(bits, 5, 7) as u8,
        id: field(bits, 7, 16) as u16,
        short_gi: bits[16] == 1,
        ldpc: bits[17] == 1,
        ldpc_extra: bits[18] == 1,
        mcs: field(bits, 19, 23) as u8,
        beam_change_or_smoothing: bits[23] == 1,
        aggregation: bits[24] == 1,
        length: field(bits, 25, 34) as u16,
        response_indication: ResponseIndication::of_code(field(bits, 34, 36) as int),
        traveling_pilots: bits[37] == 1,
    }
}

/// The S1G_LONG MU SIG-A fields of 48 bits [Table 23-15].
pub open spec fn long_mu_fields(bits: Seq<u8>) -> SigAMu {
    SigAMu {
        stbc: bits[1] == 1,
        nsts: [
            field(bits, 3, 5) as u8,
            field(bits, 5, 7) as u8,
            field(bits, 7, 9) as u8,
            field(bits, 9, 11) as u8,
        ],
        bandwidth: field(bits, 11, 13) as u8,
        group_id: field(bits, 13, 19) as u8,
        short_gi: bits[19] == 1,
        ldpc: [bits[20] == 1, bits[21] == 1, bits[22] == 1, bits[23] == 1],
        ldpc_extra: bits[24] == 1,
        length: field(bits, 26, 35) as u16,
        response_indication: ResponseIndication::of_code(field(bits, 35, 37) as int),
        traveling_pilots: bits[37] == 1,
    }
}

/// A user position that is not in use has its Coding-I bit at 0.
pub open spec fn coding_reserved(f: SigAMu) -> bool {
    ||| f.nsts@[0] == 0 && !f.ldpc@[0]
    ||| f.nsts@[1] == 0 && !f.ldpc@[1]
    ||| f.nsts@[2] == 0 && !f.ldpc@[2]
    ||| f.nsts@[3] == 0 && !f.ldpc@[3]
}

/// What 48 decoded S1G_SHORT SIG bits say.
pub open spec fn spec_parse_short(bits: Seq<u8>) -> Result<SigContent, SigError> {
    match word_error(bits) {
        Some(e) => Err(e),
        None => if bits[37] == 1 {
            Ok(SigContent::Ndp { body: field(bits, 0, 37) as u64 })
        } else if bits[0] != 1 {
            Err(
                SigError::Reserved {
                    reason: "SIG B0 = 0",
                    duration_us: short_fields(bits).su().duration(),
                },
            )
        } else {
            Ok(SigContent::Normal(short_fields(bits)))
        },
    }
}

/// What 48 decoded S1G_LONG SIG-A bits say.
pub open spec fn spec_parse_long(bits: Seq<u8>) -> Result<SigContent, SigError> {
    match word_error(bits) {
        Some(e) => Err(e),
        None => if bits[0] == 0 {
            let f = long_su_fields(bits);
            if bits[36] != 1 {
                Err(
                    SigError::Reserved {
                        reason: "SIG-A2 B12 = 0",
                        duration_us: f.su().duration(),
                    },
                )
            } else {
                Ok(SigContent::LongSu(f))
            }
        } else {
            let f = long_mu_fields(bits);
            if bits[2] != 1 {
                Err(SigError::Reserved { reason: "SIG-A1 B2 = 0", duration_us: f.duration() })
            } else if bits[25] != 1 {
                Err(SigError::Reserved { reason: "SIG-A2 B1 = 0", duration_us: f.duration() })
            } else if coding_reserved(f) {
                Err(
                    SigError::Reserved {
                        reason: "Coding-I reserved bit = 0",
                        duration_us: f.duration(),
                    },
                )
            } else {
                Ok(SigContent::LongMu(f))
            }
        },
    }
}

/// Parse 48 decoded S1G_SHORT SIG bits.
pub fn parse_short(bits: &[u8; 48]) -> (r: Result<SigContent, SigError>)
    ensures
        r == spec_parse_short(bits@),
        r matches Ok(SigContent::Normal(f)) ==> f.wf(),
        r matches Ok(SigContent::Ndp { body }) ==> body < pow2(37),
        r matches Err(e) ==> e.wf(),
{
    match check_48(bits) {
        Err(e) => {
            return Err(e);
        },
        Ok(_) => {},
    }
    proof {
        lemma2_to64();
        lemma2_to64_rest();
    }
    if bits[37] == 1 {
        let body: u64 = read_field(bits, 0, 37);
        return Ok(SigContent::Ndp { body });
    }
    let fields = SigFields {
        stbc: bits[1] == 1,
        uplink_indication: bits[2] == 1,
        bandwidth: read_field(bits, 3, 5) as u8,
        nsts: read_field(bits, 5, 7) as u8,
        id: read_field(bits, 7, 16) as u16,
        short_gi: bits[16] == 1,
        ldpc: bits[17] == 1,
        ldpc_extra: bits[18] == 1,
        mcs: read_field(bits, 19, 23) as u8,
        smoothing: bits[23] == 1,
        aggregation: bits[24] == 1,
        length: read_field(bits, 25, 34) as u16,
        response_indication: ResponseIndication::from_bits(read_field(bits, 34, 36) as u8),
        traveling_pilots: bits[36] == 1,
    };
    proof {
        lemma_duration_bound(fields.su());
    }
    if bits[0] != 1 {
        // The reserved bit is transmitted as 1 in S1G_SHORT; the other fields
        // still tell how long to hold CCA.
        return Err(
            SigError::Reserved {
                reason: "SIG B0 = 0",
                duration_us: fields.duration_if_computable(),
            },
        );
    }
    Ok(SigContent::Normal(fields))
}

fn parse_long_su(bits: &[u8; 48]) -> (r: Result<SigContent, SigError>)
    ensures
        r == if bits@[36] != 1 {
            Err::<SigContent, SigError>(
                SigError::Reserved {
                    reason: "SIG-A2 B12 = 0",
                    duration_us: long_su_fields(bits@).su().duration(),
                },
            )
        } else {
            Ok(SigContent::LongSu(long_su_fields(bits@)))
        },
        long_su_fields(bits@).wf(),
        r matches Err(e) ==> e.wf(),
{
    proof {
        lemma2_to64();
    }
    let fields = SigASu {
        stbc: bits[1] == 1,
        uplink_indication: bits[2] == 1,
        bandwidth: read_field(bits, 3, 5) as u8,
        nsts: read_field(bits, 5, 7) as u8,
        id: read_field(bits, 7, 16) as u16,
        short_gi: bits[16] == 1,
        ldpc: bits[17] == 1,
        ldpc_extra: bits[18] == 1,
        mcs: read_field(bits, 19, 23) as u8,
        beam_change_or_smoothing: bits[23] == 1,
        aggregation: bits[24] == 1,
        length: read_field(bits, 25, 34) as u16,
        response_indication: ResponseIndication::from_bits(read_field(bits, 34, 36) as u8),
        traveling_pilots: bits[37] == 1,
    };
    proof {
        lemma_duration_bound(fields.su());
    }
    if bits[36] != 1 {
        return Err(
            SigError::Reserved {
                reason: "SIG-A2 B12 = 0",
                duration_us: fields.duration_if_computable(),
            },
        );
    }
    Ok(SigContent::LongSu(fields))
}

fn read_long_mu(bits: &[u8; 48]) -> (f: SigAMu)
    ensures
        f == long_mu_fields(bits@),
        f.wf(),
{
    proof {
        lemma2_to64();
    }
    let nsts: [u8; 4] = [
        read_field(bits, 3, 5) as u8,
        read_field(bits, 5, 7) as u8,
        read_field(bits, 7, 9) as u8,
        read_field(bits, 9, 11) as u8,
    ];
    let ldpc: [bool; 4] = [bits[20] == 1, bits[21] == 1, bits[22] == 1, bits[23] == 1];
    let f = SigAMu {
        stbc: bits[1] == 1,
        nsts,
        bandwidth: read_field(bits, 11, 13) as u8,
        group_id: read_field(bits, 13, 19) as u8,
        short_gi: bits[19] == 1,
        ldpc,
        ldpc_extra: bits[24] == 1,
        length: read_field(bits, 26, 35) as u16,
        response_indication: ResponseIndication::from_bits(read_field(bits, 35, 37) as u8),
        traveling_pilots: bits[37] == 1,
    };
    proof {
        let g = long_mu_fields(bits@);
        assert(f.nsts =~= g.nsts);
        assert(f.ldpc =~= g.ldpc);
    }
    f
}

fn parse_long_mu(bits: &[u8; 48]) -> (r: Result<SigContent, SigError>)
    ensures
        ({
            let f = long_mu_fields(bits@);
            r == if bits@[2] != 1 {
                Err::<SigContent, SigError>(
                    SigError::Reserved { reason: "SIG-A1 B2 = 0", duration_us: f.duration() },
                )
            } else if bits@[25] != 1 {
                Err(SigError::Reserved { reason: "SIG-A2 B1 = 0", duration_us: f.duration() })
            } else if coding_reserved(f) {
                Err(
                    SigError::Reserved {
                        reason: "Coding-I reserved bit = 0",
                        duration_us: f.duration(),
                    },
                )
            } else {
                Ok(SigContent::LongMu(f))
            }
        }),
        long_mu_fields(bits@).wf(),
        r matches Err(e) ==> e.wf(),
{
    let f: SigAMu = read_long_mu(bits);
    if bits[2] != 1 {
        return Err(
            SigError::Reserved {
                reason: "SIG-A1 B2 = 0",
                duration_us: f.duration_if_computable(),
            },
        );
    }
    if bits[25] != 1 {
        return Err(
            SigError::Reserved {
                reason: "SIG-A2 B1 = 0",
                duration_us: f.duration_if_computable(),
            },
        );
    }
    let reserved: bool = f.nsts[0] == 0 && !f.ldpc[0] || f.nsts[1] == 0 && !f.ldpc[1] || f.nsts[2]
        == 0 && !f.ldpc[2] || f.nsts[3] == 0 && !f.ldpc[3];
    if reserved {
        return Err(
            SigError::Reserved {
                reason: "Coding-I reserved bit = 0",
                duration_us: f.duration_if_computable(),
            },
        );
    }
    Ok(SigContent::LongMu(f))
}

/// Parse 48 decoded S1G_LONG SIG-A bits.
pub fn parse_long(bits: &[u8; 48]) -> (r: Result<SigContent, SigError>)
    ensures
        r == spec_parse_long(bits@),
        r matches Ok(SigContent::LongSu(f)) ==> f.wf(),
        r matches Ok(SigContent::LongMu(f)) ==> f.wf(),
        r matches Err(e) ==> e.wf(),
{
    match check_48(bits) {
        Err(e) => {
            return Err(e);
        },
        Ok(_) => {},
    }
    if bits[0] == 0 {
        parse_long_su(bits)
    } else {
        parse_long_mu(bits)
    }
}

/// Parse 48 decoded bits by the layout of the preamble format.
pub fn parse(bits: &[u8; 48], ptype: PreambleType) -> (r: Result<SigContent, SigError>)
    ensures
        r == match ptype {
            PreambleType::S1gShort => spec_parse_short(bits@),
            PreambleType::S1gLong => spec_parse_long(bits@),
        },
        r matches Ok(c) ==> c.wf(),
        r matches Err(e) ==> e.wf(),
{
    match ptype {
        PreambleType::S1gShort => parse_short(bits),
        PreambleType::S1gLong => parse_long(bits),
    }
}

impl SigError {
    /// A duration covers at least the preamble.
    pub open spec fn wf(&self) -> bool {
        match self {
            SigError::CrcFailed => true,
            SigError::Reserved { reason: _, duration_us } => duration_us matches Some(us) ==> us
                >= 240,
        }
    }
}

impl SigContent {
    /// Every field fits its place in the word.
    pub open spec fn wf(&self) -> bool {
        match self {
            SigContent::Normal(f) => f.wf(),
            SigContent::Ndp { body } => body < pow2(37),
            SigContent::LongSu(f) => f.wf(),
            SigContent::LongMu(f) => f.wf(),
        }
    }

    /// The class of a PPDU that has a Data field.
    pub open spec fn spec_verdict(&self) -> Option<SigVerdict> {
        match self {
            SigContent::Normal(f) => Some(f.su().spec_verdict()),
            SigContent::LongSu(f) => Some(f.su().spec_verdict()),
            SigContent::LongMu(f) => Some(f.spec_verdict()),
            SigContent::Ndp { body } => None,
        }
    }

    /// Classification of any CRC-valid SIG/SIG-A. NDPs are handled by the
    /// caller (they have no Data field).
    pub fn verdict(&self) -> (v: Option<SigVerdict>)
        requires
            self.wf(),
        ensures
            v == self.spec_verdict(),
    {
        match self {
            SigContent::Normal(f) => Some(f.verdict()),
            SigContent::LongSu(f) => Some(f.verdict()),
            SigContent::LongMu(f) => Some(f.verdict()),
            SigContent::Ndp { .. } => None,
        }
    }
}

/// The RXVECTOR of a classified PPDU has at least one symbol, and few enough
/// that its duration is well within 32 bits.
pub proof fn lemma_verdict_bounds(c: SigContent)
    requires
        c.wf(),
    ensures
        match c.spec_verdict() {
            Some(SigVerdict::Supported(r)) => 0 < r.n_sym <= 5000,
            Some(SigVerdict::Unsupported(r, _)) => 0 < r.n_sym <= 5000,
            Some(SigVerdict::Reserved { reason: _, duration_us }) => duration_us matches Some(us)
                ==> us >= 240,
            None => true,
        },
{
    match c {
        SigContent::Normal(f) => {
            lemma_su_verdict_bounds(f.su());
        },
        SigContent::LongSu(f) => {
            lemma_su_verdict_bounds(f.su());
        },
        _ => {},
    }
}

/// A computable PPDU duration covers at least the preamble.
proof fn lemma_duration_bound(f: SuFields)
    requires
        f.nsts < 4,
    ensures
        f.duration() matches Some(us) ==> us >= 240,
{
    let n_sts = (f.nsts + 1) as u8;
    let n_ss = at_least_one(if f.stbc {
        n_sts / 2
    } else {
        n_sts
    });
    lemma_n_dbps_positive(f.mcs, n_ss);
    if !f.aggregation {
        match spec_n_dbps_2mhz(f.mcs, n_ss) {
            Some(n_dbps) => {
                lemma_geometry_symbols(
                    f.length as int,
                    false,
                    coding_of(f.ldpc),
                    f.ldpc && f.ldpc_extra,
                    f.stbc,
                    n_dbps as int,
                );
            },
            None => {},
        }
    }
}

proof fn lemma_su_verdict_bounds(f: SuFields)
    requires
        f.nsts < 4,
        f.length < 512,
    ensures
        match f.spec_verdict() {
            SigVerdict::Supported(r) => 0 < r.n_sym <= 5000,
            SigVerdict::Unsupported(r, _) => 0 < r.n_sym <= 5000,
            SigVerdict::Reserved { reason: _, duration_us } => duration_us matches Some(us) ==> us
                >= 240,
        },
{
    lemma_duration_bound(f);
    let n_sts = f.nsts + 1;
    let n_ss = if f.stbc {
        n_sts / 2
    } else {
        n_sts
    };
    lemma_n_dbps_positive(f.mcs, n_ss as u8);
    match spec_n_dbps_2mhz(f.mcs, n_ss as u8) {
        Some(n_dbps) => {
            lemma_geometry_symbols(
                f.length as int,
                f.aggregation,
                coding_of(f.ldpc),
                f.ldpc && f.ldpc_extra,
                f.stbc,
                n_dbps as int,
            );
        },
        None => {},
    }
}

/// The 38 field bits of an NDP CMAC PPDU: the body, then the NDP Indication.
pub open spec fn ndp_field_bits(body: u64) -> Seq<u8> {
    uint_bits(body as nat, 37).push(1)
}

/// The 48 SIG bits of an NDP CMAC PPDU (37-bit body, LSB = B0; higher bits of
/// `body` are not sent) [23.3.11].
pub fn ndp_bits(body: u64) -> (out: [u8; 48])
    ensures
        out@ == sig_word(ndp_field_bits(body)),
{
    let mut v: Vec<u8> = Vec::with_capacity(48);
    push_uint_lsb_first(&mut v, body, 37);
    proof {
        lemma_uint_bits_len(body as nat, 37);
        assert(v@ =~= uint_bits(body as nat, 37));
    }
    v.push(1);  // NDP Indication
    finish_48(v)
}

} // verus!
