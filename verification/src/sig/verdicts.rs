//! What SIG and SIG-A fields mean, field by field: what a transmitter puts in,
//! how a receiver classes a PPDU, its RXVECTOR and its duration.

use crate::error::PhyError;
use crate::params::{spec_mcs_params, spec_n_dbps_2mhz};
use crate::sig::{spec_id_from_txvector, spec_split_id, SigAMu, SigASu, SigFields, SigVerdict};
use crate::sig::SuFields;
use crate::vector::{data_us, preamble_us, spec_data_field_geometry, Coding, GuardInterval};
use crate::vector::{PreambleType, TxVector};
use vstd::prelude::*;

verus! {

/// The ID field: uplink the partial AID of nine bits; downlink the color in the
/// three low bits and a partial AID of six bits above. What does not fit is
/// refused.
pub proof fn lemma_id_packing(txv: &TxVector)
    ensures
        match spec_id_from_txvector(txv) {
            Ok(id) => {
                &&& txv.color <= 7
                &&& txv.uplink_indication ==> id == txv.partial_aid && txv.partial_aid <= 511
                &&& !txv.uplink_indication ==> id == txv.color + 8 * txv.partial_aid
                    && txv.partial_aid <= 63
            },
            Err(PhyError::InvalidTxVector(why)) => {
                ||| txv.color > 7 && why@ == "color > 7"@
                ||| txv.color <= 7 && txv.uplink_indication && txv.partial_aid > 511 && why@
                    == "partial_aid > 511"@
                ||| txv.color <= 7 && !txv.uplink_indication && txv.partial_aid > 63 && why@
                    == "partial_aid > 63 with uplink_indication = false"@
            },
            Err(_) => false,
        },
{
}

/// The ID field read: uplink a partial AID and no color, downlink the color in the
/// three low bits and the partial AID above.
pub proof fn lemma_id_reading(id: u16)
    requires
        id < 512,
    ensures
        spec_split_id(id, true).0 == 0,
        spec_split_id(id, true).1 == id,
        spec_split_id(id, false).0 < 8,
        spec_split_id(id, false).0 + 8 * spec_split_id(id, false).1 == id,
{
}

/// What the transmitter signals in an S1G_SHORT SIG: 2 MHz, one stream, no STBC,
/// the TXVECTOR's parameters; with BCC the LDPC Extra bit is 1.
pub proof fn lemma_short_signalled(txv: &TxVector, length_field: u16, ldpc_extra: bool)
    ensures
        match SigFields::spec_from_txvector(txv, length_field, ldpc_extra) {
            Ok(f) => {
                &&& spec_mcs_params(txv.mcs) is Some
                &&& spec_id_from_txvector(txv) == Ok::<u16, PhyError>(f.id)
                &&& !f.stbc && f.bandwidth == 0 && f.nsts == 0
                &&& f.uplink_indication == txv.uplink_indication
                &&& f.short_gi <==> txv.gi == GuardInterval::Short
                &&& f.ldpc <==> txv.fec_coding == Coding::Ldpc
                &&& f.ldpc ==> f.ldpc_extra == ldpc_extra
                &&& !f.ldpc ==> f.ldpc_extra
                &&& f.mcs == txv.mcs
                &&& f.smoothing == txv.smoothing
                &&& f.aggregation == txv.aggregation
                &&& f.length == length_field
                &&& f.response_indication == txv.response_indication
                &&& f.traveling_pilots == txv.traveling_pilots
            },
            Err(PhyError::InvalidMcs(m)) => m == txv.mcs && spec_mcs_params(txv.mcs) is None,
            Err(e) => spec_mcs_params(txv.mcs) is Some && spec_id_from_txvector(txv) == Err::<
                u16,
                PhyError,
            >(e),
        },
{
}

/// What the transmitter signals in an S1G_LONG SIG-A: the same, but that the
/// smoothing bit of the SIG is the opposite of Beam Change.
pub proof fn lemma_long_signalled(txv: &TxVector, length_field: u16, ldpc_extra: bool)
    ensures
        match SigASu::spec_from_txvector(txv, length_field, ldpc_extra) {
            Ok(f) => {
                &&& spec_mcs_params(txv.mcs) is Some
                &&& spec_id_from_txvector(txv) == Ok::<u16, PhyError>(f.id)
                &&& !f.stbc && f.bandwidth == 0 && f.nsts == 0
                &&& f.uplink_indication == txv.uplink_indication
                &&& f.short_gi <==> txv.gi == GuardInterval::Short
                &&& f.ldpc <==> txv.fec_coding == Coding::Ldpc
                &&& f.ldpc ==> f.ldpc_extra == ldpc_extra
                &&& !f.ldpc ==> f.ldpc_extra
                &&& f.mcs == txv.mcs
                &&& f.beam_change_or_smoothing == !txv.smoothing
                &&& f.aggregation == txv.aggregation
                &&& f.length == length_field
                &&& f.response_indication == txv.response_indication
                &&& f.traveling_pilots == txv.traveling_pilots
            },
            Err(PhyError::InvalidMcs(m)) => m == txv.mcs && spec_mcs_params(txv.mcs) is None,
            Err(e) => spec_mcs_params(txv.mcs) is Some && spec_id_from_txvector(txv) == Err::<
                u16,
                PhyError,
            >(e),
        },
{
}

/// Both preambles carry the same fields for one user. The SIG says itself whether
/// smoothing is fine; in the SIG-A it is with one stream and no beam change.
pub proof fn lemma_su_fields(f: SigFields, g: SigASu)
    ensures
        f.su().preamble == PreambleType::S1gShort,
        f.su().stbc == f.stbc && f.su().uplink_indication == f.uplink_indication,
        f.su().bandwidth == f.bandwidth && f.su().nsts == f.nsts && f.su().id == f.id,
        f.su().short_gi == f.short_gi && f.su().ldpc == f.ldpc && f.su().ldpc_extra == f.ldpc_extra,
        f.su().mcs == f.mcs && f.su().smoothing == f.smoothing,
        f.su().aggregation == f.aggregation && f.su().length == f.length,
        f.su().response_indication == f.response_indication,
        f.su().traveling_pilots == f.traveling_pilots,
        g.su().preamble == PreambleType::S1gLong,
        g.su().stbc == g.stbc && g.su().uplink_indication == g.uplink_indication,
        g.su().bandwidth == g.bandwidth && g.su().nsts == g.nsts && g.su().id == g.id,
        g.su().short_gi == g.short_gi && g.su().ldpc == g.ldpc && g.su().ldpc_extra == g.ldpc_extra,
        g.su().mcs == g.mcs,
        g.su().smoothing <==> g.nsts == 0 && !g.beam_change_or_smoothing,
        g.su().aggregation == g.aggregation && g.su().length == g.length,
        g.su().response_indication == g.response_indication,
        g.su().traveling_pilots == g.traveling_pilots,
{
}

/// The RXVECTOR of one user's PPDU, field by field: N_STS is one more than the
/// Nsts field, the LDPC Extra bit counts with LDPC only, and downlink the ID is
/// color and partial AID.
pub proof fn lemma_su_rxvector(f: SuFields, n_sym: int, psdu_length: int)
    requires
        f.nsts < 4,
        f.id < 512,
        0 <= n_sym <= usize::MAX,
        0 <= psdu_length <= usize::MAX,
    ensures
        ({
            let r = f.rxvector(n_sym, psdu_length);
            &&& r.preamble_type == f.preamble && !r.mu
            &&& r.bandwidth_code == f.bandwidth && r.num_sts == f.nsts + 1 && r.stbc == f.stbc
            &&& r.mcs == f.mcs
            &&& r.gi == GuardInterval::Short <==> f.short_gi
            &&& r.fec_coding == Coding::Ldpc <==> f.ldpc
            &&& r.ldpc_extra <==> f.ldpc && f.ldpc_extra
            &&& r.aggregation == f.aggregation && r.response_indication == f.response_indication
            &&& r.smoothing == f.smoothing && r.traveling_pilots == f.traveling_pilots
            &&& r.uplink_indication == f.uplink_indication
            &&& f.uplink_indication ==> r.color == 0 && r.partial_aid == f.id
            &&& !f.uplink_indication ==> r.color < 8 && r.color + 8 * r.partial_aid == f.id
            &&& r.group_id == 0 && r.length == f.length
            &&& r.psdu_length == psdu_length && r.n_sym == n_sym
            &&& r.scrambler_seed == 0 && r.rssi == 0 && r.rcpi == 255
        }),
{
}

/// The class of one user's PPDU. Reserved, in this order: STBC with an odd number
/// of streams, BCC with the LDPC Extra bit at 0, an MCS that does not exist for the
/// number of spatial streams, an empty Data field; of each the duration is given
/// where the fields imply one. Not decoded, in this order: more than 2 MHz, STBC,
/// more than one stream, any MCS but 0 to 8 and 11. All others are supported.
pub proof fn lemma_su_verdict(f: SuFields)
    requires
        f.nsts < 4,
    ensures
        ({
            let n_ss: int = if f.stbc { (f.nsts + 1) / 2 } else { f.nsts + 1 };
            let n_dbps = spec_n_dbps_2mhz(f.mcs, n_ss as u8);
            let geometry = spec_data_field_geometry(
                f.length as int,
                f.aggregation,
                if f.ldpc { Coding::Ldpc } else { Coding::Bcc },
                f.ldpc && f.ldpc_extra,
                f.stbc,
                n_dbps->0 as int,
            );
            let odd = f.stbc && (f.nsts == 0 || f.nsts == 2);
            let b18 = !f.ldpc && !f.ldpc_extra;
            match f.spec_verdict() {
                SigVerdict::Reserved { reason, duration_us } => {
                    &&& duration_us == f.duration()
                    &&& if odd {
                        reason@ == "STBC with odd N_STS"@
                    } else if b18 {
                        reason@ == "B18 must be 1 with BCC"@
                    } else if n_dbps is None {
                        reason@ == "MCS/N_SS combination not in 23.5"@
                    } else {
                        geometry is None && reason@ == "zero-length Data field"@
                    }
                },
                SigVerdict::Unsupported(r, why) => {
                    &&& !odd && !b18 && n_dbps is Some && geometry is Some
                    &&& r == f.rxvector((geometry->0).0, (geometry->0).1)
                    &&& if f.bandwidth != 0 {
                        why@ == "bandwidth > 2 MHz"@
                    } else if f.stbc {
                        why@ == "STBC"@
                    } else if f.nsts != 0 {
                        why@ == "multiple spatial streams"@
                    } else {
                        spec_mcs_params(f.mcs) is None && why@ == "MCS not supported"@
                    }
                },
                SigVerdict::Supported(r) => {
                    &&& !b18 && f.bandwidth == 0 && !f.stbc && f.nsts == 0
                    &&& n_dbps is Some && geometry is Some
                    &&& spec_mcs_params(f.mcs) is Some
                    &&& r == f.rxvector((geometry->0).0, (geometry->0).1)
                },
            }
        }),
{
}

/// The duration that the fields of one user's PPDU imply: that of the preamble for
/// its streams and of the Data field, whose symbols are the Length field with
/// aggregation and follow from the octets without; none where the Length field is
/// 0 or, without aggregation, no N_DBPS is known.
pub proof fn lemma_su_duration(f: SuFields)
    requires
        f.nsts < 4,
        f.length < 512,
    ensures
        ({
            let gi = if f.short_gi { GuardInterval::Short } else { GuardInterval::Long };
            let n_ss: int = if f.stbc && f.nsts >= 2 {
                (f.nsts + 1) / 2
            } else if f.stbc {
                1
            } else {
                f.nsts + 1
            };
            let n_dbps = spec_n_dbps_2mhz(f.mcs, n_ss as u8);
            let n_sym: Option<int> = if f.aggregation {
                if f.length > 0 { Some(f.length as int) } else { None }
            } else if n_dbps is None {
                None
            } else {
                match spec_data_field_geometry(
                    f.length as int,
                    false,
                    if f.ldpc { Coding::Ldpc } else { Coding::Bcc },
                    f.ldpc && f.ldpc_extra,
                    f.stbc,
                    n_dbps->0 as int,
                ) {
                    Some((n, _)) => Some(n),
                    None => None,
                }
            };
            match (n_sym, f.duration()) {
                (Some(n), Some(us)) => {
                    let t = preamble_us(f.preamble, (f.nsts + 1) as u8) + data_us(gi, n);
                    0 <= t <= u32::MAX ==> us == t
                },
                (None, None) => true,
                _ => false,
            }
        }),
{
}

/// The class of an MU PPDU: reserved without any stream or without symbols,
/// otherwise valid but never decoded, with the sum of the users' streams, LDPC
/// where any user in use has it, the symbols of the Length field and its group.
pub proof fn lemma_mu_verdict(f: SigAMu)
    requires
        f.wf(),
    ensures
        ({
            let total = f.nsts@[0] + f.nsts@[1] + f.nsts@[2] + f.nsts@[3];
            match f.spec_verdict() {
                SigVerdict::Reserved { reason, duration_us } => if total == 0 {
                    reason@ == "MU PPDU with no space-time streams"@ && duration_us == f.duration()
                } else {
                    f.length == 0 && reason@ == "zero-length Data field"@ && duration_us is None
                },
                SigVerdict::Unsupported(r, why) => {
                    &&& total > 0 && f.length > 0 && why@ == "S1G MU PPDU"@
                    &&& r.preamble_type == PreambleType::S1gLong && r.mu
                    &&& r.bandwidth_code == f.bandwidth && r.num_sts == total && r.stbc == f.stbc
                    &&& r.mcs == 0
                    &&& r.gi == GuardInterval::Short <==> f.short_gi
                    &&& r.fec_coding == Coding::Ldpc <==> (f.nsts@[0] > 0 && f.ldpc@[0]) || (f.nsts@[1]
                        > 0 && f.ldpc@[1]) || (f.nsts@[2] > 0 && f.ldpc@[2]) || (f.nsts@[3] > 0
                        && f.ldpc@[3])
                    &&& r.ldpc_extra == f.ldpc_extra && r.aggregation
                    &&& r.response_indication == f.response_indication
                    &&& r.traveling_pilots == f.traveling_pilots
                    &&& r.group_id == f.group_id && r.length == f.length
                    &&& r.n_sym == f.length && r.psdu_length == 0
                    &&& !r.smoothing && !r.uplink_indication && r.color == 0 && r.partial_aid == 0
                },
                SigVerdict::Supported(_) => false,
            }
        }),
{
    assert(f.any_ldpc() <==> (f.nsts@[0] > 0 && f.ldpc@[0]) || (f.nsts@[1] > 0 && f.ldpc@[1]) || (
    f.nsts@[2] > 0 && f.ldpc@[2]) || (f.nsts@[3] > 0 && f.ldpc@[3])) by {
        if f.any_ldpc() {
            let u = choose|u: int| 0 <= u < 4 && #[trigger] f.ldpc@[u] && f.nsts@[u] > 0;
            assert(u == 0 || u == 1 || u == 2 || u == 3);
        }
    }
}

/// The duration of an MU PPDU: its Length field counts symbols, and one stream
/// counts where the fields give none.
pub proof fn lemma_mu_duration(f: SigAMu)
    requires
        f.wf(),
    ensures
        ({
            let total = f.nsts@[0] + f.nsts@[1] + f.nsts@[2] + f.nsts@[3];
            let gi = if f.short_gi { GuardInterval::Short } else { GuardInterval::Long };
            match f.duration() {
                Some(us) => f.length > 0 && us == preamble_us(
                    PreambleType::S1gLong,
                    (if total == 0 { 1int } else { total }) as u8,
                ) + data_us(gi, f.length as int),
                None => f.length == 0,
            }
        }),
{
}

} // verus!
