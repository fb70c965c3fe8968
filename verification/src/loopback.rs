//! What a receiver makes of what the transmitter sends.

use crate::ldpc::PpduParams;
use crate::params::{lemma_mcs_row, spec_mcs_params};
use crate::rx::decode::{carried_psdu, carried_seed, lemma_extract_inverts_build};
use crate::rx::decode::lemma_extract_pads_with_zeros;
use crate::sig::laws::{lemma_long_su_roundtrip, lemma_short_roundtrip};
use crate::sig::parse::{spec_parse_long, spec_parse_short};
use crate::sig::{lemma_id_roundtrip, sig_word, spec_id_from_txvector, SigASu, SigContent, SigError, SigFields};
use crate::sig::{SigVerdict, SuFields};
use crate::tx::{capacity, data_bits, field_data, lemma_geometry_bounds, lemma_payload_symbols};
use crate::tx::{lemma_capacity_stable, lemma_receiver_geometry, overhead_bits};
use crate::tx::{lemma_symbol_products, plan_error, sig_field_bits, spec_data_geometry, DataGeometry};
use crate::vector::{Coding, PreambleType, RxVector, TxVector};
use vstd::prelude::*;

verus! {

/// The SIG content that announces a PPDU.
pub open spec fn announced(txv: &TxVector, g: DataGeometry) -> SigContent {
    match txv.preamble_type {
        PreambleType::S1gShort => SigContent::Normal(
            SigFields::spec_from_txvector(txv, g.length_field, g.ldpc_extra)->Ok_0,
        ),
        PreambleType::S1gLong => SigContent::LongSu(
            SigASu::spec_from_txvector(txv, g.length_field, g.ldpc_extra)->Ok_0,
        ),
    }
}

/// The RXVECTOR describes the PPDU of the TXVECTOR.
pub open spec fn describes(rxv: RxVector, txv: &TxVector, g: DataGeometry, psdu_len: int) -> bool {
    &&& rxv.preamble_type == txv.preamble_type
    &&& !rxv.mu
    &&& rxv.bandwidth_code == 0
    &&& rxv.num_sts == 1
    &&& !rxv.stbc
    &&& rxv.mcs == txv.mcs
    &&& rxv.gi == txv.gi
    &&& rxv.fec_coding == txv.fec_coding
    &&& rxv.ldpc_extra == g.ldpc_extra
    &&& rxv.aggregation == txv.aggregation
    &&& rxv.response_indication == txv.response_indication
    &&& rxv.smoothing == txv.smoothing
    &&& rxv.traveling_pilots == txv.traveling_pilots
    &&& rxv.uplink_indication == txv.uplink_indication
    &&& rxv.partial_aid == txv.partial_aid
    &&& !txv.uplink_indication ==> rxv.color == txv.color
    &&& rxv.length == g.length_field
    &&& rxv.n_sym == g.n_sym
    &&& rxv.psdu_length == psdu_len
}

proof fn lemma_su_announced(f: SuFields, txv: &TxVector, psdu_len: usize)
    requires
        plan_error(txv, psdu_len) is None,
        ({
            let g = spec_data_geometry(txv.mcs, psdu_len, txv.aggregation, txv.fec_coding)->Ok_0;
            &&& f.preamble == txv.preamble_type
            &&& !f.stbc
            &&& f.uplink_indication == txv.uplink_indication
            &&& f.bandwidth == 0
            &&& f.nsts == 0
            &&& f.id == spec_id_from_txvector(txv)->Ok_0
            &&& f.short_gi == (txv.gi == crate::vector::GuardInterval::Short)
            &&& f.ldpc == (txv.fec_coding == Coding::Ldpc)
            &&& f.ldpc_extra == (g.ldpc_extra || txv.fec_coding == Coding::Bcc)
            &&& f.mcs == txv.mcs
            &&& f.smoothing == txv.smoothing
            &&& f.aggregation == txv.aggregation
            &&& f.length == g.length_field
            &&& f.response_indication == txv.response_indication
            &&& f.traveling_pilots == txv.traveling_pilots
        }),
    ensures
        ({
            let p = spec_mcs_params(txv.mcs)->0;
            let g = spec_data_geometry(txv.mcs, psdu_len, txv.aggregation, txv.fec_coding)->Ok_0;
            let octets = if txv.aggregation {
                capacity(p, g.n_sym_init as int, txv.fec_coding)
            } else {
                psdu_len as int
            };
            f.spec_verdict() matches SigVerdict::Supported(rxv) && describes(rxv, txv, g, octets)
        }),
{
    lemma_mcs_row(txv.mcs);
    lemma_receiver_geometry(txv.mcs, psdu_len, txv.aggregation, txv.fec_coding);
    lemma_id_roundtrip(txv);
    let p = spec_mcs_params(txv.mcs)->0;
    let g = spec_data_geometry(txv.mcs, psdu_len, txv.aggregation, txv.fec_coding)->Ok_0;
    lemma_payload_symbols(p, psdu_len as int, txv.fec_coding);
    lemma_symbol_products(g.n_sym_init as int, p.n_dbps as int, p.n_cbps as int);
    lemma_geometry_bounds(txv.mcs, psdu_len, txv.aggregation, txv.fec_coding);
    assert((f.ldpc && f.ldpc_extra) == g.ldpc_extra);
}

/// Every PPDU that the transmitter builds announces itself: its SIG or SIG-A
/// bits parse, and the receiver classifies them as a supported PPDU with the
/// TXVECTOR's parameters, the transmitted symbol count, and the PSDU's length
/// (aggregated: the capacity that the MAC pads to).
pub proof fn lemma_sig_announces_ppdu(txv: &TxVector, psdu_len: usize)
    requires
        plan_error(txv, psdu_len) is None,
    ensures
        ({
            let p = spec_mcs_params(txv.mcs)->0;
            let g = spec_data_geometry(txv.mcs, psdu_len, txv.aggregation, txv.fec_coding)->Ok_0;
            let word = sig_word(sig_field_bits(txv, g));
            let parsed = match txv.preamble_type {
                PreambleType::S1gShort => spec_parse_short(word),
                PreambleType::S1gLong => spec_parse_long(word),
            };
            let octets = if txv.aggregation {
                capacity(p, g.n_sym_init as int, txv.fec_coding)
            } else {
                psdu_len as int
            };
            &&& parsed == Ok::<SigContent, SigError>(announced(txv, g))
            &&& announced(txv, g).spec_verdict() matches Some(SigVerdict::Supported(rxv))
                && describes(rxv, txv, g, octets)
        }),
{
    let g = spec_data_geometry(txv.mcs, psdu_len, txv.aggregation, txv.fec_coding)->Ok_0;
    lemma_geometry_bounds(txv.mcs, psdu_len, txv.aggregation, txv.fec_coding);
    match txv.preamble_type {
        PreambleType::S1gShort => {
            let f = SigFields::spec_from_txvector(txv, g.length_field, g.ldpc_extra)->Ok_0;
            lemma_short_roundtrip(f);
            lemma_su_announced(f.su(), txv, psdu_len);
        },
        PreambleType::S1gLong => {
            let f = SigASu::spec_from_txvector(txv, g.length_field, g.ldpc_extra)->Ok_0;
            lemma_long_su_roundtrip(f);
            lemma_su_announced(f.su(), txv, psdu_len);
        },
    }
}

/// The PSDU comes back: from the Data-field bits of any PPDU (for LDPC: as the
/// information parts of its codewords carry them) the receiver recovers the
/// seed and the PSDU.
pub proof fn lemma_psdu_comes_back(txv: &TxVector, psdu: Seq<u8>, seed: u8)
    requires
        psdu.len() <= usize::MAX,
        plan_error(txv, psdu.len() as usize) is None,
        1 <= seed <= 127,
    ensures
        ({
            let p = spec_mcs_params(txv.mcs)->0;
            let g = spec_data_geometry(
                txv.mcs,
                psdu.len() as usize,
                txv.aggregation,
                txv.fec_coding,
            )->Ok_0;
            let bits = data_bits(txv.fec_coding, seed, psdu, g.n_sym_init * p.n_dbps);
            &&& carried_seed(bits) == seed
            &&& carried_psdu(txv.fec_coding, bits, psdu.len() as int) == psdu
            &&& txv.fec_coding == Coding::Bcc ==> field_data(txv, p, g, seed, psdu) == bits
            &&& txv.fec_coding == Coding::Ldpc ==> {
                let lp = PpduParams::spec_new(
                    g.n_sym_init as int,
                    p.n_dbps as int,
                    p.n_cbps as int,
                    p.rate,
                );
                forall|j: int, i: int|
                    0 <= j < lp.n_cw && 0 <= i < lp.n_info(j) ==> #[trigger] field_data(
                        txv,
                        p,
                        g,
                        seed,
                        psdu,
                    )[lp.tx_start(j) + i] == bits[lp.data_start(j) + i]
            }
        }),
{
    let p = spec_mcs_params(txv.mcs)->0;
    let g = spec_data_geometry(
        txv.mcs,
        psdu.len() as usize,
        txv.aggregation,
        txv.fec_coding,
    )->Ok_0;
    lemma_mcs_row(txv.mcs);
    lemma_payload_symbols(p, psdu.len() as int, txv.fec_coding);
    lemma_symbol_products(g.n_sym_init as int, p.n_dbps as int, p.n_cbps as int);
    let n = g.n_sym_init * p.n_dbps;
    let bits = data_bits(txv.fec_coding, seed, psdu, n);
    lemma_extract_inverts_build(txv.fec_coding, seed, psdu, n);
    if txv.fec_coding == Coding::Ldpc {
        let lp = PpduParams::spec_new(
            g.n_sym_init as int,
            p.n_dbps as int,
            p.n_cbps as int,
            p.rate,
        );
        PpduParams::lemma_products_fit(
            g.n_sym_init as int,
            p.n_dbps as int,
            p.n_cbps as int,
            p.rate,
        );
        PpduParams::lemma_new(g.n_sym_init as int, p.n_dbps as int, p.n_cbps as int, p.rate);
        assert forall|j: int, i: int| 0 <= j < lp.n_cw && 0 <= i < lp.n_info(j) implies
            #[trigger] field_data(txv, p, g, seed, psdu)[lp.tx_start(j) + i]
            == bits[lp.data_start(j) + i] by {
            lp.lemma_data_recoverable(bits, j, i);
        }
    }
}

/// The PSDU of an aggregated PPDU comes back padded with zeros to the capacity,
/// which is the length that the receiver reads from the SIG.
pub proof fn lemma_aggregated_psdu_comes_back(txv: &TxVector, psdu: Seq<u8>, seed: u8)
    requires
        psdu.len() <= usize::MAX,
        txv.aggregation,
        plan_error(txv, psdu.len() as usize) is None,
        1 <= seed <= 127,
    ensures
        ({
            let p = spec_mcs_params(txv.mcs)->0;
            let g = spec_data_geometry(txv.mcs, psdu.len() as usize, true, txv.fec_coding)->Ok_0;
            let bits = data_bits(txv.fec_coding, seed, psdu, g.n_sym_init * p.n_dbps);
            let octets = capacity(p, g.n_sym_init as int, txv.fec_coding);
            &&& psdu.len() <= octets
            &&& carried_psdu(txv.fec_coding, bits, octets) == psdu + Seq::new(
                (octets - psdu.len()) as nat,
                |i: int| 0u8,
            )
            &&& psdu.is_prefix_of(carried_psdu(txv.fec_coding, bits, octets))
        }),
{
    let p = spec_mcs_params(txv.mcs)->0;
    let g = spec_data_geometry(txv.mcs, psdu.len() as usize, true, txv.fec_coding)->Ok_0;
    let n = g.n_sym_init * p.n_dbps;
    let octets = capacity(p, g.n_sym_init as int, txv.fec_coding);
    lemma_capacity_stable(txv.mcs, psdu.len() as usize, txv.fec_coding);
    assert(8 * octets + overhead_bits(txv.fec_coding) <= n);
    lemma_extract_pads_with_zeros(txv.fec_coding, seed, psdu, n, octets);
    let whole = psdu + Seq::new((octets - psdu.len()) as nat, |i: int| 0u8);
    assert(psdu =~= whole.subrange(0, psdu.len() as int));
}

} // verus!
