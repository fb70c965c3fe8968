//! Durations and Data-field geometry in numbers.

use crate::arith::{lemma_ceil_div, spec_ceil_div};
use crate::vector::{blank_rxvector, data_us, octets_in, preamble_us, spec_data_field_geometry, Coding};
use crate::vector::{GuardInterval, PreambleType, ResponseIndication, RxVector};
use vstd::prelude::*;

verus! {

/// The two-bit codes of the response indications, both ways.
pub proof fn lemma_response_codes()
    ensures
        ResponseIndication::NoResponse.code() == 0,
        ResponseIndication::Ndp.code() == 1,
        ResponseIndication::Normal.code() == 2,
        ResponseIndication::Long.code() == 3,
        ResponseIndication::of_code(0) == ResponseIndication::NoResponse,
        ResponseIndication::of_code(1) == ResponseIndication::Ndp,
        ResponseIndication::of_code(2) == ResponseIndication::Normal,
        ResponseIndication::of_code(3) == ResponseIndication::Long,
{
}

/// Everything before the Data field takes 240 us with the short preamble (STF 80,
/// LTF 80, SIG 80) and 360 us with the long one (D-STF, one D-LTF and SIG-B, 40
/// each, more); two streams take 40 us more, three or four 120 us.
pub proof fn lemma_preamble_us(num_sts: u8)
    ensures
        num_sts <= 1 ==> preamble_us(PreambleType::S1gShort, num_sts) == 240 && preamble_us(
            PreambleType::S1gLong,
            num_sts,
        ) == 360,
        num_sts == 2 ==> preamble_us(PreambleType::S1gShort, num_sts) == 280 && preamble_us(
            PreambleType::S1gLong,
            num_sts,
        ) == 400,
        num_sts >= 3 ==> preamble_us(PreambleType::S1gShort, num_sts) == 360 && preamble_us(
            PreambleType::S1gLong,
            num_sts,
        ) == 480,
{
}

/// An empty Data field takes no time, the first symbol 40 us, and each further
/// one 40 us, with the short guard interval 36.
pub proof fn lemma_data_us(n_sym: int)
    requires
        n_sym >= 1,
    ensures
        data_us(GuardInterval::Long, 0) == 0,
        data_us(GuardInterval::Short, 0) == 0,
        data_us(GuardInterval::Long, 1) == 40,
        data_us(GuardInterval::Short, 1) == 40,
        data_us(GuardInterval::Long, n_sym + 1) == data_us(GuardInterval::Long, n_sym) + 40,
        data_us(GuardInterval::Short, n_sym + 1) == data_us(GuardInterval::Short, n_sym) + 36,
{
}

/// A PPDU of one stream takes 240 or 360 us for its preamble and 40 us for each
/// symbol, less 4 us for each but the first with the short guard interval.
pub proof fn lemma_ppdu_us(r: RxVector)
    requires
        r.num_sts == 1,
        r.n_sym >= 1,
    ensures
        r.ppdu_us() == (match r.preamble_type {
            PreambleType::S1gShort => 240int,
            PreambleType::S1gLong => 360,
        }) + 40 * r.n_sym - (match r.gi {
            GuardInterval::Long => 0int,
            GuardInterval::Short => 4 * (r.n_sym - 1),
        }),
{
}

/// Without aggregation the Length field counts octets, and the Data field has the
/// least number of symbols that hold the SERVICE field, the PSDU and, with BCC,
/// the tail: 8 bits more than the octets, 14 with BCC. With STBC symbols come in
/// pairs. The LDPC extra symbol, with STBC two, comes on top.
pub proof fn lemma_geometry_octets(
    length: int,
    coding: Coding,
    ldpc_extra: bool,
    stbc: bool,
    n_dbps: int,
)
    requires
        length > 0,
        n_dbps > 0,
    ensures
        spec_data_field_geometry(length, false, coding, ldpc_extra, stbc, n_dbps) matches Some((
            n_sym,
            octets,
        )) && {
            let bits = 8 * length + (if coding == Coding::Bcc { 14int } else { 8 });
            let each: int = if stbc { 2 } else { 1 };
            let plain = n_sym - (if coding == Coding::Ldpc && ldpc_extra { each } else { 0 });
            &&& octets == length
            &&& plain % each == 0
            &&& (plain - each) * n_dbps < bits <= plain * n_dbps
        },
{
    reveal(spec_data_field_geometry);
    let bits = 8 * length + (if coding == Coding::Bcc { 14int } else { 8 });
    let each: int = if stbc { 2 } else { 1 };
    let q = spec_ceil_div(bits, each * n_dbps);
    assert(each * n_dbps > 0) by (nonlinear_arith)
        requires
            each >= 1,
            n_dbps > 0,
    ;
    lemma_ceil_div(bits, each * n_dbps);
    assert((each * q - each) * n_dbps < bits <= (each * q) * n_dbps) by (nonlinear_arith)
        requires
            bits <= q * (each * n_dbps) < bits + each * n_dbps,
    ;
    assert((each * q) % each == 0) by (nonlinear_arith)
        requires
            each == 1 || each == 2,
    ;
}

/// With aggregation the Length field counts symbols, and the PSDU is as many
/// whole octets as they hold beside the SERVICE field and, with BCC, the tail:
/// 14 bits with BCC, 8 with LDPC, whose extra symbols hold no payload (at least
/// one symbol counts).
pub proof fn lemma_geometry_symbols(
    length: int,
    coding: Coding,
    ldpc_extra: bool,
    stbc: bool,
    n_dbps: int,
)
    requires
        length > 0,
        n_dbps >= 14,
    ensures
        ({
            let extra: int = if coding == Coding::Bcc || !ldpc_extra {
                0
            } else if stbc {
                2
            } else {
                1
            };
            let n: int = if length <= extra { 1 } else { length - extra };
            let spare: int = if coding == Coding::Bcc { 14 } else { 8 };
            match spec_data_field_geometry(length, true, coding, ldpc_extra, stbc, n_dbps) {
                Some((n_sym, octets)) => {
                    &&& n_sym == length && length >= extra
                    &&& 8 * octets + spare <= n * n_dbps < 8 * (octets + 1) + spare
                },
                None => length < extra,
            }
        }),
{
    reveal(spec_data_field_geometry);
    assert(length * n_dbps >= 14) by (nonlinear_arith)
        requires
            length >= 1,
            n_dbps >= 14,
    ;
    if length > 2 {
        assert((length - 2) * n_dbps >= 14 && (length - 1) * n_dbps >= 14) by (nonlinear_arith)
            requires
                length >= 3,
                n_dbps >= 14,
        ;
    } else if length > 1 {
        assert((length - 1) * n_dbps >= 14) by (nonlinear_arith)
            requires
                length == 2,
                n_dbps >= 14,
        ;
    }
}

/// A Data field of no length is none.
pub proof fn lemma_geometry_empty(
    aggregation: bool,
    coding: Coding,
    ldpc_extra: bool,
    stbc: bool,
    n_dbps: int,
)
    ensures
        spec_data_field_geometry(0, aggregation, coding, ldpc_extra, stbc, n_dbps) is None,
{
    reveal(spec_data_field_geometry);
}

/// Whole octets in some bits.
pub proof fn lemma_octets_in(bits: int)
    ensures
        bits >= 0 ==> 8 * octets_in(bits) <= bits < 8 * octets_in(bits) + 8,
        bits < 0 ==> octets_in(bits) == 0,
{
}

/// An RXVECTOR of which nothing is known: one stream of 2 MHz, MCS 0, the long guard
/// interval, BCC, the short preamble, no RCPI.
pub proof fn lemma_blank_rxvector()
    ensures
        ({
            let r = blank_rxvector();
            &&& r.preamble_type == PreambleType::S1gShort && !r.mu && r.bandwidth_code == 0
            &&& r.num_sts == 1 && !r.stbc && r.mcs == 0 && r.gi == GuardInterval::Long
            &&& r.fec_coding == Coding::Bcc && !r.ldpc_extra && !r.aggregation
            &&& r.response_indication == ResponseIndication::NoResponse && !r.smoothing
            &&& !r.traveling_pilots && !r.uplink_indication && r.color == 0 && r.partial_aid == 0
            &&& r.group_id == 0 && r.length == 0 && r.psdu_length == 0 && r.n_sym == 0
            &&& r.scrambler_seed == 0 && r.rssi == 0 && r.rcpi == 255
        }),
{
}

} // verus!
