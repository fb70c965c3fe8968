//! A PPDU in a stream: sent by the transmitter, it is received.

use crate::loopback::{announced, describes, lemma_aggregated_psdu_comes_back};
use crate::loopback::{lemma_psdu_comes_back, lemma_sig_announces_ppdu};
use crate::params::spec_mcs_params;
use crate::rx::buffer::MAX_SAMPLES;
use crate::rx::chunks::{cuts, data_step, heard, received, run, step, Piece, Rx, Signal};
use crate::rx::chunks::{lemma_heard_concat, lemma_heard_nothing, lemma_left_unheard, lemma_pieces};
use crate::rx::chunks::{lemma_payload_order, lemma_run_end, lemma_run_on, lemma_run_wf};
use crate::rx::chunks::{lemma_search_step, lemma_step_wf, lemma_first_unique};
use crate::rx::decode::{carried_psdu, carried_seed};
use crate::rx::{spec_ppdu_end, Cca, CcaReason, Control, DataState, RxConfig};
use crate::rx::{RxEndStatus, RxEvent, State, Want};
use crate::sig::parse::{lemma_verdict_bounds, spec_parse_long, spec_parse_short};
use crate::sig::{sig_word, SigContent, SigError, SigVerdict};
use crate::tx::{capacity, data_bits, plan_error, sig_field_bits, spec_data_geometry, DataGeometry};
use crate::vector::{PreambleType, RxVector, TxVector};
use vstd::prelude::*;

verus! {

/// The Data-field geometry of a PPDU that can be built.
pub open spec fn geometry(txv: &TxVector, psdu: Seq<u8>) -> DataGeometry {
    spec_data_geometry(txv.mcs, psdu.len() as usize, txv.aggregation, txv.fec_coding)->Ok_0
}

/// The SIG or SIG-A field of a PPDU, read as it was sent.
pub open spec fn sig_as_sent(txv: &TxVector, psdu: Seq<u8>) -> Result<SigContent, SigError> {
    let word = sig_word(sig_field_bits(txv, geometry(txv, psdu)));
    match txv.preamble_type {
        PreambleType::S1gShort => spec_parse_short(word),
        PreambleType::S1gLong => spec_parse_long(word),
    }
}

/// The Data-field bits of a PPDU before coding, decoded as they were sent.
pub open spec fn bits_as_sent(txv: &TxVector, psdu: Seq<u8>, seed: u8) -> Seq<u8> {
    let p = spec_mcs_params(txv.mcs)->0;
    data_bits(txv.fec_coding, seed, psdu, geometry(txv, psdu).n_sym_init * p.n_dbps)
}

/// What the MAC gets of a PSDU: its octets, with aggregation filled with zeros
/// to the capacity of the PPDU.
pub open spec fn delivered(txv: &TxVector, psdu: Seq<u8>) -> Seq<u8> {
    if txv.aggregation {
        let p = spec_mcs_params(txv.mcs)->0;
        let octets = capacity(p, geometry(txv, psdu).n_sym_init as int, txv.fec_coding);
        psdu + Seq::new((octets - psdu.len()) as nat, |i: int| 0u8)
    } else {
        psdu
    }
}

/// The RXVECTOR that the SIG field of a PPDU gives.
pub open spec fn rxvector(txv: &TxVector, psdu: Seq<u8>) -> RxVector {
    announced(txv, geometry(txv, psdu)).spec_verdict()->0->Supported_0
}

/// First sample behind a PPDU whose first LTS period starts at `anchor`.
pub open spec fn end_of(txv: &TxVector, psdu: Seq<u8>, anchor: int) -> int {
    spec_ppdu_end(anchor, rxvector(txv, psdu).ppdu_us())
}

/// Each Data symbol of a PPDU shows a signal and moves the windows on by at most
/// `lag` samples, and the last one completes these octets.
pub open spec fn symbols_carry(
    m: Signal,
    trig: u64,
    anchor: u64,
    rxv: RxVector,
    octets: Seq<u8>,
    seed: u8,
    lag: int,
) -> bool {
    forall|d: DataState|
        {
            let seen = #[trigger] (m.symbol)(trig, d);
            d.anchor == anchor && d.rxv.n_sym == rxv.n_sym && d.rxv.psdu_length == rxv.psdu_length
                ==> {
                &&& !seen.lost
                &&& seen.shift <= lag
                &&& d.n + 1 == rxv.n_sym ==> seen.psdu@ == octets && seen.scrambler_seed == seed
            }
        }
}

/// A stream of `end` samples holds one whole PPDU and nothing else, and it is
/// demodulated as it was sent: its STF is seen at `trig`, its LTF `o` samples
/// behind, its SIG field and its Data-field bits are as sent, and each of its
/// symbols shows a signal. Windows are moved on by at most `lag` samples.
pub open spec fn holds_ppdu(
    m: Signal,
    txv: &TxVector,
    psdu: Seq<u8>,
    seed: u8,
    trig: u64,
    o: u64,
    lag: int,
    end: u64,
) -> bool {
    let anchor = (trig + o) as u64;
    let bits = bits_as_sent(txv, psdu, seed);
    let rxv = rxvector(txv, psdu);
    &&& m.first_stf(0, trig as int)
    &&& forall|t: int| end_of(txv, psdu, anchor as int) <= t ==> !(#[trigger] (m.stf)(t))
    &&& (m.ltf)(trig) == Some(o)
    &&& (m.sig)(trig, anchor).0 == sig_as_sent(txv, psdu)
    &&& symbols_carry(
        m,
        trig,
        anchor,
        rxv,
        carried_psdu(txv.fec_coding, bits, rxv.psdu_length as int),
        carried_seed(bits),
        lag,
    )
    &&& 0 <= lag
    &&& trig + 480 <= end
    &&& end_of(txv, psdu, anchor as int) + lag <= end <= MAX_SAMPLES
}

/// What is heard of a PSDU.
pub open spec fn psdu_heard(d: DataState, psdu: Vec<u8>, seed: u8) -> Seq<RxEvent> {
    seq![
        RxEvent::PsduReceived {
            sample_index: d.end,
            rxvector: RxVector { scrambler_seed: seed, ..d.rxv },
            psdu,
        },
        RxEvent::RxEnd { sample_index: d.end, status: RxEndStatus::NoError },
    ]
}

/// What is heard of the last Data symbol.
proof fn lemma_psdu_heard(c: Control, d: DataState, psdu: Vec<u8>, seed: u8)
    ensures
        heard(c.psdu_report(d, psdu, seed)) == psdu_heard(d, psdu, seed),
{
    let told = psdu_heard(d, psdu, seed);
    lemma_left_unheard(c, d.end, None);
    lemma_heard_concat(told, c.cca.left_report(d.end, None));
    reveal_with_fuel(heard, 3);
    assert(told.drop_last().drop_last() =~= Seq::<RxEvent>::empty());
    assert(heard(told) =~= told);
    assert(told + Seq::<RxEvent>::empty() =~= told);
}

/// The due Data symbol is taken.
proof fn lemma_data_taken(m: Signal, r: Rx, d: DataState, end: u64)
    requires
        m.wf(),
        r.wf(),
        r.buf_abs <= end <= MAX_SAMPLES,
        r.control.state == State::Data(d),
        d.end + d.shift <= end,
        d.end <= end,
    ensures
        step(m, r, end) == Some(data_step(m, r, d, end)),
        data_step(m, r, d, end).0.wf(),
        data_step(m, r, d, end).0.buf_abs <= end,
{
    lemma_payload_order(d);
    lemma_step_wf(m, r, end);
    assert(r.control.wanted(r.buf_abs, end) is Data);
}

/// The Data symbols from the current one on lead to the PSDU.
proof fn lemma_data_symbols(
    m: Signal,
    rxv: RxVector,
    octets: Seq<u8>,
    seed: u8,
    lag: int,
    end: u64,
    r: Rx,
    d: DataState,
) -> (got: Vec<u8>)
    requires
        m.wf(),
        symbols_carry(m, r.trig, d.anchor, rxv, octets, seed, lag),
        r.wf(),
        r.buf_abs <= end <= MAX_SAMPLES,
        r.control.state == State::Data(d),
        r.control.cfg.carrier_lost_symbols >= 1,
        d.rxv.n_sym == rxv.n_sym,
        d.rxv.psdu_length == rxv.psdu_length,
        0 <= lag,
        d.end + lag <= end,
        d.shift <= lag,
    ensures
        got@ == octets,
        run(m, r, end, (d.rxv.n_sym - d.n) as nat).0.control.state is Search,
        run(m, r, end, (d.rxv.n_sym - d.n) as nat).0.control.scan_abs == d.end,
        heard(run(m, r, end, (d.rxv.n_sym - d.n) as nat).1) == psdu_heard(d, got, seed),
    decreases d.rxv.n_sym - d.n,
{
    lemma_data_taken(m, r, d, end);
    let seen = (m.symbol)(r.trig, d);
    let left = (d.rxv.n_sym - d.n) as nat;
    let (next, events) = data_step(m, r, d, end);
    let e = DataState { lost_run: 0, ..d };
    let c = r.control.after_carrier(d, false);
    let (last, more) = run(m, next, end, (left - 1) as nat);
    lemma_heard_concat(events, more);
    if d.n + 1 < d.rxv.n_sym {
        let f = DataState { n: (d.n + 1) as usize, shift: seen.shift, ..e };
        assert(next.control.state == State::Data(f));
        let got = lemma_data_symbols(m, rxv, octets, seed, lag, end, next, f);
        lemma_heard_nothing(events);
        assert(heard(events) + heard(more) =~= heard(more));
        assert(psdu_heard(f, got, seed) =~= psdu_heard(d, got, seed));
        got
    } else {
        assert(more =~= Seq::<RxEvent>::empty());
        assert(events == c.psdu_report(e, seen.psdu, seen.scrambler_seed));
        lemma_psdu_heard(c, e, seen.psdu, seed);
        assert(heard(events) + heard(more) =~= heard(events));
        assert(psdu_heard(e, seen.psdu, seed) =~= psdu_heard(d, seen.psdu, seed));
        seen.psdu
    }
}

/// A PPDU's SIG field is read as that of a supported PPDU.
proof fn lemma_sig_supported(txv: &TxVector, psdu: Seq<u8>)
    requires
        psdu.len() <= usize::MAX,
        plan_error(txv, psdu.len() as usize) is None,
    ensures
        sig_as_sent(txv, psdu) == Ok::<SigContent, SigError>(
            announced(txv, geometry(txv, psdu)),
        ),
        announced(txv, geometry(txv, psdu)).spec_verdict() == Some(
            SigVerdict::Supported(rxvector(txv, psdu)),
        ),
        describes(
            rxvector(txv, psdu),
            txv,
            geometry(txv, psdu),
            delivered(txv, psdu).len() as int,
        ),
{
    lemma_sig_announces_ppdu(txv, psdu.len() as usize);
    if txv.aggregation {
        lemma_aggregated_psdu_comes_back(txv, psdu, 1);
    }
}

/// What is carried is what is delivered.
proof fn lemma_carried(txv: &TxVector, psdu: Seq<u8>, seed: u8)
    requires
        psdu.len() <= usize::MAX,
        plan_error(txv, psdu.len() as usize) is None,
        1 <= seed <= 127,
    ensures
        carried_seed(bits_as_sent(txv, psdu, seed)) == seed,
        carried_psdu(
            txv.fec_coding,
            bits_as_sent(txv, psdu, seed),
            delivered(txv, psdu).len() as int,
        ) == delivered(txv, psdu),
{
    lemma_psdu_comes_back(txv, psdu, seed);
    if txv.aggregation {
        lemma_aggregated_psdu_comes_back(txv, psdu, seed);
    }
}

/// The state in which the Data field of a PPDU begins.
pub open spec fn data_begin(rxv: RxVector, anchor: u64, rssi: u8, rcpi: u8) -> DataState {
    DataState {
        anchor,
        rxv: Control::measured(rxv, rssi, rcpi),
        n: 0,
        end: spec_ppdu_end(anchor as int, rxv.ppdu_us()) as u64,
        lost_run: 0,
        shift: 0,
    }
}

/// What is heard up to the SIG field of a supported PPDU.
pub open spec fn start_heard(cfg: RxConfig, trig: u64, d: DataState) -> Seq<RxEvent> {
    (if cfg.emit_ppdu_start {
        seq![RxEvent::PpduStart { sample_index: trig }]
    } else {
        Seq::<RxEvent>::empty()
    }) + seq![RxEvent::RxStart { sample_index: d.anchor, rxvector: d.rxv }]
}

/// STF, LTF and SIG field lead to the Data field.
proof fn lemma_reaches_data(
    m: Signal,
    cfg: RxConfig,
    trig: u64,
    o: u64,
    content: SigContent,
    rxv: RxVector,
    end: u64,
) -> (d: DataState)
    requires
        m.wf(),
        m.first_stf(0, trig as int),
        (m.ltf)(trig) == Some(o),
        (m.sig)(trig, (trig + o) as u64).0 == Ok::<SigContent, SigError>(content),
        content.spec_verdict() == Some(SigVerdict::Supported(rxv)),
        trig + 480 <= end <= MAX_SAMPLES,
        spec_ppdu_end(trig + o, rxv.ppdu_us()) <= end,
    ensures
        d == data_begin(
            rxv,
            (trig + o) as u64,
            (m.sig)(trig, (trig + o) as u64).1,
            (m.sig)(trig, (trig + o) as u64).2,
        ),
        d.end == spec_ppdu_end(trig + o, rxv.ppdu_us()),
        run(m, Rx::fresh(cfg), end, 3).0.control.state == State::Data(d),
        run(m, Rx::fresh(cfg), end, 3).0.control.cfg == cfg,
        run(m, Rx::fresh(cfg), end, 3).0.trig == trig,
        heard(run(m, Rx::fresh(cfg), end, 3).1) == start_heard(cfg, trig, d),
{
    let fresh = Rx::fresh(cfg);
    let anchor = (trig + o) as u64;
    let (sig, rssi, rcpi) = (m.sig)(trig, anchor);
    lemma_verdict_bounds(content);
    assert(o <= 480);
    let d = data_begin(rxv, anchor, rssi, rcpi);

    lemma_search_step(m, fresh, end);
    assert(m.first_stf(fresh.control.scan_abs as int, trig as int));
    let (r1, e1) = step(m, fresh, end)->0;
    lemma_first_unique(m, 0, trig as int, r1.trig as int);
    lemma_step_wf(m, fresh, end);

    assert(r1.control.wanted(r1.buf_abs, end) == (Want::Ltf { start: trig }));
    let (r2, e2) = step(m, r1, end)->0;
    lemma_step_wf(m, r1, end);
    assert(r2.control.state == (State::Sig { anchor }));
    assert(e2 =~= Seq::<RxEvent>::empty());

    assert(rxv.ppdu_us() >= 280);
    assert(r2.control.wanted(r2.buf_abs, end) is Sig);
    let (r3, e3) = step(m, r2, end)->0;
    assert(r3.control.state == State::Data(d));
    assert(e3 == seq![RxEvent::RxStart { sample_index: anchor, rxvector: d.rxv }]);

    reveal_with_fuel(run, 4);
    assert(run(m, fresh, end, 3).0 == r3);
    assert(run(m, fresh, end, 3).1 =~= e1 + e3);
    let told = if cfg.emit_ppdu_start {
        seq![RxEvent::PpduStart { sample_index: trig }]
    } else {
        Seq::<RxEvent>::empty()
    };
    let cca = (Cca { in_ppdu: true, ..fresh.control.cca }).report(
        trig,
        Some(CcaReason::PreambleDetect),
    );
    assert(e1 == told + cca);
    lemma_heard_nothing(cca);
    lemma_heard_concat(told, cca);
    lemma_heard_concat(e1, e3);
    reveal_with_fuel(heard, 2);
    assert(heard(told) =~= told);
    assert(heard(e3) =~= e3);
    assert(heard(e1 + e3) =~= told + e3);
    d
}

/// A PPDU that is sent is received, whatever its coding, guard interval and
/// preamble: where a stream holds it whole and its bits are demodulated as they
/// were sent, the receiver, however it is fed, announces it with the
/// transmitter's parameters, delivers the octets that were sent (with
/// aggregation, filled to the capacity), and ends it without error. Nothing
/// else is heard.
pub proof fn lemma_sent_is_received(
    m: Signal,
    cfg: RxConfig,
    txv: &TxVector,
    psdu: Seq<u8>,
    seed: u8,
    trig: u64,
    o: u64,
    lag: int,
    pieces: Seq<Piece>,
    end: u64,
) -> (got: Vec<u8>)
    requires
        m.wf(),
        cfg.carrier_lost_symbols >= 1,
        psdu.len() <= usize::MAX,
        plan_error(txv, psdu.len() as usize) is None,
        1 <= seed <= 127,
        holds_ppdu(m, txv, psdu, seed, trig, o, lag, end),
        pieces.len() > 0,
        pieces.last().end == end,
        cuts(m, Rx::fresh(cfg), pieces, end),
    ensures
        got@ == delivered(txv, psdu),
        ({
            let (r, events) = received(m, Rx::fresh(cfg), pieces);
            let anchor = (trig + o) as u64;
            let d = data_begin(
                rxvector(txv, psdu),
                anchor,
                (m.sig)(trig, anchor).1,
                (m.sig)(trig, anchor).2,
            );
            &&& r.control.state is Search
            &&& describes(d.rxv, txv, geometry(txv, psdu), got@.len() as int)
            &&& d.end == end_of(txv, psdu, anchor as int)
            &&& heard(events) == start_heard(cfg, trig, d) + psdu_heard(d, got, seed)
        }),
{
    let fresh = Rx::fresh(cfg);
    let rxv = rxvector(txv, psdu);
    let content = announced(txv, geometry(txv, psdu));
    let anchor = (trig + o) as u64;
    let bits = bits_as_sent(txv, psdu, seed);
    let octets = carried_psdu(txv.fec_coding, bits, rxv.psdu_length as int);
    assert(o <= 480 && trig + 95 <= MAX_SAMPLES);
    lemma_sig_supported(txv, psdu);
    lemma_carried(txv, psdu, seed);
    let d = lemma_reaches_data(m, cfg, trig, o, content, rxv, end);
    let (there, first) = run(m, fresh, end, 3);
    lemma_run_wf(m, fresh, end, 3);
    let got = lemma_data_symbols(m, rxv, octets, seed, lag, end, there, d);
    let n = d.rxv.n_sym as nat;
    let (last, rest) = run(m, there, end, n);
    lemma_run_wf(m, there, end, n);
    lemma_run_on(m, fresh, end, 3, n);
    lemma_heard_concat(first, rest);
    assert(step(m, last, end) is None) by {
        lemma_search_step(m, last, end);
    }
    let k = lemma_pieces(m, cfg, pieces, end);
    lemma_run_end(m, fresh, end, k, 3 + n);
    got
}

} // verus!
