//! What is decoded does not depend on how the sample stream is cut into pieces.
//!
//! The receiver is followed over a whole stream: each piece that arrives is
//! searched for energy, and then the stages that [`Control`] asks for are run
//! until one of them lacks samples. What the signal processing measures is a
//! [`Signal`], a function of absolute positions.

use crate::rx::buffer::MAX_SAMPLES;
use crate::rx::{lemma_data_fills_ppdu, lemma_supported_single_stream, payload_at, spec_ppdu_end};
use crate::rx::{Cca, CcaReason, Control, DataState, RxConfig, RxEndStatus, RxEvent, State, Want};
use crate::sig::parse::lemma_verdict_bounds;
use crate::sig::{SigContent, SigError, SigVerdict};
use crate::tx::lemma_data_samples;
use crate::vector::RxVector;
use vstd::prelude::*;

pub mod ppdu;

verus! {

/// What one Data symbol shows.
pub struct Symbol {
    /// No signal.
    pub lost: bool,
    /// Window shift from the next symbol on.
    pub shift: i64,
    /// With the last symbol: the PSDU and the scrambler seed.
    pub psdu: Vec<u8>,
    pub scrambler_seed: u8,
}

/// What is measured on a stream. Positions are absolute, and what comes behind
/// a trigger depends on the stream and on where the trigger lies.
pub struct Signal {
    /// The energy-detect window at this position is above the threshold.
    pub energy: spec_fn(u64) -> bool,
    /// The 48 positions from this one on all show the period of the STF. That
    /// is seen from the 95 samples there.
    pub stf: spec_fn(int) -> bool,
    /// Where the first LTS period starts behind this trigger, if anywhere.
    pub ltf: spec_fn(u64) -> Option<u64>,
    /// The SIG field, RSSI and RCPI, by trigger and anchor.
    pub sig: spec_fn(u64, u64) -> (Result<SigContent, SigError>, u8, u8),
    /// The current Data symbol, by trigger and state.
    pub symbol: spec_fn(u64, DataState) -> Symbol,
}

impl Signal {
    /// Fields are within their ranges, and no Data window is moved to before
    /// the samples that are kept for it.
    pub open spec fn wf(&self) -> bool {
        &&& forall|trig: u64| (#[trigger] (self.ltf)(trig)) matches Some(o) ==> o <= 480
        &&& forall|trig: u64, anchor: u64|
            match (#[trigger] (self.sig)(trig, anchor)).0 {
                Ok(c) => c.wf(),
                Err(e) => e.wf(),
            }
        &&& forall|trig: u64, d: DataState| (#[trigger] (self.symbol)(trig, d)).shift >= -82
    }

    /// The first STF from `from` on starts at `s`.
    pub open spec fn first_stf(&self, from: int, s: int) -> bool {
        &&& from <= s
        &&& (self.stf)(s)
        &&& forall|t: int| from <= t < s ==> !(#[trigger] (self.stf)(t))
    }

    /// What a scan from `from` on finds in the samples before `end`.
    pub open spec fn found(&self, from: int, end: int) -> Option<u64> {
        if exists|s: int| self.first_stf(from, s) && s + 95 <= end {
            Some((choose|s: int| self.first_stf(from, s) && s + 95 <= end) as u64)
        } else {
            None
        }
    }
}

/// A receiver on its way through a stream.
pub struct Rx {
    pub control: Control,
    /// The trigger of the PPDU under reception.
    pub trig: u64,
    /// First sample that is still kept.
    pub buf_abs: u64,
}

impl Rx {
    /// A receiver before the first sample.
    pub open spec fn fresh(cfg: RxConfig) -> Rx {
        Rx { control: Control::idle(cfg), trig: 0, buf_abs: 0 }
    }

    /// The samples of every stage to come are kept.
    pub open spec fn wf(&self) -> bool {
        &&& self.control.wf()
        &&& match self.control.state {
            State::Search => self.buf_abs <= self.control.scan_abs,
            State::LtfSync { trig } => self.buf_abs <= trig && self.trig == trig,
            State::Sig { anchor } => self.buf_abs <= anchor,
            State::Data(d) => {
                &&& self.buf_abs + 88 <= payload_at(d.anchor as int, d.rxv, d.n as int)
                &&& self.buf_abs <= d.end
                &&& d.shift >= -82
            },
        }
    }

    /// Two receivers decode the same from here on: they are in the same stage,
    /// and where they search, the same STF comes first.
    pub open spec fn alike(&self, other: Rx, m: Signal) -> bool {
        &&& self.control.cfg == other.control.cfg
        &&& self.control.state == other.control.state
        &&& if self.control.state is Search {
            forall|s: int| #[trigger]
                m.first_stf(self.control.scan_abs as int, s) == m.first_stf(
                    other.control.scan_abs as int,
                    s,
                )
        } else {
            self.trig == other.trig
        }
    }
}

/// First sample that is still kept after a trim to `keep_from`.
pub open spec fn kept(buf_abs: u64, end: u64, keep_from: int) -> u64 {
    if keep_from - 8 <= buf_abs {
        buf_abs
    } else if keep_from - 8 >= end {
        end
    } else {
        (keep_from - 8) as u64
    }
}

/// Energy detection over the samples up to `end`, and the end of a hold.
pub open spec fn sense(m: Signal, c: Control, buf_abs: u64, end: u64) -> (Control, Seq<RxEvent>)
    decreases end - c.ed_abs,
{
    let d = Control {
        ed_abs: if c.ed_abs < buf_abs {
            buf_abs
        } else {
            c.ed_abs
        },
        ..c
    };
    if d.ed_abs + 80 <= end {
        let busy = (m.energy)(d.ed_abs);
        let (e, events) = sense(m, d.after_energy(busy), buf_abs, end);
        (e, d.energy_report(busy) + events)
    } else {
        (d.after_expiry(end), d.expiry_report(end))
    }
}

/// One Data symbol.
pub open spec fn data_step(m: Signal, r: Rx, d: DataState, end: u64) -> (Rx, Seq<RxEvent>) {
    let seen = (m.symbol)(r.trig, d);
    let c = r.control.after_carrier(d, seen.lost);
    let e = DataState { lost_run: Control::lost_run(d, seen.lost) as usize, ..d };
    if r.control.carrier_gone(d, seen.lost) {
        (Rx { control: c, ..r }, r.control.carrier_report(d, seen.lost))
    } else if d.n + 1 < d.rxv.n_sym {
        (
            Rx {
                control: c.after_symbol(e, seen.shift),
                buf_abs: kept(r.buf_abs, end, Control::needed_from(e)),
                ..r
            },
            Seq::empty(),
        )
    } else {
        (
            Rx { control: c.rearmed(e.end, e.end, None), ..r },
            c.psdu_report(e, seen.psdu, seen.scrambler_seed),
        )
    }
}

/// One stage on the samples up to `end`, or `None` where the due stage lacks
/// samples.
pub open spec fn step(m: Signal, r: Rx, end: u64) -> Option<(Rx, Seq<RxEvent>)> {
    let c = r.control;
    match c.wanted(r.buf_abs, end) {
        Want::More => None,
        Want::Search { from } => match m.found(from as int, end as int) {
            Some(trig) => Some(
                (
                    Rx { control: c.after_search(Some(trig), end), trig, ..r },
                    c.search_report(Some(trig)),
                ),
            ),
            None => None,
        },
        Want::Ltf { start } => {
            let o = (m.ltf)(start);
            Some((Rx { control: c.after_ltf(start, o), ..r }, c.ltf_report(start, o)))
        },
        Want::Sig { first: _, second: _ } => match c.state {
            State::Sig { anchor } => {
                let (sig, rssi, rcpi) = (m.sig)(r.trig, anchor);
                Some(
                    (
                        Rx { control: c.after_sig(anchor, sig, rssi, rcpi), ..r },
                        c.sig_report(anchor, sig, rssi, rcpi),
                    ),
                )
            },
            _ => None,
        },
        Want::Data { start: _, symbol: _ } => match c.state {
            State::Data(d) => Some(data_step(m, r, d, end)),
            _ => None,
        },
    }
}

/// At most `n` stages, one after the other.
pub open spec fn run(m: Signal, r: Rx, end: u64, n: nat) -> (Rx, Seq<RxEvent>)
    decreases n,
{
    if n == 0 {
        (r, Seq::empty())
    } else {
        match step(m, r, end) {
            None => (r, Seq::empty()),
            Some((next, events)) => {
                let (last, more) = run(m, next, end, (n - 1) as nat);
                (last, events + more)
            },
        }
    }
}

/// The receiver waits for more samples; a scan that found nothing lets go of
/// what it has seen.
pub open spec fn settled(r: Rx, end: u64) -> Rx {
    if r.control.state is Search {
        let c = r.control.after_search(None, end);
        Rx { control: c, buf_abs: kept(r.buf_abs, end, c.scan_abs as int), ..r }
    } else {
        r
    }
}

/// A piece of the stream: it ends at this sample, and this many stages are run
/// on it at most.
pub struct Piece {
    pub end: u64,
    pub stages: nat,
}

/// The receiver on a piece, after energy detection.
pub open spec fn sensed(m: Signal, r: Rx, p: Piece) -> (Rx, Seq<RxEvent>) {
    let (c, events) = sense(m, r.control, r.buf_abs, p.end);
    (Rx { control: c, ..r }, events)
}

/// The receiver after a piece.
pub open spec fn process(m: Signal, r: Rx, p: Piece) -> (Rx, Seq<RxEvent>) {
    let (start, events) = sensed(m, r, p);
    let (last, more) = run(m, start, p.end, p.stages);
    (settled(last, p.end), events + more)
}

/// The stages run on a piece are all that can be run.
pub open spec fn exhausts(m: Signal, r: Rx, p: Piece) -> bool {
    step(m, run(m, sensed(m, r, p).0, p.end, p.stages).0, p.end) is None
}

/// The receiver after all pieces.
pub open spec fn received(m: Signal, r: Rx, pieces: Seq<Piece>) -> (Rx, Seq<RxEvent>)
    decreases pieces.len(),
{
    if pieces.len() == 0 {
        (r, Seq::empty())
    } else {
        let (before, events) = received(m, r, pieces.drop_last());
        let (last, more) = process(m, before, pieces.last());
        (last, events + more)
    }
}

/// The pieces follow each other, `end` is not before the last of them, and on
/// each piece all is run that can be.
pub open spec fn cuts(m: Signal, r: Rx, pieces: Seq<Piece>, end: u64) -> bool
    decreases pieces.len(),
{
    pieces.len() > 0 ==> {
        &&& pieces.last().end <= end
        &&& cuts(m, r, pieces.drop_last(), pieces.last().end)
        &&& exhausts(m, received(m, r, pieces.drop_last()).0, pieces.last())
    }
}

/// What the MAC hears apart from CCA: starts, NDPs, PSDUs and ends.
pub open spec fn heard(events: Seq<RxEvent>) -> Seq<RxEvent>
    decreases events.len(),
{
    if events.len() == 0 {
        Seq::empty()
    } else if events.last() is Cca {
        heard(events.drop_last())
    } else {
        heard(events.drop_last()).push(events.last())
    }
}

proof fn lemma_heard_concat(a: Seq<RxEvent>, b: Seq<RxEvent>)
    ensures
        heard(a + b) == heard(a) + heard(b),
    decreases b.len(),
{
    if b.len() == 0 {
        assert(a + b =~= a);
        assert(heard(a) + heard(b) =~= heard(a));
    } else {
        lemma_heard_concat(a, b.drop_last());
        assert((a + b).drop_last() =~= a + b.drop_last());
        assert((a + b).last() == b.last());
        assert(heard(a + b) =~= heard(a) + heard(b));
    }
}

/// Events that are all about CCA are not heard.
proof fn lemma_heard_nothing(events: Seq<RxEvent>)
    requires
        events.len() <= 1,
        events.len() == 1 ==> events[0] is Cca,
    ensures
        heard(events) == Seq::<RxEvent>::empty(),
{
    reveal_with_fuel(heard, 2);
}

proof fn lemma_first_exists(m: Signal, from: int, t: int) -> (s: int)
    requires
        from <= t,
        (m.stf)(t),
    ensures
        s <= t,
        m.first_stf(from, s),
    decreases t - from,
{
    if (m.stf)(from) {
        from
    } else {
        let s = lemma_first_exists(m, from + 1, t);
        assert forall|u: int| from <= u < s implies !(#[trigger] (m.stf)(u)) by {
            if u > from {
                assert(from + 1 <= u);
            }
        }
        s
    }
}

proof fn lemma_first_unique(m: Signal, from: int, s: int, t: int)
    requires
        m.first_stf(from, s),
        m.first_stf(from, t),
    ensures
        s == t,
{
    if s < t {
        assert(!(m.stf)(s));
    }
    if t < s {
        assert(!(m.stf)(t));
    }
}

proof fn lemma_found(m: Signal, from: int, end: int, s: int)
    requires
        0 <= from,
        end <= MAX_SAMPLES,
    ensures
        m.first_stf(from, s) && s + 95 <= end ==> m.found(from, end) == Some(s as u64),
        m.found(from, end) matches Some(t) ==> m.first_stf(from, t as int) && t + 95 <= end,
{
    if exists|u: int| m.first_stf(from, u) && u + 95 <= end {
        let u = choose|u: int| m.first_stf(from, u) && u + 95 <= end;
        if m.first_stf(from, s) {
            lemma_first_unique(m, from, s, u);
        }
    }
}

/// Where a search is due, the first STF from the scan position on is found once
/// its samples are there.
proof fn lemma_search_step(m: Signal, r: Rx, end: u64)
    requires
        r.wf(),
        r.control.state is Search,
        end <= MAX_SAMPLES,
        r.buf_abs <= end,
    ensures
        step(m, r, end) matches Some((next, _)) ==> m.first_stf(
            r.control.scan_abs as int,
            next.trig as int,
        ) && next.trig + 95 <= end && step(m, r, end) == Some(
            (
                Rx {
                    control: r.control.after_search(Some(next.trig), end),
                    trig: next.trig,
                    ..r
                },
                r.control.search_report(Some(next.trig)),
            ),
        ),
        forall|s: int|
            #[trigger] m.first_stf(r.control.scan_abs as int, s) && s + 95 <= end ==> step(
                m,
                r,
                end,
            ) is Some,
{
    let scan = r.control.scan_abs;
    let from = if scan > end {
        end
    } else {
        scan
    };
    assert(r.control.wanted(r.buf_abs, end) == (Want::Search { from }));
    lemma_found(m, from as int, end as int, 0);
    assert forall|s: int| #[trigger] m.first_stf(scan as int, s) && s + 95 <= end implies step(
        m,
        r,
        end,
    ) is Some by {
        lemma_found(m, from as int, end as int, s);
    }
}

/// A search that found nothing goes on later without missing anything.
proof fn lemma_settled(m: Signal, r: Rx, end: u64)
    requires
        r.wf(),
        r.buf_abs <= end <= MAX_SAMPLES,
        step(m, r, end) is None,
    ensures
        settled(r, end).wf(),
        settled(r, end).buf_abs <= end,
        settled(r, end).alike(r, m),
{
    if r.control.state is Search {
        let scan = r.control.scan_abs as int;
        let next = settled(r, end).control.scan_abs as int;
        lemma_search_step(m, r, end);
        assert forall|s: int| #[trigger] m.first_stf(next, s) == m.first_stf(scan, s) by {
            if m.first_stf(scan, s) {
                assert(s + 95 > end);
                assert(next <= s);
            }
            if m.first_stf(next, s) {
                assert forall|t: int| scan <= t < s implies !(#[trigger] (m.stf)(t)) by {
                    if (m.stf)(t) && t < next {
                        let u = lemma_first_exists(m, scan, t);
                        assert(u + 95 <= end);
                    }
                }
            }
        }
    }
}

/// Payloads of consecutive Data symbols lie a symbol apart, and all of them
/// before the end of the PPDU.
proof fn lemma_payload_order(d: DataState)
    requires
        d.n < d.rxv.n_sym,
        d.rxv.num_sts == 1,
        d.end == spec_ppdu_end(d.anchor as int, d.rxv.ppdu_us()),
    ensures
        payload_at(d.anchor as int, d.rxv, d.n as int) + 64 <= d.end,
        payload_at(d.anchor as int, d.rxv, d.n as int) >= d.anchor + 296,
        d.n + 1 < d.rxv.n_sym ==> payload_at(d.anchor as int, d.rxv, d.n + 1) >= payload_at(
            d.anchor as int,
            d.rxv,
            d.n as int,
        ) + 72,
{
    lemma_data_fills_ppdu(d.anchor as int, d.rxv);
    lemma_data_samples(d.rxv.gi, d.n as int);
    lemma_data_samples(d.rxv.gi, d.n + 1);
    lemma_data_samples(d.rxv.gi, d.rxv.n_sym - 1);
}

/// The SIG field leads to a state whose samples are kept.
proof fn lemma_sig_wf(
    r: Rx,
    anchor: u64,
    sig: Result<SigContent, SigError>,
    rssi: u8,
    rcpi: u8,
)
    requires
        r.wf(),
        r.control.state == (State::Sig { anchor }),
        match sig {
            Ok(c) => c.wf(),
            Err(e) => e.wf(),
        },
    ensures
        (Rx { control: r.control.after_sig(anchor, sig, rssi, rcpi), ..r }).wf(),
{
    match sig {
        Ok(content) => {
            lemma_verdict_bounds(content);
            lemma_supported_single_stream(content);
            match content.spec_verdict() {
                Some(SigVerdict::Supported(_)) => {
                    let next = r.control.after_sig(anchor, sig, rssi, rcpi);
                    match next.state {
                        State::Data(d) => {
                            lemma_payload_order(d);
                        },
                        _ => {},
                    }
                },
                _ => {},
            }
        },
        Err(_) => {},
    }
}

proof fn lemma_step_wf(m: Signal, r: Rx, end: u64)
    requires
        m.wf(),
        r.wf(),
        r.buf_abs <= end <= MAX_SAMPLES,
    ensures
        step(m, r, end) matches Some((next, _)) ==> next.wf() && next.buf_abs <= end,
{
    match r.control.state {
        State::Search => {
            lemma_search_step(m, r, end);
        },
        State::LtfSync { trig } => {
            assert((m.ltf)(trig) matches Some(o) ==> o <= 480);
        },
        State::Sig { anchor } => {
            let (sig, rssi, rcpi) = (m.sig)(r.trig, anchor);
            lemma_sig_wf(r, anchor, sig, rssi, rcpi);
        },
        State::Data(d) => {
            lemma_payload_order(d);
            assert((m.symbol)(r.trig, d).shift >= -82);
        },
    }
}

/// Leaving a PPDU is heard by CCA only.
proof fn lemma_left_unheard(c: Control, at: u64, hold: Option<u64>)
    ensures
        heard(c.cca.left_report(at, hold)) == Seq::<RxEvent>::empty(),
{
    lemma_heard_nothing(c.cca.left_report(at, hold));
}

/// Two reports that differ in their CCA events only sound the same.
proof fn lemma_heard_same(told: Seq<RxEvent>, a: Seq<RxEvent>, b: Seq<RxEvent>)
    requires
        heard(a) == Seq::<RxEvent>::empty(),
        heard(b) == Seq::<RxEvent>::empty(),
    ensures
        heard(told + a) == heard(told + b),
{
    lemma_heard_concat(told, a);
    lemma_heard_concat(told, b);
}

/// What is heard of a SIG field does not depend on CCA.
proof fn lemma_sig_heard(
    a: Control,
    b: Control,
    anchor: u64,
    sig: Result<SigContent, SigError>,
    rssi: u8,
    rcpi: u8,
)
    ensures
        heard(a.sig_report(anchor, sig, rssi, rcpi)) == heard(
            b.sig_report(anchor, sig, rssi, rcpi),
        ),
{
    let at = (anchor + 288) as u64;
    let violation = seq![
        RxEvent::RxEnd {
            sample_index: anchor,
            status: RxEndStatus::FormatViolation,
        },
    ];
    lemma_left_unheard(a, at, None);
    lemma_left_unheard(b, at, None);
    match sig {
        Ok(SigContent::Ndp { body }) => {
            lemma_heard_same(
                seq![RxEvent::NdpReceived { sample_index: at, body }],
                a.cca.left_report(at, None),
                b.cca.left_report(at, None),
            );
        },
        Ok(content) => match content.spec_verdict() {
            Some(SigVerdict::Unsupported(r, why)) => {
                let hold = Some(
                    spec_ppdu_end(anchor as int, r.ppdu_us()) as u64,
                );
                lemma_left_unheard(a, at, hold);
                lemma_left_unheard(b, at, hold);
                lemma_heard_same(
                    seq![
                        RxEvent::RxStart {
                            sample_index: anchor,
                            rxvector: Control::measured(r, rssi, rcpi),
                        },
                        RxEvent::RxEnd {
                            sample_index: anchor,
                            status: RxEndStatus::UnsupportedRate(why),
                        },
                    ],
                    a.cca.left_report(at, hold),
                    b.cca.left_report(at, hold),
                );
            },
            Some(SigVerdict::Reserved { reason: _, duration_us }) => {
                let hold = Control::hold_for(anchor as int, duration_us);
                lemma_left_unheard(a, at, hold);
                lemma_left_unheard(b, at, hold);
                lemma_heard_same(
                    violation,
                    a.cca.left_report(at, hold),
                    b.cca.left_report(at, hold),
                );
            },
            _ => {},
        },
        Err(SigError::CrcFailed) => {
            lemma_heard_same(
                violation,
                a.cca.left_report(at, None),
                b.cca.left_report(at, None),
            );
        },
        Err(SigError::Reserved { reason: _, duration_us }) => {
            let hold = Control::hold_for(anchor as int, duration_us);
            lemma_left_unheard(a, at, hold);
            lemma_left_unheard(b, at, hold);
            lemma_heard_same(
                violation,
                a.cca.left_report(at, hold),
                b.cca.left_report(at, hold),
            );
        },
    }
}

/// What is heard of a Data symbol does not depend on CCA.
proof fn lemma_data_heard(m: Signal, a: Rx, b: Rx, d: DataState, a_end: u64, b_end: u64)
    requires
        a.control.cfg == b.control.cfg,
        a.trig == b.trig,
    ensures
        heard(data_step(m, a, d, a_end).1) == heard(data_step(m, b, d, b_end).1),
{
    let seen = (m.symbol)(a.trig, d);
    let at = Control::payload(d) as u64;
    let e = DataState { lost_run: Control::lost_run(d, seen.lost) as usize, ..d };
    if a.control.carrier_gone(d, seen.lost) {
        lemma_left_unheard(a.control, at, Some(d.end));
        lemma_left_unheard(b.control, at, Some(d.end));
        lemma_heard_same(
            seq![
                RxEvent::RxEnd { sample_index: at, status: RxEndStatus::CarrierLost },
            ],
            a.control.cca.left_report(at, Some(d.end)),
            b.control.cca.left_report(at, Some(d.end)),
        );
    } else {
        let ac = a.control.after_carrier(d, seen.lost);
        let bc = b.control.after_carrier(d, seen.lost);
        lemma_left_unheard(ac, e.end, None);
        lemma_left_unheard(bc, e.end, None);
        let told = seq![
            RxEvent::PsduReceived {
                sample_index: e.end,
                rxvector: RxVector { scrambler_seed: seen.scrambler_seed, ..e.rxv },
                psdu: seen.psdu,
            },
            RxEvent::RxEnd {
                sample_index: e.end,
                status: RxEndStatus::NoError,
            },
        ];
        lemma_heard_same(told, ac.cca.left_report(e.end, None), bc.cca.left_report(e.end, None));
    }
}

/// Receivers that are alike take the same step, also with more samples.
proof fn lemma_step_alike(m: Signal, a: Rx, b: Rx, a_end: u64, b_end: u64)
    requires
        m.wf(),
        a.wf(),
        b.wf(),
        a.alike(b, m),
        a.buf_abs <= a_end <= b_end <= MAX_SAMPLES,
        b.buf_abs <= b_end,
        step(m, a, a_end) is Some,
    ensures
        step(m, b, b_end) is Some,
        (step(m, a, a_end)->0).0.alike((step(m, b, b_end)->0).0, m),
        heard((step(m, a, a_end)->0).1) == heard((step(m, b, b_end)->0).1),
{
    match a.control.state {
        State::Search => {
            lemma_search_step(m, a, a_end);
            lemma_search_step(m, b, b_end);
            let s = (step(m, a, a_end)->0).0.trig;
            assert(m.first_stf(a.control.scan_abs as int, s as int));
            assert(m.first_stf(b.control.scan_abs as int, s as int));
            let t = (step(m, b, b_end)->0).0.trig;
            lemma_first_unique(m, b.control.scan_abs as int, s as int, t as int);
            let told = if a.control.cfg.emit_ppdu_start {
                seq![RxEvent::PpduStart { sample_index: s }]
            } else {
                Seq::<RxEvent>::empty()
            };
            let ra = (Cca { in_ppdu: true, ..a.control.cca }).report(
                s,
                Some(CcaReason::PreambleDetect),
            );
            let rb = (Cca { in_ppdu: true, ..b.control.cca }).report(
                s,
                Some(CcaReason::PreambleDetect),
            );
            lemma_heard_nothing(ra);
            lemma_heard_nothing(rb);
            lemma_heard_same(told, ra, rb);
        },
        State::LtfSync { trig } => {
            lemma_left_unheard(a.control, (trig + 64) as u64, None);
            lemma_left_unheard(b.control, (trig + 64) as u64, None);
        },
        State::Sig { anchor } => {
            let (sig, rssi, rcpi) = (m.sig)(a.trig, anchor);
            lemma_sig_heard(a.control, b.control, anchor, sig, rssi, rcpi);
            if let Ok(c) = sig {
                lemma_verdict_bounds(c);
            }
        },
        State::Data(d) => {
            lemma_payload_order(d);
            lemma_data_heard(m, a, b, d, a_end, b_end);
        },
    }
}

/// Energy detection changes nothing but CCA.
proof fn lemma_sense(m: Signal, c: Control, buf_abs: u64, end: u64)
    requires
        c.wf(),
        buf_abs <= end <= MAX_SAMPLES,
    ensures
        ({
            let (d, events) = sense(m, c, buf_abs, end);
            &&& d.wf()
            &&& d.cfg == c.cfg
            &&& d.state == c.state
            &&& d.scan_abs == c.scan_abs
            &&& heard(events) == Seq::<RxEvent>::empty()
        }),
    decreases end - c.ed_abs,
{
    let d = Control {
        ed_abs: if c.ed_abs < buf_abs {
            buf_abs
        } else {
            c.ed_abs
        },
        ..c
    };
    if d.ed_abs + 80 <= end {
        let busy = (m.energy)(d.ed_abs);
        lemma_sense(m, d.after_energy(busy), buf_abs, end);
        lemma_heard_nothing(d.energy_report(busy));
        lemma_heard_concat(
            d.energy_report(busy),
            sense(m, d.after_energy(busy), buf_abs, end).1,
        );
    } else {
        lemma_heard_nothing(d.expiry_report(end));
    }
}

proof fn lemma_run_wf(m: Signal, r: Rx, end: u64, n: nat)
    requires
        m.wf(),
        r.wf(),
        r.buf_abs <= end <= MAX_SAMPLES,
    ensures
        run(m, r, end, n).0.wf(),
        run(m, r, end, n).0.buf_abs <= end,
    decreases n,
{
    if n > 0 {
        lemma_step_wf(m, r, end);
        match step(m, r, end) {
            None => {},
            Some((next, _)) => {
                lemma_run_wf(m, next, end, (n - 1) as nat);
            },
        }
    }
}

/// Stages run in two goes are the same stages.
proof fn lemma_run_on(m: Signal, r: Rx, end: u64, j: nat, k: nat)
    ensures
        run(m, r, end, j + k).0 == run(m, run(m, r, end, j).0, end, k).0,
        run(m, r, end, j + k).1 == run(m, r, end, j).1 + run(m, run(m, r, end, j).0, end, k).1,
    decreases j,
{
    if j == 0 {
        assert(Seq::<RxEvent>::empty() + run(m, r, end, k).1 =~= run(m, r, end, k).1);
    } else {
        match step(m, r, end) {
            None => {
                assert(run(m, r, end, k).1 =~= Seq::<RxEvent>::empty());
                assert(Seq::<RxEvent>::empty() + Seq::<RxEvent>::empty() =~= Seq::<
                    RxEvent,
                >::empty());
            },
            Some((next, events)) => {
                let i = (j - 1) as nat;
                lemma_run_on(m, next, end, i, k);
                assert((j + k - 1) as nat == i + k);
                let first = run(m, next, end, i);
                let rest = run(m, first.0, end, k).1;
                assert(events + (first.1 + rest) =~= (events + first.1) + rest);
            },
        }
    }
}

/// Where nothing more can be run, more goes change nothing.
proof fn lemma_run_end(m: Signal, r: Rx, end: u64, j: nat, k: nat)
    requires
        step(m, run(m, r, end, j).0, end) is None,
        step(m, run(m, r, end, k).0, end) is None,
    ensures
        run(m, r, end, j) == run(m, r, end, k),
    decreases (if j > k {
        1nat
    } else {
        0
    }),
{
    if j > k {
        lemma_run_end(m, r, end, k, j);
    } else {
        let d = (k - j) as nat;
        lemma_run_on(m, r, end, j, d);
        assert(j + d == k);
        assert(run(m, run(m, r, end, j).0, end, d).1 =~= Seq::<RxEvent>::empty());
        assert(run(m, r, end, k).1 =~= run(m, r, end, j).1);
    }
}

/// Receivers that are alike run through the same stages, also with more
/// samples; `k` says through how many.
proof fn lemma_run_alike(m: Signal, a: Rx, b: Rx, a_end: u64, b_end: u64, n: nat) -> (k: nat)
    requires
        m.wf(),
        a.wf(),
        b.wf(),
        a.alike(b, m),
        a.buf_abs <= a_end <= b_end <= MAX_SAMPLES,
        b.buf_abs <= b_end,
    ensures
        run(m, a, a_end, n).0.alike(run(m, b, b_end, k).0, m),
        heard(run(m, a, a_end, n).1) == heard(run(m, b, b_end, k).1),
    decreases n,
{
    if n == 0 {
        0
    } else {
        match step(m, a, a_end) {
            None => 0,
            Some((next_a, events_a)) => {
                lemma_step_alike(m, a, b, a_end, b_end);
                lemma_step_wf(m, a, a_end);
                lemma_step_wf(m, b, b_end);
                let (next_b, events_b) = step(m, b, b_end)->0;
                let k = lemma_run_alike(m, next_a, next_b, a_end, b_end, (n - 1) as nat);
                lemma_heard_concat(events_a, run(m, next_a, a_end, (n - 1) as nat).1);
                lemma_heard_concat(events_b, run(m, next_b, b_end, k).1);
                assert((k + 1 - 1) as nat == k);
                k + 1
            },
        }
    }
}

/// A receiver on pieces of a stream hears what it would hear with all samples
/// there from the start; `k` says after how many stages.
proof fn lemma_pieces(m: Signal, cfg: RxConfig, pieces: Seq<Piece>, end: u64) -> (k: nat)
    requires
        m.wf(),
        cuts(m, Rx::fresh(cfg), pieces, end),
        end <= MAX_SAMPLES,
    ensures
        ({
            let (r, events) = received(m, Rx::fresh(cfg), pieces);
            let (whole, all) = run(m, Rx::fresh(cfg), end, k);
            &&& r.wf()
            &&& r.buf_abs <= end
            &&& pieces.len() > 0 ==> r.buf_abs <= pieces.last().end
            &&& pieces.len() == 0 ==> r.buf_abs == 0
            &&& r.alike(whole, m)
            &&& heard(events) == heard(all)
            &&& pieces.len() > 0 && pieces.last().end == end ==> step(m, whole, end) is None
        }),
    decreases pieces.len(),
{
    let fresh = Rx::fresh(cfg);
    if pieces.len() == 0 {
        0
    } else {
        let head = pieces.drop_last();
        let p = pieces.last();
        assert(cuts(m, fresh, head, end)) by {
            assert(cuts(m, fresh, head, p.end));
        }
        let j = lemma_pieces(m, cfg, head, end);
        let (before, events) = received(m, fresh, head);
        let (whole, all) = run(m, fresh, end, j);
        assert(before.buf_abs <= p.end) by {
            assert(cuts(m, fresh, head, p.end));
        }
        lemma_run_wf(m, fresh, end, j);
        lemma_sense(m, before.control, before.buf_abs, p.end);
        let (start, sounds) = sensed(m, before, p);
        assert(start.alike(whole, m));
        lemma_run_wf(m, start, p.end, p.stages);
        let k = lemma_run_alike(m, start, whole, p.end, end, p.stages);
        let (last, more) = run(m, start, p.end, p.stages);
        let (there, rest) = run(m, whole, end, k);
        lemma_run_wf(m, whole, end, k);
        lemma_run_on(m, fresh, end, j, k);
        lemma_heard_concat(sounds, more);
        lemma_heard_concat(events, sounds + more);
        lemma_heard_concat(all, rest);
        assert(Seq::<RxEvent>::empty() + heard(more) =~= heard(more));
        lemma_settled(m, last, p.end);
        if p.end == end && step(m, there, end) is Some {
            lemma_step_alike(m, there, last, end, end);
        }
        j + k
    }
}

/// What is heard at the end of the stream does not depend on CCA.
proof fn lemma_finish_heard(
    a: Control,
    b: Control,
    events_a: Seq<RxEvent>,
    events_b: Seq<RxEvent>,
    end: u64,
)
    requires
        a.state == b.state,
        heard(events_a) == heard(events_b),
    ensures
        heard(events_a + a.finish_report(end)) == heard(events_b + b.finish_report(end)),
{
    let truncated = if a.state is Search {
        Seq::<RxEvent>::empty()
    } else {
        seq![RxEvent::RxEnd { sample_index: end, status: RxEndStatus::Truncated }]
    };
    let ca = a.after_reset(end).cca.report(end, None);
    let cb = b.after_reset(end).cca.report(end, None);
    lemma_heard_nothing(ca);
    lemma_heard_nothing(cb);
    lemma_heard_same(truncated, ca, cb);
    lemma_heard_concat(events_a, truncated + ca);
    lemma_heard_concat(events_b, truncated + cb);
}

/// What is heard does not depend on the chunking: two receivers of one stream,
/// however each is fed, end up in the same stage, and have heard the same
/// starts, NDPs, PSDUs and ends, in the same order. Only CCA may be reported
/// otherwise.
pub proof fn lemma_chunking(m: Signal, cfg: RxConfig, a: Seq<Piece>, b: Seq<Piece>, end: u64)
    requires
        m.wf(),
        end <= MAX_SAMPLES,
        a.len() > 0,
        b.len() > 0,
        a.last().end == end,
        b.last().end == end,
        cuts(m, Rx::fresh(cfg), a, end),
        cuts(m, Rx::fresh(cfg), b, end),
    ensures
        ({
            let (ra, heard_a) = received(m, Rx::fresh(cfg), a);
            let (rb, heard_b) = received(m, Rx::fresh(cfg), b);
            &&& ra.control.state == rb.control.state
            &&& heard(heard_a) == heard(heard_b)
            &&& heard(heard_a + ra.control.finish_report(end)) == heard(
                heard_b + rb.control.finish_report(end),
            )
        }),
{
    let fresh = Rx::fresh(cfg);
    let j = lemma_pieces(m, cfg, a, end);
    let k = lemma_pieces(m, cfg, b, end);
    lemma_run_end(m, fresh, end, j, k);
    let (ra, events_a) = received(m, fresh, a);
    let (rb, events_b) = received(m, fresh, b);
    lemma_finish_heard(ra.control, rb.control, events_a, events_b, end);
}

} // verus!
