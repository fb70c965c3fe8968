//! What the receive state machine does, on its fields: when CCA is BUSY and what
//! it reports, which samples each stage reads, and where a PPDU leads.

use crate::rx::{Cca, CcaReason, Control, DataState, RxConfig, RxEndStatus, RxEvent, State, Want};
use crate::sig::{SigContent, SigError, SigVerdict};
use crate::tx::lemma_data_samples;
use crate::vector::{GuardInterval, PreambleType, RxVector};
use vstd::prelude::*;

verus! {

/// After any update at sample `at` CCA is BUSY if the last energy-detect window
/// was above the threshold, if a PPDU is being received, or if a hold runs past
/// `at`, in every combination of these, and IDLE only where none of the three
/// holds. The grounds stay as they are, but for a hold that has run out.
pub proof fn lemma_cca_busy_iff(c: Cca, at: u64)
    ensures
        c.updated(at).busy <==> (c.ed_busy || c.in_ppdu || (c.hold_until matches Some(until) && at
            < until)),
        c.updated(at).ed_busy == c.ed_busy,
        c.updated(at).in_ppdu == c.in_ppdu,
        c.updated(at).emit == c.emit,
        c.hold_until matches Some(until) ==> c.updated(at).hold_until == (if at < until {
            Some(until)
        } else {
            None
        }),
        c.hold_until is None ==> c.updated(at).hold_until is None,
{
}

/// An update reports exactly a change between BUSY and IDLE, where events are
/// wanted: one event, with the sample, the new state, for BUSY the given reason
/// or else the strongest ground (a hold, then a PPDU, then energy), and the
/// microseconds that a hold still runs, at two samples each.
pub proof fn lemma_cca_report(c: Cca, at: u64, reason: Option<CcaReason>)
    ensures
        ({
            let held = c.hold_until matches Some(until) && at < until;
            let busy = c.ed_busy || c.in_ppdu || held;
            let r = c.report(at, reason);
            if !c.emit || c.busy == busy {
                r.len() == 0
            } else {
                &&& r.len() == 1
                &&& r[0] matches RxEvent::Cca { sample_index, busy: told, reason: why, hold_us } && {
                    &&& sample_index == at
                    &&& told == busy
                    &&& why == if !busy {
                        None
                    } else if reason is Some {
                        reason
                    } else if held {
                        Some(CcaReason::PpduHold)
                    } else if c.in_ppdu {
                        Some(CcaReason::PreambleDetect)
                    } else {
                        Some(CcaReason::EnergyDetect)
                    }
                    &&& !held ==> hold_us == 0
                    &&& held && (c.hold_until->0 - at) / 2 <= u32::MAX ==> hold_us == (
                    c.hold_until->0 - at) / 2
                }
            }
        }),
{
}

/// Leaving a PPDU at `at`: no PPDU is being received any more, and energy detect
/// is untouched. A hold that reaches past `at` keeps CCA BUSY, lasts at least as
/// long as any hold before it, and is reported with its length though CCA was
/// BUSY already; otherwise what is left of the grounds decides.
pub proof fn lemma_leaving_ppdu(c: Cca, at: u64, hold: Option<u64>)
    ensures
        ({
            let d = c.left_ppdu(at, hold);
            let r = c.left_report(at, hold);
            &&& !d.in_ppdu && d.ed_busy == c.ed_busy && d.emit == c.emit
            &&& hold matches Some(h) ==> h > at ==> {
                &&& d.busy
                &&& d.hold_until == match c.hold_until {
                    Some(cur) => if cur < h {
                        Some(h)
                    } else {
                        Some(cur)
                    },
                    None => Some(h),
                }
                &&& c.emit ==> r.len() == 1 && (r[0] matches RxEvent::Cca {
                    sample_index,
                    busy,
                    reason,
                    hold_us,
                } && sample_index == at && busy && reason == Some(CcaReason::PpduHold) && ((h - at)
                    / 2 <= u32::MAX ==> hold_us == (h - at) / 2))
                &&& !c.emit ==> r.len() == 0
            }
            &&& (hold matches Some(h) ==> h <= at) ==> {
                let held = c.hold_until matches Some(until) && at < until;
                &&& d.busy == (c.ed_busy || held)
                &&& d.hold_until == if held { c.hold_until } else { None }
                &&& (c.emit && c.busy != d.busy) ==> r.len() == 1 && (r[0] matches RxEvent::Cca {
                    sample_index,
                    busy,
                    reason,
                    hold_us: _,
                } && sample_index == at && busy == d.busy && reason == if !d.busy {
                    None
                } else if held {
                    Some(CcaReason::PpduHold)
                } else {
                    Some(CcaReason::EnergyDetect)
                })
                &&& (!c.emit || c.busy == d.busy) ==> r.len() == 0
            }
        }),
{
}

/// A new receiver is IDLE, searches from the first sample on, and reports CCA
/// where its options say so.
pub proof fn lemma_idle_start(cfg: RxConfig)
    ensures
        ({
            let c = Control::idle(cfg);
            &&& c.cfg == cfg && c.state == State::Search && c.scan_abs == 0 && c.ed_abs == 0
            &&& !c.cca.busy && !c.cca.ed_busy && !c.cca.in_ppdu && c.cca.hold_until is None
            &&& c.cca.emit == cfg.emit_cca
        }),
{
}

/// Finding a preamble makes the channel BUSY and never IDLE; where it was BUSY
/// already, no CCA event tells so again. The PPDU's start is reported where the
/// options say so, before the CCA event, at the sample where the STF was seen,
/// and the LTF is looked for from there.
pub proof fn lemma_preamble_found(c: Control, trig: u64, end_abs: u64)
    ensures
        ({
            let d = c.after_search(Some(trig), end_abs);
            let r = c.search_report(Some(trig));
            let n: int = if c.cfg.emit_ppdu_start { 1 } else { 0 };
            &&& d.cca.busy && d.cca.in_ppdu
            &&& d.cca.ed_busy == c.cca.ed_busy
            &&& d.state == State::LtfSync { trig }
            &&& d.scan_abs == c.scan_abs && d.ed_abs == c.ed_abs && d.cfg == c.cfg
            &&& r.len() == n + (if c.cca.emit && !c.cca.busy { 1int } else { 0 })
            &&& c.cfg.emit_ppdu_start ==> r[0] == (RxEvent::PpduStart { sample_index: trig })
            &&& c.cca.emit && !c.cca.busy ==> (r[n] matches RxEvent::Cca {
                sample_index,
                busy,
                reason,
                hold_us: _,
            } && sample_index == trig && busy && reason == Some(CcaReason::PreambleDetect))
        }),
{
}

/// A scan that found nothing reports nothing and changes nothing but where the
/// next one starts: 112 samples before the end, and never further back than
/// before.
pub proof fn lemma_nothing_found(c: Control, end_abs: u64)
    ensures
        ({
            let d = c.after_search(None, end_abs);
            &&& c.search_report(None).len() == 0
            &&& d.scan_abs == if end_abs > 112 + c.scan_abs {
                end_abs - 112
            } else {
                c.scan_abs as int
            }
            &&& d.state == c.state && d.cca == c.cca && d.ed_abs == c.ed_abs && d.cfg == c.cfg
        }),
{
}

/// A measured energy-detect window of 80 samples: the next one follows it, and
/// the last one decides whether energy is a ground for BUSY. Where that changed,
/// CCA is as its grounds are at the window's end, and a change to BUSY or IDLE is
/// reported, for BUSY with energy detect as the reason; where it did not change,
/// nothing is reported.
pub proof fn lemma_energy_window(c: Control, busy: bool)
    requires
        c.ed_abs + 80 <= u64::MAX,
    ensures
        ({
            let d = c.after_energy(busy);
            let r = c.energy_report(busy);
            let at = c.ed_abs + 80;
            let held = c.cca.hold_until matches Some(until) && at < until;
            &&& d.ed_abs == at && d.cca.ed_busy == busy && d.cca.in_ppdu == c.cca.in_ppdu
            &&& d.state == c.state && d.scan_abs == c.scan_abs && d.cfg == c.cfg
            &&& busy == c.cca.ed_busy ==> d.cca == c.cca && r.len() == 0
            &&& busy != c.cca.ed_busy ==> {
                let now = busy || c.cca.in_ppdu || held;
                &&& d.cca.busy == now
                &&& r.len() == if c.cca.emit && now != c.cca.busy { 1int } else { 0 }
                &&& r.len() == 1 ==> (r[0] matches RxEvent::Cca {
                    sample_index,
                    busy: told,
                    reason,
                    hold_us: _,
                } && sample_index == at && told == now && reason == if now {
                    Some(CcaReason::EnergyDetect)
                } else {
                    None
                })
            }
        }),
{
}

/// A hold runs out at its own sample, once the stream has reached it, and not
/// before; CCA is IDLE from then on unless energy or a PPDU keeps it BUSY.
pub proof fn lemma_hold_expiry(c: Control, end_abs: u64)
    ensures
        ({
            let d = c.after_expiry(end_abs);
            let r = c.expiry_report(end_abs);
            &&& d.state == c.state && d.scan_abs == c.scan_abs && d.ed_abs == c.ed_abs
            &&& match c.cca.hold_until {
                Some(until) => if until <= end_abs {
                    let busy = c.cca.ed_busy || c.cca.in_ppdu;
                    &&& d.cca.hold_until is None
                    &&& d.cca.busy == busy
                    &&& r.len() == if c.cca.emit && busy != c.cca.busy { 1int } else { 0 }
                    &&& r.len() == 1 ==> (r[0] matches RxEvent::Cca {
                        sample_index,
                        busy: told,
                        reason: _,
                        hold_us,
                    } && sample_index == until && told == busy && hold_us == 0)
                } else {
                    d.cca == c.cca && r.len() == 0
                },
                None => d.cca == c.cca && r.len() == 0,
            }
        }),
{
}

/// Which samples a stage reads. The LTF is looked for in 480 samples from the
/// STF on. The PPDU starts 192 samples before the first LTS period, so that the
/// payloads of the two SIG symbols are 144 and 224 samples behind it; that of
/// Data symbol `n` is 304 samples behind it, 240 more with the long preamble,
/// and 80 more for each symbol before it, with the short guard interval 72. A
/// window of 64 samples starts 6 samples before its payload, moved by the drift.
pub proof fn lemma_windows(c: Control, buf_abs: u64, end_abs: u64)
    requires
        buf_abs <= end_abs,
    ensures
        match (c.state, c.wanted(buf_abs, end_abs)) {
            (State::Search, Want::Search { from }) => {
                &&& buf_abs <= from <= end_abs
                &&& buf_abs <= c.scan_abs <= end_abs ==> from == c.scan_abs
                &&& c.scan_abs < buf_abs ==> from == buf_abs
                &&& c.scan_abs > end_abs ==> from == end_abs
            },
            (State::LtfSync { trig }, Want::Ltf { start }) => start == trig && buf_abs <= trig && trig
                + 480 <= end_abs,
            (State::LtfSync { trig }, Want::More) => trig < buf_abs || end_abs < trig + 480,
            (State::Sig { anchor }, Want::Sig { first, second }) => first == anchor + 144 - 6
                && second == anchor + 224 - 6 && buf_abs <= first && second + 64 <= end_abs,
            (State::Sig { anchor }, Want::More) => anchor + 138 < buf_abs || end_abs < anchor + 282,
            (State::Data(d), w) => {
                let payload = d.anchor + 304 + (match d.rxv.preamble_type {
                    PreambleType::S1gShort => 0int,
                    PreambleType::S1gLong => 240,
                }) + d.n * match d.rxv.gi {
                    GuardInterval::Long => 80int,
                    GuardInterval::Short => 72,
                } + d.shift;
                match w {
                    Want::Data { start, symbol } => start == payload - 6 && symbol == d.n && buf_abs
                        <= start && start + 64 <= end_abs,
                    Want::More => payload - 6 < buf_abs || end_abs < payload + 58,
                    _ => false,
                }
            },
            _ => false,
        },
{
    if let State::Data(d) = c.state {
        lemma_data_samples(d.rxv.gi, d.n as int);
    }
}

/// LTF synchronization: the SIG field is read from the LTS that was found on,
/// and nothing is reported; after a false alarm the search goes on 64 samples
/// behind the trigger, and CCA is BUSY only on another ground.
pub proof fn lemma_ltf_outcome(c: Control, trig: u64, lts_start: Option<u64>)
    requires
        trig + 480 <= u64::MAX,
        lts_start matches Some(o) ==> o <= 480,
    ensures
        ({
            let d = c.after_ltf(trig, lts_start);
            let r = c.ltf_report(trig, lts_start);
            match lts_start {
                Some(o) => {
                    &&& d.state matches State::Sig { anchor } && anchor == trig + o
                    &&& d.cca == c.cca && r.len() == 0
                },
                None => {
                    let held = c.cca.hold_until matches Some(until) && trig + 64 < until;
                    &&& d.state == State::Search && d.scan_abs == trig + 64
                    &&& !d.cca.in_ppdu && d.cca.busy == (c.cca.ed_busy || held)
                    &&& r == c.cca.left_report((trig + 64) as u64, None)
                },
            }
        }),
{
}

/// A PPDU that was ended by its SIG field: no PPDU is being received, and CCA is
/// BUSY until `until`, or, where that is not known or not behind the SIG field,
/// as long as energy or an earlier hold lasts.
pub open spec fn ended(c: Control, d: Control, anchor: u64, until: Option<int>) -> bool {
    let past = until matches Some(u) && u > anchor + 288;
    let held = c.cca.hold_until matches Some(u) && u > anchor + 288;
    &&& d.state == State::Search
    &&& !d.cca.in_ppdu
    &&& d.cca.ed_busy == c.cca.ed_busy
    &&& past ==> d.cca.busy && (d.cca.hold_until matches Some(u) && u >= until->0 && (!held ==> u
        == until->0))
    &&& !past ==> d.cca.busy == (c.cca.ed_busy || held)
}

/// What the SIG field leads to. An NDP is done with the SIG field, 288 samples
/// behind the anchor. A supported PPDU goes on with its Data field, CCA staying
/// as it is. An unsupported one is waited out: BUSY until its end, from where on
/// the search resumes. A failed CRC resumes the search at the anchor, with no
/// hold; a reserved indication does so too, with a hold until the end of the PPDU
/// where the fields give its duration. The end is 192 samples before the anchor
/// plus two samples per microsecond.
pub proof fn lemma_sig_outcome(
    c: Control,
    anchor: u64,
    sig: Result<SigContent, SigError>,
    rssi: u8,
    rcpi: u8,
)
    requires
        192 <= anchor,
        anchor <= 0x1000_0000_0000_0000,
        sig matches Ok(s) ==> (s.spec_verdict() matches Some(SigVerdict::Supported(r)) ==> 0
            <= r.ppdu_us() <= u32::MAX),
        sig matches Ok(s) ==> (s.spec_verdict() matches Some(SigVerdict::Unsupported(r, _)) ==> 0
            <= r.ppdu_us() <= u32::MAX),
    ensures
        ({
            let d = c.after_sig(anchor, sig, rssi, rcpi);
            &&& d.cfg == c.cfg && d.ed_abs == c.ed_abs
            &&& match sig {
                Ok(s) => match s.spec_verdict() {
                    None => ended(c, d, anchor, None) && d.scan_abs == anchor + 288,
                    Some(SigVerdict::Supported(r)) => {
                        &&& d.cca == c.cca && d.scan_abs == c.scan_abs
                        &&& d.state matches State::Data(s) && {
                            &&& s.anchor == anchor && s.n == 0 && s.lost_run == 0 && s.shift == 0
                            &&& s.end == anchor - 192 + 2 * r.ppdu_us()
                            &&& s.rxv.rssi == rssi && s.rxv.rcpi == rcpi
                            &&& s.rxv == (RxVector { rssi, rcpi, ..r })
                        }
                    },
                    Some(SigVerdict::Unsupported(r, _)) => {
                        let end = anchor - 192 + 2 * r.ppdu_us();
                        ended(c, d, anchor, Some(end)) && d.scan_abs == end
                    },
                    Some(SigVerdict::Reserved { reason: _, duration_us }) => ended(
                        c,
                        d,
                        anchor,
                        match duration_us {
                            Some(us) => Some(anchor - 192 + 2 * us),
                            None => None,
                        },
                    ) && d.scan_abs == anchor,
                },
                Err(SigError::CrcFailed) => ended(c, d, anchor, None) && d.scan_abs == anchor,
                Err(SigError::Reserved { reason: _, duration_us }) => ended(
                    c,
                    d,
                    anchor,
                    match duration_us {
                        Some(us) => Some(anchor - 192 + 2 * us),
                        None => None,
                    },
                ) && d.scan_abs == anchor,
            }
        }),
{
}

/// What the SIG field reports: an NDP with its body at the end of the SIG field; the
/// start of a supported PPDU and nothing more; the start of an unsupported one and at
/// once its end, with the reason; of anything else a format violation. All but the NDP
/// carry the anchor, and the RXVECTOR holds the measured levels. But for a supported
/// PPDU, what leaving the PPDU at the end of the SIG field reports follows, with the
/// hold, if any, until its end.
pub proof fn lemma_sig_events(
    c: Control,
    anchor: u64,
    sig: Result<SigContent, SigError>,
    rssi: u8,
    rcpi: u8,
)
    requires
        192 <= anchor,
        anchor <= 0x1000_0000_0000_0000,
    ensures
        ({
            let r = c.sig_report(anchor, sig, rssi, rcpi);
            let at = (anchor + 288) as u64;
            let violation = RxEvent::RxEnd {
                sample_index: anchor,
                status: RxEndStatus::FormatViolation,
            };
            match sig {
                Ok(SigContent::Ndp { body }) => r == seq![
                    RxEvent::NdpReceived { sample_index: at, body },
                ] + c.cca.left_report(at, None),
                Ok(s) => match s.spec_verdict() {
                    None => true,
                    Some(SigVerdict::Supported(v)) => r == seq![
                        RxEvent::RxStart {
                            sample_index: anchor,
                            rxvector: RxVector { rssi, rcpi, ..v },
                        },
                    ],
                    Some(SigVerdict::Unsupported(v, why)) => r == seq![
                        RxEvent::RxStart {
                            sample_index: anchor,
                            rxvector: RxVector { rssi, rcpi, ..v },
                        },
                        RxEvent::RxEnd {
                            sample_index: anchor,
                            status: RxEndStatus::UnsupportedRate(why),
                        },
                    ] + c.cca.left_report(at, Some((anchor - 192 + 2 * v.ppdu_us()) as u64)),
                    Some(SigVerdict::Reserved { reason: _, duration_us }) => r == seq![violation]
                        + c.cca.left_report(
                        at,
                        match duration_us {
                            Some(us) => Some((anchor - 192 + 2 * us) as u64),
                            None => None,
                        },
                    ),
                },
                Err(SigError::CrcFailed) => r == seq![violation] + c.cca.left_report(at, None),
                Err(SigError::Reserved { reason: _, duration_us }) => r == seq![violation]
                    + c.cca.left_report(
                    at,
                    match duration_us {
                        Some(us) => Some((anchor - 192 + 2 * us) as u64),
                        None => None,
                    },
                ),
            }
        }),
{
}

/// Leaving a PPDU: the receiver searches again from the given sample on, and CCA is as
/// leaving a PPDU leaves it; nothing else changes.
pub proof fn lemma_rearmed(c: Control, at: u64, scan_from: u64, hold: Option<u64>)
    ensures
        ({
            let d = c.rearmed(at, scan_from, hold);
            &&& d.state == State::Search && d.scan_abs == scan_from
            &&& d.cca == c.cca.left_ppdu(at, hold)
            &&& d.cfg == c.cfg && d.ed_abs == c.ed_abs
        }),
{
}

/// The carrier is lost for good with the symbol that completes the configured
/// number in a row without signal; any symbol with signal starts the count
/// again. Its loss is reported at that symbol's payload, and CCA stays BUSY until
/// the PPDU's predicted end, from where on the search resumes.
pub proof fn lemma_carrier_outcome(c: Control, d: DataState, lost: bool)
    requires
        d.lost_run < usize::MAX,
        c.cfg.carrier_lost_symbols >= 1,
        0 <= Control::payload(d) < d.end,
    ensures
        ({
            let run: int = if lost { d.lost_run + 1 } else { 0 };
            let e = c.after_carrier(d, lost);
            let r = c.carrier_report(d, lost);
            let payload = d.anchor + 304 + (match d.rxv.preamble_type {
                PreambleType::S1gShort => 0int,
                PreambleType::S1gLong => 240,
            }) + d.n * match d.rxv.gi {
                GuardInterval::Long => 80int,
                GuardInterval::Short => 72,
            } + d.shift;
            if run >= c.cfg.carrier_lost_symbols {
                &&& e.state == State::Search && e.scan_abs == d.end
                &&& e.cca.busy && !e.cca.in_ppdu
                &&& e.cca.hold_until matches Some(u) && u >= d.end
                &&& r == seq![
                    RxEvent::RxEnd {
                        sample_index: payload as u64,
                        status: RxEndStatus::CarrierLost,
                    },
                ] + c.cca.left_report(payload as u64, Some(d.end))
            } else {
                &&& e.state matches State::Data(f) && f.lost_run == run && f.n == d.n && f.rxv == d.rxv
                    && f.end == d.end && f.anchor == d.anchor && f.shift == d.shift
                &&& e.cca == c.cca && r.len() == 0
            }
        }),
{
    lemma_data_samples(d.rxv.gi, d.n as int);
}

/// A Data symbol that is not the last: the next one is due, and samples are kept
/// from the guard interval of the symbol just read on.
pub proof fn lemma_symbol_outcome(c: Control, d: DataState, shift: i64)
    requires
        d.n + 1 < d.rxv.n_sym,
    ensures
        c.after_symbol(d, shift).cca == c.cca,
        c.after_symbol(d, shift).state matches State::Data(e) && e.n == d.n + 1 && e.shift == shift
            && e.rxv == d.rxv && e.anchor == d.anchor && e.end == d.end && e.lost_run == d.lost_run,
        Control::needed_from(d) == d.anchor + 304 + (match d.rxv.preamble_type {
            PreambleType::S1gShort => 0int,
            PreambleType::S1gLong => 240,
        }) + (match d.rxv.gi {
            GuardInterval::Long => d.n * 80,
            GuardInterval::Short => d.n * 72,
        }) - (if d.n == 0 || d.rxv.gi == GuardInterval::Long { 16int } else { 8 }),
{
    lemma_data_samples(d.rxv.gi, d.n as int);
}

/// A decoded PSDU is reported at the PPDU's predicted end with its RXVECTOR,
/// which holds the seed that was found, then the end without error, then what leaving
/// the PPDU there reports.
pub proof fn lemma_psdu_events(c: Control, d: DataState, psdu: Vec<u8>, seed: u8)
    ensures
        ({
            let r = c.psdu_report(d, psdu, seed);
            &&& 2 <= r.len() <= 3
            &&& r[0] matches RxEvent::PsduReceived { sample_index, rxvector, psdu: p } && {
                &&& sample_index == d.end
                &&& p == psdu
                &&& rxvector == (RxVector { scrambler_seed: seed, ..d.rxv })
            }
            &&& r[1] == (RxEvent::RxEnd { sample_index: d.end, status: RxEndStatus::NoError })
            &&& r.skip(2) == c.cca.left_report(d.end, None)
        }),
{
    assert(c.psdu_report(d, psdu, seed).skip(2) =~= c.cca.left_report(d.end, None));
}

/// The end of the stream ends a PPDU in progress as truncated, and only then;
/// a PPDU and a hold are dropped, so that only energy keeps CCA BUSY.
pub proof fn lemma_stream_end(c: Control, end_abs: u64)
    ensures
        ({
            let d = c.after_reset(end_abs);
            let r = c.finish_report(end_abs);
            let n: int = if c.state is Search { 0 } else { 1 };
            &&& d.state == State::Search && d.scan_abs == end_abs && d.ed_abs == c.ed_abs
            &&& !d.cca.in_ppdu && d.cca.hold_until is None && d.cca.ed_busy == c.cca.ed_busy
            &&& d.cca.updated(end_abs).busy == c.cca.ed_busy
            &&& r.len() == n + (if c.cca.emit && c.cca.busy != c.cca.ed_busy { 1int } else { 0 })
            &&& n == 1 ==> r[0] == (RxEvent::RxEnd {
                sample_index: end_abs,
                status: RxEndStatus::Truncated,
            })
            &&& r.skip(n) == d.cca.report(end_abs, None)
        }),
{
    let n: int = if c.state is Search { 0 } else { 1 };
    let last = c.after_reset(end_abs).cca.report(end_abs, None);
    assert(c.finish_report(end_abs).skip(n) =~= last);
}

/// When the carrier is lost for good: with a symbol without signal that completes
/// the configured number in a row.
pub proof fn lemma_carrier_gone(c: Control, d: DataState, lost: bool)
    requires
        c.cfg.carrier_lost_symbols >= 1,
    ensures
        c.carrier_gone(d, lost) <==> lost && d.lost_run + 1 >= c.cfg.carrier_lost_symbols,
{
}

} // verus!
