//! Streaming S1G receiver: the PHY receive procedure of 23.3.20 (Figure
//! 23-53) for a 2 MHz STA, as a state machine around the signal processing.
//!
//! Pipeline: energy detect (CCA), STF autocorrelation detect, LTF
//! cross-correlation timing, SIG format discrimination (S1G_SHORT vs
//! S1G_LONG) and decode, PHY-RXSTART, per-symbol Data demodulation, PSDU,
//! PHY-RXEND. [`Control::next`] says which stage is due and which samples it
//! reads; the outcome of the stage goes to the `on_` method of that name. Any
//! failure emits `RxEnd` with the spec status, holds CCA BUSY for the predicted
//! PPDU duration when one is known, and re-arms the detector.
//!
//! All FFT windows back off [`BACKOFF`] samples into the preceding GI
//! (ISI-safe; the common linear phase is absorbed by the channel estimate
//! since every window uses the same offset), and the window position is
//! advanced/retarded as pilot phase slopes reveal sampling-clock drift.

use crate::params::rf::CcaType;
use crate::rx::buffer::MAX_SAMPLES;
use crate::sig::parse::lemma_verdict_bounds;
use crate::sig::{SigContent, SigError, SigVerdict};
use crate::tx::{data_samples, lead_samples, lemma_data_samples, spec_symbol_gi, symbol_gi};
use crate::vector::{preamble_us, GuardInterval, PreambleType, RxVector};
use vstd::prelude::*;

pub mod buffer;
pub mod chunks;
pub mod decode;
pub mod floor;
pub mod laws;

verus! {

/// Receiver options that steer the state machine.
#[derive(Debug, Clone, Copy, PartialEq, Eq, Structural)]
pub struct RxConfig {
    /// Emit `PpduStart` events (carrier-sense hook for a MAC).
    pub emit_ppdu_start: bool,
    /// Emit `Cca` events.
    pub emit_cca: bool,
    /// CCA channel classification (type 2 = 3 dB higher thresholds).
    pub cca_type: CcaType,
    /// Consecutive Data symbols without signal before declaring
    /// `CarrierLost`.
    pub carrier_lost_symbols: usize,
    /// LDPC decoder iteration cap.
    pub max_ldpc_iterations: usize,
    /// Track sampling-clock drift and move the FFT window accordingly.
    pub timing_tracking: bool,
}

impl Default for RxConfig {
    fn default() -> (c: Self)
        ensures
            c == (RxConfig {
                emit_ppdu_start: true,
                emit_cca: true,
                cca_type: CcaType::Type1,
                carrier_lost_symbols: 4,
                max_ldpc_iterations: 30,
                timing_tracking: true,
            }),
    {
        RxConfig {
            emit_ppdu_start: true,
            emit_cca: true,
            cca_type: CcaType::Type1,
            carrier_lost_symbols: 4,
            max_ldpc_iterations: 30,
            timing_tracking: true,
        }
    }
}

/// Why CCA reports BUSY [23.3.18.5].
#[derive(Debug, Clone, Copy, PartialEq, Eq, Structural)]
pub enum CcaReason {
    /// Any signal above the energy-detect threshold (aCCATime window).
    EnergyDetect,
    /// Start of an S1G PPDU detected (preamble).
    PreambleDetect,
    /// A valid SIG/SIG-A predicted the PPDU duration; BUSY is held for it.
    PpduHold,
}

/// PHY-RXEND.indication status [23.3.20].
#[derive(Debug, Clone, Copy, PartialEq, Eq)]
pub enum RxEndStatus {
    NoError,
    /// SIG/SIG-A CRC failure or Reserved SIG Indication.
    FormatViolation,
    /// Valid SIG/SIG-A for a mode this receiver does not decode.
    UnsupportedRate(&'static str),
    /// Signal vanished during the Data field.
    CarrierLost,
    /// Stream ended mid-PPDU (reported by [`Control::finish`]).
    Truncated,
}

/// What the receiver tells the MAC.
#[derive(Debug, PartialEq, Eq)]
pub enum RxEvent {
    /// PHY-CCA.indication: `busy` changed. `hold_us` is the predicted
    /// remaining busy time when known (PPDU hold), else 0.
    Cca { sample_index: u64, busy: bool, reason: Option<CcaReason>, hold_us: u32 },
    /// Preamble detected. `sample_index` counts samples ever pushed.
    PpduStart { sample_index: u64 },
    /// PHY-RXSTART.indication: SIG/SIG-A valid, RXVECTOR known. Issued for
    /// supported *and* unsupported modes (the latter is followed at once by
    /// `RxEnd(UnsupportedRate)`).
    RxStart { sample_index: u64, rxvector: RxVector },
    /// NDP CMAC PPDU received (37-bit body, LSB = B0) [23.3.11].
    NdpReceived { sample_index: u64, body: u64 },
    /// Full PSDU decoded (bit errors possible: the MAC FCS is the final
    /// arbiter). Followed by `RxEnd(NoError)`.
    PsduReceived { sample_index: u64, rxvector: RxVector, psdu: Vec<u8> },
    /// PHY-RXEND.indication.
    RxEnd { sample_index: u64, status: RxEndStatus },
}

/// FFT-window backoff into the preceding GI, samples. With a 16-sample GI
/// this tolerates a channel delay spread of up to 16 - 6 = 10 samples
/// (5 us) together with +-6 samples of timing error before ISI appears; the
/// timing tracker keeps the residual error well inside that.
pub const BACKOFF: u64 = 6;

/// Overlap re-scanned across pushes so a detection run split by a chunk
/// boundary is still found.
pub const SCAN_OVERLAP: u64 = 112;

/// Energy-detect window: aCCATime (40 us) = 80 samples.
pub const ED_WINDOW: u64 = 80;

/// Samples per microsecond at the native rate.
pub const SAMPLES_PER_US: u64 = 2;

/// Samples that LTF synchronization examines: the rest of STF + GI2 + 2 LTS +
/// margin. The search span tolerates a trigger up to ~160 samples before the
/// true STF start.
pub const LTF_SPAN: u64 = 480;

/// Clear-channel assessment: the three grounds for BUSY, and the state that
/// was last reported.
#[derive(Debug, Clone, Copy, PartialEq, Eq, Structural)]
pub struct Cca {
    /// The last energy-detect window was above the threshold.
    pub ed_busy: bool,
    /// CCA BUSY held until this absolute sample (predicted PPDU end).
    pub hold_until: Option<u64>,
    /// A preamble has been detected and the PPDU is being received.
    pub in_ppdu: bool,
    /// The state last reported.
    pub busy: bool,
    /// Emit events.
    pub emit: bool,
}

impl Cca {
    /// A hold that has run out at sample `at` is dropped.
    pub open spec fn hold_at(&self, at: u64) -> Option<u64> {
        match self.hold_until {
            Some(until) => if at >= until {
                None
            } else {
                Some(until)
            },
            None => None,
        }
    }

    /// There is a ground for BUSY at sample `at`.
    pub open spec fn busy_at(&self, at: u64) -> bool {
        self.ed_busy || self.in_ppdu || self.hold_at(at) is Some
    }

    /// The state after an update at sample `at`.
    pub open spec fn updated(self, at: u64) -> Cca {
        Cca { hold_until: self.hold_at(at), busy: self.busy_at(at), ..self }
    }

    /// The reason to report where none is given: the strongest ground.
    pub open spec fn ground(&self, at: u64) -> CcaReason {
        if self.hold_at(at) is Some {
            CcaReason::PpduHold
        } else if self.in_ppdu {
            CcaReason::PreambleDetect
        } else {
            CcaReason::EnergyDetect
        }
    }

    /// What an update at sample `at` reports: the new state, if it changed.
    pub open spec fn report(&self, at: u64, reason: Option<CcaReason>) -> Seq<RxEvent> {
        let busy = self.busy_at(at);
        if busy == self.busy || !self.emit {
            Seq::empty()
        } else {
            seq![
                RxEvent::Cca {
                    sample_index: at,
                    busy,
                    reason: if !busy {
                        None
                    } else if reason is Some {
                        reason
                    } else {
                        Some(self.ground(at))
                    },
                    hold_us: match self.hold_at(at) {
                        Some(until) => hold_us(until, at),
                        None => 0,
                    },
                },
            ]
        }
    }

    /// Recompute the combined CCA state and emit on change.
    pub fn update(&mut self, at: u64, reason: Option<CcaReason>, events: &mut Vec<RxEvent>)
        ensures
            *final(self) == old(self).updated(at),
            final(events)@ == old(events)@ + old(self).report(at, reason),
    {
        let hold: Option<u64> = match self.hold_until {
            Some(until) => if at >= until {
                None
            } else {
                Some(until)
            },
            None => None,
        };
        let busy: bool = self.ed_busy || self.in_ppdu || hold.is_some();
        if busy != self.busy && self.emit {
            let hold_us: u32 = match hold {
                Some(u) => ((u - at) / SAMPLES_PER_US) as u32,
                None => 0,
            };
            let told: Option<CcaReason> = if !busy {
                None
            } else if reason.is_some() {
                reason
            } else if hold.is_some() {
                Some(CcaReason::PpduHold)
            } else if self.in_ppdu {
                Some(CcaReason::PreambleDetect)
            } else {
                Some(CcaReason::EnergyDetect)
            };
            events.push(RxEvent::Cca { sample_index: at, busy, reason: told, hold_us });
        }
        proof {
            assert(events@ =~= old(events)@ + old(self).report(at, reason));
        }
        self.hold_until = hold;
        self.busy = busy;
    }

    /// The later of the current hold and `h`.
    pub open spec fn extended(&self, h: u64) -> Option<u64> {
        match self.hold_until {
            Some(cur) => if h > cur {
                Some(h)
            } else {
                Some(cur)
            },
            None => Some(h),
        }
    }

    /// The state after leaving a PPDU at sample `at`, holding until `hold`.
    pub open spec fn left_ppdu(self, at: u64, hold: Option<u64>) -> Cca {
        match hold {
            Some(h) => if h > at {
                Cca { in_ppdu: false, hold_until: self.extended(h), busy: true, ..self }
            } else {
                (Cca { in_ppdu: false, ..self }).updated(at)
            },
            None => (Cca { in_ppdu: false, ..self }).updated(at),
        }
    }

    /// What leaving a PPDU reports: the hold, even when CCA was already BUSY,
    /// so that the MAC learns the duration; otherwise a change of state.
    pub open spec fn left_report(self, at: u64, hold: Option<u64>) -> Seq<RxEvent> {
        match hold {
            Some(h) => if h > at {
                if self.emit {
                    seq![
                        RxEvent::Cca {
                            sample_index: at,
                            busy: true,
                            reason: Some(CcaReason::PpduHold),
                            hold_us: hold_us(h, at),
                        },
                    ]
                } else {
                    Seq::empty()
                }
            } else {
                (Cca { in_ppdu: false, ..self }).report(at, None)
            },
            None => (Cca { in_ppdu: false, ..self }).report(at, None),
        }
    }

    /// Leave the PPDU at sample `at`; CCA BUSY is held until `hold` if that is
    /// later, and a `Cca` event with the predicted hold time is emitted even
    /// when CCA was already BUSY so the MAC learns the duration.
    pub fn leave_ppdu(&mut self, at: u64, hold: Option<u64>, events: &mut Vec<RxEvent>)
        ensures
            *final(self) == old(self).left_ppdu(at, hold),
            final(events)@ == old(events)@ + old(self).left_report(at, hold),
    {
        self.in_ppdu = false;
        match hold {
            Some(h) => {
                if h > at {
                    let longer: bool = match self.hold_until {
                        Some(cur) => h > cur,
                        None => true,
                    };
                    if longer {
                        self.hold_until = Some(h);
                    }
                    self.busy = true;
                    if self.emit {
                        events.push(
                            RxEvent::Cca {
                                sample_index: at,
                                busy: true,
                                reason: Some(CcaReason::PpduHold),
                                hold_us: ((h - at) / SAMPLES_PER_US) as u32,
                            },
                        );
                    }
                    proof {
                        assert(events@ =~= old(events)@ + old(self).left_report(at, hold));
                    }
                } else {
                    self.update(at, None, events);
                }
            },
            None => {
                self.update(at, None, events);
            },
        }
    }
}

/// Microseconds from sample `at` to sample `until`, in 32 bits.
pub open spec fn hold_us(until: u64, at: u64) -> u32 {
    ((until - at) / 2) as u32
}

/// CCA is BUSY as reported exactly while there is a ground for it: after any
/// update the reported state is that of the grounds.
pub proof fn lemma_cca_reports_grounds(c: Cca, at: u64)
    ensures
        c.updated(at).busy == c.updated(at).busy_at(at),
        c.updated(at).updated(at) == c.updated(at),
        c.updated(at).report(at, None) == Seq::<RxEvent>::empty(),
{
}

/// While a hold lasts, CCA is BUSY whatever else changes.
pub proof fn lemma_hold_keeps_busy(c: Cca, until: u64, at: u64)
    requires
        c.hold_until == Some(until),
        at < until,
    ensures
        c.updated(at).busy,
        c.updated(at).hold_until == Some(until),
{
}

/// Reception of a Data field.
#[derive(Debug, Clone, Copy, PartialEq, Eq, Structural)]
pub struct DataState {
    /// First sample of the first LTS period.
    pub anchor: u64,
    pub rxv: RxVector,
    /// Symbols demodulated so far.
    pub n: usize,
    /// Predicted first sample after the PPDU.
    pub end: u64,
    /// Consecutive symbols without signal.
    pub lost_run: usize,
    /// Window shift that follows the sampling-clock drift, samples.
    pub shift: i64,
}

/// The stage of reception.
#[derive(Debug, Clone, Copy, PartialEq, Eq, Structural)]
pub enum State {
    /// Looking for an STF.
    Search,
    /// An STF was seen at `trig`; looking for the LTF.
    LtfSync { trig: u64 },
    /// The LTF was found; waiting for the SIG field.
    Sig { anchor: u64 },
    /// Demodulating the Data field.
    Data(DataState),
}

/// What the signal processing has to do next. Positions are absolute.
#[derive(Debug, Clone, Copy, PartialEq, Eq, Structural)]
pub enum Want {
    /// Scan for an STF from this sample on.
    Search { from: u64 },
    /// Synchronize on the LTF within [`LTF_SPAN`] samples.
    Ltf { start: u64 },
    /// Decode the SIG field from two 64-sample windows.
    Sig { first: u64, second: u64 },
    /// Demodulate Data symbol `symbol` from a 64-sample window.
    Data { start: u64, symbol: usize },
    /// Nothing can be done before more samples arrive.
    More,
}

/// First sample after a PPDU whose first LTS period starts at `anchor`: the
/// PPDU starts 192 samples before it.
pub open spec fn spec_ppdu_end(anchor: int, duration_us: int) -> int {
    anchor - 192 + 2 * duration_us
}

/// First sample of the payload of Data symbol `n`, before any window shift.
pub open spec fn payload_at(anchor: int, rxv: RxVector, n: int) -> int {
    anchor - 192 + 2 * preamble_us(rxv.preamble_type, 1) + data_samples(rxv.gi, n)
        + spec_symbol_gi(rxv.gi, n)
}

/// The first payload starts 304 samples after the anchor, with the long
/// preamble 240 samples later; payloads follow each other at 80 samples, with
/// the short GI at 72.
pub proof fn lemma_payload_spacing(anchor: int, rxv: RxVector, n: int)
    requires
        n >= 0,
    ensures
        payload_at(anchor, rxv, n) == anchor + (match rxv.preamble_type {
            PreambleType::S1gShort => 304int,
            PreambleType::S1gLong => 304int + 240,
        }) + n * match rxv.gi {
            GuardInterval::Long => 80int,
            GuardInterval::Short => 72,
        },
{
    lemma_data_samples(rxv.gi, n);
}

/// Every Data symbol is taken where the transmitter put it: its payload lies
/// behind the preamble, the symbols before it and its guard interval, counted
/// from the PPDU's first sample.
pub proof fn lemma_payload_where_sent(anchor: int, rxv: RxVector, n: int)
    requires
        n >= 0,
    ensures
        payload_at(anchor, rxv, n) == (anchor - 192) + lead_samples(rxv.preamble_type)
            + data_samples(rxv.gi, n) + spec_symbol_gi(rxv.gi, n),
{
}

/// The Data symbols fill the PPDU: the payload of the last symbol ends where
/// the PPDU does (one space-time stream).
pub proof fn lemma_data_fills_ppdu(anchor: int, rxv: RxVector)
    requires
        rxv.n_sym >= 1,
        rxv.num_sts == 1,
    ensures
        payload_at(anchor, rxv, rxv.n_sym - 1) + 64 == spec_ppdu_end(anchor, rxv.ppdu_us()),
{
    lemma_data_samples(rxv.gi, rxv.n_sym as int);
    lemma_data_samples(rxv.gi, rxv.n_sym - 1);
}

/// Samples from the anchor to the payload of Data symbol `n`.
fn payload_offset(preamble: PreambleType, gi: GuardInterval, n: usize) -> (o: u64)
    requires
        n <= 5000,
    ensures
        o == 2 * preamble_us(preamble, 1) - 192 + data_samples(gi, n as int) + spec_symbol_gi(
            gi,
            n as int,
        ),
        288 <= o <= 410_000,
{
    proof {
        lemma_data_samples(gi, n as int);
    }
    let lead: u64 = match preamble {
        PreambleType::S1gShort => 288,
        PreambleType::S1gLong => 528,
    };
    let samples: u64 = match gi {
        GuardInterval::Long => 80 * n as u64,
        GuardInterval::Short => if n == 0 {
            0
        } else {
            80 + 72 * (n as u64 - 1)
        },
    };
    lead + samples + symbol_gi(gi, n) as u64
}

/// The receive state machine.
#[derive(Debug, Clone, Copy, PartialEq, Eq, Structural)]
pub struct Control {
    pub cfg: RxConfig,
    pub cca: Cca,
    /// Next absolute scan position (Search state).
    pub scan_abs: u64,
    /// Next energy-detect window start (absolute).
    pub ed_abs: u64,
    pub state: State,
}

impl Control {
    /// Positions are within the stream, and a Data state is within its PPDU.
    pub open spec fn wf(&self) -> bool {
        &&& self.ed_abs <= MAX_SAMPLES
        &&& match self.state {
            State::Search => true,
            State::LtfSync { trig } => trig <= MAX_SAMPLES,
            State::Sig { anchor } => anchor <= MAX_SAMPLES + 480,
            State::Data(d) => {
                &&& d.anchor <= MAX_SAMPLES + 480
                &&& d.n < d.rxv.n_sym <= 5000
                &&& d.rxv.num_sts == 1
                &&& d.end == spec_ppdu_end(d.anchor as int, d.rxv.ppdu_us())
            },
        }
    }

    /// An idle receiver at the start of a stream.
    pub open spec fn idle(cfg: RxConfig) -> Control {
        Control {
            cfg,
            cca: Cca {
                ed_busy: false,
                hold_until: None,
                in_ppdu: false,
                busy: false,
                emit: cfg.emit_cca,
            },
            scan_abs: 0,
            ed_abs: 0,
            state: State::Search,
        }
    }

    /// An idle receiver at the start of a stream.
    pub fn new(cfg: RxConfig) -> (c: Control)
        ensures
            c == Control::idle(cfg),
            c.wf(),
    {
        Control {
            cfg,
            cca: Cca {
                ed_busy: false,
                hold_until: None,
                in_ppdu: false,
                busy: false,
                emit: cfg.emit_cca,
            },
            scan_abs: 0,
            ed_abs: 0,
            state: State::Search,
        }
    }

    /// The state after dropping any PPDU in progress at sample `end`.
    pub open spec fn after_reset(self, end: u64) -> Control {
        Control {
            state: State::Search,
            scan_abs: end,
            cca: Cca { in_ppdu: false, hold_until: None, ..self.cca },
            ..self
        }
    }

    /// Drop any in-progress PPDU state and re-arm detection; `end_abs` is the
    /// number of samples ever pushed.
    pub fn reset(&mut self, end_abs: u64)
        ensures
            *final(self) == old(self).after_reset(end_abs),
            old(self).wf() ==> final(self).wf(),
    {
        self.state = State::Search;
        self.scan_abs = end_abs;
        self.cca.in_ppdu = false;
        self.cca.hold_until = None;
    }

    /// Current CCA state.
    pub fn cca_busy(&self) -> (b: bool)
        ensures
            b == self.cca.busy,
    {
        self.cca.busy
    }

    /// The start of the energy-detect window that is due, `None` where it is
    /// not complete.
    pub fn ed_window(&mut self, buf_abs: u64, end_abs: u64) -> (w: Option<u64>)
        requires
            old(self).wf(),
            buf_abs <= end_abs <= MAX_SAMPLES,
        ensures
            *final(self) == (Control {
                ed_abs: if old(self).ed_abs < buf_abs {
                    buf_abs
                } else {
                    old(self).ed_abs
                },
                ..*old(self)
            }),
            w == if final(self).ed_abs + 80 <= end_abs {
                Some(final(self).ed_abs)
            } else {
                None
            },
            final(self).wf(),
    {
        if self.ed_abs < buf_abs {
            self.ed_abs = buf_abs;
        }
        if self.ed_abs + ED_WINDOW <= end_abs {
            Some(self.ed_abs)
        } else {
            None
        }
    }

    /// The state after the energy-detect window at `ed_abs` was measured.
    pub open spec fn after_energy(self, busy: bool) -> Control {
        let at = (self.ed_abs + 80) as u64;
        Control {
            ed_abs: at,
            cca: if busy == self.cca.ed_busy {
                self.cca
            } else {
                (Cca { ed_busy: busy, ..self.cca }).updated(at)
            },
            ..self
        }
    }

    /// What the measured energy-detect window reports.
    pub open spec fn energy_report(self, busy: bool) -> Seq<RxEvent> {
        if busy == self.cca.ed_busy {
            Seq::empty()
        } else {
            (Cca { ed_busy: busy, ..self.cca }).report(
                (self.ed_abs + 80) as u64,
                Some(CcaReason::EnergyDetect),
            )
        }
    }

    /// The due energy-detect window was measured: above the threshold or not.
    pub fn on_energy(&mut self, busy: bool, events: &mut Vec<RxEvent>)
        requires
            old(self).wf(),
            old(self).ed_abs + 80 <= MAX_SAMPLES,
        ensures
            final(self).wf(),
            *final(self) == old(self).after_energy(busy),
            final(events)@ == old(events)@ + old(self).energy_report(busy),
    {
        self.ed_abs = self.ed_abs + ED_WINDOW;
        if busy != self.cca.ed_busy {
            self.cca.ed_busy = busy;
            let at: u64 = self.ed_abs;
            self.cca.update(at, Some(CcaReason::EnergyDetect), events);
        }
        proof {
            assert(events@ =~= old(events)@ + old(self).energy_report(busy));
        }
    }

    /// The state once the stream has reached sample `end_abs`.
    pub open spec fn after_expiry(self, end_abs: u64) -> Control {
        match self.cca.hold_until {
            Some(until) if end_abs >= until => Control { cca: self.cca.updated(until), ..self },
            _ => self,
        }
    }

    /// What a hold that ran out by sample `end_abs` reports.
    pub open spec fn expiry_report(self, end_abs: u64) -> Seq<RxEvent> {
        match self.cca.hold_until {
            Some(until) if end_abs >= until => self.cca.report(until, None),
            _ => Seq::empty(),
        }
    }

    /// Hold expiry is time-driven even when nothing else changes.
    pub fn expire_hold(&mut self, end_abs: u64, events: &mut Vec<RxEvent>)
        requires
            old(self).wf(),
        ensures
            final(self).wf(),
            *final(self) == old(self).after_expiry(end_abs),
            final(events)@ == old(events)@ + old(self).expiry_report(end_abs),
    {
        match self.cca.hold_until {
            Some(until) => {
                if end_abs >= until {
                    self.cca.update(until, None, events);
                }
            },
            None => {},
        }
        proof {
            assert(events@ =~= old(events)@ + old(self).expiry_report(end_abs));
        }
    }

    /// Where the window for the next Data symbol starts.
    pub open spec fn data_window(d: DataState) -> int {
        payload_at(d.anchor as int, d.rxv, d.n as int) + d.shift - 6
    }

    /// The stage that is due on a buffer that spans `buf_abs..end_abs`.
    pub open spec fn wanted(&self, buf_abs: u64, end_abs: u64) -> Want {
        match self.state {
            State::Search => Want::Search {
                from: if self.scan_abs < buf_abs {
                    buf_abs
                } else if self.scan_abs > end_abs {
                    end_abs
                } else {
                    self.scan_abs
                },
            },
            State::LtfSync { trig } => if buf_abs <= trig && trig + 480 <= end_abs {
                Want::Ltf { start: trig }
            } else {
                Want::More
            },
            State::Sig { anchor } => if buf_abs <= anchor + 138 && anchor + 218 + 64 <= end_abs {
                Want::Sig { first: (anchor + 138) as u64, second: (anchor + 218) as u64 }
            } else {
                Want::More
            },
            State::Data(d) => {
                let start = Control::data_window(d);
                if buf_abs <= start && start + 64 <= end_abs {
                    Want::Data { start: start as u64, symbol: d.n }
                } else {
                    Want::More
                }
            },
        }
    }

    /// Which stage is due, and on which samples. The SIG symbols' payloads
    /// start 144 and 224 samples after the anchor, and every window
    /// [`BACKOFF`] samples before its payload.
    pub fn next(&self, buf_abs: u64, end_abs: u64) -> (w: Want)
        requires
            self.wf(),
            buf_abs <= end_abs <= MAX_SAMPLES,
        ensures
            w == self.wanted(buf_abs, end_abs),
    {
        match self.state {
            State::Search => Want::Search {
                from: if self.scan_abs < buf_abs {
                    buf_abs
                } else if self.scan_abs > end_abs {
                    end_abs
                } else {
                    self.scan_abs
                },
            },
            State::LtfSync { trig } => if buf_abs <= trig && trig + LTF_SPAN <= end_abs {
                Want::Ltf { start: trig }
            } else {
                Want::More
            },
            State::Sig { anchor } => {
                let first: u64 = anchor + 128 + 16 - BACKOFF;
                let second: u64 = first + 80;
                if buf_abs <= first && second + 64 <= end_abs {
                    Want::Sig { first, second }
                } else {
                    Want::More
                }
            },
            State::Data(d) => {
                let payload: u64 = d.anchor + payload_offset(d.rxv.preamble_type, d.rxv.gi, d.n);
                let start: i128 = payload as i128 + d.shift as i128 - BACKOFF as i128;
                if buf_abs as i128 <= start && start + 64 <= end_abs as i128 {
                    Want::Data { start: start as u64, symbol: d.n }
                } else {
                    Want::More
                }
            },
        }
    }

    /// The state after leaving a PPDU at `at`.
    pub open spec fn rearmed(self, at: u64, scan_from: u64, hold: Option<u64>) -> Control {
        Control {
            state: State::Search,
            scan_abs: scan_from,
            cca: self.cca.left_ppdu(at, hold),
            ..self
        }
    }

    /// Leave the PPDU (at sample `at`) and resume searching at `scan_from`;
    /// CCA BUSY is held until `hold` if given.
    fn rearm(&mut self, at: u64, scan_from: u64, hold: Option<u64>, events: &mut Vec<RxEvent>)
        requires
            old(self).wf(),
        ensures
            final(self).wf(),
            *final(self) == old(self).rearmed(at, scan_from, hold),
            final(events)@ == old(events)@ + old(self).cca.left_report(at, hold),
    {
        self.state = State::Search;
        self.scan_abs = scan_from;
        self.cca.leave_ppdu(at, hold, events);
    }

    /// The state after a scan that ended at sample `end_abs`.
    pub open spec fn after_search(self, found: Option<u64>, end_abs: u64) -> Control {
        match found {
            Some(trig) => Control {
                state: State::LtfSync { trig },
                cca: (Cca { in_ppdu: true, ..self.cca }).updated(trig),
                ..self
            },
            None => Control {
                scan_abs: if end_abs - 112 > self.scan_abs {
                    (end_abs - 112) as u64
                } else {
                    self.scan_abs
                },
                ..self
            },
        }
    }

    /// What a scan reports: the PPDU that it found.
    pub open spec fn search_report(self, found: Option<u64>) -> Seq<RxEvent> {
        match found {
            Some(trig) => (if self.cfg.emit_ppdu_start {
                seq![RxEvent::PpduStart { sample_index: trig }]
            } else {
                Seq::<RxEvent>::empty()
            }) + (Cca { in_ppdu: true, ..self.cca }).report(trig, Some(CcaReason::PreambleDetect)),
            None => Seq::empty(),
        }
    }

    /// A scan for an STF ended at sample `end_abs`: it found one at `found`,
    /// or none. Returns from where on samples are still needed after a scan
    /// that found none.
    pub fn on_search(&mut self, found: Option<u64>, end_abs: u64, events: &mut Vec<RxEvent>) -> (keep:
        Option<u64>)
        requires
            old(self).wf(),
            found matches Some(trig) ==> trig <= MAX_SAMPLES,
        ensures
            final(self).wf(),
            *final(self) == old(self).after_search(found, end_abs),
            final(events)@ == old(events)@ + old(self).search_report(found),
            keep == match found {
                Some(_) => None,
                None => Some(final(self).scan_abs),
            },
    {
        match found {
            Some(trig) => {
                if self.cfg.emit_ppdu_start {
                    events.push(RxEvent::PpduStart { sample_index: trig });
                }
                proof {
                    assert(events@ =~= old(events)@ + (if old(self).cfg.emit_ppdu_start {
                        seq![RxEvent::PpduStart { sample_index: trig }]
                    } else {
                        Seq::<RxEvent>::empty()
                    }));
                }
                self.cca.in_ppdu = true;
                self.cca.update(trig, Some(CcaReason::PreambleDetect), events);
                self.state = State::LtfSync { trig };
                proof {
                    assert(events@ =~= old(events)@ + old(self).search_report(found));
                }
                None
            },
            None => {
                // Remember how far the scan went (minus overlap).
                if end_abs >= SCAN_OVERLAP && end_abs - SCAN_OVERLAP > self.scan_abs {
                    self.scan_abs = end_abs - SCAN_OVERLAP;
                }
                proof {
                    assert(events@ =~= old(events)@ + old(self).search_report(found));
                }
                Some(self.scan_abs)
            },
        }
    }

    /// The state after LTF synchronization on the trigger `trig`.
    pub open spec fn after_ltf(self, trig: u64, lts_start: Option<u64>) -> Control {
        match lts_start {
            Some(o) => Control { state: State::Sig { anchor: (trig + o) as u64 }, ..self },
            None => self.rearmed((trig + 64) as u64, (trig + 64) as u64, None),
        }
    }

    /// What LTF synchronization on the trigger `trig` reports.
    pub open spec fn ltf_report(self, trig: u64, lts_start: Option<u64>) -> Seq<RxEvent> {
        match lts_start {
            Some(_) => Seq::empty(),
            None => self.cca.left_report((trig + 64) as u64, None),
        }
    }

    /// LTF synchronization found the first LTS period `lts_start` samples
    /// after the trigger, or none (a false alarm: scanning resumes shortly
    /// after the trigger).
    pub fn on_ltf(&mut self, lts_start: Option<u64>, events: &mut Vec<RxEvent>)
        requires
            old(self).wf(),
            old(self).state is LtfSync,
            lts_start matches Some(o) ==> o <= 480,
        ensures
            final(self).wf(),
            old(self).state matches State::LtfSync { trig } ==> {
                &&& *final(self) == old(self).after_ltf(trig, lts_start)
                &&& final(events)@ == old(events)@ + old(self).ltf_report(trig, lts_start)
            },
    {
        if let State::LtfSync { trig } = self.state {
            match lts_start {
                Some(o) => {
                    self.state = State::Sig { anchor: trig + o };
                    proof {
                        assert(events@ =~= old(events)@ + old(self).ltf_report(trig, lts_start));
                    }
                },
                None => {
                    self.rearm(trig + 64, trig + 64, None, events);
                },
            }
        }
    }

    /// The RXVECTOR with the level codes measured over LTF1.
    pub open spec fn measured(rxv: RxVector, rssi: u8, rcpi: u8) -> RxVector {
        RxVector { rssi, rcpi, ..rxv }
    }

    /// The hold for a PPDU of known or unknown duration.
    pub open spec fn hold_for(anchor: int, duration_us: Option<u32>) -> Option<u64> {
        match duration_us {
            Some(us) => Some(spec_ppdu_end(anchor, us as int) as u64),
            None => None,
        }
    }

    /// The state after the SIG field at `anchor` was read.
    pub open spec fn after_sig(
        self,
        anchor: u64,
        sig: Result<SigContent, SigError>,
        rssi: u8,
        rcpi: u8,
    ) -> Control {
        let sig_end = (anchor + 288) as u64;
        match sig {
            Ok(content) => match content.spec_verdict() {
                None => self.rearmed(sig_end, sig_end, None),
                Some(SigVerdict::Supported(r)) => {
                    let rxv = Control::measured(r, rssi, rcpi);
                    Control {
                        state: State::Data(
                            DataState {
                                anchor,
                                rxv,
                                n: 0,
                                end: spec_ppdu_end(anchor as int, r.ppdu_us()) as u64,
                                lost_run: 0,
                                shift: 0,
                            },
                        ),
                        ..self
                    }
                },
                Some(SigVerdict::Unsupported(r, _)) => {
                    let end = spec_ppdu_end(anchor as int, r.ppdu_us()) as u64;
                    self.rearmed(sig_end, end, Some(end))
                },
                Some(SigVerdict::Reserved { reason: _, duration_us }) => self.rearmed(
                    sig_end,
                    anchor,
                    Control::hold_for(anchor as int, duration_us),
                ),
            },
            Err(SigError::CrcFailed) => self.rearmed(sig_end, anchor, None),
            Err(SigError::Reserved { reason: _, duration_us }) => self.rearmed(
                sig_end,
                anchor,
                Control::hold_for(anchor as int, duration_us),
            ),
        }
    }

    /// What reading the SIG field at `anchor` reports.
    pub open spec fn sig_report(
        self,
        anchor: u64,
        sig: Result<SigContent, SigError>,
        rssi: u8,
        rcpi: u8,
    ) -> Seq<RxEvent> {
        let sig_end = (anchor + 288) as u64;
        let violation = seq![
            RxEvent::RxEnd { sample_index: anchor, status: RxEndStatus::FormatViolation },
        ];
        match sig {
            Ok(SigContent::Ndp { body }) => seq![
                RxEvent::NdpReceived { sample_index: sig_end, body },
            ] + self.cca.left_report(sig_end, None),
            Ok(content) => match content.spec_verdict() {
                None => Seq::empty(),
                Some(SigVerdict::Supported(r)) => seq![
                    RxEvent::RxStart {
                        sample_index: anchor,
                        rxvector: Control::measured(r, rssi, rcpi),
                    },
                ],
                Some(SigVerdict::Unsupported(r, why)) => seq![
                    RxEvent::RxStart {
                        sample_index: anchor,
                        rxvector: Control::measured(r, rssi, rcpi),
                    },
                    RxEvent::RxEnd {
                        sample_index: anchor,
                        status: RxEndStatus::UnsupportedRate(why),
                    },
                ] + self.cca.left_report(
                    sig_end,
                    Some(spec_ppdu_end(anchor as int, r.ppdu_us()) as u64),
                ),
                Some(SigVerdict::Reserved { reason: _, duration_us }) => violation
                    + self.cca.left_report(
                    sig_end,
                    Control::hold_for(anchor as int, duration_us),
                ),
            },
            Err(SigError::CrcFailed) => violation + self.cca.left_report(sig_end, None),
            Err(SigError::Reserved { reason: _, duration_us }) => violation + self.cca.left_report(
                sig_end,
                Control::hold_for(anchor as int, duration_us),
            ),
        }
    }

    /// A format violation at `anchor`. The scan resumes AT the anchor: if this
    /// was a false sync, a real preamble may begin only slightly later and
    /// must not be skipped. CCA stays BUSY for the PPDU's duration where that
    /// is known, otherwise only while energy detect says so (release when the
    /// level drops below min-sensitivity + 20 dB, which is the ED threshold
    /// at 2 MHz).
    fn violation(&mut self, anchor: u64, duration_us: Option<u32>, events: &mut Vec<RxEvent>)
        requires
            old(self).wf(),
            anchor <= MAX_SAMPLES + 480,
            duration_us matches Some(us) ==> us >= 240,
        ensures
            final(self).wf(),
            *final(self) == old(self).rearmed(
                (anchor + 288) as u64,
                anchor,
                Control::hold_for(anchor as int, duration_us),
            ),
            final(events)@ == old(events)@ + (seq![
                RxEvent::RxEnd { sample_index: anchor, status: RxEndStatus::FormatViolation },
            ] + old(self).cca.left_report(
                (anchor + 288) as u64,
                Control::hold_for(anchor as int, duration_us),
            )),
    {
        events.push(RxEvent::RxEnd { sample_index: anchor, status: RxEndStatus::FormatViolation });
        let ghost told = events@;
        let hold: Option<u64> = match duration_us {
            Some(us) => Some(anchor + us as u64 * SAMPLES_PER_US - 192),
            None => None,
        };
        self.rearm(anchor + 288, anchor, hold, events);
        proof {
            assert(told =~= old(events)@ + seq![
                RxEvent::RxEnd { sample_index: anchor, status: RxEndStatus::FormatViolation },
            ]);
            assert(events@ =~= old(events)@ + (seq![
                RxEvent::RxEnd { sample_index: anchor, status: RxEndStatus::FormatViolation },
            ] + old(self).cca.left_report((anchor + 288) as u64, hold)));
        }
    }

    /// The SIG field was read: its content or why it is none, with the RSSI
    /// and RCPI codes measured over LTF1. An NDP is reported and done; a
    /// supported PPDU is announced and its Data field is next; an unsupported
    /// one is announced, ended and waited out with CCA BUSY [Fig 23-53
    /// End-of-Wait]; anything else is a format violation.
    pub fn on_sig(
        &mut self,
        sig: Result<SigContent, SigError>,
        rssi: u8,
        rcpi: u8,
        events: &mut Vec<RxEvent>,
    )
        requires
            old(self).wf(),
            old(self).state is Sig,
            sig matches Ok(c) ==> c.wf(),
            sig matches Err(e) ==> e.wf(),
        ensures
            final(self).wf(),
            old(self).state matches State::Sig { anchor } ==> {
                &&& *final(self) == old(self).after_sig(anchor, sig, rssi, rcpi)
                &&& final(events)@ == old(events)@ + old(self).sig_report(anchor, sig, rssi, rcpi)
            },
    {
        if let State::Sig { anchor } = self.state {
            let sig_end: u64 = anchor + 288;
            match sig {
                Ok(SigContent::Ndp { body }) => {
                    events.push(RxEvent::NdpReceived { sample_index: sig_end, body });
                    self.rearm(sig_end, sig_end, None, events);
                    proof {
                        assert(events@ =~= old(events)@ + old(self).sig_report(
                            anchor,
                            sig,
                            rssi,
                            rcpi,
                        ));
                    }
                },
                Ok(content) => {
                    proof {
                        lemma_verdict_bounds(content);
                    }
                    match content.verdict() {
                        None => {},
                        Some(SigVerdict::Supported(r)) => {
                            let mut rxv: RxVector = r;
                            rxv.rssi = rssi;
                            rxv.rcpi = rcpi;
                            let end: u64 = Control::ppdu_end_sample(anchor, &r);
                            events.push(RxEvent::RxStart { sample_index: anchor, rxvector: rxv });
                            proof {
                                lemma_supported_single_stream(content);
                                assert(events@ =~= old(events)@ + old(self).sig_report(
                                    anchor,
                                    sig,
                                    rssi,
                                    rcpi,
                                ));
                            }
                            self.state =
                            State::Data(
                                DataState { anchor, rxv, n: 0, end, lost_run: 0, shift: 0 },
                            );
                        },
                        Some(SigVerdict::Unsupported(r, why)) => {
                            let mut rxv: RxVector = r;
                            rxv.rssi = rssi;
                            rxv.rcpi = rcpi;
                            let end: u64 = Control::ppdu_end_sample(anchor, &r);
                            events.push(RxEvent::RxStart { sample_index: anchor, rxvector: rxv });
                            events.push(
                                RxEvent::RxEnd {
                                    sample_index: anchor,
                                    status: RxEndStatus::UnsupportedRate(why),
                                },
                            );
                            self.rearm(sig_end, end, Some(end), events);
                            proof {
                                assert(events@ =~= old(events)@ + old(self).sig_report(
                                    anchor,
                                    sig,
                                    rssi,
                                    rcpi,
                                ));
                            }
                        },
                        Some(SigVerdict::Reserved { reason: _, duration_us }) => {
                            self.violation(anchor, duration_us, events);
                        },
                    }
                },
                Err(SigError::CrcFailed) => {
                    self.violation(anchor, None, events);
                },
                Err(SigError::Reserved { reason: _, duration_us }) => {
                    self.violation(anchor, duration_us, events);
                },
            }
        }
    }

    /// Predicted PPDU-end sample for a detected PPDU starting at LTS
    /// `anchor`.
    pub fn ppdu_end_sample(anchor: u64, rxv: &RxVector) -> (end: u64)
        requires
            anchor <= MAX_SAMPLES + 480,
            rxv.ppdu_us() <= u32::MAX,
        ensures
            end == spec_ppdu_end(anchor as int, rxv.ppdu_us()),
    {
        anchor + rxv.ppdu_duration_us() as u64 * SAMPLES_PER_US - 192
    }

    /// Where the payload of the current Data symbol starts, with the shift.
    pub open spec fn payload(d: DataState) -> int {
        payload_at(d.anchor as int, d.rxv, d.n as int) + d.shift
    }

    /// Consecutive symbols without signal, after one more symbol.
    pub open spec fn lost_run(d: DataState, lost: bool) -> int {
        if lost {
            d.lost_run + 1
        } else {
            0
        }
    }

    /// The carrier is lost for good with the current symbol.
    pub open spec fn carrier_gone(self, d: DataState, lost: bool) -> bool {
        Control::lost_run(d, lost) >= self.cfg.carrier_lost_symbols
    }

    /// The state after the carrier of the current symbol was looked at.
    pub open spec fn after_carrier(self, d: DataState, lost: bool) -> Control {
        if self.carrier_gone(d, lost) {
            self.rearmed(Control::payload(d) as u64, d.end, Some(d.end))
        } else {
            Control {
                state: State::Data(
                    DataState { lost_run: Control::lost_run(d, lost) as usize, ..d },
                ),
                ..self
            }
        }
    }

    /// What the carrier of the current symbol reports: its loss.
    pub open spec fn carrier_report(self, d: DataState, lost: bool) -> Seq<RxEvent> {
        let at = Control::payload(d) as u64;
        if self.carrier_gone(d, lost) {
            seq![RxEvent::RxEnd { sample_index: at, status: RxEndStatus::CarrierLost }]
                + self.cca.left_report(at, Some(d.end))
        } else {
            Seq::empty()
        }
    }

    /// The current Data symbol was looked at: it shows a signal or is `lost`.
    /// Returns true where the carrier is lost for good: too many symbols in a
    /// row show none. The receiver then waits for the intended end of the
    /// PPDU before CCA IDLE.
    pub fn on_carrier(&mut self, lost: bool, events: &mut Vec<RxEvent>) -> (gone: bool)
        requires
            old(self).wf(),
            old(self).state matches State::Data(d) && 0 <= Control::payload(d) <= u64::MAX
                && d.lost_run < usize::MAX,
        ensures
            final(self).wf(),
            old(self).state matches State::Data(d) ==> {
                &&& gone == old(self).carrier_gone(d, lost)
                &&& *final(self) == old(self).after_carrier(d, lost)
                &&& final(events)@ == old(events)@ + old(self).carrier_report(d, lost)
            },
    {
        if let State::Data(d) = self.state {
            let run: usize = if lost {
                d.lost_run + 1
            } else {
                0
            };
            if run >= self.cfg.carrier_lost_symbols {
                let base: u64 = d.anchor + payload_offset(d.rxv.preamble_type, d.rxv.gi, d.n);
                let at: u64 = (base as i128 + d.shift as i128) as u64;
                events.push(
                    RxEvent::RxEnd { sample_index: at, status: RxEndStatus::CarrierLost },
                );
                self.rearm(at, d.end, Some(d.end), events);
                proof {
                    assert(events@ =~= old(events)@ + (seq![
                        RxEvent::RxEnd { sample_index: at, status: RxEndStatus::CarrierLost },
                    ] + old(self).cca.left_report(at, Some(d.end))));
                }
                true
            } else {
                let mut e: DataState = d;
                e.lost_run = run;
                self.state = State::Data(e);
                proof {
                    assert(events@ =~= old(events)@ + old(self).carrier_report(d, lost));
                }
                false
            }
        } else {
            false
        }
    }

    /// The state after a Data symbol that is not the last.
    pub open spec fn after_symbol(self, d: DataState, shift: i64) -> Control {
        Control {
            state: State::Data(DataState { n: (d.n + 1) as usize, shift, ..d }),
            ..self
        }
    }

    /// From where on samples are still needed after the current Data symbol.
    pub open spec fn needed_from(d: DataState) -> int {
        payload_at(d.anchor as int, d.rxv, d.n as int) - spec_symbol_gi(d.rxv.gi, d.n as int)
    }

    /// The current Data symbol was demodulated and more are to come; `shift`
    /// is the window shift from here on. Returns from where on samples are
    /// still needed.
    pub fn on_symbol(&mut self, shift: i64) -> (keep: u64)
        requires
            old(self).wf(),
            old(self).state matches State::Data(d) && d.n + 1 < d.rxv.n_sym,
        ensures
            final(self).wf(),
            old(self).state matches State::Data(d) ==> {
                &&& *final(self) == old(self).after_symbol(d, shift)
                &&& keep == Control::needed_from(d)
            },
    {
        if let State::Data(d) = self.state {
            let keep: u64 = d.anchor + payload_offset(d.rxv.preamble_type, d.rxv.gi, d.n)
                - symbol_gi(d.rxv.gi, d.n) as u64;
            let mut e: DataState = d;
            e.n = d.n + 1;
            e.shift = shift;
            self.state = State::Data(e);
            keep
        } else {
            0
        }
    }

    /// What a decoded PSDU reports.
    pub open spec fn psdu_report(self, d: DataState, psdu: Vec<u8>, scrambler_seed: u8) -> Seq<
        RxEvent,
    > {
        seq![
            RxEvent::PsduReceived {
                sample_index: d.end,
                rxvector: RxVector { scrambler_seed, ..d.rxv },
                psdu,
            },
            RxEvent::RxEnd { sample_index: d.end, status: RxEndStatus::NoError },
        ] + self.cca.left_report(d.end, None)
    }

    /// The last Data symbol was demodulated and decoded into a PSDU.
    pub fn on_psdu(&mut self, psdu: Vec<u8>, scrambler_seed: u8, events: &mut Vec<RxEvent>)
        requires
            old(self).wf(),
            old(self).state is Data,
        ensures
            final(self).wf(),
            old(self).state matches State::Data(d) ==> {
                &&& *final(self) == old(self).rearmed(d.end, d.end, None)
                &&& final(events)@ == old(events)@ + old(self).psdu_report(
                    d,
                    psdu,
                    scrambler_seed,
                )
            },
    {
        if let State::Data(d) = self.state {
            let mut rxvector: RxVector = d.rxv;
            rxvector.scrambler_seed = scrambler_seed;
            let ghost told = psdu;
            events.push(RxEvent::PsduReceived { sample_index: d.end, rxvector, psdu });
            events.push(RxEvent::RxEnd { sample_index: d.end, status: RxEndStatus::NoError });
            self.rearm(d.end, d.end, None, events);
            proof {
                assert(events@ =~= old(events)@ + old(self).psdu_report(d, told, scrambler_seed));
            }
        }
    }

    /// What the end of the stream at sample `end_abs` reports.
    pub open spec fn finish_report(self, end_abs: u64) -> Seq<RxEvent> {
        (if self.state is Search {
            Seq::<RxEvent>::empty()
        } else {
            seq![RxEvent::RxEnd { sample_index: end_abs, status: RxEndStatus::Truncated }]
        }) + self.after_reset(end_abs).cca.report(end_abs, None)
    }

    /// Signal end-of-stream at sample `end_abs`: emits `RxEnd(Truncated)` if
    /// a PPDU was in progress.
    pub fn finish(&mut self, end_abs: u64, events: &mut Vec<RxEvent>)
        requires
            old(self).wf(),
        ensures
            final(self).wf(),
            ({
                let idle = old(self).after_reset(end_abs);
                &&& *final(self) == (Control { cca: idle.cca.updated(end_abs), ..idle })
                &&& final(events)@ == old(events)@ + old(self).finish_report(end_abs)
            }),
    {
        let searching: bool = match self.state {
            State::Search => true,
            _ => false,
        };
        if !searching {
            events.push(RxEvent::RxEnd { sample_index: end_abs, status: RxEndStatus::Truncated });
        }
        proof {
            assert(events@ =~= old(events)@ + (if old(self).state is Search {
                Seq::<RxEvent>::empty()
            } else {
                seq![RxEvent::RxEnd { sample_index: end_abs, status: RxEndStatus::Truncated }]
            }));
        }
        self.reset(end_abs);
        self.cca.update(end_abs, None, events);
        proof {
            assert(events@ =~= old(events)@ + old(self).finish_report(end_abs));
        }
    }
}

/// The samples of a wanted stage are buffered.
pub proof fn lemma_wanted_is_buffered(c: Control, buf_abs: u64, end_abs: u64)
    requires
        c.wf(),
        buf_abs <= end_abs <= MAX_SAMPLES,
    ensures
        match c.wanted(buf_abs, end_abs) {
            Want::Search { from } => buf_abs <= from <= end_abs,
            Want::Ltf { start } => buf_abs <= start && start + 480 <= end_abs,
            Want::Sig { first, second } => buf_abs <= first < second && second + 64 <= end_abs,
            Want::Data { start, symbol: _ } => buf_abs <= start && start + 64 <= end_abs,
            Want::More => true,
        },
{
}

/// However the stream is cut into pieces, a stage past the search reads the
/// same samples: what is wanted stays wanted when more samples arrive.
pub proof fn lemma_more_samples_same_stage(c: Control, buf_abs: u64, end_abs: u64, later: u64)
    requires
        c.wf(),
        !(c.state is Search),
        buf_abs <= end_abs <= later <= MAX_SAMPLES,
        !(c.wanted(buf_abs, end_abs) is More),
    ensures
        c.wanted(buf_abs, later) == c.wanted(buf_abs, end_abs),
{
}

/// Only PPDUs with one space-time stream are supported.
proof fn lemma_supported_single_stream(c: SigContent)
    requires
        c.wf(),
    ensures
        c.spec_verdict() matches Some(SigVerdict::Supported(r)) ==> r.num_sts == 1,
{
}

/// After any PPDU is left, the receiver searches again and reports BUSY while
/// a hold lasts or energy is detected.
pub proof fn lemma_rearm(c: Control, at: u64, scan_from: u64, hold: Option<u64>)
    ensures
        c.rearmed(at, scan_from, hold).state == State::Search,
        c.rearmed(at, scan_from, hold).scan_abs == scan_from,
        !c.rearmed(at, scan_from, hold).cca.in_ppdu,
        hold matches Some(h) ==> h > at ==> c.rearmed(at, scan_from, hold).cca.busy,
        hold is None && c.cca.hold_until is None ==> c.rearmed(at, scan_from, hold).cca.busy
            == c.cca.ed_busy,
{
}

} // verus!
