//! Transmit plans and the receive state machine.

use s2g::bits::bits_to_bytes;
use s2g::clock::{time_us_of, unix_time_us, EpochTime};
use s2g::error::PhyError;
use s2g::ldpc::ppdu::PpduParams;
use s2g::params::{mcs_params, valid_mcs};
use s2g::rx::buffer::SampleBuffer;
use s2g::rx::decode::{extract_psdu, DataDecoder};
use s2g::rx::{CcaReason, Control, RxConfig, RxEndStatus, RxEvent, State, Want};
use s2g::scrambler::{recover_seed, scramble_in_place, sequence};
use s2g::sig::parse::{ndp_bits, parse};
use s2g::sig::{SigContent, SigError, SigVerdict};
use s2g::tx::{
    aggregated_capacity, build_data_bits, data_geometry, n_sym, pick_seed, plan_ndp, plan_ppdu,
    plan_with_seed, seed_from_clock, symbol_gi, txtime_us, txtime_us_coded, TxPlan,
};
use s2g::vector::{data_field_geometry, Coding, GuardInterval, PreambleType, TxVector};

#[test]
fn n_sym_matches_digest_examples() {
    assert_eq!(n_sym(2, 100, false).unwrap(), 11);
    assert_eq!(n_sym(0, 100, false).unwrap(), 32);
    assert_eq!(txtime_us(0, 100, false).unwrap(), 1520);
}

#[test]
fn ldpc_geometry() {
    let g = data_geometry(0, 100, false, Coding::Ldpc).unwrap();
    assert_eq!(g.n_sym_init, 32);
    assert_eq!(g.n_sym, 33);
    assert!(g.ldpc_extra);
    assert_eq!(g.length_field, 100);
    let ga = data_geometry(0, 100, true, Coding::Ldpc).unwrap();
    assert_eq!(ga.length_field, 33);
    assert_eq!(txtime_us_coded(0, 100, false, Coding::Ldpc).unwrap(), 240 + 33 * 40);
    assert_eq!(aggregated_capacity(0, 100, Coding::Ldpc).unwrap(), (32 * 26 - 8) / 8);
    assert_eq!(aggregated_capacity(0, 100, Coding::Bcc).unwrap(), (32 * 26 - 14) / 8);
}

#[test]
fn length_limits() {
    assert!(n_sym(0, 0, false).is_err());
    assert!(n_sym(0, 512, false).is_err());
    assert!(n_sym(0, 512, true).is_ok());
    assert!(n_sym(0, 1659, true).is_ok());
    assert!(n_sym(0, 1700, true).is_err());
}

#[test]
fn a_psdu_padded_to_the_capacity_takes_no_more_symbols() {
    for coding in [Coding::Bcc, Coding::Ldpc] {
        for mcs in valid_mcs() {
            for octets in [1, 37, 100, 600, 1500] {
                let cap = aggregated_capacity(mcs, octets, coding).unwrap();
                assert!(cap >= octets);
                let a = data_geometry(mcs, octets, true, coding).unwrap();
                assert_eq!(data_geometry(mcs, cap, true, coding).unwrap(), a);
            }
        }
    }
}

#[test]
fn seeds_are_never_zero() {
    for nanos in [0u32, 1, 12345, 999_999_999, 126, 127, 128] {
        let s = seed_from_clock(Some(EpochTime { secs: 5, nanos }));
        assert!((1..=127).contains(&s));
    }
    assert!((1..=127).contains(&seed_from_clock(None)));
    for _ in 0..50 {
        assert!((1..=127).contains(&pick_seed()));
    }
}

#[test]
fn clock_readings() {
    // After 2023 and before the year 2500.
    let now = unix_time_us();
    assert!(now > 1_672_531_200_000_000 && now < 16_725_225_600_000_000);
    assert_eq!(time_us_of(Some(EpochTime { secs: 3, nanos: 4_567_999 })), 3_004_567);
    assert_eq!(time_us_of(None), 0);
}

fn txv(mcs: u8, coding: Coding, seed: u8) -> TxVector {
    TxVector { mcs, fec_coding: coding, scrambler_seed: Some(seed), ..Default::default() }
}

#[test]
fn plans_are_determined_by_the_seed() {
    for mcs in valid_mcs() {
        for coding in [Coding::Bcc, Coding::Ldpc] {
            let psdu: Vec<u8> = (0..137u32).map(|i| (i * 7 + mcs as u32) as u8).collect();
            let t = txv(mcs, coding, 93);
            let p = plan_ppdu(&t, &psdu).unwrap();
            let g = data_geometry(mcs, psdu.len(), false, coding).unwrap();
            assert_eq!(p.info.scrambler_seed, 93);
            assert_eq!(p.info.geometry, g);
            assert_eq!(p.info.txtime_us, 240 + 40 * g.n_sym as u32);
            assert_eq!(plan_ppdu(&t, &psdu).unwrap(), p);
            assert_eq!(plan_with_seed(&t, &psdu, 93).unwrap(), p);
            // Another seed changes the data only.
            let q = plan_ppdu(&txv(mcs, coding, 77), &psdu).unwrap();
            assert_eq!(q.sig_bits, p.sig_bits);
            assert_eq!(q.data.len(), p.data.len());
            assert_ne!(q.data, p.data);
        }
    }
}

#[test]
fn a_seed_is_drawn_where_none_is_given() {
    let t = TxVector { mcs: 1, ..Default::default() };
    let psdu = [0x55u8; 40];
    let p = plan_ppdu(&t, &psdu).unwrap();
    let s = p.info.scrambler_seed;
    assert!((1..=127).contains(&s));
    assert_eq!(plan_with_seed(&t, &psdu, s).unwrap(), p);
}

#[test]
fn long_preamble_and_short_gi_times() {
    let psdu = [0x3Cu8; 90];
    let n = n_sym(3, 90, false).unwrap();
    let long = plan_ppdu(
        &TxVector { preamble_type: PreambleType::S1gLong, ..txv(3, Coding::Bcc, 4) },
        &psdu,
    )
    .unwrap();
    assert_eq!(long.info.txtime_us, 360 + 40 * n as u32);
    let sgi =
        plan_ppdu(&TxVector { gi: GuardInterval::Short, ..txv(3, Coding::Bcc, 4) }, &psdu).unwrap();
    assert_eq!(sgi.info.txtime_us, 240 + 40 + 36 * (n as u32 - 1));
    let short = plan_ppdu(&txv(3, Coding::Bcc, 4), &psdu).unwrap();
    assert_ne!(sgi.sig_bits, short.sig_bits);
    assert_ne!(long.sig_bits, short.sig_bits);
    assert_eq!(sgi.data, short.data);
    assert_eq!((symbol_gi(GuardInterval::Short, 0), symbol_gi(GuardInterval::Short, 1)), (16, 8));
    assert_eq!((symbol_gi(GuardInterval::Long, 0), symbol_gi(GuardInterval::Long, 9)), (16, 16));
}

#[test]
fn plan_errors() {
    let psdu = [1u8; 10];
    assert_eq!(plan_ppdu(&txv(9, Coding::Bcc, 1), &psdu), Err(PhyError::InvalidMcs(9)));
    assert!(matches!(
        plan_ppdu(&txv(0, Coding::Bcc, 1), &[]),
        Err(PhyError::InvalidLength { len: 0, .. })
    ));
    assert!(matches!(plan_ppdu(&txv(0, Coding::Bcc, 0), &psdu), Err(PhyError::InvalidTxVector(_))));
    assert!(matches!(
        plan_ppdu(&txv(0, Coding::Bcc, 128), &psdu),
        Err(PhyError::InvalidTxVector(_))
    ));
    assert_eq!(plan_ndp(0x1F_0000_0001).unwrap(), ndp_bits(0x1F_0000_0001));
    assert!(plan_ndp(1u64 << 37).is_err());
}

#[test]
fn the_receiver_reads_back_what_was_planned() {
    for coding in [Coding::Bcc, Coding::Ldpc] {
        for aggregation in [false, true] {
            for preamble_type in [PreambleType::S1gShort, PreambleType::S1gLong] {
                for mcs in valid_mcs() {
                    let psdu: Vec<u8> = (0..120u32).map(|i| (i * 31 + mcs as u32) as u8).collect();
                    let t = TxVector { aggregation, preamble_type, ..txv(mcs, coding, 45) };
                    let plan = plan_ppdu(&t, &psdu).unwrap();
                    let content = parse(&plan.sig_bits, preamble_type).unwrap();
                    let rxv = match content.verdict() {
                        Some(SigVerdict::Supported(r)) => r,
                        other => panic!("{other:?}"),
                    };
                    assert_eq!(rxv.mcs, mcs);
                    assert_eq!(rxv.fec_coding, coding);
                    assert_eq!(rxv.n_sym, plan.info.geometry.n_sym);
                    assert_eq!(rxv.ppdu_duration_us(), plan.info.txtime_us);
                    // The data bits as the transmitter hands them to its encoder.
                    let n = plan.info.geometry.n_sym_init * mcs_params(mcs).unwrap().n_dbps;
                    let bits = build_data_bits(coding, 45, &psdu, n);
                    let r = extract_psdu(coding, &bits, rxv.psdu_length);
                    assert_eq!(r.scrambler_seed, 45);
                    assert!(r.psdu.len() >= psdu.len());
                    assert_eq!(&r.psdu[..psdu.len()], &psdu[..]);
                    if !aggregation {
                        assert_eq!(r.psdu, psdu);
                    } else {
                        assert!(r.psdu[psdu.len()..].iter().all(|b| *b == 0));
                    }
                }
            }
        }
    }
}

#[test]
fn data_bits_layout() {
    // SERVICE (8 zeros), the PSDU, padding, and for BCC six unscrambled zeros.
    let mut bits = build_data_bits(Coding::Bcc, 45, &[0xA5, 0x0F], 52);
    assert_eq!(bits.len(), 52);
    assert_eq!(recover_seed(&bits), 45);
    scramble_in_place(45, &mut bits);
    assert_eq!(&bits[..8], &[0; 8]);
    assert_eq!(bits_to_bytes(&bits[8..24]), vec![0xA5, 0x0F]);
    assert_eq!(&bits[24..46], &[0; 22]);
    scramble_in_place(45, &mut bits);
    assert_eq!(&bits[46..], &[0; 6]);
}

#[test]
fn symbols_are_collected_until_the_last() {
    let mut d: DataDecoder<f32> = DataDecoder::new(Coding::Ldpc, 3, 10);
    assert!(!d.push_symbol(&[1.0, 2.0]));
    assert!(!d.push_symbol(&[3.0]));
    assert!(d.push_symbol(&[4.0]));
    assert_eq!(d.soft, vec![1.0, 2.0, 3.0, 4.0]);
    assert_eq!(d.fed, 3);
}

#[test]
fn sample_positions_are_absolute() {
    let mut b: SampleBuffer<i32> = SampleBuffer::new();
    b.push(&[0, 1, 2, 3, 4]);
    assert_eq!(b.end_abs(), 5);
    assert_eq!(b.extract(1, 3), Some(vec![1, 2, 3]));
    assert_eq!(b.extract(3, 3), None);
    b.push(&[5, 6]);
    assert_eq!(b.extract(3, 3), Some(vec![3, 4, 5]));
    b.trim(0);
    assert_eq!(b.end_abs(), 7);
}

/// A control that has found an LTF at sample 500.
fn at_sig(cfg: RxConfig, events: &mut Vec<RxEvent>) -> Control {
    let mut c = Control::new(cfg);
    assert_eq!(c.next(0, 1000), Want::Search { from: 0 });
    assert_eq!(c.on_search(Some(300), 1000, events), None);
    assert_eq!(c.state, State::LtfSync { trig: 300 });
    assert_eq!(c.next(0, 700), Want::More);
    assert_eq!(c.next(0, 1000), Want::Ltf { start: 300 });
    c.on_ltf(Some(200), events);
    assert_eq!(c.state, State::Sig { anchor: 500 });
    assert_eq!(c.next(0, 1000), Want::Sig { first: 638, second: 718 });
    c
}

fn on(emit_ppdu_start: bool) -> RxConfig {
    RxConfig { emit_ppdu_start, ..Default::default() }
}

fn sig_of(t: &TxVector, psdu: &[u8]) -> Result<SigContent, SigError> {
    parse(&plan_ppdu(t, psdu).unwrap().sig_bits, t.preamble_type)
}

#[test]
fn a_whole_reception() {
    let mut events = Vec::new();
    let mut c = at_sig(on(true), &mut events);
    assert_eq!(
        events,
        vec![
            RxEvent::PpduStart { sample_index: 300 },
            RxEvent::Cca {
                sample_index: 300,
                busy: true,
                reason: Some(CcaReason::PreambleDetect),
                hold_us: 0
            },
        ]
    );
    events.clear();
    let t = txv(4, Coding::Bcc, 9);
    c.on_sig(sig_of(&t, &[7; 100]), 200, 100, &mut events);
    let rxv = match &events[..] {
        [RxEvent::RxStart { sample_index: 500, rxvector }] => *rxvector,
        other => panic!("{other:?}"),
    };
    assert_eq!((rxv.rssi, rxv.rcpi, rxv.n_sym), (200, 100, 6));
    events.clear();
    // Data windows: 288 samples after the anchor, the GI, six early.
    for n in 0..6u64 {
        let start = 500 + 288 + 80 * n + 16 - 6;
        assert_eq!(c.next(0, start + 64), Want::Data { start, symbol: n as usize });
        assert_eq!(c.next(0, start + 63), Want::More);
        assert!(!c.on_carrier(false, &mut events));
        if n < 5 {
            assert_eq!(c.on_symbol(0), 500 + 288 + 80 * n);
        }
    }
    c.on_psdu(vec![7; 100], 9, &mut events);
    // The PPDU began 192 samples before the anchor and takes 480 us.
    let end = 500 - 192 + 960;
    assert_eq!(events.len(), 3);
    match &events[0] {
        RxEvent::PsduReceived { sample_index, rxvector, psdu } => {
            assert_eq!((*sample_index, rxvector.scrambler_seed), (end, 9));
            assert_eq!(psdu, &vec![7; 100]);
        }
        other => panic!("{other:?}"),
    }
    assert_eq!(events[1], RxEvent::RxEnd { sample_index: end, status: RxEndStatus::NoError });
    assert_eq!(
        events[2],
        RxEvent::Cca { sample_index: end, busy: false, reason: None, hold_us: 0 }
    );
    assert_eq!(c.state, State::Search);
    assert_eq!(c.scan_abs, end);
    assert!(!c.cca_busy());
}

#[test]
fn a_lost_carrier_is_waited_out() {
    let mut events = Vec::new();
    let mut c = at_sig(on(false), &mut events);
    c.on_sig(sig_of(&txv(4, Coding::Bcc, 9), &[7; 100]), 0, 0, &mut events);
    events.clear();
    let runs = c.cfg.carrier_lost_symbols;
    for i in 1..runs {
        assert!(!c.on_carrier(true, &mut events), "{i}");
    }
    // A symbol with signal starts the count anew.
    assert!(!c.on_carrier(false, &mut events));
    for _ in 1..runs {
        assert!(!c.on_carrier(true, &mut events));
    }
    assert!(c.on_carrier(true, &mut events));
    let end = 500 - 192 + 960;
    let at = 500 + 304;
    assert_eq!(
        events,
        vec![
            RxEvent::RxEnd { sample_index: at, status: RxEndStatus::CarrierLost },
            RxEvent::Cca {
                sample_index: at,
                busy: true,
                reason: Some(CcaReason::PpduHold),
                hold_us: ((end - at) / 2) as u32
            },
        ]
    );
    assert!(c.cca_busy());
    events.clear();
    c.expire_hold(end - 1, &mut events);
    assert!(events.is_empty());
    c.expire_hold(end, &mut events);
    assert_eq!(
        events,
        vec![RxEvent::Cca { sample_index: end, busy: false, reason: None, hold_us: 0 }]
    );
}

#[test]
fn an_unsupported_ppdu_is_announced_and_held() {
    let mut events = Vec::new();
    let mut c = at_sig(on(false), &mut events);
    let mut fields = match sig_of(&txv(4, Coding::Bcc, 9), &[7; 100]) {
        Ok(SigContent::Normal(f)) => f,
        other => panic!("{other:?}"),
    };
    fields.nsts = 1;
    events.clear();
    c.on_sig(parse(&fields.to_bits(), PreambleType::S1gShort), 1, 2, &mut events);
    // 280 us of preamble for two streams and three symbols at twice the rate.
    let end = 500 - 192 + 2 * (280 + 3 * 40);
    assert!(matches!(events[0], RxEvent::RxStart { sample_index: 500, .. }));
    assert_eq!(
        events[1],
        RxEvent::RxEnd {
            sample_index: 500,
            status: RxEndStatus::UnsupportedRate("multiple spatial streams")
        }
    );
    assert_eq!(
        events[2],
        RxEvent::Cca {
            sample_index: 788,
            busy: true,
            reason: Some(CcaReason::PpduHold),
            hold_us: ((end - 788) / 2) as u32
        }
    );
    assert_eq!(c.scan_abs, end);
}

#[test]
fn violations_release_or_hold_the_channel() {
    // A bad CRC tells nothing of the duration.
    let mut events = Vec::new();
    let mut c = at_sig(on(false), &mut events);
    events.clear();
    c.on_sig(Err(SigError::CrcFailed), 1, 2, &mut events);
    assert_eq!(
        events,
        vec![
            RxEvent::RxEnd { sample_index: 500, status: RxEndStatus::FormatViolation },
            RxEvent::Cca { sample_index: 788, busy: false, reason: None, hold_us: 0 },
        ]
    );
    assert_eq!(c.scan_abs, 500);
    // A reserved indication whose duration is known holds the channel for it.
    let mut c = at_sig(on(false), &mut events);
    events.clear();
    let e = SigError::Reserved { reason: "reserved", duration_us: Some(480) };
    c.on_sig(Err(e), 1, 2, &mut events);
    assert_eq!(
        events[1],
        RxEvent::Cca {
            sample_index: 788,
            busy: true,
            reason: Some(CcaReason::PpduHold),
            hold_us: (500 - 192 + 960 - 788) / 2
        }
    );
}

#[test]
fn an_ndp_is_reported_at_its_end() {
    let mut events = Vec::new();
    let mut c = at_sig(on(false), &mut events);
    events.clear();
    c.on_sig(parse(&ndp_bits(0x1F_0000_0001), PreambleType::S1gShort), 1, 2, &mut events);
    assert_eq!(events[0], RxEvent::NdpReceived { sample_index: 788, body: 0x1F_0000_0001 });
    assert_eq!(c.state, State::Search);
}

#[test]
fn a_false_alarm_resumes_after_the_trigger() {
    let mut events = Vec::new();
    let mut c = Control::new(on(false));
    c.on_search(Some(300), 1000, &mut events);
    c.on_ltf(None, &mut events);
    assert_eq!((c.state, c.scan_abs), (State::Search, 364));
    assert!(!c.cca_busy());
    // A scan that finds nothing leaves an overlap.
    assert_eq!(c.on_search(None, 1000, &mut events), Some(888));
    assert_eq!(c.next(900, 2000), Want::Search { from: 900 });
}

#[test]
fn energy_alone_makes_the_channel_busy() {
    let mut events = Vec::new();
    let mut c = Control::new(on(false));
    assert_eq!(c.ed_window(0, 79), None);
    assert_eq!(c.ed_window(0, 80), Some(0));
    c.on_energy(true, &mut events);
    c.on_energy(true, &mut events);
    c.on_energy(false, &mut events);
    assert_eq!(
        events,
        vec![
            RxEvent::Cca {
                sample_index: 80,
                busy: true,
                reason: Some(CcaReason::EnergyDetect),
                hold_us: 0
            },
            RxEvent::Cca { sample_index: 240, busy: false, reason: None, hold_us: 0 },
        ]
    );
    // Without the events nothing is said, and the state is kept all the same.
    let mut quiet = Control::new(RxConfig { emit_cca: false, ..Default::default() });
    events.clear();
    quiet.on_energy(true, &mut events);
    assert!(events.is_empty() && quiet.cca_busy());
}

#[test]
fn the_end_of_the_stream_truncates() {
    let mut events = Vec::new();
    let mut c = at_sig(on(false), &mut events);
    events.clear();
    c.finish(600, &mut events);
    assert_eq!(
        events,
        vec![
            RxEvent::RxEnd { sample_index: 600, status: RxEndStatus::Truncated },
            RxEvent::Cca { sample_index: 600, busy: false, reason: None, hold_us: 0 },
        ]
    );
    events.clear();
    c.finish(700, &mut events);
    assert!(events.is_empty());
    let mut d = at_sig(on(false), &mut events);
    d.reset(900);
    assert_eq!((d.state, d.scan_abs), (State::Search, 900));
}

/// STFs at fixed positions, an LTF 192 samples behind each, and a SIG field that
/// announces one PSDU per PPDU.
struct Scene {
    starts: Vec<u64>,
    psdu: Vec<u8>,
}

/// What is heard of `len` samples that arrive `chunk` at a time.
fn heard(scene: &Scene, len: u64, chunk: u64) -> Vec<RxEvent> {
    let mut c = Control::new(RxConfig::default());
    let mut buf: SampleBuffer<u8> = SampleBuffer::new();
    let mut events = Vec::new();
    while buf.end_abs() < len {
        let n = chunk.min(len - buf.end_abs());
        buf.push(&vec![0; n as usize]);
        let end = buf.end_abs();
        while let Some(at) = c.ed_window(buf.buf_abs, end) {
            c.on_energy(at % 400 < 240, &mut events);
        }
        c.expire_hold(end, &mut events);
        loop {
            match c.next(buf.buf_abs, end) {
                Want::More => break,
                Want::Search { from } => {
                    let first = scene.starts.iter().copied().find(|&s| s >= from);
                    let found = first.filter(|s| s + 95 <= end);
                    if let Some(keep) = c.on_search(found, end, &mut events) {
                        buf.trim(keep);
                        break;
                    }
                }
                // One of the triggers is a false alarm.
                Want::Ltf { start } => {
                    let o = if start == 2000 { None } else { Some(192) };
                    c.on_ltf(o, &mut events)
                }
                Want::Sig { .. } => {
                    let t = txv(3, Coding::Ldpc, 5);
                    c.on_sig(sig_of(&t, &scene.psdu), 1, 2, &mut events)
                }
                Want::Data { symbol, .. } => {
                    assert!(!c.on_carrier(symbol % 3 == 2, &mut events));
                    let State::Data(d) = c.state else { panic!("{:?}", c.state) };
                    if symbol + 1 < d.rxv.n_sym {
                        let keep = c.on_symbol(-(symbol as i64 % 5));
                        buf.trim(keep);
                    } else {
                        c.on_psdu(scene.psdu.clone(), 5, &mut events);
                    }
                }
            }
        }
    }
    c.finish(len, &mut events);
    events.into_iter().filter(|e| !matches!(e, RxEvent::Cca { .. })).collect()
}

#[test]
fn what_is_heard_does_not_depend_on_the_chunking() {
    let scene = Scene { starts: vec![250, 2000, 3000, 3010, 9000], psdu: vec![9; 90] };
    let whole = heard(&scene, 9600, 9600);
    let psdus = |v: &[RxEvent]| v.iter().filter(|e| matches!(e, RxEvent::PsduReceived { .. })).count();
    assert_eq!(psdus(&whole), 2);
    assert_eq!(
        whole.last(),
        Some(&RxEvent::RxEnd { sample_index: 9600, status: RxEndStatus::Truncated })
    );
    for chunk in [1u64, 7, 64, 79, 80, 81, 95, 96, 112, 1000] {
        assert_eq!(heard(&scene, 9600, chunk), whole, "chunk {chunk}");
    }
}

#[test]
fn every_window_of_the_scrambler_is_balanced() {
    for seed in 0..=255u8 {
        let s = sequence(seed, 400);
        assert_eq!(s, sequence(seed & 127, 400));
        for from in 0..273 {
            let ones = s[from..from + 127].iter().filter(|&&b| b == 1).count();
            assert_eq!(ones, if seed & 127 == 0 { 0 } else { 64 });
        }
    }
}

#[test]
fn geometry_without_aggregation_for_any_rate() {
    let n = usize::MAX;
    assert_eq!(data_field_geometry(101, false, Coding::Bcc, false, false, n), Some((1, 101)));
    assert_eq!(data_field_geometry(101, false, Coding::Ldpc, true, true, n / 2), Some((4, 101)));
    assert_eq!(data_field_geometry(101, false, Coding::Bcc, false, true, 156), Some((6, 101)));
    assert_eq!(data_field_geometry(0, false, Coding::Bcc, false, false, n), None);
}

/// The Data-field bits of a plan before coding.
fn decoded(plan: &TxPlan) -> Vec<u8> {
    match plan.fec_coding {
        Coding::Bcc => plan.data.clone(),
        Coding::Ldpc => {
            let (g, m) = (plan.info.geometry, plan.mcs);
            let p = PpduParams::new(g.n_sym_init, m.n_dbps, m.n_cbps, m.rate);
            let info = |j: usize| {
                let w = p.plan(j);
                plan.data[w.tx_start..w.tx_start + w.n_info].to_vec()
            };
            (0..p.n_cw).flat_map(info).collect()
        }
    }
}

#[test]
fn what_is_sent_is_received() {
    let psdu: Vec<u8> = (0..150u32).map(|i| (i * 7) as u8).collect();
    let mut spacings = Vec::new();
    for preamble_type in [PreambleType::S1gShort, PreambleType::S1gLong] {
        for gi in [GuardInterval::Long, GuardInterval::Short] {
            for (coding, aggregation) in
                [(Coding::Bcc, false), (Coding::Ldpc, false), (Coding::Bcc, true), (Coding::Ldpc, true)]
            {
                let t = TxVector { preamble_type, gi, aggregation, ..txv(5, coding, 77) };
                let plan = plan_ppdu(&t, &psdu).unwrap();
                let mut events = Vec::new();
                let mut c = at_sig(on(false), &mut events);
                c.on_sig(parse(&plan.sig_bits, preamble_type), 1, 2, &mut events);
                let mut starts = Vec::new();
                while let Want::Data { start, symbol } = c.next(0, 100_000) {
                    starts.push(start);
                    assert!(!c.on_carrier(false, &mut events));
                    let State::Data(d) = c.state else { panic!("{:?}", c.state) };
                    if symbol + 1 < d.rxv.n_sym {
                        c.on_symbol(0);
                    } else {
                        let r = extract_psdu(coding, &decoded(&plan), d.rxv.psdu_length);
                        c.on_psdu(r.psdu, r.scrambler_seed, &mut events);
                    }
                }
                assert_eq!(starts.len(), plan.info.geometry.n_sym);
                spacings.push((starts[0] - 494, starts[1] - starts[0], starts[2] - starts[1]));
                let heard: Vec<&RxEvent> =
                    events.iter().filter(|e| !matches!(e, RxEvent::Cca { .. })).collect();
                assert_eq!(heard.len(), 3, "{heard:?}");
                match heard[1] {
                    RxEvent::PsduReceived { rxvector, psdu: got, .. } => {
                        assert_eq!(rxvector.scrambler_seed, 77);
                        assert_eq!(got[..150], psdu);
                        assert!(got[150..].iter().all(|&b| b == 0));
                        assert!(aggregation || got.len() == 150);
                    }
                    other => panic!("{other:?}"),
                }
                assert_eq!(
                    *heard[2],
                    RxEvent::RxEnd {
                        sample_index: 500 - 192 + 2 * plan.info.txtime_us as u64,
                        status: RxEndStatus::NoError
                    }
                );
            }
        }
    }
    for (k, s) in spacings.iter().enumerate() {
        let lead = if k < 8 { 304 } else { 544 };
        let step = if k % 8 < 4 { 80 } else { 72 };
        assert_eq!(*s, (lead, step, step));
    }
}
