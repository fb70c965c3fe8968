//! SIG fields: bit layout, CRC, parsing and verdicts.

use s2g::error::PhyError;
use s2g::sig::parse::{ndp_bits, parse, parse_long, parse_short};
use s2g::sig::{crc4, SigAMu, SigASu, SigContent, SigError, SigFields, SigVerdict};
use s2g::vector::{
    data_field_geometry, ppdu_duration_us, Coding, GuardInterval, PreambleType, ResponseIndication,
    RxVector, TxVector,
};

fn sample_fields() -> SigFields {
    SigFields {
        stbc: false,
        uplink_indication: false,
        bandwidth: 0,
        nsts: 0,
        id: (5 << 3) | 3, // partial_aid 5, color 3
        short_gi: false,
        ldpc: false,
        ldpc_extra: true,
        mcs: 4,
        smoothing: true,
        aggregation: false,
        length: 100,
        response_indication: ResponseIndication::Normal,
        traveling_pilots: false,
    }
}

fn sample_sig_a() -> SigASu {
    SigASu {
        stbc: false,
        uplink_indication: true,
        bandwidth: 0,
        nsts: 0,
        id: 0x155,
        short_gi: false,
        ldpc: true,
        ldpc_extra: true,
        mcs: 3,
        beam_change_or_smoothing: false,
        aggregation: true,
        length: 37,
        response_indication: ResponseIndication::Ndp,
        traveling_pilots: true,
    }
}

fn sample_mu() -> SigAMu {
    SigAMu {
        stbc: false,
        nsts: [1, 0, 2, 1],
        bandwidth: 0,
        group_id: 17,
        short_gi: true,
        ldpc: [false, false, true, false],
        ldpc_extra: true,
        length: 200,
        response_indication: ResponseIndication::Long,
        traveling_pilots: false,
    }
}

#[test]
fn crc4_spec_example() {
    let m: Vec<u8> =
        "11011001110110100111101111".chars().map(|c| c.to_digit(2).unwrap() as u8).collect();
    assert_eq!(m.len(), 26);
    assert_eq!(crc4(&m), [0, 1, 0, 1]);
}

#[test]
fn bits_roundtrip() {
    let f = sample_fields();
    let bits = f.to_bits();
    assert_eq!(bits.len(), 48);
    match parse_short(&bits).unwrap() {
        SigContent::Normal(g) => {
            assert_eq!(g, f);
            assert_eq!(g.color(), 3);
            assert_eq!(g.partial_aid(), 5);
        }
        _ => panic!("not normal"),
    }
}

#[test]
fn corrupted_bits_fail_crc() {
    let mut bits = sample_fields().to_bits();
    bits[10] ^= 1;
    assert!(matches!(parse_short(&bits), Err(SigError::CrcFailed)));
}

#[test]
fn any_single_bit_error_is_noticed() {
    for i in 0..48 {
        let mut bits = sample_fields().to_bits();
        bits[i] ^= 1;
        assert!(parse(&bits, PreambleType::S1gShort).is_err(), "bit {i}");
        let mut bits = sample_sig_a().to_bits();
        bits[i] ^= 1;
        assert!(parse(&bits, PreambleType::S1gLong).is_err(), "bit {i}");
        let mut bits = ndp_bits(0x12_3456_789A);
        bits[i] ^= 1;
        assert!(parse(&bits, PreambleType::S1gShort).is_err(), "bit {i}");
    }
}

#[test]
fn ndp_bits_roundtrip() {
    let body = 0x0012_3456_789A_u64 & ((1 << 37) - 1);
    let bits = ndp_bits(body);
    let content = parse(&bits, PreambleType::S1gShort);
    assert_eq!(content.unwrap(), SigContent::Ndp { body });
    assert_eq!(content.unwrap().verdict(), None);
}

#[test]
fn sig_a_su_roundtrip_and_verdict() {
    let f = sample_sig_a();
    let bits = f.to_bits();
    match parse(&bits, PreambleType::S1gLong).unwrap() {
        SigContent::LongSu(g) => {
            assert_eq!(g, f);
            match g.verdict() {
                SigVerdict::Supported(rxv) => {
                    assert_eq!(rxv.preamble_type, PreambleType::S1gLong);
                    assert_eq!(rxv.fec_coding, Coding::Ldpc);
                    assert!(rxv.aggregation);
                    assert_eq!(rxv.n_sym, 37);
                    assert_eq!(rxv.psdu_length, 467);
                    assert_eq!(rxv.partial_aid, 0x155);
                    assert_eq!(rxv.response_indication, ResponseIndication::Ndp);
                    assert!(rxv.traveling_pilots);
                    assert_eq!(rxv.ppdu_duration_us(), 360 + 37 * 40);
                }
                other => panic!("{other:?}"),
            }
        }
        other => panic!("{other:?}"),
    }
}

#[test]
fn sig_a_mu_roundtrip() {
    let f = sample_mu();
    let bits = f.to_bits();
    match parse(&bits, PreambleType::S1gLong).unwrap() {
        SigContent::LongMu(g) => {
            assert_eq!(g.nsts, f.nsts);
            assert_eq!(g.group_id, 17);
            assert!(g.short_gi);
            assert!(g.ldpc[2]);
            assert_eq!(g.length, 200);
            match g.verdict() {
                SigVerdict::Unsupported(rxv, _) => {
                    assert!(rxv.mu);
                    assert_eq!(rxv.num_sts, 4);
                    assert_eq!(rxv.gi, GuardInterval::Short);
                    assert_eq!(rxv.ppdu_duration_us(), 480 + 40 + 199 * 36);
                }
                other => panic!("{other:?}"),
            }
        }
        other => panic!("{other:?}"),
    }
}

#[test]
fn mu_coding_flags_of_unused_positions_come_back_set() {
    let mut f = sample_mu();
    f.ldpc = [true, false, false, false];
    match parse_long(&f.to_bits()).unwrap() {
        SigContent::LongMu(g) => assert_eq!(g.ldpc, [true, true, false, false]),
        other => panic!("{other:?}"),
    }
    assert_eq!(f.duration_if_computable(), Some(480 + 40 + 199 * 36));
    f.length = 0;
    assert_eq!(f.duration_if_computable(), None);
    assert!(matches!(f.verdict(), SigVerdict::Reserved { duration_us: None, .. }));
}

#[test]
fn rxvector_derivation() {
    let f = sample_fields();
    let rxv = f.to_rxvector().unwrap();
    assert_eq!(rxv.psdu_length, 100);
    assert_eq!(rxv.n_sym, 6);
    assert_eq!(rxv.length, 100);
    let mut fa = sample_fields();
    fa.aggregation = true;
    fa.length = 20;
    let rxa = fa.to_rxvector().unwrap();
    assert_eq!(rxa.n_sym, 20);
    assert_eq!(rxa.psdu_length, (20 * 156 - 14) / 8);
}

#[test]
fn rxvector_of_other_modes_is_an_error() {
    let mut f = sample_fields();
    f.bandwidth = 1;
    assert_eq!(f.to_rxvector(), Err(PhyError::Unsupported("bandwidth > 2 MHz")));
    let mut z = sample_fields();
    z.length = 0;
    assert!(matches!(z.to_rxvector(), Err(PhyError::InvalidLength { len: 0, .. })));
    assert_eq!(z.duration_if_computable(), None);
    assert_eq!(sample_fields().duration_if_computable(), Some(480));
    assert_eq!(sample_sig_a().duration_if_computable(), Some(360 + 37 * 40));
}

#[test]
fn verdict_classes() {
    let mut f = sample_fields();
    f.ldpc = true;
    f.ldpc_extra = false;
    assert!(matches!(f.verdict(), SigVerdict::Supported(_)));
    let mut f2 = sample_fields();
    f2.nsts = 1;
    assert!(matches!(f2.verdict(), SigVerdict::Unsupported(_, "multiple spatial streams")));
    let mut f3 = sample_fields();
    f3.mcs = 9;
    assert!(matches!(f3.verdict(), SigVerdict::Reserved { duration_us: None, .. }));
    f3.aggregation = true;
    f3.length = 20;
    assert!(matches!(f3.verdict(), SigVerdict::Reserved { duration_us: Some(1040), .. }));
    let mut f4 = sample_fields();
    f4.stbc = true;
    assert!(matches!(f4.verdict(), SigVerdict::Reserved { .. }));
    let mut f5 = sample_fields();
    f5.ldpc_extra = false;
    assert!(matches!(f5.verdict(), SigVerdict::Reserved { duration_us: Some(480), .. }));
    let mut f6 = sample_fields();
    f6.length = 0;
    assert!(matches!(f6.verdict(), SigVerdict::Reserved { duration_us: None, .. }));
    let mut f7 = sample_fields();
    f7.short_gi = true;
    match f7.verdict() {
        SigVerdict::Supported(r) => {
            assert_eq!(r.gi, GuardInterval::Short);
            assert_eq!(r.data_duration_us(), 40 + 5 * 36);
        }
        other => panic!("{other:?}"),
    }
    let mut f8 = sample_fields();
    f8.bandwidth = 1;
    match f8.verdict() {
        SigVerdict::Unsupported(r, "bandwidth > 2 MHz") => {
            assert_eq!(r.data_duration_us(), 6 * 40)
        }
        other => panic!("{other:?}"),
    }
    let mut bits = sample_fields().to_bits();
    bits[0] = 0;
    let crc = crc4(&bits[..38]);
    bits[38..42].copy_from_slice(&crc);
    assert!(matches!(parse_short(&bits), Err(SigError::Reserved { duration_us: Some(480), .. })));
}

#[test]
fn nonzero_tail_is_reserved() {
    let mut bits = sample_fields().to_bits();
    bits[47] = 1;
    assert!(matches!(parse_short(&bits), Err(SigError::Reserved { duration_us: None, .. })));
}

#[test]
fn fields_from_a_txvector() {
    let txv = TxVector { mcs: 4, color: 3, partial_aid: 5, ..Default::default() };
    let f = SigFields::from_txvector(&txv, 100, true).unwrap();
    assert_eq!((f.color(), f.partial_aid(), f.mcs, f.length), (3, 5, 4, 100));
    let up = TxVector { uplink_indication: true, partial_aid: 511, ..Default::default() };
    assert_eq!(SigFields::from_txvector(&up, 1, true).unwrap().partial_aid(), 511);
    let color = TxVector { color: 8, ..Default::default() };
    assert!(matches!(SigFields::from_txvector(&color, 1, true), Err(PhyError::InvalidTxVector(_))));
    let aid = TxVector { partial_aid: 64, ..Default::default() };
    assert!(matches!(SigASu::from_txvector(&aid, 1, true), Err(PhyError::InvalidTxVector(_))));
}

#[test]
fn short_preamble_durations() {
    let r = RxVector { n_sym: 32, ..Default::default() };
    assert_eq!(r.preamble_duration_us(), 240);
    assert_eq!(r.ppdu_duration_us(), 240 + 32 * 40);
    assert_eq!(r.rxtime_us(), 40 + 32 * 40);
    let sgi = RxVector { n_sym: 32, gi: GuardInterval::Short, ..Default::default() };
    assert_eq!(sgi.data_duration_us(), 40 + 31 * 36);
    let two_sts = RxVector { n_sym: 10, num_sts: 2, ..Default::default() };
    assert_eq!(two_sts.preamble_duration_us(), 280);
}

#[test]
fn long_preamble_durations() {
    let r = RxVector {
        preamble_type: PreambleType::S1gLong,
        n_sym: 5,
        num_sts: 1,
        ..Default::default()
    };
    assert_eq!(r.preamble_duration_us(), 360);
    assert_eq!(r.ppdu_duration_us(), 360 + 200);
    assert_eq!(r.rxtime_us(), 40 + 40 + 40 + 200);
    let r3 = RxVector {
        preamble_type: PreambleType::S1gLong,
        n_sym: 5,
        num_sts: 3,
        ..Default::default()
    };
    assert_eq!(r3.preamble_duration_us(), 240 + 40 + 4 * 40 + 40);
}

#[test]
fn durations_of_a_single_stream() {
    assert_eq!(ppdu_duration_us(PreambleType::S1gShort, GuardInterval::Long, 32), 1520);
    assert_eq!(ppdu_duration_us(PreambleType::S1gLong, GuardInterval::Short, 5), 360 + 40 + 4 * 36);
    assert_eq!(RxVector { num_sts: 4, stbc: true, ..Default::default() }.num_ss(), 2);
    assert_eq!(RxVector { num_sts: 0, ..Default::default() }.num_ss(), 1);
}

#[test]
fn geometry_bcc() {
    assert_eq!(data_field_geometry(100, false, Coding::Bcc, false, false, 156), Some((6, 100)));
    assert_eq!(data_field_geometry(20, true, Coding::Bcc, false, false, 156), Some((20, 388)));
    assert_eq!(data_field_geometry(100, false, Coding::Bcc, false, true, 156), Some((6, 100)));
    assert_eq!(data_field_geometry(101, false, Coding::Bcc, false, true, 156), Some((6, 101)));
    assert_eq!(data_field_geometry(0, false, Coding::Bcc, false, false, 156), None);
}

#[test]
fn geometry_ldpc() {
    assert_eq!(data_field_geometry(100, false, Coding::Ldpc, false, false, 156), Some((6, 100)));
    assert_eq!(data_field_geometry(100, false, Coding::Ldpc, true, false, 156), Some((7, 100)));
    assert_eq!(data_field_geometry(21, true, Coding::Ldpc, true, false, 156), Some((21, 389)));
    assert_eq!(data_field_geometry(20, true, Coding::Ldpc, false, false, 156), Some((20, 389)));
}

#[test]
fn response_indication_codes() {
    for (r, code) in [
        (ResponseIndication::NoResponse, 0),
        (ResponseIndication::Ndp, 1),
        (ResponseIndication::Normal, 2),
        (ResponseIndication::Long, 3),
    ] {
        assert_eq!(r.to_bits(), code);
        assert_eq!(ResponseIndication::from_bits(code), r);
        assert_eq!(ResponseIndication::from_bits(code + 4), r);
    }
}
