//! Parameter tables, bit packing, scrambler, constellation and subcarrier
//! tables.

use s2g::arith::ceil_div;
use s2g::bits::{bits_to_bytes, bits_to_uint_lsb_first, bytes_to_bits, push_uint_lsb_first};
use s2g::error::PhyError;
use s2g::mapping::{axis_level, gray};
use s2g::ofdm::{
    append_from, assemble_freq_symbol, bin, ldpc_tone_demap_llrs, ldpc_tone_map,
    ldpc_tone_map_index, rotate_half, with_guard_interval, DATA_SUBCARRIER_INDICES, LDPC_D_TM,
    SIG_SUBCARRIER_INDICES,
};
use s2g::params::rf::{mid_packet_threshold_2mhz_dbm, rcpi_encode, CcaType};
use s2g::params::tx_limits::{evm_limit_db, spectral_mask_2mhz_dbr, MASK_UNITS_PER_DB};
use s2g::params::{
    mcs_modulation_rate, mcs_params, n_dbps_2mhz, n_ltf, valid_mcs, CodeRate, Modulation,
    DELTA_F_HZ, N_FFT, N_PREAMBLE_SAMPLES, N_SD, N_ST, N_SYM_SAMPLES_LGI, SAMPLE_RATE_HZ,
    SIG_N_ST, T_PREAMBLE_US,
};
use s2g::pilots::{data_pilots, polarity, sig_pilots, PILOT_INDICES, POLARITY};
use s2g::preamble::{dltf_time, dstf_time, ltf1_time, ltf_freq, stf_freq, stf_period, stf_time};
use s2g::scrambler::{recover_seed, scramble_in_place, sequence};
use s2g::sim::Rng;

const ALL: [Modulation; 6] = [
    Modulation::Bpsk,
    Modulation::Qpsk,
    Modulation::Qam16,
    Modulation::Qam64,
    Modulation::Qam256,
    Modulation::Qam1024,
];

#[test]
fn mcs_table_identities() {
    for m in valid_mcs() {
        let p = mcs_params(m).unwrap();
        assert_eq!(p.n_bpscs, p.modulation.n_bpscs());
        assert_eq!(p.n_cbps, N_SD * p.n_bpscs, "N_CBPS = 52*N_BPSCS for MCS {m}");
        let (num, den) = p.rate.as_fraction();
        assert_eq!(p.n_dbps, p.n_cbps * num / den, "N_DBPS = N_CBPS*R for MCS {m}");
        assert_eq!(p.n_cbps * num % den, 0);
        assert_eq!(n_dbps_2mhz(m, 1), Some(p.n_dbps));
    }
}

#[test]
fn data_rates_match_table() {
    let expect = [
        (0, 650),
        (1, 1300),
        (2, 1950),
        (3, 2600),
        (4, 3900),
        (5, 5200),
        (6, 5850),
        (7, 6500),
        (8, 7800),
        (11, 9750),
    ];
    for (m, kbps) in expect {
        assert_eq!(mcs_params(m).unwrap().n_dbps * 25, kbps);
    }
}

#[test]
fn invalid_mcs_rejected() {
    for m in [9u8, 10, 12, 13, 255] {
        assert!(mcs_params(m).is_err(), "MCS {m} must be invalid");
        assert_eq!(mcs_params(m), Err(PhyError::InvalidMcs(m)));
    }
}

#[test]
fn multi_stream_validity_matches_tables() {
    assert_eq!(n_dbps_2mhz(9, 1), None);
    assert_eq!(n_dbps_2mhz(9, 2), None);
    assert_eq!(n_dbps_2mhz(9, 3), Some(1040));
    assert_eq!(n_dbps_2mhz(9, 4), None);
    assert_eq!(n_dbps_2mhz(12, 3), Some(1300));
    assert_eq!(n_dbps_2mhz(7, 2), Some(520));
    assert_eq!(n_dbps_2mhz(10, 1), None);
    assert_eq!(n_dbps_2mhz(0, 5), None);
}

#[test]
fn timing_identities() {
    assert_eq!(N_FFT as f64 * DELTA_F_HZ as f64, SAMPLE_RATE_HZ as f64);
    assert_eq!(N_SYM_SAMPLES_LGI, 80);
    assert_eq!(N_PREAMBLE_SAMPLES, 480);
    assert_eq!(T_PREAMBLE_US, 240);
    assert_eq!(N_ST, 56);
    assert_eq!(SIG_N_ST, 52);
    assert_eq!(n_ltf(1), 1);
    assert_eq!(n_ltf(3), 4);
}

/// A level in dBm as whole half-decibels, rounded down.
fn half(dbm: f32) -> Option<i32> {
    if dbm.is_nan() {
        None
    } else {
        Some((2.0 * dbm).floor() as i32)
    }
}

#[test]
fn rcpi_codes() {
    assert_eq!(rcpi_encode(half(-120.0)), 0);
    assert_eq!(rcpi_encode(half(-109.5)), 1);
    assert_eq!(rcpi_encode(half(-60.0)), 100);
    assert_eq!(rcpi_encode(half(5.0)), 220);
    assert_eq!(rcpi_encode(half(f32::NAN)), 255);
}

#[test]
fn rcpi_never_falls_as_the_level_rises() {
    for h in -300..100 {
        assert!(rcpi_encode(Some(h)) <= rcpi_encode(Some(h + 1)));
    }
    assert_eq!(rcpi_encode(Some(i32::MIN)), 0);
    assert_eq!(rcpi_encode(Some(i32::MAX)), 220);
}

/// The mask in dBr at an offset in MHz.
fn mask(mhz: f64) -> f64 {
    spectral_mask_2mhz_dbr((mhz * 1000.0).round() as i32) as f64 / MASK_UNITS_PER_DB as f64
}

#[test]
fn spectral_mask_corners() {
    let m = mask;
    assert_eq!(m(0.5), 0.0);
    assert_eq!(m(0.9), 0.0);
    assert!((m(1.0) + 10.0).abs() < 1e-5);
    assert!((m(1.1) + 20.0).abs() < 1e-5);
    assert!((m(2.0) + 28.0).abs() < 1e-5);
    assert!((m(3.0) + 40.0).abs() < 1e-5);
    assert_eq!(m(-5.0), -40.0);
}

#[test]
fn limits_and_thresholds() {
    assert_eq!(evm_limit_db(Modulation::Bpsk, CodeRate::R1_2), -5);
    assert_eq!(evm_limit_db(Modulation::Qam64, CodeRate::R5_6), -27);
    assert_eq!(mid_packet_threshold_2mhz_dbm(CcaType::Type1), -89);
    assert_eq!(mid_packet_threshold_2mhz_dbm(CcaType::default()), -89);
    assert_eq!(mid_packet_threshold_2mhz_dbm(CcaType::Type2), -86);
    assert_eq!(mcs_modulation_rate(0), Some((Modulation::Bpsk, CodeRate::R1_2)));
    assert_eq!(mcs_modulation_rate(9), Some((Modulation::Qam256, CodeRate::R5_6)));
    assert_eq!(mcs_modulation_rate(10), None);
}

#[test]
fn rounding_up_division() {
    assert_eq!(ceil_div(814, 78), 11);
    assert_eq!(ceil_div(780, 78), 10);
    assert_eq!(ceil_div(0, 7), 0);
}

#[test]
fn bits_and_bytes_are_inverse() {
    let bytes: Vec<u8> = (0..=255u8).collect();
    let bits = bytes_to_bits(&bytes);
    assert_eq!(&bits[8 * 6..8 * 7], &[0, 1, 1, 0, 0, 0, 0, 0]);
    assert_eq!(bits_to_bytes(&bits), bytes);
    assert_eq!(bytes_to_bits(&bits_to_bytes(&bits)), bits);
    assert_eq!(bytes_to_bits(&[]), Vec::<u8>::new());
}

#[test]
fn integers_go_lsb_first() {
    let mut out = vec![1u8];
    push_uint_lsb_first(&mut out, 0b1011, 6);
    assert_eq!(out, vec![1, 1, 1, 0, 1, 0, 0]);
    assert_eq!(bits_to_uint_lsb_first(&out[1..]), 0b1011);
    let mut wide = Vec::new();
    push_uint_lsb_first(&mut wide, u64::MAX, 64);
    assert_eq!(bits_to_uint_lsb_first(&wide), u64::MAX);
    // Bits above the width are not sent.
    let mut narrow = Vec::new();
    push_uint_lsb_first(&mut narrow, 0xFF, 3);
    assert_eq!(narrow, vec![1, 1, 1]);
}

#[test]
fn golden_sequence_seed_112() {
    let expect_str = "00001110 11110010 11001001 00000010 00100110 00101110 10110110 00001100 \
                      11010100 11100111 10110100 00101010 11111010 01010001 10111000 1111111";
    let expect: Vec<u8> = expect_str
        .chars()
        .filter(|c| !c.is_whitespace())
        .map(|c| c.to_digit(2).unwrap() as u8)
        .collect();
    assert_eq!(expect.len(), 127);
    assert_eq!(sequence(112, 127), expect);
    let long = sequence(112, 254);
    assert_eq!(&long[127..], &expect[..]);
}

#[test]
fn roundtrip() {
    let data: Vec<u8> = (0..1000u32).map(|i| ((i * 7 + 3) % 2) as u8).collect();
    for seed in [1u8, 42, 112, 127] {
        let mut x = data.clone();
        scramble_in_place(seed, &mut x);
        assert_ne!(x, data);
        scramble_in_place(seed, &mut x);
        assert_eq!(x, data);
    }
}

#[test]
fn seed_recovery() {
    for seed in 0..=127u8 {
        let mut service = vec![0u8; 7];
        scramble_in_place(seed, &mut service);
        assert_eq!(recover_seed(&service), seed);
    }
    let mut x = vec![1u8, 0, 1, 1, 0, 0, 1, 0, 1, 1];
    scramble_in_place(0, &mut x);
    assert_eq!(x, vec![1u8, 0, 1, 1, 0, 0, 1, 0, 1, 1]);
}

#[test]
fn every_sequence_has_period_127() {
    for seed in 1..=127u8 {
        let s = sequence(seed, 381);
        assert_eq!(s[..254], s[127..]);
    }
}

#[test]
fn spot_check_tables() {
    assert_eq!(axis_level(&[0]), -1);
    assert_eq!(axis_level(&[1]), 1);
    assert_eq!(axis_level(&[0, 0]), -3);
    assert_eq!(axis_level(&[0, 1]), -1);
    assert_eq!(axis_level(&[1, 1]), 1);
    assert_eq!(axis_level(&[1, 0]), 3);
    assert_eq!(axis_level(&[0, 0, 0]), -7);
    assert_eq!(axis_level(&[0, 1, 0]), -1);
    assert_eq!(axis_level(&[1, 1, 0]), 1);
    assert_eq!(axis_level(&[1, 0, 0]), 7);
    assert_eq!(axis_level(&[0, 1, 1]), -3);
    assert_eq!(axis_level(&[1, 0, 1]), 5);
    assert_eq!(axis_level(&[1, 1, 0, 0]), 1);
    assert_eq!(axis_level(&[1, 0, 0, 0]), 15);
    assert_eq!(axis_level(&[0, 0, 0, 0]), -15);
    assert_eq!(axis_level(&[0, 1, 0, 0]), -1);
    assert_eq!(axis_level(&[1, 1, 0, 0, 0]), 1);
}

#[test]
fn unit_average_power() {
    for m in ALL {
        let nb = m.n_bpscs();
        let n_pat = 1usize << nb.min(20);
        let mut acc = 0.0f64;
        for pat in 0..n_pat {
            let bits: Vec<u8> = (0..nb).map(|i| ((pat >> (nb - 1 - i)) & 1) as u8).collect();
            let (re, im) = s2g::mapping::map(&bits, m)[0];
            acc += (re * re + im * im) as f64 / m.norm() as f64;
        }
        let avg = acc / n_pat as f64;
        assert!((avg - 1.0).abs() < 1e-5, "{m:?} avg power {avg}");
    }
}

#[test]
fn mapping_takes_the_first_half_for_the_real_axis() {
    assert_eq!(s2g::mapping::map(&[1, 0, 1, 1], Modulation::Bpsk), vec![(1, 0), (-1, 0), (1, 0), (1, 0)]);
    assert_eq!(s2g::mapping::map(&[1, 0, 0, 1], Modulation::Qam16), vec![(3, -1)]);
    assert_eq!(Modulation::Qam64.norm(), 42);
    assert_eq!(s2g::mapping::map(&[], Modulation::Qam1024), Vec::<(i32, i32)>::new());
}

#[test]
fn neighbouring_levels_differ_in_one_bit() {
    for n in 0..31u32 {
        assert_eq!((gray(n) ^ gray(n + 1)).count_ones(), 1);
        let bits: Vec<u8> = (0..5).map(|i| ((gray(n) >> (4 - i)) & 1) as u8).collect();
        assert_eq!(axis_level(&bits), 2 * n as i32 - 31);
    }
}

#[test]
fn index_tables() {
    assert_eq!(DATA_SUBCARRIER_INDICES.len(), 52);
    assert_eq!(DATA_SUBCARRIER_INDICES[0], -28);
    assert_eq!(DATA_SUBCARRIER_INDICES[51], 28);
    for k in [0i32, -21, -7, 7, 21] {
        assert!(!DATA_SUBCARRIER_INDICES.contains(&k));
    }
    assert_eq!(SIG_SUBCARRIER_INDICES.len(), 48);
    assert_eq!(SIG_SUBCARRIER_INDICES[0], -26);
    assert_eq!(SIG_SUBCARRIER_INDICES[47], 26);
    assert_eq!(DATA_SUBCARRIER_INDICES[6], -22);
    assert_eq!(DATA_SUBCARRIER_INDICES[7], -20);
}

#[test]
fn ldpc_tone_mapper_is_a_spread_bijection() {
    let mut seen = [false; 52];
    for k in 0..52 {
        let t = ldpc_tone_map_index(k);
        assert!(!seen[t]);
        seen[t] = true;
    }
    for k in 0..51 {
        let (a, b) = (ldpc_tone_map_index(k) as i64, ldpc_tone_map_index(k + 1) as i64);
        if k % 13 != 12 {
            assert!((a - b).abs() >= LDPC_D_TM as i64, "k {k}: {a} {b}");
        }
    }
    assert_eq!(ldpc_tone_map_index(0), 0);
    assert_eq!(ldpc_tone_map_index(1), 4);
    assert_eq!(ldpc_tone_map_index(13), 1);
    let pts: Vec<f32> = (0..52).map(|i| i as f32).collect();
    let mapped = ldpc_tone_map(&pts);
    let llrs: Vec<f32> = mapped.iter().flat_map(|p| [*p, *p + 0.5]).collect();
    let back = ldpc_tone_demap_llrs(&llrs, 2);
    for k in 0..52 {
        assert_eq!(back[2 * k], k as f32);
        assert_eq!(back[2 * k + 1], k as f32 + 0.5);
    }
}

#[test]
fn tones_are_placed_by_index() {
    let values: Vec<i32> = (1..=52).collect();
    let sym = assemble_freq_symbol(
        &DATA_SUBCARRIER_INDICES,
        &values,
        &PILOT_INDICES,
        &[101, 102, 103, 104],
        0,
    );
    assert_eq!(sym[bin(-28)], 1);
    assert_eq!(sym[bin(28)], 52);
    assert_eq!(sym[bin(-21)], 101);
    assert_eq!(sym[bin(21)], 104);
    for k in [0i32, -30, 31, -32] {
        assert_eq!(sym[bin(k)], 0);
    }
    assert_eq!(sym.iter().filter(|v| **v != 0).count(), 56);
}

#[test]
fn guard_interval_is_the_tail_of_the_symbol() {
    let mut x = [0i32; 64];
    for i in 0..64 {
        x[i] = i as i32;
    }
    let t = with_guard_interval(&x, 16);
    assert_eq!(t.len(), 80);
    assert_eq!(t[..16], t[64..]);
    assert_eq!(&t[16..], &x[..]);
    let r = rotate_half(&x);
    assert_eq!((r[0], r[31], r[32], r[63]), (32, 63, 0, 31));
    assert_eq!(rotate_half(&r), x);
    let mut out = vec![-1];
    append_from(&mut out, &x, 62);
    assert_eq!(out, vec![-1, 62, 63]);
}

#[test]
fn polarity_sequence_checks() {
    assert_eq!(POLARITY.len(), 127);
    assert_eq!(&POLARITY[..8], &[1, 1, 1, 1, -1, -1, -1, 1]);
    assert_eq!(&POLARITY[124..], &[-1, -1, -1]);
    let seq = sequence(112, 127);
    for (i, &s) in seq.iter().enumerate() {
        let expect = if s == 1 { -1 } else { 1 };
        assert_eq!(POLARITY[i], expect, "index {i}");
    }
    assert_eq!(polarity(127), POLARITY[0]);
}

#[test]
fn sig_pilots_are_constant_positive_polarity() {
    for n in 0..2 {
        let p = sig_pilots(n);
        assert_eq!(p.map(|c| c as f32), [1.0, 1.0, 1.0, -1.0]);
    }
}

#[test]
fn data_pilots_rotate_psi() {
    assert_eq!(data_pilots(0).map(|c| c as f32), [1.0, 1.0, 1.0, -1.0]);
    assert_eq!(data_pilots(1).map(|c| c as f32), [1.0, 1.0, -1.0, 1.0]);
    assert_eq!(data_pilots(2).map(|c| c as f32), [-1.0, 1.0, -1.0, -1.0]);
}

#[test]
fn tone_counts() {
    let nz_stf = stf_freq().iter().filter(|v| **v != 0).count();
    let nz_ltf = ltf_freq().iter().filter(|v| **v != 0).count();
    assert_eq!(nz_stf, 12);
    assert_eq!(nz_ltf, 56);
    let f = ltf_freq();
    assert_eq!(f[bin(-21)], 1);
    assert_eq!(f[bin(-7)], -1);
    assert_eq!(f[bin(7)], 1);
    assert_eq!(f[bin(21)], 1);
}

/// A period of 64 distinct samples.
fn period() -> [i32; 64] {
    let mut x = [0i32; 64];
    for i in 0..64 {
        x[i] = 1000 + i as i32;
    }
    x
}

#[test]
fn beam_changeable_fields() {
    let p = stf_period(&period());
    let dstf = dstf_time(&p);
    let x = period();
    let dltf = dltf_time(&x);
    assert_eq!(dstf.len(), 80);
    assert_eq!(dltf.len(), 80);
    assert_eq!(&dstf[..64], &stf_time(&p)[..64]);
    for i in 0..16 {
        assert_eq!(dltf[i], x[48 + i]);
    }
    assert_eq!(&dltf[16..], &x[..]);
}

#[test]
fn stf_periodicity() {
    let stf = stf_time(&stf_period(&period()));
    assert_eq!(stf.len(), 160);
    for i in 0..stf.len() - 16 {
        assert_eq!(stf[i], stf[i + 16]);
    }
}

#[test]
fn ltf1_structure() {
    let x = period();
    let ltf = ltf1_time(&x);
    assert_eq!(ltf.len(), 160);
    for i in 0..32 {
        assert_eq!(ltf[i], x[32 + i]);
    }
    for i in 0..64 {
        assert_eq!(ltf[32 + i], ltf[96 + i]);
    }
}

#[test]
fn splitmix64_reference_values() {
    // The first outputs of the published generator from state 0.
    let mut rng = Rng(0);
    assert_eq!(rng.next_u64(), 0xE220_A839_7B1D_CDAF);
    assert_eq!(rng.next_u64(), 0x6E78_9E6A_A1B9_65F4);
    let mut a = Rng(7);
    let mut b = Rng(7);
    let bytes = a.bytes(5);
    let expect: Vec<u8> = (0..5).map(|_| (b.next_u64() >> 40) as u8).collect();
    assert_eq!(bytes, expect);
    assert_eq!(a, b);
}
