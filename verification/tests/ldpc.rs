//! LDPC codes and the encoding of a PPDU's Data field.

use s2g::ldpc::ppdu::PpduParams;
use s2g::ldpc::{Code, BLOCK_LENGTHS};
use s2g::params::CodeRate;

const RATES: [CodeRate; 4] = [CodeRate::R1_2, CodeRate::R2_3, CodeRate::R3_4, CodeRate::R5_6];

fn rand_bits(n: usize, seed: u64) -> Vec<u8> {
    let mut s = seed;
    (0..n)
        .map(|_| {
            s = s.wrapping_mul(6364136223846793005).wrapping_add(1442695040888963407);
            ((s >> 33) & 1) as u8
        })
        .collect()
}

#[test]
fn all_twelve_matrices_build_and_encode_valid_codewords() {
    for &n in &BLOCK_LENGTHS {
        for r in RATES {
            let c = Code::get(n, r);
            assert_eq!(c.n, n);
            assert_eq!(c.k * r.as_fraction().1, n * r.as_fraction().0);
            for seed in 1..4u64 {
                let info = rand_bits(c.k, seed * 7 + n as u64);
                let cw = c.encode(&info);
                assert_eq!(cw.len(), n);
                assert_eq!(&cw[..c.k], &info[..]);
                assert!(c.is_codeword(&cw), "n {n} {r:?} seed {seed}: H·c ≠ 0");
                let mut bad = cw.clone();
                bad[5] ^= 1;
                assert!(!c.is_codeword(&bad));
            }
        }
    }
}

#[test]
fn every_single_change_is_noticed() {
    let c = Code::get(648, CodeRate::R5_6);
    let cw = c.encode(&rand_bits(c.k, 3));
    for i in 0..648 {
        let mut bad = cw.clone();
        bad[i] ^= 1;
        assert!(!c.is_codeword(&bad), "bit {i}");
    }
}

#[test]
fn information_bits_fix_the_codeword() {
    let c = Code::get(1296, CodeRate::R2_3);
    assert_eq!(c.m(), 432);
    let info = rand_bits(c.k, 11);
    let cw = c.encode(&info);
    // Another parity part does not pass the checks.
    let mut other = cw.clone();
    other[c.k] ^= 1;
    other[c.k + 54] ^= 1;
    assert!(!c.is_codeword(&other));
    // The all-zero word is the codeword of zeros.
    assert_eq!(c.encode(&vec![0; c.k]), vec![0; 1296]);
}

#[test]
fn ppdu_params_examples() {
    let p = PpduParams::new(32, 26, 52, CodeRate::R1_2);
    assert_eq!(p.n_pld, 832);
    assert_eq!(p.n_cw, 1);
    assert_eq!(p.l_ldpc, 1944);
    assert_eq!(p.n_shrt, 140);
    assert!(p.extra_symbol);
    assert_eq!(p.n_sym, 33);
    assert_eq!(p.n_avbits, 1716);
    assert_eq!(p.n_punc, 88);
    assert_eq!(p.n_rep, 0);
    let p = PpduParams::new(1, 260, 312, CodeRate::R5_6);
    assert_eq!(p.l_ldpc, 648);
    assert!(p.extra_symbol);
    assert_eq!(p.n_sym, 2);
    assert_eq!(p.n_avbits, 624);
    assert_eq!(p.n_punc, 0);
    assert_eq!(p.n_rep, 624 - 108 - 260);
    let p = PpduParams::new(200, 156, 208, CodeRate::R3_4);
    assert_eq!(p.n_pld, 31200);
    assert_eq!(p.n_cw, (31200.0f64 / 1458.0).ceil() as usize);
    assert_eq!(p.l_ldpc, 1944);
}

const REGIMES: [(usize, usize, usize, CodeRate); 9] = [
    (1, 26, 52, CodeRate::R1_2),
    (5, 26, 52, CodeRate::R1_2),
    (32, 26, 52, CodeRate::R1_2),
    (1, 260, 312, CodeRate::R5_6),
    (3, 208, 312, CodeRate::R2_3),
    (7, 78, 104, CodeRate::R3_4),
    (40, 156, 208, CodeRate::R3_4),
    (200, 312, 416, CodeRate::R3_4),
    (511, 390, 520, CodeRate::R3_4),
];

#[test]
fn payload_is_recovered_from_the_coded_bits_in_all_regimes() {
    for (n_init, n_dbps, n_cbps, rate) in REGIMES {
        let p = PpduParams::new(n_init, n_dbps, n_cbps, rate);
        let data = rand_bits(p.n_pld, n_init as u64 * 13 + n_dbps as u64);
        let coded = p.encode_data(&data);
        assert_eq!(coded.len(), p.n_avbits);
        assert_eq!(p.n_avbits, p.n_sym * n_cbps);
        let code = Code::get(p.l_ldpc, rate);
        let mut back = Vec::new();
        for j in 0..p.n_cw {
            let plan = p.plan(j);
            let total = p.tx_len(j);
            assert_eq!(plan.n_info + plan.n_parity + plan.n_rep, total);
            // Each bit sent is the codeword bit the plan names.
            let mut word = vec![0u8; code.k];
            word[..plan.n_info].copy_from_slice(&coded[plan.tx_start..plan.tx_start + plan.n_info]);
            let full = code.encode(&word);
            for t in 0..total {
                assert_eq!(coded[plan.tx_start + t], full[plan.source(code.k, t)], "{p:?} {j} {t}");
            }
            assert_eq!(plan.data_start, back.len());
            back.extend_from_slice(&word[..plan.n_info]);
        }
        assert_eq!(back, data, "{p:?}");
    }
}

#[test]
fn codewords_are_sent_segment_by_segment() {
    let mut seen = (false, false, false);
    for (n_init, n_dbps, n_cbps, rate) in REGIMES {
        let p = PpduParams::new(n_init, n_dbps, n_cbps, rate);
        let data = rand_bits(p.n_pld, n_init as u64 + 5);
        let code = Code::get(p.l_ldpc, rate);
        let share = |total: usize, j: usize| total / p.n_cw + usize::from(j < total % p.n_cw);
        let mut expected = Vec::new();
        let mut next = 0;
        for j in 0..p.n_cw {
            let (s, q, r) = (share(p.n_shrt, j), share(p.n_punc, j), share(p.n_rep, j));
            seen = (seen.0 || s > 0, seen.1 || q > 0, seen.2 || r > 0);
            let mut info = data[next..next + code.k - s].to_vec();
            next += code.k - s;
            info.resize(code.k, 0);
            let cw = code.encode(&info);
            let once = [&cw[..code.k - s], &cw[code.k..p.l_ldpc - q]].concat();
            expected.extend_from_slice(&once);
            expected.extend(once.iter().cycle().take(r));
        }
        assert_eq!(next, data.len());
        assert_eq!(p.encode_data(&data), expected, "{p:?}");
    }
    assert_eq!(seen, (true, true, true));
}

#[test]
fn parameters_balance_for_long_ppdus() {
    // N_DBPS, N_CBPS and rate of four MCS indices, and a million symbols and more.
    let rows = [
        (26usize, 52usize, CodeRate::R1_2, 1usize, 2usize),
        (208, 312, CodeRate::R2_3, 2, 3),
        (234, 312, CodeRate::R3_4, 3, 4),
        (260, 312, CodeRate::R5_6, 5, 6),
    ];
    for (n_dbps, n_cbps, rate, num, den) in rows {
        for n in [1usize, 7, 52, 1_000_000, 10_000_001] {
            let p = PpduParams::new(n, n_dbps, n_cbps, rate);
            assert_eq!(p.n_pld, n * n_dbps);
            assert_eq!(p.n_sym, n + usize::from(p.extra_symbol));
            assert_eq!(p.n_avbits, p.n_sym * n_cbps);
            assert_eq!(p.n_cw * p.l_ldpc + p.n_rep, p.n_avbits + p.n_shrt + p.n_punc);
            assert!(p.n_punc == 0 || p.n_rep == 0);
            assert_eq!(p.n_shrt + p.n_pld, p.n_cw * p.l_ldpc * num / den);
        }
    }
}
