//! The PHY parameters in numbers.

use crate::params::rf::{rcpi_code, rssi_code};
use crate::params::tx_limits::spec_evm_limit_db;
use crate::params::{spec_mcs_modulation_rate, spec_mcs_params, spec_n_dbps_2mhz, spec_n_ltf};
use crate::params::{CodeRate, Modulation};
use vstd::prelude::*;

verus! {

/// The S1G-MCS table for 2 MHz and one stream [Table 23-46]: modulation, coded
/// and data bits per symbol; no other index is valid.
pub proof fn lemma_mcs_table(mcs: u8)
    ensures
        ({
            let row: Option<(int, int, int)> = if mcs == 0 {
                Some((1, 52, 26))
            } else if mcs == 1 {
                Some((2, 104, 52))
            } else if mcs == 2 {
                Some((2, 104, 78))
            } else if mcs == 3 {
                Some((4, 208, 104))
            } else if mcs == 4 {
                Some((4, 208, 156))
            } else if mcs == 5 {
                Some((6, 312, 208))
            } else if mcs == 6 {
                Some((6, 312, 234))
            } else if mcs == 7 {
                Some((6, 312, 260))
            } else if mcs == 8 {
                Some((8, 416, 312))
            } else if mcs == 11 {
                Some((10, 520, 390))
            } else {
                None
            };
            match spec_mcs_params(mcs) {
                Some(p) => {
                    &&& row == Some((p.n_bpscs as int, p.n_cbps as int, p.n_dbps as int))
                    &&& p.mcs == mcs
                    &&& p.n_bpscs == match p.modulation {
                        Modulation::Bpsk => 1int,
                        Modulation::Qpsk => 2,
                        Modulation::Qam16 => 4,
                        Modulation::Qam64 => 6,
                        Modulation::Qam256 => 8,
                        Modulation::Qam1024 => 10,
                    }
                    &&& match p.rate {
                        CodeRate::R1_2 => 2 * p.n_dbps == p.n_cbps,
                        CodeRate::R2_3 => 3 * p.n_dbps == 2 * p.n_cbps,
                        CodeRate::R3_4 => 4 * p.n_dbps == 3 * p.n_cbps,
                        CodeRate::R5_6 => 6 * p.n_dbps == 5 * p.n_cbps,
                    }
                },
                None => row is None,
            }
        }),
{
    reveal(spec_n_dbps_2mhz);
}

proof fn lemma_scaled(b: int, n: int, num: int, k: int)
    by (nonlinear_arith)
    requires
        k == 52 * b * num,
    ensures
        52 * b * n * num == k * n,
{
}

/// N_DBPS grows by that of one stream with each of up to four streams. MCS 9
/// and MCS 12, whose N_DBPS for one stream would be no integer, exist for three
/// streams only; MCS 10 and those above 12 do not exist at 2 MHz.
pub proof fn lemma_n_dbps(mcs: u8, n_ss: u8)
    ensures
        ({
            let one: Option<int> = if mcs == 0 {
                Some(26)
            } else if mcs == 1 {
                Some(52)
            } else if mcs == 2 {
                Some(78)
            } else if mcs == 3 {
                Some(104)
            } else if mcs == 4 {
                Some(156)
            } else if mcs == 5 {
                Some(208)
            } else if mcs == 6 {
                Some(234)
            } else if mcs == 7 {
                Some(260)
            } else if mcs == 8 {
                Some(312)
            } else if mcs == 11 {
                Some(390)
            } else {
                None
            };
            match spec_n_dbps_2mhz(mcs, n_ss) {
                Some(n) => {
                    ||| one is Some && n == one->0 * n_ss && 1 <= n_ss <= 4
                    ||| mcs == 9 && n_ss == 3 && n == 1040
                    ||| mcs == 12 && n_ss == 3 && n == 1300
                },
                None => {
                    ||| n_ss == 0 || n_ss > 4
                    ||| mcs == 10 || mcs > 12
                    ||| (mcs == 9 || mcs == 12) && n_ss != 3
                },
            }
        }),
{
    reveal(spec_n_dbps_2mhz);
    let n = n_ss as int;
    if mcs == 0 {
        lemma_scaled(1, n, 1, 52);
    } else if mcs == 1 {
        lemma_scaled(2, n, 1, 104);
    } else if mcs == 2 {
        lemma_scaled(2, n, 3, 312);
    } else if mcs == 3 {
        lemma_scaled(4, n, 1, 208);
    } else if mcs == 4 {
        lemma_scaled(4, n, 3, 624);
    } else if mcs == 5 {
        lemma_scaled(6, n, 2, 624);
    } else if mcs == 6 {
        lemma_scaled(6, n, 3, 936);
    } else if mcs == 7 {
        lemma_scaled(6, n, 5, 1560);
    } else if mcs == 8 {
        lemma_scaled(8, n, 3, 1248);
    } else if mcs == 9 {
        lemma_scaled(8, n, 5, 2080);
    } else if mcs == 11 {
        lemma_scaled(10, n, 3, 1560);
    } else if mcs == 12 {
        lemma_scaled(10, n, 5, 2600);
    }
}

/// There are as many LTF symbols as streams, rounded up to a power of two, one
/// at least [Table 23-11].
pub proof fn lemma_n_ltf(n_sts: u8)
    ensures
        n_sts == 0 || n_sts == 1 ==> spec_n_ltf(n_sts) == 1,
        n_sts == 2 ==> spec_n_ltf(n_sts) == 2,
        n_sts > 2 ==> spec_n_ltf(n_sts) == 4,
{
}

/// The allowed constellation error of the MCSs, in order [Table 23-34].
pub proof fn lemma_evm_limits(mcs: u8)
    requires
        spec_mcs_modulation_rate(mcs) is Some,
    ensures
        ({
            let (m, r) = spec_mcs_modulation_rate(mcs)->0;
            let limit: int = if mcs == 0 {
                -5
            } else if mcs == 1 {
                -10
            } else if mcs == 2 {
                -13
            } else if mcs == 3 {
                -16
            } else if mcs == 4 {
                -19
            } else if mcs == 5 {
                -22
            } else if mcs == 6 {
                -25
            } else if mcs == 7 {
                -27
            } else if mcs == 8 {
                -30
            } else if mcs == 9 {
                -32
            } else {
                -35
            };
            spec_evm_limit_db(m, r) == limit
        }),
{
}

/// RCPI 0 stands for less than -109.5 dBm, 220 for 0 dBm and more; in between
/// each half decibel is one step.
pub proof fn lemma_rcpi_steps(half_dbm: int)
    ensures
        rcpi_code(half_dbm) == 0 <==> half_dbm < -219,
        rcpi_code(half_dbm) == 220 <==> half_dbm >= 0,
        -219 <= half_dbm < -1 ==> rcpi_code(half_dbm + 1) == rcpi_code(half_dbm) + 1,
        rcpi_code(-219) == 1,
{
}

/// RSSI 255 stands for full scale; each half decibel below is one step, down to
/// 0 at 127.5 dB below.
pub proof fn lemma_rssi_steps(half_dbfs: int)
    ensures
        half_dbfs >= 0 ==> rssi_code(half_dbfs) == 255,
        half_dbfs <= -255 ==> rssi_code(half_dbfs) == 0,
        -255 <= half_dbfs < 0 ==> rssi_code(half_dbfs + 1) == rssi_code(half_dbfs) + 1,
{
}

} // verus!
