//! Receiver RF requirements [23.3.18]. Levels are whole dBm.

use vstd::prelude::*;

verus! {

/// CCA channel classification [23.3.18.5.2]: type 2 thresholds are 3 dB
/// higher (more spatial reuse).
#[derive(Debug, Clone, Copy, PartialEq, Eq, Structural)]
pub enum CcaType {
    Type1,
    Type2,
}

impl Default for CcaType {
    fn default() -> (t: Self)
        ensures
            t == CcaType::Type1,
    {
        CcaType::Type1
    }
}

/// Energy-detect threshold for the primary 2 MHz channel, dBm (both
/// types) [23.3.18.5.3.1, Tables 23-37/38].
pub const ED_THRESHOLD_2MHZ_DBM: i32 = -72;

/// Mid-packet detection threshold (aCCAMidTime window), dBm.
pub fn mid_packet_threshold_2mhz_dbm(t: CcaType) -> (dbm: i32)
    ensures
        dbm == match t {
            CcaType::Type1 => -89int,
            CcaType::Type2 => -86int,
        },
{
    match t {
        CcaType::Type1 => -89,
        CcaType::Type2 => -86,
    }
}

/// Receive level below which CCA is released after a SIG CRC failure:
/// minimum-MCS sensitivity + 20 dB [23.3.20, Fig 23-53].
pub const CRC_FAIL_RELEASE_2MHZ_DBM: i32 = -92 + 20;

/// The RCPI code of a power in half-dB steps: `2 * (P + 110)` for
/// -109.5 dBm <= P < 0 dBm, clipped to 0 below and to 220 above
/// [Table 9-215]. `half_dbm` is the power in units of 0.5 dB, rounded down.
pub open spec fn rcpi_code(half_dbm: int) -> int {
    if half_dbm < -219 {
        0
    } else if half_dbm >= 0 {
        220
    } else {
        half_dbm + 220
    }
}

/// RCPI encoding [Table 9-215] of a power given in units of 0.5 dBm, rounded
/// down: 0 => P < -109.5 dBm; 1..=219 => 2*(P + 110); 220 => P >= 0 dBm;
/// 255 => not available (`None`).
pub fn rcpi_encode(half_dbm: Option<i32>) -> (code: u8)
    ensures
        half_dbm matches Some(h) ==> code == rcpi_code(h as int),
        half_dbm is None ==> code == 255,
{
    match half_dbm {
        None => 255,
        Some(h) => {
            if h < -219 {
                0
            } else if h >= 0 {
                220
            } else {
                (h + 220) as u8
            }
        },
    }
}

/// The code does not decrease as the power grows.
pub proof fn lemma_rcpi_monotone(a: int, b: int)
    requires
        a <= b,
    ensures
        rcpi_code(a) <= rcpi_code(b),
        0 <= rcpi_code(a) <= 220,
{
}

/// The RSSI code of a level in half-dB steps relative to full scale: 2*(dBFS +
/// 127.5), within 0 to 255 [23.3.18.6].
pub open spec fn rssi_code(half_dbfs: int) -> int {
    if half_dbfs < -255 {
        0
    } else if half_dbfs > 0 {
        255
    } else {
        half_dbfs + 255
    }
}

/// RSSI encoding [23.3.18.6] of a level given in units of 0.5 dBFS, rounded to
/// the nearest.
pub fn rssi_encode(half_dbfs: i32) -> (code: u8)
    ensures
        code == rssi_code(half_dbfs as int),
{
    if half_dbfs < -255 {
        0
    } else if half_dbfs > 0 {
        255
    } else {
        (half_dbfs + 255) as u8
    }
}

/// RSSI does not decrease as the level grows, and tells apart any two levels
/// in its range.
pub proof fn lemma_rssi_monotone(a: int, b: int)
    requires
        a < b,
    ensures
        rssi_code(a) <= rssi_code(b),
        -255 <= a && b <= 0 ==> rssi_code(a) < rssi_code(b),
        0 <= rssi_code(a) <= 255,
{
}

} // verus!
