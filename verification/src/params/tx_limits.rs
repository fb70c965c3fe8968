//! Transmitter conformance limits [23.3.17].

use crate::params::{CodeRate, Modulation};
use vstd::prelude::*;

verus! {

/// Allowed relative constellation error per modulation and rate, dB.
pub open spec fn spec_evm_limit_db(m: Modulation, r: CodeRate) -> int {
    match m {
        Modulation::Bpsk => -5,
        Modulation::Qpsk => if r == CodeRate::R1_2 {
            -10
        } else {
            -13
        },
        Modulation::Qam16 => if r == CodeRate::R1_2 {
            -16
        } else {
            -19
        },
        Modulation::Qam64 => if r == CodeRate::R2_3 {
            -22
        } else if r == CodeRate::R3_4 {
            -25
        } else {
            -27
        },
        Modulation::Qam256 => if r == CodeRate::R3_4 {
            -30
        } else {
            -32
        },
        Modulation::Qam1024 => -35,
    }
}

/// Allowed relative constellation error (EVM) per modulation/rate, dB
/// [Table 23-34]. 1024-QAM: -35 dB with amplitude-drift compensation in the
/// test instrument, -32 dB without.
pub fn evm_limit_db(m: Modulation, r: CodeRate) -> (db: i32)
    ensures
        db == spec_evm_limit_db(m, r),
{
    match (m, r) {
        (Modulation::Bpsk, _) => -5,
        (Modulation::Qpsk, CodeRate::R1_2) => -10,
        (Modulation::Qpsk, _) => -13,
        (Modulation::Qam16, CodeRate::R1_2) => -16,
        (Modulation::Qam16, _) => -19,
        (Modulation::Qam64, CodeRate::R2_3) => -22,
        (Modulation::Qam64, CodeRate::R3_4) => -25,
        (Modulation::Qam64, _) => -27,
        (Modulation::Qam256, CodeRate::R3_4) => -30,
        (Modulation::Qam256, _) => -32,
        (Modulation::Qam1024, _) => -35,
    }
}

/// A level is reported in ninths of a millidecibel, the unit in which every
/// segment of the mask has an integer slope per kHz.
pub const MASK_UNITS_PER_DB: i64 = 9000;

/// Linear interpolation between the corners `(f0, a)` and `(f1, b)`:
/// `y` lies on the line through them at `f`.
#[verifier::inline]
pub open spec fn on_segment(f: int, y: int, f0: int, a: int, f1: int, b: int) -> bool {
    (y - a) * (f1 - f0) == (b - a) * (f - f0)
}

/// 2 MHz interim transmit spectral mask versus frequency offset [23.3.17.1,
/// Fig 23-40]: 0 dBr to 0.9 MHz, -20 dBr at 1.1, -28 dBr at 2, -40 dBr
/// at >= 3, linear in dB between the corners. The offset is in kHz (either
/// side), the result in ninths of a millidecibel relative to the carrier.
#[verifier::nonlinear]
pub fn spectral_mask_2mhz_dbr(offset_khz: i32) -> (y: i64)
    ensures
        ({
            let f = if offset_khz < 0 {
                -(offset_khz as int)
            } else {
                offset_khz as int
            };
            let db = 9000int;
            &&& f <= 900 ==> y == 0
            &&& 900 <= f <= 1100 ==> on_segment(f, y as int, 900, 0, 1100, -20 * db)
            &&& 1100 <= f <= 2000 ==> on_segment(f, y as int, 1100, -20 * db, 2000, -28 * db)
            &&& 2000 <= f <= 3000 ==> on_segment(f, y as int, 2000, -28 * db, 3000, -40 * db)
            &&& f >= 3000 ==> y == -40 * db
        }),
{
    let wide: i64 = offset_khz as i64;
    let f: i64 = if wide < 0 {
        -wide
    } else {
        wide
    };
    if f <= 900 {
        0
    } else if f <= 1100 {
        -900 * (f - 900)
    } else if f <= 2000 {
        -180_000 - 80 * (f - 1100)
    } else if f <= 3000 {
        -252_000 - 108 * (f - 2000)
    } else {
        -360_000
    }
}

/// Spectral flatness [23.3.17.2, Table 23-33]: inner tones are |k| <= 16.
pub const FLATNESS_INNER_MAX_K: i32 = 16;

/// Inner tones lie within +-4 dB of the inner-tone average.
pub const FLATNESS_INNER_DB: (i32, i32) = (-4, 4);

/// Outer tones (17 <= |k| <= 28) lie within +4 / -6 dB.
pub const FLATNESS_OUTER_DB: (i32, i32) = (-6, 4);

/// Symbol-clock and center-frequency tolerance [23.3.17.3].
pub const CLOCK_TOLERANCE_PPM: i32 = 20;

/// A segment goes through both its corners and is straight: from one kilohertz to the
/// next it falls or rises by the same.
pub proof fn lemma_segment(f: int, y: int, z: int, f0: int, a: int, f1: int, b: int)
    requires
        f0 < f1,
    ensures
        on_segment(f0, y, f0, a, f1, b) <==> y == a,
        on_segment(f1, y, f0, a, f1, b) <==> y == b,
        on_segment(f, y, f0, a, f1, b) && on_segment(f + 1, z, f0, a, f1, b) ==> (z - y) * (f1 - f0)
            == b - a,
{
    assert((y - a) * (f1 - f0) == (b - a) * (f0 - f0) <==> y == a) by (nonlinear_arith)
        requires
            f0 < f1,
    ;
    assert((y - a) * (f1 - f0) == (b - a) * (f1 - f0) <==> y == b) by (nonlinear_arith)
        requires
            f0 < f1,
    ;
    assert((y - a) * (f1 - f0) == (b - a) * (f - f0) && (z - a) * (f1 - f0) == (b - a) * (f + 1 - f0)
        ==> (z - y) * (f1 - f0) == b - a) by (nonlinear_arith);
}

} // verus!
