//! Receiver calibration: the noise floor and what follows from it for energy
//! detection. Levels are in hundredths of a decibel.

use crate::params::rf::{mid_packet_threshold_2mhz_dbm, CcaType, ED_THRESHOLD_2MHZ_DBM};
use vstd::prelude::*;

verus! {

/// Samples of one block over which the level is averaged: 20 ms.
pub const BLOCK_SAMPLES: u64 = 40_000;

/// Blocks that are remembered: one second.
pub const BLOCKS: usize = 50;

/// Where the noise floor is taken to lie, hundredths of a dBm.
pub const ASSUMED_FLOOR: i32 = -10_400;

/// The levels of the last blocks, the newest last.
pub struct NoiseFloor {
    pub levels: Vec<i32>,
}

/// The lowest of some levels, `None` where there are none.
pub open spec fn lowest(s: Seq<i32>) -> Option<i32>
    decreases s.len(),
{
    if s.len() == 0 {
        None
    } else {
        match lowest(s.drop_last()) {
            Some(m) => if s.last() < m {
                Some(s.last())
            } else {
                Some(m)
            },
            None => Some(s.last()),
        }
    }
}

/// The lowest level is one of the levels, and none is below it.
pub proof fn lemma_lowest(s: Seq<i32>)
    ensures
        s.len() == 0 <==> lowest(s) is None,
        lowest(s) matches Some(m) ==> s.contains(m) && forall|i: int|
            0 <= i < s.len() ==> m <= #[trigger] s[i],
    decreases s.len(),
{
    if s.len() > 0 {
        let head = s.drop_last();
        lemma_lowest(head);
        let m = lowest(s)->0;
        if m == s.last() {
            assert(s[s.len() - 1] == m);
        } else {
            let i = choose|i: int| 0 <= i < head.len() && head[i] == m;
            assert(s[i] == m);
        }
        assert forall|i: int| 0 <= i < s.len() implies m <= #[trigger] s[i] by {
            if i < s.len() - 1 {
                assert(head[i] == s[i]);
            }
        }
    }
}

impl NoiseFloor {
    /// At most a second is remembered.
    pub open spec fn wf(&self) -> bool {
        self.levels@.len() <= BLOCKS
    }

    /// Nothing measured.
    pub fn new() -> (f: Self)
        ensures
            f.wf(),
            f.levels@ == Seq::<i32>::empty(),
    {
        NoiseFloor { levels: Vec::new() }
    }

    /// A block was measured at `level`; what is older than a second is
    /// forgotten.
    pub fn push_block(&mut self, level: i32)
        requires
            old(self).wf(),
        ensures
            final(self).wf(),
            final(self).levels@ == if old(self).levels@.len() < BLOCKS {
                old(self).levels@.push(level)
            } else {
                old(self).levels@.skip(1).push(level)
            },
    {
        if self.levels.len() >= BLOCKS {
            self.levels.remove(0);
            proof {
                assert(self.levels@ =~= old(self).levels@.skip(1));
            }
        }
        self.levels.push(level);
    }

    /// The noise floor: the quietest block of the last second.
    pub fn floor(&self) -> (f: Option<i32>)
        ensures
            f == lowest(self.levels@),
    {
        let mut low: Option<i32> = None;
        proof {
            assert(self.levels@.take(0) =~= Seq::<i32>::empty());
        }
        for i in 0..self.levels.len()
            invariant
                low == lowest(self.levels@.take(i as int)),
        {
            proof {
                assert(self.levels@.take(i + 1).drop_last() =~= self.levels@.take(i as int));
            }
            let v: i32 = self.levels[i];
            low = match low {
                Some(m) => if v < m {
                    Some(v)
                } else {
                    Some(m)
                },
                None => Some(v),
            };
        }
        proof {
            assert(self.levels@.take(self.levels@.len() as int) =~= self.levels@);
        }
        low
    }
}

/// The offset from dBFS to dBm: the one that was given, else the one that puts
/// the measured floor where it is taken to lie, else none.
pub open spec fn offset_of(given: Option<i32>, floor: Option<i32>) -> Option<int> {
    match (given, floor) {
        (Some(o), _) => Some(o as int),
        (None, Some(f)) => Some(ASSUMED_FLOOR - f),
        (None, None) => None,
    }
}

/// The offset from dBFS to dBm.
pub fn cal_offset(given: Option<i32>, floor: Option<i32>) -> (o: Option<i64>)
    ensures
        match offset_of(given, floor) {
            Some(v) => o matches Some(w) && w == v,
            None => o is None,
        },
{
    match given {
        Some(v) => Some(v as i64),
        None => match floor {
            Some(f) => Some(ASSUMED_FLOOR as i64 - f as i64),
            None => None,
        },
    }
}

/// A level is above a threshold in whole dBm. Without calibration none is.
pub open spec fn is_above(level: int, offset: Option<int>, threshold_dbm: int) -> bool {
    match offset {
        Some(o) => level + o > 100 * threshold_dbm,
        None => false,
    }
}

/// Energy detection: the level is above the energy-detect threshold.
pub fn energy_busy(level: i32, given: Option<i32>, floor: Option<i32>) -> (busy: bool)
    ensures
        busy == is_above(level as int, offset_of(given, floor), -72),
{
    match cal_offset(given, floor) {
        Some(o) => level as i64 + o > 100 * ED_THRESHOLD_2MHZ_DBM as i64,
        None => false,
    }
}

/// Mid-packet detection: the level is above the mid-packet threshold of the
/// channel type.
pub fn mid_packet_busy(level: i32, given: Option<i32>, floor: Option<i32>, t: CcaType) -> (busy:
    bool)
    ensures
        busy == is_above(
            level as int,
            offset_of(given, floor),
            match t {
                CcaType::Type1 => -89,
                CcaType::Type2 => -86,
            },
        ),
{
    let threshold: i32 = mid_packet_threshold_2mhz_dbm(t);
    match cal_offset(given, floor) {
        Some(o) => level as i64 + o > 100 * threshold as i64,
        None => false,
    }
}

/// Without a given offset, energy is detected exactly 32 dB above the measured
/// floor, and never before a floor was measured.
pub proof fn lemma_energy_above_floor(level: int, floor: i32)
    ensures
        is_above(level, offset_of(None, Some(floor)), -72) <==> level > floor + 3200,
        !is_above(level, offset_of(None, None), -72),
{
}

/// What energy detection finds, mid-packet detection finds too.
pub proof fn lemma_mid_packet_is_more_sensitive(level: int, offset: Option<int>)
    ensures
        is_above(level, offset, -72) ==> is_above(level, offset, -86),
        is_above(level, offset, -86) ==> is_above(level, offset, -89),
{
}

/// What stands for 0 dBm: a given offset counts as it is; else the quietest block
/// of the last second, 50 blocks of 20 ms, is taken to lie at -104 dBm. A level is
/// above a threshold only where it exceeds it.
pub proof fn lemma_calibration(given: i32, floor: Option<i32>, level: int, threshold_dbm: int)
    ensures
        BLOCKS == 50,
        BLOCK_SAMPLES == 40_000,
        offset_of(Some(given), floor) == Some(given as int),
        floor matches Some(f) ==> (offset_of(None, floor) matches Some(o) && f + o == -10_400),
        floor is None ==> offset_of(None, floor) is None,
        is_above(level, Some(given as int), threshold_dbm) <==> level + given > 100 * threshold_dbm,
        !is_above(level, None, threshold_dbm),
{
}

} // verus!
