//! PHY characteristics a MAC needs [Table 23-41, 23.4.4].

use vstd::prelude::*;

verus! {

/// aSIFSTime.
pub const A_SIFS_TIME_US: u32 = 160;

/// aSlotTime [23.3.15].
pub const A_SLOT_TIME_US: u32 = 52;

/// aCCATime (upper bound; "< 40 us").
pub const A_CCA_TIME_US: u32 = 40;

/// aCCAMidTime.
pub const A_CCA_MID_TIME_US: u32 = 212;

/// aRxPHYStartDelay for S1G_SHORT.
pub const A_RX_PHY_START_DELAY_US: u32 = 280;

/// aAirPropagationTime.
pub const A_AIR_PROPAGATION_TIME_US: u32 = 6;

/// aPPDUMaxTime.
pub const A_PPDU_MAX_TIME_US: u32 = 27_920;

/// TXTIME of an NDP_2M CMAC PPDU (STF+LTF1+SIG, no Data): NDPTxTime
/// for a 2 MHz preamble [10.3.2.5.2; 23.3.11].
pub const NDP_TX_TIME_US: u32 = 240;

} // verus!
