//! PHY error types.

use crate::text::{decimal, push_decimal, push_str, string_of};
use vstd::prelude::*;

verus! {

/// Why a PPDU configuration was rejected.
#[derive(Debug, Clone, Copy, PartialEq, Eq)]
pub enum PhyError {
    /// Not an S1G-MCS index for 2 MHz with one spatial stream.
    InvalidMcs(u8),
    /// PSDU length out of range for this PPDU configuration.
    InvalidLength { len: usize, reason: &'static str },
    /// A feature that this PHY does not implement.
    Unsupported(&'static str),
    /// A TXVECTOR field out of range.
    InvalidTxVector(&'static str),
}

impl PhyError {
    /// The error in words.
    pub open spec fn words(&self) -> Seq<char> {
        match *self {
            PhyError::InvalidMcs(m) => "invalid MCS index "@ + decimal(m as nat)
                + " for 2 MHz / 1 spatial stream"@,
            PhyError::InvalidLength { len, reason } => "PSDU length "@ + decimal(len as nat)
                + " out of range for this PPDU configuration: "@ + reason@,
            PhyError::Unsupported(what) => "unsupported feature: "@ + what@,
            PhyError::InvalidTxVector(what) => "invalid TXVECTOR: "@ + what@,
        }
    }

    /// The error in words.
    pub fn message(&self) -> (s: String)
        ensures
            s@ == self.words(),
    {
        let mut out: Vec<char> = Vec::new();
        match self {
            PhyError::InvalidMcs(m) => {
                push_str(&mut out, "invalid MCS index ");
                push_decimal(&mut out, *m as u64);
                push_str(&mut out, " for 2 MHz / 1 spatial stream");
            },
            PhyError::InvalidLength { len, reason } => {
                push_str(&mut out, "PSDU length ");
                push_decimal(&mut out, *len as u64);
                push_str(&mut out, " out of range for this PPDU configuration: ");
                push_str(&mut out, reason);
            },
            PhyError::Unsupported(what) => {
                push_str(&mut out, "unsupported feature: ");
                push_str(&mut out, what);
            },
            PhyError::InvalidTxVector(what) => {
                push_str(&mut out, "invalid TXVECTOR: ");
                push_str(&mut out, what);
            },
        }
        proof {
            assert(out@ =~= self.words());
        }
        string_of(out.as_slice())
    }
}

/// The errors in words.
pub proof fn lemma_words(m: u8, len: usize, reason: &'static str)
    ensures
        PhyError::InvalidMcs(m).words() == "invalid MCS index "@ + decimal(m as nat)
            + " for 2 MHz / 1 spatial stream"@,
        (PhyError::InvalidLength { len, reason }).words() == "PSDU length "@ + decimal(len as nat)
            + " out of range for this PPDU configuration: "@ + reason@,
        PhyError::Unsupported(reason).words() == "unsupported feature: "@ + reason@,
        PhyError::InvalidTxVector(reason).words() == "invalid TXVECTOR: "@ + reason@,
{
}

} // verus!
