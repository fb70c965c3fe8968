//! The wall clock.

use vstd::prelude::*;

verus! {

/// Time since the Unix epoch.
#[derive(Debug, Clone, Copy, PartialEq, Eq, Structural)]
pub struct EpochTime {
    /// Whole seconds.
    pub secs: u64,
    /// The part below one second, nanoseconds.
    pub nanos: u32,
}

impl EpochTime {
    /// The part below one second is below one second.
    pub open spec fn wf(&self) -> bool {
        self.nanos < 1_000_000_000
    }

    /// The whole time in nanoseconds.
    pub open spec fn total_nanos(&self) -> nat {
        (1_000_000_000 * self.secs + self.nanos) as nat
    }

    /// The low 64 bits of the time in microseconds.
    pub fn micros(&self) -> (us: u64)
        requires
            self.wf(),
        ensures
            us == (self.total_nanos() / 1000) % 0x1_0000_0000_0000_0000,
    {
        let total: u128 = self.secs as u128 * 1_000_000 + (self.nanos / 1000) as u128;
        proof {
            assert(total == self.total_nanos() / 1000);
        }
        (total % 0x1_0000_0000_0000_0000) as u64
    }

    /// The low 64 bits of the time in nanoseconds.
    pub fn nanos_total(&self) -> (ns: u64)
        requires
            self.wf(),
        ensures
            ns == self.total_nanos() % 0x1_0000_0000_0000_0000,
    {
        let total: u128 = self.secs as u128 * 1_000_000_000 + self.nanos as u128;
        (total % 0x1_0000_0000_0000_0000) as u64
    }
}

/// `std::time::SystemTime::elapsed` of the Unix epoch: the time from the epoch
/// to now by the system clock, as whole seconds and the nanoseconds below
/// one second, or `None` where the clock stands before the epoch. Nothing
/// else is said of the value: it is whatever the clock shows.
#[verifier::external_body]
pub(crate) fn since_epoch() -> (t: Option<EpochTime>)
    ensures
        t matches Some(e) ==> e.wf(),
{
    match std::time::UNIX_EPOCH.elapsed() {
        Ok(d) => Some(EpochTime { secs: d.as_secs(), nanos: d.subsec_nanos() }),
        Err(_) => None,
    }
}

/// The 64-bit microsecond count for a clock reading: 0 where there is none.
pub fn time_us_of(t: Option<EpochTime>) -> (us: u64)
    requires
        t matches Some(e) ==> e.wf(),
    ensures
        us == match t {
            Some(e) => (e.total_nanos() / 1000) % 0x1_0000_0000_0000_0000,
            None => 0,
        },
{
    match t {
        Some(e) => e.micros(),
        None => 0,
    }
}

/// Microseconds since the Unix epoch by the system clock (the low 64 bits), 0
/// where the clock stands before it.
pub fn unix_time_us() -> (us: u64)
    ensures
        us == 0 || exists|e: EpochTime|
            #[trigger] e.wf() && us == (e.total_nanos() / 1000) % 0x1_0000_0000_0000_0000,
{
    time_us_of(since_epoch())
}

/// A second is a million microseconds and a microsecond a thousand nanoseconds;
/// what is below a microsecond is dropped.
pub proof fn lemma_time_units(e: EpochTime)
    requires
        e.nanos < 1_000_000_000,
    ensures
        e.total_nanos() == 1_000_000_000 * e.secs + e.nanos,
        e.total_nanos() / 1000 == 1_000_000 * e.secs + e.nanos / 1000,
{
}

} // verus!
