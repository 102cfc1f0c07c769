//! Points in time, counted from the Unix epoch.

use vstd::prelude::*;

verus! {

/// A point in time: whole seconds since the Unix epoch, and the nanoseconds
/// into the following second.
#[derive(Clone, Copy, Debug, PartialEq, Eq, Structural)]
pub struct Timestamp {
    pub secs: u64,
    pub nanos: u32,
}

impl Timestamp {
    /// Whether `self` lies strictly after `other`.
    pub open spec fn after(self, other: Timestamp) -> bool {
        self.secs > other.secs || (self.secs == other.secs && self.nanos > other.nanos)
    }

    /// The point in time `secs` seconds and `nanos` nanoseconds after the epoch.
    pub fn new(secs: u64, nanos: u32) -> (time: Timestamp)
        ensures
            time == (Timestamp { secs, nanos }),
    {
        Timestamp { secs, nanos }
    }

    /// Whether `self` lies strictly after `other`.
    pub fn is_after(&self, other: &Timestamp) -> (later: bool)
        ensures
            later == self.after(*other),
    {
        self.secs > other.secs || (self.secs == other.secs && self.nanos > other.nanos)
    }
}

/// Reads the system clock through `std::time::SystemTime::now`. Trusted, and
/// nothing is promised of the reading: two calls may give any two values. A
/// clock set before the epoch reads as the epoch.
#[verifier::external_body]
pub(crate) fn now() -> Timestamp {
    let since_epoch = std::time::SystemTime::now()
        .duration_since(std::time::SystemTime::UNIX_EPOCH)
        .unwrap_or_default();
    Timestamp { secs: since_epoch.as_secs(), nanos: since_epoch.subsec_nanos() }
}

} // verus!
