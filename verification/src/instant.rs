use vstd::prelude::*;

verus! {

/// An absolute point in time: whole seconds since the Unix epoch in a
/// timezone-independent reference, plus a sub-second nanosecond part.
#[derive(Clone, Copy, PartialEq, Eq, Structural, Debug)]
pub struct Instant {
    pub secs: i64,
    pub nanos: u32,
}

impl Instant {
    /// The sub-second part always stays below one full second.
    pub open spec fn wf(self) -> bool {
        self.nanos < 1_000_000_000
    }

    /// The whole instant as a single count of nanoseconds since the epoch.
    pub open spec fn total_nanos(self) -> int {
        self.secs * 1_000_000_000 + self.nanos
    }

    pub open spec fn spec_le(self, other: Instant) -> bool {
        self.total_nanos() <= other.total_nanos()
    }

    pub fn from_unix(secs: i64, nanos: u32) -> (r: Instant)
        requires
            nanos < 1_000_000_000,
        ensures
            r.secs == secs,
            r.nanos == nanos,
            r.wf(),
    {
        Instant { secs, nanos }
    }

    /// Chronological order; on well-formed instants the field-wise
    /// comparison coincides with comparing total nanosecond counts.
    pub fn le(&self, other: &Instant) -> (r: bool)
        requires
            self.wf(),
            other.wf(),
        ensures
            r == self.spec_le(*other),
    {
        if self.secs != other.secs {
            self.secs < other.secs
        } else {
            self.nanos <= other.nanos
        }
    }
}

} // verus!
