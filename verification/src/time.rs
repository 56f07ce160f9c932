//! Points in time as the stores keep them: whole seconds since the Unix
//! epoch and the nanoseconds within that second.

use vstd::prelude::*;

verus! {

/// Seconds in one hour.
pub const SECS_PER_HOUR: i64 = 3600;

/// A point in time. The library reads no clock: callers hand in the
/// current time. Two timestamps are ordered by their seconds first and by
/// their nanoseconds second.
#[derive(Clone, Copy, Debug, PartialEq, Eq, Structural)]
pub struct Timestamp {
    pub secs: i64,
    pub nanos: u32,
}

impl Timestamp {
    /// `self` is strictly earlier than `other`.
    pub open spec fn before(self, other: Timestamp) -> bool {
        self.secs < other.secs || (self.secs == other.secs && self.nanos < other.nanos)
    }

    /// `self`, moved later by `grace` seconds, is not later than `now`.
    pub open spec fn lapsed(self, grace: u64, now: Timestamp) -> bool {
        self.secs + grace < now.secs || (self.secs + grace == now.secs && self.nanos <= now.nanos)
    }

    /// The point in time `nanos` nanoseconds after second `secs`.
    pub fn new(secs: i64, nanos: u32) -> (r: Timestamp)
        ensures
            r == (Timestamp { secs, nanos }),
    {
        Timestamp { secs, nanos }
    }

    /// Whether `self` is strictly earlier than `other`.
    pub fn is_before(&self, other: &Timestamp) -> (r: bool)
        ensures
            r == self.before(*other),
    {
        self.secs < other.secs || (self.secs == other.secs && self.nanos < other.nanos)
    }

    /// Whether `self`, moved later by `grace` seconds, is not later than
    /// `now`.
    pub fn has_lapsed(&self, grace: u64, now: &Timestamp) -> (r: bool)
        ensures
            r == self.lapsed(grace, *now),
    {
        let due: i128 = self.secs as i128 + grace as i128;
        let at: i128 = now.secs as i128;
        due < at || (due == at && self.nanos <= now.nanos)
    }
}

} // verus!
