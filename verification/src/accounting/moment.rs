//! Points in time, as plain numbers.

use vstd::prelude::*;

verus! {

/// A date and time of day without a time zone: the whole seconds since
/// 1970-01-01 00:00:00 and the nanoseconds that follow them.
#[derive(Debug, Clone, Copy, PartialEq, Eq, Structural)]
pub struct Moment {
    pub seconds: i64,
    pub nanoseconds: u32,
}

/// `Local::now` of the crate `chrono`, as the naive local date and time,
/// taken apart into its seconds and nanoseconds. The result depends on the
/// clock and on the time zone of the machine: nothing is known of it.
#[verifier::external_body]
pub(crate) fn local_now() -> Moment {
    let now = chrono::offset::Local::now().naive_local().and_utc();
    Moment { seconds: now.timestamp(), nanoseconds: now.timestamp_subsec_nanos() }
}

impl Moment {
    /// Whether `self` is `other` or earlier.
    pub open spec fn not_after(self, other: Moment) -> bool {
        self.seconds < other.seconds || (self.seconds == other.seconds && self.nanoseconds
            <= other.nanoseconds)
    }

    /// Whether `self` lies between `from` and `till`, both included.
    pub open spec fn within(self, from: Moment, till: Moment) -> bool {
        from.not_after(self) && self.not_after(till)
    }

    /// Whether `self` is `other` or earlier.
    pub fn is_not_after(&self, other: &Moment) -> (result: bool)
        ensures
            result == self.not_after(*other),
    {
        self.seconds < other.seconds || (self.seconds == other.seconds && self.nanoseconds
            <= other.nanoseconds)
    }

    /// Whether `self` lies between `from` and `till`, both included.
    pub fn is_within(&self, from: &Moment, till: &Moment) -> (result: bool)
        ensures
            result == self.within(*from, *till),
    {
        from.is_not_after(self) && self.is_not_after(till)
    }
}

} // verus!
