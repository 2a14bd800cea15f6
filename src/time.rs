use vstd::prelude::*;

verus! {

/// A point in time together with the UTC offset it was observed in.
///
/// `seconds` counts whole seconds since 1970-01-01T00:00:00Z, `nanos` the
/// nanoseconds past that second (above 999_999_999 only during a leap
/// second), and `offset` the local time's distance east of UTC in seconds.
#[derive(Clone, Copy, Debug, PartialEq, Eq, Structural)]
pub struct Timestamp {
    pub seconds: i64,
    pub nanos: u32,
    pub offset: i32,
}

impl Timestamp {
    /// The ranges the clock and the calendar library keep to.
    pub open spec fn wf(self) -> bool {
        &&& self.nanos < 2_000_000_000
        &&& -86_400 < self.offset < 86_400
    }

    /// Whether `self` lies at or before `other` on the timeline.
    pub open spec fn spec_not_after(self, other: Timestamp) -> bool {
        self.seconds < other.seconds || (self.seconds == other.seconds && self.nanos
            <= other.nanos)
    }

    /// Whether `self` lies at or before `other` on the timeline.
    pub fn not_after(&self, other: &Timestamp) -> (r: bool)
        ensures
            r == self.spec_not_after(*other),
    {
        self.seconds < other.seconds || (self.seconds == other.seconds && self.nanos
            <= other.nanos)
    }
}

/// Relies on chrono's `Local::now`, with `DateTime::timestamp`,
/// `DateTime::timestamp_subsec_nanos` and `FixedOffset::local_minus_utc`:
/// the subsecond part stays below two seconds (a leap second at most) and a
/// `FixedOffset` is always strictly within one day of UTC.
#[verifier::external_body]
pub(crate) fn clock_now() -> (r: Timestamp)
    ensures
        r.wf(),
{
    let now = chrono::Local::now();
    Timestamp {
        seconds: now.timestamp(),
        nanos: now.timestamp_subsec_nanos(),
        offset: now.offset().local_minus_utc(),
    }
}

} // verus!
