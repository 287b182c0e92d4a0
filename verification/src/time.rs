//! Points in time and spans of time.

use vstd::prelude::*;

verus! {

/// Nanoseconds in a second.
pub const NANOS_PER_SECOND: i128 = 1_000_000_000;

/// The first second that a point in time can fall into, counted from the Unix
/// epoch: the start of the year -262143.
pub const EARLIEST_SECOND: i64 = -8_334_601_228_800;

/// The last second that a point in time can fall into: the end of the year 262142.
pub const LATEST_SECOND: i64 = 8_210_266_876_799;

/// The longest span that the difference of two points in time can be compared
/// with, in nanoseconds: `i64::MAX` milliseconds.
pub const LONGEST_SPAN_NANOS: u128 = 9_223_372_036_854_775_807_000_000;

/// A point in time in UTC, without leap seconds.
#[derive(Debug, Clone, Copy, PartialEq, Eq, Structural)]
pub struct Timestamp {
    /// Whole seconds since the Unix epoch
    pub secs: i64,
    /// Nanoseconds within the second
    pub nanos: u32,
}

/// A span of time, which is never negative.
#[derive(Debug, Clone, Copy, PartialEq, Eq, Structural)]
pub struct Span {
    /// The span in nanoseconds
    pub nanos: u128,
}

/// Whether a number of nanoseconds since the Unix epoch is a point in time.
pub open spec fn is_instant(nanos: int) -> bool {
    EARLIEST_SECOND * NANOS_PER_SECOND <= nanos < (LATEST_SECOND + 1) * NANOS_PER_SECOND
}

impl Timestamp {
    /// The point in time in nanoseconds since the Unix epoch.
    pub open spec fn instant(self) -> int {
        self.secs * NANOS_PER_SECOND + self.nanos
    }

    /// Whether this point in time comes before another.
    pub open spec fn before(self, other: Timestamp) -> bool {
        self.instant() < other.instant()
    }

    /// Whether the machine's clock can show this point in time.
    pub open spec fn is_clock_reading(self) -> bool {
        &&& 0 <= self.secs <= LATEST_SECOND
        &&& self.nanos < NANOS_PER_SECOND
    }

    /// The time now, by the machine's clock.
    pub fn now() -> (now: Timestamp)
        ensures
            now.is_clock_reading(),
    {
        let (secs, nanos) = clock_reading();
        Timestamp { secs, nanos }
    }

    /// The point in time in nanoseconds since the Unix epoch.
    pub fn nanos_since_epoch(&self) -> (nanos: i128)
        ensures
            nanos == self.instant(),
    {
        self.secs as i128 * NANOS_PER_SECOND + self.nanos as i128
    }

    /// Whether this point in time comes before another.
    pub fn is_before(&self, other: &Timestamp) -> (before: bool)
        ensures
            before == self.before(*other),
    {
        self.nanos_since_epoch() < other.nanos_since_epoch()
    }

    /// How long ago another point in time was, in nanoseconds; negative if it is
    /// still to come.
    pub fn nanos_since(&self, earlier: &Timestamp) -> (nanos: i128)
        ensures
            nanos == self.instant() - earlier.instant(),
    {
        self.nanos_since_epoch() - earlier.nanos_since_epoch()
    }

    /// The number of whole units of time since another point in time, or zero if
    /// it is still to come.
    pub open spec fn whole_units_since(self, earlier: Timestamp, unit: int) -> int {
        if self.instant() < earlier.instant() {
            0
        } else {
            (self.instant() - earlier.instant()) / unit
        }
    }

    /// The number of whole milliseconds since another point in time, or zero if it
    /// is still to come.
    pub fn millis_since(&self, earlier: &Timestamp) -> (millis: u128)
        ensures
            millis == self.whole_units_since(*earlier, 1_000_000),
    {
        let nanos = self.nanos_since(earlier);
        if nanos < 0 {
            0
        } else {
            nanos as u128 / 1_000_000
        }
    }

    /// The number of whole seconds since another point in time, or zero if it is
    /// still to come.
    pub fn secs_since(&self, earlier: &Timestamp) -> (secs: u128)
        ensures
            secs == self.whole_units_since(*earlier, 1_000_000_000),
    {
        let nanos = self.nanos_since(earlier);
        if nanos < 0 {
            0
        } else {
            nanos as u128 / 1_000_000_000
        }
    }
}

/// What `chrono::Utc::now()` reads off the machine's clock, as whole seconds since
/// the Unix epoch and nanoseconds within the second. The clock is never before the
/// epoch (`now` panics on a machine whose clock is) nor past the last point in time
/// that `chrono` can represent; nothing more is known of a reading.
#[verifier::external_body]
fn clock_reading() -> (reading: (i64, u32))
    ensures
        0 <= reading.0 <= LATEST_SECOND,
        reading.1 < NANOS_PER_SECOND,
{
    let now = chrono::Utc::now();
    (now.timestamp(), now.timestamp_subsec_nanos())
}

impl Span {
    /// A span of whole seconds.
    pub fn from_secs(secs: u64) -> (span: Span)
        ensures
            span.nanos == secs * NANOS_PER_SECOND,
    {
        Span { nanos: secs as u128 * 1_000_000_000 }
    }

    /// A span of whole milliseconds.
    pub fn from_millis(millis: u64) -> (span: Span)
        ensures
            span.nanos == millis * 1_000_000,
    {
        Span { nanos: millis as u128 * 1_000_000 }
    }

    /// The span, or another if it is longer than the difference of two points in
    /// time can be.
    pub open spec fn spec_or(self, fallback: Span) -> Span {
        if self.nanos <= LONGEST_SPAN_NANOS {
            self
        } else {
            fallback
        }
    }

    /// The span, or another if it is longer than the difference of two points in
    /// time can be.
    pub fn or(self, fallback: Span) -> (span: Span)
        ensures
            span == self.spec_or(fallback),
    {
        if self.nanos <= LONGEST_SPAN_NANOS {
            self
        } else {
            fallback
        }
    }
}

/// Points in time are ordered by their seconds, and within a second by their nanoseconds,
/// if these are fewer than a second has.
pub proof fn times_are_ordered_by_seconds(a: Timestamp, b: Timestamp)
    requires
        a.nanos < 1_000_000_000,
        b.nanos < 1_000_000_000,
    ensures
        a.secs < b.secs ==> a.before(b) && a.instant() < b.instant(),
        a.secs == b.secs && a.nanos < b.nanos ==> a.before(b) && a.instant() < b.instant(),
        a.before(b) || b.before(a) || a == b,
        !(a.before(b) && b.before(a)),
        a.secs == b.secs ==> b.instant() - a.instant() == b.nanos - a.nanos,
        a.nanos == b.nanos ==> b.instant() - a.instant() == (b.secs - a.secs) * 1_000_000_000,
{
}

/// The whole units since a point in time are as many as fit into the time that has passed;
/// none if it is still to come.
pub proof fn whole_units_fit_into_the_time(now: Timestamp, earlier: Timestamp, unit: int)
    requires
        unit > 0,
    ensures
        ({
            let units = now.whole_units_since(earlier, unit);
            let passed = now.instant() - earlier.instant();
            &&& passed < 0 ==> units == 0
            &&& passed >= 0 ==> units >= 0 && units * unit <= passed < (units + 1) * unit
        }),
{
    let passed = now.instant() - earlier.instant();
    if passed >= 0 {
        let units = passed / unit;
        assert(units >= 0 && units * unit <= passed < (units + 1) * unit) by (nonlinear_arith)
            requires
                passed >= 0,
                unit > 0,
                units == passed / unit,
        ;
    }
}

/// A span is replaced by another only if no difference of two points in time is as long.
pub proof fn only_overlong_spans_are_replaced(span: Span, fallback: Span)
    ensures
        span.nanos <= i64::MAX * 1_000_000 ==> span.spec_or(fallback) == span,
        span.nanos > i64::MAX * 1_000_000 ==> span.spec_or(fallback) == fallback,
{
}

} // verus!
