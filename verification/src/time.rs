//! Spans of time, and the clock.

use std::time::Instant;
use vstd::prelude::*;

verus! {

/// A span of time.
#[derive(Clone, Copy, Debug, PartialEq, Eq, PartialOrd, Ord, Structural)]
pub struct Duration {
    /// Its length in nanoseconds.
    pub nanos: u128,
}

/// Nanoseconds in a second.
pub const NANOS_PER_SEC: u128 = 1_000_000_000;

impl Duration {
    /// No time at all.
    pub fn zero() -> (r: Duration)
        ensures
            r.nanos == 0,
    {
        Duration { nanos: 0 }
    }

    /// So many seconds.
    pub fn from_secs(secs: u64) -> (r: Duration)
        ensures
            r.nanos == secs * NANOS_PER_SEC,
    {
        Duration { nanos: secs as u128 * NANOS_PER_SEC }
    }

    /// So many milliseconds.
    pub fn from_millis(millis: u64) -> (r: Duration)
        ensures
            r.nanos == millis * 1_000_000,
    {
        Duration { nanos: millis as u128 * 1_000_000 }
    }

    /// So many microseconds.
    pub fn from_micros(micros: u64) -> (r: Duration)
        ensures
            r.nanos == micros * 1_000,
    {
        Duration { nanos: micros as u128 * 1_000 }
    }

    /// The whole seconds of the span, as far as they can be counted.
    pub open spec fn whole_secs(self) -> u64 {
        if self.nanos / NANOS_PER_SEC <= u64::MAX {
            (self.nanos / NANOS_PER_SEC) as u64
        } else {
            u64::MAX
        }
    }

    /// The nanoseconds beyond the whole seconds.
    pub open spec fn rest_nanos(self) -> u32 {
        (self.nanos % NANOS_PER_SEC) as u32
    }

    /// The whole seconds of the span, as far as they can be counted.
    pub fn as_secs(&self) -> (r: u64)
        ensures
            r == self.whole_secs(),
    {
        let secs: u128 = self.nanos / NANOS_PER_SEC;
        if secs <= u64::MAX as u128 {
            secs as u64
        } else {
            u64::MAX
        }
    }

    /// The span as text.
    pub open spec fn spec_text(self) -> Seq<char> {
        duration_debug(self.whole_secs(), self.rest_nanos())
    }

    /// The span as text, in the form in which durations are shown for debugging.
    pub fn text(&self) -> (r: String)
        ensures
            r@ == self.spec_text(),
    {
        duration_text(self.as_secs(), (self.nanos % NANOS_PER_SEC) as u32)
    }
}

/// The text that the `Debug` form of `std::time::Duration` gives for so many seconds and
/// nanoseconds.
pub uninterp spec fn duration_debug(secs: u64, nanos: u32) -> Seq<char>;

/// `std::time::Duration::new`, shown by its `Debug` form.
#[verifier::external_body]
fn duration_text(secs: u64, nanos: u32) -> (r: String)
    requires
        nanos < 1_000_000_000,
    ensures
        r@ == duration_debug(secs, nanos),
{
    format!("{:?}", std::time::Duration::new(secs, nanos))
}

/// Declares `std::time::Instant`, a reading of the monotonic clock.
#[verifier::external_type_specification]
#[verifier::external_body]
pub struct ExInstant(Instant);

/// `std::time::Instant::now`. Nothing is promised of the reading.
#[verifier::external_body]
pub(crate) fn clock_now() -> (r: Instant) {
    Instant::now()
}

/// `std::time::Instant::elapsed`: the time since the reading. Nothing is promised of its length.
#[verifier::external_body]
pub(crate) fn time_since(start: &Instant) -> (r: Duration) {
    Duration { nanos: start.elapsed().as_nanos() }
}

/// The whole seconds of a span and the nanoseconds beyond them make up the span, as long as the
/// seconds can be counted.
pub proof fn law_seconds_and_rest_make_the_span(d: Duration)
    ensures
        d.rest_nanos() < NANOS_PER_SEC,
        d.nanos < 0x1_0000_0000_0000_0000 * 1_000_000_000 ==> d.whole_secs() * 1_000_000_000
            + d.rest_nanos() == d.nanos,
        d.nanos >= 0x1_0000_0000_0000_0000 * 1_000_000_000 ==> d.whole_secs() == u64::MAX,
{
}

} // verus!
