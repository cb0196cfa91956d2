//! Bi-temporal coordinates: hybrid timestamps, half-open ranges, and intervals in valid time and
//! transaction time.

use crate::error::TemporalError;
use vstd::prelude::*;

verus! {

/// A hybrid logical clock reading: microseconds since the epoch, and a counter that orders the
/// readings of one microsecond.
#[derive(Clone, Copy, Debug, PartialEq, Eq, PartialOrd, Ord, Hash, Structural)]
pub struct HybridTimestamp {
    /// Microseconds since the epoch.
    pub wallclock: i64,
    /// Order within the microsecond.
    pub logical: u32,
}

/// A point on either time axis.
pub type Timestamp = HybridTimestamp;

impl HybridTimestamp {
    /// The position of a timestamp on the time axis.
    pub open spec fn key(self) -> int {
        self.wallclock * 0x1_0000_0000 + self.logical
    }

    /// The end of time: the end of every range that is still open.
    pub open spec fn spec_max() -> HybridTimestamp {
        HybridTimestamp { wallclock: i64::MAX, logical: u32::MAX }
    }

    /// The reading with the given parts.
    pub fn new(wallclock: i64, logical: u32) -> (r: HybridTimestamp)
        ensures
            r == (HybridTimestamp { wallclock, logical }),
    {
        HybridTimestamp { wallclock, logical }
    }

    /// The first reading of a microsecond.
    pub fn from_micros(wallclock: i64) -> (r: HybridTimestamp)
        ensures
            r == (HybridTimestamp { wallclock, logical: 0 }),
    {
        HybridTimestamp { wallclock, logical: 0 }
    }

    /// The end of time.
    pub fn max_value() -> (r: HybridTimestamp)
        ensures
            r == Self::spec_max(),
    {
        HybridTimestamp { wallclock: i64::MAX, logical: u32::MAX }
    }

    /// Whether this reading is strictly earlier than `other`.
    pub fn is_before(&self, other: &HybridTimestamp) -> (r: bool)
        ensures
            r == (self.key() < other.key()),
    {
        self.wallclock < other.wallclock || (self.wallclock == other.wallclock && self.logical
            < other.logical)
    }
}

/// Timestamps at the same position are the same timestamp, and none lies after the end of time.
pub proof fn lemma_timestamp_order(a: HybridTimestamp, b: HybridTimestamp)
    ensures
        a.key() == b.key() ==> a == b,
        a.key() <= HybridTimestamp::spec_max().key(),
{
}

/// A half-open range `[start, end)` of time.
#[derive(Clone, Copy, Debug, PartialEq, Eq, Hash, Structural)]
pub struct TimeRange {
    /// First point of the range.
    pub start: Timestamp,
    /// First point after the range.
    pub end: Timestamp,
}

impl TimeRange {
    /// The point lies in the range.
    pub open spec fn has(self, t: Timestamp) -> bool {
        self.start.key() <= t.key() < self.end.key()
    }

    /// The range reaches to the end of time.
    pub open spec fn open_ended(self) -> bool {
        self.end == HybridTimestamp::spec_max()
    }

    /// The two ranges share a point, or the empty range `self` lies at a point of `other`.
    pub open spec fn meets(self, other: TimeRange) -> bool {
        ||| (self.start.key() < other.end.key() && other.start.key() < self.end.key())
        ||| (self.start == self.end && other.has(self.start))
    }

    /// The range from `start` to `end`; refused when it would end before it starts.
    pub fn new(start: Timestamp, end: Timestamp) -> (r: Result<TimeRange, TemporalError>)
        ensures
            match r {
                Ok(range) => start.key() <= end.key() && range == (TimeRange { start, end }),
                Err(e) => end.key() < start.key() && e == (TemporalError::InvalidTimeRange {
                    start,
                    end,
                }),
            },
    {
        if end.is_before(&start) {
            Err(TemporalError::InvalidTimeRange { start, end })
        } else {
            Ok(TimeRange { start, end })
        }
    }

    /// The range from `start` to the end of time.
    pub fn from(start: Timestamp) -> (r: TimeRange)
        ensures
            r == (TimeRange { start, end: HybridTimestamp::spec_max() }),
    {
        TimeRange { start, end: HybridTimestamp::max_value() }
    }

    /// Whether the point lies in the range.
    pub fn contains(&self, t: Timestamp) -> (r: bool)
        ensures
            r == self.has(t),
    {
        !t.is_before(&self.start) && t.is_before(&self.end)
    }

    /// Whether the range reaches to the end of time.
    pub fn is_current(&self) -> (r: bool)
        ensures
            r == self.open_ended(),
    {
        self.end == HybridTimestamp::max_value()
    }

    /// Whether the two ranges share a point, or the empty range `self` lies at a point of `other`.
    pub fn intersects(&self, other: &TimeRange) -> (r: bool)
        ensures
            r == self.meets(*other),
    {
        (self.start.is_before(&other.end) && other.start.is_before(&self.end)) || (self.start
            == self.end && other.contains(self.start))
    }
}

/// When a fact held in the world, and when the database recorded it.
#[derive(Clone, Copy, Debug, PartialEq, Eq, Hash, Structural)]
pub struct BiTemporalInterval {
    /// When the fact held in the world.
    pub valid_time: TimeRange,
    /// When the database held the fact to be known.
    pub transaction_time: TimeRange,
}

impl BiTemporalInterval {
    /// The fact is visible at a bi-temporal point.
    pub open spec fn visible(self, valid_time: Timestamp, transaction_time: Timestamp) -> bool {
        self.valid_time.has(valid_time) && self.transaction_time.has(transaction_time)
    }

    /// The interval with its valid time ending at `end`.
    pub open spec fn with_valid_end(self, end: Timestamp) -> BiTemporalInterval {
        BiTemporalInterval {
            valid_time: TimeRange { start: self.valid_time.start, end },
            transaction_time: self.transaction_time,
        }
    }

    /// The interval with its transaction time ending at `end`.
    pub open spec fn with_tx_end(self, end: Timestamp) -> BiTemporalInterval {
        BiTemporalInterval {
            valid_time: self.valid_time,
            transaction_time: TimeRange { start: self.transaction_time.start, end },
        }
    }

    /// The interval of a fact that holds from `valid_from` on and is known from `tx_time` on.
    pub open spec fn opened(valid_from: Timestamp, tx_time: Timestamp) -> BiTemporalInterval {
        BiTemporalInterval {
            valid_time: TimeRange { start: valid_from, end: HybridTimestamp::spec_max() },
            transaction_time: TimeRange { start: tx_time, end: HybridTimestamp::spec_max() },
        }
    }

    /// The interval of a fact that holds from `valid_from` on and is known from `tx_time` on.
    pub fn with_valid_time(valid_from: Timestamp, tx_time: Timestamp) -> (r: BiTemporalInterval)
        ensures
            r == Self::opened(valid_from, tx_time),
    {
        BiTemporalInterval {
            valid_time: TimeRange::from(valid_from),
            transaction_time: TimeRange::from(tx_time),
        }
    }

    /// Whether the fact is visible at a bi-temporal point.
    pub fn is_visible_at(&self, valid_time: Timestamp, transaction_time: Timestamp) -> (r: bool)
        ensures
            r == self.visible(valid_time, transaction_time),
    {
        self.valid_time.contains(valid_time) && self.transaction_time.contains(transaction_time)
    }

    /// Whether the database still holds the fact to be known.
    pub fn is_currently_recorded(&self) -> (r: bool)
        ensures
            r == self.transaction_time.open_ended(),
    {
        self.transaction_time.is_current()
    }

    /// Ends the valid time at `end`; refused when that lies before its start.
    pub fn close_valid_time(&self, end: Timestamp) -> (r: Result<BiTemporalInterval, TemporalError>)
        ensures
            match r {
                Ok(i) => self.valid_time.start.key() <= end.key() && i == self.with_valid_end(end),
                Err(e) => end.key() < self.valid_time.start.key() && e
                    == (TemporalError::InvalidTimeRange { start: self.valid_time.start, end }),
            },
    {
        match TimeRange::new(self.valid_time.start, end) {
            Ok(valid_time) => Ok(
                BiTemporalInterval { valid_time, transaction_time: self.transaction_time },
            ),
            Err(e) => Err(e),
        }
    }

    /// Ends the transaction time at `end`; refused when that lies before its start.
    pub fn close_transaction_time(&self, end: Timestamp) -> (r: Result<
        BiTemporalInterval,
        TemporalError,
    >)
        ensures
            match r {
                Ok(i) => self.transaction_time.start.key() <= end.key() && i == self.with_tx_end(
                    end,
                ),
                Err(e) => end.key() < self.transaction_time.start.key() && e
                    == (TemporalError::InvalidTimeRange { start: self.transaction_time.start, end }),
            },
    {
        match TimeRange::new(self.transaction_time.start, end) {
            Ok(transaction_time) => Ok(
                BiTemporalInterval { valid_time: self.valid_time, transaction_time },
            ),
            Err(e) => Err(e),
        }
    }
}

/// Timestamps come in the order of their microseconds, and within one in the order of their
/// counters.
pub proof fn law_timestamps_in_order(a: HybridTimestamp, b: HybridTimestamp)
    ensures
        a.key() < b.key() <==> a.wallclock < b.wallclock || (a.wallclock == b.wallclock && a.logical
            < b.logical),
        a.key() == b.key() <==> a.wallclock == b.wallclock && a.logical == b.logical,
        a.key() <= HybridTimestamp::spec_max().key(),
{
}

/// A range holds its start and every later moment before its end, and no other.
pub proof fn law_range_is_half_open(range: TimeRange, t: Timestamp)
    ensures
        range.has(t) <==> range.start.key() <= t.key() && t.key() < range.end.key(),
        range.start.key() < range.end.key() ==> range.has(range.start),
        !range.has(range.end),
        range.open_ended() <==> forall|later: Timestamp|
            (#[trigger] later.key()) <= range.end.key(),
{
    if forall|later: Timestamp| (#[trigger] later.key()) <= range.end.key() {
        assert(HybridTimestamp::spec_max().key() <= range.end.key());
    }
}

/// Two ranges that hold moments meet exactly if some moment lies in both. One that holds none meets
/// another exactly if it lies at a moment of it, and is met by another exactly if it lies inside
/// it.
pub proof fn law_ranges_meet_at_a_moment(a: TimeRange, b: TimeRange)
    requires
        a.start.key() <= a.end.key(),
        b.start.key() <= b.end.key(),
    ensures
        a.start.key() < a.end.key() && b.start.key() < b.end.key() ==> (a.meets(b)
            <==> exists|t: Timestamp|
            a.start.key() <= (#[trigger] t.key()) && t.key() < a.end.key() && b.start.key()
                <= t.key() && t.key() < b.end.key()),
        a.start.key() < a.end.key() && b.start == b.end ==> (a.meets(b) <==> a.start.key()
            < b.start.key() && b.start.key() < a.end.key()),
        a.start == a.end ==> (a.meets(b) <==> b.start.key() <= a.start.key() && a.start.key()
            < b.end.key()),
{
    if a.start.key() < a.end.key() && a.meets(b) {
        if a.start.key() <= b.start.key() {
            assert(b.start.key() <= b.start.key());
        } else {
            assert(a.start.key() <= a.start.key());
        }
    }
}

/// A fact is visible at a point exactly if it holds at the valid time and is known at the
/// transaction time.
pub proof fn law_visible_in_both_times(
    interval: BiTemporalInterval,
    valid_time: Timestamp,
    transaction_time: Timestamp,
)
    ensures
        interval.visible(valid_time, transaction_time) <==> {
            &&& interval.valid_time.start.key() <= valid_time.key()
            &&& valid_time.key() < interval.valid_time.end.key()
            &&& interval.transaction_time.start.key() <= transaction_time.key()
            &&& transaction_time.key() < interval.transaction_time.end.key()
        },
{
}

/// A fact that was opened is visible from its two starts on, until the end of time. Ending one of
/// its times hides it from that end on in that time, and changes nothing before it or in the other
/// time.
pub proof fn law_ending_a_time_hides_what_follows(
    valid_from: Timestamp,
    tx_time: Timestamp,
    interval: BiTemporalInterval,
    end: Timestamp,
    valid_time: Timestamp,
    transaction_time: Timestamp,
)
    ensures
        BiTemporalInterval::opened(valid_from, tx_time).visible(valid_time, transaction_time)
            <==> valid_from.key() <= valid_time.key() && tx_time.key() <= transaction_time.key()
            && valid_time != HybridTimestamp::spec_max() && transaction_time
            != HybridTimestamp::spec_max(),
        end.key() <= valid_time.key() ==> !interval.with_valid_end(end).visible(
            valid_time,
            transaction_time,
        ),
        end.key() <= transaction_time.key() ==> !interval.with_tx_end(end).visible(
            valid_time,
            transaction_time,
        ),
        valid_time.key() < end.key() && end.key() <= interval.valid_time.end.key() ==> (
        interval.with_valid_end(end).visible(valid_time, transaction_time) <==> interval.visible(
            valid_time,
            transaction_time,
        )),
        transaction_time.key() < end.key() && end.key() <= interval.transaction_time.end.key() ==> (
        interval.with_tx_end(end).visible(valid_time, transaction_time) <==> interval.visible(
            valid_time,
            transaction_time,
        )),
{
    lemma_timestamp_order(valid_time, HybridTimestamp::spec_max());
    lemma_timestamp_order(transaction_time, HybridTimestamp::spec_max());
}

} // verus!
