//! Ranges of time on a timeline.

use vstd::prelude::*;

verus! {

/// A closed range of time. It is empty when `min` lies above `max`.
#[derive(Debug, Clone, Copy, PartialEq, Eq, Structural)]
pub struct AbsoluteTimeRange {
    pub min: i64,
    pub max: i64,
}

impl AbsoluteTimeRange {
    /// The range that holds `t` alone.
    pub open spec fn spec_point(t: i64) -> Self {
        AbsoluteTimeRange { min: t, max: t }
    }

    /// The smallest range that covers both.
    pub open spec fn spec_union(self, other: Self) -> Self {
        AbsoluteTimeRange {
            min: if self.min <= other.min {
                self.min
            } else {
                other.min
            },
            max: if self.max >= other.max {
                self.max
            } else {
                other.max
            },
        }
    }

    /// Whether `t` lies in the range.
    pub open spec fn holds(self, t: int) -> bool {
        self.min <= t <= self.max
    }

    /// The range from `min` to `max`.
    pub fn new(min: i64, max: i64) -> (r: Self)
        ensures
            r == (AbsoluteTimeRange { min, max }),
    {
        AbsoluteTimeRange { min, max }
    }

    /// The range that covers all of time.
    pub fn everything() -> (r: Self)
        ensures
            forall|t: i64| #[trigger] r.holds(t as int),
    {
        AbsoluteTimeRange { min: i64::MIN, max: i64::MAX }
    }

    /// A range that holds no time.
    pub fn empty() -> (r: Self)
        ensures
            forall|t: i64| !#[trigger] r.holds(t as int),
            r.min == i64::MAX,
            r.max == i64::MIN,
    {
        AbsoluteTimeRange { min: i64::MAX, max: i64::MIN }
    }

    /// The smallest range that covers both.
    pub fn union(self, other: Self) -> (r: Self)
        ensures
            r == self.spec_union(other),
    {
        AbsoluteTimeRange {
            min: if self.min <= other.min {
                self.min
            } else {
                other.min
            },
            max: if self.max >= other.max {
                self.max
            } else {
                other.max
            },
        }
    }

    /// Whether the two ranges have no time in common, for ranges that are not empty.
    pub open spec fn apart(self, other: Self) -> bool {
        self.max < other.min || self.min > other.max
    }
}

} // verus!
