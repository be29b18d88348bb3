//! Inclusive integer intervals over 1-based line numbers, with the
//! intersection-length operation that the change attributor is built on.

use vstd::prelude::*;

verus! {

/// An interval of line numbers. Both endpoints are 1-based; the lower bound
/// is inclusive, while the upper bound is `start + line_count`, so the
/// intersection below counts shared lines. Row 0 is reserved as *missing*.
#[derive(Clone, Copy, Debug, PartialEq, Eq, Structural)]
pub struct Interval(pub usize, pub usize);

/// Length of the overlap of `a` and `b`:
/// `max(0, min(a.1, b.1) - max(a.0, b.0))`.
pub open spec fn spec_intersect(a: Interval, b: Interval) -> int {
    let lo = if a.0 >= b.0 {
        a.0 as int
    } else {
        b.0 as int
    };
    let hi = if a.1 <= b.1 {
        a.1 as int
    } else {
        b.1 as int
    };
    if hi >= lo {
        hi - lo
    } else {
        0
    }
}

/// Number of lines an interval spans under the half-open upper convention.
pub open spec fn spec_length(a: Interval) -> int {
    if a.1 >= a.0 {
        a.1 - a.0
    } else {
        0
    }
}

impl Interval {
    /// Length of the overlap of the two intervals, zero when they are
    /// disjoint.
    pub fn intersect(&self, other: &Interval) -> (r: usize)
        ensures
            r == spec_intersect(*self, *other),
    {
        let p0: usize = if self.0 >= other.0 {
            self.0
        } else {
            other.0
        };
        let p1: usize = if self.1 <= other.1 {
            self.1
        } else {
            other.1
        };
        if p1 >= p0 {
            p1 - p0
        } else {
            0
        }
    }
}

/// An interval's overlap with itself is its own length.
pub proof fn lemma_intersect_self(a: Interval)
    ensures
        spec_intersect(a, a) == spec_length(a),
{
}

/// Intersection length does not depend on the order of its arguments.
pub proof fn lemma_intersect_commutes(a: Interval, b: Interval)
    ensures
        spec_intersect(a, b) == spec_intersect(b, a),
{
}

/// Intersection length is never negative.
pub proof fn lemma_intersect_nonneg(a: Interval, b: Interval)
    ensures
        spec_intersect(a, b) >= 0,
{
}

/// An interval that ends before another starts (or starts after it ends)
/// contributes nothing to it.
pub proof fn lemma_intersect_disjoint(a: Interval, b: Interval)
    requires
        a.1 <= b.0 || b.1 <= a.0,
    ensures
        spec_intersect(a, b) == 0,
{
}

} // verus!
