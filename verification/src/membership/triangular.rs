//! The triangular membership function.

use vstd::prelude::*;
use crate::error::FuzzyError;
use crate::fixed::{is_degree, lemma_share_bounds, Fixed, ONE};
use crate::membership::{slope, slope_degree, validate_order, MembershipFn};

verus! {

/// The degree of `x` under the triangle with corners `left < center < right`.
///
/// Zero at and outside the corners `left` and `right`, one at `center`, and a
/// linear ramp on either side of it.
pub open spec fn triangular_degree(left: int, center: int, right: int, x: int) -> int {
    if x <= left || x >= right {
        0
    } else if x == center {
        ONE as int
    } else if x < center {
        slope_degree(x, left, center, true)
    } else {
        slope_degree(x, center, right, false)
    }
}

/// A triangular degree is a number of the unit interval, and clamping it
/// changes nothing.
pub proof fn lemma_triangular_bounded(left: int, center: int, right: int, x: int)
    ensures
        is_degree(triangular_degree(left, center, right, x)),
        crate::fixed::clamp01(triangular_degree(left, center, right, x)) == triangular_degree(
            left,
            center,
            right,
            x,
        ),
{
}

/// The apex of a triangle has degree one.
pub proof fn lemma_triangular_apex(left: int, center: int, right: int)
    requires
        left < center < right,
    ensures
        triangular_degree(left, center, right, center) == ONE,
{
}

/// Outside the open interval between its outer corners a triangle is zero.
pub proof fn lemma_triangular_support(left: int, center: int, right: int, x: int)
    ensures
        x <= left || x >= right ==> triangular_degree(left, center, right, x) == 0,
{
}

/// Between a corner and the apex the degree is the plain share of the way
/// covered: `(x - left) / (center - left)` on the way up and
/// `(right - x) / (right - center)`, rounded up, on the way down.
pub proof fn lemma_triangular_ramps(left: int, center: int, right: int, x: int)
    requires
        left < center < right,
    ensures
        left < x < center ==> triangular_degree(left, center, right, x) == ((x - left) * ONE) / (
        center - left),
        center < x < right ==> triangular_degree(left, center, right, x) == ONE - ((x - center)
            * ONE) / (right - center),
{
    lemma_share_bounds(x - left, center - left);
    lemma_share_bounds(x - center, right - center);
}

/// A triangle with corners `left < center < right`.
#[derive(Clone, Copy, PartialEq, Eq, Debug)]
pub struct Triangular {
    left: Fixed,
    center: Fixed,
    right: Fixed,
}

impl Triangular {
    #[verifier::type_invariant]
    spec fn ordered(self) -> bool {
        self.left < self.center < self.right
    }

    /// The corners `(left, center, right)`.
    pub closed spec fn corners(&self) -> (int, int, int) {
        (self.left as int, self.center as int, self.right as int)
    }

    /// Builds the triangle, provided that `l < c < r`.
    pub fn new(l: Fixed, c: Fixed, r: Fixed) -> (res: Result<Self, FuzzyError>)
        ensures
            res is Ok <==> l < c < r,
            res matches Ok(t) ==> t.corners() == (l as int, c as int, r as int),
            res matches Err(e) ==> e == FuzzyError::InvalidShape,
    {
        let corners: [Fixed; 3] = [l, c, r];
        match validate_order(corners.as_slice()) {
            Ok(()) => {
                assert(corners@[0] < corners@[0int + 1]);
                assert(corners@[1] < corners@[1int + 1]);
                Ok(Triangular { left: l, center: c, right: r })
            },
            Err(e) => Err(e),
        }
    }
}

/// The degree of `value` under the triangle with the given corners, or zero
/// where the corners are not in strictly rising order.
pub fn triangular_membership(value: Fixed, left: Fixed, center: Fixed, right: Fixed) -> (mu: Fixed)
    ensures
        mu == if left < center < right {
            triangular_degree(left as int, center as int, right as int, value as int)
        } else {
            0
        },
        is_degree(mu as int),
{
    match Triangular::new(left, center, right) {
        Ok(t) => t.eval(value),
        Err(_) => 0,
    }
}

impl MembershipFn for Triangular {
    open spec fn degree(&self, x: int) -> int {
        triangular_degree(self.corners().0, self.corners().1, self.corners().2, x)
    }

    fn eval(&self, x: Fixed) -> (mu: Fixed) {
        proof {
            use_type_invariant(self);
        }
        if x <= self.left {
            return 0;
        }
        if x >= self.right {
            return 0;
        }
        if x == self.center {
            ONE
        } else if x < self.center {
            slope(x, self.left, self.center, true)
        } else {
            slope(x, self.center, self.right, false)
        }
    }
}

} // verus!
