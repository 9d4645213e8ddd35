//! The trapezoidal membership function.

use vstd::prelude::*;
use crate::error::FuzzyError;
use crate::fixed::{is_degree, Fixed, ONE};
use crate::membership::{slope, slope_degree, validate_order, MembershipFn};

verus! {

/// The degree of `x` under the trapezoid with corners
/// `left_leg < left_base < right_base < right_leg`.
///
/// Zero at and outside the legs, one on the plateau between the bases, and a
/// linear ramp along each leg.
pub open spec fn trapezoidal_degree(
    left_leg: int,
    left_base: int,
    right_base: int,
    right_leg: int,
    x: int,
) -> int {
    if x <= left_leg || x >= right_leg {
        0
    } else if x == left_base || x == right_base {
        ONE as int
    } else if x < left_base {
        slope_degree(x, left_leg, left_base, true)
    } else if x < right_base {
        ONE as int
    } else {
        slope_degree(x, right_base, right_leg, false)
    }
}

/// A trapezoidal degree is a number of the unit interval, and clamping it
/// changes nothing.
pub proof fn lemma_trapezoidal_bounded(
    left_leg: int,
    left_base: int,
    right_base: int,
    right_leg: int,
    x: int,
)
    ensures
        is_degree(trapezoidal_degree(left_leg, left_base, right_base, right_leg, x)),
        crate::fixed::clamp01(trapezoidal_degree(left_leg, left_base, right_base, right_leg, x))
            == trapezoidal_degree(left_leg, left_base, right_base, right_leg, x),
{
}

/// Every point of the plateau has degree one.
pub proof fn lemma_trapezoidal_plateau(
    left_leg: int,
    left_base: int,
    right_base: int,
    right_leg: int,
    x: int,
)
    requires
        left_leg < left_base < right_base < right_leg,
        left_base <= x <= right_base,
    ensures
        trapezoidal_degree(left_leg, left_base, right_base, right_leg, x) == ONE,
{
}

/// Outside the open interval between its legs a trapezoid is zero.
pub proof fn lemma_trapezoidal_support(
    left_leg: int,
    left_base: int,
    right_base: int,
    right_leg: int,
    x: int,
)
    ensures
        x <= left_leg || x >= right_leg ==> trapezoidal_degree(
            left_leg,
            left_base,
            right_base,
            right_leg,
            x,
        ) == 0,
{
}

/// A trapezoid with corners `left_leg < left_base < right_base < right_leg`.
#[derive(Clone, Copy, PartialEq, Eq, Debug)]
pub struct Trapezoidal {
    left_leg: Fixed,
    left_base: Fixed,
    right_base: Fixed,
    right_leg: Fixed,
}

impl Trapezoidal {
    #[verifier::type_invariant]
    spec fn ordered(self) -> bool {
        self.left_leg < self.left_base < self.right_base < self.right_leg
    }

    /// The corners `(left_leg, left_base, right_base, right_leg)`.
    pub closed spec fn corners(&self) -> (int, int, int, int) {
        (self.left_leg as int, self.left_base as int, self.right_base as int, self.right_leg as int)
    }

    /// Builds the trapezoid, provided that `ll < lb < rb < rl`.
    pub fn new(ll: Fixed, lb: Fixed, rb: Fixed, rl: Fixed) -> (res: Result<Self, FuzzyError>)
        ensures
            res is Ok <==> ll < lb < rb < rl,
            res matches Ok(t) ==> t.corners() == (ll as int, lb as int, rb as int, rl as int),
            res matches Err(e) ==> e == FuzzyError::InvalidShape,
    {
        let corners: [Fixed; 4] = [ll, lb, rb, rl];
        match validate_order(corners.as_slice()) {
            Ok(()) => {
                assert(corners@[0] < corners@[0int + 1]);
                assert(corners@[1] < corners@[1int + 1]);
                assert(corners@[2] < corners@[2int + 1]);
                Ok(Trapezoidal { left_leg: ll, left_base: lb, right_base: rb, right_leg: rl })
            },
            Err(e) => Err(e),
        }
    }
}

impl MembershipFn for Trapezoidal {
    open spec fn degree(&self, x: int) -> int {
        trapezoidal_degree(
            self.corners().0,
            self.corners().1,
            self.corners().2,
            self.corners().3,
            x,
        )
    }

    fn eval(&self, x: Fixed) -> (mu: Fixed) {
        proof {
            use_type_invariant(self);
        }
        if x <= self.left_leg {
            return 0;
        }
        if x >= self.right_leg {
            return 0;
        }
        if x == self.left_base || x == self.right_base {
            ONE
        } else if x < self.left_base {
            slope(x, self.left_leg, self.left_base, true)
        } else if x > self.left_base && x < self.right_base {
            ONE
        } else {
            slope(x, self.right_base, self.right_leg, false)
        }
    }
}

} // verus!
