//! Membership functions: shapes that map a crisp value to a degree in `[0, ONE]`.

use vstd::prelude::*;
use crate::error::FuzzyError;
use crate::fixed::{clamp01, is_degree, lemma_share_bounds, share, Fixed, ONE};

pub mod gaussian;
pub mod trapezoidal;
pub mod triangular;

pub use gaussian::Gaussian;
pub use trapezoidal::Trapezoidal;
pub use triangular::Triangular;

verus! {

/// Anything that assigns a membership degree to every crisp value: each of
/// the built-in shapes, their union [`MembershipShape`], and a term.
pub trait MembershipFn {
    /// The degree of `x`, as a mathematical function.
    spec fn degree(&self, x: int) -> int;

    /// Evaluates the membership degree of `x`; it cannot fail.
    fn eval(&self, x: Fixed) -> (mu: Fixed)
        ensures
            mu == self.degree(x as int),
            is_degree(mu as int),
    ;
}

/// Whether `vals` rises strictly from each element to the next.
pub open spec fn strictly_rising(vals: Seq<Fixed>) -> bool {
    forall|i: int| 0 <= i < vals.len() - 1 ==> vals[i] < #[trigger] vals[i + 1]
}

/// Checks that the corner points of a shape are in strictly rising order.
pub fn validate_order(vals: &[Fixed]) -> (res: Result<(), FuzzyError>)
    ensures
        res is Ok <==> strictly_rising(vals@),
        res is Err ==> res == Err::<(), FuzzyError>(FuzzyError::InvalidShape),
{
    let mut i: usize = 1;
    while i < vals.len()
        invariant
            1 <= i,
            forall|j: int| 0 <= j < i - 1 ==> vals@[j] < #[trigger] vals@[j + 1],
        decreases vals.len() - i,
    {
        if vals[i] <= vals[i - 1] {
            assert(!(vals@[i - 1] < vals@[(i - 1) + 1]));
            return Err(FuzzyError::InvalidShape);
        }
        i += 1;
    }
    Ok(())
}

/// The linear ramp between `left` and `right`, clamped to the unit interval.
///
/// A rising ramp is `(value - left) / (right - left)`; a falling one is one
/// minus that. The quotient is rounded down to a whole number of billionths.
pub open spec fn slope_degree(value: int, left: int, right: int, rising: bool) -> int {
    let up = share(value - left, right - left);
    clamp01(if rising { up } else { ONE - up })
}

/// A ramp is zero at its foot and one at its head, whichever way it runs.
pub proof fn lemma_slope_ends(left: int, right: int)
    requires
        left < right,
    ensures
        slope_degree(left, left, right, true) == 0,
        slope_degree(right, left, right, true) == ONE,
        slope_degree(left, left, right, false) == ONE,
        slope_degree(right, left, right, false) == 0,
{
    lemma_share_bounds(0, right - left);
    lemma_share_bounds(right - left, right - left);
}

/// Computes the ramp of [`slope_degree`].
pub fn slope(value: Fixed, left: Fixed, right: Fixed, rising: bool) -> (mu: Fixed)
    requires
        left < right,
    ensures
        mu == slope_degree(value as int, left as int, right as int, rising),
        is_degree(mu as int),
{
    proof {
        lemma_share_bounds(value - left, right - left);
    }
    let up: Fixed = if value <= left {
        0
    } else if value >= right {
        ONE
    } else {
        let part: u128 = (value as i128 - left as i128) as u128;
        let whole: u128 = (right as i128 - left as i128) as u128;
        assert(part * 1_000_000_000 <= 0xffff_ffff_ffff_ffff * 1_000_000_000) by (nonlinear_arith)
            requires
                part <= 0xffff_ffff_ffff_ffff,
        {
        }
        let scaled: u128 = part * 1_000_000_000;
        (scaled / whole) as Fixed
    };
    if rising {
        up
    } else {
        ONE - up
    }
}

/// Why a shape could not be built.
#[derive(Debug, Clone, Copy, PartialEq, Eq, Hash, Structural)]
pub enum ShapeError {
    /// The corners of a triangle are not in strictly rising order.
    BadTriangle,
    /// The corners of a trapezoid are not in strictly rising order.
    BadTrapezoid,
    /// The standard deviation of a Gaussian is not positive.
    BadGaussian,
}

impl ShapeError {
    /// Every shape error is an invalid shape in the library's shared vocabulary.
    pub fn to_fuzzy(&self) -> (e: FuzzyError)
        ensures
            e == FuzzyError::InvalidShape,
    {
        FuzzyError::InvalidShape
    }
}

/// One of the built-in shapes.
#[derive(Debug, Clone, Copy, PartialEq, Eq)]
pub enum MembershipShape {
    /// A triangle: zero outside its base, one at its apex.
    Triangular(Triangular),
    /// A trapezoid: zero outside its legs, one on its plateau.
    Trapezoidal(Trapezoidal),
    /// A bell curve around a mean.
    Gaussian(Gaussian),
}

impl MembershipShape {
    /// A triangle over `(l, r)` with its apex at `c`.
    pub fn triangle(l: Fixed, c: Fixed, r: Fixed) -> (res: Result<Self, ShapeError>)
        ensures
            res is Ok <==> l < c < r,
            res matches Ok(s) ==> s matches MembershipShape::Triangular(t) && t.corners() == (
                l as int,
                c as int,
                r as int,
            ),
            res matches Err(e) ==> e == ShapeError::BadTriangle,
    {
        match Triangular::new(l, c, r) {
            Ok(t) => Ok(MembershipShape::Triangular(t)),
            Err(_) => Err(ShapeError::BadTriangle),
        }
    }

    /// A trapezoid over `(ll, rl)` with its plateau on `[lb, rb]`.
    pub fn trapezoid(ll: Fixed, lb: Fixed, rb: Fixed, rl: Fixed) -> (res: Result<Self, ShapeError>)
        ensures
            res is Ok <==> ll < lb < rb < rl,
            res matches Ok(s) ==> s matches MembershipShape::Trapezoidal(t) && t.corners() == (
                ll as int,
                lb as int,
                rb as int,
                rl as int,
            ),
            res matches Err(e) ==> e == ShapeError::BadTrapezoid,
    {
        match Trapezoidal::new(ll, lb, rb, rl) {
            Ok(t) => Ok(MembershipShape::Trapezoidal(t)),
            Err(_) => Err(ShapeError::BadTrapezoid),
        }
    }

    /// A bell curve around `mean` with standard deviation `sd`.
    pub fn gaussian(mean: Fixed, sd: Fixed) -> (res: Result<Self, ShapeError>)
        ensures
            res is Ok <==> sd > 0,
            res matches Ok(s) ==> s matches MembershipShape::Gaussian(g) && g.mean() == mean
                && g.sd() == sd,
            res matches Err(e) ==> e == ShapeError::BadGaussian,
    {
        match Gaussian::new(sd, mean) {
            Ok(g) => Ok(MembershipShape::Gaussian(g)),
            Err(_) => Err(ShapeError::BadGaussian),
        }
    }

    /// The membership degree of `value` under this shape.
    pub fn membership(&self, value: Fixed) -> (mu: Fixed)
        ensures
            mu == self.degree(value as int),
            is_degree(mu as int),
    {
        self.eval(value)
    }
}

/// Every built-in shape gives membership degrees, on which clamping to the
/// unit interval changes nothing.
pub proof fn lemma_shape_bounded(shape: MembershipShape, x: int)
    ensures
        is_degree(shape.degree(x)),
        clamp01(shape.degree(x)) == shape.degree(x),
{
    match shape {
        MembershipShape::Triangular(t) => {
            triangular::lemma_triangular_bounded(t.corners().0, t.corners().1, t.corners().2, x);
        },
        MembershipShape::Trapezoidal(t) => {
            trapezoidal::lemma_trapezoidal_bounded(
                t.corners().0,
                t.corners().1,
                t.corners().2,
                t.corners().3,
                x,
            );
        },
        MembershipShape::Gaussian(g) => {
            gaussian::lemma_gaussian_bounded(g.mean(), g.sd(), x);
        },
    }
}

impl From<Triangular> for MembershipShape {
    fn from(t: Triangular) -> (s: MembershipShape) {
        MembershipShape::Triangular(t)
    }
}

impl vstd::std_specs::convert::FromSpecImpl<Triangular> for MembershipShape {
    open spec fn obeys_from_spec() -> bool {
        true
    }

    open spec fn from_spec(t: Triangular) -> MembershipShape {
        MembershipShape::Triangular(t)
    }
}

impl From<Trapezoidal> for MembershipShape {
    fn from(t: Trapezoidal) -> (s: MembershipShape) {
        MembershipShape::Trapezoidal(t)
    }
}

impl vstd::std_specs::convert::FromSpecImpl<Trapezoidal> for MembershipShape {
    open spec fn obeys_from_spec() -> bool {
        true
    }

    open spec fn from_spec(t: Trapezoidal) -> MembershipShape {
        MembershipShape::Trapezoidal(t)
    }
}

impl From<Gaussian> for MembershipShape {
    fn from(g: Gaussian) -> (s: MembershipShape) {
        MembershipShape::Gaussian(g)
    }
}

impl vstd::std_specs::convert::FromSpecImpl<Gaussian> for MembershipShape {
    open spec fn obeys_from_spec() -> bool {
        true
    }

    open spec fn from_spec(g: Gaussian) -> MembershipShape {
        MembershipShape::Gaussian(g)
    }
}

impl MembershipFn for MembershipShape {
    open spec fn degree(&self, x: int) -> int {
        match self {
            MembershipShape::Triangular(t) => t.degree(x),
            MembershipShape::Trapezoidal(t) => t.degree(x),
            MembershipShape::Gaussian(g) => g.degree(x),
        }
    }

    fn eval(&self, x: Fixed) -> (mu: Fixed) {
        match self {
            MembershipShape::Triangular(t) => t.eval(x),
            MembershipShape::Trapezoidal(t) => t.eval(x),
            MembershipShape::Gaussian(g) => g.eval(x),
        }
    }
}

} // verus!
