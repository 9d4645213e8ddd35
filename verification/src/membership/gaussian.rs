//! The Gaussian membership function, in integer arithmetic.
//!
//! The bell curve `exp(-(x - mean)^2 / (2 sd^2))` is computed without floating
//! point. With `q = (x - mean)^2 / (2 sd^2)`, the exponential `exp(-q)` is the
//! limit of `(1 - q / n)^n`; the library takes `n = 2^30`, so that the power is
//! thirty squarings, and carries eighteen decimal places through them.
//! Measured against the floating-point exponential the result is within a
//! few billionths of the true curve; no bound on the difference is proved.
//! At seven standard deviations and beyond, where the true curve is below
//! one billionth, the result is zero.

use vstd::prelude::*;
use crate::error::FuzzyError;
use crate::fixed::{is_degree, Fixed, ONE};
use crate::membership::MembershipFn;

verus! {

/// The scale of the intermediate results: eighteen decimal places.
pub const PRECISION: u128 = 1_000_000_000_000_000_000;

/// The number of squarings, so that the exponent of the power is `2^HALVINGS`.
pub const HALVINGS: usize = 30;

/// Two to the power of [`HALVINGS`].
pub const POWER: u128 = 1_073_741_824;

/// The number of standard deviations at which the curve is cut off to zero.
pub const REACH: u128 = 7;

/// `y` squared `k` times over, each square rounded down to [`PRECISION`].
pub open spec fn squarings(y: int, k: nat) -> int
    decreases k,
{
    if k == 0 {
        y
    } else {
        squarings((y * y) / (PRECISION as int), (k - 1) as nat)
    }
}

/// `exp(-q)` for `q = u / PRECISION`, scaled by [`PRECISION`]: the power
/// `(1 - q / 2^30)^(2^30)`.
pub open spec fn decay(u: int) -> int {
    squarings(PRECISION - u / (POWER as int), HALVINGS as nat)
}

/// How far apart `a` and `b` are.
pub open spec fn distance(a: int, b: int) -> int {
    if a >= b {
        a - b
    } else {
        b - a
    }
}

/// The degree of `x` under the bell curve around `mean` with standard
/// deviation `sd`.
///
/// With `t` the distance from the mean in standard deviations, the degree is
/// `exp(-t^2 / 2)` as [`decay`] computes it, cut to billionths; it is zero
/// from [`REACH`] standard deviations on.
pub open spec fn gaussian_degree(mean: int, sd: int, x: int) -> int {
    let d = distance(x, mean);
    if d >= REACH * sd {
        0
    } else {
        let t = (d * PRECISION) / sd;
        let u = (t * t) / (2 * PRECISION);
        decay(u) / (ONE as int)
    }
}

/// Squaring keeps a number of `[0, PRECISION]` in that interval.
pub proof fn lemma_squarings_bounded(y: int, k: nat)
    requires
        0 <= y <= PRECISION,
    ensures
        0 <= squarings(y, k) <= PRECISION,
    decreases k,
{
    if k > 0 {
        let p: int = PRECISION as int;
        let z: int = (y * y) / p;
        assert(0 <= z <= p) by (nonlinear_arith)
            requires
                0 <= y <= p,
                p > 0,
                z == (y * y) / p,
        {
        }
        lemma_squarings_bounded(z, (k - 1) as nat);
    }
}

/// Squaring keeps the order of two numbers of `[0, PRECISION]`.
pub proof fn lemma_squarings_monotone(a: int, b: int, k: nat)
    requires
        0 <= a <= b <= PRECISION,
    ensures
        squarings(a, k) <= squarings(b, k),
    decreases k,
{
    if k > 0 {
        let p: int = PRECISION as int;
        let za: int = (a * a) / p;
        let zb: int = (b * b) / p;
        assert(0 <= za <= zb <= p) by (nonlinear_arith)
            requires
                0 <= a <= b <= p,
                p > 0,
                za == (a * a) / p,
                zb == (b * b) / p,
        {
        }
        lemma_squarings_monotone(za, zb, (k - 1) as nat);
    }
}

/// One stays one under squaring.
pub proof fn lemma_squarings_one(k: nat)
    ensures
        squarings(PRECISION as int, k) == PRECISION,
    decreases k,
{
    if k > 0 {
        let p: int = PRECISION as int;
        assert((p * p) / p == p) by (nonlinear_arith)
            requires
                p > 0,
        {
        }
        lemma_squarings_one((k - 1) as nat);
    }
}

/// Within reach of the mean, the exponent and the base of the power stay in
/// the ranges that the arithmetic is laid out for.
pub proof fn lemma_exponent_bounds(d: int, sd: int)
    requires
        sd > 0,
        0 <= d < REACH * sd,
    ensures
        0 <= (d * PRECISION) / sd < REACH * PRECISION,
        ({
            let t = (d * PRECISION) / sd;
            let u = (t * t) / (2 * PRECISION);
            &&& 0 <= t * t < 49 * PRECISION * PRECISION
            &&& 0 <= u <= 25 * PRECISION
            &&& 0 < PRECISION - u / (POWER as int) <= PRECISION
        }),
{
    let p: int = PRECISION as int;
    let t: int = (d * p) / sd;
    assert(0 <= t < 7 * p) by (nonlinear_arith)
        requires
            sd > 0,
            0 <= d < 7 * sd,
            p > 0,
            t == (d * p) / sd,
    {
    }
    assert(0 <= t * t < 49 * p * p) by (nonlinear_arith)
        requires
            0 <= t < 7 * p,
            p > 0,
    {
    }
    let u: int = (t * t) / (2 * p);
    assert(0 <= u <= 25 * p) by (nonlinear_arith)
        requires
            0 <= t * t < 49 * p * p,
            p > 0,
            u == (t * t) / (2 * p),
    {
    }
}

/// A Gaussian degree is a number of the unit interval, and clamping it
/// changes nothing.
pub proof fn lemma_gaussian_bounded(mean: int, sd: int, x: int)
    ensures
        is_degree(gaussian_degree(mean, sd, x)),
        crate::fixed::clamp01(gaussian_degree(mean, sd, x)) == gaussian_degree(mean, sd, x),
{
    let d: int = distance(x, mean);
    if d < REACH * sd {
        lemma_exponent_bounds(d, sd);
        let t: int = (d * PRECISION) / sd;
        let u: int = (t * t) / (2 * PRECISION);
        lemma_squarings_bounded(PRECISION - u / (POWER as int), HALVINGS as nat);
    }
}

/// The curve is symmetric about its mean.
pub proof fn lemma_gaussian_symmetric(mean: int, sd: int, d: int)
    ensures
        gaussian_degree(mean, sd, mean - d) == gaussian_degree(mean, sd, mean + d),
{
    assert(distance(mean - d, mean) == distance(mean + d, mean));
}

/// At its mean the curve is exactly one.
pub proof fn lemma_gaussian_peak(mean: int, sd: int)
    requires
        sd > 0,
    ensures
        gaussian_degree(mean, sd, mean) == ONE,
{
    let p: int = PRECISION as int;
    assert((0 * p) / sd == 0) by (nonlinear_arith)
        requires
            sd > 0,
    {
    }
    lemma_squarings_one(HALVINGS as nat);
}

/// The farther from the mean, the lower the degree.
pub proof fn lemma_gaussian_falls(mean: int, sd: int, near: int, far: int)
    requires
        sd > 0,
        distance(near, mean) <= distance(far, mean),
    ensures
        gaussian_degree(mean, sd, far) <= gaussian_degree(mean, sd, near),
{
    lemma_gaussian_bounded(mean, sd, near);
    let dn: int = distance(near, mean);
    let df: int = distance(far, mean);
    if df < REACH * sd {
        let p: int = PRECISION as int;
        lemma_exponent_bounds(dn, sd);
        lemma_exponent_bounds(df, sd);
        let tn: int = (dn * p) / sd;
        let tf: int = (df * p) / sd;
        assert(tn <= tf) by (nonlinear_arith)
            requires
                sd > 0,
                0 <= dn <= df,
                p > 0,
                tn == (dn * p) / sd,
                tf == (df * p) / sd,
        {
        }
        let un: int = (tn * tn) / (2 * p);
        let uf: int = (tf * tf) / (2 * p);
        assert(un <= uf) by (nonlinear_arith)
            requires
                0 <= tn <= tf,
                p > 0,
                un == (tn * tn) / (2 * p),
                uf == (tf * tf) / (2 * p),
        {
        }
        lemma_squarings_monotone(p - uf / (POWER as int), p - un / (POWER as int), HALVINGS as nat);
    }
}

/// A bell curve around `mean` with standard deviation `sd > 0`.
#[derive(Clone, Copy, PartialEq, Eq, Debug)]
pub struct Gaussian {
    sd: Fixed,
    mean: Fixed,
}

impl Gaussian {
    #[verifier::type_invariant]
    spec fn positive(self) -> bool {
        self.sd > 0
    }

    /// The standard deviation.
    pub closed spec fn sd(&self) -> int {
        self.sd as int
    }

    /// The mean.
    pub closed spec fn mean(&self) -> int {
        self.mean as int
    }

    /// Builds the curve, provided that `sd > 0`.
    pub fn new(sd: Fixed, mean: Fixed) -> (res: Result<Self, FuzzyError>)
        ensures
            res is Ok <==> sd > 0,
            res matches Ok(g) ==> g.sd() == sd && g.mean() == mean,
            res matches Err(e) ==> e == FuzzyError::InvalidShape,
    {
        match validate_positive(sd) {
            Ok(()) => Ok(Gaussian { sd, mean }),
            Err(e) => Err(e),
        }
    }
}

/// Checks that a standard deviation is positive.
pub fn validate_positive(val: Fixed) -> (res: Result<(), FuzzyError>)
    ensures
        res is Ok <==> val > 0,
        res is Err ==> res == Err::<(), FuzzyError>(FuzzyError::InvalidShape),
{
    if val <= 0 {
        return Err(FuzzyError::InvalidShape);
    }
    Ok(())
}

impl MembershipFn for Gaussian {
    open spec fn degree(&self, x: int) -> int {
        gaussian_degree(self.mean(), self.sd(), x)
    }

    fn eval(&self, x: Fixed) -> (mu: Fixed) {
        proof {
            use_type_invariant(self);
            lemma_gaussian_bounded(self.mean as int, self.sd as int, x as int);
        }
        let d: u128 = if x >= self.mean {
            (x as i128 - self.mean as i128) as u128
        } else {
            (self.mean as i128 - x as i128) as u128
        };
        let sd: u128 = self.sd as u128;
        if d >= REACH * sd {
            return 0;
        }
        proof {
            lemma_exponent_bounds(d as int, sd as int);
        }
        assert(d * PRECISION <= 0x3_8000_0000_0000_0000 * PRECISION) by (nonlinear_arith)
            requires
                d <= 0x3_8000_0000_0000_0000,
        {
        }
        let t: u128 = d * PRECISION / sd;
        assert(49 * PRECISION * PRECISION < u128::MAX) by (nonlinear_arith);
        let u: u128 = t * t / (2 * PRECISION);
        let mut y: u128 = PRECISION - u / POWER;
        let mut i: usize = 0;
        while i < HALVINGS
            invariant
                i <= HALVINGS,
                0 <= y <= PRECISION,
                squarings(y as int, (HALVINGS - i) as nat) == decay(u as int),
            decreases HALVINGS - i,
        {
            assert(y * y <= PRECISION * PRECISION) by (nonlinear_arith)
                requires
                    0 <= y <= PRECISION,
            {
            }
            proof {
                lemma_squarings_bounded(y as int, 1);
                assert(squarings(y as int, 1) == (y * y) / (PRECISION as int)) by {
                    reveal_with_fuel(squarings, 2);
                }
            }
            y = y * y / PRECISION;
            i += 1;
        }
        (y / 1_000_000_000) as Fixed
    }
}

} // verus!
