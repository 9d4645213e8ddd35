//! Discretizing an interval into evenly spaced sample points.

use vstd::prelude::*;
use crate::error::FuzzyError;
use crate::fixed::{ints, Fixed};

verus! {

/// The number of samples of a default sampler.
pub const DEFAULT_SAMPLES: usize = 101;

/// The largest number of samples a sampler can be asked for.
///
/// It keeps the sums of defuzzification within 128 bits.
pub const MAX_SAMPLES: usize = 0xffff_ffff;

/// Sample `i` of `n` evenly spaced points on `[min, max]`:
/// `min + i * (max - min) / (n - 1)`, rounded down.
pub open spec fn grid_point(min: int, max: int, n: int, i: int) -> int {
    min + (i * (max - min)) / (n - 1)
}

/// The `n` evenly spaced points on `[min, max]`, both ends included.
pub open spec fn grid(min: int, max: int, n: int) -> Seq<int> {
    Seq::new(n as nat, |i: int| grid_point(min, max, n, i))
}

/// Every grid point lies in the interval, and the points do not go down.
pub proof fn lemma_grid_point_bounds(min: int, max: int, n: int, i: int, j: int)
    requires
        n >= 2,
        min <= max,
        0 <= i <= j < n,
    ensures
        min <= grid_point(min, max, n, i) <= grid_point(min, max, n, j) <= max,
        grid_point(min, max, n, 0) == min,
        grid_point(min, max, n, n - 1) == max,
{
    let w: int = max - min;
    let m: int = n - 1;
    assert((0 * w) / m == 0) by (nonlinear_arith)
        requires
            m > 0,
    {
    }
    assert((m * w) / m == w) by (nonlinear_arith)
        requires
            m > 0,
    {
    }
    assert(0 <= (i * w) / m <= (j * w) / m <= w) by (nonlinear_arith)
        requires
            m > 0,
            w >= 0,
            0 <= i <= j <= m,
    {
        assert(0 <= i * w <= j * w <= m * w);
        assert((m * w) / m == w);
    }
}

/// Where the interval is at least as wide as the number of steps, the grid
/// rises strictly from each point to the next.
pub proof fn lemma_grid_point_rises(min: int, max: int, n: int, i: int)
    requires
        n >= 2,
        max - min >= n - 1,
        0 <= i < n - 1,
    ensures
        grid_point(min, max, n, i) < grid_point(min, max, n, i + 1),
{
    let w: int = max - min;
    let m: int = n - 1;
    assert((i * w) / m < ((i + 1) * w) / m) by (nonlinear_arith)
        requires
            m > 0,
            w >= m,
            0 <= i,
    {
        assert((i + 1) * w == i * w + w);
        assert(i * w + m <= (i + 1) * w);
        assert((i * w + m) / m == (i * w) / m + 1);
        assert((i * w + m) / m <= ((i + 1) * w) / m);
    }
}

/// The grid has `n` points, starts at `min`, ends exactly at `max`, stays in
/// the interval and never goes down; on an interval at least `n - 1` units
/// wide it rises strictly.
pub proof fn lemma_grid(min: int, max: int, n: int)
    requires
        n >= 2,
        min < max,
    ensures
        grid(min, max, n).len() == n,
        grid(min, max, n).first() == min,
        grid(min, max, n).last() == max,
        forall|i: int| 0 <= i < n ==> min <= #[trigger] grid(min, max, n)[i] <= max,
        forall|i: int, j: int|
            0 <= i <= j < n ==> #[trigger] grid(min, max, n)[i] <= #[trigger] grid(min, max, n)[j],
        max - min >= n - 1 ==> forall|i: int, j: int|
            0 <= i < j < n ==> #[trigger] grid(min, max, n)[i] < #[trigger] grid(min, max, n)[j],
{
    lemma_grid_point_bounds(min, max, n, 0, n - 1);
    assert forall|i: int| 0 <= i < n implies min <= #[trigger] grid(min, max, n)[i] <= max by {
        lemma_grid_point_bounds(min, max, n, i, i);
    }
    assert forall|i: int, j: int| 0 <= i <= j < n implies #[trigger] grid(min, max, n)[i]
        <= #[trigger] grid(min, max, n)[j] by {
        lemma_grid_point_bounds(min, max, n, i, j);
    }
    if max - min >= n - 1 {
        assert forall|i: int, j: int| 0 <= i < j < n implies #[trigger] grid(min, max, n)[i]
            < #[trigger] grid(min, max, n)[j] by {
            lemma_grid_point_rises(min, max, n, i);
            lemma_grid_point_bounds(min, max, n, i + 1, j);
        }
    }
}

/// Computes sample `i` of `n` on `[min, max]`.
pub fn sample_point(min: Fixed, max: Fixed, n: usize, i: usize) -> (x: Fixed)
    requires
        2 <= n <= MAX_SAMPLES,
        min <= max,
        i < n,
    ensures
        x == grid_point(min as int, max as int, n as int, i as int),
        min <= x <= max,
{
    proof {
        lemma_grid_point_bounds(min as int, max as int, n as int, i as int, i as int);
    }
    let width: u128 = (max as i128 - min as i128) as u128;
    assert(i * width <= 0xffff_ffff * 0xffff_ffff_ffff_ffff) by (nonlinear_arith)
        requires
            i <= 0xffff_ffff,
            width <= 0xffff_ffff_ffff_ffff,
    {
    }
    let offset: u128 = (i as u128) * width / ((n - 1) as u128);
    (min as i128 + offset as i128) as Fixed
}

/// A sampler that places `n` evenly spaced points on an interval, with
/// `2 <= n <= MAX_SAMPLES`.
#[derive(Clone, Copy, Debug, PartialEq, Eq)]
pub struct UniformSampler {
    n: usize,
}

impl UniformSampler {
    #[verifier::type_invariant]
    spec fn in_limits(self) -> bool {
        2 <= self.n <= MAX_SAMPLES
    }

    /// The number of samples.
    pub closed spec fn count(&self) -> int {
        self.n as int
    }

    /// A sampler of `n` points; `n` must be at least two and at most
    /// [`MAX_SAMPLES`].
    pub fn new(n: usize) -> (res: Result<Self, FuzzyError>)
        ensures
            res is Ok <==> 2 <= n <= MAX_SAMPLES,
            res matches Ok(s) ==> s.count() == n,
            res matches Err(e) ==> e == FuzzyError::OutOfBounds,
    {
        if n < 2 || n > MAX_SAMPLES {
            return Err(FuzzyError::OutOfBounds);
        }
        Ok(UniformSampler { n })
    }

    /// The number of samples.
    pub fn n(&self) -> (n: usize)
        ensures
            n == self.count(),
            2 <= n <= MAX_SAMPLES,
    {
        proof {
            use_type_invariant(self);
        }
        self.n
    }

    /// The sample points on `[min, max]`, which must be a proper interval.
    pub fn sample(&self, min: Fixed, max: Fixed) -> (res: Result<Vec<Fixed>, FuzzyError>)
        ensures
            res is Ok <==> min < max,
            res matches Ok(v) ==> ints(v@) == grid(min as int, max as int, self.count()),
            res matches Err(e) ==> e == FuzzyError::BadArity,
    {
        if min >= max {
            return Err(FuzzyError::BadArity);
        }
        let n: usize = self.n();
        let mut points: Vec<Fixed> = Vec::with_capacity(n);
        let mut i: usize = 0;
        while i < n
            invariant
                2 <= n <= MAX_SAMPLES,
                min < max,
                i <= n,
                points@.len() == i,
                forall|j: int|
                    0 <= j < i ==> points@[j] == grid_point(min as int, max as int, n as int, j),
            decreases n - i,
        {
            points.push(sample_point(min, max, n, i));
            i += 1;
        }
        proof {
            lemma_grid_point_bounds(min as int, max as int, n as int, 0, n - 1);
        }
        points.set(n - 1, max);
        assert(ints(points@) =~= grid(min as int, max as int, n as int));
        Ok(points)
    }
}

impl Default for UniformSampler {
    fn default() -> (s: Self)
        ensures
            s.count() == DEFAULT_SAMPLES,
    {
        UniformSampler { n: DEFAULT_SAMPLES }
    }
}

} // verus!
