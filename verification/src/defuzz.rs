//! Defuzzification: the centroid of each aggregated membership function.

use vstd::prelude::*;
use crate::antecedent::Variables;
use crate::error::FuzzyError;
use crate::fixed::{ints, is_degree, Fixed, ONE};
use crate::mamdani::{is_sampled, is_sampled_map, samples_view, SampleMap};
use crate::sampler::{grid_point, lemma_grid_point_bounds, sample_point};
use crate::table::Table;
use crate::variable::Variable;

verus! {

/// The crisp outputs, by variable name; `None` where no rule was active.
pub type CrispMap = Table<Option<Fixed>>;

/// The crisp outputs as mathematical integers.
pub open spec fn crisp_view(m: Map<Seq<char>, Option<Fixed>>) -> Map<Seq<char>, Option<int>> {
    Map::new(
        |name: Seq<char>| m.contains_key(name),
        |name: Seq<char>|
            match m[name] {
                Some(x) => Some(x as int),
                None => None,
            },
    )
}

/// The sum of the first `upto` degrees.
pub open spec fn mass(mu: Seq<int>, upto: int) -> int
    decreases upto,
{
    if upto <= 0 {
        0
    } else {
        mass(mu, upto - 1) + mu[upto - 1]
    }
}

/// The sum of `x_i * mu_i` over the first `upto` samples, where `x_i` is
/// point `i` of the grid that has as many points on `[min, max]` as `mu` has
/// samples.
pub open spec fn moment(min: int, max: int, mu: Seq<int>, upto: int) -> int
    decreases upto,
{
    if upto <= 0 {
        0
    } else {
        moment(min, max, mu, upto - 1) + grid_point(min, max, mu.len() as int, upto - 1) * mu[upto
            - 1]
    }
}

/// The centroid of the sampled membership function `mu` over `[min, max]`:
/// the sum of `x_i * mu_i` divided by the sum of `mu_i`, rounded down, and
/// nothing where the sum of the degrees is zero.
pub open spec fn centroid_of(min: int, max: int, mu: Seq<int>) -> Option<int> {
    let den = mass(mu, mu.len() as int);
    if den == 0 {
        None
    } else {
        Some(moment(min, max, mu, mu.len() as int) / den)
    }
}

/// The sum of `(x_i - min) * mu_i` over the first `upto` samples.
pub open spec fn offset_moment(min: int, max: int, mu: Seq<int>, upto: int) -> int
    decreases upto,
{
    if upto <= 0 {
        0
    } else {
        offset_moment(min, max, mu, upto - 1) + (grid_point(min, max, mu.len() as int, upto - 1)
            - min) * mu[upto - 1]
    }
}

/// The moment is the offset moment plus `min` times the mass, and the offset
/// moment is at most the width of the interval times the mass.
pub proof fn lemma_moment_split(min: int, max: int, mu: Seq<int>, upto: int)
    requires
        min <= max,
        is_sampled(mu),
        0 <= upto <= mu.len(),
    ensures
        moment(min, max, mu, upto) == offset_moment(min, max, mu, upto) + min * mass(mu, upto),
        0 <= offset_moment(min, max, mu, upto) <= (max - min) * mass(mu, upto),
        0 <= mass(mu, upto) <= upto * ONE,
    decreases upto,
{
    if upto > 0 {
        lemma_moment_split(min, max, mu, upto - 1);
        let n: int = mu.len() as int;
        let x: int = grid_point(min, max, n, upto - 1);
        let m: int = mu[upto - 1];
        let w: int = max - min;
        let prev: int = mass(mu, upto - 1);
        lemma_grid_point_bounds(min, max, n, upto - 1, upto - 1);
        assert(is_degree(m));
        assert(x * m == (x - min) * m + min * m) by (nonlinear_arith);
        assert(min * (prev + m) == min * prev + min * m) by (nonlinear_arith);
        assert(0 <= (x - min) * m <= w * m) by (nonlinear_arith)
            requires
                0 <= x - min <= w,
                0 <= m,
        {
        }
        assert(w * (prev + m) == w * prev + w * m) by (nonlinear_arith);
    } else {
        assert((max - min) * 0 == 0) by (nonlinear_arith);
        assert(min * 0 == 0) by (nonlinear_arith);
    }
}

/// A centroid lies in the interval that was sampled.
pub proof fn lemma_centroid_in_domain(min: int, max: int, mu: Seq<int>)
    requires
        min <= max,
        is_sampled(mu),
    ensures
        centroid_of(min, max, mu) matches Some(x) ==> min <= x <= max,
        centroid_of(min, max, mu) is None <==> forall|i: int|
            0 <= i < mu.len() ==> #[trigger] mu[i] == 0,
{
    let n: int = mu.len() as int;
    lemma_moment_split(min, max, mu, n);
    lemma_mass_zero(mu, n);
    let den: int = mass(mu, n);
    if den != 0 {
        let a: int = offset_moment(min, max, mu, n);
        vstd::arithmetic::div_mod::lemma_hoist_over_denominator(a, min, den as nat);
        assert(a + min * den == moment(min, max, mu, n)) by (nonlinear_arith)
            requires
                moment(min, max, mu, n) == a + min * den,
        {
        }
        assert(0 <= a / den <= max - min) by (nonlinear_arith)
            requires
                0 <= a <= (max - min) * den,
                den > 0,
        {
        }
    }
}

/// The mass of a sequence of degrees is zero exactly when every degree is.
pub proof fn lemma_mass_zero(mu: Seq<int>, upto: int)
    requires
        0 <= upto <= mu.len(),
        forall|i: int| 0 <= i < mu.len() ==> is_degree(#[trigger] mu[i]),
    ensures
        mass(mu, upto) >= 0,
        mass(mu, upto) == 0 <==> forall|i: int| 0 <= i < upto ==> #[trigger] mu[i] == 0,
    decreases upto,
{
    if upto > 0 {
        lemma_mass_zero(mu, upto - 1);
        assert(is_degree(mu[upto - 1]));
        if mass(mu, upto) == 0 {
            assert forall|i: int| 0 <= i < upto implies #[trigger] mu[i] == 0 by {
                if i < upto - 1 {
                }
            }
        }
    }
}

/// Computes the centroid of the samples `mu` over `[min, max]`.
pub fn centroid(min: Fixed, max: Fixed, mu: &Vec<Fixed>) -> (res: Option<Fixed>)
    requires
        min <= max,
        is_sampled(ints(mu@)),
    ensures
        res matches Some(x) ==> centroid_of(min as int, max as int, ints(mu@)) == Some(x as int),
        res is None ==> centroid_of(min as int, max as int, ints(mu@)) is None,
        res matches Some(x) ==> min <= x <= max,
{
    let n: usize = mu.len();
    let ghost s = ints(mu@);
    let width: u128 = (max as i128 - min as i128) as u128;
    let mut num: u128 = 0;
    let mut den: u128 = 0;
    let mut i: usize = 0;
    while i < n
        invariant
            i <= n,
            n == mu@.len(),
            s == ints(mu@),
            min <= max,
            is_sampled(s),
            width == max - min,
            num == offset_moment(min as int, max as int, s, i as int),
            den == mass(s, i as int),
        decreases n - i,
    {
        proof {
            lemma_moment_split(min as int, max as int, s, i as int);
            lemma_moment_split(min as int, max as int, s, i as int + 1);
            assert(is_degree(s[i as int]));
            assert((max - min) * mass(s, i as int + 1) <= 0xffff_ffff_ffff_ffff * (0xffff_ffff
                * 1_000_000_000)) by (nonlinear_arith)
                requires
                    0 <= max - min <= 0xffff_ffff_ffff_ffff,
                    0 <= mass(s, i as int + 1) <= (i as int + 1) * 1_000_000_000,
                    i as int + 1 <= 0xffff_ffff,
            {
            }
        }
        let x: Fixed = sample_point(min, max, n, i);
        let offset: u128 = (x as i128 - min as i128) as u128;
        let m: u128 = mu[i] as u128;
        assert(0 <= offset * m <= width * m) by (nonlinear_arith)
            requires
                0 <= offset <= width,
                0 <= m,
        {
        }
        assert(width * m <= 0xffff_ffff_ffff_ffff * 1_000_000_000) by (nonlinear_arith)
            requires
                0 <= width <= 0xffff_ffff_ffff_ffff,
                0 <= m <= 1_000_000_000,
        {
        }
        num = num + offset * m;
        den = den + m;
        i += 1;
    }
    if den == 0 {
        return None;
    }
    proof {
        lemma_moment_split(min as int, max as int, s, n as int);
        let a: int = num as int;
        let d: int = den as int;
        vstd::arithmetic::div_mod::lemma_hoist_over_denominator(a, min as int, d as nat);
        assert(a + min * d == moment(min as int, max as int, s, n as int)) by (nonlinear_arith)
            requires
                moment(min as int, max as int, s, n as int) == a + min * d,
        {
        }
        assert(0 <= a / d <= max - min) by (nonlinear_arith)
            requires
                0 <= a <= (max - min) * d,
                d > 0,
        {
        }
    }
    let shift: u128 = num / den;
    Some((min as i128 + shift as i128) as Fixed)
}

/// What defuzzification gives: an error where an aggregated variable is not
/// registered, or else the centroid of every aggregated variable over its
/// domain.
pub open spec fn defuzzified(agg: Map<Seq<char>, Seq<int>>, vars: Map<Seq<char>, Variable>) -> Result<
    Map<Seq<char>, Option<int>>,
    FuzzyError,
> {
    if exists|name: Seq<char>| agg.contains_key(name) && !vars.contains_key(name) {
        Err(FuzzyError::UnknownVariable)
    } else {
        Ok(
            Map::new(
                |name: Seq<char>| agg.contains_key(name),
                |name: Seq<char>| centroid_of(vars[name].min(), vars[name].max(), agg[name]),
            ),
        )
    }
}

/// Collapses every aggregated membership function to its centroid.
pub fn defuzzification(agg: &SampleMap, vars: &Variables) -> (res: Result<CrispMap, FuzzyError>)
    requires
        is_sampled_map(samples_view(agg@)),
    ensures
        res matches Ok(m) ==> defuzzified(samples_view(agg@), vars@) == Ok::<
            Map<Seq<char>, Option<int>>,
            FuzzyError,
        >(crisp_view(m@)),
        res matches Err(e) ==> defuzzified(samples_view(agg@), vars@) == Err::<
            Map<Seq<char>, Option<int>>,
            FuzzyError,
        >(e),
{
    let mut result: CrispMap = Table::new();
    let n: usize = agg.len();
    let ghost view = samples_view(agg@);
    let mut i: usize = 0;
    while i < n
        invariant
            i <= n,
            n == agg.names().len(),
            view == samples_view(agg@),
            agg.names().no_duplicates(),
            forall|name: Seq<char>| agg@.contains_key(name) <==> agg.names().contains(name),
            is_sampled_map(samples_view(agg@)),
            forall|j: int| 0 <= j < i ==> vars@.contains_key(#[trigger] agg.names()[j]),
            forall|name: Seq<char>|
                result@.contains_key(name) <==> agg.names().take(i as int).contains(name),
            forall|name: Seq<char>| #[trigger]
                result@.contains_key(name) ==> crisp_view(result@)[name] == centroid_of(
                    vars@[name].min(),
                    vars@[name].max(),
                    view[name],
                ),
        decreases n - i,
    {
        let name = agg.name_at(i);
        let samples = agg.value_at(i);
        let v = match vars.get(name) {
            Some(v) => v,
            None => {
                return Err(FuzzyError::UnknownVariable);
            },
        };
        let (var_min, var_max) = v.domain();
        assert(view.contains_key(name@));
        assert(view[name@] == ints(samples@));
        let crisp = centroid(var_min, var_max, samples);
        let ghost before = result@;
        let _ = result.insert(name, crisp);
        proof {
            let upto = agg.names().take(i as int + 1);
            assert(upto.drop_last() =~= agg.names().take(i as int));
            assert(upto.last() == name@);
            assert forall|k: Seq<char>| result@.contains_key(k) <==> upto.contains(k) by {
                if upto.contains(k) {
                    let j = upto.index_of(k);
                    assert(0 <= j < upto.len() && upto[j] == k);
                    if j < i {
                        assert(agg.names().take(i as int)[j] == k);
                    }
                }
                if agg.names().take(i as int).contains(k) {
                    let j = agg.names().take(i as int).index_of(k);
                    assert(0 <= j < i && agg.names().take(i as int)[j] == k);
                    assert(upto[j] == k);
                }
                assert(upto[i as int] == name@);
            }
        }
        i += 1;
    }
    proof {
        assert(agg.names().take(i as int) =~= agg.names());
        assert forall|name: Seq<char>| view.contains_key(name) implies vars@.contains_key(name) by {
            assert(agg@.contains_key(name));
            assert(agg.names().contains(name));
            let j = agg.names().index_of(name);
            assert(0 <= j < n && agg.names()[j] == name);
        }
        let wanted = defuzzified(view, vars@)->Ok_0;
        assert(crisp_view(result@) =~= wanted);
    }
    Ok(result)
}

} // verus!
