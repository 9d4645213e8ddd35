//! The fixed-point number that stands for a real throughout the library.

use vstd::prelude::*;

verus! {

/// A real number counted in billionths: the integer `v` stands for `v / ONE`.
pub type Fixed = i64;

/// The fixed-point number one, which is also the full membership degree.
pub const ONE: Fixed = 1_000_000_000;

/// `v` brought into the unit interval `[0, ONE]`.
pub open spec fn clamp01(v: int) -> int {
    if v < 0 {
        0
    } else if v > ONE {
        ONE as int
    } else {
        v
    }
}

/// Whether `v` is a membership degree, a number of the unit interval.
pub open spec fn is_degree(v: int) -> bool {
    0 <= v <= ONE
}

/// The integers that a sequence of fixed-point numbers holds.
pub open spec fn ints(s: Seq<Fixed>) -> Seq<int> {
    Seq::new(s.len(), |i: int| s[i] as int)
}

/// Clamping is the identity on membership degrees.
pub proof fn lemma_clamp01_degree(v: int)
    ensures
        is_degree(clamp01(v)),
        is_degree(v) ==> clamp01(v) == v,
        clamp01(clamp01(v)) == clamp01(v),
{
}

/// `part * ONE / whole`, rounded down: the share of `whole` that `part` is,
/// as a fixed-point number.
pub open spec fn share(part: int, whole: int) -> int {
    (part * ONE) / whole
}

/// A share of a positive whole lies between zero and one exactly when the
/// part lies between zero and the whole, and it grows with the part.
pub proof fn lemma_share_bounds(part: int, whole: int)
    requires
        whole > 0,
    ensures
        part <= 0 ==> share(part, whole) <= 0,
        part >= 0 ==> share(part, whole) >= 0,
        part >= whole ==> share(part, whole) >= ONE,
        part <= whole ==> share(part, whole) <= ONE,
        share(whole, whole) == ONE,
        share(0, whole) == 0,
{
    let one: int = ONE as int;
    assert(share(whole, whole) == ONE) by (nonlinear_arith)
        requires
            whole > 0,
            one == 1_000_000_000,
            share(whole, whole) == (whole * one) / whole,
    {
    }
    assert(share(0, whole) == 0) by (nonlinear_arith)
        requires
            whole > 0,
            share(0, whole) == (0 * one) / whole,
    {
    }
    lemma_share_monotone(part, 0, whole);
    lemma_share_monotone(0, part, whole);
    lemma_share_monotone(part, whole, whole);
    lemma_share_monotone(whole, part, whole);
}

/// The share of a positive whole does not shrink when the part grows.
pub proof fn lemma_share_monotone(a: int, b: int, whole: int)
    requires
        whole > 0,
    ensures
        a <= b ==> share(a, whole) <= share(b, whole),
{
    if a <= b {
        let one: int = ONE as int;
        assert(a * one <= b * one) by (nonlinear_arith)
            requires
                a <= b,
                one == 1_000_000_000,
        {
        }
        vstd::arithmetic::div_mod::lemma_div_is_ordered(a * one, b * one, whole);
    }
}

} // verus!
