//! Operator families: the AND, OR and NOT of fuzzy logic.

use vstd::prelude::*;
use crate::fixed::{is_degree, Fixed, ONE};

verus! {

/// A family of operators over membership degrees: a T-norm for AND, an
/// S-norm for OR and a complement for NOT.
pub trait FuzzyOps {
    /// The T-norm, as a mathematical function.
    spec fn t_norm(&self, a: int, b: int) -> int;

    /// The S-norm, as a mathematical function.
    spec fn s_norm(&self, a: int, b: int) -> int;

    /// The complement, as a mathematical function.
    spec fn complement(&self, a: int) -> int;

    /// Combines two degrees by AND.
    fn t(&self, a: Fixed, b: Fixed) -> (r: Fixed)
        requires
            is_degree(a as int),
            is_degree(b as int),
        ensures
            r == self.t_norm(a as int, b as int),
            is_degree(r as int),
    ;

    /// Combines two degrees by OR.
    fn s(&self, a: Fixed, b: Fixed) -> (r: Fixed)
        requires
            is_degree(a as int),
            is_degree(b as int),
        ensures
            r == self.s_norm(a as int, b as int),
            is_degree(r as int),
    ;

    /// Negates a degree.
    fn c(&self, a: Fixed) -> (r: Fixed)
        requires
            is_degree(a as int),
        ensures
            r == self.complement(a as int),
            is_degree(r as int),
    ;
}

/// The built-in operator families.
#[derive(Clone, Copy, Debug, PartialEq, Eq, Structural)]
pub enum Ops {
    /// AND is the minimum, OR the maximum.
    MinMax,
    /// AND is the product `a * b`, OR the probabilistic sum `a + b - a * b`.
    Product,
    /// AND is `max(0, a + b - 1)`, OR is `min(1, a + b)`.
    Lukasiewicz,
}

/// The product of two fixed-point numbers, rounded down.
pub open spec fn product(a: int, b: int) -> int {
    (a * b) / (ONE as int)
}

/// The AND of `a` and `b` under the family `ops`.
pub open spec fn and_degree(ops: Ops, a: int, b: int) -> int {
    match ops {
        Ops::MinMax => if a <= b { a } else { b },
        Ops::Product => product(a, b),
        Ops::Lukasiewicz => if a + b - ONE >= 0 { a + b - ONE } else { 0 },
    }
}

/// The OR of `a` and `b` under the family `ops`.
pub open spec fn or_degree(ops: Ops, a: int, b: int) -> int {
    match ops {
        Ops::MinMax => if a >= b { a } else { b },
        Ops::Product => a + b - product(a, b),
        Ops::Lukasiewicz => if a + b <= ONE { a + b } else { ONE as int },
    }
}

/// The NOT of `a`, the same in every family: `1 - a`.
pub open spec fn not_degree(a: int) -> int {
    ONE - a
}

/// The product of two degrees is a degree, no larger than either factor, and
/// one is its neutral element.
pub proof fn lemma_product(a: int, b: int)
    requires
        is_degree(a),
        is_degree(b),
    ensures
        0 <= product(a, b) <= a,
        product(a, b) <= b,
        product(a, b) == product(b, a),
        product(0, b) == 0,
        product(ONE as int, b) == b,
        a + b - product(a, b) <= ONE,
{
    let one: int = ONE as int;
    let p: int = (a * b) / one;
    assert(0 <= p <= a && p <= b && a + b - p <= one) by (nonlinear_arith)
        requires
            0 <= a <= one,
            0 <= b <= one,
            one == 1_000_000_000,
            p == (a * b) / one,
    {
        assert(a * b <= a * one);
        assert(a * b <= b * one);
        assert((one - a) * (one - b) >= 0);
        assert(a * b >= (a + b - one) * one);
    }
    assert(a * b == b * a) by (nonlinear_arith);
    assert((0 * b) / one == 0) by (nonlinear_arith)
        requires
            one == 1_000_000_000,
    {
    }
    assert((one * b) / one == b) by (nonlinear_arith)
        requires
            one == 1_000_000_000,
    {
    }
}

/// Every family maps degrees to degrees.
pub proof fn lemma_operators_closed(ops: Ops, a: int, b: int)
    requires
        is_degree(a),
        is_degree(b),
    ensures
        is_degree(and_degree(ops, a, b)),
        is_degree(or_degree(ops, a, b)),
        is_degree(not_degree(a)),
{
    lemma_product(a, b);
}

/// The boundary behaviour of every family: zero annihilates AND and is
/// neutral for OR, one is neutral for AND and annihilates OR, and negating
/// twice gives the degree back.
pub proof fn lemma_operator_boundaries(ops: Ops, a: int)
    requires
        is_degree(a),
    ensures
        and_degree(ops, 0, a) == 0,
        and_degree(ops, ONE as int, a) == a,
        or_degree(ops, 0, a) == a,
        or_degree(ops, ONE as int, a) == ONE,
        not_degree(not_degree(a)) == a,
{
    lemma_product(0, a);
    lemma_product(ONE as int, a);
}

/// AND and OR do not depend on the order of their arguments.
pub proof fn lemma_operators_commute(ops: Ops, a: int, b: int)
    ensures
        and_degree(ops, a, b) == and_degree(ops, b, a),
        or_degree(ops, a, b) == or_degree(ops, b, a),
{
    assert(a * b == b * a) by (nonlinear_arith);
}

impl Default for Ops {
    /// The family used where none is selected: Min-Max.
    fn default() -> (ops: Ops)
        ensures
            ops == Ops::MinMax,
    {
        Ops::MinMax
    }
}

impl FuzzyOps for Ops {
    open spec fn t_norm(&self, a: int, b: int) -> int {
        and_degree(*self, a, b)
    }

    open spec fn s_norm(&self, a: int, b: int) -> int {
        or_degree(*self, a, b)
    }

    open spec fn complement(&self, a: int) -> int {
        not_degree(a)
    }

    fn t(&self, a: Fixed, b: Fixed) -> (r: Fixed) {
        proof {
            lemma_product(a as int, b as int);
        }
        match self {
            Ops::MinMax => if a <= b { a } else { b },
            Ops::Product => {
                assert(a * b <= 1_000_000_000 * 1_000_000_000) by (nonlinear_arith)
                    requires
                        0 <= a <= 1_000_000_000,
                        0 <= b <= 1_000_000_000,
                {
                }
                assert(a * b >= 0) by (nonlinear_arith)
                    requires
                        0 <= a,
                        0 <= b,
                {
                }
                a * b / ONE
            },
            Ops::Lukasiewicz => if a + b - ONE >= 0 { a + b - ONE } else { 0 },
        }
    }

    fn s(&self, a: Fixed, b: Fixed) -> (r: Fixed) {
        proof {
            lemma_product(a as int, b as int);
        }
        match self {
            Ops::MinMax => if a >= b { a } else { b },
            Ops::Product => {
                assert(a * b <= 1_000_000_000 * 1_000_000_000) by (nonlinear_arith)
                    requires
                        0 <= a <= 1_000_000_000,
                        0 <= b <= 1_000_000_000,
                {
                }
                assert(a * b >= 0) by (nonlinear_arith)
                    requires
                        0 <= a,
                        0 <= b,
                {
                }
                a + b - a * b / ONE
            },
            Ops::Lukasiewicz => if a + b <= ONE { a + b } else { ONE },
        }
    }

    fn c(&self, a: Fixed) -> (r: Fixed) {
        ONE - a
    }
}

} // verus!
