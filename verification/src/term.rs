//! A named membership function.

use vstd::prelude::*;
use crate::fixed::{clamp01, is_degree, Fixed};
use crate::membership::{MembershipFn, MembershipShape};

verus! {

/// A label together with the membership function it owns.
///
/// The label is advisory: a variable finds its terms by the name they were
/// registered under, which need not be the label.
#[derive(Clone, Debug, PartialEq, Eq)]
pub struct Term {
    name: String,
    mf: MembershipShape,
}

impl Term {
    /// The label.
    pub closed spec fn label(&self) -> Seq<char> {
        self.name@
    }

    /// The shape that the term owns.
    pub closed spec fn shape(&self) -> MembershipShape {
        self.mf
    }

    /// Wraps the shape `m` under the label `name`.
    pub fn new(name: &str, m: MembershipShape) -> (t: Self)
        ensures
            t.label() == name@,
            t.shape() == m,
    {
        Term { name: name.to_owned(), mf: m }
    }

    /// The label.
    pub fn name(&self) -> (name: &str)
        ensures
            name@ == self.label(),
    {
        self.name.as_str()
    }
}

impl MembershipFn for Term {
    /// The degree that the term's shape gives, kept within `[0, ONE]`.
    open spec fn degree(&self, x: int) -> int {
        clamp01(self.shape().degree(x))
    }

    fn eval(&self, x: Fixed) -> (mu: Fixed) {
        self.mf.eval(x)
    }
}

/// The degree of a term is a number of the unit interval.
pub proof fn lemma_term_degree_bounded(t: Term, x: int)
    ensures
        is_degree(t.degree(x)),
{
}

} // verus!
