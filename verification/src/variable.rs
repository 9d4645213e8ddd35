//! A crisp variable: an inclusive domain and a set of named terms.

use vstd::prelude::*;
use crate::error::FuzzyError;
use crate::fixed::{is_degree, Fixed};
use crate::membership::MembershipFn;
use crate::table::Table;
use crate::term::{lemma_term_degree_bounded, Term};

verus! {

/// A variable over the domain `[min, max]`, with `min < max`, and the terms
/// registered on it, each under a name of its own.
pub struct Variable {
    min: Fixed,
    max: Fixed,
    terms: Table<Term>,
}

impl Variable {
    #[verifier::type_invariant]
    spec fn proper(self) -> bool {
        self.min < self.max
    }

    /// The lower bound of the domain.
    pub closed spec fn min(&self) -> int {
        self.min as int
    }

    /// The upper bound of the domain.
    pub closed spec fn max(&self) -> int {
        self.max as int
    }

    /// The terms, by the name each was registered under.
    pub closed spec fn terms(&self) -> Map<Seq<char>, Term> {
        self.terms@
    }

    /// What evaluating the term `name` at `x` gives: an unknown term is told
    /// first, then a value outside the inclusive domain, else the term's
    /// degree.
    pub open spec fn membership(&self, name: Seq<char>, x: int) -> Result<int, FuzzyError> {
        if !self.terms().contains_key(name) {
            Err(FuzzyError::UnknownTerm)
        } else if x < self.min() || x > self.max() {
            Err(FuzzyError::OutOfBounds)
        } else {
            Ok(self.terms()[name].degree(x))
        }
    }

    /// A variable over `[min, max]` without terms; the bounds must be in
    /// strictly rising order.
    pub fn new(min: Fixed, max: Fixed) -> (res: Result<Self, FuzzyError>)
        ensures
            res is Ok <==> min < max,
            res matches Ok(v) ==> v.min() == min && v.max() == max && v.terms() == Map::<
                Seq<char>,
                Term,
            >::empty(),
            res matches Err(e) ==> e == FuzzyError::InvalidDomain,
    {
        if min >= max {
            Err(FuzzyError::InvalidDomain)
        } else {
            Ok(Variable { min, max, terms: Table::new() })
        }
    }

    /// The domain `(min, max)`.
    pub fn domain(&self) -> (bounds: (Fixed, Fixed))
        ensures
            bounds.0 == self.min(),
            bounds.1 == self.max(),
            bounds.0 < bounds.1,
    {
        proof {
            use_type_invariant(self);
        }
        (self.min, self.max)
    }

    /// Registers `t` under `name`. An empty name and a name already taken
    /// are refused, and the variable is then left as it was.
    pub fn insert_term(&mut self, name: &str, t: Term) -> (res: Result<(), FuzzyError>)
        ensures
            final(self).min() == old(self).min(),
            final(self).max() == old(self).max(),
            name@.len() == 0 ==> res == Err::<(), FuzzyError>(FuzzyError::EmptyInput),
            name@.len() != 0 && old(self).terms().contains_key(name@) ==> res == Err::<
                (),
                FuzzyError,
            >(FuzzyError::DuplicateTerm),
            name@.len() != 0 && !old(self).terms().contains_key(name@) ==> res is Ok,
            res is Ok ==> final(self).terms() == old(self).terms().insert(name@, t),
            res is Err ==> final(self).terms() == old(self).terms(),
    {
        proof {
            use_type_invariant(&*self);
        }
        if name.is_empty() {
            Err(FuzzyError::EmptyInput)
        } else if self.get(name).is_some() {
            Err(FuzzyError::DuplicateTerm)
        } else {
            let mut terms: Table<Term> = Table::new();
            std::mem::swap(&mut terms, &mut self.terms);
            let _ = terms.insert(name, t);
            self.terms = terms;
            Ok(())
        }
    }

    /// The term registered under `name`, if there is one.
    pub fn get(&self, name: &str) -> (found: Option<&Term>)
        ensures
            found is Some <==> self.terms().contains_key(name@),
            found matches Some(t) ==> *t == self.terms()[name@],
    {
        self.terms.get(name)
    }

    /// The membership degree of `x` in the term `name`.
    pub fn eval(&self, name: &str, x: Fixed) -> (res: Result<Fixed, FuzzyError>)
        ensures
            res matches Ok(mu) ==> self.membership(name@, x as int) == Ok::<int, FuzzyError>(
                mu as int,
            ) && is_degree(mu as int),
            res matches Err(e) ==> self.membership(name@, x as int) == Err::<int, FuzzyError>(e),
    {
        match self.terms.get(name) {
            None => Err(FuzzyError::UnknownTerm),
            Some(t) => {
                if self.max < x || self.min > x {
                    Err(FuzzyError::OutOfBounds)
                } else {
                    Ok(t.eval(x))
                }
            },
        }
    }
}

/// Whatever a variable's evaluation yields is a number of the unit interval.
pub proof fn lemma_membership_bounded(v: Variable, name: Seq<char>, x: int)
    ensures
        v.membership(name, x) matches Ok(mu) ==> is_degree(mu),
{
    if v.terms().contains_key(name) {
        lemma_term_degree_bounded(v.terms()[name], x);
    }
}

} // verus!
