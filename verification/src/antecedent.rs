//! The condition of a rule: a tree of AND, OR and NOT over atomic facts.

use vstd::prelude::*;
use crate::error::FuzzyError;
use crate::fixed::{is_degree, Fixed};
use crate::ops::{
    and_degree, lemma_operators_closed, not_degree, or_degree, FuzzyOps, Ops,
};
use crate::table::Table;
use crate::variable::{lemma_membership_bounded, Variable};

verus! {

/// The crisp readings of one inference, by variable name.
pub type Inputs = Table<Fixed>;

/// The variables of a fuzzy system, by name.
pub type Variables = Table<Variable>;

/// A condition over fuzzified inputs.
#[derive(Debug, PartialEq, Eq)]
pub enum Antecedent {
    /// The atomic fact "variable `var` is `term`".
    Atom { var: String, term: String },
    /// Both conditions hold.
    And(Box<Antecedent>, Box<Antecedent>),
    /// At least one condition holds.
    Or(Box<Antecedent>, Box<Antecedent>),
    /// The condition does not hold.
    Not(Box<Antecedent>),
}

impl Clone for Antecedent {
    fn clone(&self) -> (copy: Self)
        ensures
            copy == *self,
        decreases self,
    {
        match self {
            Antecedent::Atom { var, term } => Antecedent::Atom {
                var: var.clone(),
                term: term.clone(),
            },
            Antecedent::And(a, b) => {
                let left: Antecedent = (**a).clone();
                let right: Antecedent = (**b).clone();
                Antecedent::And(Box::new(left), Box::new(right))
            },
            Antecedent::Or(a, b) => {
                let left: Antecedent = (**a).clone();
                let right: Antecedent = (**b).clone();
                Antecedent::Or(Box::new(left), Box::new(right))
            },
            Antecedent::Not(a) => {
                let inner: Antecedent = (**a).clone();
                Antecedent::Not(Box::new(inner))
            },
        }
    }
}

/// The truth value of the atom "`var` is `term`": the variable must be
/// registered, then the inputs must cover it, then the variable evaluates
/// the term at the reading.
pub open spec fn atom_value(
    var: Seq<char>,
    term: Seq<char>,
    input: Map<Seq<char>, Fixed>,
    vars: Map<Seq<char>, Variable>,
) -> Result<int, FuzzyError> {
    if !vars.contains_key(var) {
        Err(FuzzyError::UnknownVariable)
    } else if !input.contains_key(var) {
        Err(FuzzyError::MissingInput)
    } else {
        vars[var].membership(term, input[var] as int)
    }
}

/// The truth value of `ant` under the family `ops`, or the first error met
/// when the tree is walked from left to right.
pub open spec fn antecedent_value(
    ant: Antecedent,
    input: Map<Seq<char>, Fixed>,
    vars: Map<Seq<char>, Variable>,
    ops: Ops,
) -> Result<int, FuzzyError>
    decreases ant,
{
    match ant {
        Antecedent::Atom { var, term } => atom_value(var@, term@, input, vars),
        Antecedent::And(a, b) => match antecedent_value(*a, input, vars, ops) {
            Err(e) => Err(e),
            Ok(x) => match antecedent_value(*b, input, vars, ops) {
                Err(e) => Err(e),
                Ok(y) => Ok(and_degree(ops, x, y)),
            },
        },
        Antecedent::Or(a, b) => match antecedent_value(*a, input, vars, ops) {
            Err(e) => Err(e),
            Ok(x) => match antecedent_value(*b, input, vars, ops) {
                Err(e) => Err(e),
                Ok(y) => Ok(or_degree(ops, x, y)),
            },
        },
        Antecedent::Not(a) => match antecedent_value(*a, input, vars, ops) {
            Err(e) => Err(e),
            Ok(x) => Ok(not_degree(x)),
        },
    }
}

/// Whether every atom of `ant` can be evaluated: its variable is registered,
/// the inputs cover it, the variable has the term, and the reading lies in
/// the variable's domain.
pub open spec fn resolves(
    ant: Antecedent,
    input: Map<Seq<char>, Fixed>,
    vars: Map<Seq<char>, Variable>,
) -> bool
    decreases ant,
{
    match ant {
        Antecedent::Atom { var, term } => atom_value(var@, term@, input, vars) is Ok,
        Antecedent::And(a, b) => resolves(*a, input, vars) && resolves(*b, input, vars),
        Antecedent::Or(a, b) => resolves(*a, input, vars) && resolves(*b, input, vars),
        Antecedent::Not(a) => resolves(*a, input, vars),
    }
}

/// Evaluation succeeds exactly when every atom can be evaluated, whatever
/// the operator family.
pub proof fn lemma_antecedent_total(
    ant: Antecedent,
    input: Map<Seq<char>, Fixed>,
    vars: Map<Seq<char>, Variable>,
    ops: Ops,
)
    ensures
        antecedent_value(ant, input, vars, ops) is Ok <==> resolves(ant, input, vars),
    decreases ant,
{
    match ant {
        Antecedent::Atom { var, term } => {},
        Antecedent::And(a, b) => {
            lemma_antecedent_total(*a, input, vars, ops);
            lemma_antecedent_total(*b, input, vars, ops);
        },
        Antecedent::Or(a, b) => {
            lemma_antecedent_total(*a, input, vars, ops);
            lemma_antecedent_total(*b, input, vars, ops);
        },
        Antecedent::Not(a) => {
            lemma_antecedent_total(*a, input, vars, ops);
        },
    }
}

/// The truth value of an antecedent is a number of the unit interval.
pub proof fn lemma_antecedent_bounded(
    ant: Antecedent,
    input: Map<Seq<char>, Fixed>,
    vars: Map<Seq<char>, Variable>,
    ops: Ops,
)
    ensures
        antecedent_value(ant, input, vars, ops) matches Ok(v) ==> is_degree(v),
    decreases ant,
{
    match ant {
        Antecedent::Atom { var, term } => {
            if vars.contains_key(var@) && input.contains_key(var@) {
                lemma_membership_bounded(vars[var@], term@, input[var@] as int);
            }
        },
        Antecedent::And(a, b) => {
            lemma_antecedent_bounded(*a, input, vars, ops);
            lemma_antecedent_bounded(*b, input, vars, ops);
            if let Ok(x) = antecedent_value(*a, input, vars, ops) {
                if let Ok(y) = antecedent_value(*b, input, vars, ops) {
                    lemma_operators_closed(ops, x, y);
                }
            }
        },
        Antecedent::Or(a, b) => {
            lemma_antecedent_bounded(*a, input, vars, ops);
            lemma_antecedent_bounded(*b, input, vars, ops);
            if let Ok(x) = antecedent_value(*a, input, vars, ops) {
                if let Ok(y) = antecedent_value(*b, input, vars, ops) {
                    lemma_operators_closed(ops, x, y);
                }
            }
        },
        Antecedent::Not(a) => {
            lemma_antecedent_bounded(*a, input, vars, ops);
        },
    }
}

/// An antecedent that is a single atom evaluates to what the variable itself
/// gives for that term at that reading.
pub proof fn lemma_atom_is_variable_eval(
    var: String,
    term: String,
    input: Map<Seq<char>, Fixed>,
    vars: Map<Seq<char>, Variable>,
    ops: Ops,
)
    requires
        vars.contains_key(var@),
        input.contains_key(var@),
    ensures
        antecedent_value(Antecedent::Atom { var, term }, input, vars, ops) == vars[var@].membership(
            term@,
            input[var@] as int,
        ),
{
}

/// Negating twice changes nothing: the value, or the error, is that of the
/// condition itself.
pub proof fn lemma_double_negation(
    ant: Antecedent,
    input: Map<Seq<char>, Fixed>,
    vars: Map<Seq<char>, Variable>,
    ops: Ops,
)
    ensures
        antecedent_value(
            Antecedent::Not(Box::new(Antecedent::Not(Box::new(ant)))),
            input,
            vars,
            ops,
        ) == antecedent_value(ant, input, vars, ops),
{
    let inner = Antecedent::Not(Box::new(ant));
    assert(antecedent_value(inner, input, vars, ops) == match antecedent_value(
        ant,
        input,
        vars,
        ops,
    ) {
        Err(e) => Err(e),
        Ok(x) => Ok(not_degree(x)),
    });
}

/// Evaluates `ant` under the family `ops`.
pub fn eval_antecedent_with(
    ant: &Antecedent,
    input: &Inputs,
    vars: &Variables,
    ops: Ops,
) -> (res: Result<Fixed, FuzzyError>)
    ensures
        res matches Ok(mu) ==> antecedent_value(*ant, input@, vars@, ops) == Ok::<int, FuzzyError>(
            mu as int,
        ) && is_degree(mu as int),
        res matches Err(e) ==> antecedent_value(*ant, input@, vars@, ops) == Err::<
            int,
            FuzzyError,
        >(e),
        res is Ok <==> resolves(*ant, input@, vars@),
    decreases ant,
{
    proof {
        lemma_antecedent_total(*ant, input@, vars@, ops);
    }
    match ant {
        Antecedent::Atom { var, term } => {
            let v = match vars.get(var.as_str()) {
                Some(v) => v,
                None => {
                    return Err(FuzzyError::UnknownVariable);
                },
            };
            let x: Fixed = match input.get(var.as_str()) {
                Some(x) => *x,
                None => {
                    return Err(FuzzyError::MissingInput);
                },
            };
            v.eval(term.as_str(), x)
        },
        Antecedent::And(a, b) => {
            let x: Fixed = match eval_antecedent_with(a, input, vars, ops) {
                Ok(x) => x,
                Err(e) => {
                    return Err(e);
                },
            };
            let y: Fixed = match eval_antecedent_with(b, input, vars, ops) {
                Ok(y) => y,
                Err(e) => {
                    return Err(e);
                },
            };
            Ok(ops.t(x, y))
        },
        Antecedent::Or(a, b) => {
            let x: Fixed = match eval_antecedent_with(a, input, vars, ops) {
                Ok(x) => x,
                Err(e) => {
                    return Err(e);
                },
            };
            let y: Fixed = match eval_antecedent_with(b, input, vars, ops) {
                Ok(y) => y,
                Err(e) => {
                    return Err(e);
                },
            };
            Ok(ops.s(x, y))
        },
        Antecedent::Not(a) => {
            let x: Fixed = match eval_antecedent_with(a, input, vars, ops) {
                Ok(x) => x,
                Err(e) => {
                    return Err(e);
                },
            };
            Ok(ops.c(x))
        },
    }
}

/// Evaluates `ant` under the default family, Min-Max: AND is the minimum,
/// OR the maximum, NOT the complement to one.
pub fn eval_antecedent(ant: &Antecedent, input: &Inputs, vars: &Variables) -> (res: Result<
    Fixed,
    FuzzyError,
>)
    ensures
        res matches Ok(mu) ==> antecedent_value(*ant, input@, vars@, Ops::MinMax) == Ok::<
            int,
            FuzzyError,
        >(mu as int) && is_degree(mu as int),
        res matches Err(e) ==> antecedent_value(*ant, input@, vars@, Ops::MinMax) == Err::<
            int,
            FuzzyError,
        >(e),
        res is Ok <==> resolves(*ant, input@, vars@),
{
    eval_antecedent_with(ant, input, vars, Ops::MinMax)
}

} // verus!
