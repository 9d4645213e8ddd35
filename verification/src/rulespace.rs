//! The rule space: variables and rules, and inference over them.

use vstd::prelude::*;
use crate::aggregate::{aggregated, aggregation_with, lemma_aggregation_order_invariant};
use crate::antecedent::{Inputs, Variables};
use crate::defuzz::{crisp_view, defuzzification, defuzzified, CrispMap};
use crate::error::FuzzyError;
use crate::fixed::Fixed;
use crate::mamdani::{samples_view, Rule, SampleMap};
use crate::ops::Ops;
use crate::sampler::UniformSampler;
use crate::table::Table;
use crate::variable::Variable;

verus! {

/// What one inference gives: the rules are aggregated under `ops` on grids
/// of `n` points, and the aggregate is defuzzified. An error of either step
/// is the error of the inference.
pub open spec fn inferred(
    rules: Seq<Rule>,
    input: Map<Seq<char>, Fixed>,
    vars: Map<Seq<char>, Variable>,
    n: int,
    ops: Ops,
) -> Result<Map<Seq<char>, Option<int>>, FuzzyError> {
    match aggregated(rules, input, vars, n, ops) {
        Err(e) => Err(e),
        Ok(agg) => defuzzified(agg, vars),
    }
}

/// The crisp outputs do not depend on the order of the rules: where the rule
/// list aggregates successfully, every permutation of it infers the same.
pub proof fn lemma_inference_order_invariant(
    rules: Seq<Rule>,
    permuted: Seq<Rule>,
    input: Map<Seq<char>, Fixed>,
    vars: Map<Seq<char>, Variable>,
    n: int,
    ops: Ops,
)
    requires
        n >= 0,
        rules.to_multiset() == permuted.to_multiset(),
    ensures
        inferred(permuted, input, vars, n, ops) is Ok <==> inferred(rules, input, vars, n, ops) is Ok,
        aggregated(rules, input, vars, n, ops) is Ok ==> inferred(permuted, input, vars, n, ops)
            == inferred(rules, input, vars, n, ops),
{
    lemma_aggregation_order_invariant(rules, permuted, input, vars, n, ops);
}

/// The variables and rules of a fuzzy system, with the aggregate of the
/// latest inference.
pub struct RuleSpace {
    vars: Variables,
    agg_memberships: SampleMap,
    rules: Vec<Rule>,
}

impl RuleSpace {
    /// The variables, by name.
    pub closed spec fn vars(&self) -> Map<Seq<char>, Variable> {
        self.vars@
    }

    /// The rules, in the order they were given.
    pub closed spec fn rules(&self) -> Seq<Rule> {
        self.rules@
    }

    /// The aggregate that the latest successful aggregation left.
    pub closed spec fn memberships(&self) -> Map<Seq<char>, Seq<int>> {
        samples_view(self.agg_memberships@)
    }

    /// A rule space over the given variables and rules, neither of which
    /// may be empty. Its aggregate starts out empty.
    pub fn new(vars: Variables, rules: Vec<Rule>) -> (res: Result<Self, FuzzyError>)
        ensures
            res is Ok <==> vars@ != Map::<Seq<char>, Variable>::empty() && rules@.len() > 0,
            res matches Ok(space) ==> space.vars() == vars@ && space.rules() == rules@
                && space.memberships() == Map::<Seq<char>, Seq<int>>::empty(),
            res matches Err(e) ==> e == FuzzyError::EmptyInput,
    {
        if vars.is_empty() || rules.len() == 0 {
            Err(FuzzyError::EmptyInput)
        } else {
            let space = RuleSpace { vars, agg_memberships: Table::new(), rules };
            assert(space.memberships() =~= Map::<Seq<char>, Seq<int>>::empty());
            Ok(space)
        }
    }

    /// Appends the rules of `rules`, which are moved out of it, and hands the
    /// rule space back for further calls. An empty list is refused.
    pub fn add_rules(&mut self, rules: &mut Vec<Rule>) -> (res: Result<&mut Self, FuzzyError>)
        ensures
            res is Ok <==> old(rules)@.len() > 0,
            res matches Ok(space) ==> space.vars() == old(self).vars(),
            res matches Ok(space) ==> space.memberships() == old(self).memberships(),
            res matches Ok(space) ==> space.rules() == old(self).rules() + old(rules)@,
            res matches Ok(space) ==> *final(self) == *final(space),
            res is Ok ==> final(rules)@.len() == 0,
            res matches Err(e) ==> e == FuzzyError::EmptyInput,
            res is Err ==> *final(self) == *old(self),
            res is Err ==> final(rules)@ == old(rules)@,
    {
        if rules.len() == 0 {
            Err(FuzzyError::EmptyInput)
        } else {
            self.rules.append(rules);
            Ok(self)
        }
    }

    /// The aggregate that the latest successful aggregation left.
    pub fn aggregate_memberships(&self) -> (agg: &SampleMap)
        ensures
            samples_view(agg@) == self.memberships(),
    {
        &self.agg_memberships
    }

    /// Aggregates all rules for the given inputs under the family `ops` and
    /// keeps the result. On an error the aggregate kept before stays.
    pub fn aggregate_with(&mut self, input: &Inputs, sampler: &UniformSampler, ops: Ops) -> (res:
        Result<(), FuzzyError>)
        ensures
            final(self).vars() == old(self).vars(),
            final(self).rules() == old(self).rules(),
            res is Ok ==> aggregated(
                old(self).rules(),
                input@,
                old(self).vars(),
                sampler.count(),
                ops,
            ) == Ok::<Map<Seq<char>, Seq<int>>, FuzzyError>(final(self).memberships()),
            res matches Err(e) ==> aggregated(
                old(self).rules(),
                input@,
                old(self).vars(),
                sampler.count(),
                ops,
            ) == Err::<Map<Seq<char>, Seq<int>>, FuzzyError>(e) && final(self).memberships()
                == old(self).memberships(),
    {
        match aggregation_with(&self.rules, input, &self.vars, sampler, ops) {
            Ok(agg) => {
                self.agg_memberships = agg;
                Ok(())
            },
            Err(e) => Err(e),
        }
    }

    /// Aggregates all rules for the given inputs under the default family,
    /// Min-Max, and keeps the result.
    pub fn aggregate(&mut self, input: &Inputs, sampler: &UniformSampler) -> (res: Result<
        (),
        FuzzyError,
    >)
        ensures
            final(self).vars() == old(self).vars(),
            final(self).rules() == old(self).rules(),
            res is Ok ==> aggregated(
                old(self).rules(),
                input@,
                old(self).vars(),
                sampler.count(),
                Ops::MinMax,
            ) == Ok::<Map<Seq<char>, Seq<int>>, FuzzyError>(final(self).memberships()),
            res matches Err(e) ==> aggregated(
                old(self).rules(),
                input@,
                old(self).vars(),
                sampler.count(),
                Ops::MinMax,
            ) == Err::<Map<Seq<char>, Seq<int>>, FuzzyError>(e) && final(self).memberships()
                == old(self).memberships(),
    {
        self.aggregate_with(input, sampler, Ops::MinMax)
    }

    /// Runs one inference under the family `ops`: aggregates, then takes the
    /// centroid of every output variable.
    pub fn defuzzify_with(&mut self, input: &Inputs, sampler: &UniformSampler, ops: Ops) -> (res:
        Result<CrispMap, FuzzyError>)
        ensures
            final(self).vars() == old(self).vars(),
            final(self).rules() == old(self).rules(),
            res matches Ok(crisp) ==> inferred(
                old(self).rules(),
                input@,
                old(self).vars(),
                sampler.count(),
                ops,
            ) == Ok::<Map<Seq<char>, Option<int>>, FuzzyError>(crisp_view(crisp@)),
            res matches Err(e) ==> inferred(
                old(self).rules(),
                input@,
                old(self).vars(),
                sampler.count(),
                ops,
            ) == Err::<Map<Seq<char>, Option<int>>, FuzzyError>(e),
    {
        let n: usize = sampler.n();
        match aggregation_with(&self.rules, input, &self.vars, sampler, ops) {
            Ok(agg) => {
                self.agg_memberships = agg;
            },
            Err(e) => {
                return Err(e);
            },
        }
        defuzzification(&self.agg_memberships, &self.vars)
    }

    /// Runs one inference under the default family, Min-Max.
    pub fn defuzzify(&mut self, input: &Inputs, sampler: &UniformSampler) -> (res: Result<
        CrispMap,
        FuzzyError,
    >)
        ensures
            final(self).vars() == old(self).vars(),
            final(self).rules() == old(self).rules(),
            res matches Ok(crisp) ==> inferred(
                old(self).rules(),
                input@,
                old(self).vars(),
                sampler.count(),
                Ops::MinMax,
            ) == Ok::<Map<Seq<char>, Option<int>>, FuzzyError>(crisp_view(crisp@)),
            res matches Err(e) ==> inferred(
                old(self).rules(),
                input@,
                old(self).vars(),
                sampler.count(),
                Ops::MinMax,
            ) == Err::<Map<Seq<char>, Option<int>>, FuzzyError>(e),
    {
        self.defuzzify_with(input, sampler, Ops::MinMax)
    }
}

} // verus!
