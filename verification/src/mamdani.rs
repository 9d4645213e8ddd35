//! Mamdani rules: activation of the antecedent and implication onto the
//! consequents.

use vstd::prelude::*;
use crate::antecedent::{antecedent_value, eval_antecedent_with, Antecedent, Inputs, Variables};
use crate::error::FuzzyError;
use crate::fixed::{ints, is_degree, Fixed, ONE};
use crate::membership::MembershipFn;
use crate::ops::{lemma_product, product, Ops};
use crate::sampler::{grid_point, sample_point, UniformSampler, MAX_SAMPLES};
use crate::table::Table;
use crate::variable::Variable;

verus! {

/// The sampled membership functions of the output variables, by name.
pub type SampleMap = Table<Vec<Fixed>>;

/// The samples of a sample map as mathematical sequences.
pub open spec fn samples_view(m: Map<Seq<char>, Vec<Fixed>>) -> Map<Seq<char>, Seq<int>> {
    Map::new(|name: Seq<char>| m.contains_key(name), |name: Seq<char>| ints(m[name]@))
}

/// Whether every sequence of `m` holds `n` membership degrees.
pub open spec fn is_sample_map(m: Map<Seq<char>, Seq<int>>, n: int) -> bool {
    forall|name: Seq<char>| #[trigger]
        m.contains_key(name) ==> m[name].len() == n && forall|j: int|
            0 <= j < n ==> is_degree(#[trigger] m[name][j])
}

/// Whether `mu` is a sampled membership function: between two and
/// [`MAX_SAMPLES`] membership degrees.
pub open spec fn is_sampled(mu: Seq<int>) -> bool {
    &&& 2 <= mu.len() <= MAX_SAMPLES
    &&& forall|i: int| 0 <= i < mu.len() ==> is_degree(#[trigger] mu[i])
}

/// Whether every sequence of `m` is a sampled membership function.
pub open spec fn is_sampled_map(m: Map<Seq<char>, Seq<int>>) -> bool {
    forall|name: Seq<char>| #[trigger] m.contains_key(name) ==> is_sampled(m[name])
}

/// A sample map whose sequences all have the length of a sampler's grid is
/// a map of sampled membership functions.
pub proof fn lemma_sample_map_is_sampled(m: Map<Seq<char>, Seq<int>>, n: int)
    requires
        is_sample_map(m, n),
        2 <= n <= MAX_SAMPLES,
    ensures
        is_sampled_map(m),
{
}

/// How the activation of a rule reduces the membership of its consequent.
#[derive(Clone, Copy, Debug, PartialEq, Eq, Structural)]
pub enum Implication {
    /// The membership is cut off at the activation: `min(alpha, mu)`.
    Clip,
    /// The membership is scaled by the activation: `alpha * mu`.
    Product,
}

/// The membership degree `mu` cut off at the activation `alpha`.
pub open spec fn clipped(alpha: int, mu: int) -> int {
    if mu <= alpha {
        mu
    } else {
        alpha
    }
}

impl Implication {
    /// The degree that the implication makes of `mu` under the activation
    /// `alpha`.
    pub open spec fn implied(&self, alpha: int, mu: int) -> int {
        match self {
            Implication::Clip => clipped(alpha, mu),
            Implication::Product => product(alpha, mu),
        }
    }

    /// Applies the implication to one membership degree.
    pub fn apply(&self, alpha: Fixed, mu: Fixed) -> (r: Fixed)
        requires
            is_degree(alpha as int),
            is_degree(mu as int),
        ensures
            r == self.implied(alpha as int, mu as int),
            is_degree(r as int),
            r <= mu,
            r <= alpha,
    {
        proof {
            lemma_product(alpha as int, mu as int);
        }
        match self {
            Implication::Clip => if mu <= alpha { mu } else { alpha },
            Implication::Product => {
                assert(alpha * mu <= 1_000_000_000 * 1_000_000_000) by (nonlinear_arith)
                    requires
                        0 <= alpha <= 1_000_000_000,
                        0 <= mu <= 1_000_000_000,
                {
                }
                assert(alpha * mu >= 0) by (nonlinear_arith)
                    requires
                        0 <= alpha,
                        0 <= mu,
                {
                }
                alpha * mu / ONE
            },
        }
    }
}

/// The conclusion of a rule: the output variable `var` is `term`.
#[derive(Clone, Debug, PartialEq, Eq)]
pub struct Consequent {
    pub var: String,
    pub term: String,
}

/// A rule: if the antecedent holds, then each consequent does.
#[derive(Debug, PartialEq, Eq)]
pub struct Rule {
    pub antecedent: Antecedent,
    pub consequent: Vec<Consequent>,
}

/// The clipped samples of one consequent: its variable must be registered
/// and must have the term; sample `i` is then the term's degree at point `i`
/// of the variable's grid of `n` points, cut off at `alpha`.
pub open spec fn consequent_samples(
    c: Consequent,
    alpha: int,
    vars: Map<Seq<char>, Variable>,
    n: int,
) -> Result<Seq<int>, FuzzyError> {
    if !vars.contains_key(c.var@) {
        Err(FuzzyError::UnknownVariable)
    } else if !vars[c.var@].terms().contains_key(c.term@) {
        Err(FuzzyError::UnknownTerm)
    } else {
        let v = vars[c.var@];
        Ok(
            Seq::new(
                n as nat,
                |i: int|
                    clipped(alpha, v.terms()[c.term@].degree(grid_point(v.min(), v.max(), n, i))),
            ),
        )
    }
}

/// What implication makes of a list of consequents: the first error in list
/// order, or else the map from each output variable to its clipped samples.
/// Where a variable is named more than once, its last consequent stands.
pub open spec fn implicated(
    consequents: Seq<Consequent>,
    alpha: int,
    vars: Map<Seq<char>, Variable>,
    n: int,
) -> Result<Map<Seq<char>, Seq<int>>, FuzzyError>
    decreases consequents.len(),
{
    if consequents.len() == 0 {
        Ok(Map::empty())
    } else {
        match implicated(consequents.drop_last(), alpha, vars, n) {
            Err(e) => Err(e),
            Ok(m) => match consequent_samples(consequents.last(), alpha, vars, n) {
                Err(e) => Err(e),
                Ok(s) => Ok(m.insert(consequents.last().var@, s)),
            },
        }
    }
}

/// Implication succeeds exactly when every consequent names a registered
/// variable and a term of that variable; its result then has the variables
/// that the consequents name.
pub proof fn lemma_implicated_total(
    consequents: Seq<Consequent>,
    alpha: int,
    vars: Map<Seq<char>, Variable>,
    n: int,
)
    ensures
        implicated(consequents, alpha, vars, n) is Ok <==> forall|i: int|
            0 <= i < consequents.len() ==> vars.contains_key(#[trigger] consequents[i].var@)
                && vars[consequents[i].var@].terms().contains_key(consequents[i].term@),
        implicated(consequents, alpha, vars, n) matches Ok(m) ==> forall|name: Seq<char>|
            m.contains_key(name) <==> exists|i: int|
                0 <= i < consequents.len() && #[trigger] consequents[i].var@ == name,
    decreases consequents.len(),
{
    if consequents.len() > 0 {
        let init = consequents.drop_last();
        let last = consequents.last();
        lemma_implicated_total(init, alpha, vars, n);
        assert forall|i: int| 0 <= i < init.len() implies init[i] == consequents[i] by {}
        if implicated(consequents, alpha, vars, n) is Ok {
            assert forall|i: int| 0 <= i < consequents.len() implies vars.contains_key(
                #[trigger] consequents[i].var@,
            ) && vars[consequents[i].var@].terms().contains_key(consequents[i].term@) by {
                if i < init.len() {
                    assert(init[i] == consequents[i]);
                }
            }
            let m = implicated(consequents, alpha, vars, n)->Ok_0;
            let before = implicated(init, alpha, vars, n)->Ok_0;
            assert forall|name: Seq<char>| m.contains_key(name) <==> exists|i: int|
                0 <= i < consequents.len() && #[trigger] consequents[i].var@ == name by {
                if m.contains_key(name) {
                    if name == last.var@ {
                        assert(consequents[consequents.len() - 1].var@ == name);
                    } else {
                        assert(before.contains_key(name));
                        let i = choose|i: int|
                            0 <= i < init.len() && #[trigger] init[i].var@ == name;
                        assert(consequents[i].var@ == name);
                    }
                }
                if exists|i: int|
                    0 <= i < consequents.len() && #[trigger] consequents[i].var@ == name {
                    let i = choose|i: int|
                        0 <= i < consequents.len() && #[trigger] consequents[i].var@ == name;
                    if i < init.len() {
                        assert(init[i].var@ == name);
                    }
                }
            }
        } else if implicated(init, alpha, vars, n) is Ok {
            assert(consequents[consequents.len() - 1] == last);
        } else {
            let i = choose|i: int|
                0 <= i < init.len() && !(vars.contains_key(#[trigger] init[i].var@)
                    && vars[init[i].var@].terms().contains_key(init[i].term@));
            assert(consequents[i] == init[i]);
        }
    }
}

/// Under an activation in `[0, ONE]`, implication yields `n` membership
/// degrees for every output variable.
pub proof fn lemma_implicated_samples(
    consequents: Seq<Consequent>,
    alpha: int,
    vars: Map<Seq<char>, Variable>,
    n: int,
)
    requires
        is_degree(alpha),
        n >= 0,
    ensures
        implicated(consequents, alpha, vars, n) matches Ok(m) ==> is_sample_map(m, n),
    decreases consequents.len(),
{
    if consequents.len() > 0 {
        lemma_implicated_samples(consequents.drop_last(), alpha, vars, n);
    }
}

/// Computes the clipped samples of one consequent.
pub fn implicate_one(c: &Consequent, alpha: Fixed, vars: &Variables, sampler: &UniformSampler) -> (res:
    Result<Vec<Fixed>, FuzzyError>)
    ensures
        res matches Ok(s) ==> consequent_samples(*c, alpha as int, vars@, sampler.count())
            == Ok::<Seq<int>, FuzzyError>(ints(s@)),
        res matches Err(e) ==> consequent_samples(*c, alpha as int, vars@, sampler.count())
            == Err::<Seq<int>, FuzzyError>(e),
{
    let v = match vars.get(c.var.as_str()) {
        Some(v) => v,
        None => {
            return Err(FuzzyError::UnknownVariable);
        },
    };
    let (dom_min, dom_max) = v.domain();
    let n: usize = sampler.n();
    let mut samples: Vec<Fixed> = Vec::with_capacity(n);
    let mut k: usize = 0;
    while k < n
        invariant
            2 <= n <= MAX_SAMPLES,
            n == sampler.count(),
            vars@.contains_key(c.var@),
            vars@[c.var@] == *v,
            k <= n,
            dom_min < dom_max,
            dom_min == v.min(),
            dom_max == v.max(),
            samples@.len() == k,
            k > 0 ==> v.terms().contains_key(c.term@),
            forall|j: int|
                0 <= j < k ==> samples@[j] == clipped(
                    alpha as int,
                    v.terms()[c.term@].degree(grid_point(v.min(), v.max(), n as int, j)),
                ),
        decreases n - k,
    {
        let x: Fixed = sample_point(dom_min, dom_max, n, k);
        let mu: Fixed = match v.eval(c.term.as_str(), x) {
            Ok(mu) => mu,
            Err(e) => {
                return Err(e);
            },
        };
        samples.push(if mu <= alpha { mu } else { alpha });
        k += 1;
    }
    assert(ints(samples@) =~= consequent_samples(*c, alpha as int, vars@, n as int)->Ok_0);
    Ok(samples)
}

impl Rule {
    /// A rule with the given parts; the list of consequents must not be
    /// empty.
    pub fn new(antecedent: Antecedent, consequent: Vec<Consequent>) -> (res: Result<
        Rule,
        FuzzyError,
    >)
        ensures
            res is Ok <==> consequent@.len() > 0,
            res matches Ok(r) ==> r.antecedent == antecedent && r.consequent == consequent,
            res matches Err(e) ==> e == FuzzyError::EmptyInput,
    {
        if consequent.len() == 0 {
            Err(FuzzyError::EmptyInput)
        } else {
            Ok(Rule { antecedent, consequent })
        }
    }

    /// The activation of the rule under the family `ops`: the truth value of
    /// its antecedent.
    pub fn activation_with(&self, input: &Inputs, vars: &Variables, ops: Ops) -> (res: Result<
        Fixed,
        FuzzyError,
    >)
        ensures
            res matches Ok(alpha) ==> antecedent_value(self.antecedent, input@, vars@, ops) == Ok::<
                int,
                FuzzyError,
            >(alpha as int) && is_degree(alpha as int),
            res matches Err(e) ==> antecedent_value(self.antecedent, input@, vars@, ops) == Err::<
                int,
                FuzzyError,
            >(e),
    {
        eval_antecedent_with(&self.antecedent, input, vars, ops)
    }

    /// The activation of the rule under the default family, Min-Max.
    pub fn activation(&self, input: &Inputs, vars: &Variables) -> (res: Result<Fixed, FuzzyError>)
        ensures
            res matches Ok(alpha) ==> antecedent_value(self.antecedent, input@, vars@, Ops::MinMax)
                == Ok::<int, FuzzyError>(alpha as int) && is_degree(alpha as int),
            res matches Err(e) ==> antecedent_value(self.antecedent, input@, vars@, Ops::MinMax)
                == Err::<int, FuzzyError>(e),
    {
        self.activation_with(input, vars, Ops::MinMax)
    }

    /// Clips the membership of every consequent at `alpha`, sampled on the
    /// sampler's grid over the domain of its output variable.
    pub fn implicate(&self, alpha: Fixed, vars: &Variables, sampler: &UniformSampler) -> (res:
        Result<SampleMap, FuzzyError>)
        ensures
            res matches Ok(m) ==> implicated(
                self.consequent@,
                alpha as int,
                vars@,
                sampler.count(),
            ) == Ok::<Map<Seq<char>, Seq<int>>, FuzzyError>(samples_view(m@)),
            res matches Err(e) ==> implicated(
                self.consequent@,
                alpha as int,
                vars@,
                sampler.count(),
            ) == Err::<Map<Seq<char>, Seq<int>>, FuzzyError>(e),
            res matches Ok(m) ==> is_degree(alpha as int) ==> is_sample_map(
                samples_view(m@),
                sampler.count(),
            ) && is_sampled_map(samples_view(m@)),
            res is Ok <==> forall|i: int|
                0 <= i < self.consequent@.len() ==> vars@.contains_key(
                    #[trigger] self.consequent@[i].var@,
                ) && vars@[self.consequent@[i].var@].terms().contains_key(
                    self.consequent@[i].term@,
                ),
    {
        proof {
            lemma_implicated_total(self.consequent@, alpha as int, vars@, sampler.count());
        }
        let mut result: SampleMap = Table::new();
        let n: usize = sampler.n();
        let mut i: usize = 0;
        proof {
            assert(self.consequent@.take(0) =~= Seq::<Consequent>::empty());
            assert(samples_view(result@) =~= Map::<Seq<char>, Seq<int>>::empty());
        }
        while i < self.consequent.len()
            invariant
                i <= self.consequent@.len(),
                implicated(self.consequent@.take(i as int), alpha as int, vars@, sampler.count())
                    == Ok::<Map<Seq<char>, Seq<int>>, FuzzyError>(samples_view(result@)),
            decreases self.consequent@.len() - i,
        {
            let c = &self.consequent[i];
            proof {
                let upto = self.consequent@.take(i as int + 1);
                assert(upto.drop_last() =~= self.consequent@.take(i as int));
                assert(upto.last() == *c);
            }
            let samples = match implicate_one(c, alpha, vars, sampler) {
                Ok(s) => s,
                Err(e) => {
                    proof {
                        lemma_implicated_fails(
                            self.consequent@,
                            i as int + 1,
                            alpha as int,
                            vars@,
                            sampler.count(),
                        );
                    }
                    return Err(e);
                },
            };
            let ghost before = result@;
            let _ = result.insert(c.var.as_str(), samples);
            assert(samples_view(result@) =~= samples_view(before).insert(c.var@, ints(samples@)));
            i += 1;
        }
        proof {
            assert(self.consequent@.take(i as int) =~= self.consequent@);
            if is_degree(alpha as int) {
                lemma_implicated_samples(self.consequent@, alpha as int, vars@, sampler.count());
                lemma_sample_map_is_sampled(samples_view(result@), sampler.count());
            }
        }
        Ok(result)
    }
}

/// An error met on a prefix of the consequents is the error of the whole
/// list.
pub proof fn lemma_implicated_fails(
    consequents: Seq<Consequent>,
    upto: int,
    alpha: int,
    vars: Map<Seq<char>, Variable>,
    n: int,
)
    requires
        0 <= upto <= consequents.len(),
        implicated(consequents.take(upto), alpha, vars, n) is Err,
    ensures
        implicated(consequents, alpha, vars, n) == implicated(
            consequents.take(upto),
            alpha,
            vars,
            n,
        ),
    decreases consequents.len(),
{
    if upto == consequents.len() {
        assert(consequents.take(upto) =~= consequents);
    } else {
        assert(consequents.drop_last().take(upto) =~= consequents.take(upto));
        lemma_implicated_fails(consequents.drop_last(), upto, alpha, vars, n);
    }
}

} // verus!
