//! Aggregation: the rules' clipped outputs, merged by pointwise maximum.

use vstd::prelude::*;
use crate::antecedent::{antecedent_value, lemma_antecedent_bounded, Inputs, Variables};
use crate::error::FuzzyError;
use crate::fixed::{ints, is_degree, Fixed};
use crate::mamdani::{
    implicated, is_sample_map, is_sampled_map, lemma_implicated_samples,
    lemma_sample_map_is_sampled, samples_view, Rule, SampleMap,
};
use crate::ops::Ops;
use crate::sampler::UniformSampler;
use crate::table::Table;
use crate::variable::Variable;

verus! {

/// `data` with each element raised to the element of `src` at the same
/// place, as far as `src` reaches.
pub open spec fn pointwise_max(data: Seq<int>, src: Seq<int>) -> Seq<int> {
    Seq::new(
        data.len(),
        |i: int|
            if i < src.len() && src[i] > data[i] {
                src[i]
            } else {
                data[i]
            },
    )
}

/// Raises each element of `data` to the element of `src` at the same place.
/// Where the lengths differ, the elements beyond the shorter one are left.
pub fn elements_max(data: &mut Vec<Fixed>, src: &Vec<Fixed>)
    ensures
        ints(final(data)@) == pointwise_max(ints(old(data)@), ints(src@)),
{
    let len: usize = if data.len() <= src.len() { data.len() } else { src.len() };
    let mut i: usize = 0;
    while i < len
        invariant
            i <= len,
            len <= src@.len(),
            len == if old(data)@.len() <= src@.len() { old(data)@.len() } else { src@.len() },
            data@.len() == old(data)@.len(),
            forall|j: int|
                0 <= j < i ==> data@[j] == if src@[j] > old(data)@[j] {
                    src@[j]
                } else {
                    old(data)@[j]
                },
            forall|j: int| i <= j < data@.len() ==> data@[j] == old(data)@[j],
        decreases len - i,
    {
        if src[i] > data[i] {
            data.set(i, src[i]);
        }
        i += 1;
    }
    assert(ints(data@) =~= pointwise_max(ints(old(data)@), ints(src@)));
}

/// Two sample maps merged: a variable that both have gets the pointwise
/// maximum, any other keeps the samples it has.
pub open spec fn merged(acc: Map<Seq<char>, Seq<int>>, more: Map<Seq<char>, Seq<int>>) -> Map<
    Seq<char>,
    Seq<int>,
> {
    Map::new(
        |name: Seq<char>| acc.contains_key(name) || more.contains_key(name),
        |name: Seq<char>|
            if acc.contains_key(name) && more.contains_key(name) {
                pointwise_max(acc[name], more[name])
            } else if acc.contains_key(name) {
                acc[name]
            } else {
                more[name]
            },
    )
}

/// The part of `all` that is no longer in `rest`.
pub open spec fn taken_from(all: Map<Seq<char>, Seq<int>>, rest: Map<Seq<char>, Vec<Fixed>>) -> Map<
    Seq<char>,
    Seq<int>,
> {
    Map::new(
        |name: Seq<char>| all.contains_key(name) && !rest.contains_key(name),
        |name: Seq<char>| all[name],
    )
}

/// Merges the sample map `more` into the accumulator `acc`.
pub fn merge_samples(acc: &mut SampleMap, more: SampleMap)
    ensures
        samples_view(final(acc)@) == merged(samples_view(old(acc)@), samples_view(more@)),
{
    let mut rest = more;
    let ghost all = samples_view(more@);
    let ghost start = samples_view(acc@);
    assert(samples_view(acc@) =~= merged(start, taken_from(all, rest@)));
    while !rest.is_empty()
        invariant
            forall|name: Seq<char>| #[trigger]
                rest@.contains_key(name) ==> all.contains_key(name) && all[name] == ints(
                    rest@[name]@,
                ),
            samples_view(acc@) == merged(start, taken_from(all, rest@)),
        decreases rest.names().len(),
    {
        let ghost rest_before = rest@;
        let ghost acc_before = acc@;
        let entry = rest.pop();
        match entry {
            Some((name, samples)) => {
                let ghost key = name@;
                let ghost was = taken_from(all, rest_before);
                let ghost now = taken_from(all, rest@);
                let ghost view_before = samples_view(acc_before);
                let held = acc.remove(name.as_str());
                let ghost placed: Seq<int>;
                match held {
                    Some(mut current) => {
                        proof {
                            assert(view_before[key] == ints(current@));
                        }
                        elements_max(&mut current, &samples);
                        proof {
                            placed = ints(current@);
                        }
                        let _ = acc.insert(name.as_str(), current);
                    },
                    None => {
                        proof {
                            placed = ints(samples@);
                        }
                        let _ = acc.insert(name.as_str(), samples);
                    },
                }
                proof {
                    assert(samples_view(acc@) =~= view_before.insert(key, placed));
                    assert(now =~= was.insert(key, all[key]));
                    assert(!was.contains_key(key));
                    assert(view_before.contains_key(key) == start.contains_key(key));
                    if start.contains_key(key) {
                        assert(view_before[key] == start[key]);
                    }
                    assert(all[key] == ints(samples@));
                    assert(merged(start, now)[key] == placed);
                    assert(view_before.insert(key, placed) =~= merged(start, now));
                }
            },
            None => {},
        }
    }
    proof {
        assert(taken_from(all, rest@) =~= all);
    }
}

/// The output of one rule: its antecedent is evaluated under `ops`, and its
/// consequents are clipped at the activation found.
pub open spec fn rule_output(
    rule: Rule,
    input: Map<Seq<char>, Fixed>,
    vars: Map<Seq<char>, Variable>,
    n: int,
    ops: Ops,
) -> Result<Map<Seq<char>, Seq<int>>, FuzzyError> {
    match antecedent_value(rule.antecedent, input, vars, ops) {
        Err(e) => Err(e),
        Ok(alpha) => implicated(rule.consequent@, alpha, vars, n),
    }
}

/// The aggregate of a list of rules: the error of the first rule that fails,
/// or else the outputs of all rules merged one after the other.
pub open spec fn aggregated(
    rules: Seq<Rule>,
    input: Map<Seq<char>, Fixed>,
    vars: Map<Seq<char>, Variable>,
    n: int,
    ops: Ops,
) -> Result<Map<Seq<char>, Seq<int>>, FuzzyError>
    decreases rules.len(),
{
    if rules.len() == 0 {
        Ok(Map::empty())
    } else {
        match aggregated(rules.drop_last(), input, vars, n, ops) {
            Err(e) => Err(e),
            Ok(acc) => match rule_output(rules.last(), input, vars, n, ops) {
                Err(e) => Err(e),
                Ok(more) => Ok(merged(acc, more)),
            },
        }
    }
}

/// The output of a rule holds `n` membership degrees for every variable.
pub proof fn lemma_rule_output_samples(
    rule: Rule,
    input: Map<Seq<char>, Fixed>,
    vars: Map<Seq<char>, Variable>,
    n: int,
    ops: Ops,
)
    requires
        n >= 0,
    ensures
        rule_output(rule, input, vars, n, ops) matches Ok(m) ==> is_sample_map(m, n),
{
    lemma_antecedent_bounded(rule.antecedent, input, vars, ops);
    if let Ok(alpha) = antecedent_value(rule.antecedent, input, vars, ops) {
        lemma_implicated_samples(rule.consequent@, alpha, vars, n);
    }
}

/// Merging keeps sample maps sample maps.
pub proof fn lemma_merged_samples(
    acc: Map<Seq<char>, Seq<int>>,
    more: Map<Seq<char>, Seq<int>>,
    n: int,
)
    requires
        is_sample_map(acc, n),
        is_sample_map(more, n),
    ensures
        is_sample_map(merged(acc, more), n),
{
    let m = merged(acc, more);
    assert forall|name: Seq<char>| #[trigger] m.contains_key(name) implies m[name].len() == n
        && forall|j: int| 0 <= j < n ==> is_degree(#[trigger] m[name][j]) by {
        if acc.contains_key(name) && more.contains_key(name) {
            assert forall|j: int| 0 <= j < n implies is_degree(#[trigger] m[name][j]) by {
                assert(is_degree(acc[name][j]));
                assert(is_degree(more[name][j]));
            }
        }
    }
}

/// The aggregate holds `n` membership degrees for every variable.
pub proof fn lemma_aggregated_samples(
    rules: Seq<Rule>,
    input: Map<Seq<char>, Fixed>,
    vars: Map<Seq<char>, Variable>,
    n: int,
    ops: Ops,
)
    requires
        n >= 0,
    ensures
        aggregated(rules, input, vars, n, ops) matches Ok(m) ==> is_sample_map(m, n),
    decreases rules.len(),
{
    if rules.len() > 0 {
        lemma_aggregated_samples(rules.drop_last(), input, vars, n, ops);
        lemma_rule_output_samples(rules.last(), input, vars, n, ops);
        if let Ok(acc) = aggregated(rules.drop_last(), input, vars, n, ops) {
            if let Ok(more) = rule_output(rules.last(), input, vars, n, ops) {
                lemma_merged_samples(acc, more, n);
            }
        }
    }
}

/// An error met on a prefix of the rules is the error of the whole list.
pub proof fn lemma_aggregated_fails(
    rules: Seq<Rule>,
    upto: int,
    input: Map<Seq<char>, Fixed>,
    vars: Map<Seq<char>, Variable>,
    n: int,
    ops: Ops,
)
    requires
        0 <= upto <= rules.len(),
        aggregated(rules.take(upto), input, vars, n, ops) is Err,
    ensures
        aggregated(rules, input, vars, n, ops) == aggregated(
            rules.take(upto),
            input,
            vars,
            n,
            ops,
        ),
    decreases rules.len(),
{
    if upto == rules.len() {
        assert(rules.take(upto) =~= rules);
    } else {
        assert(rules.drop_last().take(upto) =~= rules.take(upto));
        lemma_aggregated_fails(rules.drop_last(), upto, input, vars, n, ops);
    }
}

/// Aggregates the rules under the family `ops`: each rule is activated and
/// implicated in turn, and its output merged into the result by pointwise
/// maximum. The first error ends the aggregation, and nothing is returned
/// of the rules before it.
pub fn aggregation_with(
    rules: &Vec<Rule>,
    input: &Inputs,
    vars: &Variables,
    sampler: &UniformSampler,
    ops: Ops,
) -> (res: Result<SampleMap, FuzzyError>)
    ensures
        res matches Ok(m) ==> aggregated(rules@, input@, vars@, sampler.count(), ops) == Ok::<
            Map<Seq<char>, Seq<int>>,
            FuzzyError,
        >(samples_view(m@)),
        res matches Ok(m) ==> is_sample_map(samples_view(m@), sampler.count()) && is_sampled_map(
            samples_view(m@),
        ),
        res matches Err(e) ==> aggregated(rules@, input@, vars@, sampler.count(), ops) == Err::<
            Map<Seq<char>, Seq<int>>,
            FuzzyError,
        >(e),
        res is Ok <==> forall|r: Rule|
            rules@.contains(r) ==> #[trigger] rule_output(
                r,
                input@,
                vars@,
                sampler.count(),
                ops,
            ) is Ok,
        res matches Ok(m) ==> is_maximum_of(
            samples_view(m@),
            rules@,
            input@,
            vars@,
            sampler.count(),
            ops,
        ),
{
    let mut acc: SampleMap = Table::new();
    let n: usize = sampler.n();
    let mut i: usize = 0;
    proof {
        lemma_aggregated_is_maximum(rules@, input@, vars@, sampler.count(), ops);
        assert(rules@.take(0) =~= Seq::<Rule>::empty());
        assert(samples_view(acc@) =~= Map::<Seq<char>, Seq<int>>::empty());
    }
    while i < rules.len()
        invariant
            i <= rules@.len(),
            aggregated(rules@.take(i as int), input@, vars@, sampler.count(), ops) == Ok::<
                Map<Seq<char>, Seq<int>>,
                FuzzyError,
            >(samples_view(acc@)),
        decreases rules@.len() - i,
    {
        let rule = &rules[i];
        proof {
            let upto = rules@.take(i as int + 1);
            assert(upto.drop_last() =~= rules@.take(i as int));
            assert(upto.last() == *rule);
        }
        let alpha: Fixed = match rule.activation_with(input, vars, ops) {
            Ok(alpha) => alpha,
            Err(e) => {
                proof {
                    lemma_aggregated_fails(
                        rules@,
                        i as int + 1,
                        input@,
                        vars@,
                        sampler.count(),
                        ops,
                    );
                }
                return Err(e);
            },
        };
        let more = match rule.implicate(alpha, vars, sampler) {
            Ok(more) => more,
            Err(e) => {
                proof {
                    lemma_aggregated_fails(
                        rules@,
                        i as int + 1,
                        input@,
                        vars@,
                        sampler.count(),
                        ops,
                    );
                }
                return Err(e);
            },
        };
        merge_samples(&mut acc, more);
        i += 1;
    }
    proof {
        assert(rules@.take(i as int) =~= rules@);
        lemma_aggregated_samples(rules@, input@, vars@, sampler.count(), ops);
        lemma_sample_map_is_sampled(samples_view(acc@), sampler.count());
    }
    Ok(acc)
}

/// Aggregates the rules under the default family, Min-Max.
pub fn aggregation(
    rules: &Vec<Rule>,
    input: &Inputs,
    vars: &Variables,
    sampler: &UniformSampler,
) -> (res: Result<SampleMap, FuzzyError>)
    ensures
        res matches Ok(m) ==> aggregated(rules@, input@, vars@, sampler.count(), Ops::MinMax)
            == Ok::<Map<Seq<char>, Seq<int>>, FuzzyError>(samples_view(m@)),
        res matches Ok(m) ==> is_sample_map(samples_view(m@), sampler.count()) && is_sampled_map(
            samples_view(m@),
        ),
        res matches Err(e) ==> aggregated(rules@, input@, vars@, sampler.count(), Ops::MinMax)
            == Err::<Map<Seq<char>, Seq<int>>, FuzzyError>(e),
{
    aggregation_with(rules, input, vars, sampler, Ops::MinMax)
}

/// Whether the rule gives samples for the output variable `name`.
pub open spec fn emits(
    rule: Rule,
    input: Map<Seq<char>, Fixed>,
    vars: Map<Seq<char>, Variable>,
    n: int,
    ops: Ops,
    name: Seq<char>,
) -> bool {
    rule_output(rule, input, vars, n, ops) matches Ok(m) && m.contains_key(name)
}

/// Sample `j` that the rule gives for the output variable `name`.
pub open spec fn emitted(
    rule: Rule,
    input: Map<Seq<char>, Fixed>,
    vars: Map<Seq<char>, Variable>,
    n: int,
    ops: Ops,
    name: Seq<char>,
    j: int,
) -> int {
    rule_output(rule, input, vars, n, ops)->Ok_0[name][j]
}

/// Whether some rule of the list gives samples for the output variable
/// `name`.
pub open spec fn some_emits(
    rules: Seq<Rule>,
    input: Map<Seq<char>, Fixed>,
    vars: Map<Seq<char>, Variable>,
    n: int,
    ops: Ops,
    name: Seq<char>,
) -> bool {
    exists|r: Rule| rules.contains(r) && #[trigger] emits(r, input, vars, n, ops, name)
}

/// Whether some rule of the list gives `value` as sample `j` of the output
/// variable `name`.
pub open spec fn some_emits_value(
    rules: Seq<Rule>,
    input: Map<Seq<char>, Fixed>,
    vars: Map<Seq<char>, Variable>,
    n: int,
    ops: Ops,
    name: Seq<char>,
    j: int,
    value: int,
) -> bool {
    exists|r: Rule|
        rules.contains(r) && emits(r, input, vars, n, ops, name) && #[trigger] emitted(
            r,
            input,
            vars,
            n,
            ops,
            name,
            j,
        ) == value
}

/// Whether `m` is the pointwise maximum of what the rules give: it has the
/// variables that some rule gives samples for, and each of its samples is
/// the largest that any rule gives at that place.
pub open spec fn is_maximum_of(
    m: Map<Seq<char>, Seq<int>>,
    rules: Seq<Rule>,
    input: Map<Seq<char>, Fixed>,
    vars: Map<Seq<char>, Variable>,
    n: int,
    ops: Ops,
) -> bool {
    &&& is_sample_map(m, n)
    &&& forall|name: Seq<char>| #[trigger]
        m.contains_key(name) <==> some_emits(rules, input, vars, n, ops, name)
    &&& forall|r: Rule, name: Seq<char>, j: int|
        rules.contains(r) && emits(r, input, vars, n, ops, name) && 0 <= j < n
            ==> #[trigger] emitted(r, input, vars, n, ops, name, j) <= m[name][j]
    &&& forall|name: Seq<char>, j: int|
        m.contains_key(name) && 0 <= j < n ==> #[trigger] some_emits_value(
            rules,
            input,
            vars,
            n,
            ops,
            name,
            j,
            m[name][j],
        )
}

/// A rule is in a list exactly when it is its last element or in the rest.
pub proof fn lemma_contains_last(rules: Seq<Rule>, r: Rule)
    requires
        rules.len() > 0,
    ensures
        rules.contains(r) <==> rules.drop_last().contains(r) || r == rules.last(),
{
    let init = rules.drop_last();
    if rules.contains(r) {
        let i = rules.index_of(r);
        assert(0 <= i < rules.len() && rules[i] == r);
        if i < init.len() {
            assert(init[i] == r);
        }
    }
    if init.contains(r) {
        let i = init.index_of(r);
        assert(0 <= i < init.len() && init[i] == r);
        assert(rules[i] == r);
    }
    assert(rules[rules.len() - 1] == rules.last());
}

/// Aggregation succeeds exactly when every rule gives an output, and the
/// aggregate is then the pointwise maximum of the outputs.
pub proof fn lemma_aggregated_is_maximum(
    rules: Seq<Rule>,
    input: Map<Seq<char>, Fixed>,
    vars: Map<Seq<char>, Variable>,
    n: int,
    ops: Ops,
)
    requires
        n >= 0,
    ensures
        aggregated(rules, input, vars, n, ops) is Ok <==> forall|r: Rule|
            rules.contains(r) ==> #[trigger] rule_output(r, input, vars, n, ops) is Ok,
        aggregated(rules, input, vars, n, ops) matches Ok(m) ==> is_maximum_of(
            m,
            rules,
            input,
            vars,
            n,
            ops,
        ),
    decreases rules.len(),
{
    if rules.len() == 0 {
        let m = Map::<Seq<char>, Seq<int>>::empty();
        assert(is_maximum_of(m, rules, input, vars, n, ops));
    } else {
        let init = rules.drop_last();
        let last = rules.last();
        lemma_aggregated_is_maximum(init, input, vars, n, ops);
        assert forall|r: Rule| rules.contains(r) <==> init.contains(r) || r == last by {
            lemma_contains_last(rules, r);
        }
        assert(rules.contains(last));
        lemma_aggregated_samples(rules, input, vars, n, ops);
        lemma_rule_output_samples(last, input, vars, n, ops);
        if let Ok(acc) = aggregated(init, input, vars, n, ops) {
            if let Ok(more) = rule_output(last, input, vars, n, ops) {
                let m = merged(acc, more);
                assert forall|name: Seq<char>| #[trigger]
                    m.contains_key(name) <==> some_emits(rules, input, vars, n, ops, name) by {
                    if m.contains_key(name) {
                        if acc.contains_key(name) {
                            assert(some_emits(init, input, vars, n, ops, name));
                            let r = choose|r: Rule|
                                init.contains(r) && #[trigger] emits(r, input, vars, n, ops, name);
                            assert(rules.contains(r) && emits(r, input, vars, n, ops, name));
                        } else {
                            assert(rules.contains(last) && emits(last, input, vars, n, ops, name));
                        }
                    }
                    if some_emits(rules, input, vars, n, ops, name) {
                        let r = choose|r: Rule|
                            rules.contains(r) && #[trigger] emits(r, input, vars, n, ops, name);
                        if init.contains(r) {
                            assert(some_emits(init, input, vars, n, ops, name));
                            assert(acc.contains_key(name));
                        }
                    }
                }
                assert forall|r: Rule, name: Seq<char>, j: int|
                    rules.contains(r) && emits(r, input, vars, n, ops, name) && 0 <= j
                        < n implies #[trigger] emitted(r, input, vars, n, ops, name, j)
                    <= m[name][j] by {
                    if init.contains(r) {
                        assert(some_emits(init, input, vars, n, ops, name));
                        assert(acc.contains_key(name));
                        assert(emitted(r, input, vars, n, ops, name, j) <= acc[name][j]);
                    }
                }
                assert forall|name: Seq<char>, j: int|
                    m.contains_key(name) && 0 <= j < n implies #[trigger] some_emits_value(
                    rules,
                    input,
                    vars,
                    n,
                    ops,
                    name,
                    j,
                    m[name][j],
                ) by {
                    if acc.contains_key(name) && m[name][j] == acc[name][j] {
                        assert(some_emits_value(init, input, vars, n, ops, name, j, acc[name][j]));
                        let r = choose|r: Rule|
                            init.contains(r) && emits(r, input, vars, n, ops, name)
                                && #[trigger] emitted(r, input, vars, n, ops, name, j)
                                == acc[name][j];
                        assert(rules.contains(r));
                    } else {
                        assert(more.contains_key(name));
                        assert(m[name][j] == more[name][j]);
                        assert(rules.contains(last) && emits(last, input, vars, n, ops, name));
                        assert(emitted(last, input, vars, n, ops, name, j) == m[name][j]);
                    }
                }
                assert(is_maximum_of(m, rules, input, vars, n, ops));
            }
        }
    }
}

/// Two maps that are the pointwise maximum of the same rules are the same.
pub proof fn lemma_maximum_unique(
    m1: Map<Seq<char>, Seq<int>>,
    m2: Map<Seq<char>, Seq<int>>,
    rules1: Seq<Rule>,
    rules2: Seq<Rule>,
    input: Map<Seq<char>, Fixed>,
    vars: Map<Seq<char>, Variable>,
    n: int,
    ops: Ops,
)
    requires
        is_maximum_of(m1, rules1, input, vars, n, ops),
        is_maximum_of(m2, rules2, input, vars, n, ops),
        forall|r: Rule| rules1.contains(r) <==> rules2.contains(r),
    ensures
        m1 == m2,
{
    assert forall|name: Seq<char>| m1.contains_key(name) <==> m2.contains_key(name) by {
        if m1.contains_key(name) {
            assert(some_emits(rules1, input, vars, n, ops, name));
            let r = choose|r: Rule|
                rules1.contains(r) && #[trigger] emits(r, input, vars, n, ops, name);
            assert(rules2.contains(r));
            assert(some_emits(rules2, input, vars, n, ops, name));
        }
        if m2.contains_key(name) {
            assert(some_emits(rules2, input, vars, n, ops, name));
            let r = choose|r: Rule|
                rules2.contains(r) && #[trigger] emits(r, input, vars, n, ops, name);
            assert(rules1.contains(r));
            assert(some_emits(rules1, input, vars, n, ops, name));
        }
    }
    assert forall|name: Seq<char>| m1.contains_key(name) implies m1[name] == m2[name] by {
        assert(m2.contains_key(name));
        assert forall|j: int| 0 <= j < n implies m1[name][j] == m2[name][j] by {
            assert(some_emits_value(rules1, input, vars, n, ops, name, j, m1[name][j]));
            let r1 = choose|r: Rule|
                rules1.contains(r) && emits(r, input, vars, n, ops, name) && #[trigger] emitted(
                    r,
                    input,
                    vars,
                    n,
                    ops,
                    name,
                    j,
                ) == m1[name][j];
            assert(rules2.contains(r1));
            assert(some_emits_value(rules2, input, vars, n, ops, name, j, m2[name][j]));
            let r2 = choose|r: Rule|
                rules2.contains(r) && emits(r, input, vars, n, ops, name) && #[trigger] emitted(
                    r,
                    input,
                    vars,
                    n,
                    ops,
                    name,
                    j,
                ) == m2[name][j];
            assert(rules1.contains(r2));
        }
        assert(m1[name] =~= m2[name]);
    }
    assert(m1 =~= m2);
}

/// The aggregate does not depend on the order of the rules: a permutation of
/// the rule list aggregates successfully exactly when the list does, and
/// then to the same map.
pub proof fn lemma_aggregation_order_invariant(
    rules: Seq<Rule>,
    permuted: Seq<Rule>,
    input: Map<Seq<char>, Fixed>,
    vars: Map<Seq<char>, Variable>,
    n: int,
    ops: Ops,
)
    requires
        n >= 0,
        rules.to_multiset() == permuted.to_multiset(),
    ensures
        aggregated(permuted, input, vars, n, ops) is Ok <==> aggregated(
            rules,
            input,
            vars,
            n,
            ops,
        ) is Ok,
        aggregated(rules, input, vars, n, ops) is Ok ==> aggregated(permuted, input, vars, n, ops)
            == aggregated(rules, input, vars, n, ops),
{
    rules.to_multiset_ensures();
    permuted.to_multiset_ensures();
    assert forall|r: Rule| rules.contains(r) <==> permuted.contains(r) by {
        assert(rules.contains(r) <==> rules.to_multiset().count(r) > 0);
        assert(permuted.contains(r) <==> permuted.to_multiset().count(r) > 0);
    }
    lemma_aggregated_is_maximum(rules, input, vars, n, ops);
    lemma_aggregated_is_maximum(permuted, input, vars, n, ops);
    if let Ok(m1) = aggregated(rules, input, vars, n, ops) {
        assert(aggregated(permuted, input, vars, n, ops) is Ok);
        let m2 = aggregated(permuted, input, vars, n, ops)->Ok_0;
        lemma_maximum_unique(m1, m2, rules, permuted, input, vars, n, ops);
    }
}

} // verus!
