use rust_fuzzylogic::aggregate::{aggregation, aggregation_with, elements_max, merge_samples};
use rust_fuzzylogic::antecedent::{Antecedent, Inputs, Variables};
use rust_fuzzylogic::defuzz::{centroid, defuzzification};
use rust_fuzzylogic::error::FuzzyError;
use rust_fuzzylogic::fixed::{Fixed, ONE};
use rust_fuzzylogic::mamdani::{implicate_one, Consequent, Implication, Rule, SampleMap};
use rust_fuzzylogic::membership::Triangular;
use rust_fuzzylogic::ops::Ops;
use rust_fuzzylogic::rulespace::RuleSpace;
use rust_fuzzylogic::sampler::UniformSampler;
use rust_fuzzylogic::table::Table;
use rust_fuzzylogic::term::Term;
use rust_fuzzylogic::variable::Variable;

/// The fixed-point number nearest to `v`.
fn fx(v: f64) -> Fixed {
    (v * 1e9).round() as Fixed
}

/// The real number that `v` stands for.
fn as_real(v: Fixed) -> f64 {
    v as f64 / 1e9
}

fn triangle(l: f64, c: f64, r: f64, label: &str) -> Term {
    Term::new(label, Triangular::new(fx(l), fx(c), fx(r)).unwrap().into())
}

fn variables() -> Variables {
    let mut temp = Variable::new(fx(-10.0), fx(10.0)).unwrap();
    temp.insert_term("cold", triangle(-10.0, -5.0, 0.0, "cold")).unwrap();
    temp.insert_term("hot", triangle(0.0, 5.0, 10.0, "hot")).unwrap();

    let mut fanspeed = Variable::new(fx(0.0), fx(10.0)).unwrap();
    fanspeed.insert_term("High", triangle(5.0, 7.5, 10.0, "High")).unwrap();
    fanspeed.insert_term("Low", triangle(0.0, 2.5, 5.0, "hot")).unwrap();

    let mut pumpspeed = Variable::new(fx(0.0), fx(100.0)).unwrap();
    pumpspeed.insert_term("High", triangle(80.0, 90.0, 100.0, "High")).unwrap();
    pumpspeed.insert_term("Low", triangle(0.0, 10.0, 20.0, "hot")).unwrap();

    let mut vars: Variables = Table::new();
    vars.insert("temp", temp);
    vars.insert("fanspeed", fanspeed);
    vars.insert("pumpspeed", pumpspeed);
    vars
}

fn atom(var: &str, term: &str) -> Antecedent {
    Antecedent::Atom { var: var.into(), term: term.into() }
}

fn this_and_not_that(this: &str, that: &str) -> Antecedent {
    Antecedent::And(
        Box::new(atom("temp", this)),
        Box::new(Antecedent::Not(Box::new(atom("temp", that)))),
    )
}

fn consequent(var: &str, term: &str) -> Consequent {
    Consequent { var: var.to_string(), term: term.to_string() }
}

fn rules() -> Vec<Rule> {
    vec![
        Rule {
            antecedent: this_and_not_that("hot", "cold"),
            consequent: vec![consequent("fanspeed", "High"), consequent("pumpspeed", "High")],
        },
        Rule {
            antecedent: this_and_not_that("cold", "hot"),
            consequent: vec![consequent("fanspeed", "Low"), consequent("pumpspeed", "Low")],
        },
    ]
}

fn reading(temp: f64) -> Inputs {
    let mut inputs: Inputs = Table::new();
    inputs.insert("temp", fx(temp));
    inputs
}

#[test]
fn aggregation_test() {
    let mut temp = Variable::new(fx(-10.0), fx(10.0)).unwrap();
    temp.insert_term(
        "cold",
        Term::new("cold", Triangular::new(fx(-10.0), fx(-5.0), fx(0.0)).unwrap().into()),
    )
    .unwrap();
    temp.insert_term(
        "hot",
        Term::new("hot", Triangular::new(fx(0.0), fx(5.0), fx(10.0)).unwrap().into()),
    )
    .unwrap();

    let mut fanspeed = Variable::new(fx(0.0), fx(10.0)).unwrap();
    fanspeed
        .insert_term(
            "High",
            Term::new("High", Triangular::new(fx(5.0), fx(7.5), fx(10.0)).unwrap().into()),
        )
        .unwrap();
    fanspeed
        .insert_term(
            "Low",
            Term::new("hot", Triangular::new(fx(0.0), fx(2.5), fx(5.0)).unwrap().into()),
        )
        .unwrap();

    let mut pumpspeed = Variable::new(fx(0.0), fx(100.0)).unwrap();
    pumpspeed
        .insert_term(
            "High",
            Term::new("High", Triangular::new(fx(80.0), fx(90.0), fx(100.0)).unwrap().into()),
        )
        .unwrap();
    pumpspeed
        .insert_term(
            "Low",
            Term::new("hot", Triangular::new(fx(0.0), fx(10.0), fx(20.0)).unwrap().into()),
        )
        .unwrap();

    let mut vars: Variables = Table::new();
    vars.insert("temp", temp);
    vars.insert("Fanspeed", fanspeed);
    vars.insert("Pumpspeed", pumpspeed);

    let ast = Antecedent::And(
        Box::new(Antecedent::Atom { var: "temp".into(), term: "hot".into() }),
        Box::new(Antecedent::Not(Box::new(Antecedent::Atom {
            var: "temp".into(),
            term: "cold".into(),
        }))),
    );

    let ast_2 = Antecedent::And(
        Box::new(Antecedent::Atom { var: "temp".into(), term: "cold".into() }),
        Box::new(Antecedent::Not(Box::new(Antecedent::Atom {
            var: "temp".into(),
            term: "hot".into(),
        }))),
    );

    let csqt_1 = Consequent { var: "Fanspeed".to_string(), term: "High".to_string() };
    let csqt_2 = Consequent { var: "Pumpspeed".to_string(), term: "High".to_string() };
    let csqt_3 = Consequent { var: "Fanspeed".to_string(), term: "Low".to_string() };
    let csqt_4 = Consequent { var: "Pumpspeed".to_string(), term: "Low".to_string() };

    let rule = Rule { antecedent: ast, consequent: vec![csqt_1, csqt_2] };
    let rule_2 = Rule { antecedent: ast_2, consequent: vec![csqt_3, csqt_4] };

    let mut inputs: Inputs = Table::new();
    inputs.insert("temp", fx(7.5));

    let sampler = UniformSampler::default();

    let alpha = rule.activation(&inputs, &vars).unwrap();
    assert_eq!(alpha, fx(0.5));

    let rules: Vec<Rule> = vec![rule, rule_2];

    let aggregate = aggregation(&rules, &inputs, &vars, &sampler);

    println!("{:?}", aggregate);
    let aggregate = aggregate.unwrap();
    assert_eq!(aggregate.len(), 2);
    let fan = aggregate.get("Fanspeed").unwrap();
    assert_eq!(fan.len(), 101);
    assert_eq!(fan[50], 0);
    assert_eq!(fan[60], fx(0.4));
    assert_eq!(fan[75], fx(0.5));
    assert_eq!(fan[100], 0);
    assert!(fan.iter().all(|mu| 0 <= *mu && *mu <= fx(0.5)));
}

#[test]
fn end_to_end_test() {
    let mut temp = Variable::new(fx(-10.0), fx(10.0)).unwrap();
    temp.insert_term(
        "cold",
        Term::new("cold", Triangular::new(fx(-10.0), fx(-5.0), fx(0.0)).unwrap().into()),
    )
    .unwrap();
    temp.insert_term(
        "hot",
        Term::new("hot", Triangular::new(fx(0.0), fx(5.0), fx(10.0)).unwrap().into()),
    )
    .unwrap();

    let mut fanpspeed = Variable::new(fx(0.0), fx(10.0)).unwrap();
    fanpspeed
        .insert_term(
            "High",
            Term::new("High", Triangular::new(fx(5.0), fx(7.5), fx(10.0)).unwrap().into()),
        )
        .unwrap();
    fanpspeed
        .insert_term(
            "Low",
            Term::new("hot", Triangular::new(fx(0.0), fx(2.5), fx(5.0)).unwrap().into()),
        )
        .unwrap();

    let mut pumpspeed = Variable::new(fx(0.0), fx(100.0)).unwrap();
    pumpspeed
        .insert_term(
            "High",
            Term::new("High", Triangular::new(fx(80.0), fx(90.0), fx(100.0)).unwrap().into()),
        )
        .unwrap();
    pumpspeed
        .insert_term(
            "Low",
            Term::new("hot", Triangular::new(fx(0.0), fx(10.0), fx(20.0)).unwrap().into()),
        )
        .unwrap();

    let mut vars: Variables = Table::new();
    vars.insert("temp", temp);
    vars.insert("fanpspeed", fanpspeed);
    vars.insert("pumpspeed", pumpspeed);

    let ast = Antecedent::And(
        Box::new(Antecedent::Atom { var: "temp".into(), term: "hot".into() }),
        Box::new(Antecedent::Not(Box::new(Antecedent::Atom {
            var: "temp".into(),
            term: "cold".into(),
        }))),
    );

    let ast_2 = Antecedent::And(
        Box::new(Antecedent::Atom { var: "temp".into(), term: "cold".into() }),
        Box::new(Antecedent::Not(Box::new(Antecedent::Atom {
            var: "temp".into(),
            term: "hot".into(),
        }))),
    );

    let csqt_1 = Consequent { var: "fanpspeed".to_string(), term: "High".to_string() };
    let csqt_2 = Consequent { var: "pumpspeed".to_string(), term: "High".to_string() };
    let csqt_3 = Consequent { var: "fanpspeed".to_string(), term: "Low".to_string() };
    let csqt_4 = Consequent { var: "pumpspeed".to_string(), term: "Low".to_string() };

    let rule = Rule { antecedent: ast, consequent: vec![csqt_1, csqt_2] };
    let rule_2 = Rule { antecedent: ast_2, consequent: vec![csqt_3, csqt_4] };

    let mut inputs: Inputs = Table::new();
    inputs.insert("temp", fx(7.5));

    let sampler = UniformSampler::default();

    let rules: Vec<Rule> = vec![rule, rule_2];

    let aggregate = aggregation(&rules, &inputs, &vars, &sampler).unwrap();

    let centroid = defuzzification(&aggregate, &vars);

    println!("{:?}", centroid);
    let centroid = centroid.unwrap();
    assert_eq!(centroid.get("fanpspeed"), Some(&Some(fx(7.5))));
    assert_eq!(centroid.get("pumpspeed"), Some(&Some(fx(90.0))));
}

#[test]
fn mamdani_with_centroid_on_the_high_side() {
    let mut space = RuleSpace::new(variables(), rules()).unwrap();
    let sampler = UniformSampler::new(101).unwrap();
    let crisp = space.defuzzify(&reading(7.5), &sampler).unwrap();
    assert_eq!(crisp.len(), 2);
    let fan = as_real(crisp.get("fanspeed").unwrap().unwrap());
    let pump = as_real(crisp.get("pumpspeed").unwrap().unwrap());
    assert!(6.5 <= fan && fan <= 8.5);
    assert!(70.0 <= pump && pump <= 95.0);
    assert_eq!(crisp.get("fanspeed"), Some(&Some(fx(7.5))));
    assert_eq!(crisp.get("pumpspeed"), Some(&Some(fx(90.0))));
    assert!(crisp.get("temp").is_none());
}

#[test]
fn mamdani_with_centroid_on_the_low_side() {
    let mut space = RuleSpace::new(variables(), rules()).unwrap();
    let sampler = UniformSampler::new(101).unwrap();
    let crisp = space.defuzzify(&reading(-7.5), &sampler).unwrap();
    let fan = as_real(crisp.get("fanspeed").unwrap().unwrap());
    let pump = as_real(crisp.get("pumpspeed").unwrap().unwrap());
    assert!(fan < 5.0);
    assert!(pump < 50.0);
    assert_eq!(crisp.get("fanspeed"), Some(&Some(fx(2.5))));
    assert_eq!(crisp.get("pumpspeed"), Some(&Some(fx(10.0))));
}

#[test]
fn zero_activation_gives_no_crisp_value() {
    let vars = variables();
    let sampler = UniformSampler::new(101).unwrap();
    let inputs = reading(0.0);
    for rule in rules().iter() {
        assert_eq!(rule.activation(&inputs, &vars), Ok(0));
    }
    let aggregate = aggregation(&rules(), &inputs, &vars, &sampler).unwrap();
    for name in ["fanspeed", "pumpspeed"] {
        let samples = aggregate.get(name).unwrap();
        assert_eq!(samples.len(), 101);
        assert!(samples.iter().all(|mu| *mu == 0));
    }
    let crisp = defuzzification(&aggregate, &vars).unwrap();
    assert_eq!(crisp.get("fanspeed"), Some(&None));
    assert_eq!(crisp.get("pumpspeed"), Some(&None));
    let mut space = RuleSpace::new(variables(), rules()).unwrap();
    let again = space.defuzzify(&inputs, &sampler).unwrap();
    assert_eq!(again.get("fanspeed"), Some(&None));
    assert_eq!(again.get("pumpspeed"), Some(&None));
}

#[test]
fn centroid_of_two_overlapping_rules() {
    // Low is clipped at 0.2 and High at 0.8; on the grid 0, 1, ..., 10 the
    // aggregate is 0 .2 .2 .2 .2 0 .4 .8 .8 .4 0, so the centroid is
    // 20 / 3.2 = 6.25.
    let vars = variables();
    let list = vec![
        Rule { antecedent: atom("temp", "hot"), consequent: vec![consequent("fanspeed", "High")] },
        Rule {
            antecedent: Antecedent::Not(Box::new(atom("temp", "hot"))),
            consequent: vec![consequent("fanspeed", "Low")],
        },
    ];
    let sampler = UniformSampler::new(11).unwrap();
    let inputs = reading(6.0);
    let aggregate = aggregation(&list, &inputs, &vars, &sampler).unwrap();
    let expected: Vec<Fixed> =
        [0.0, 0.2, 0.2, 0.2, 0.2, 0.0, 0.4, 0.8, 0.8, 0.4, 0.0].iter().map(|v| fx(*v)).collect();
    assert_eq!(aggregate.get("fanspeed"), Some(&expected));
    let crisp = defuzzification(&aggregate, &vars).unwrap();
    assert_eq!(crisp.get("fanspeed"), Some(&Some(fx(6.25))));
}

#[test]
fn rule_order_does_not_matter() {
    let vars = variables();
    let sampler = UniformSampler::new(41).unwrap();
    let make = |order: &[usize]| -> Vec<Rule> {
        let mut all = Vec::new();
        for k in order {
            let rule = match k {
                0 => Rule {
                    antecedent: atom("temp", "hot"),
                    consequent: vec![consequent("fanspeed", "High"), consequent("pumpspeed", "Low")],
                },
                1 => Rule {
                    antecedent: Antecedent::Not(Box::new(atom("temp", "hot"))),
                    consequent: vec![consequent("fanspeed", "Low")],
                },
                2 => Rule {
                    antecedent: Antecedent::Or(
                        Box::new(atom("temp", "cold")),
                        Box::new(atom("temp", "hot")),
                    ),
                    consequent: vec![consequent("pumpspeed", "High"), consequent("fanspeed", "Low")],
                },
                _ => Rule {
                    antecedent: this_and_not_that("hot", "cold"),
                    consequent: vec![consequent("pumpspeed", "High")],
                },
            };
            all.push(rule);
        }
        all
    };
    let orders: [[usize; 4]; 5] =
        [[0, 1, 2, 3], [3, 2, 1, 0], [1, 0, 3, 2], [2, 3, 0, 1], [1, 3, 0, 2]];
    for temp in [-9.0, -5.0, -0.5, 0.0, 2.0, 6.0, 9.5] {
        let inputs = reading(temp);
        for ops in [Ops::MinMax, Ops::Product, Ops::Lukasiewicz] {
            let base = aggregation_with(&make(&orders[0]), &inputs, &vars, &sampler, ops).unwrap();
            let base_crisp = defuzzification(&base, &vars).unwrap();
            for order in orders.iter() {
                let other = aggregation_with(&make(order), &inputs, &vars, &sampler, ops).unwrap();
                assert_eq!(other.len(), base.len());
                for name in ["fanspeed", "pumpspeed"] {
                    assert_eq!(other.get(name), base.get(name));
                }
                let crisp = defuzzification(&other, &vars).unwrap();
                for name in ["fanspeed", "pumpspeed"] {
                    assert_eq!(crisp.get(name), base_crisp.get(name));
                }
            }
        }
    }
}

#[test]
fn implication_clips_at_the_activation() {
    let vars = variables();
    let sampler = UniformSampler::new(5).unwrap();
    let rule = Rule {
        antecedent: atom("temp", "hot"),
        consequent: vec![consequent("fanspeed", "High"), consequent("pumpspeed", "Low")],
    };
    // fanspeed on 0, 2.5, 5, 7.5, 10; pumpspeed on 0, 25, 50, 75, 100.
    let out = rule.implicate(fx(0.5), &vars, &sampler).unwrap();
    assert_eq!(out.len(), 2);
    assert_eq!(out.get("fanspeed"), Some(&vec![0, 0, 0, fx(0.5), 0]));
    assert_eq!(out.get("pumpspeed"), Some(&vec![0, 0, 0, 0, 0]));
    let full = rule.implicate(ONE, &vars, &sampler).unwrap();
    assert_eq!(full.get("fanspeed"), Some(&vec![0, 0, 0, ONE, 0]));
    let none = rule.implicate(0, &vars, &sampler).unwrap();
    assert_eq!(none.get("fanspeed"), Some(&vec![0, 0, 0, 0, 0]));
    let nine = UniformSampler::new(9).unwrap();
    assert_eq!(
        implicate_one(&consequent("fanspeed", "High"), fx(0.6), &vars, &nine),
        Ok(vec![0, 0, 0, 0, 0, fx(0.5), fx(0.6), fx(0.5), 0])
    );
}

#[test]
fn last_consequent_of_a_variable_stands() {
    let vars = variables();
    let sampler = UniformSampler::new(5).unwrap();
    let rule = Rule {
        antecedent: atom("temp", "hot"),
        consequent: vec![consequent("fanspeed", "High"), consequent("fanspeed", "Low")],
    };
    let out = rule.implicate(ONE, &vars, &sampler).unwrap();
    assert_eq!(out.len(), 1);
    assert_eq!(out.get("fanspeed"), Some(&vec![0, ONE, 0, 0, 0]));
}

#[test]
fn implication_errors() {
    let vars = variables();
    let sampler = UniformSampler::default();
    let unknown_variable =
        Rule { antecedent: atom("temp", "hot"), consequent: vec![consequent("valve", "High")] };
    assert_eq!(
        unknown_variable.implicate(ONE, &vars, &sampler).err(),
        Some(FuzzyError::UnknownVariable)
    );
    let unknown_term =
        Rule { antecedent: atom("temp", "hot"), consequent: vec![consequent("fanspeed", "Mid")] };
    assert_eq!(unknown_term.implicate(ONE, &vars, &sampler).err(), Some(FuzzyError::UnknownTerm));
    let first_wins = Rule {
        antecedent: atom("temp", "hot"),
        consequent: vec![consequent("fanspeed", "Mid"), consequent("valve", "High")],
    };
    assert_eq!(first_wins.implicate(ONE, &vars, &sampler).err(), Some(FuzzyError::UnknownTerm));
}

#[test]
fn implication_modes() {
    assert_eq!(Implication::Clip.apply(fx(0.5), fx(0.8)), fx(0.5));
    assert_eq!(Implication::Clip.apply(fx(0.5), fx(0.3)), fx(0.3));
    assert_eq!(Implication::Product.apply(fx(0.5), fx(0.8)), fx(0.4));
    assert_eq!(Implication::Product.apply(ONE, fx(0.8)), fx(0.8));
    assert_eq!(Implication::Product.apply(0, fx(0.8)), 0);
}

#[test]
fn rules_need_a_consequent() {
    assert_eq!(Rule::new(atom("temp", "hot"), vec![]).err(), Some(FuzzyError::EmptyInput));
    let rule = Rule::new(atom("temp", "hot"), vec![consequent("fanspeed", "High")]).unwrap();
    assert_eq!(rule.antecedent, atom("temp", "hot"));
    assert_eq!(rule.consequent, vec![consequent("fanspeed", "High")]);
}

#[test]
fn aggregation_stops_at_the_first_failing_rule() {
    let vars = variables();
    let sampler = UniformSampler::default();
    let good = Rule { antecedent: atom("temp", "hot"), consequent: vec![consequent("fanspeed", "High")] };
    let bad_input = Rule {
        antecedent: atom("fanspeed", "High"),
        consequent: vec![consequent("fanspeed", "High")],
    };
    let bad_variable =
        Rule { antecedent: atom("temp", "hot"), consequent: vec![consequent("valve", "High")] };
    let list = vec![good, bad_input, bad_variable];
    assert_eq!(
        aggregation(&list, &reading(5.0), &vars, &sampler).err(),
        Some(FuzzyError::MissingInput)
    );
    assert_eq!(
        aggregation(&list, &reading(50.0), &vars, &sampler).err(),
        Some(FuzzyError::OutOfBounds)
    );
    let empty: Vec<Rule> = Vec::new();
    assert_eq!(aggregation(&empty, &reading(5.0), &vars, &sampler).unwrap().len(), 0);
}

#[test]
fn elements_max_takes_the_larger_of_each_pair() {
    let mut data = vec![1, 5, 3];
    elements_max(&mut data, &vec![4, 2, 3]);
    assert_eq!(data, vec![4, 5, 3]);
    let mut longer = vec![1, 1, 1, 1];
    elements_max(&mut longer, &vec![2, 0]);
    assert_eq!(longer, vec![2, 1, 1, 1]);
    let mut shorter = vec![1];
    elements_max(&mut shorter, &vec![0, 9, 9]);
    assert_eq!(shorter, vec![1]);
}

#[test]
fn merging_keeps_what_only_one_side_has() {
    let mut acc: SampleMap = Table::new();
    acc.insert("a", vec![1, 5]);
    acc.insert("b", vec![2, 2]);
    let mut more: SampleMap = Table::new();
    more.insert("b", vec![3, 1]);
    more.insert("c", vec![7, 7]);
    merge_samples(&mut acc, more);
    assert_eq!(acc.len(), 3);
    assert_eq!(acc.get("a"), Some(&vec![1, 5]));
    assert_eq!(acc.get("b"), Some(&vec![3, 2]));
    assert_eq!(acc.get("c"), Some(&vec![7, 7]));
}

#[test]
fn centroid_is_the_weighted_mean_rounded_down() {
    // Points 0, 5, 10 with weights .5, 1, 0: (0 + 5) / 1.5 = 3.333...
    assert_eq!(centroid(0, fx(10.0), &vec![fx(0.5), ONE, 0]), Some(3_333_333_333));
    // Below zero the quotient is still rounded down: (-10 * .5 - 5) / 1.5 = -6.666...
    assert_eq!(centroid(fx(-10.0), 0, &vec![fx(0.5), ONE, 0]), Some(-6_666_666_667));
    assert_eq!(centroid(0, fx(10.0), &vec![0, 0, 0]), None);
    assert_eq!(centroid(fx(-1.0), fx(1.0), &vec![0, ONE]), Some(fx(1.0)));
    assert_eq!(centroid(fx(-1.0), fx(1.0), &vec![ONE, 0]), Some(fx(-1.0)));
    assert_eq!(centroid(Fixed::MIN, Fixed::MAX, &vec![ONE, ONE]), Some(-1));
    assert_eq!(centroid(Fixed::MIN, Fixed::MAX, &vec![0, 1]), Some(Fixed::MAX));
}

#[test]
fn defuzzification_needs_the_variable() {
    let vars = variables();
    let mut agg: SampleMap = Table::new();
    agg.insert("fanspeed", vec![0, ONE, 0]);
    agg.insert("valve", vec![0, ONE, 0]);
    assert_eq!(defuzzification(&agg, &vars).err(), Some(FuzzyError::UnknownVariable));
    let mut known: SampleMap = Table::new();
    known.insert("fanspeed", vec![0, ONE, 0]);
    let crisp = defuzzification(&known, &vars).unwrap();
    assert_eq!(crisp.len(), 1);
    assert_eq!(crisp.get("fanspeed"), Some(&Some(fx(5.0))));
}

#[test]
fn rule_space_rejects_empty_parts() {
    assert_eq!(RuleSpace::new(Table::new(), rules()).err(), Some(FuzzyError::EmptyInput));
    assert_eq!(RuleSpace::new(variables(), Vec::new()).err(), Some(FuzzyError::EmptyInput));
    assert_eq!(RuleSpace::new(Table::new(), Vec::new()).err(), Some(FuzzyError::EmptyInput));
    assert!(RuleSpace::new(variables(), rules()).is_ok());
}

#[test]
fn rule_space_takes_more_rules() {
    let mut first = rules();
    let second = first.split_off(1);
    let mut space = RuleSpace::new(variables(), first).unwrap();
    let sampler = UniformSampler::default();
    // Only the rule for hot is there: a cold reading leaves nothing active.
    let crisp = space.defuzzify(&reading(-7.5), &sampler).unwrap();
    assert_eq!(crisp.get("fanspeed"), Some(&None));
    let mut none: Vec<Rule> = Vec::new();
    assert_eq!(space.add_rules(&mut none).err(), Some(FuzzyError::EmptyInput));
    let mut more = second;
    assert!(space.add_rules(&mut more).is_ok());
    assert!(more.is_empty());
    let crisp = space.defuzzify(&reading(-7.5), &sampler).unwrap();
    assert_eq!(crisp.get("fanspeed"), Some(&Some(fx(2.5))));
}

#[test]
fn rule_space_keeps_the_latest_aggregate() {
    let mut space = RuleSpace::new(variables(), rules()).unwrap();
    let sampler = UniformSampler::new(5).unwrap();
    assert_eq!(space.aggregate_memberships().len(), 0);
    assert_eq!(space.aggregate(&reading(7.5), &sampler), Ok(()));
    assert_eq!(space.aggregate_memberships().get("fanspeed"), Some(&vec![0, 0, 0, fx(0.5), 0]));
    // A failing aggregation leaves the aggregate as it was.
    assert_eq!(space.aggregate(&reading(75.0), &sampler), Err(FuzzyError::OutOfBounds));
    assert_eq!(space.aggregate_memberships().get("fanspeed"), Some(&vec![0, 0, 0, fx(0.5), 0]));
    assert_eq!(space.defuzzify(&Table::new(), &sampler).err(), Some(FuzzyError::MissingInput));
}

#[test]
fn rule_space_under_another_family() {
    let mut space = RuleSpace::new(variables(), rules()).unwrap();
    let sampler = UniformSampler::new(5).unwrap();
    // hot(6) = 0.8 and 1 - cold(6) = 1: the product is 0.8 as is the minimum.
    assert_eq!(space.aggregate_with(&reading(6.0), &sampler, Ops::Product), Ok(()));
    assert_eq!(space.aggregate_memberships().get("fanspeed"), Some(&vec![0, 0, 0, fx(0.8), 0]));
    let crisp = space.defuzzify_with(&reading(6.0), &sampler, Ops::Lukasiewicz).unwrap();
    assert_eq!(crisp.get("fanspeed"), Some(&Some(fx(7.5))));
}
