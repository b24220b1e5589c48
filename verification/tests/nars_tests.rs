use hybrid_nars::scale::UNIT;
use hybrid_nars::term::{Operator, Term, VarType};
use hybrid_nars::truth;
use hybrid_nars::truth::TruthValue;
use hybrid_nars::unify::unify;

#[test]
fn test_math_deduction() {
    let v1 = TruthValue::new(UNIT, 900_000);
    let v2 = TruthValue::new(UNIT, 900_000);
    let result = truth::deduction(v1, v2);

    let frequency = result.frequency as f64 / UNIT as f64;
    let confidence = result.confidence as f64 / UNIT as f64;

    let epsilon = 1e-6;
    assert!(
        (frequency - 1.0).abs() < epsilon,
        "Frequency mismatch: expected 1.0, got {}",
        frequency
    );
    assert!(
        (confidence - 0.81).abs() < epsilon,
        "Confidence mismatch: expected 0.81, got {}",
        confidence
    );
}

#[test]
fn test_unification() {
    let atom = |id| Term::Atom(id);
    let var = |id| Term::Var(VarType::Independent, id);

    let id_x = 100;
    let id_duck = 1;
    let id_bird = 2;
    let id_swimmer = 3;
    let id_fish = 4;

    let x = var(id_x);
    let duck = atom(id_duck);
    let bird = atom(id_bird);
    let swimmer = atom(id_swimmer);
    let fish = atom(id_fish);

    let rule = Term::Compound(
        Operator::Conjunction,
        vec![
            Term::Compound(Operator::Inheritance, vec![x.clone(), bird.clone()]),
            Term::Compound(Operator::Inheritance, vec![x.clone(), swimmer.clone()]),
        ],
    );

    let fact = Term::Compound(
        Operator::Conjunction,
        vec![
            Term::Compound(Operator::Inheritance, vec![duck.clone(), bird.clone()]),
            Term::Compound(Operator::Inheritance, vec![duck.clone(), swimmer.clone()]),
        ],
    );

    let bindings = unify(&rule, &fact);

    assert!(bindings.is_some(), "Unification failed");
    let bindings = bindings.unwrap();

    assert_eq!(bindings.get(&x), Some(&duck), "Binding mismatch for $x");
    assert_eq!(bindings.len(), 1, "Too many bindings");

    let fact_neg = Term::Compound(
        Operator::Conjunction,
        vec![
            Term::Compound(Operator::Inheritance, vec![duck.clone(), bird.clone()]),
            Term::Compound(Operator::Inheritance, vec![fish.clone(), swimmer.clone()]),
        ],
    );

    let bindings_neg = unify(&rule, &fact_neg);
    assert!(
        bindings_neg.is_none(),
        "Unification should have failed for negative test"
    );
}

#[test]
fn test_deduction_exact_fixed_point() {
    let v1 = TruthValue::new(UNIT, 900_000);
    let v2 = TruthValue::new(UNIT, 900_000);
    let result = truth::deduction(v1, v2);
    assert_eq!(result.frequency, 1_000_000);
    assert_eq!(result.confidence, 810_000);
}

#[test]
fn test_revision_symmetric() {
    let a = TruthValue::new(750_000, 600_000);
    let b = TruthValue::new(250_000, 900_000);
    let r1 = truth::revision(a, b);
    let r2 = truth::revision(b, a);
    assert_eq!(r1.frequency, r2.frequency);
    assert_eq!(r1.confidence, r2.confidence);
}

#[test]
fn test_negation_and_union() {
    let v = TruthValue::new(300_000, 800_000);
    let n = truth::negation(v);
    assert_eq!(n.frequency, 700_000);
    assert_eq!(n.confidence, 800_000);

    let a = TruthValue::new(500_000, 400_000);
    let b = TruthValue::new(500_000, 500_000);
    let u = truth::union(a, b);
    // 1 - (1 - 0.5)(1 - 0.5) = 0.75; 0.4 * 0.5 = 0.2
    assert_eq!(u.frequency, 750_000);
    assert_eq!(u.confidence, 200_000);
}

#[test]
fn test_conversion_value() {
    let v = TruthValue::new(UNIT, 900_000);
    let c = truth::conversion(v);
    // w = 0.9; c = 0.9 / 1.9
    assert_eq!(c.frequency, UNIT);
    assert_eq!(c.confidence, 900_000u64 * UNIT / 1_900_000);
}

#[test]
fn test_unify_variable_chain() {
    // unifying <$x --> bird> against <$y --> bird> binds one variable to
    // the other
    let x = Term::Var(VarType::Independent, 10);
    let y = Term::Var(VarType::Independent, 11);
    let bird = Term::Atom(2);
    let left = Term::Compound(Operator::Inheritance, vec![x.clone(), bird.clone()]);
    let right = Term::Compound(Operator::Inheritance, vec![y.clone(), bird.clone()]);
    let bindings = unify(&left, &right).expect("var-var unification should succeed");
    assert_eq!(bindings.len(), 1);
}

#[test]
fn test_unify_operator_mismatch() {
    let a = Term::Compound(Operator::Inheritance, vec![Term::Atom(1), Term::Atom(2)]);
    let b = Term::Compound(Operator::Similarity, vec![Term::Atom(1), Term::Atom(2)]);
    assert!(unify(&a, &b).is_none());
}

#[test]
fn test_unify_arity_mismatch() {
    let a = Term::Compound(Operator::Product, vec![Term::Atom(1), Term::Atom(2)]);
    let b = Term::Compound(Operator::Product, vec![Term::Atom(1)]);
    assert!(unify(&a, &b).is_none());
}

#[test]
fn test_substitute_applies_bindings() {
    let x = Term::Var(VarType::Independent, 100);
    let duck = Term::Atom(1);
    let bird = Term::Atom(2);
    let pattern = Term::Compound(Operator::Inheritance, vec![x.clone(), bird.clone()]);
    let fact = Term::Compound(Operator::Inheritance, vec![duck.clone(), bird.clone()]);
    let bindings = unify(&pattern, &fact).unwrap();
    let substituted = hybrid_nars::unify::substitute(&pattern, &bindings);
    assert!(hybrid_nars::term::terms_match(&substituted, &fact));
}

#[test]
fn test_atom_from_str_deterministic() {
    let a = Term::atom_from_str("cat");
    let b = Term::atom_from_str("cat");
    let c = Term::atom_from_str("dog");
    assert!(hybrid_nars::term::terms_match(&a, &b));
    assert!(!hybrid_nars::term::terms_match(&a, &c));
}
