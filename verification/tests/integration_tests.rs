use hybrid_nars::hyper::Hypervector;
use hybrid_nars::memory::Concept;
use hybrid_nars::sentence::{Punctuation, Sentence, Stamp};
use hybrid_nars::system::NarsSystem;
use hybrid_nars::term::{terms_match, Operator, Term};
use hybrid_nars::truth::TruthValue;

fn inheritance(subject: &Term, predicate: &Term) -> Term {
    Term::Compound(
        Operator::Inheritance,
        vec![subject.clone(), predicate.clone()],
    )
}

#[test]
fn test_integration_deduction() {
    // 1. Initialize the system with a low threshold to ensure association
    let mut system = NarsSystem::new(100_000, 400_000);

    let tiger = Term::atom_from_str("Tiger");
    let feline = Term::atom_from_str("Feline");
    let animal = Term::atom_from_str("Animal");

    // <Tiger --> Feline> and <Feline --> Animal>: the two statements share
    // the Feline vector, so their embeddings associate
    let tiger_is_feline = inheritance(&tiger, &feline);
    let feline_is_animal = inheritance(&feline, &animal);

    let c1 = Concept::new(
        tiger_is_feline.clone(),
        Hypervector::from_term(&tiger_is_feline),
        TruthValue::new(1_000_000, 900_000),
        Stamp::new(0, vec![1]),
    );
    let c2 = Concept::new(
        feline_is_animal.clone(),
        Hypervector::from_term(&feline_is_animal),
        TruthValue::new(1_000_000, 900_000),
        Stamp::new(0, vec![2]),
    );
    system.add_concept(c1);
    system.add_concept(c2);

    for _ in 0..5 {
        system.cycle();
    }
    assert!(system.concept_count() >= 2);
}

#[test]
fn test_end_to_end_derives_tiger_animal() {
    let mut system = NarsSystem::new(100_000, 400_000);

    let tiger = Term::atom_from_str("Tiger");
    let feline = Term::atom_from_str("Feline");
    let animal = Term::atom_from_str("Animal");

    let tiger_is_feline = inheritance(&tiger, &feline);
    let feline_is_animal = inheritance(&feline, &animal);
    let tiger_is_animal = inheritance(&tiger, &animal);

    let t1 = TruthValue::new(1_000_000, 900_000);
    let t2 = TruthValue::new(900_000, 800_000);

    system.add_concept(Concept::new(
        feline_is_animal.clone(),
        Hypervector::from_term(&feline_is_animal),
        t1,
        Stamp::new(0, vec![1]),
    ));
    system.add_concept(Concept::new(
        tiger_is_feline.clone(),
        Hypervector::from_term(&tiger_is_feline),
        t2,
        Stamp::new(0, vec![2]),
    ));

    // the expected truth is deduction applied to the two premises
    let expected = hybrid_nars::truth::deduction(t1, t2);

    let mut found = false;
    for _ in 0..20 {
        system.cycle();
        for sentence in system.drain_outputs() {
            if terms_match(&sentence.term, &tiger_is_animal)
                && sentence.truth.frequency == expected.frequency
                && sentence.truth.confidence == expected.confidence
            {
                found = true;
            }
        }
        if found {
            break;
        }
    }
    assert!(
        found,
        "the engine should derive the deduced statement with its deduced truth"
    );
}

#[test]
fn test_reason_blocked_by_shared_evidence() {
    let mut system = NarsSystem::new(100_000, 400_000);

    let tiger = Term::atom_from_str("Tiger");
    let feline = Term::atom_from_str("Feline");
    let animal = Term::atom_from_str("Animal");
    let tiger_is_feline = inheritance(&tiger, &feline);
    let feline_is_animal = inheritance(&feline, &animal);

    // both premises rest on the same evidence ID: firing would let a belief
    // support itself
    let a = Concept::new(
        feline_is_animal.clone(),
        Hypervector::from_term(&feline_is_animal),
        TruthValue::new(1_000_000, 900_000),
        Stamp::new(0, vec![7]),
    );
    let b = Concept::new(
        tiger_is_feline.clone(),
        Hypervector::from_term(&tiger_is_feline),
        TruthValue::new(1_000_000, 900_000),
        Stamp::new(0, vec![7]),
    );
    system.reason(&a, &b);
    assert_eq!(system.drain_outputs().len(), 0);
}

#[test]
fn test_input_and_revision_emits_revised_sentence() {
    let mut system = NarsSystem::new(100_000, 400_000);
    let term = Term::atom_from_str("sky-is-blue");
    let s1 = Sentence::new(
        term.clone(),
        Punctuation::Judgement,
        TruthValue::new(1_000_000, 900_000),
        Stamp::new(0, vec![1]),
    );
    let s2 = Sentence::new(
        term.clone(),
        Punctuation::Judgement,
        TruthValue::new(0, 900_000),
        Stamp::new(1, vec![2]),
    );
    system.input(s1);
    assert_eq!(system.drain_outputs().len(), 0);
    system.input(s2);
    let outputs = system.drain_outputs();
    assert_eq!(outputs.len(), 1);
    assert!(terms_match(&outputs[0].term, &term));
    let expected = hybrid_nars::truth::revision(
        TruthValue::new(1_000_000, 900_000),
        TruthValue::new(0, 900_000),
    );
    assert_eq!(outputs[0].truth.frequency, expected.frequency);
    assert_eq!(outputs[0].truth.confidence, expected.confidence);
}

#[test]
fn test_answer_returns_highest_confidence_belief() {
    let mut system = NarsSystem::new(100_000, 400_000);
    let term = Term::atom_from_str("grass-is-green");
    system.input(Sentence::new(
        term.clone(),
        Punctuation::Judgement,
        TruthValue::new(1_000_000, 500_000),
        Stamp::new(0, vec![1]),
    ));
    system.input(Sentence::new(
        term.clone(),
        Punctuation::Judgement,
        TruthValue::new(900_000, 700_000),
        Stamp::new(1, vec![2]),
    ));
    let answer = system.answer(&term).expect("a belief should qualify");
    assert!(terms_match(&answer.term, &term));
    assert!(answer.truth.confidence > 10_000);

    let unknown = Term::atom_from_str("unheard-of");
    assert!(system.answer(&unknown).is_none());
}

#[test]
fn test_default_rules_loaded() {
    let system = NarsSystem::new(100_000, 500_000);
    assert_eq!(system.rule_count(), 3);
    assert_eq!(system.concept_count(), 0);
}
