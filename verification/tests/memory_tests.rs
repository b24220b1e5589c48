use hybrid_nars::hyper::Hypervector;
use hybrid_nars::scale::UNIT;
use hybrid_nars::term::{Operator, Term};

#[test]
fn test_semantic_accumulation() {
    // 1. Create two random vectors: Tiger and Feline
    let mut tiger = Hypervector::random();
    let feline = Hypervector::random();

    // 2. Assert similarity is approx 0.5 (random orthogonality)
    let initial_sim = tiger.similarity(&feline) as f64 / UNIT as f64;
    println!("Initial Similarity: {}", initial_sim);
    assert!(
        (initial_sim - 0.5).abs() < 0.1,
        "Random vectors should be approx orthogonal (0.5 similarity)"
    );

    // 3. Update Tiger with Feline (simulating <Tiger --> Feline>)
    // Using a weight of 0.5 (so k=5 copies of Feline vs 1 copy of Tiger)
    tiger.update(&feline, 500_000);

    // 4. Assert similarity has increased significantly
    let new_sim = tiger.similarity(&feline) as f64 / UNIT as f64;
    println!("New Similarity: {}", new_sim);
    assert!(
        new_sim > initial_sim + 0.1,
        "Similarity should increase after update"
    );
    assert!(new_sim > 0.6, "Similarity should be significant");
}

#[test]
fn test_bind_inverse() {
    let a = Hypervector::random();
    let b = Hypervector::random();

    let bound = a.bind(&b);
    let unbound = bound.bind(&b); // XOR is its own inverse

    assert_eq!(a, unbound, "XOR binding should be reversible");
}

#[test]
fn test_bundle_majority() {
    let a = Hypervector::random();
    let b = Hypervector::random();
    let c = Hypervector::random();

    // Create a bundle where 'a' appears 3 times, 'b' 1 time, 'c' 1 time.
    // 'a' should dominate.
    let inputs = vec![a.clone(), a.clone(), a.clone(), b.clone(), c];
    let bundled = Hypervector::bundle(&inputs);

    let sim_a = bundled.similarity(&a) as f64 / UNIT as f64;
    let sim_b = bundled.similarity(&b) as f64 / UNIT as f64;

    assert!(
        sim_a > sim_b,
        "Majority element should be more similar to bundle"
    );
    assert!(sim_a > 0.8, "Bundle should be very similar to dominant element");
}

#[test]
fn test_similarity_self_and_symmetry() {
    let v = Hypervector::random();
    let w = Hypervector::random();
    assert_eq!(v.similarity(&v), UNIT);
    assert_eq!(w.similarity(&w), UNIT);
    assert_eq!(v.similarity(&w), w.similarity(&v));
}

#[test]
fn test_strict_majority_bundle_is_the_majority_element() {
    // with a strict majority the bundle equals the dominant vector exactly
    let a = Hypervector::random();
    let b = Hypervector::random();
    let inputs = vec![a.clone(), a.clone(), b, a.clone()];
    let bundled = Hypervector::bundle(&inputs);
    assert_eq!(bundled.similarity(&a), UNIT);
}

#[test]
fn test_from_term_deterministic() {
    let t = Term::Compound(
        Operator::Inheritance,
        vec![Term::atom_from_str("Tiger"), Term::atom_from_str("Feline")],
    );
    let v1 = Hypervector::from_term(&t);
    let v2 = Hypervector::from_term(&t);
    assert_eq!(v1, v2);
    assert_eq!(v1.similarity(&v2), UNIT);
}

#[test]
fn test_from_term_distinguishes_terms() {
    let a = Hypervector::from_term(&Term::atom_from_str("Tiger"));
    let b = Hypervector::from_term(&Term::atom_from_str("Feline"));
    assert!(a != b, "distinct atoms should not share an embedding");
    let sim = a.similarity(&b) as f64 / UNIT as f64;
    assert!((sim - 0.5).abs() < 0.1);
}

#[test]
fn test_update_zero_weight_is_noop() {
    let mut a = Hypervector::random();
    let b = Hypervector::random();
    let before = a.clone();
    // weight 0.04 rounds to zero copies
    a.update(&b, 40_000);
    assert_eq!(a, before);
}

#[test]
fn test_empty_is_all_zero() {
    let z = Hypervector::empty();
    let z2 = Hypervector::empty();
    assert_eq!(z, z2);
    assert_eq!(z.similarity(&z2), UNIT);
}
