use hybrid_nars::bag::Bag;
use hybrid_nars::hyper::Hypervector;
use hybrid_nars::memory::{Concept, ConceptStore};
use hybrid_nars::sentence::Stamp;
use hybrid_nars::term::Term;
use hybrid_nars::truth::TruthValue;

fn concept_with(term_id: u64, priority: u64) -> Concept {
    let mut c = Concept::new(
        Term::Atom(term_id),
        Hypervector::random(),
        TruthValue::new(1_000_000, 900_000),
        Stamp::new(0, vec![term_id]),
    );
    c.priority = priority;
    c
}

#[test]
fn test_bag_put_update_keeps_count() {
    let mut bag = Bag::new(10);
    bag.put(Term::Atom(1), 500_000);
    bag.put(Term::Atom(2), 300_000);
    assert_eq!(bag.count(), 2);
    // re-inserting an existing item moves it to a new level without
    // changing the count
    bag.put(Term::Atom(1), 900_000);
    assert_eq!(bag.count(), 2);
}

#[test]
fn test_bag_take_weakest_takes_lowest_level() {
    let mut bag = Bag::new(10);
    bag.put(Term::Atom(1), 900_000);
    bag.put(Term::Atom(2), 100_000);
    bag.put(Term::Atom(3), 500_000);
    let weakest = bag.take_weakest().expect("bag is non-empty");
    assert!(hybrid_nars::term::terms_match(&weakest, &Term::Atom(2)));
    assert_eq!(bag.count(), 2);
}

#[test]
fn test_bag_take_always_yields_from_nonempty() {
    let mut bag = Bag::new(10);
    bag.put(Term::Atom(7), 10_000);
    let taken = bag.take();
    assert!(taken.is_some(), "a non-empty bag never starves");
    assert_eq!(bag.count(), 0);
    assert!(bag.take().is_none());
}

#[test]
fn test_bag_eviction_at_capacity() {
    let mut bag = Bag::new(2);
    bag.put(Term::Atom(1), 900_000);
    bag.put(Term::Atom(2), 100_000);
    bag.put(Term::Atom(3), 500_000);
    assert_eq!(bag.count(), 2);
}

#[test]
fn test_store_capacity_and_eviction() {
    let mut store = ConceptStore::new(2);
    store.put(concept_with(1, 900_000));
    store.put(concept_with(2, 100_000));
    assert_eq!(store.len(), 2);
    // a third distinct term evicts exactly one concept: the lowest-utility
    // one (term 2)
    store.put(concept_with(3, 500_000));
    assert_eq!(store.len(), 2);
    assert!(store.get(&Term::Atom(1)).is_some());
    assert!(store.get(&Term::Atom(2)).is_none());
    assert!(store.get(&Term::Atom(3)).is_some());
}

#[test]
fn test_store_replace_keeps_len() {
    let mut store = ConceptStore::new(2);
    store.put(concept_with(1, 900_000));
    store.put(concept_with(1, 200_000));
    assert_eq!(store.len(), 1);
    let c = store.get(&Term::Atom(1)).unwrap();
    assert_eq!(c.priority, 200_000);
}

#[test]
fn test_stamp_overlaps_symmetric() {
    let a = Stamp::new(0, vec![1, 2, 3]);
    let b = Stamp::new(0, vec![3, 4]);
    let c = Stamp::new(0, vec![7, 8]);
    assert!(a.overlaps(&b));
    assert!(b.overlaps(&a));
    assert!(!a.overlaps(&c));
    assert!(!c.overlaps(&a));
}

#[test]
fn test_stamp_merge_dedups() {
    let a = Stamp::new(0, vec![1, 2, 3]);
    let b = Stamp::new(0, vec![2, 3, 4]);
    let merged = a.merge(&b);
    assert_eq!(merged.evidence, vec![1, 2, 3, 4]);
}

#[test]
fn test_stamp_merge_caps_at_limit() {
    let mut first: Vec<u64> = Vec::new();
    for i in 0..80 {
        first.push(i);
    }
    let mut second: Vec<u64> = Vec::new();
    for i in 80..150 {
        second.push(i);
    }
    let a = Stamp::new(0, first);
    let b = Stamp::new(0, second);
    let merged = a.merge(&b);
    assert_eq!(merged.evidence.len(), 100);
    // the oldest entries are dropped first
    assert_eq!(merged.evidence[0], 50);
    assert_eq!(merged.evidence[99], 149);
    for i in 0..merged.evidence.len() {
        for j in (i + 1)..merged.evidence.len() {
            assert_ne!(merged.evidence[i], merged.evidence[j]);
        }
    }
}

#[test]
fn test_concept_belief_history_bounded() {
    let mut c = concept_with(1, 500_000);
    for i in 0..150u64 {
        let s = hybrid_nars::sentence::Sentence::new(
            Term::Atom(1),
            hybrid_nars::sentence::Punctuation::Judgement,
            TruthValue::new(1_000_000, 900_000),
            Stamp::new(i, vec![i]),
        );
        c.push_belief(s);
    }
    assert_eq!(c.beliefs.len(), 100);
    // the oldest beliefs were dropped
    assert_eq!(c.beliefs[0].stamp.creation_time, 50);
}
