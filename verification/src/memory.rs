//! Concepts and the bounded concept store.
//!
//! A concept is the per-term memory record. The store maps terms to
//! concepts under a fixed capacity, mirroring each concept's scheduling
//! utility in an internal bag whose weakest entry is evicted when the store
//! would overflow.

use vstd::prelude::*;
use crate::bag::{has_item, is_weakest_index, level_of, Bag};
use vstd::pervasive::unreached;
use crate::hyper::Hypervector;
use crate::scale::{is_unit, s_clamp, s_mul, unit_clamp, unit_mul};
use crate::sentence::{Sentence, SentenceModel, Stamp, StampModel};
use crate::term::{terms_match, Term, TermModel};
use crate::truth::TruthValue;

verus! {

broadcast use vstd::seq::group_seq_axioms, vstd::std_specs::vec::group_vec_axioms;

/// The largest number of beliefs a concept retains.
pub const BELIEF_LIMIT: usize = 100;

/// The smallest scheduling utility.
pub const UTILITY_FLOOR: u64 = 10_000;

/// The largest scheduling utility.
pub const UTILITY_CEIL: u64 = 990_000;

/// The default priority and durability of a fresh concept.
pub const DEFAULT_WEIGHT: u64 = 500_000;

/// The per-term memory record.
#[derive(Debug)]
pub struct Concept {
    pub term: Term,
    pub vector: Hypervector,
    pub priority: u64,
    pub durability: u64,
    pub truth: TruthValue,
    pub stamp: Stamp,
    pub beliefs: Vec<Sentence>,
}

/// The mathematical image of a concept.
pub struct ConceptModel {
    pub term: TermModel,
    pub vector: Seq<u64>,
    pub priority: u64,
    pub durability: u64,
    pub truth: TruthValue,
    pub stamp: StampModel,
    pub beliefs: Seq<SentenceModel>,
}

/// The images of a belief list.
pub open spec fn beliefs_model(s: Seq<Sentence>) -> Seq<SentenceModel> {
    Seq::new(s.len(), |i: int| s[i]@)
}

/// A well-formed concept image: unit weights, a valid truth value, a
/// full-width vector, a deduplicated capped stamp, and a bounded belief
/// history.
pub open spec fn concept_model_wf(c: ConceptModel) -> bool {
    &&& is_unit(c.priority)
    &&& is_unit(c.durability)
    &&& c.truth.wf()
    &&& c.vector.len() == crate::hyper::HV_WORDS
    &&& crate::sentence::no_dups(c.stamp.evidence)
    &&& c.stamp.evidence.len() <= crate::sentence::EVIDENCE_LIMIT
    &&& c.beliefs.len() <= BELIEF_LIMIT
}

impl View for Concept {
    type V = ConceptModel;

    open spec fn view(&self) -> ConceptModel {
        ConceptModel {
            term: self.term@,
            vector: self.vector@,
            priority: self.priority,
            durability: self.durability,
            truth: self.truth,
            stamp: self.stamp@,
            beliefs: beliefs_model(self.beliefs@),
        }
    }
}

/// The scheduling utility of a concept: priority times durability, clamped
/// into [0.01, 0.99].
#[verifier::opaque]
pub open spec fn spec_utility(c: ConceptModel) -> u64 {
    s_clamp(s_mul(c.priority as int, c.durability as int), UTILITY_FLOOR as int, UTILITY_CEIL as int) as u64
}

impl Clone for Concept {
    fn clone(&self) -> (r: Self)
        ensures
            r@ == self@,
    {
        let mut beliefs: Vec<Sentence> = Vec::new();
        let mut i: usize = 0;
        while i < self.beliefs.len()
            invariant
                i <= self.beliefs@.len(),
                beliefs@.len() == i,
                forall|j: int| 0 <= j < i ==> (#[trigger] beliefs@[j])@ == (self.beliefs@[j])@,
            decreases self.beliefs@.len() - i,
        {
            beliefs.push(self.beliefs[i].clone());
            i = i + 1;
        }
        proof {
            assert(beliefs_model(beliefs@) =~= beliefs_model(self.beliefs@));
        }
        Concept {
            term: self.term.clone(),
            vector: self.vector.clone(),
            priority: self.priority,
            durability: self.durability,
            truth: self.truth,
            stamp: self.stamp.clone(),
            beliefs,
        }
    }
}

impl Concept {
    /// Valid weights, truth, vector, stamp, and a bounded belief history.
    pub open spec fn wf(self) -> bool {
        concept_model_wf(self@)
    }

    /// A fresh concept with default priority and durability and no beliefs.
    pub fn new(term: Term, vector: Hypervector, truth: TruthValue, stamp: Stamp) -> (r: Concept)
        requires
            truth.wf(),
            vector.wf(),
            stamp.wf(),
        ensures
            r@.term == term@,
            r@.vector == vector@,
            r@.priority == DEFAULT_WEIGHT,
            r@.durability == DEFAULT_WEIGHT,
            r@.truth == truth,
            r@.stamp == stamp@,
            r@.beliefs.len() == 0,
            r.wf(),
    {
        let r = Concept {
            term,
            vector,
            priority: DEFAULT_WEIGHT,
            durability: DEFAULT_WEIGHT,
            truth,
            stamp,
            beliefs: Vec::new(),
        };
        proof {
            assert(r@.beliefs =~= Seq::<SentenceModel>::empty());
        }
        r
    }

    /// The concept's scheduling utility.
    pub fn utility(&self) -> (r: u64)
        requires
            is_unit(self.priority),
            is_unit(self.durability),
        ensures
            r == spec_utility(self@),
            is_unit(r),
    {
        proof {
            reveal(spec_utility);
        }
        unit_clamp(unit_mul(self.priority, self.durability), UTILITY_FLOOR, UTILITY_CEIL)
    }

    /// Append a belief, dropping the oldest first when the history is full.
    pub fn push_belief(&mut self, s: Sentence)
        requires
            old(self)@.beliefs.len() <= BELIEF_LIMIT,
        ensures
            final(self)@ == (ConceptModel {
                beliefs: final(self)@.beliefs,
                ..old(self)@
            }),
            old(self)@.beliefs.len() < BELIEF_LIMIT ==> final(self)@.beliefs =~= old(
                self,
            )@.beliefs.push(s@),
            old(self)@.beliefs.len() == BELIEF_LIMIT ==> final(self)@.beliefs =~= old(
                self,
            )@.beliefs.remove(0).push(s@),
            final(self)@.beliefs.len() <= BELIEF_LIMIT,
    {
        if self.beliefs.len() >= BELIEF_LIMIT {
            self.beliefs.remove(0);
        }
        self.beliefs.push(s);
    }
}

/// The images of the stored concepts.
pub open spec fn concepts_model(s: Seq<Concept>) -> Seq<ConceptModel> {
    Seq::new(s.len(), |i: int| s[i]@)
}

/// Whether some stored concept carries the term.
pub open spec fn has_term(s: Seq<ConceptModel>, t: TermModel) -> bool {
    exists|i: int| 0 <= i < s.len() && s[i].term == t
}

/// No two stored concepts carry the same term.
pub open spec fn distinct_terms(s: Seq<ConceptModel>) -> bool {
    forall|i: int, j: int| 0 <= i < j < s.len() ==> s[i].term != s[j].term
}

/// The bag mirrors the store: one entry per stored concept, carrying the
/// concept's term and current utility.
pub open spec fn store_sync(b: Seq<(TermModel, u64)>, s: Seq<ConceptModel>) -> bool {
    &&& b.len() == s.len()
    &&& forall|i: int|
        0 <= i < b.len() ==> exists|j: int|
            0 <= j < s.len() && (#[trigger] b[i]).0 == s[j].term && b[i].1 == spec_utility(s[j])
    &&& forall|j: int|
        0 <= j < s.len() ==> exists|i: int|
            0 <= i < b.len() && b[i].0 == (#[trigger] s[j]).term && b[i].1 == spec_utility(s[j])
}

/// No two bag entries share a key.
pub open spec fn distinct_bag(b: Seq<(TermModel, u64)>) -> bool {
    crate::bag::distinct_items(b)
}

/// Replacing a concept and refreshing its bag entry keeps the mirror.
#[verifier::rlimit(100)]
proof fn lemma_sync_replace(
    b: Seq<(TermModel, u64)>,
    s: Seq<ConceptModel>,
    i: int,
    k: int,
    c: ConceptModel,
)
    requires
        store_sync(b, s),
        distinct_terms(s),
        distinct_bag(b),
        0 <= i < s.len(),
        0 <= k < b.len(),
        s[i].term == c.term,
        b[k].0 == c.term,
    ensures
        store_sync(b.remove(k).push((c.term, spec_utility(c))), s.update(i, c)),
{
    let b2 = b.remove(k).push((c.term, spec_utility(c)));
    let s2 = s.update(i, c);
    assert(b2.len() == s2.len());
    assert forall|m: int| 0 <= m < b2.len() implies exists|j: int|
        0 <= j < s2.len() && (#[trigger] b2[m]).0 == s2[j].term && b2[m].1 == spec_utility(
            s2[j],
        ) by {
        if m == b2.len() - 1 {
            assert(b2[m] == (c.term, spec_utility(c)));
            assert(s2[i].term == c.term && spec_utility(s2[i]) == spec_utility(c));
        } else {
            let mo = if m < k {
                m
            } else {
                m + 1
            };
            assert(b2[m] == b[mo]);
            assert(mo != k);
            assert(b[mo].0 != b[k].0);
            let j = choose|j: int|
                0 <= j < s.len() && b[mo].0 == s[j].term && b[mo].1 == spec_utility(s[j]);
            assert(s[j].term != c.term);
            assert(j != i);
            assert(s2[j] == s[j]);
        }
    }
    assert forall|j: int| 0 <= j < s2.len() implies exists|m: int|
        0 <= m < b2.len() && b2[m].0 == (#[trigger] s2[j]).term && b2[m].1 == spec_utility(
            s2[j],
        ) by {
        if j == i {
            assert(b2[b2.len() - 1] == (c.term, spec_utility(c)));
        } else {
            assert(s2[j] == s[j]);
            assert(s[j].term != s[i].term);
            let m = choose|m: int|
                0 <= m < b.len() && b[m].0 == s[j].term && b[m].1 == spec_utility(s[j]);
            assert(m != k);
            let m2 = if m < k {
                m
            } else {
                m - 1
            };
            assert(b2[m2] == b[m]);
        }
    }
}

/// Removing a concept together with its bag entry keeps the mirror.
#[verifier::rlimit(100)]
proof fn lemma_sync_remove(
    b: Seq<(TermModel, u64)>,
    s: Seq<ConceptModel>,
    i: int,
    k: int,
)
    requires
        store_sync(b, s),
        distinct_terms(s),
        distinct_bag(b),
        0 <= i < s.len(),
        0 <= k < b.len(),
        b[k].0 == s[i].term,
    ensures
        store_sync(b.remove(k), s.remove(i)),
{
    let b2 = b.remove(k);
    let s2 = s.remove(i);
    assert(b2.len() == s2.len());
    assert forall|m: int| 0 <= m < b2.len() implies exists|j: int|
        0 <= j < s2.len() && (#[trigger] b2[m]).0 == s2[j].term && b2[m].1 == spec_utility(
            s2[j],
        ) by {
        let mo = if m < k {
            m
        } else {
            m + 1
        };
        assert(b2[m] == b[mo]);
        assert(mo != k);
        assert(b[mo].0 != b[k].0);
        let j = choose|j: int|
            0 <= j < s.len() && b[mo].0 == s[j].term && b[mo].1 == spec_utility(s[j]);
        assert(s[j].term != s[i].term);
        assert(j != i);
        let j2 = if j < i {
            j
        } else {
            j - 1
        };
        assert(s2[j2] == s[j]);
    }
    assert forall|j: int| 0 <= j < s2.len() implies exists|m: int|
        0 <= m < b2.len() && b2[m].0 == (#[trigger] s2[j]).term && b2[m].1 == spec_utility(
            s2[j],
        ) by {
        let jo = if j < i {
            j
        } else {
            j + 1
        };
        assert(s2[j] == s[jo]);
        assert(jo != i);
        assert(s[jo].term != s[i].term);
        let m = choose|m: int|
            0 <= m < b.len() && b[m].0 == s[jo].term && b[m].1 == spec_utility(s[jo]);
        assert(b[m].0 != b[k].0);
        assert(m != k);
        let m2 = if m < k {
            m
        } else {
            m - 1
        };
        assert(b2[m2] == b[m]);
    }
}

/// Appending a fresh concept and its bag entry keeps the mirror.
#[verifier::rlimit(100)]
proof fn lemma_sync_push(b: Seq<(TermModel, u64)>, s: Seq<ConceptModel>, c: ConceptModel)
    requires
        store_sync(b, s),
    ensures
        store_sync(b.push((c.term, spec_utility(c))), s.push(c)),
{
    let b2 = b.push((c.term, spec_utility(c)));
    let s2 = s.push(c);
    assert forall|m: int| 0 <= m < b2.len() implies exists|j: int|
        0 <= j < s2.len() && (#[trigger] b2[m]).0 == s2[j].term && b2[m].1 == spec_utility(
            s2[j],
        ) by {
        if m == b2.len() - 1 {
            assert(b2[m] == (c.term, spec_utility(c)));
            assert(s2[s2.len() - 1] == c);
        } else {
            let j = choose|j: int|
                0 <= j < s.len() && b[m].0 == s[j].term && b[m].1 == spec_utility(s[j]);
            assert(b2[m] == b[m]);
            assert(s2[j] == s[j]);
        }
    }
    assert forall|j: int| 0 <= j < s2.len() implies exists|m: int|
        0 <= m < b2.len() && b2[m].0 == (#[trigger] s2[j]).term && b2[m].1 == spec_utility(
            s2[j],
        ) by {
        if j == s2.len() - 1 {
            assert(b2[b2.len() - 1] == (c.term, spec_utility(c)));
        } else {
            let m = choose|m: int|
                0 <= m < b.len() && b[m].0 == s[j].term && b[m].1 == spec_utility(s[j]);
            assert(b2[m] == b[m]);
        }
    }
}

/// A capacity-bounded map from terms to concepts, with an internal bag
/// mirroring each concept's utility for the forgetting policy.
#[derive(Debug)]
pub struct ConceptStore {
    concepts: Vec<Concept>,
    bag: Bag,
    capacity: usize,
}

impl View for ConceptStore {
    type V = Seq<ConceptModel>;

    closed spec fn view(&self) -> Seq<ConceptModel> {
        concepts_model(self.concepts@)
    }
}

impl ConceptStore {
    /// The configured capacity.
    pub closed spec fn spec_capacity(self) -> int {
        self.capacity as int
    }

    /// The internal bag's entries.
    pub closed spec fn bag_view(self) -> Seq<(TermModel, u64)> {
        self.bag@
    }

    /// Distinct terms, well-formed concepts, the capacity respected, and
    /// the bag mirroring the stored concepts.
    pub open spec fn wf(self) -> bool {
        &&& distinct_terms(self@)
        &&& forall|i: int| 0 <= i < self@.len() ==> concept_model_wf(#[trigger] self@[i])
        &&& self@.len() <= self.spec_capacity()
        &&& self.spec_capacity() >= 1
        &&& self.bag_wf()
        &&& store_sync(self.bag_view(), self@)
    }

    /// The internal bag is well-formed with the store's capacity.
    pub closed spec fn bag_wf(self) -> bool {
        self.bag.wf() && self.bag.spec_capacity() == self.capacity as int
    }

    /// An empty store of the given capacity.
    pub fn new(capacity: usize) -> (r: ConceptStore)
        requires
            capacity >= 1,
        ensures
            r@ =~= Seq::<ConceptModel>::empty(),
            r.spec_capacity() == capacity,
            r.wf(),
    {
        let r = ConceptStore { concepts: Vec::new(), bag: Bag::new(capacity), capacity };
        proof {
            assert(r@ =~= Seq::<ConceptModel>::empty());
        }
        r
    }

    /// How many concepts are stored.
    pub fn len(&self) -> (r: usize)
        ensures
            r == self@.len(),
    {
        self.concepts.len()
    }

    /// The index of the concept carrying `term`, if any.
    pub fn find_index(&self, term: &Term) -> (r: Option<usize>)
        ensures
            match r {
                Some(i) => 0 <= i < self@.len() && self@[i as int].term == term@,
                None => !has_term(self@, term@),
            },
    {
        let mut i: usize = 0;
        while i < self.concepts.len()
            invariant
                i <= self.concepts@.len(),
                forall|j: int| 0 <= j < i ==> (#[trigger] self.concepts@[j].term)@ != term@,
            decreases self.concepts@.len() - i,
        {
            if terms_match(&self.concepts[i].term, term) {
                return Some(i);
            }
            i = i + 1;
        }
        proof {
            if has_term(self@, term@) {
                let j = choose|j: int| 0 <= j < self@.len() && self@[j].term == term@;
            }
        }
        None
    }

    /// The concept at a known index.
    pub fn concept_at(&self, i: usize) -> (r: &Concept)
        requires
            i < self@.len(),
        ensures
            r@ == self@[i as int],
    {
        &self.concepts[i]
    }

    /// A clone of the concept carrying `term`, if any.
    pub fn get(&self, term: &Term) -> (r: Option<Concept>)
        ensures
            match r {
                Some(c) => has_term(self@, term@) && exists|i: int|
                    0 <= i < self@.len() && self@[i].term == term@ && c@ == self@[i],
                None => !has_term(self@, term@),
            },
    {
        match self.find_index(term) {
            Some(i) => Some(self.concepts[i].clone()),
            None => None,
        }
    }

    /// Insert or replace the concept for its term. A new term beyond the
    /// capacity first evicts a stored concept of minimal utility level; the
    /// store never exceeds its capacity.
    #[verifier::rlimit(100)]
    pub fn put(&mut self, concept: Concept)
        requires
            old(self).wf(),
            concept.wf(),
        ensures
            final(self).wf(),
            final(self).spec_capacity() == old(self).spec_capacity(),
            final(self)@.len() <= old(self).spec_capacity(),
            has_term(final(self)@, concept@.term),
            has_term(old(self)@, concept@.term) ==> exists|i: int|
                0 <= i < old(self)@.len() && old(self)@[i].term == concept@.term && final(self)@
                    =~= old(self)@.update(i, concept@),
            !has_term(old(self)@, concept@.term) && old(self)@.len() < old(self).spec_capacity()
                ==> final(self)@ =~= old(self)@.push(concept@),
            !has_term(old(self)@, concept@.term) && old(self)@.len() == old(self).spec_capacity()
                ==> exists|i: int|
                {
                    &&& 0 <= i < old(self)@.len()
                    &&& forall|j: int|
                        0 <= j < old(self)@.len() ==> level_of(
                            spec_utility(old(self)@[i]),
                        ) <= level_of(spec_utility(#[trigger] old(self)@[j]))
                    &&& final(self)@ =~= old(self)@.remove(i).push(concept@)
                },
    {
        let ghost s0 = self@;
        let ghost b0 = self.bag_view();
        let ghost cm = concept@;
        let term = concept.term.clone();
        let u = concept.utility();
        match self.find_index(&term) {
            Some(i) => {
                self.concepts[i] = concept;
                proof {
                    assert(self@ =~= s0.update(i as int, cm));
                    assert(has_item(b0, cm.term)) by {
                        let m = choose|m: int|
                            0 <= m < b0.len() && b0[m].0 == s0[i as int].term && b0[m].1
                                == spec_utility(s0[i as int]);
                    }
                }
                self.bag.put(term, u);
                proof {
                    let k = choose|k: int|
                        0 <= k < b0.len() && b0[k].0 == cm.term && self.bag_view() =~= b0.remove(
                            k,
                        ).push((cm.term, u));
                    lemma_sync_replace(b0, s0, i as int, k, cm);
                    assert(distinct_terms(self@)) by {
                        assert forall|a: int, b: int|
                            0 <= a < b < self@.len() implies self@[a].term != self@[b].term by {
                            assert(s0[a].term == if a == i as int {
                                cm.term
                            } else {
                                self@[a].term
                            });
                        }
                    }
                }
            },
            None => {
                if self.concepts.len() >= self.capacity {
                    let _evicted = self.evict_weakest();
                }
                let ghost s1 = self@;
                let ghost b1 = self.bag_view();
                proof {
                    assert(!has_term(s1, cm.term)) by {
                        if has_term(s1, cm.term) {
                            let j = choose|j: int| 0 <= j < s1.len() && s1[j].term == cm.term;
                        }
                    }
                    assert(!has_item(b1, cm.term)) by {
                        if has_item(b1, cm.term) {
                            let m = choose|m: int| 0 <= m < b1.len() && b1[m].0 == cm.term;
                            let j = choose|j: int|
                                0 <= j < s1.len() && b1[m].0 == s1[j].term && b1[m].1
                                    == spec_utility(s1[j]);
                        }
                    }
                }
                self.concepts.push(concept);
                self.bag.put(term, u);
                proof {
                    assert(self@ =~= s1.push(cm));
                    assert(self.bag_view() =~= b1.push((cm.term, u)));
                    lemma_sync_push(b1, s1, cm);
                    assert(distinct_terms(self@)) by {
                        assert forall|a: int, b: int|
                            0 <= a < b < self@.len() implies self@[a].term != self@[b].term by {
                            if b == self@.len() - 1 {
                                assert(!has_term(s1, cm.term));
                                assert(s1[a].term != cm.term);
                            }
                        }
                    }
                    assert(has_term(self@, cm.term)) by {
                        assert(self@[self@.len() - 1].term == cm.term);
                    }
                }
            },
        }
    }

    /// Remove the stored concept whose bag entry is weakest: a concept of
    /// minimal utility level.
    #[verifier::rlimit(100)]
    fn evict_weakest(&mut self) -> (r: Term)
        requires
            old(self).wf(),
            old(self)@.len() > 0,
        ensures
            final(self).wf(),
            final(self).spec_capacity() == old(self).spec_capacity(),
            final(self)@.len() == old(self)@.len() - 1,
            exists|i: int|
                {
                    &&& 0 <= i < old(self)@.len()
                    &&& old(self)@[i].term == r@
                    &&& forall|j: int|
                        0 <= j < old(self)@.len() ==> level_of(
                            spec_utility(old(self)@[i]),
                        ) <= level_of(spec_utility(#[trigger] old(self)@[j]))
                    &&& final(self)@ =~= old(self)@.remove(i)
                },
            forall|t: TermModel| has_term(final(self)@, t) ==> has_term(old(self)@, t),
    {
        let ghost s0 = self@;
        let ghost b0 = self.bag_view();
        let taken = self.bag.take_weakest();
        let t = match taken {
            Some(t) => t,
            None => unreached(),
        };
        let ghost bi = choose|bi: int|
            is_weakest_index(b0, bi) && b0[bi].0 == t@ && self.bag_view() =~= b0.remove(bi);
        let found = self.find_index(&t);
        proof {
            let j0 = choose|j: int|
                0 <= j < s0.len() && b0[bi as int].0 == s0[j].term && b0[bi as int].1
                    == spec_utility(s0[j]);
            assert(has_term(s0, t@));
        }
        let i = match found {
            Some(i) => i,
            None => unreached(),
        };
        self.concepts.remove(i);
        proof {
            assert(self@ =~= s0.remove(i as int));
            lemma_sync_remove(b0, s0, i as int, bi);
            assert(distinct_terms(self@)) by {
                assert forall|a: int, b: int|
                    0 <= a < b < self@.len() implies self@[a].term != self@[b].term by {
                    let ao = if a < i as int {
                        a
                    } else {
                        a + 1
                    };
                    let bo = if b < i as int {
                        b
                    } else {
                        b + 1
                    };
                    assert(self@[a] == s0[ao] && self@[b] == s0[bo]);
                }
            }
            // the evicted concept's utility level is minimal
            assert(forall|j: int|
                0 <= j < s0.len() ==> level_of(spec_utility(s0[i as int])) <= level_of(
                    spec_utility(#[trigger] s0[j]),
                )) by {
                // the bag entry at bi carries exactly this concept's utility
                let mi = choose|m: int|
                    0 <= m < b0.len() && b0[m].0 == s0[i as int].term && b0[m].1 == spec_utility(
                        s0[i as int],
                    );
                assert(b0[mi].0 == b0[bi].0);
                assert(mi == bi) by {
                    if mi != bi {
                        assert(b0[mi].0 != b0[bi].0);
                    }
                }
                assert forall|j: int| 0 <= j < s0.len() implies level_of(
                    spec_utility(s0[i as int]),
                ) <= level_of(spec_utility(#[trigger] s0[j])) by {
                    let mj = choose|m: int|
                        0 <= m < b0.len() && b0[m].0 == s0[j].term && b0[m].1 == spec_utility(
                            s0[j],
                        );
                    assert(level_of(b0[mj].1) >= level_of(b0[bi].1));
                }
            }
            assert forall|tt: TermModel| has_term(self@, tt) implies has_term(s0, tt) by {
                let a = choose|a: int| 0 <= a < self@.len() && self@[a].term == tt;
                let ao = if a < i as int {
                    a
                } else {
                    a + 1
                };
                assert(s0[ao] == self@[a]);
            }
        }
        t
    }
}

} // verus!
