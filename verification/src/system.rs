//! The control loop: one engine owning a concept store, a rule table and an
//! attention bag, advancing only through explicit `cycle` calls.
//!
//! A cycle selects a term from attention, samples a bounded prefix of the
//! store for partners, associates with those above the similarity
//! threshold, fires the two-premise rules in both orders, applies Hebbian
//! vector updates, and finally attempts every one-premise rule against the
//! selected concept. Reads are gathered on cloned snapshots first; all
//! mutation goes through the store afterwards.

use vstd::prelude::*;
use crate::bag::Bag;
use crate::hyper::{Hypervector, HV_WORDS};
use crate::bag::{has_item, level_of};
use crate::memory::{
    beliefs_model, concept_model_wf, has_term, spec_utility, Concept, ConceptModel, ConceptStore,
    BELIEF_LIMIT,
};
use crate::rules::{
    apply_double_truth, apply_single_truth, load_default_rules, spec_double_truth, DoubleTruth,
    InferenceRule, RuleModel, TruthFunction,
};
use crate::scale::{is_unit, unit_clamp, unit_mul};
use crate::sentence::{
    cap_evidence, merge_evidence, spec_overlaps, Punctuation, Sentence, SentenceModel,
};
use crate::term::{terms_match, Operator, Term, TermModel};
use crate::truth::{revision, TruthValue};
use crate::unify::{
    spec_substitute, spec_unify, substitute, unify_with_bindings, Bindings, UNIFY_FUEL,
};

verus! {

broadcast use vstd::seq::group_seq_axioms, vstd::std_specs::vec::group_vec_axioms;

/// The capacity of the concept store and of the attention bag.
pub const DEFAULT_CAPACITY: usize = 1000;

/// How many partner candidates one cycle samples from the store.
pub const SAMPLE_LIMIT: usize = 20;

/// The confidence a belief must exceed to answer a query.
pub const ANSWER_CONFIDENCE_FLOOR: u64 = 10_000;

/// One sentence list is a prefix of the other: the buffer only grew.
pub open spec fn outputs_extended(a: Seq<SentenceModel>, b: Seq<SentenceModel>) -> bool {
    a.len() <= b.len() && forall|i: int| 0 <= i < a.len() ==> a[i] == b[i]
}

/// A two-premise rule fires against the ordered pair of terms: the first
/// premise unifies with the first term, and under those bindings the second
/// premise unifies with the second.
pub open spec fn rule_fires(r: RuleModel, x: TermModel, y: TermModel) -> bool {
    &&& r.premises.len() == 2
    &&& r.truth_fn is Double
    &&& spec_unify(r.premises[0], x, Map::empty(), UNIFY_FUEL as nat) is Some
    &&& spec_unify(
        r.premises[1],
        y,
        spec_unify(r.premises[0], x, Map::empty(), UNIFY_FUEL as nat)->Some_0,
        UNIFY_FUEL as nat,
    ) is Some
}

/// The premises of a two-premise rule unify in order against the pair of
/// terms, ending in exactly these bindings.
pub open spec fn two_premise_match(
    r: RuleModel,
    x: TermModel,
    y: TermModel,
    b: Map<TermModel, TermModel>,
) -> bool {
    &&& r.premises.len() == 2
    &&& spec_unify(r.premises[0], x, Map::empty(), UNIFY_FUEL as nat) is Some
    &&& spec_unify(
        r.premises[1],
        y,
        spec_unify(r.premises[0], x, Map::empty(), UNIFY_FUEL as nat)->Some_0,
        UNIFY_FUEL as nat,
    ) == Some(b)
}

/// A one-premise rule's premise unifies against the term, ending in exactly
/// these bindings.
pub open spec fn one_premise_match(r: RuleModel, x: TermModel, b: Map<TermModel, TermModel>) -> bool {
    &&& r.premises.len() == 1
    &&& spec_unify(r.premises[0], x, Map::empty(), UNIFY_FUEL as nat) == Some(b)
}

/// The bindings a firing rule ends with.
pub open spec fn fired_bindings(r: RuleModel, x: TermModel, y: TermModel) -> Map<
    TermModel,
    TermModel,
> {
    spec_unify(
        r.premises[1],
        y,
        spec_unify(r.premises[0], x, Map::empty(), UNIFY_FUEL as nat)->Some_0,
        UNIFY_FUEL as nat,
    )->Some_0
}

/// The sentence a firing rule emits: the conclusion template under the
/// firing's bindings, with the rule's truth function applied to the two
/// premises' truths.
pub open spec fn fired_sentence(
    s: SentenceModel,
    r: RuleModel,
    x: ConceptModel,
    y: ConceptModel,
) -> bool {
    &&& s.term == spec_substitute(r.conclusion, fired_bindings(r, x.term, y.term))
    &&& s.truth == spec_double_truth(r.truth_fn->Double_0, x.truth, y.truth)
    &&& s.punctuation == Punctuation::Judgement
    &&& s.stamp.evidence == cap_evidence(merge_evidence(x.stamp.evidence, y.stamp.evidence))
}

/// A one-premise rule fires against a term: its premise unifies with it.
pub open spec fn single_rule_fires(r: RuleModel, x: TermModel) -> bool {
    &&& r.premises.len() == 1
    &&& r.truth_fn is Single
    &&& spec_unify(r.premises[0], x, Map::empty(), UNIFY_FUEL as nat) is Some
}

/// The bindings a firing one-premise rule ends with.
pub open spec fn single_fired_bindings(r: RuleModel, x: TermModel) -> Map<TermModel, TermModel> {
    spec_unify(r.premises[0], x, Map::empty(), UNIFY_FUEL as nat)->Some_0
}

/// The sentence a firing one-premise rule emits.
pub open spec fn single_fired_sentence(s: SentenceModel, r: RuleModel, x: ConceptModel) -> bool {
    &&& s.term == spec_substitute(r.conclusion, single_fired_bindings(r, x.term))
    &&& s.truth == crate::rules::spec_single_truth(r.truth_fn->Single_0, x.truth)
    &&& s.punctuation == Punctuation::Judgement
    &&& s.stamp == x.stamp
}

/// A belief history after appending one sentence, the oldest dropped when
/// the history is full.
pub open spec fn appended_belief(bs: Seq<SentenceModel>, s: SentenceModel) -> Seq<SentenceModel> {
    if bs.len() < BELIEF_LIMIT {
        bs.push(s)
    } else {
        bs.remove(0).push(s)
    }
}

/// The sentence emitted when a known term's truth is revised: the stored
/// concept's term and stamp under the revised truth.
pub open spec fn revision_sentence(c: ConceptModel, incoming: TruthValue) -> SentenceModel {
    SentenceModel {
        term: c.term,
        punctuation: Punctuation::Judgement,
        truth: spec_double_truth(DoubleTruth::Revision, c.truth, incoming),
        stamp: c.stamp,
    }
}

/// A stored concept after integrating a second truth for its term: the
/// truth revised, the revision sentence appended to the belief history,
/// everything else kept.
pub open spec fn revised_concept(c: ConceptModel, incoming: TruthValue) -> ConceptModel {
    ConceptModel {
        truth: spec_double_truth(DoubleTruth::Revision, c.truth, incoming),
        beliefs: appended_belief(c.beliefs, revision_sentence(c, incoming)),
        ..c
    }
}

/// A concept as first stored: its own truth and stamp seed the belief
/// history.
pub open spec fn seeded_concept(c: ConceptModel) -> ConceptModel {
    ConceptModel {
        beliefs: appended_belief(
            c.beliefs,
            SentenceModel {
                term: c.term,
                punctuation: Punctuation::Judgement,
                truth: c.truth,
                stamp: c.stamp,
            },
        ),
        ..c
    }
}

/// The concept a sentence becomes on input, under a vector the ambient
/// random source chose.
pub open spec fn input_concept(s: SentenceModel, v: Seq<u64>) -> ConceptModel {
    ConceptModel {
        term: s.term,
        vector: v,
        priority: crate::memory::DEFAULT_WEIGHT,
        durability: crate::memory::DEFAULT_WEIGHT,
        truth: s.truth,
        stamp: s.stamp,
        beliefs: Seq::empty(),
    }
}

/// The concept with its vector replaced and everything else kept.
pub open spec fn with_vector(c: ConceptModel, v: Seq<u64>) -> ConceptModel {
    ConceptModel { vector: v, ..c }
}

/// The store after at most one generalization nudge: unchanged, or one
/// concept's vector replaced with everything else kept.
pub open spec fn vector_nudge(a: Seq<ConceptModel>, b: Seq<ConceptModel>) -> bool {
    ||| b == a
    ||| exists|i: int, v: Seq<u64>|
        0 <= i < a.len() && v.len() == HV_WORDS && b =~= #[trigger] a.update(i, with_vector(a[i], v))
}

/// The store after a `ConceptStore::put` of `c`: replaced in place on a
/// known term, appended below capacity, and appended after evicting one
/// concept of minimal utility level at capacity.
pub open spec fn stored_concept(
    a: Seq<ConceptModel>,
    c: ConceptModel,
    cap: int,
    b: Seq<ConceptModel>,
) -> bool {
    &&& has_term(a, c.term) ==> exists|i: int|
        0 <= i < a.len() && a[i].term == c.term && b =~= a.update(i, c)
    &&& !has_term(a, c.term) && a.len() < cap ==> b =~= a.push(c)
    &&& !has_term(a, c.term) && a.len() == cap ==> exists|i: int|
        {
            &&& 0 <= i < a.len()
            &&& forall|j: int|
                0 <= j < a.len() ==> level_of(spec_utility(a[i])) <= level_of(
                    spec_utility(#[trigger] a[j]),
                )
            &&& b =~= a.remove(i).push(c)
        }
}

/// A sentence a two-premise step may append: a judgement carrying some
/// firing rule's substituted conclusion.
pub open spec fn emitted_conclusion(
    s: SentenceModel,
    rules: Seq<InferenceRule>,
    x: TermModel,
    y: TermModel,
) -> bool {
    exists|r: int|
        {
            &&& 0 <= r < rules.len()
            &&& rule_fires((#[trigger] rules[r])@, x, y)
            &&& s.term == spec_substitute(rules[r]@.conclusion, fired_bindings(rules[r]@, x, y))
            &&& s.punctuation == Punctuation::Judgement
        }
}

/// A sentence a one-premise step may append: a judgement carrying some
/// firing rule's substituted conclusion.
pub open spec fn emitted_single_conclusion(
    s: SentenceModel,
    rules: Seq<InferenceRule>,
    x: TermModel,
) -> bool {
    exists|r: int|
        {
            &&& 0 <= r < rules.len()
            &&& single_rule_fires((#[trigger] rules[r])@, x)
            &&& s.term == spec_substitute(
                rules[r]@.conclusion,
                single_fired_bindings(rules[r]@, x),
            )
            &&& s.punctuation == Punctuation::Judgement
        }
}

/// The reasoning engine.
pub struct NarsSystem {
    store: ConceptStore,
    rules: Vec<InferenceRule>,
    attention: Bag,
    learning_rate: u64,
    similarity_threshold: u64,
    output_buffer: Vec<Sentence>,
}

impl NarsSystem {
    /// The stored concepts.
    pub closed spec fn spec_concepts(self) -> Seq<ConceptModel> {
        self.store@
    }

    /// The emitted sentences.
    pub closed spec fn spec_outputs(self) -> Seq<SentenceModel> {
        beliefs_model(self.output_buffer@)
    }

    /// The rule table.
    pub closed spec fn spec_rules(self) -> Seq<InferenceRule> {
        self.rules@
    }

    /// The attention bag's entries.
    pub closed spec fn spec_attention(self) -> Seq<(TermModel, u64)> {
        self.attention@
    }

    /// The concept store's capacity.
    pub closed spec fn spec_capacity(self) -> int {
        self.store.spec_capacity()
    }

    /// The Hebbian learning rate.
    pub closed spec fn spec_learning_rate(self) -> u64 {
        self.learning_rate
    }

    /// The association threshold.
    pub closed spec fn spec_similarity_threshold(self) -> u64 {
        self.similarity_threshold
    }

    /// The fixed configuration is untouched: the rule table, the learning
    /// rate, the similarity threshold and the store capacity.
    pub open spec fn config_kept(a: NarsSystem, b: NarsSystem) -> bool {
        &&& b.spec_rules() == a.spec_rules()
        &&& b.spec_learning_rate() == a.spec_learning_rate()
        &&& b.spec_similarity_threshold() == a.spec_similarity_threshold()
        &&& b.spec_capacity() == a.spec_capacity()
    }

    /// The engine's internal structures are well-formed.
    pub closed spec fn wf(self) -> bool {
        &&& self.store.wf()
        &&& self.attention.wf()
        &&& is_unit(self.learning_rate)
        &&& is_unit(self.similarity_threshold)
    }

    /// A fresh engine with the built-in rule table and empty memory.
    pub fn new(learning_rate: u64, similarity_threshold: u64) -> (r: NarsSystem)
        requires
            is_unit(learning_rate),
            is_unit(similarity_threshold),
        ensures
            r.wf(),
            r.spec_concepts().len() == 0,
            r.spec_outputs().len() == 0,
            r.spec_attention().len() == 0,
            r.spec_rules().len() == 3,
            r.spec_capacity() == DEFAULT_CAPACITY,
            r.spec_learning_rate() == learning_rate,
            r.spec_similarity_threshold() == similarity_threshold,
    {
        let r = NarsSystem {
            store: ConceptStore::new(DEFAULT_CAPACITY),
            rules: load_default_rules(),
            attention: Bag::new(DEFAULT_CAPACITY),
            learning_rate,
            similarity_threshold,
            output_buffer: Vec::new(),
        };
        proof {
            assert(r.spec_outputs() =~= Seq::<SentenceModel>::empty());
        }
        r
    }

    /// Replace the rule table, as a rule file loader does.
    pub fn set_rules(&mut self, rules: Vec<InferenceRule>)
        requires
            old(self).wf(),
        ensures
            final(self).wf(),
            final(self).spec_rules() == rules@,
            final(self).spec_concepts() == old(self).spec_concepts(),
            final(self).spec_outputs() == old(self).spec_outputs(),
            final(self).spec_attention() == old(self).spec_attention(),
            final(self).spec_learning_rate() == old(self).spec_learning_rate(),
            final(self).spec_similarity_threshold() == old(self).spec_similarity_threshold(),
            final(self).spec_capacity() == old(self).spec_capacity(),
    {
        self.rules = rules;
    }

    /// How many rules are loaded.
    pub fn rule_count(&self) -> (r: usize)
        ensures
            r == self.spec_rules().len(),
    {
        self.rules.len()
    }

    /// How many concepts memory holds.
    pub fn concept_count(&self) -> (r: usize)
        ensures
            r == self.spec_concepts().len(),
    {
        self.store.len()
    }

    /// Hand out and clear the emitted sentences.
    pub fn drain_outputs(&mut self) -> (r: Vec<Sentence>)
        requires
            old(self).wf(),
        ensures
            final(self).wf(),
            beliefs_model(r@) == old(self).spec_outputs(),
            final(self).spec_outputs().len() == 0,
            final(self).spec_concepts() == old(self).spec_concepts(),
            final(self).spec_attention() == old(self).spec_attention(),
            Self::config_kept(*old(self), *final(self)),
    {
        let mut out: Vec<Sentence> = Vec::new();
        core::mem::swap(&mut out, &mut self.output_buffer);
        proof {
            assert(self.spec_outputs() =~= Seq::<SentenceModel>::empty());
            assert(beliefs_model(out@) =~= old(self).spec_outputs());
        }
        out
    }

    /// A clone of the concept for a term, if memory holds one.
    pub fn get_concept(&self, term: &Term) -> (r: Option<Concept>)
        ensures
            match r {
                Some(c) => exists|i: int|
                    0 <= i < self.spec_concepts().len() && self.spec_concepts()[i].term == term@
                        && c@ == self.spec_concepts()[i],
                None => !has_term(self.spec_concepts(), term@),
            },
    {
        let r = self.store.get(term);
        proof {
            match &r {
                Some(c) => {
                    let i = choose|i: int|
                        0 <= i < self.store@.len() && self.store@[i].term == term@ && c@
                            == self.store@[i];
                    assert(self.spec_concepts()[i].term == term@ && c@ == self.spec_concepts()[i]);
                },
                None => {},
            }
        }
        r
    }

    /// Take a sentence in: a judgement becomes a concept under an
    /// ambient-random vector and is integrated into memory, revising a
    /// known term's truth. A question, goal or quest is not revised into a
    /// belief: it only makes sure its term has a concept and refreshes that
    /// term's attention.
    pub fn input(&mut self, sentence: Sentence)
        requires
            old(self).wf(),
            sentence.truth.wf(),
            sentence.stamp.wf(),
        ensures
            final(self).wf(),
            Self::config_kept(*old(self), *final(self)),
            outputs_extended(old(self).spec_outputs(), final(self).spec_outputs()),
            has_term(final(self).spec_concepts(), sentence.term@),
            final(self).spec_concepts().len() <= old(self).spec_capacity(),
            // a judgement on a known term is revised and the revision emitted
            sentence.punctuation == Punctuation::Judgement && has_term(
                old(self).spec_concepts(),
                sentence.term@,
            ) ==> ({
                &&& final(self).spec_outputs().len() == old(self).spec_outputs().len() + 1
                &&& exists|i: int|
                    {
                        &&& 0 <= i < old(self).spec_concepts().len()
                        &&& old(self).spec_concepts()[i].term == sentence.term@
                        &&& final(self).spec_outputs().last() == revision_sentence(
                            old(self).spec_concepts()[i],
                            sentence.truth,
                        )
                        &&& vector_nudge(
                            old(self).spec_concepts().update(
                                i,
                                revised_concept(old(self).spec_concepts()[i], sentence.truth),
                            ),
                            final(self).spec_concepts(),
                        )
                    }
            }),
            // a judgement on a fresh term is stored, under some ambient
            // vector, with its own truth seeding the belief history
            sentence.punctuation == Punctuation::Judgement && !has_term(
                old(self).spec_concepts(),
                sentence.term@,
            ) ==> ({
                &&& final(self).spec_outputs() == old(self).spec_outputs()
                &&& exists|v: Seq<u64>, mid: Seq<ConceptModel>|
                    {
                        &&& v.len() == HV_WORDS
                        &&& stored_concept(
                            old(self).spec_concepts(),
                            seeded_concept(input_concept(sentence@, v)),
                            old(self).spec_capacity(),
                            mid,
                        )
                        &&& vector_nudge(mid, final(self).spec_concepts())
                    }
            }),
            // anything but a judgement emits nothing and revises nothing
            sentence.punctuation != Punctuation::Judgement ==> ({
                &&& final(self).spec_outputs() == old(self).spec_outputs()
                &&& has_term(old(self).spec_concepts(), sentence.term@)
                    ==> final(self).spec_concepts() == old(self).spec_concepts()
            }),
    {
        let term = sentence.term.clone();
        if matches!(sentence.punctuation, Punctuation::Judgement) {
            let vector = Hypervector::random();
            let ghost v = vector@;
            let concept = Concept::new(term, vector, sentence.truth, sentence.stamp);
            proof {
                assert(concept@ == input_concept(sentence@, v)) by {
                    assert(concept@.beliefs =~= input_concept(sentence@, v).beliefs);
                }
            }
            self.add_concept(concept);
        } else {
            match self.store.find_index(&term) {
                Some(i) => {
                    let priority = self.store.concept_at(i).priority;
                    self.attention.put(term, priority);
                },
                None => {
                    let vector = Hypervector::random();
                    let concept = Concept::new(term, vector, sentence.truth, sentence.stamp);
                    self.add_concept(concept);
                },
            }
        }
    }

    /// Integrate a concept into memory. An already-known term has its truth
    /// revised with the incoming one, the revision appended to its belief
    /// history and the revised sentence emitted; a new term is stored as
    /// given with its own truth as its first belief, evicting a concept of
    /// minimal utility level when memory is full. Either way the term's
    /// scheduling entry is refreshed, and a statement of the shape
    /// `<subject --> predicate>` nudges the subject's vector toward the
    /// predicate's.
    pub fn add_concept(&mut self, concept: Concept)
        requires
            old(self).wf(),
            concept.wf(),
        ensures
            final(self).wf(),
            Self::config_kept(*old(self), *final(self)),
            outputs_extended(old(self).spec_outputs(), final(self).spec_outputs()),
            has_term(final(self).spec_concepts(), concept@.term),
            has_item(final(self).spec_attention(), concept@.term),
            final(self).spec_concepts().len() <= old(self).spec_capacity(),
            final(self).spec_concepts().len() >= old(self).spec_concepts().len(),
            final(self).spec_concepts().len() < old(self).spec_capacity() ==> forall|t: TermModel|
                has_term(old(self).spec_concepts(), t) ==> has_term(
                    final(self).spec_concepts(),
                    t,
                ),
            // a known term: the stored concept is revised in place and the
            // revision sentence emitted
            has_term(old(self).spec_concepts(), concept@.term) ==> ({
                &&& final(self).spec_outputs().len() == old(self).spec_outputs().len() + 1
                &&& final(self).spec_concepts().len() == old(self).spec_concepts().len()
                &&& exists|i: int|
                    {
                        &&& 0 <= i < old(self).spec_concepts().len()
                        &&& old(self).spec_concepts()[i].term == concept@.term
                        &&& final(self).spec_outputs().last() == revision_sentence(
                            old(self).spec_concepts()[i],
                            concept@.truth,
                        )
                        &&& vector_nudge(
                            old(self).spec_concepts().update(
                                i,
                                revised_concept(old(self).spec_concepts()[i], concept@.truth),
                            ),
                            final(self).spec_concepts(),
                        )
                    }
            }),
            // a fresh term: stored as given (first belief seeded), nothing
            // emitted
            !has_term(old(self).spec_concepts(), concept@.term) ==> ({
                &&& final(self).spec_outputs() == old(self).spec_outputs()
                &&& exists|mid: Seq<ConceptModel>|
                    {
                        &&& stored_concept(
                            old(self).spec_concepts(),
                            seeded_concept(concept@),
                            old(self).spec_capacity(),
                            mid,
                        )
                        &&& vector_nudge(mid, final(self).spec_concepts())
                    }
            }),
    {
        let term = concept.term.clone();
        match self.store.get(&term) {
            Some(existing) => {
                proof {
                    let i = choose|i: int|
                        0 <= i < self.store@.len() && self.store@[i].term == term@ && existing@
                            == self.store@[i];
                    assert(self.spec_concepts()[i] == existing@);
                }
                self.integrate_known(existing, concept);
            },
            None => {
                self.integrate_fresh(concept);
            },
        }
    }

    /// Revise an already-stored concept's truth with the incoming one,
    /// append and emit the revision, refresh attention, and nudge.
    #[verifier::rlimit(100)]
    fn integrate_known(&mut self, existing: Concept, concept: Concept)
        requires
            old(self).wf(),
            concept.wf(),
            existing@.term == concept@.term,
            exists|i: int|
                0 <= i < old(self).spec_concepts().len() && old(self).spec_concepts()[i]
                    == existing@,
        ensures
            final(self).wf(),
            Self::config_kept(*old(self), *final(self)),
            outputs_extended(old(self).spec_outputs(), final(self).spec_outputs()),
            has_term(final(self).spec_concepts(), concept@.term),
            has_item(final(self).spec_attention(), concept@.term),
            final(self).spec_concepts().len() <= old(self).spec_capacity(),
            final(self).spec_outputs().len() == old(self).spec_outputs().len() + 1,
            final(self).spec_concepts().len() == old(self).spec_concepts().len(),
            forall|t: TermModel|
                has_term(old(self).spec_concepts(), t) ==> has_term(
                    final(self).spec_concepts(),
                    t,
                ),
            exists|i: int|
                {
                    &&& 0 <= i < old(self).spec_concepts().len()
                    &&& old(self).spec_concepts()[i].term == concept@.term
                    &&& final(self).spec_outputs().last() == revision_sentence(
                        old(self).spec_concepts()[i],
                        concept@.truth,
                    )
                    &&& vector_nudge(
                        old(self).spec_concepts().update(
                            i,
                            revised_concept(old(self).spec_concepts()[i], concept@.truth),
                        ),
                        final(self).spec_concepts(),
                    )
                },
    {
        let ghost incoming = concept@.truth;
        let ghost t = concept@.term;
        let ghost e0 = existing@;
        let term = concept.term.clone();
        let revised = revision(existing.truth, concept.truth);
        let mut updated = existing;
        updated.truth = revised;
        let sentence = Sentence::new(
            term.clone(),
            Punctuation::Judgement,
            revised,
            updated.stamp.clone(),
        );
        proof {
            assert(sentence@ == revision_sentence(e0, incoming));
        }
        updated.push_belief(sentence.clone());
        proof {
            assert(updated@ == revised_concept(e0, incoming));
        }
        let priority = updated.priority;
        let ghost s0 = self.store@;
        proof {
            assert(has_term(s0, t)) by {
                let i0 = choose|i0: int| 0 <= i0 < s0.len() && s0[i0] == e0;
            }
        }
        self.store.put(updated);
        proof {
            let i = choose|i: int|
                0 <= i < s0.len() && s0[i].term == t && self.store@ =~= s0.update(
                    i,
                    revised_concept(e0, incoming),
                );
            let i0 = choose|i0: int| 0 <= i0 < s0.len() && s0[i0] == e0;
            assert(i == i0);
        }
        self.output_buffer.push(sentence);
        proof {
            assert(self.spec_outputs() =~= old(self).spec_outputs().push(sentence@));
        }
        let ghost s1 = self.store@;
        proof {
            assert forall|tt: TermModel| has_term(s0, tt) implies has_term(s1, tt) by {
                let i = choose|i: int|
                    0 <= i < s0.len() && s0[i].term == t && s1 =~= s0.update(
                        i,
                        revised_concept(e0, incoming),
                    );
                let j = choose|j: int| 0 <= j < s0.len() && s0[j].term == tt;
                if j == i {
                    assert(s1[i].term == tt);
                } else {
                    assert(s1[j].term == tt);
                }
            }
        }
        self.generalize(&term);
        self.attention.put(term, priority);
        proof {
            assert(self.spec_attention()[self.spec_attention().len() - 1].0 == t);
        }
    }

    /// Store a concept for a term memory does not hold yet, its own truth
    /// seeding the belief history; nothing is emitted.
    #[verifier::rlimit(100)]
    fn integrate_fresh(&mut self, concept: Concept)
        requires
            old(self).wf(),
            concept.wf(),
            !has_term(old(self).spec_concepts(), concept@.term),
        ensures
            final(self).wf(),
            Self::config_kept(*old(self), *final(self)),
            final(self).spec_outputs() == old(self).spec_outputs(),
            has_term(final(self).spec_concepts(), concept@.term),
            has_item(final(self).spec_attention(), concept@.term),
            final(self).spec_concepts().len() <= old(self).spec_capacity(),
            final(self).spec_concepts().len() >= old(self).spec_concepts().len(),
            final(self).spec_concepts().len() < old(self).spec_capacity() ==> forall|t: TermModel|
                has_term(old(self).spec_concepts(), t) ==> has_term(
                    final(self).spec_concepts(),
                    t,
                ),
            exists|mid: Seq<ConceptModel>|
                {
                    &&& stored_concept(
                        old(self).spec_concepts(),
                        seeded_concept(concept@),
                        old(self).spec_capacity(),
                        mid,
                    )
                    &&& vector_nudge(mid, final(self).spec_concepts())
                },
    {
        let ghost t = concept@.term;
        let ghost c0 = concept@;
        let term = concept.term.clone();
        let mut fresh = concept;
        let sentence = Sentence::new(
            term.clone(),
            Punctuation::Judgement,
            fresh.truth,
            fresh.stamp.clone(),
        );
        fresh.push_belief(sentence);
        proof {
            assert(fresh@ == seeded_concept(c0));
        }
        let priority = fresh.priority;
        let ghost s0 = self.store@;
        self.store.put(fresh);
        let ghost s1 = self.store@;
        proof {
            assert(stored_concept(s0, seeded_concept(c0), old(self).spec_capacity(), s1));
            assert(has_term(s1, t));
            if s0.len() < old(self).spec_capacity() {
                assert(s1 =~= s0.push(seeded_concept(c0)));
                assert forall|tt: TermModel| has_term(s0, tt) implies has_term(s1, tt) by {
                    let j = choose|j: int| 0 <= j < s0.len() && s0[j].term == tt;
                    assert(s1[j].term == tt);
                }
            }
        }
        self.generalize(&term);
        self.attention.put(term, priority);
        proof {
            assert(self.spec_attention()[self.spec_attention().len() - 1].0 == t);
        }
    }

    /// When the term is `<subject --> predicate>` and both sides are known,
    /// nudge the subject's vector toward the predicate's: generalization
    /// learning. At most one concept's vector changes; nothing else does.
    #[verifier::rlimit(100)]
    fn generalize(&mut self, term: &Term)
        requires
            old(self).wf(),
        ensures
            final(self).wf(),
            Self::config_kept(*old(self), *final(self)),
            final(self).spec_outputs() == old(self).spec_outputs(),
            final(self).spec_attention() == old(self).spec_attention(),
            vector_nudge(old(self).spec_concepts(), final(self).spec_concepts()),
            forall|t: TermModel|
                has_term(old(self).spec_concepts(), t) ==> has_term(
                    final(self).spec_concepts(),
                    t,
                ),
    {
        let parts = match term {
            Term::Compound(Operator::Inheritance, args) if args.len() == 2 => Some((
                args[0].clone(),
                args[1].clone(),
            )),
            _ => None,
        };
        let (subject, predicate) = match parts {
            Some(p) => p,
            None => {
                return ;
            },
        };
        let sc = self.store.get(&subject);
        let pc = self.store.get(&predicate);
        match (sc, pc) {
            (Some(mut subject_concept), Some(predicate_concept)) => {
                let ghost pre = self.store@;
                let ghost base = subject_concept@;
                subject_concept.vector.update(&predicate_concept.vector, self.learning_rate);
                let ghost cm = subject_concept@;
                proof {
                    assert(cm == (ConceptModel { vector: cm.vector, ..base }));
                }
                self.store.put(subject_concept);
                proof {
                    let i = choose|i: int|
                        0 <= i < pre.len() && pre[i].term == cm.term && self.store@ =~= pre.update(
                            i,
                            cm,
                        );
                    let i0 = choose|i0: int|
                        0 <= i0 < pre.len() && pre[i0].term == base.term && base == pre[i0];
                    assert(i == i0);
                    assert(cm == with_vector(pre[i], cm.vector));
                    assert(cm.vector.len() == HV_WORDS);
                    assert(self.store@ =~= pre.update(i, with_vector(pre[i], cm.vector)));
                    assert forall|t: TermModel| has_term(pre, t) implies has_term(
                        self.store@,
                        t,
                    ) by {
                        let j = choose|j: int| 0 <= j < pre.len() && pre[j].term == t;
                        if j == i {
                            assert(self.store@[i].term == t);
                        } else {
                            assert(self.store@[j].term == t);
                        }
                    }
                }
            },
            _ => {},
        }
    }

    /// One reasoning step. An empty attention bag changes nothing; a drawn
    /// term without a concept only leaves attention one entry shorter; a
    /// drawn term with a concept has, at the least, every one-premise rule
    /// fired against it.
    pub fn cycle(&mut self)
        requires
            old(self).wf(),
        ensures
            final(self).wf(),
            Self::config_kept(*old(self), *final(self)),
            outputs_extended(old(self).spec_outputs(), final(self).spec_outputs()),
            old(self).spec_attention().len() == 0 ==> ({
                &&& final(self).spec_concepts() == old(self).spec_concepts()
                &&& final(self).spec_outputs() == old(self).spec_outputs()
                &&& final(self).spec_attention() == old(self).spec_attention()
            }),
            old(self).spec_attention().len() > 0 ==> exists|i: int|
                #![trigger old(self).spec_attention()[i]]
                {
                    &&& 0 <= i < old(self).spec_attention().len()
                    &&& !has_term(old(self).spec_concepts(), old(self).spec_attention()[i].0)
                        ==> ({
                        &&& final(self).spec_concepts() == old(self).spec_concepts()
                        &&& final(self).spec_outputs() == old(self).spec_outputs()
                        &&& final(self).spec_attention() =~= old(self).spec_attention().remove(i)
                    })
                    &&& has_term(old(self).spec_concepts(), old(self).spec_attention()[i].0)
                        ==> exists|j: int|
                        {
                            &&& 0 <= j < old(self).spec_concepts().len()
                            &&& old(self).spec_concepts()[j].term == old(self).spec_attention(
                            )[i].0
                            &&& forall|r: int|
                                0 <= r < old(self).spec_rules().len() && single_rule_fires(
                                    (#[trigger] old(self).spec_rules()[r])@,
                                    old(self).spec_concepts()[j].term,
                                ) ==> exists|k: int|
                                    0 <= k < final(self).spec_outputs().len()
                                        && single_fired_sentence(
                                        final(self).spec_outputs()[k],
                                        old(self).spec_rules()[r]@,
                                        old(self).spec_concepts()[j],
                                    )
                        }
                },
    {
        let ghost att0 = self.spec_attention();
        let taken = self.attention.take();
        let term = match taken {
            Some(t) => t,
            None => {
                return ;
            },
        };
        let ghost di = choose|di: int|
            0 <= di < att0.len() && att0[di].0 == term@ && self.spec_attention() =~= att0.remove(
                di,
            );
        let concept_a = match self.store.get(&term) {
            Some(c) => c,
            None => {
                proof {
                    assert(att0[di].0 == term@);
                }
                return ;
            },
        };
        let ghost cj = choose|cj: int|
            0 <= cj < self.store@.len() && self.store@[cj].term == term@ && concept_a@
                == self.store@[cj];
        // sample a bounded prefix of the store's enumeration as partners,
        // excluding the selected term; the order bias is part of the design
        let mut partners: Vec<Term> = Vec::new();
        let mut i: usize = 0;
        while i < self.store.len() && partners.len() < SAMPLE_LIMIT
            invariant
                self.wf(),
                concept_model_wf(concept_a@),
            decreases self.spec_concepts().len() - i,
        {
            let c = self.store.concept_at(i);
            if !terms_match(&c.term, &term) {
                partners.push(c.term.clone());
            }
            i = i + 1;
        }
        // associate and reason with each sufficiently similar partner
        let mut k: usize = 0;
        while k < partners.len()
            invariant
                self.wf(),
                Self::config_kept(*old(self), *self),
                concept_model_wf(concept_a@),
                outputs_extended(old(self).spec_outputs(), self.spec_outputs()),
            decreases partners@.len() - k,
        {
            let partner_term = partners[k].clone();
            match self.store.get(&partner_term) {
                Some(concept_b) => {
                    let sim = concept_a.vector.similarity(&concept_b.vector);
                    if sim >= self.similarity_threshold {
                        let pr = unit_clamp(unit_mul(sim, 900_000), 10_000, 990_000);
                        self.attention.put(partner_term.clone(), pr);
                        self.reason(&concept_a, &concept_b);
                        self.reason(&concept_b, &concept_a);
                        self.hebbian_pair(&term, &partner_term);
                    }
                },
                None => {},
            }
            k = k + 1;
        }
        // single-premise reasoning on the selected concept, unconditionally
        self.reason_single(&concept_a);
        proof {
            assert(att0[di].0 == term@);
            assert(has_term(old(self).spec_concepts(), att0[di].0)) by {
                assert(old(self).spec_concepts()[cj].term == term@);
            }
            assert(concept_a@ == old(self).spec_concepts()[cj]);
        }
    }

    /// Nudge the two concepts' vectors toward each other, each against the
    /// other's snapshot, scaled by the learning rate.
    #[verifier::rlimit(100)]
    fn hebbian_pair(&mut self, term_a: &Term, term_b: &Term)
        requires
            old(self).wf(),
        ensures
            final(self).wf(),
            Self::config_kept(*old(self), *final(self)),
            final(self).spec_outputs() == old(self).spec_outputs(),
            final(self).spec_attention() == old(self).spec_attention(),
    {
        let ca = self.store.get(term_a);
        let cb = self.store.get(term_b);
        match (ca, cb) {
            (Some(mut concept_a), Some(mut concept_b)) => {
                let snapshot_a = concept_a.vector.clone();
                concept_a.vector.update(&concept_b.vector, self.learning_rate);
                concept_b.vector.update(&snapshot_a, self.learning_rate);
                self.store.put(concept_a);
                self.store.put(concept_b);
            },
            _ => {},
        }
    }

    /// Fire every two-premise rule whose premises unify with the two
    /// concepts' terms in order. Shared evidence blocks the pair entirely:
    /// a belief must not support itself.
    #[verifier::loop_isolation(false)]
    #[verifier::rlimit(100)]
    pub fn reason(&mut self, concept_a: &Concept, concept_b: &Concept)
        requires
            old(self).wf(),
            concept_a.wf(),
            concept_b.wf(),
        ensures
            final(self).wf(),
            Self::config_kept(*old(self), *final(self)),
            outputs_extended(old(self).spec_outputs(), final(self).spec_outputs()),
            spec_overlaps(concept_a@.stamp.evidence, concept_b@.stamp.evidence) ==> ({
                &&& final(self).spec_outputs() == old(self).spec_outputs()
                &&& final(self).spec_concepts() == old(self).spec_concepts()
            }),
            // every two-premise rule whose premises unify in order has its
            // conclusion emitted, under the rule's truth function
            !spec_overlaps(concept_a@.stamp.evidence, concept_b@.stamp.evidence) ==> forall|
                r: int,
            |
                0 <= r < old(self).spec_rules().len() && rule_fires(
                    (#[trigger] old(self).spec_rules()[r])@,
                    concept_a@.term,
                    concept_b@.term,
                ) ==> exists|k: int|
                    0 <= k < final(self).spec_outputs().len() && fired_sentence(
                        final(self).spec_outputs()[k],
                        old(self).spec_rules()[r]@,
                        concept_a@,
                        concept_b@,
                    ),
            // and nothing else is emitted: every appended sentence is a
            // judgement carrying a firing rule's substituted conclusion
            forall|k: int|
                #![trigger final(self).spec_outputs()[k]]
                old(self).spec_outputs().len() <= k < final(self).spec_outputs().len()
                    ==> emitted_conclusion(
                    final(self).spec_outputs()[k],
                    old(self).spec_rules(),
                    concept_a@.term,
                    concept_b@.term,
                ),
            // every firing rule's conclusion is integrated into memory,
            // unless memory sits at capacity
            !spec_overlaps(concept_a@.stamp.evidence, concept_b@.stamp.evidence) ==> forall|
                r: int,
            |
                0 <= r < old(self).spec_rules().len() && rule_fires(
                    (#[trigger] old(self).spec_rules()[r])@,
                    concept_a@.term,
                    concept_b@.term,
                ) ==> has_term(
                    final(self).spec_concepts(),
                    spec_substitute(
                        old(self).spec_rules()[r]@.conclusion,
                        fired_bindings(old(self).spec_rules()[r]@, concept_a@.term, concept_b@.term),
                    ),
                ) || final(self).spec_concepts().len() == old(self).spec_capacity(),
    {
        if concept_a.stamp.overlaps(&concept_b.stamp) {
            return ;
        }
        let ghost ta = concept_a@.term;
        let ghost tb = concept_b@.term;
        let mut inferences: Vec<(usize, Bindings)> = Vec::new();
        let mut idx: usize = 0;
        while idx < self.rules.len()
            invariant
                self.wf(),
                self.spec_outputs() == old(self).spec_outputs(),
                self.spec_concepts() == old(self).spec_concepts(),
                self.spec_rules() == old(self).spec_rules(),
                idx <= self.spec_rules().len(),
                forall|j: int| 0 <= j < inferences@.len() ==> (#[trigger] inferences@[j].1).wf(),
                forall|j: int|
                    0 <= j < inferences@.len() ==> (#[trigger] inferences@[j]).0 < idx,
                forall|j: int|
                    0 <= j < inferences@.len() ==> two_premise_match(
                        self.spec_rules()[(#[trigger] inferences@[j]).0 as int]@,
                        ta,
                        tb,
                        inferences@[j].1@,
                    ),
                forall|r: int|
                    0 <= r < idx && rule_fires((#[trigger] self.spec_rules()[r])@, ta, tb)
                        ==> exists|j: int|
                        0 <= j < inferences@.len() && (#[trigger] inferences@[j]).0 == r
                            && inferences@[j].1@ == fired_bindings(self.spec_rules()[r]@, ta, tb),
            decreases self.spec_rules().len() - idx,
        {
            let rule = &self.rules[idx];
            let ghost rm = self.spec_rules()[idx as int]@;
            let ghost inf0 = inferences@;
            proof {
                crate::term::lemma_terms_model_len(rule.premises@);
                if rule.premises@.len() >= 2 {
                    crate::term::lemma_terms_model_index(rule.premises@, 0);
                    crate::term::lemma_terms_model_index(rule.premises@, 1);
                }
            }
            if rule.premises.len() == 2 {
                let empty = Bindings::new();
                match unify_with_bindings(&rule.premises[0], &concept_a.term, empty) {
                    Some(b1) => {
                        let ghost gb1 = b1@;
                        proof {
                            assert(spec_unify(rm.premises[0], ta, Map::empty(), UNIFY_FUEL as nat)
                                == Some(gb1));
                        }
                        match unify_with_bindings(&rule.premises[1], &concept_b.term, b1) {
                            Some(bfinal) => {
                                let ghost gbf = bfinal@;
                                proof {
                                    assert(spec_unify(rm.premises[1], tb, gb1, UNIFY_FUEL as nat)
                                        == Some(gbf));
                                    assert(two_premise_match(rm, ta, tb, gbf));
                                    assert(rule_fires(rm, ta, tb) ==> gbf == fired_bindings(
                                        rm,
                                        ta,
                                        tb,
                                    ));
                                }
                                inferences.push((idx, bfinal));
                                proof {
                                    assert(inferences@ =~= inf0.push((idx, inferences@.last().1)));
                                    assert(inferences@.last().0 == idx && inferences@.last().1@
                                        == gbf);
                                    assert forall|r: int|
                                        0 <= r < idx + 1 && rule_fires(
                                            (#[trigger] self.spec_rules()[r])@,
                                            ta,
                                            tb,
                                        ) implies exists|j: int|
                                        0 <= j < inferences@.len() && (
                                        #[trigger] inferences@[j]).0 == r && inferences@[j].1@
                                            == fired_bindings(
                                            self.spec_rules()[r]@,
                                            ta,
                                            tb,
                                        ) by {
                                        if r == idx {
                                            assert((inferences@[inferences@.len() - 1]).0 == r);
                                        } else {
                                            let j = choose|j: int|
                                                0 <= j < inf0.len() && (#[trigger] inf0[j]).0 == r
                                                    && inf0[j].1@ == fired_bindings(
                                                    self.spec_rules()[r]@,
                                                    ta,
                                                    tb,
                                                );
                                            assert(inferences@[j] == inf0[j]);
                                        }
                                    }
                                }
                            },
                            None => {
                                proof {
                                    assert(spec_unify(rm.premises[1], tb, gb1, UNIFY_FUEL as nat)
                                        is None);
                                    assert(!rule_fires(rm, ta, tb));
                                }
                            },
                        }
                    },
                    None => {
                        proof {
                            assert(spec_unify(rm.premises[0], ta, Map::empty(), UNIFY_FUEL as nat)
                                is None);
                            assert(!rule_fires(rm, ta, tb));
                        }
                    },
                }
            } else {
                proof {
                    assert(rm.premises.len() != 2);
                    assert(!rule_fires(rm, ta, tb));
                }
            }
            idx = idx + 1;
        }
        let ghost orig = inferences@;
        let ghost rules0 = self.spec_rules();
        proof {
            assert(forall|r: int|
                0 <= r < rules0.len() && rule_fires((#[trigger] rules0[r])@, ta, tb)
                    ==> exists|j: int|
                    0 <= j < orig.len() && (#[trigger] orig[j]).0 == r && orig[j].1@
                        == fired_bindings(rules0[r]@, ta, tb));
        }
        while inferences.len() > 0
            invariant
                self.wf(),
                Self::config_kept(*old(self), *self),
                outputs_extended(old(self).spec_outputs(), self.spec_outputs()),
                self.spec_rules() == rules0,
                rules0 == old(self).spec_rules(),
                concept_model_wf(concept_a@),
                concept_model_wf(concept_b@),
                ta == concept_a@.term,
                tb == concept_b@.term,
                inferences@.len() <= orig.len(),
                inferences@ =~= orig.subrange(
                    orig.len() - inferences@.len(),
                    orig.len() as int,
                ),
                forall|j: int| 0 <= j < orig.len() ==> (#[trigger] orig[j].1).wf(),
                forall|j: int| 0 <= j < orig.len() ==> (#[trigger] orig[j]).0 < rules0.len(),
                forall|j: int|
                    0 <= j < orig.len() ==> two_premise_match(
                        rules0[(#[trigger] orig[j]).0 as int]@,
                        ta,
                        tb,
                        orig[j].1@,
                    ),
                forall|j: int|
                    0 <= j < orig.len() - inferences@.len() ==> ((
                    #[trigger] orig[j]).1@ == fired_bindings(rules0[orig[j].0 as int]@, ta, tb)
                        && rules0[orig[j].0 as int]@.truth_fn is Double ==> exists|k: int|
                        0 <= k < self.spec_outputs().len() && fired_sentence(
                            self.spec_outputs()[k],
                            rules0[orig[j].0 as int]@,
                            concept_a@,
                            concept_b@,
                        )),
                forall|k: int|
                    #![trigger self.spec_outputs()[k]]
                    old(self).spec_outputs().len() <= k < self.spec_outputs().len()
                        ==> emitted_conclusion(self.spec_outputs()[k], rules0, ta, tb),
                forall|j: int|
                    0 <= j < orig.len() - inferences@.len() ==> (rules0[(
                    #[trigger] orig[j]).0 as int]@.truth_fn is Double ==> has_term(
                        self.spec_concepts(),
                        spec_substitute(rules0[orig[j].0 as int]@.conclusion, orig[j].1@),
                    ) || self.spec_concepts().len() == old(self).spec_capacity()),
            decreases inferences@.len(),
        {
            let ghost out_start = self.spec_outputs();
            let ghost p = orig.len() - inferences@.len();
            let (rule_idx, bindings) = inferences.remove(0);
            let ghost gb = bindings@;
            proof {
                assert(orig[p] == (rule_idx, bindings));
                assert(inferences@ =~= orig.subrange(p + 1, orig.len() as int));
            }
            let truth_fn = self.rules[rule_idx].truth_fn;
            match truth_fn {
                TruthFunction::Double(df) => {
                    let conclusion_template = self.rules[rule_idx].conclusion.clone();
                    let conclusion_term = substitute(&conclusion_template, &bindings);
                    let new_truth = apply_double_truth(df, concept_a.truth, concept_b.truth);
                    let new_stamp = concept_a.stamp.merge(&concept_b.stamp);
                    let vectors = vec![concept_a.vector.clone(), concept_b.vector.clone()];
                    let new_vector = Hypervector::bundle(vectors.as_slice());
                    let new_concept = Concept::new(
                        conclusion_term.clone(),
                        new_vector,
                        new_truth,
                        new_stamp.clone(),
                    );
                    let sentence = Sentence::new(
                        conclusion_term,
                        Punctuation::Judgement,
                        new_truth,
                        new_stamp,
                    );
                    let ghost gct = spec_substitute(rules0[rule_idx as int]@.conclusion, gb);
                    self.output_buffer.push(sentence);
                    let ghost out_mid = self.spec_outputs();
                    proof {
                        assert(out_mid =~= out_start.push(sentence@));
                        assert(rules0[rule_idx as int]@.truth_fn is Double);
                        assert(rule_fires(rules0[rule_idx as int]@, ta, tb));
                        assert(fired_bindings(rules0[rule_idx as int]@, ta, tb) == gb);
                        assert(sentence@.term == gct && sentence@.punctuation
                            == Punctuation::Judgement);
                        assert(fired_sentence(
                            out_mid[out_mid.len() - 1],
                            rules0[rule_idx as int]@,
                            concept_a@,
                            concept_b@,
                        ));
                    }
                    let ghost c1 = self.spec_concepts();
                    self.add_concept(new_concept);
                    proof {
                        assert forall|j: int| 0 <= j < orig.len() - inferences@.len() implies ((
                        #[trigger] orig[j]).1@ == fired_bindings(
                            rules0[orig[j].0 as int]@,
                            ta,
                            tb,
                        ) && rules0[orig[j].0 as int]@.truth_fn is Double ==> exists|k: int|
                            0 <= k < self.spec_outputs().len() && fired_sentence(
                                self.spec_outputs()[k],
                                rules0[orig[j].0 as int]@,
                                concept_a@,
                                concept_b@,
                            )) by {
                            if orig[j].1@ == fired_bindings(rules0[orig[j].0 as int]@, ta, tb)
                                && rules0[orig[j].0 as int]@.truth_fn is Double {
                                if j < p {
                                    let k = choose|k: int|
                                        0 <= k < out_start.len() && fired_sentence(
                                            out_start[k],
                                            rules0[orig[j].0 as int]@,
                                            concept_a@,
                                            concept_b@,
                                        );
                                    assert(self.spec_outputs()[k] == out_start[k]);
                                } else {
                                    let k = out_mid.len() - 1;
                                    assert(self.spec_outputs()[k] == out_mid[k]);
                                }
                            }
                        }
                        // every appended sentence carries a firing conclusion
                        assert forall|k: int|
                            old(self).spec_outputs().len() <= k < self.spec_outputs().len()
                                implies emitted_conclusion(
                            #[trigger] self.spec_outputs()[k],
                            rules0,
                            ta,
                            tb,
                        ) by {
                            if k < out_start.len() {
                                assert(self.spec_outputs()[k] == out_start[k]);
                            } else if k == out_start.len() {
                                assert(self.spec_outputs()[k] == out_mid[k]);
                                assert(self.spec_outputs()[k] == sentence@);
                                assert(emitted_conclusion(sentence@, rules0, ta, tb));
                            } else {
                                assert(k == self.spec_outputs().len() - 1 && k == out_mid.len());
                                assert(has_term(c1, new_concept@.term));
                                let i = choose|i: int|
                                    0 <= i < c1.len() && c1[i].term == new_concept@.term
                                        && self.spec_outputs().last() == revision_sentence(
                                        c1[i],
                                        new_concept@.truth,
                                    );
                                assert(self.spec_outputs()[k].term == gct);
                                assert(self.spec_outputs()[k].punctuation
                                    == Punctuation::Judgement);
                            }
                        }
                        // processed conclusions stand in memory, or memory
                        // is full
                        assert forall|j: int| 0 <= j < orig.len() - inferences@.len() implies (
                        rules0[(#[trigger] orig[j]).0 as int]@.truth_fn is Double ==> has_term(
                            self.spec_concepts(),
                            spec_substitute(rules0[orig[j].0 as int]@.conclusion, orig[j].1@),
                        ) || self.spec_concepts().len() == old(self).spec_capacity()) by {
                            if rules0[orig[j].0 as int]@.truth_fn is Double {
                                let c = spec_substitute(
                                    rules0[orig[j].0 as int]@.conclusion,
                                    orig[j].1@,
                                );
                                if j < p {
                                    if has_term(c1, c) {
                                        if self.spec_concepts().len() < old(self).spec_capacity() {
                                        } else {
                                            assert(self.spec_concepts().len() == old(
                                                self,
                                            ).spec_capacity());
                                        }
                                    } else {
                                        assert(c1.len() == old(self).spec_capacity());
                                        assert(self.spec_concepts().len() == old(
                                            self,
                                        ).spec_capacity());
                                    }
                                } else {
                                    assert(has_term(self.spec_concepts(), new_concept@.term));
                                    assert(new_concept@.term == c);
                                }
                            }
                        }
                    }
                },
                TruthFunction::Single(_) => {
                    proof {
                        assert forall|j: int| 0 <= j < orig.len() - inferences@.len() implies ((
                        #[trigger] orig[j]).1@ == fired_bindings(
                            rules0[orig[j].0 as int]@,
                            ta,
                            tb,
                        ) && rules0[orig[j].0 as int]@.truth_fn is Double ==> exists|k: int|
                            0 <= k < self.spec_outputs().len() && fired_sentence(
                                self.spec_outputs()[k],
                                rules0[orig[j].0 as int]@,
                                concept_a@,
                                concept_b@,
                            )) by {
                            if j < p && orig[j].1@ == fired_bindings(
                                rules0[orig[j].0 as int]@,
                                ta,
                                tb,
                            ) && rules0[orig[j].0 as int]@.truth_fn is Double {
                                let k = choose|k: int|
                                    0 <= k < out_start.len() && fired_sentence(
                                        out_start[k],
                                        rules0[orig[j].0 as int]@,
                                        concept_a@,
                                        concept_b@,
                                    );
                                assert(self.spec_outputs()[k] == out_start[k]);
                            }
                        }
                        // a one-premise entry of a two-premise pass changes
                        // nothing: the entry's rule is not a double rule
                        assert forall|j: int| 0 <= j < orig.len() - inferences@.len() implies (
                        rules0[(#[trigger] orig[j]).0 as int]@.truth_fn is Double ==> has_term(
                            self.spec_concepts(),
                            spec_substitute(rules0[orig[j].0 as int]@.conclusion, orig[j].1@),
                        ) || self.spec_concepts().len() == old(self).spec_capacity()) by {
                            if j == p {
                                assert(rules0[orig[p].0 as int]@.truth_fn is Single);
                            }
                        }
                    }
                },
            }
        }
        proof {
            assert forall|r: int|
                0 <= r < old(self).spec_rules().len() && rule_fires(
                    (#[trigger] old(self).spec_rules()[r])@,
                    ta,
                    tb,
                ) implies exists|k: int|
                0 <= k < self.spec_outputs().len() && fired_sentence(
                    self.spec_outputs()[k],
                    old(self).spec_rules()[r]@,
                    concept_a@,
                    concept_b@,
                ) by {
                let j = choose|j: int|
                    0 <= j < orig.len() && (#[trigger] orig[j]).0 == r && orig[j].1@
                        == fired_bindings(rules0[r]@, ta, tb);
            }
            assert forall|r: int|
                0 <= r < old(self).spec_rules().len() && rule_fires(
                    (#[trigger] old(self).spec_rules()[r])@,
                    ta,
                    tb,
                ) implies has_term(
                self.spec_concepts(),
                spec_substitute(
                    old(self).spec_rules()[r]@.conclusion,
                    fired_bindings(old(self).spec_rules()[r]@, ta, tb),
                ),
            ) || self.spec_concepts().len() == old(self).spec_capacity() by {
                let j = choose|j: int|
                    0 <= j < orig.len() && (#[trigger] orig[j]).0 == r && orig[j].1@
                        == fired_bindings(rules0[r]@, ta, tb);
            }
        }
    }

    /// Attempt every one-premise rule against the concept's term.
    #[verifier::loop_isolation(false)]
    #[verifier::rlimit(100)]
    pub fn reason_single(&mut self, concept: &Concept)
        requires
            old(self).wf(),
            concept.wf(),
        ensures
            final(self).wf(),
            Self::config_kept(*old(self), *final(self)),
            outputs_extended(old(self).spec_outputs(), final(self).spec_outputs()),
            // every one-premise rule whose premise unifies has its
            // conclusion emitted, under the rule's truth function
            forall|r: int|
                0 <= r < old(self).spec_rules().len() && single_rule_fires(
                    (#[trigger] old(self).spec_rules()[r])@,
                    concept@.term,
                ) ==> exists|k: int|
                    0 <= k < final(self).spec_outputs().len() && single_fired_sentence(
                        final(self).spec_outputs()[k],
                        old(self).spec_rules()[r]@,
                        concept@,
                    ),
            // and nothing else is emitted: every appended sentence is a
            // judgement carrying a firing rule's substituted conclusion
            forall|k: int|
                #![trigger final(self).spec_outputs()[k]]
                old(self).spec_outputs().len() <= k < final(self).spec_outputs().len()
                    ==> emitted_single_conclusion(
                    final(self).spec_outputs()[k],
                    old(self).spec_rules(),
                    concept@.term,
                ),
            // every firing rule's conclusion is integrated into memory,
            // unless memory sits at capacity
            forall|r: int|
                0 <= r < old(self).spec_rules().len() && single_rule_fires(
                    (#[trigger] old(self).spec_rules()[r])@,
                    concept@.term,
                ) ==> has_term(
                    final(self).spec_concepts(),
                    spec_substitute(
                        old(self).spec_rules()[r]@.conclusion,
                        single_fired_bindings(old(self).spec_rules()[r]@, concept@.term),
                    ),
                ) || final(self).spec_concepts().len() == old(self).spec_capacity(),
    {
        let ghost tx = concept@.term;
        let mut inferences: Vec<(usize, Bindings)> = Vec::new();
        let mut idx: usize = 0;
        while idx < self.rules.len()
            invariant
                self.wf(),
                self.spec_outputs() == old(self).spec_outputs(),
                self.spec_concepts() == old(self).spec_concepts(),
                self.spec_rules() == old(self).spec_rules(),
                idx <= self.spec_rules().len(),
                forall|j: int| 0 <= j < inferences@.len() ==> (#[trigger] inferences@[j].1).wf(),
                forall|j: int|
                    0 <= j < inferences@.len() ==> (#[trigger] inferences@[j]).0 < idx,
                forall|j: int|
                    0 <= j < inferences@.len() ==> one_premise_match(
                        self.spec_rules()[(#[trigger] inferences@[j]).0 as int]@,
                        tx,
                        inferences@[j].1@,
                    ),
                forall|r: int|
                    0 <= r < idx && single_rule_fires((#[trigger] self.spec_rules()[r])@, tx)
                        ==> exists|j: int|
                        0 <= j < inferences@.len() && (#[trigger] inferences@[j]).0 == r
                            && inferences@[j].1@ == single_fired_bindings(
                            self.spec_rules()[r]@,
                            tx,
                        ),
            decreases self.spec_rules().len() - idx,
        {
            let rule = &self.rules[idx];
            let ghost rm = self.spec_rules()[idx as int]@;
            let ghost inf0 = inferences@;
            proof {
                crate::term::lemma_terms_model_len(rule.premises@);
                if rule.premises@.len() >= 1 {
                    crate::term::lemma_terms_model_index(rule.premises@, 0);
                }
            }
            if rule.premises.len() == 1 {
                let empty = Bindings::new();
                match unify_with_bindings(&rule.premises[0], &concept.term, empty) {
                    Some(b) => {
                        let ghost gb = b@;
                        proof {
                            assert(spec_unify(rm.premises[0], tx, Map::empty(), UNIFY_FUEL as nat)
                                == Some(gb));
                            assert(one_premise_match(rm, tx, gb));
                        }
                        inferences.push((idx, b));
                        proof {
                            assert(inferences@ =~= inf0.push((idx, inferences@.last().1)));
                            assert(inferences@.last().0 == idx && inferences@.last().1@ == gb);
                            assert forall|r: int|
                                0 <= r < idx + 1 && single_rule_fires(
                                    (#[trigger] self.spec_rules()[r])@,
                                    tx,
                                ) implies exists|j: int|
                                0 <= j < inferences@.len() && (#[trigger] inferences@[j]).0 == r
                                    && inferences@[j].1@ == single_fired_bindings(
                                    self.spec_rules()[r]@,
                                    tx,
                                ) by {
                                if r == idx {
                                    assert((inferences@[inferences@.len() - 1]).0 == r);
                                } else {
                                    let j = choose|j: int|
                                        0 <= j < inf0.len() && (#[trigger] inf0[j]).0 == r
                                            && inf0[j].1@ == single_fired_bindings(
                                            self.spec_rules()[r]@,
                                            tx,
                                        );
                                    assert(inferences@[j] == inf0[j]);
                                }
                            }
                        }
                    },
                    None => {
                        proof {
                            assert(spec_unify(rm.premises[0], tx, Map::empty(), UNIFY_FUEL as nat)
                                is None);
                            assert(!single_rule_fires(rm, tx));
                        }
                    },
                }
            } else {
                proof {
                    assert(rm.premises.len() != 1);
                    assert(!single_rule_fires(rm, tx));
                }
            }
            idx = idx + 1;
        }
        let ghost orig = inferences@;
        let ghost rules0 = self.spec_rules();
        proof {
            assert(forall|r: int|
                0 <= r < rules0.len() && single_rule_fires((#[trigger] rules0[r])@, tx)
                    ==> exists|j: int|
                    0 <= j < orig.len() && (#[trigger] orig[j]).0 == r && orig[j].1@
                        == single_fired_bindings(rules0[r]@, tx));
        }
        while inferences.len() > 0
            invariant
                self.wf(),
                Self::config_kept(*old(self), *self),
                outputs_extended(old(self).spec_outputs(), self.spec_outputs()),
                self.spec_rules() == rules0,
                concept_model_wf(concept@),
                inferences@.len() <= orig.len(),
                inferences@ =~= orig.subrange(
                    orig.len() - inferences@.len(),
                    orig.len() as int,
                ),
                forall|j: int| 0 <= j < orig.len() ==> (#[trigger] orig[j].1).wf(),
                forall|j: int| 0 <= j < orig.len() ==> (#[trigger] orig[j]).0 < rules0.len(),
                forall|j: int|
                    0 <= j < orig.len() ==> one_premise_match(
                        rules0[(#[trigger] orig[j]).0 as int]@,
                        tx,
                        orig[j].1@,
                    ),
                forall|j: int|
                    0 <= j < orig.len() - inferences@.len() ==> ((
                    #[trigger] orig[j]).1@ == single_fired_bindings(
                        rules0[orig[j].0 as int]@,
                        tx,
                    ) && rules0[orig[j].0 as int]@.truth_fn is Single ==> exists|k: int|
                        0 <= k < self.spec_outputs().len() && single_fired_sentence(
                            self.spec_outputs()[k],
                            rules0[orig[j].0 as int]@,
                            concept@,
                        )),
                forall|k: int|
                    #![trigger self.spec_outputs()[k]]
                    old(self).spec_outputs().len() <= k < self.spec_outputs().len()
                        ==> emitted_single_conclusion(self.spec_outputs()[k], rules0, tx),
                forall|j: int|
                    0 <= j < orig.len() - inferences@.len() ==> (rules0[(
                    #[trigger] orig[j]).0 as int]@.truth_fn is Single ==> has_term(
                        self.spec_concepts(),
                        spec_substitute(rules0[orig[j].0 as int]@.conclusion, orig[j].1@),
                    ) || self.spec_concepts().len() == old(self).spec_capacity()),
            decreases inferences@.len(),
        {
            let ghost out_start = self.spec_outputs();
            let ghost p = orig.len() - inferences@.len();
            let (rule_idx, bindings) = inferences.remove(0);
            let ghost gb = bindings@;
            proof {
                assert(orig[p] == (rule_idx, bindings));
                assert(inferences@ =~= orig.subrange(p + 1, orig.len() as int));
            }
            let truth_fn = self.rules[rule_idx].truth_fn;
            match truth_fn {
                TruthFunction::Single(sf) => {
                    let conclusion_template = self.rules[rule_idx].conclusion.clone();
                    let conclusion_term = substitute(&conclusion_template, &bindings);
                    let new_truth = apply_single_truth(sf, concept.truth);
                    let new_stamp = concept.stamp.clone();
                    let new_vector = concept.vector.clone();
                    let new_concept = Concept::new(
                        conclusion_term.clone(),
                        new_vector,
                        new_truth,
                        new_stamp.clone(),
                    );
                    let sentence = Sentence::new(
                        conclusion_term,
                        Punctuation::Judgement,
                        new_truth,
                        new_stamp,
                    );
                    let ghost gct = spec_substitute(rules0[rule_idx as int]@.conclusion, gb);
                    self.output_buffer.push(sentence);
                    let ghost out_mid = self.spec_outputs();
                    proof {
                        assert(out_mid =~= out_start.push(sentence@));
                        assert(rules0[rule_idx as int]@.truth_fn is Single);
                        assert(single_rule_fires(rules0[rule_idx as int]@, tx));
                        assert(single_fired_bindings(rules0[rule_idx as int]@, tx) == gb);
                        assert(sentence@.term == gct && sentence@.punctuation
                            == Punctuation::Judgement);
                        assert(single_fired_sentence(
                            out_mid[out_mid.len() - 1],
                            rules0[rule_idx as int]@,
                            concept@,
                        ));
                    }
                    let ghost c1 = self.spec_concepts();
                    self.add_concept(new_concept);
                    proof {
                        assert forall|j: int| 0 <= j < orig.len() - inferences@.len() implies ((
                        #[trigger] orig[j]).1@ == single_fired_bindings(
                            rules0[orig[j].0 as int]@,
                            tx,
                        ) && rules0[orig[j].0 as int]@.truth_fn is Single ==> exists|k: int|
                            0 <= k < self.spec_outputs().len() && single_fired_sentence(
                                self.spec_outputs()[k],
                                rules0[orig[j].0 as int]@,
                                concept@,
                            )) by {
                            if orig[j].1@ == single_fired_bindings(
                                rules0[orig[j].0 as int]@,
                                tx,
                            ) && rules0[orig[j].0 as int]@.truth_fn is Single {
                                if j < p {
                                    let k = choose|k: int|
                                        0 <= k < out_start.len() && single_fired_sentence(
                                            out_start[k],
                                            rules0[orig[j].0 as int]@,
                                            concept@,
                                        );
                                    assert(self.spec_outputs()[k] == out_start[k]);
                                } else {
                                    let k = out_mid.len() - 1;
                                    assert(self.spec_outputs()[k] == out_mid[k]);
                                }
                            }
                        }
                        // every appended sentence carries a firing conclusion
                        assert forall|k: int|
                            old(self).spec_outputs().len() <= k < self.spec_outputs().len()
                                implies emitted_single_conclusion(
                            #[trigger] self.spec_outputs()[k],
                            rules0,
                            tx,
                        ) by {
                            if k < out_start.len() {
                                assert(self.spec_outputs()[k] == out_start[k]);
                            } else if k == out_start.len() {
                                assert(self.spec_outputs()[k] == out_mid[k]);
                                assert(self.spec_outputs()[k] == sentence@);
                                assert(emitted_single_conclusion(sentence@, rules0, tx));
                            } else {
                                assert(k == self.spec_outputs().len() - 1 && k == out_mid.len());
                                assert(has_term(c1, new_concept@.term));
                                let i = choose|i: int|
                                    0 <= i < c1.len() && c1[i].term == new_concept@.term
                                        && self.spec_outputs().last() == revision_sentence(
                                        c1[i],
                                        new_concept@.truth,
                                    );
                                assert(self.spec_outputs()[k].term == gct);
                                assert(self.spec_outputs()[k].punctuation
                                    == Punctuation::Judgement);
                            }
                        }
                        // processed conclusions stand in memory, or memory
                        // is full
                        assert forall|j: int| 0 <= j < orig.len() - inferences@.len() implies (
                        rules0[(#[trigger] orig[j]).0 as int]@.truth_fn is Single ==> has_term(
                            self.spec_concepts(),
                            spec_substitute(rules0[orig[j].0 as int]@.conclusion, orig[j].1@),
                        ) || self.spec_concepts().len() == old(self).spec_capacity()) by {
                            if rules0[orig[j].0 as int]@.truth_fn is Single {
                                let c = spec_substitute(
                                    rules0[orig[j].0 as int]@.conclusion,
                                    orig[j].1@,
                                );
                                if j < p {
                                    if has_term(c1, c) {
                                        if self.spec_concepts().len() < old(self).spec_capacity() {
                                        } else {
                                            assert(self.spec_concepts().len() == old(
                                                self,
                                            ).spec_capacity());
                                        }
                                    } else {
                                        assert(c1.len() == old(self).spec_capacity());
                                        assert(self.spec_concepts().len() == old(
                                            self,
                                        ).spec_capacity());
                                    }
                                } else {
                                    assert(has_term(self.spec_concepts(), new_concept@.term));
                                    assert(new_concept@.term == c);
                                }
                            }
                        }
                    }
                },
                TruthFunction::Double(_) => {
                    proof {
                        assert forall|j: int| 0 <= j < orig.len() - inferences@.len() implies ((
                        #[trigger] orig[j]).1@ == single_fired_bindings(
                            rules0[orig[j].0 as int]@,
                            tx,
                        ) && rules0[orig[j].0 as int]@.truth_fn is Single ==> exists|k: int|
                            0 <= k < self.spec_outputs().len() && single_fired_sentence(
                                self.spec_outputs()[k],
                                rules0[orig[j].0 as int]@,
                                concept@,
                            )) by {
                            if j < p && orig[j].1@ == single_fired_bindings(
                                rules0[orig[j].0 as int]@,
                                tx,
                            ) && rules0[orig[j].0 as int]@.truth_fn is Single {
                                let k = choose|k: int|
                                    0 <= k < out_start.len() && single_fired_sentence(
                                        out_start[k],
                                        rules0[orig[j].0 as int]@,
                                        concept@,
                                    );
                                assert(self.spec_outputs()[k] == out_start[k]);
                            }
                        }
                        // a two-premise entry of a one-premise pass changes
                        // nothing: the entry's rule is not a single rule
                        assert forall|j: int| 0 <= j < orig.len() - inferences@.len() implies (
                        rules0[(#[trigger] orig[j]).0 as int]@.truth_fn is Single ==> has_term(
                            self.spec_concepts(),
                            spec_substitute(rules0[orig[j].0 as int]@.conclusion, orig[j].1@),
                        ) || self.spec_concepts().len() == old(self).spec_capacity()) by {
                            if j == p {
                                assert(rules0[orig[p].0 as int]@.truth_fn is Double);
                            }
                        }
                    }
                },
            }
        }
        proof {
            assert forall|r: int|
                0 <= r < old(self).spec_rules().len() && single_rule_fires(
                    (#[trigger] old(self).spec_rules()[r])@,
                    tx,
                ) implies exists|k: int|
                0 <= k < self.spec_outputs().len() && single_fired_sentence(
                    self.spec_outputs()[k],
                    old(self).spec_rules()[r]@,
                    concept@,
                ) by {
                let j = choose|j: int|
                    0 <= j < orig.len() && (#[trigger] orig[j]).0 == r && orig[j].1@
                        == single_fired_bindings(rules0[r]@, tx);
            }
            assert forall|r: int|
                0 <= r < old(self).spec_rules().len() && single_rule_fires(
                    (#[trigger] old(self).spec_rules()[r])@,
                    tx,
                ) implies has_term(
                self.spec_concepts(),
                spec_substitute(
                    old(self).spec_rules()[r]@.conclusion,
                    single_fired_bindings(old(self).spec_rules()[r]@, tx),
                ),
            ) || self.spec_concepts().len() == old(self).spec_capacity() by {
                let j = choose|j: int|
                    0 <= j < orig.len() && (#[trigger] orig[j]).0 == r && orig[j].1@
                        == single_fired_bindings(rules0[r]@, tx);
            }
        }
    }

    /// Answer a query: the belief for the term whose confidence is above
    /// the floor and maximal, or nothing.
    pub fn answer(&self, term: &Term) -> (r: Option<Sentence>)
        ensures
            match r {
                Some(s) => exists|i: int|
                    {
                        &&& 0 <= i < self.spec_concepts().len()
                        &&& self.spec_concepts()[i].term == term@
                        &&& exists|j: int|
                            0 <= j < self.spec_concepts()[i].beliefs.len() && self.spec_concepts(
                            )[i].beliefs[j] == s@
                        &&& s@.truth.confidence > ANSWER_CONFIDENCE_FLOOR
                        &&& forall|j: int|
                            0 <= j < self.spec_concepts()[i].beliefs.len() ==> (
                            #[trigger] self.spec_concepts()[i].beliefs[j]).truth.confidence
                                <= s@.truth.confidence
                    },
                None => !has_term(self.spec_concepts(), term@) || exists|i: int|
                    {
                        &&& 0 <= i < self.spec_concepts().len()
                        &&& self.spec_concepts()[i].term == term@
                        &&& forall|j: int|
                            0 <= j < self.spec_concepts()[i].beliefs.len() ==> (
                            #[trigger] self.spec_concepts()[i].beliefs[j]).truth.confidence
                                <= ANSWER_CONFIDENCE_FLOOR
                    },
            },
    {
        let i = match self.store.find_index(term) {
            Some(i) => i,
            None => {
                return None;
            },
        };
        let concept = self.store.concept_at(i);
        let mut best: Option<usize> = None;
        let mut j: usize = 0;
        while j < concept.beliefs.len()
            invariant
                j <= concept.beliefs@.len(),
                match best {
                    Some(bj) => 0 <= bj < j && concept.beliefs@[bj as int].truth.confidence
                        > ANSWER_CONFIDENCE_FLOOR && forall|l: int|
                        0 <= l < j ==> (#[trigger] concept.beliefs@[l]).truth.confidence
                            <= concept.beliefs@[bj as int].truth.confidence,
                    None => forall|l: int|
                        0 <= l < j ==> (#[trigger] concept.beliefs@[l]).truth.confidence
                            <= ANSWER_CONFIDENCE_FLOOR,
                },
            decreases concept.beliefs@.len() - j,
        {
            let c = concept.beliefs[j].truth.confidence;
            let better = match best {
                Some(bj) => c > concept.beliefs[bj].truth.confidence,
                None => c > ANSWER_CONFIDENCE_FLOOR,
            };
            if better && c > ANSWER_CONFIDENCE_FLOOR {
                best = Some(j);
            }
            j = j + 1;
        }
        match best {
            Some(bj) => {
                let s = concept.beliefs[bj].clone();
                proof {
                    assert(self.spec_concepts()[i as int].beliefs[bj as int] == s@);
                }
                Some(s)
            },
            None => None,
        }
    }
}

} // verus!
