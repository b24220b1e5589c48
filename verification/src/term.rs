//! The term model: atoms, variables and compounds, with structural identity.
//!
//! Two terms denote the same concept exactly when they are structurally
//! identical. In contracts a term is abstracted to a `TermModel`, a pure
//! value whose equality is that structural identity.

use vstd::prelude::*;
use vstd::string::StringSliceAdditionalSpecFns;

verus! {

broadcast use vstd::seq::group_seq_axioms, vstd::std_specs::vec::group_vec_axioms;

/// The three kinds of Narsese variables.
#[derive(Clone, Copy, Debug, PartialEq, Eq, Structural)]
pub enum VarType {
    Independent,
    Dependent,
    Query,
}

/// The NAL connectives and copulas, plus an open escape for custom operators.
#[derive(Debug)]
pub enum Operator {
    Inheritance,
    Implication,
    Similarity,
    Equivalence,
    Instance,
    Property,
    InstanceProperty,
    Product,
    ExtIntersection,
    IntIntersection,
    Difference,
    ExtSet,
    IntSet,
    Negation,
    Conjunction,
    Disjunction,
    ExtImage,
    IntImage,
    ConcurrentImplication,
    PredictiveImplication,
    RetrospectiveImplication,
    ConcurrentEquivalence,
    PredictiveEquivalence,
    RetrospectiveEquivalence,
    ParallelEvents,
    SequentialEvents,
    List,
    Op,
    Other(String),
}

/// The mathematical image of an `Operator`: a custom operator is identified
/// by its character sequence.
pub enum OpModel {
    Inheritance,
    Implication,
    Similarity,
    Equivalence,
    Instance,
    Property,
    InstanceProperty,
    Product,
    ExtIntersection,
    IntIntersection,
    Difference,
    ExtSet,
    IntSet,
    Negation,
    Conjunction,
    Disjunction,
    ExtImage,
    IntImage,
    ConcurrentImplication,
    PredictiveImplication,
    RetrospectiveImplication,
    ConcurrentEquivalence,
    PredictiveEquivalence,
    RetrospectiveEquivalence,
    ParallelEvents,
    SequentialEvents,
    List,
    Op,
    Other(Seq<char>),
}

impl View for Operator {
    type V = OpModel;

    open spec fn view(&self) -> OpModel {
        match self {
            Operator::Inheritance => OpModel::Inheritance,
            Operator::Implication => OpModel::Implication,
            Operator::Similarity => OpModel::Similarity,
            Operator::Equivalence => OpModel::Equivalence,
            Operator::Instance => OpModel::Instance,
            Operator::Property => OpModel::Property,
            Operator::InstanceProperty => OpModel::InstanceProperty,
            Operator::Product => OpModel::Product,
            Operator::ExtIntersection => OpModel::ExtIntersection,
            Operator::IntIntersection => OpModel::IntIntersection,
            Operator::Difference => OpModel::Difference,
            Operator::ExtSet => OpModel::ExtSet,
            Operator::IntSet => OpModel::IntSet,
            Operator::Negation => OpModel::Negation,
            Operator::Conjunction => OpModel::Conjunction,
            Operator::Disjunction => OpModel::Disjunction,
            Operator::ExtImage => OpModel::ExtImage,
            Operator::IntImage => OpModel::IntImage,
            Operator::ConcurrentImplication => OpModel::ConcurrentImplication,
            Operator::PredictiveImplication => OpModel::PredictiveImplication,
            Operator::RetrospectiveImplication => OpModel::RetrospectiveImplication,
            Operator::ConcurrentEquivalence => OpModel::ConcurrentEquivalence,
            Operator::PredictiveEquivalence => OpModel::PredictiveEquivalence,
            Operator::RetrospectiveEquivalence => OpModel::RetrospectiveEquivalence,
            Operator::ParallelEvents => OpModel::ParallelEvents,
            Operator::SequentialEvents => OpModel::SequentialEvents,
            Operator::List => OpModel::List,
            Operator::Op => OpModel::Op,
            Operator::Other(s) => OpModel::Other(s@),
        }
    }
}

impl Clone for Operator {
    fn clone(&self) -> (r: Self)
        ensures
            r@ == self@,
    {
        match self {
            Operator::Inheritance => Operator::Inheritance,
            Operator::Implication => Operator::Implication,
            Operator::Similarity => Operator::Similarity,
            Operator::Equivalence => Operator::Equivalence,
            Operator::Instance => Operator::Instance,
            Operator::Property => Operator::Property,
            Operator::InstanceProperty => Operator::InstanceProperty,
            Operator::Product => Operator::Product,
            Operator::ExtIntersection => Operator::ExtIntersection,
            Operator::IntIntersection => Operator::IntIntersection,
            Operator::Difference => Operator::Difference,
            Operator::ExtSet => Operator::ExtSet,
            Operator::IntSet => Operator::IntSet,
            Operator::Negation => Operator::Negation,
            Operator::Conjunction => Operator::Conjunction,
            Operator::Disjunction => Operator::Disjunction,
            Operator::ExtImage => Operator::ExtImage,
            Operator::IntImage => Operator::IntImage,
            Operator::ConcurrentImplication => Operator::ConcurrentImplication,
            Operator::PredictiveImplication => Operator::PredictiveImplication,
            Operator::RetrospectiveImplication => Operator::RetrospectiveImplication,
            Operator::ConcurrentEquivalence => Operator::ConcurrentEquivalence,
            Operator::PredictiveEquivalence => Operator::PredictiveEquivalence,
            Operator::RetrospectiveEquivalence => Operator::RetrospectiveEquivalence,
            Operator::ParallelEvents => Operator::ParallelEvents,
            Operator::SequentialEvents => Operator::SequentialEvents,
            Operator::List => Operator::List,
            Operator::Op => Operator::Op,
            Operator::Other(s) => Operator::Other(s.clone()),
        }
    }
}

/// A term: an atom, a variable, or a compound with an operator and ordered
/// children. Identity is structural.
#[derive(Debug)]
pub enum Term {
    Atom(u64),
    Var(VarType, u64),
    Compound(Operator, Vec<Term>),
}

/// The mathematical image of a `Term`.
pub enum TermModel {
    Atom(u64),
    Var(VarType, u64),
    Compound(OpModel, Seq<TermModel>),
}

/// The images of a sequence of terms, elementwise.
pub open spec fn terms_model(s: Seq<Term>) -> Seq<TermModel>
    decreases s,
{
    if s.len() == 0 {
        Seq::empty()
    } else {
        terms_model(s.drop_last()).push(term_model(s.last()))
    }
}

/// The image of a term.
pub open spec fn term_model(t: Term) -> TermModel
    decreases t,
{
    match t {
        Term::Atom(id) => TermModel::Atom(id),
        Term::Var(k, id) => TermModel::Var(k, id),
        Term::Compound(op, args) => TermModel::Compound(op@, terms_model(args@)),
    }
}

impl View for Term {
    type V = TermModel;

    open spec fn view(&self) -> TermModel {
        term_model(*self)
    }
}

/// A term sequence and its image have the same length.
pub broadcast proof fn lemma_terms_model_len(s: Seq<Term>)
    ensures
        #[trigger] terms_model(s).len() == s.len(),
    decreases s.len(),
{
    if s.len() > 0 {
        lemma_terms_model_len(s.drop_last());
    }
}

/// The image of a term sequence is the elementwise image.
pub broadcast proof fn lemma_terms_model_index(s: Seq<Term>, i: int)
    requires
        0 <= i < s.len(),
    ensures
        #[trigger] terms_model(s)[i] == term_model(s[i]),
    decreases s.len(),
{
    lemma_terms_model_len(s);
    if s.len() > 0 && i < s.len() - 1 {
        lemma_terms_model_index(s.drop_last(), i);
    }
}

/// The FNV-1a offset basis.
pub const FNV_OFFSET: u64 = 0xcbf29ce484222325;

/// The FNV-1a prime.
pub const FNV_PRIME: u64 = 0x100000001b3;

/// One FNV-1a step: fold a byte into the running hash.
pub open spec fn fnv_step(h: u64, b: u8) -> u64 {
    (((h ^ (b as u64)) * (FNV_PRIME as int)) % 0x1_0000_0000_0000_0000) as u64
}

/// The FNV-1a hash of the first `n` bytes of a byte sequence.
pub open spec fn fnv_prefix(bytes: Seq<u8>, n: int) -> u64
    decreases n,
{
    if n <= 0 {
        FNV_OFFSET
    } else {
        fnv_step(fnv_prefix(bytes, n - 1), bytes[n - 1])
    }
}

/// The deterministic content hash of a symbol: FNV-1a over its UTF-8 bytes.
pub open spec fn spec_hash_bytes(bytes: Seq<u8>) -> u64 {
    fnv_prefix(bytes, bytes.len() as int)
}

/// FNV-1a over the UTF-8 bytes of a string slice.
pub fn deterministic_hash(s: &str) -> (r: u64)
    ensures
        r == spec_hash_bytes(s.spec_bytes()),
{
    let bytes = s.as_bytes();
    let mut h: u64 = FNV_OFFSET;
    let mut i: usize = 0;
    while i < bytes.len()
        invariant
            i <= bytes@.len(),
            bytes@ == s.spec_bytes(),
            h == fnv_prefix(bytes@, i as int),
        decreases bytes@.len() - i,
    {
        h = h ^ (bytes[i] as u64);
        h = h.wrapping_mul(FNV_PRIME);
        i = i + 1;
    }
    h
}

impl Term {
    /// An atom whose identity is the content hash of its symbol.
    pub fn atom_from_str(s: &str) -> (r: Term)
        ensures
            r@ == TermModel::Atom(spec_hash_bytes(s.spec_bytes())),
    {
        Term::Atom(deterministic_hash(s))
    }

    /// A variable whose identity is the content hash of its name.
    pub fn var_from_str(type_: VarType, s: &str) -> (r: Term)
        ensures
            r@ == TermModel::Var(type_, spec_hash_bytes(s.spec_bytes())),
    {
        Term::Var(type_, deterministic_hash(s))
    }
}

/// Whether two operators have the same image.
pub fn ops_match(a: &Operator, b: &Operator) -> (r: bool)
    ensures
        r == (a@ == b@),
{
    match (a, b) {
        (Operator::Inheritance, Operator::Inheritance) => true,
        (Operator::Implication, Operator::Implication) => true,
        (Operator::Similarity, Operator::Similarity) => true,
        (Operator::Equivalence, Operator::Equivalence) => true,
        (Operator::Instance, Operator::Instance) => true,
        (Operator::Property, Operator::Property) => true,
        (Operator::InstanceProperty, Operator::InstanceProperty) => true,
        (Operator::Product, Operator::Product) => true,
        (Operator::ExtIntersection, Operator::ExtIntersection) => true,
        (Operator::IntIntersection, Operator::IntIntersection) => true,
        (Operator::Difference, Operator::Difference) => true,
        (Operator::ExtSet, Operator::ExtSet) => true,
        (Operator::IntSet, Operator::IntSet) => true,
        (Operator::Negation, Operator::Negation) => true,
        (Operator::Conjunction, Operator::Conjunction) => true,
        (Operator::Disjunction, Operator::Disjunction) => true,
        (Operator::ExtImage, Operator::ExtImage) => true,
        (Operator::IntImage, Operator::IntImage) => true,
        (Operator::ConcurrentImplication, Operator::ConcurrentImplication) => true,
        (Operator::PredictiveImplication, Operator::PredictiveImplication) => true,
        (Operator::RetrospectiveImplication, Operator::RetrospectiveImplication) => true,
        (Operator::ConcurrentEquivalence, Operator::ConcurrentEquivalence) => true,
        (Operator::PredictiveEquivalence, Operator::PredictiveEquivalence) => true,
        (Operator::RetrospectiveEquivalence, Operator::RetrospectiveEquivalence) => true,
        (Operator::ParallelEvents, Operator::ParallelEvents) => true,
        (Operator::SequentialEvents, Operator::SequentialEvents) => true,
        (Operator::List, Operator::List) => true,
        (Operator::Op, Operator::Op) => true,
        (Operator::Other(s1), Operator::Other(s2)) => *s1 == *s2,
        _ => false,
    }
}

/// Whether two terms are structurally identical.
#[verifier::loop_isolation(false)]
pub fn terms_match(t1: &Term, t2: &Term) -> (r: bool)
    ensures
        r == (t1@ == t2@),
    decreases *t1,
{
    broadcast use lemma_terms_model_len, lemma_terms_model_index;

    match (t1, t2) {
        (Term::Atom(a), Term::Atom(b)) => a == b,
        (Term::Var(k1, a), Term::Var(k2, b)) => k1 == k2 && a == b,
        (Term::Compound(op1, args1), Term::Compound(op2, args2)) => {
            if !ops_match(op1, op2) {
                return false;
            }
            if args1.len() != args2.len() {
                proof {
                    lemma_terms_model_len(args1@);
                    lemma_terms_model_len(args2@);
                }
                return false;
            }
            let mut i: usize = 0;
            while i < args1.len()
                invariant
                    i <= args1@.len(),
                    args1@.len() == args2@.len(),
                    forall|j: int|
                        0 <= j < i ==> #[trigger] term_model(args1@[j]) == term_model(args2@[j]),
                decreases args1@.len() - i,
            {
                proof {
                    assert(decreases_to!(*t1 => t1->Compound_1));
                    assert(decreases_to!(*args1 => args1@));
                    assert(decreases_to!(args1@ => args1@[i as int]));
                    lemma_terms_model_index(args1@, i as int);
                    lemma_terms_model_index(args2@, i as int);
                }
                if !terms_match(&args1[i], &args2[i]) {
                    return false;
                }
                i = i + 1;
            }
            proof {
                assert(terms_model(args1@) =~= terms_model(args2@));
            }
            true
        },
        _ => false,
    }
}

impl Clone for Term {
    #[verifier::loop_isolation(false)]
    fn clone(&self) -> (r: Self)
        ensures
            r@ == self@,
        decreases *self,
    {
        broadcast use lemma_terms_model_len, lemma_terms_model_index;

        match self {
            Term::Atom(id) => Term::Atom(*id),
            Term::Var(k, id) => Term::Var(*k, *id),
            Term::Compound(op, args) => {
                let mut new_args: Vec<Term> = Vec::new();
                let mut i: usize = 0;
                while i < args.len()
                    invariant
                        i <= args@.len(),
                        new_args@.len() == i,
                        forall|j: int|
                            0 <= j < i ==> #[trigger] term_model(new_args@[j]) == term_model(
                                args@[j],
                            ),
                    decreases args@.len() - i,
                {
                    proof {
                        assert(decreases_to!(*self => self->Compound_1));
                        assert(decreases_to!(*args => args@));
                        assert(decreases_to!(args@ => args@[i as int]));
                    }
                    new_args.push(args[i].clone());
                    i = i + 1;
                }
                proof {
                    assert(terms_model(new_args@) =~= terms_model(args@));
                }
                Term::Compound(op.clone(), new_args)
            },
        }
    }
}

impl PartialEq for Term {
    fn eq(&self, other: &Self) -> (r: bool)
        ensures
            r == (self@ == other@),
    {
        terms_match(self, other)
    }
}

impl vstd::std_specs::cmp::PartialEqSpecImpl for Term {
    open spec fn obeys_eq_spec() -> bool {
        true
    }

    open spec fn eq_spec(&self, other: &Term) -> bool {
        self@ == other@
    }
}

} // verus!
