//! Hyperdimensional vector algebra: fixed-width bit vectors with XOR
//! binding, majority-vote bundling, Hamming similarity, Hebbian updating and
//! deterministic term embedding.

use vstd::prelude::*;
use vstd::utf8::encode_utf8;
use crate::rng::{random_vector, seeded_vector, seeded_words};
use crate::scale::UNIT;
use crate::term::{
    deterministic_hash, lemma_terms_model_index, lemma_terms_model_len, spec_hash_bytes,
    term_model, terms_model, Operator, OpModel, Term, TermModel,
};

verus! {

broadcast use vstd::seq::group_seq_axioms, vstd::std_specs::vec::group_vec_axioms;

/// The number of 64-bit words in a hypervector.
pub const HV_WORDS: usize = 157;

/// The number of bits in a hypervector.
pub const HV_BITS: usize = 10048;

/// The seed of the fixed bias vector appended when a compound would
/// otherwise bundle an even number of inputs.
pub const BIAS_SEED: u64 = 99999;

/// A fixed-width bit vector holding a distributed semantic embedding.
#[derive(Debug)]
pub struct Hypervector {
    bits: Vec<u64>,
}

impl View for Hypervector {
    type V = Seq<u64>;

    closed spec fn view(&self) -> Seq<u64> {
        self.bits@
    }
}

impl Clone for Hypervector {
    fn clone(&self) -> (r: Self)
        ensures
            r@ == self@,
    {
        let r = Hypervector { bits: self.bits.clone() };
        proof {
            assert(r.bits@ =~= self.bits@);
        }
        r
    }
}

impl PartialEq for Hypervector {
    fn eq(&self, other: &Self) -> (r: bool)
        ensures
            r == (self@ == other@),
    {
        let mut i: usize = 0;
        if self.bits.len() != other.bits.len() {
            return false;
        }
        while i < self.bits.len()
            invariant
                i <= self.bits@.len(),
                self.bits@.len() == other.bits@.len(),
                forall|k: int| 0 <= k < i ==> self.bits@[k] == other.bits@[k],
            decreases self.bits@.len() - i,
        {
            if self.bits[i] != other.bits[i] {
                return false;
            }
            i = i + 1;
        }
        proof {
            assert(self.bits@ =~= other.bits@);
        }
        true
    }
}

impl vstd::std_specs::cmp::PartialEqSpecImpl for Hypervector {
    open spec fn obeys_eq_spec() -> bool {
        true
    }

    open spec fn eq_spec(&self, other: &Hypervector) -> bool {
        self@ == other@
    }
}

/// Bit `j` of a word sequence, counting from the least significant bit of
/// the first word.
pub open spec fn hv_bit(w: Seq<u64>, j: int) -> bool {
    (w[j / 64] >> ((j % 64) as u64)) & 1 == 1
}

/// The all-zero word sequence.
pub open spec fn spec_empty() -> Seq<u64> {
    Seq::new(HV_WORDS as nat, |i: int| 0u64)
}

/// The wordwise XOR of two word sequences.
pub open spec fn spec_bind(a: Seq<u64>, b: Seq<u64>) -> Seq<u64> {
    Seq::new(a.len(), |i: int| a[i] ^ b[i])
}

/// How many of the first `n` bit positions differ between two vectors.
pub open spec fn diff_count(a: Seq<u64>, b: Seq<u64>, n: int) -> int
    decreases n,
{
    if n <= 0 {
        0
    } else {
        diff_count(a, b, n - 1) + if hv_bit(a, n - 1) != hv_bit(b, n - 1) {
            1int
        } else {
            0int
        }
    }
}

/// Normalized Hamming similarity in fixed point: 1 minus the fraction of
/// differing bits.
pub open spec fn spec_similarity(a: Seq<u64>, b: Seq<u64>) -> int {
    (HV_BITS - diff_count(a, b, HV_BITS as int)) * (UNIT as int) / (HV_BITS as int)
}

/// How many of the first `k` input vectors have bit `j` set.
pub open spec fn ones_at(vs: Seq<Seq<u64>>, j: int, k: int) -> int
    decreases k,
{
    if k <= 0 {
        0
    } else {
        ones_at(vs, j, k - 1) + if hv_bit(vs[k - 1], j) {
            1int
        } else {
            0int
        }
    }
}

/// The majority vote at bit `j`: set exactly when strictly more than half
/// the inputs have it set.
pub open spec fn bundle_bit(vs: Seq<Seq<u64>>, j: int) -> bool {
    ones_at(vs, j, vs.len() as int) > vs.len() as int / 2
}

/// Word `i` of the bundle, built up one bit at a time from the low `o` bits.
pub open spec fn build_word(vs: Seq<Seq<u64>>, i: int, o: int) -> u64
    decreases o,
{
    if o <= 0 {
        0u64
    } else {
        let rest = build_word(vs, i, o - 1);
        if bundle_bit(vs, 64 * i + (o - 1)) {
            rest | (1u64 << ((o - 1) as u64))
        } else {
            rest
        }
    }
}

/// The majority-vote bundle of a sequence of vectors.
pub open spec fn spec_bundle(vs: Seq<Seq<u64>>) -> Seq<u64> {
    Seq::new(HV_WORDS as nat, |i: int| build_word(vs, i, 64))
}

/// The views of a sequence of hypervectors.
pub open spec fn views_of(s: Seq<Hypervector>) -> Seq<Seq<u64>> {
    Seq::new(s.len(), |i: int| s[i]@)
}

/// The number of differing bit positions never exceeds the number counted.
proof fn lemma_diff_count_bound(a: Seq<u64>, b: Seq<u64>, n: int)
    ensures
        0 <= diff_count(a, b, n) <= if n <= 0 {
            0
        } else {
            n
        },
    decreases n,
{
    if n > 0 {
        lemma_diff_count_bound(a, b, n - 1);
    }
}

/// A vector differs from itself at no bit position.
proof fn lemma_diff_count_self(v: Seq<u64>, n: int)
    ensures
        diff_count(v, v, n) == 0,
    decreases n,
{
    if n > 0 {
        lemma_diff_count_self(v, n - 1);
    }
}

/// Counting differing bits does not depend on the order of the two vectors.
proof fn lemma_diff_count_symmetric(a: Seq<u64>, b: Seq<u64>, n: int)
    ensures
        diff_count(a, b, n) == diff_count(b, a, n),
    decreases n,
{
    if n > 0 {
        lemma_diff_count_symmetric(a, b, n - 1);
    }
}

/// A vector's similarity to itself is exactly 1.
pub proof fn lemma_similarity_self(v: Seq<u64>)
    ensures
        spec_similarity(v, v) == UNIT,
{
    lemma_diff_count_self(v, HV_BITS as int);
}

/// Similarity does not depend on the order of its two arguments.
pub proof fn lemma_similarity_symmetric(a: Seq<u64>, b: Seq<u64>)
    ensures
        spec_similarity(a, b) == spec_similarity(b, a),
{
    lemma_diff_count_symmetric(a, b, HV_BITS as int);
}

/// Binding with the same vector twice restores the original: XOR is its own
/// inverse.
pub proof fn lemma_bind_involution(a: Seq<u64>, b: Seq<u64>)
    requires
        a.len() == b.len(),
    ensures
        spec_bind(spec_bind(a, b), b) == a,
{
    assert(forall|x: u64, y: u64| ((x ^ y) ^ y) == x) by (bit_vector);
    assert(spec_bind(spec_bind(a, b), b) =~= a);
}

impl Hypervector {
    /// The vector holds exactly `HV_WORDS` words.
    pub open spec fn wf(self) -> bool {
        self@.len() == HV_WORDS
    }

    /// The all-zeros vector.
    pub fn empty() -> (r: Hypervector)
        ensures
            r@ == spec_empty(),
            r.wf(),
    {
        let mut bits: Vec<u64> = Vec::new();
        let mut i: usize = 0;
        while i < HV_WORDS
            invariant
                i <= HV_WORDS,
                bits@.len() == i,
                forall|k: int| 0 <= k < i ==> bits@[k] == 0u64,
            decreases HV_WORDS - i,
        {
            bits.push(0);
            i = i + 1;
        }
        proof {
            assert(bits@ =~= spec_empty());
        }
        Hypervector { bits }
    }

    /// A vector of ambient-random words.
    pub fn random() -> (r: Hypervector)
        ensures
            r.wf(),
    {
        Hypervector { bits: random_vector() }
    }

    /// A vector built from exactly `HV_WORDS` words, as an external
    /// projection hands them in.
    pub fn from_words(words: Vec<u64>) -> (r: Option<Hypervector>)
        ensures
            match r {
                Some(v) => words@.len() == HV_WORDS && v@ == words@,
                None => words@.len() != HV_WORDS,
            },
    {
        if words.len() == HV_WORDS {
            Some(Hypervector { bits: words })
        } else {
            None
        }
    }

    /// The fixed vector drawn from a seeded generator: a function of the
    /// seed alone.
    pub fn seeded(seed: u64) -> (r: Hypervector)
        ensures
            r@ == seeded_words(seed),
            r.wf(),
    {
        Hypervector { bits: seeded_vector(seed) }
    }

    /// Bitwise XOR binding. Self-inverse: see `lemma_bind_involution`.
    pub fn bind(&self, other: &Hypervector) -> (r: Hypervector)
        requires
            self.wf(),
            other.wf(),
        ensures
            r@ == spec_bind(self@, other@),
            r.wf(),
    {
        let mut bits: Vec<u64> = Vec::new();
        let mut i: usize = 0;
        while i < HV_WORDS
            invariant
                i <= HV_WORDS,
                self.wf(),
                other.wf(),
                bits@.len() == i,
                forall|k: int| 0 <= k < i ==> bits@[k] == (self@[k] ^ other@[k]),
            decreases HV_WORDS - i,
        {
            bits.push(self.bits[i] ^ other.bits[i]);
            i = i + 1;
        }
        proof {
            assert(bits@ =~= spec_bind(self@, other@));
        }
        Hypervector { bits }
    }

    /// Normalized Hamming similarity in fixed point: `UNIT` for identical
    /// vectors, 0 for bit-complements, about half way between for unrelated
    /// ones.
    #[verifier::loop_isolation(false)]
    pub fn similarity(&self, other: &Hypervector) -> (r: u64)
        requires
            self.wf(),
            other.wf(),
        ensures
            r == spec_similarity(self@, other@),
            r <= UNIT,
    {
        let mut count: u64 = 0;
        let mut j: usize = 0;
        while j < HV_BITS
            invariant
                j <= HV_BITS,
                count == diff_count(self@, other@, j as int),
                count <= j,
            decreases HV_BITS - j,
        {
            let wi = j / 64;
            let of = (j % 64) as u64;
            proof {
                assert(j / 64 < 157 && j % 64 < 64) by (nonlinear_arith)
                    requires
                        0 <= j < 10048usize,
                ;
                assert(forall|x: u64, s: u64| ((x >> s) & 1 == 0) || ((x >> s) & 1 == 1))
                    by (bit_vector);
            }
            let b1 = (self.bits[wi] >> of) & 1;
            let b2 = (other.bits[wi] >> of) & 1;
            if b1 != b2 {
                count = count + 1;
            }
            j = j + 1;
        }
        proof {
            lemma_diff_count_bound(self@, other@, HV_BITS as int);
        }
        ((HV_BITS as u64 - count) * UNIT) / (HV_BITS as u64)
    }

    /// The majority-vote bundle: bit `j` of the result is set exactly when
    /// strictly more than half the inputs have bit `j` set.
    #[verifier::loop_isolation(false)]
    pub fn bundle(inputs: &[Hypervector]) -> (r: Hypervector)
        requires
            forall|k: int| 0 <= k < inputs@.len() ==> (#[trigger] inputs@[k]).wf(),
        ensures
            r@ == spec_bundle(views_of(inputs@)),
            r.wf(),
    {
        let ghost vs = views_of(inputs@);
        let threshold: usize = inputs.len() / 2;
        let mut words: Vec<u64> = Vec::new();
        let mut i: usize = 0;
        while i < HV_WORDS
            invariant
                i <= HV_WORDS,
                words@.len() == i,
                forall|ii: int| 0 <= ii < i ==> words@[ii] == build_word(vs, ii, 64),
            decreases HV_WORDS - i,
        {
            let mut w: u64 = 0;
            let mut o: usize = 0;
            while o < 64
                invariant
                    o <= 64,
                    w == build_word(vs, i as int, o as int),
                decreases 64 - o,
            {
                let mut c: usize = 0;
                let mut k: usize = 0;
                proof {
                    assert((64 * i + o) / 64 == i && (64 * i + o) % 64 == o) by (nonlinear_arith)
                        requires
                            0 <= o < 64usize,
                            0 <= i,
                    ;
                }
                while k < inputs.len()
                    invariant
                        k <= inputs@.len(),
                        c <= k,
                        c == ones_at(vs, 64 * i + o, k as int),
                        (64 * i + o) / 64 == i as int,
                        (64 * i + o) % 64 == o as int,
                        i < HV_WORDS,
                        o < 64,
                    decreases inputs@.len() - k,
                {
                    if (inputs[k].bits[i] >> (o as u64)) & 1 == 1 {
                        c = c + 1;
                    }
                    k = k + 1;
                }
                if c > threshold {
                    w = w | (1u64 << (o as u64));
                }
                o = o + 1;
            }
            words.push(w);
            i = i + 1;
        }
        proof {
            assert(words@ =~= spec_bundle(vs));
        }
        Hypervector { bits: words }
    }
}


/// Bit `oo` of a partially built bundle word: set exactly when it has been
/// decided (`oo < o`) and the majority vote set it.
proof fn lemma_build_word_bit(vs: Seq<Seq<u64>>, i: int, o: int, oo: u64)
    requires
        oo < 64,
        0 <= o <= 64,
    ensures
        ((build_word(vs, i, o) >> oo) & 1 == 1) == (oo < o && bundle_bit(vs, 64 * i + oo)),
    decreases o,
{
    if o <= 0 {
        assert((0u64 >> oo) & 1 == 0) by (bit_vector);
    } else {
        lemma_build_word_bit(vs, i, o - 1, oo);
        let rest = build_word(vs, i, o - 1);
        let ob = (o - 1) as u64;
        if bundle_bit(vs, 64 * i + (o - 1)) {
            if oo == ob {
                assert(((rest | (1u64 << ob)) >> oo) & 1 == 1) by (bit_vector)
                    requires
                        oo < 64,
                        ob < 64,
                        oo == ob,
                ;
            } else {
                assert(((rest | (1u64 << ob)) >> oo) & 1 == (rest >> oo) & 1) by (bit_vector)
                    requires
                        oo < 64,
                        ob < 64,
                        oo != ob,
                ;
            }
        }
    }
}

/// Bit `j` of the bundle is the majority vote at `j`.
pub proof fn lemma_bundle_bit(vs: Seq<Seq<u64>>, j: int)
    requires
        0 <= j < HV_BITS,
    ensures
        hv_bit(spec_bundle(vs), j) == bundle_bit(vs, j),
{
    let i = j / 64;
    let o = j % 64;
    assert(0 <= i < 157 && 0 <= o < 64 && j == 64 * i + o) by (nonlinear_arith)
        requires
            0 <= j < 10048,
            i == j / 64,
            o == j % 64,
    ;
    lemma_build_word_bit(vs, i, 64, o as u64);
}

/// How many of the first `k` inputs are the vector `x` itself.
pub open spec fn count_matching(vs: Seq<Seq<u64>>, x: Seq<u64>, k: int) -> int
    decreases k,
{
    if k <= 0 {
        0
    } else {
        count_matching(vs, x, k - 1) + if vs[k - 1] == x {
            1int
        } else {
            0int
        }
    }
}

/// Copies of `x` among the inputs force the vote count toward `x`'s bit.
proof fn lemma_ones_at_matching(vs: Seq<Seq<u64>>, x: Seq<u64>, j: int, k: int)
    requires
        0 <= k,
    ensures
        0 <= count_matching(vs, x, k),
        hv_bit(x, j) ==> ones_at(vs, j, k) >= count_matching(vs, x, k),
        !hv_bit(x, j) ==> ones_at(vs, j, k) <= k - count_matching(vs, x, k),
    decreases k,
{
    if k > 0 {
        lemma_ones_at_matching(vs, x, j, k - 1);
    }
}

/// When one vector appears in a strict majority of the inputs, the bundle
/// agrees with it at every bit: the majority vote is decided by its copies.
pub proof fn lemma_bundle_majority(vs: Seq<Seq<u64>>, x: Seq<u64>)
    requires
        2 * count_matching(vs, x, vs.len() as int) > vs.len(),
    ensures
        forall|j: int| 0 <= j < HV_BITS ==> hv_bit(spec_bundle(vs), j) == hv_bit(x, j),
{
    let n = vs.len() as int;
    let m = count_matching(vs, x, n);
    assert forall|j: int| 0 <= j < HV_BITS implies hv_bit(spec_bundle(vs), j) == hv_bit(x, j) by {
        lemma_bundle_bit(vs, j);
        lemma_ones_at_matching(vs, x, j, n);
        assert(n == 2 * (n / 2) + n % 2);
    }
}

/// Bits that agree everywhere below `n` give a difference count of zero.
proof fn lemma_diff_count_zero(a: Seq<u64>, b: Seq<u64>, n: int)
    requires
        forall|j: int| 0 <= j < n ==> hv_bit(a, j) == hv_bit(b, j),
    ensures
        diff_count(a, b, n) == 0,
    decreases n,
{
    if n > 0 {
        lemma_diff_count_zero(a, b, n - 1);
    }
}

/// A disagreement at one bit position below `n` makes the difference count
/// positive.
proof fn lemma_diff_count_pos(a: Seq<u64>, b: Seq<u64>, j: int, n: int)
    requires
        0 <= j < n,
        hv_bit(a, j) != hv_bit(b, j),
    ensures
        diff_count(a, b, n) >= 1,
    decreases n,
{
    lemma_diff_count_bound(a, b, n - 1);
    if j < n - 1 {
        lemma_diff_count_pos(a, b, j, n - 1);
    }
}

/// The bundle of inputs dominated by `x` is maximally similar to `x` —
/// exactly 1, and in particular above 0.8 — and strictly more similar to
/// `x` than to any vector that differs from `x` at some bit.
pub proof fn lemma_bundle_majority_similarity(vs: Seq<Seq<u64>>, x: Seq<u64>, y: Seq<u64>)
    requires
        2 * count_matching(vs, x, vs.len() as int) > vs.len(),
        exists|j: int| 0 <= j < HV_BITS && hv_bit(y, j) != hv_bit(x, j),
    ensures
        spec_similarity(spec_bundle(vs), x) == UNIT,
        spec_similarity(spec_bundle(vs), x) > 800_000,
        spec_similarity(spec_bundle(vs), y) < spec_similarity(spec_bundle(vs), x),
{
    let b = spec_bundle(vs);
    lemma_bundle_majority(vs, x);
    lemma_diff_count_zero(b, x, HV_BITS as int);
    let j = choose|j: int| 0 <= j < HV_BITS && hv_bit(y, j) != hv_bit(x, j);
    assert(hv_bit(b, j) != hv_bit(y, j));
    lemma_diff_count_pos(b, y, j, HV_BITS as int);
    lemma_diff_count_bound(b, y, HV_BITS as int);
    let d = diff_count(b, y, HV_BITS as int);
    assert((HV_BITS - d) * (UNIT as int) / (HV_BITS as int) < UNIT) by (nonlinear_arith)
        requires
            1 <= d <= HV_BITS as int,
            HV_BITS == 10048,
            UNIT == 1_000_000u64,
    ;
}

/// How many bundle copies a Hebbian update of the given weight casts:
/// `weight` times ten, rounded to the nearest whole number.
pub open spec fn spec_update_k(weight: u64) -> int {
    (20 * weight + UNIT) / (2 * (UNIT as int))
}

/// The bundle inputs of a Hebbian update: the original vector once, the new
/// information `k` times.
pub open spec fn update_inputs(orig: Seq<u64>, new: Seq<u64>, k: int) -> Seq<Seq<u64>> {
    Seq::new((k + 1) as nat, |i: int| if i == 0 { orig } else { new })
}

/// The seed of each built-in operator's vector; a custom operator is seeded
/// by the content hash of its name.
pub open spec fn op_seed(op: OpModel) -> u64 {
    match op {
        OpModel::Inheritance => 1,
        OpModel::Implication => 2,
        OpModel::Similarity => 3,
        OpModel::Equivalence => 4,
        OpModel::Instance => 5,
        OpModel::Property => 6,
        OpModel::InstanceProperty => 7,
        OpModel::Product => 8,
        OpModel::ExtIntersection => 9,
        OpModel::IntIntersection => 10,
        OpModel::Difference => 11,
        OpModel::ExtSet => 12,
        OpModel::IntSet => 13,
        OpModel::Negation => 14,
        OpModel::Conjunction => 15,
        OpModel::Disjunction => 16,
        OpModel::ExtImage => 17,
        OpModel::IntImage => 18,
        OpModel::ConcurrentImplication => 19,
        OpModel::PredictiveImplication => 20,
        OpModel::RetrospectiveImplication => 21,
        OpModel::ConcurrentEquivalence => 22,
        OpModel::PredictiveEquivalence => 23,
        OpModel::RetrospectiveEquivalence => 24,
        OpModel::ParallelEvents => 25,
        OpModel::SequentialEvents => 26,
        OpModel::List => 27,
        OpModel::Op => 28,
        OpModel::Other(name) => spec_hash_bytes(encode_utf8(name)),
    }
}

/// The seed of an operator's vector.
pub fn op_seed_of(op: &Operator) -> (r: u64)
    ensures
        r == op_seed(op@),
{
    match op {
        Operator::Inheritance => 1,
        Operator::Implication => 2,
        Operator::Similarity => 3,
        Operator::Equivalence => 4,
        Operator::Instance => 5,
        Operator::Property => 6,
        Operator::InstanceProperty => 7,
        Operator::Product => 8,
        Operator::ExtIntersection => 9,
        Operator::IntIntersection => 10,
        Operator::Difference => 11,
        Operator::ExtSet => 12,
        Operator::IntSet => 13,
        Operator::Negation => 14,
        Operator::Conjunction => 15,
        Operator::Disjunction => 16,
        Operator::ExtImage => 17,
        Operator::IntImage => 18,
        Operator::ConcurrentImplication => 19,
        Operator::PredictiveImplication => 20,
        Operator::RetrospectiveImplication => 21,
        Operator::ConcurrentEquivalence => 22,
        Operator::PredictiveEquivalence => 23,
        Operator::RetrospectiveEquivalence => 24,
        Operator::ParallelEvents => 25,
        Operator::SequentialEvents => 26,
        Operator::List => 27,
        Operator::Op => 28,
        Operator::Other(name) => deterministic_hash(name.as_str()),
    }
}

/// The embeddings of a sequence of child terms, elementwise.
pub open spec fn hv_children(args: Seq<TermModel>) -> Seq<Seq<u64>>
    decreases args, 0int,
{
    if args.len() == 0 {
        Seq::empty()
    } else {
        hv_children(args.drop_last()).push(hv_of_term(args.last()))
    }
}

/// The bundle inputs of a compound's embedding: the operator's seed vector,
/// the children's embeddings, and — when that list has even length — one
/// fixed bias vector to keep the majority vote well-defined.
pub open spec fn compound_inputs(op: OpModel, args: Seq<TermModel>) -> Seq<Seq<u64>>
    decreases args, 1int,
{
    let base = seq![seeded_words(op_seed(op))] + hv_children(args);
    if base.len() % 2 == 0 {
        base.push(seeded_words(BIAS_SEED))
    } else {
        base
    }
}

/// The deterministic embedding of a term: atoms and variables draw a seeded
/// vector from their content identity; compounds bundle the operator's seed
/// vector with the children's embeddings.
pub open spec fn hv_of_term(t: TermModel) -> Seq<u64>
    decreases t, 2int,
{
    match t {
        TermModel::Atom(id) => seeded_words(id),
        TermModel::Var(k, id) => seeded_words(id),
        TermModel::Compound(op, args) => spec_bundle(compound_inputs(op, args)),
    }
}

/// A child sequence and its embeddings have the same length, elementwise.
proof fn lemma_hv_children(args: Seq<TermModel>)
    ensures
        hv_children(args).len() == args.len(),
        forall|i: int| 0 <= i < args.len() ==> #[trigger] hv_children(args)[i] == hv_of_term(
            args[i],
        ),
    decreases args.len(),
{
    if args.len() > 0 {
        lemma_hv_children(args.drop_last());
    }
}

/// Embedding a term is deterministic: any two vectors that embed the same
/// term are bit-identical.
pub proof fn lemma_from_term_deterministic(t: TermModel, r1: Seq<u64>, r2: Seq<u64>)
    requires
        r1 == hv_of_term(t),
        r2 == hv_of_term(t),
    ensures
        r1 == r2,
{
}

impl Hypervector {
    /// Hebbian nudging: re-bundle one copy of this vector with `weight`
    /// times ten (rounded) copies of the new information. A weight that
    /// rounds to zero copies leaves the vector unchanged.
    #[verifier::loop_isolation(false)]
    pub fn update(&mut self, new_info: &Hypervector, weight: u64)
        requires
            old(self).wf(),
            new_info.wf(),
            weight <= UNIT,
        ensures
            final(self).wf(),
            spec_update_k(weight) == 0 ==> final(self)@ == old(self)@,
            spec_update_k(weight) > 0 ==> final(self)@ == spec_bundle(
                update_inputs(old(self)@, new_info@, spec_update_k(weight)),
            ),
    {
        let k: u64 = (20 * weight + UNIT) / (2 * UNIT);
        if k == 0 {
            return;
        }
        let mut inputs: Vec<Hypervector> = Vec::new();
        inputs.push(self.clone());
        let mut n: u64 = 0;
        while n < k
            invariant
                n <= k,
                inputs@.len() == n + 1,
                inputs@[0]@ == old(self)@,
                forall|i: int| 1 <= i <= n ==> (#[trigger] inputs@[i])@ == new_info@,
                forall|i: int| 0 <= i <= n ==> (#[trigger] inputs@[i]).wf(),
            decreases k - n,
        {
            inputs.push(new_info.clone());
            n = n + 1;
        }
        proof {
            assert(views_of(inputs@) =~= update_inputs(old(self)@, new_info@, k as int));
        }
        *self = Self::bundle(inputs.as_slice());
    }

    /// The deterministic embedding of a term: the same term always yields
    /// the same vector (see `lemma_from_term_deterministic`).
    #[verifier::loop_isolation(false)]
    pub fn from_term(term: &Term) -> (r: Hypervector)
        ensures
            r@ == hv_of_term(term@),
            r.wf(),
        decreases *term,
    {
        match term {
            Term::Atom(id) => Self::seeded(*id),
            Term::Var(k, id) => Self::seeded(*id),
            Term::Compound(op, args) => {
                let ghost models = terms_model(args@);
                let mut inputs: Vec<Hypervector> = Vec::new();
                inputs.push(Self::seeded(op_seed_of(op)));
                let mut i: usize = 0;
                while i < args.len()
                    invariant
                        i <= args@.len(),
                        inputs@.len() == i + 1,
                        inputs@[0]@ == seeded_words(op_seed(op@)),
                        forall|j: int|
                            1 <= j <= i ==> (#[trigger] inputs@[j])@ == hv_of_term(
                                term_model(args@[j - 1]),
                            ),
                        forall|j: int| 0 <= j <= i ==> (#[trigger] inputs@[j]).wf(),
                    decreases args@.len() - i,
                {
                    proof {
                        assert(decreases_to!(*term => term->Compound_1));
                        assert(decreases_to!(*args => args@));
                        assert(decreases_to!(args@ => args@[i as int]));
                    }
                    inputs.push(Self::from_term(&args[i]));
                    i = i + 1;
                }
                if inputs.len() % 2 == 0 {
                    inputs.push(Self::seeded(BIAS_SEED));
                }
                proof {
                    lemma_hv_children(models);
                    lemma_terms_model_len(args@);
                    assert forall|j: int| 0 <= j < args@.len() implies models[j] == term_model(
                        args@[j],
                    ) by {
                        lemma_terms_model_index(args@, j);
                    }
                    assert(seq![seeded_words(op_seed(op@))] + hv_children(models)
                        =~= Seq::new(args@.len() + 1, |j: int| if j == 0 {
                            seeded_words(op_seed(op@))
                        } else {
                            hv_of_term(models[j - 1])
                        }));
                    assert(views_of(inputs@) =~= compound_inputs(op@, models));
                }
                Self::bundle(inputs.as_slice())
            },
        }
    }
}

} // verus!
