//! The NAL truth-value calculus: pure functions combining frequency and
//! confidence, in fixed point (see `scale`).

use vstd::prelude::*;
use crate::scale::{
    is_unit, lemma_s_div_unit, lemma_s_mul_mono, lemma_s_mul_unit, s_div, s_mul, s_not, unit_div,
    unit_mul, unit_not, UNIT,
};

verus! {

/// A NAL truth value: the proportion of positive evidence and the amount of
/// evidence, both scaled into the unit interval.
#[derive(Clone, Copy, Debug, PartialEq, Eq, Structural)]
pub struct TruthValue {
    pub frequency: u64,
    pub confidence: u64,
}

impl TruthValue {
    /// Both components lie in the unit interval.
    pub open spec fn wf(self) -> bool {
        is_unit(self.frequency) && is_unit(self.confidence)
    }

    pub fn new(frequency: u64, confidence: u64) -> (r: TruthValue)
        requires
            is_unit(frequency),
            is_unit(confidence),
        ensures
            r == (TruthValue { frequency, confidence }),
            r.wf(),
    {
        TruthValue { frequency, confidence }
    }
}

/// The product of a sequence of unit values, folded left to right.
pub open spec fn s_and(vals: Seq<u64>) -> int
    decreases vals.len(),
{
    if vals.len() == 0 {
        UNIT as int
    } else {
        s_mul(s_and(vals.drop_last()), vals.last() as int)
    }
}

/// `or` over a sequence: the complement of the product of the complements.
pub open spec fn s_or(vals: Seq<u64>) -> int
    decreases vals.len(),
{
    if vals.len() == 0 {
        s_not(UNIT as int)
    } else {
        s_not(s_and_not(vals))
    }
}

/// The product of the complements of a sequence of unit values.
pub open spec fn s_and_not(vals: Seq<u64>) -> int
    decreases vals.len(),
{
    if vals.len() == 0 {
        UNIT as int
    } else {
        s_mul(s_and_not(vals.drop_last()), s_not(vals.last() as int))
    }
}

/// All values of a sequence lie in the unit interval.
pub open spec fn all_unit(vals: Seq<u64>) -> bool {
    forall|i: int| 0 <= i < vals.len() ==> is_unit(#[trigger] vals[i])
}

/// A left-to-right product of unit values stays in the unit interval.
pub proof fn lemma_s_and_unit(vals: Seq<u64>)
    requires
        all_unit(vals),
    ensures
        0 <= s_and(vals) <= UNIT,
    decreases vals.len(),
{
    if vals.len() > 0 {
        assert(all_unit(vals.drop_last()));
        lemma_s_and_unit(vals.drop_last());
        lemma_s_mul_unit(s_and(vals.drop_last()), vals.last() as int);
    }
}

proof fn lemma_s_and_not_unit(vals: Seq<u64>)
    requires
        all_unit(vals),
    ensures
        0 <= s_and_not(vals) <= UNIT,
    decreases vals.len(),
{
    if vals.len() > 0 {
        assert(all_unit(vals.drop_last()));
        lemma_s_and_not_unit(vals.drop_last());
        lemma_s_mul_unit(s_and_not(vals.drop_last()), s_not(vals.last() as int));
    }
}

/// Product of a list of unit values: `and(vals) = v1 * v2 * ...`.
pub fn nal_and(values: &[u64]) -> (r: u64)
    requires
        all_unit(values@),
    ensures
        r == s_and(values@),
        is_unit(r),
{
    let mut acc: u64 = UNIT;
    let mut i: usize = 0;
    while i < values.len()
        invariant
            i <= values@.len(),
            all_unit(values@),
            acc == s_and(values@.subrange(0, i as int)),
            is_unit(acc),
        decreases values@.len() - i,
    {
        proof {
            assert(values@.subrange(0, i + 1).drop_last() =~= values@.subrange(0, i as int));
            assert(values@.subrange(0, i + 1).last() == values@[i as int]);
        }
        acc = unit_mul(acc, values[i]);
        i = i + 1;
    }
    proof {
        assert(values@.subrange(0, values@.len() as int) =~= values@);
    }
    acc
}

/// `or(vals) = 1 - (1 - v1)(1 - v2)...`.
pub fn nal_or(values: &[u64]) -> (r: u64)
    requires
        all_unit(values@),
    ensures
        r == s_or(values@),
        is_unit(r),
{
    if values.len() == 0 {
        return 0;
    }
    let mut acc: u64 = UNIT;
    let mut i: usize = 0;
    while i < values.len()
        invariant
            i <= values@.len(),
            all_unit(values@),
            acc == s_and_not(values@.subrange(0, i as int)),
            is_unit(acc),
        decreases values@.len() - i,
    {
        proof {
            assert(values@.subrange(0, i + 1).drop_last() =~= values@.subrange(0, i as int));
            assert(values@.subrange(0, i + 1).last() == values@[i as int]);
        }
        let c = unit_not(values[i]);
        acc = unit_mul(acc, c);
        i = i + 1;
    }
    proof {
        assert(values@.subrange(0, values@.len() as int) =~= values@);
    }
    UNIT - acc
}

/// `not(v) = 1 - v`.
pub fn nal_not(x: u64) -> (r: u64)
    requires
        is_unit(x),
    ensures
        r == s_not(x as int),
        is_unit(r),
{
    UNIT - x
}

/// The frequency that `revision` assigns, as a function of the four inputs.
pub open spec fn s_revision_f(f1: int, c1: int, f2: int, c2: int) -> int {
    s_div(
        s_mul(s_mul(f1, c1), s_not(c2)) + s_mul(s_mul(f2, c2), s_not(c1)),
        s_mul(c1, s_not(c2)) + s_mul(c2, s_not(c1)),
    )
}

/// The confidence that `revision` assigns.
pub open spec fn s_revision_c(c1: int, c2: int) -> int {
    s_div(
        s_mul(c1, s_not(c2)) + s_mul(c2, s_not(c1)),
        s_mul(c1, s_not(c2)) + s_mul(c2, s_not(c1)) + s_mul(s_not(c1), s_not(c2)),
    )
}

/// Merge two truth values for the same term, weighting by relative
/// confidence. Symmetric in its arguments (see `lemma_revision_symmetric`).
pub fn revision(v1: TruthValue, v2: TruthValue) -> (r: TruthValue)
    requires
        v1.wf(),
        v2.wf(),
    ensures
        r.frequency == s_revision_f(
            v1.frequency as int,
            v1.confidence as int,
            v2.frequency as int,
            v2.confidence as int,
        ),
        r.confidence == s_revision_c(v1.confidence as int, v2.confidence as int),
        r.wf(),
{
    let f1 = v1.frequency;
    let c1 = v1.confidence;
    let f2 = v2.frequency;
    let c2 = v2.confidence;

    let nc1 = unit_not(c1);
    let nc2 = unit_not(c2);

    let w1 = unit_mul(c1, nc2);
    let w2 = unit_mul(c2, nc1);
    let wn = unit_mul(nc1, nc2);

    let t1 = unit_mul(unit_mul(f1, c1), nc2);
    let t2 = unit_mul(unit_mul(f2, c2), nc1);
    proof {
        lemma_s_mul_unit(f1 as int, c1 as int);
        lemma_s_mul_mono(s_mul(f1 as int, c1 as int), c1 as int, nc2 as int);
        lemma_s_mul_unit(f2 as int, c2 as int);
        lemma_s_mul_mono(s_mul(f2 as int, c2 as int), c2 as int, nc1 as int);
    }
    let f = unit_div(t1 + t2, w1 + w2);
    let c = unit_div(w1 + w2, w1 + w2 + wn);

    TruthValue { frequency: f, confidence: c }
}

/// Revision does not depend on the order of its two premises.
pub proof fn lemma_revision_symmetric(v1: TruthValue, v2: TruthValue)
    requires
        v1.wf(),
        v2.wf(),
    ensures
        s_revision_f(
            v1.frequency as int,
            v1.confidence as int,
            v2.frequency as int,
            v2.confidence as int,
        ) == s_revision_f(
            v2.frequency as int,
            v2.confidence as int,
            v1.frequency as int,
            v1.confidence as int,
        ),
        s_revision_c(v1.confidence as int, v2.confidence as int) == s_revision_c(
            v2.confidence as int,
            v1.confidence as int,
        ),
{
}

/// `union`: or of the frequencies, and of the confidences.
pub fn union(v1: TruthValue, v2: TruthValue) -> (r: TruthValue)
    requires
        v1.wf(),
        v2.wf(),
    ensures
        r.frequency == s_not(s_mul(s_not(v1.frequency as int), s_not(v2.frequency as int))),
        r.confidence == s_mul(v1.confidence as int, v2.confidence as int),
        r.wf(),
{
    proof {
        lemma_s_mul_unit(s_not(v1.frequency as int), s_not(v2.frequency as int));
    }
    let nf = unit_mul(unit_not(v1.frequency), unit_not(v2.frequency));
    TruthValue { frequency: UNIT - nf, confidence: unit_mul(v1.confidence, v2.confidence) }
}

/// `difference`: frequency `f1 * (1 - f2)`, confidence `c1 * c2`.
pub fn difference(v1: TruthValue, v2: TruthValue) -> (r: TruthValue)
    requires
        v1.wf(),
        v2.wf(),
    ensures
        r.frequency == s_mul(v1.frequency as int, s_not(v2.frequency as int)),
        r.confidence == s_mul(v1.confidence as int, v2.confidence as int),
        r.wf(),
{
    TruthValue {
        frequency: unit_mul(v1.frequency, unit_not(v2.frequency)),
        confidence: unit_mul(v1.confidence, v2.confidence),
    }
}

/// `intersection`: product of frequencies and of confidences.
pub fn intersection(v1: TruthValue, v2: TruthValue) -> (r: TruthValue)
    requires
        v1.wf(),
        v2.wf(),
    ensures
        r.frequency == s_mul(v1.frequency as int, v2.frequency as int),
        r.confidence == s_mul(v1.confidence as int, v2.confidence as int),
        r.wf(),
{
    TruthValue {
        frequency: unit_mul(v1.frequency, v2.frequency),
        confidence: unit_mul(v1.confidence, v2.confidence),
    }
}

/// `deduction`: frequency `f1 f2`, confidence `f1 c1 f2 c2`.
pub fn deduction(v1: TruthValue, v2: TruthValue) -> (r: TruthValue)
    requires
        v1.wf(),
        v2.wf(),
    ensures
        r.frequency == s_mul(v1.frequency as int, v2.frequency as int),
        r.confidence == s_mul(
            s_mul(s_mul(v1.frequency as int, v1.confidence as int), v2.frequency as int),
            v2.confidence as int,
        ),
        r.wf(),
{
    TruthValue {
        frequency: unit_mul(v1.frequency, v2.frequency),
        confidence: unit_mul(
            unit_mul(unit_mul(v1.frequency, v1.confidence), v2.frequency),
            v2.confidence,
        ),
    }
}

/// `contraposition`: frequency 0, confidence `(1-f)c / ((1-f)c + 1)`.
pub fn contraposition(v: TruthValue) -> (r: TruthValue)
    requires
        v.wf(),
    ensures
        r.frequency == 0,
        r.confidence == s_div(
            s_mul(s_not(v.frequency as int), v.confidence as int),
            s_mul(s_not(v.frequency as int), v.confidence as int) + UNIT,
        ),
        r.wf(),
{
    let w = unit_mul(unit_not(v.frequency), v.confidence);
    TruthValue { frequency: 0, confidence: unit_div(w, w + UNIT) }
}

/// `abduction`: frequency `f2`, confidence `f1 c1 c2 / (f1 c1 c2 + 1)`.
pub fn abduction(v1: TruthValue, v2: TruthValue) -> (r: TruthValue)
    requires
        v1.wf(),
        v2.wf(),
    ensures
        r.frequency == v2.frequency,
        r.confidence == s_div(
            s_mul(s_mul(v1.frequency as int, v1.confidence as int), v2.confidence as int),
            s_mul(s_mul(v1.frequency as int, v1.confidence as int), v2.confidence as int) + UNIT,
        ),
        r.wf(),
{
    let w = unit_mul(unit_mul(v1.frequency, v1.confidence), v2.confidence);
    TruthValue { frequency: v2.frequency, confidence: unit_div(w, w + UNIT) }
}

/// `exemplification`: frequency 1, confidence `w / (w + 1)` with
/// `w = f1 c1 f2 c2`.
pub fn exemplification(v1: TruthValue, v2: TruthValue) -> (r: TruthValue)
    requires
        v1.wf(),
        v2.wf(),
    ensures
        r.frequency == UNIT,
        r.confidence == ({
            let w = s_mul(
                s_mul(s_mul(v1.frequency as int, v1.confidence as int), v2.frequency as int),
                v2.confidence as int,
            );
            s_div(w, w + UNIT)
        }),
        r.wf(),
{
    let w = unit_mul(
        unit_mul(unit_mul(v1.frequency, v1.confidence), v2.frequency),
        v2.confidence,
    );
    TruthValue { frequency: UNIT, confidence: unit_div(w, w + UNIT) }
}

/// `induction`: frequency `f1`, confidence `w / (w + 1)` with `w = f2 c1 c2`.
pub fn induction(v1: TruthValue, v2: TruthValue) -> (r: TruthValue)
    requires
        v1.wf(),
        v2.wf(),
    ensures
        r.frequency == v1.frequency,
        r.confidence == ({
            let w = s_mul(s_mul(v2.frequency as int, v1.confidence as int), v2.confidence as int);
            s_div(w, w + UNIT)
        }),
        r.wf(),
{
    let w = unit_mul(unit_mul(v2.frequency, v1.confidence), v2.confidence);
    TruthValue { frequency: v1.frequency, confidence: unit_div(w, w + UNIT) }
}

/// `comparison`: with `f0 = or(f1, f2)` and `w = f0 c1 c2`, the frequency is
/// `f1 f2 c1 c2 / w` and the confidence `w / (w + 1)`.
pub fn comparison(v1: TruthValue, v2: TruthValue) -> (r: TruthValue)
    requires
        v1.wf(),
        v2.wf(),
    ensures
        ({
            let f0 = s_not(s_mul(s_not(v1.frequency as int), s_not(v2.frequency as int)));
            let w = s_mul(s_mul(f0, v1.confidence as int), v2.confidence as int);
            let num = s_mul(
                s_mul(s_mul(v1.frequency as int, v2.frequency as int), v1.confidence as int),
                v2.confidence as int,
            );
            r.frequency == s_div(num, w) && r.confidence == s_div(w, w + UNIT)
        }),
        r.wf(),
{
    let f1 = v1.frequency;
    let c1 = v1.confidence;
    let f2 = v2.frequency;
    let c2 = v2.confidence;

    proof {
        lemma_s_mul_unit(s_not(f1 as int), s_not(f2 as int));
    }
    let f0 = unit_not(unit_mul(unit_not(f1), unit_not(f2)));
    let w = unit_mul(unit_mul(f0, c1), c2);
    let num = unit_mul(unit_mul(unit_mul(f1, f2), c1), c2);
    proof {
        // num <= w: f1 * f2 <= f0, then multiply through by c1 and c2.
        lemma_s_mul_unit(f1 as int, f2 as int);
        lemma_s_mul_unit(s_not(f1 as int), s_not(f2 as int));
        assert(s_mul(f1 as int, f2 as int) <= s_not(
            s_mul(s_not(f1 as int), s_not(f2 as int)),
        )) by (nonlinear_arith)
            requires
                0 <= f1 <= UNIT,
                0 <= f2 <= UNIT,
        ;
        lemma_s_mul_mono(s_mul(f1 as int, f2 as int), f0 as int, c1 as int);
        lemma_s_mul_mono(s_mul(s_mul(f1 as int, f2 as int), c1 as int), s_mul(f0 as int, c1 as int), c2 as int);
    }
    let f = unit_div(num, w);
    let c = unit_div(w, w + UNIT);
    TruthValue { frequency: f, confidence: c }
}

/// `desire_weak`: frequency `f1 f2`, confidence `c1 c2 f2 / 2`.
pub fn desire_weak(v1: TruthValue, v2: TruthValue) -> (r: TruthValue)
    requires
        v1.wf(),
        v2.wf(),
    ensures
        r.frequency == s_mul(v1.frequency as int, v2.frequency as int),
        r.confidence == s_mul(
            s_mul(s_mul(v1.confidence as int, v2.confidence as int), v2.frequency as int),
            (UNIT / 2) as int,
        ),
        r.wf(),
{
    TruthValue {
        frequency: unit_mul(v1.frequency, v2.frequency),
        confidence: unit_mul(
            unit_mul(unit_mul(v1.confidence, v2.confidence), v2.frequency),
            UNIT / 2,
        ),
    }
}

/// `temporal_induction`: frequency `f1`, confidence `w / (w + 1)` with
/// `w = f2 c1 c2`.
pub fn temporal_induction(v1: TruthValue, v2: TruthValue) -> (r: TruthValue)
    requires
        v1.wf(),
        v2.wf(),
    ensures
        r.frequency == v1.frequency,
        r.confidence == ({
            let w = s_mul(s_mul(v2.frequency as int, v1.confidence as int), v2.confidence as int);
            s_div(w, w + UNIT)
        }),
        r.wf(),
{
    let w = unit_mul(unit_mul(v2.frequency, v1.confidence), v2.confidence);
    TruthValue { frequency: v1.frequency, confidence: unit_div(w, w + UNIT) }
}

/// `resemblance`: frequency `f1 f2`, confidence `or(f1, f2) c1 c2`.
pub fn resemblance(v1: TruthValue, v2: TruthValue) -> (r: TruthValue)
    requires
        v1.wf(),
        v2.wf(),
    ensures
        r.frequency == s_mul(v1.frequency as int, v2.frequency as int),
        r.confidence == s_mul(
            s_mul(
                s_not(s_mul(s_not(v1.frequency as int), s_not(v2.frequency as int))),
                v1.confidence as int,
            ),
            v2.confidence as int,
        ),
        r.wf(),
{
    proof {
        lemma_s_mul_unit(s_not(v1.frequency as int), s_not(v2.frequency as int));
    }
    let f0 = unit_not(unit_mul(unit_not(v1.frequency), unit_not(v2.frequency)));
    TruthValue {
        frequency: unit_mul(v1.frequency, v2.frequency),
        confidence: unit_mul(unit_mul(f0, v1.confidence), v2.confidence),
    }
}

/// `analogy`: frequency `f1 f2`, confidence `f2 c1 c2`.
pub fn analogy(v1: TruthValue, v2: TruthValue) -> (r: TruthValue)
    requires
        v1.wf(),
        v2.wf(),
    ensures
        r.frequency == s_mul(v1.frequency as int, v2.frequency as int),
        r.confidence == s_mul(
            s_mul(v2.frequency as int, v1.confidence as int),
            v2.confidence as int,
        ),
        r.wf(),
{
    TruthValue {
        frequency: unit_mul(v1.frequency, v2.frequency),
        confidence: unit_mul(unit_mul(v2.frequency, v1.confidence), v2.confidence),
    }
}

/// `decompose_nnn`: with `t = (1-f1)(1-f2)`, frequency `1 - t`,
/// confidence `t c1 c2`.
pub fn decompose_nnn(v1: TruthValue, v2: TruthValue) -> (r: TruthValue)
    requires
        v1.wf(),
        v2.wf(),
    ensures
        ({
            let t = s_mul(s_not(v1.frequency as int), s_not(v2.frequency as int));
            r.frequency == s_not(t) && r.confidence == s_mul(
                s_mul(t, v1.confidence as int),
                v2.confidence as int,
            )
        }),
        r.wf(),
{
    proof {
        lemma_s_mul_unit(s_not(v1.frequency as int), s_not(v2.frequency as int));
    }
    let t = unit_mul(unit_not(v1.frequency), unit_not(v2.frequency));
    TruthValue {
        frequency: UNIT - t,
        confidence: unit_mul(unit_mul(t, v1.confidence), v2.confidence),
    }
}

/// `decompose_npp`: with `t = (1-f1) f2`, frequency `t`, confidence `t c1 c2`.
pub fn decompose_npp(v1: TruthValue, v2: TruthValue) -> (r: TruthValue)
    requires
        v1.wf(),
        v2.wf(),
    ensures
        ({
            let t = s_mul(s_not(v1.frequency as int), v2.frequency as int);
            r.frequency == t && r.confidence == s_mul(
                s_mul(t, v1.confidence as int),
                v2.confidence as int,
            )
        }),
        r.wf(),
{
    let t = unit_mul(unit_not(v1.frequency), v2.frequency);
    TruthValue { frequency: t, confidence: unit_mul(unit_mul(t, v1.confidence), v2.confidence) }
}

/// `decompose_ppp`: with `t = f1 f2`, frequency `t`, confidence `t c1 c2`.
pub fn decompose_ppp(v1: TruthValue, v2: TruthValue) -> (r: TruthValue)
    requires
        v1.wf(),
        v2.wf(),
    ensures
        ({
            let t = s_mul(v1.frequency as int, v2.frequency as int);
            r.frequency == t && r.confidence == s_mul(
                s_mul(t, v1.confidence as int),
                v2.confidence as int,
            )
        }),
        r.wf(),
{
    let t = unit_mul(v1.frequency, v2.frequency);
    TruthValue { frequency: t, confidence: unit_mul(unit_mul(t, v1.confidence), v2.confidence) }
}

/// `decompose_pnn`: with `t = f1 (1-f2)`, frequency `1 - t`,
/// confidence `(1-t) c1 c2`.
pub fn decompose_pnn(v1: TruthValue, v2: TruthValue) -> (r: TruthValue)
    requires
        v1.wf(),
        v2.wf(),
    ensures
        ({
            let t = s_mul(v1.frequency as int, s_not(v2.frequency as int));
            r.frequency == s_not(t) && r.confidence == s_mul(
                s_mul(s_not(t), v1.confidence as int),
                v2.confidence as int,
            )
        }),
        r.wf(),
{
    proof {
        lemma_s_mul_unit(v1.frequency as int, s_not(v2.frequency as int));
    }
    let t = unit_mul(v1.frequency, unit_not(v2.frequency));
    let nt = UNIT - t;
    TruthValue {
        frequency: nt,
        confidence: unit_mul(unit_mul(nt, v1.confidence), v2.confidence),
    }
}

/// `decompose_pnp`: with `t = f1 (1-f2)`, frequency `t`, confidence `t c1 c2`.
pub fn decompose_pnp(v1: TruthValue, v2: TruthValue) -> (r: TruthValue)
    requires
        v1.wf(),
        v2.wf(),
    ensures
        ({
            let t = s_mul(v1.frequency as int, s_not(v2.frequency as int));
            r.frequency == t && r.confidence == s_mul(
                s_mul(t, v1.confidence as int),
                v2.confidence as int,
            )
        }),
        r.wf(),
{
    let t = unit_mul(v1.frequency, unit_not(v2.frequency));
    TruthValue { frequency: t, confidence: unit_mul(unit_mul(t, v1.confidence), v2.confidence) }
}

/// `desire_strong`: frequency `f1 f2`, confidence `f2 c1 c2`.
pub fn desire_strong(v1: TruthValue, v2: TruthValue) -> (r: TruthValue)
    requires
        v1.wf(),
        v2.wf(),
    ensures
        r.frequency == s_mul(v1.frequency as int, v2.frequency as int),
        r.confidence == s_mul(
            s_mul(v2.frequency as int, v1.confidence as int),
            v2.confidence as int,
        ),
        r.wf(),
{
    TruthValue {
        frequency: unit_mul(v1.frequency, v2.frequency),
        confidence: unit_mul(unit_mul(v2.frequency, v1.confidence), v2.confidence),
    }
}

/// `combine`: product of frequencies and of confidences.
pub fn combine(v1: TruthValue, v2: TruthValue) -> (r: TruthValue)
    requires
        v1.wf(),
        v2.wf(),
    ensures
        r.frequency == s_mul(v1.frequency as int, v2.frequency as int),
        r.confidence == s_mul(v1.confidence as int, v2.confidence as int),
        r.wf(),
{
    TruthValue {
        frequency: unit_mul(v1.frequency, v2.frequency),
        confidence: unit_mul(v1.confidence, v2.confidence),
    }
}

/// The fixed truth value assumed for a failed expectation.
pub fn assumption_of_failure() -> (r: TruthValue)
    ensures
        r.frequency == 0,
        r.confidence == 150_000,
        r.wf(),
{
    TruthValue { frequency: 0, confidence: 150_000 }
}

/// The identity truth function.
pub fn identity(v: TruthValue) -> (r: TruthValue)
    ensures
        r == v,
{
    v
}

/// `negation`: complement the frequency, keep the confidence.
pub fn negation(v: TruthValue) -> (r: TruthValue)
    requires
        v.wf(),
    ensures
        r.frequency == s_not(v.frequency as int),
        r.confidence == v.confidence,
        r.wf(),
{
    TruthValue { frequency: UNIT - v.frequency, confidence: v.confidence }
}

/// `structural_deduction`: frequency `f`, confidence `f c c`.
pub fn structural_deduction(v: TruthValue) -> (r: TruthValue)
    requires
        v.wf(),
    ensures
        r.frequency == v.frequency,
        r.confidence == s_mul(s_mul(v.frequency as int, v.confidence as int), v.confidence as int),
        r.wf(),
{
    TruthValue {
        frequency: v.frequency,
        confidence: unit_mul(unit_mul(v.frequency, v.confidence), v.confidence),
    }
}

/// `desire_structural_strong`: the same combination as structural deduction.
pub fn desire_structural_strong(v: TruthValue) -> (r: TruthValue)
    requires
        v.wf(),
    ensures
        r.frequency == v.frequency,
        r.confidence == s_mul(s_mul(v.frequency as int, v.confidence as int), v.confidence as int),
        r.wf(),
{
    TruthValue {
        frequency: v.frequency,
        confidence: unit_mul(unit_mul(v.frequency, v.confidence), v.confidence),
    }
}

/// `conversion`: frequency `f`, confidence `f c / (f c + 1)`.
pub fn conversion(v: TruthValue) -> (r: TruthValue)
    requires
        v.wf(),
    ensures
        r.frequency == v.frequency,
        r.confidence == ({
            let w = s_mul(v.frequency as int, v.confidence as int);
            s_div(w, w + UNIT)
        }),
        r.wf(),
{
    let w = unit_mul(v.frequency, v.confidence);
    TruthValue { frequency: v.frequency, confidence: unit_div(w, w + UNIT) }
}

} // verus!
