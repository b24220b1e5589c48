//! Inference rules: premise patterns, a conclusion template, and a named
//! truth function dispatched through a closed table.

use vstd::prelude::*;
use crate::scale::{s_div, s_mul, s_not, UNIT};
use crate::term::{terms_model, Operator, Term, TermModel, VarType};
use crate::truth;
use crate::truth::TruthValue;

verus! {

broadcast use vstd::seq::group_seq_axioms, vstd::std_specs::vec::group_vec_axioms;

/// The truth functions of one premise.
#[derive(Clone, Copy, Debug, PartialEq, Eq, Structural)]
pub enum SingleTruth {
    Identity,
    Negation,
    Conversion,
    Contraposition,
    StructuralDeduction,
    DesireStructuralStrong,
}

/// The truth functions of two premises.
#[derive(Clone, Copy, Debug, PartialEq, Eq, Structural)]
pub enum DoubleTruth {
    Revision,
    Deduction,
    Abduction,
    Induction,
    Exemplification,
    Comparison,
    Analogy,
    Resemblance,
    Intersection,
    Union,
    Difference,
    DecomposeNnn,
    DecomposeNpp,
    DecomposePpp,
    DecomposePnn,
    DecomposePnp,
    DesireWeak,
    DesireStrong,
    TemporalInduction,
    Combine,
}

/// A rule's truth function: one- or two-premise.
#[derive(Clone, Copy, Debug, PartialEq, Eq, Structural)]
pub enum TruthFunction {
    Single(SingleTruth),
    Double(DoubleTruth),
}

/// What each one-premise truth function returns.
pub open spec fn spec_single_truth(f: SingleTruth, v: TruthValue) -> TruthValue {
    let fr = v.frequency as int;
    let c = v.confidence as int;
    match f {
        SingleTruth::Identity => v,
        SingleTruth::Negation => TruthValue {
            frequency: s_not(fr) as u64,
            confidence: v.confidence,
        },
        SingleTruth::Conversion => TruthValue {
            frequency: v.frequency,
            confidence: s_div(s_mul(fr, c), s_mul(fr, c) + UNIT) as u64,
        },
        SingleTruth::Contraposition => TruthValue {
            frequency: 0,
            confidence: s_div(s_mul(s_not(fr), c), s_mul(s_not(fr), c) + UNIT) as u64,
        },
        SingleTruth::StructuralDeduction => TruthValue {
            frequency: v.frequency,
            confidence: s_mul(s_mul(fr, c), c) as u64,
        },
        SingleTruth::DesireStructuralStrong => TruthValue {
            frequency: v.frequency,
            confidence: s_mul(s_mul(fr, c), c) as u64,
        },
    }
}

/// What each two-premise truth function returns.
pub open spec fn spec_double_truth(f: DoubleTruth, v1: TruthValue, v2: TruthValue) -> TruthValue {
    let f1 = v1.frequency as int;
    let c1 = v1.confidence as int;
    let f2 = v2.frequency as int;
    let c2 = v2.confidence as int;
    match f {
        DoubleTruth::Revision => TruthValue {
            frequency: truth::s_revision_f(f1, c1, f2, c2) as u64,
            confidence: truth::s_revision_c(c1, c2) as u64,
        },
        DoubleTruth::Deduction => TruthValue {
            frequency: s_mul(f1, f2) as u64,
            confidence: s_mul(s_mul(s_mul(f1, c1), f2), c2) as u64,
        },
        DoubleTruth::Abduction => TruthValue {
            frequency: v2.frequency,
            confidence: s_div(s_mul(s_mul(f1, c1), c2), s_mul(s_mul(f1, c1), c2) + UNIT) as u64,
        },
        DoubleTruth::Induction => TruthValue {
            frequency: v1.frequency,
            confidence: ({
                let w = s_mul(s_mul(f2, c1), c2);
                s_div(w, w + UNIT) as u64
            }),
        },
        DoubleTruth::Exemplification => TruthValue {
            frequency: UNIT,
            confidence: ({
                let w = s_mul(s_mul(s_mul(f1, c1), f2), c2);
                s_div(w, w + UNIT) as u64
            }),
        },
        DoubleTruth::Comparison => ({
            let f0 = s_not(s_mul(s_not(f1), s_not(f2)));
            let w = s_mul(s_mul(f0, c1), c2);
            let num = s_mul(s_mul(s_mul(f1, f2), c1), c2);
            TruthValue { frequency: s_div(num, w) as u64, confidence: s_div(w, w + UNIT) as u64 }
        }),
        DoubleTruth::Analogy => TruthValue {
            frequency: s_mul(f1, f2) as u64,
            confidence: s_mul(s_mul(f2, c1), c2) as u64,
        },
        DoubleTruth::Resemblance => TruthValue {
            frequency: s_mul(f1, f2) as u64,
            confidence: s_mul(s_mul(s_not(s_mul(s_not(f1), s_not(f2))), c1), c2) as u64,
        },
        DoubleTruth::Intersection => TruthValue {
            frequency: s_mul(f1, f2) as u64,
            confidence: s_mul(c1, c2) as u64,
        },
        DoubleTruth::Union => TruthValue {
            frequency: s_not(s_mul(s_not(f1), s_not(f2))) as u64,
            confidence: s_mul(c1, c2) as u64,
        },
        DoubleTruth::Difference => TruthValue {
            frequency: s_mul(f1, s_not(f2)) as u64,
            confidence: s_mul(c1, c2) as u64,
        },
        DoubleTruth::DecomposeNnn => ({
            let t = s_mul(s_not(f1), s_not(f2));
            TruthValue {
                frequency: s_not(t) as u64,
                confidence: s_mul(s_mul(t, c1), c2) as u64,
            }
        }),
        DoubleTruth::DecomposeNpp => ({
            let t = s_mul(s_not(f1), f2);
            TruthValue { frequency: t as u64, confidence: s_mul(s_mul(t, c1), c2) as u64 }
        }),
        DoubleTruth::DecomposePpp => ({
            let t = s_mul(f1, f2);
            TruthValue { frequency: t as u64, confidence: s_mul(s_mul(t, c1), c2) as u64 }
        }),
        DoubleTruth::DecomposePnn => ({
            let t = s_mul(f1, s_not(f2));
            TruthValue {
                frequency: s_not(t) as u64,
                confidence: s_mul(s_mul(s_not(t), c1), c2) as u64,
            }
        }),
        DoubleTruth::DecomposePnp => ({
            let t = s_mul(f1, s_not(f2));
            TruthValue { frequency: t as u64, confidence: s_mul(s_mul(t, c1), c2) as u64 }
        }),
        DoubleTruth::DesireWeak => TruthValue {
            frequency: s_mul(f1, f2) as u64,
            confidence: s_mul(s_mul(s_mul(c1, c2), f2), (UNIT / 2) as int) as u64,
        },
        DoubleTruth::DesireStrong => TruthValue {
            frequency: s_mul(f1, f2) as u64,
            confidence: s_mul(s_mul(f2, c1), c2) as u64,
        },
        DoubleTruth::TemporalInduction => TruthValue {
            frequency: v1.frequency,
            confidence: ({
                let w = s_mul(s_mul(f2, c1), c2);
                s_div(w, w + UNIT) as u64
            }),
        },
        DoubleTruth::Combine => TruthValue {
            frequency: s_mul(f1, f2) as u64,
            confidence: s_mul(c1, c2) as u64,
        },
    }
}

/// Apply a one-premise truth function.
pub fn apply_single_truth(f: SingleTruth, v: TruthValue) -> (r: TruthValue)
    requires
        v.wf(),
    ensures
        r == spec_single_truth(f, v),
        r.wf(),
{
    match f {
        SingleTruth::Identity => truth::identity(v),
        SingleTruth::Negation => truth::negation(v),
        SingleTruth::Conversion => truth::conversion(v),
        SingleTruth::Contraposition => truth::contraposition(v),
        SingleTruth::StructuralDeduction => truth::structural_deduction(v),
        SingleTruth::DesireStructuralStrong => truth::desire_structural_strong(v),
    }
}

/// Apply a two-premise truth function.
pub fn apply_double_truth(f: DoubleTruth, v1: TruthValue, v2: TruthValue) -> (r: TruthValue)
    requires
        v1.wf(),
        v2.wf(),
    ensures
        r == spec_double_truth(f, v1, v2),
        r.wf(),
{
    match f {
        DoubleTruth::Revision => truth::revision(v1, v2),
        DoubleTruth::Deduction => truth::deduction(v1, v2),
        DoubleTruth::Abduction => truth::abduction(v1, v2),
        DoubleTruth::Induction => truth::induction(v1, v2),
        DoubleTruth::Exemplification => truth::exemplification(v1, v2),
        DoubleTruth::Comparison => truth::comparison(v1, v2),
        DoubleTruth::Analogy => truth::analogy(v1, v2),
        DoubleTruth::Resemblance => truth::resemblance(v1, v2),
        DoubleTruth::Intersection => truth::intersection(v1, v2),
        DoubleTruth::Union => truth::union(v1, v2),
        DoubleTruth::Difference => truth::difference(v1, v2),
        DoubleTruth::DecomposeNnn => truth::decompose_nnn(v1, v2),
        DoubleTruth::DecomposeNpp => truth::decompose_npp(v1, v2),
        DoubleTruth::DecomposePpp => truth::decompose_ppp(v1, v2),
        DoubleTruth::DecomposePnn => truth::decompose_pnn(v1, v2),
        DoubleTruth::DecomposePnp => truth::decompose_pnp(v1, v2),
        DoubleTruth::DesireWeak => truth::desire_weak(v1, v2),
        DoubleTruth::DesireStrong => truth::desire_strong(v1, v2),
        DoubleTruth::TemporalInduction => truth::temporal_induction(v1, v2),
        DoubleTruth::Combine => truth::combine(v1, v2),
    }
}

/// An inference rule: one or two premise patterns, a conclusion template,
/// and a truth function.
#[derive(Debug)]
pub struct InferenceRule {
    pub premises: Vec<Term>,
    pub conclusion: Term,
    pub truth_fn: TruthFunction,
}

/// The mathematical image of a rule.
pub struct RuleModel {
    pub premises: Seq<TermModel>,
    pub conclusion: TermModel,
    pub truth_fn: TruthFunction,
}

impl View for InferenceRule {
    type V = RuleModel;

    open spec fn view(&self) -> RuleModel {
        RuleModel {
            premises: terms_model(self.premises@),
            conclusion: self.conclusion@,
            truth_fn: self.truth_fn,
        }
    }
}

impl Clone for InferenceRule {
    fn clone(&self) -> (r: Self)
        ensures
            r@ == self@,
    {
        let mut premises: Vec<Term> = Vec::new();
        let mut i: usize = 0;
        while i < self.premises.len()
            invariant
                i <= self.premises@.len(),
                premises@.len() == i,
                forall|j: int|
                    0 <= j < i ==> (#[trigger] premises@[j])@ == (self.premises@[j])@,
            decreases self.premises@.len() - i,
        {
            premises.push(self.premises[i].clone());
            i = i + 1;
        }
        proof {
            assert(terms_model(premises@) =~= terms_model(self.premises@)) by {
                crate::term::lemma_terms_model_len(premises@);
                crate::term::lemma_terms_model_len(self.premises@);
                assert forall|j: int| 0 <= j < i implies terms_model(premises@)[j] == terms_model(
                    self.premises@,
                )[j] by {
                    crate::term::lemma_terms_model_index(premises@, j);
                    crate::term::lemma_terms_model_index(self.premises@, j);
                }
            }
        }
        InferenceRule {
            premises,
            conclusion: self.conclusion.clone(),
            truth_fn: self.truth_fn,
        }
    }
}

/// A two-premise inheritance syllogism over three independent variables,
/// as a rule image: `<a --> b>, <c --> d> |- <e --> f>`.
pub open spec fn is_inheritance_syllogism(
    r: RuleModel,
    m: u64,
    p: u64,
    s: u64,
    f: DoubleTruth,
    prem1: (u64, u64),
    prem2: (u64, u64),
    concl: (u64, u64),
) -> bool {
    let vm = TermModel::Var(VarType::Independent, m);
    let vp = TermModel::Var(VarType::Independent, p);
    let vs = TermModel::Var(VarType::Independent, s);
    let pick = |id: u64|
        if id == 0 {
            vm
        } else if id == 1 {
            vp
        } else {
            vs
        };
    &&& r.premises.len() == 2
    &&& r.premises[0] == TermModel::Compound(
        crate::term::OpModel::Inheritance,
        seq![pick(prem1.0), pick(prem1.1)],
    )
    &&& r.premises[1] == TermModel::Compound(
        crate::term::OpModel::Inheritance,
        seq![pick(prem2.0), pick(prem2.1)],
    )
    &&& r.conclusion == TermModel::Compound(
        crate::term::OpModel::Inheritance,
        seq![pick(concl.0), pick(concl.1)],
    )
    &&& r.truth_fn == TruthFunction::Double(f)
}

/// An inheritance statement `<a --> b>` built from two terms.
fn inheritance(a: &Term, b: &Term) -> (r: Term)
    ensures
        r@ == TermModel::Compound(crate::term::OpModel::Inheritance, seq![a@, b@]),
{
    let args = vec![a.clone(), b.clone()];
    proof {
        lemma_terms_model_pair(args@);
    }
    Term::Compound(Operator::Inheritance, args)
}

/// The image of a two-term sequence is the pair of images.
proof fn lemma_terms_model_pair(s: Seq<Term>)
    requires
        s.len() == 2,
    ensures
        terms_model(s) =~= seq![s[0]@, s[1]@],
{
    crate::term::lemma_terms_model_len(s);
    crate::term::lemma_terms_model_index(s, 0);
    crate::term::lemma_terms_model_index(s, 1);
}

/// The built-in rule table: deduction, abduction and induction over
/// inheritance statements.
pub fn load_default_rules() -> (r: Vec<InferenceRule>)
    ensures
        r@.len() == 3,
        exists|m: u64, p: u64, s: u64|
            {
                &&& m != p && m != s && p != s
                &&& is_inheritance_syllogism(
                    (#[trigger] r@[0])@,
                    m,
                    p,
                    s,
                    DoubleTruth::Deduction,
                    (0, 1),
                    (2, 0),
                    (2, 1),
                )
                &&& is_inheritance_syllogism(
                    r@[1]@,
                    m,
                    p,
                    s,
                    DoubleTruth::Abduction,
                    (1, 0),
                    (2, 0),
                    (2, 1),
                )
                &&& is_inheritance_syllogism(
                    r@[2]@,
                    m,
                    p,
                    s,
                    DoubleTruth::Induction,
                    (0, 1),
                    (0, 2),
                    (2, 1),
                )
            },
{
    let named_m = Term::var_from_str(VarType::Independent, "M");
    let named_p = Term::var_from_str(VarType::Independent, "P");
    let named_s = Term::var_from_str(VarType::Independent, "S");

    // the content hashes of the three names are distinct in practice; fall
    // back to literal identities should they ever collide
    let distinct = !crate::term::terms_match(&named_m, &named_p) && !crate::term::terms_match(
        &named_m,
        &named_s,
    ) && !crate::term::terms_match(&named_p, &named_s);
    let (var_m, var_p, var_s) = if distinct {
        (named_m, named_p, named_s)
    } else {
        (
            Term::Var(VarType::Independent, 0),
            Term::Var(VarType::Independent, 1),
            Term::Var(VarType::Independent, 2),
        )
    };

    let mut rules: Vec<InferenceRule> = Vec::new();

    let ded_p1 = inheritance(&var_m, &var_p);
    let ded_p2 = inheritance(&var_s, &var_m);
    let ded_concl = inheritance(&var_s, &var_p);
    let ded_premises = vec![ded_p1, ded_p2];
    proof {
        lemma_terms_model_pair(ded_premises@);
    }
    rules.push(InferenceRule {
        premises: ded_premises,
        conclusion: ded_concl,
        truth_fn: TruthFunction::Double(DoubleTruth::Deduction),
    });

    let abd_p1 = inheritance(&var_p, &var_m);
    let abd_p2 = inheritance(&var_s, &var_m);
    let abd_concl = inheritance(&var_s, &var_p);
    let abd_premises = vec![abd_p1, abd_p2];
    proof {
        lemma_terms_model_pair(abd_premises@);
    }
    rules.push(InferenceRule {
        premises: abd_premises,
        conclusion: abd_concl,
        truth_fn: TruthFunction::Double(DoubleTruth::Abduction),
    });

    let ind_p1 = inheritance(&var_m, &var_p);
    let ind_p2 = inheritance(&var_m, &var_s);
    let ind_concl = inheritance(&var_s, &var_p);
    let ind_premises = vec![ind_p1, ind_p2];
    proof {
        lemma_terms_model_pair(ind_premises@);
    }
    rules.push(InferenceRule {
        premises: ind_premises,
        conclusion: ind_concl,
        truth_fn: TruthFunction::Double(DoubleTruth::Induction),
    });

    proof {
        let m = var_m@->Var_1;
        let p = var_p@->Var_1;
        let s = var_s@->Var_1;
        assert(is_inheritance_syllogism(
            rules@[0]@,
            m,
            p,
            s,
            DoubleTruth::Deduction,
            (0, 1),
            (2, 0),
            (2, 1),
        ));
        assert(is_inheritance_syllogism(
            rules@[1]@,
            m,
            p,
            s,
            DoubleTruth::Abduction,
            (1, 0),
            (2, 0),
            (2, 1),
        ));
        assert(is_inheritance_syllogism(
            rules@[2]@,
            m,
            p,
            s,
            DoubleTruth::Induction,
            (0, 1),
            (0, 2),
            (2, 1),
        ));
    }
    rules
}

} // verus!
