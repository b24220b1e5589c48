//! Unification of terms under a binding set, with an occurs-check, and
//! substitution of bindings into a template.
//!
//! The executable functions mirror the specification functions step for
//! step. Both carry an explicit fuel that shrinks on every recursive call;
//! the public entry points start from a fuel far beyond what any realizable
//! input can consume, so the fuel only cuts off chases through pathological
//! cyclic binding sets, which are reported as failed unifications.

use vstd::prelude::*;
use crate::term::{ops_match, term_model, terms_match, terms_model, Term, TermModel};
use crate::term::{lemma_terms_model_index, lemma_terms_model_len};

verus! {

broadcast use vstd::seq::group_seq_axioms, vstd::std_specs::vec::group_vec_axioms;

/// The fuel the public entry points start from.
pub const UNIFY_FUEL: u64 = 0xffff_ffff_ffff_ffff;

/// A set of variable bindings, keyed by the bound variable's term.
#[derive(Debug)]
pub struct Bindings {
    entries: Vec<(Term, Term)>,
}

/// The map an entry list stands for; later entries would win, and a
/// well-formed list never repeats a key.
pub open spec fn entries_map(s: Seq<(Term, Term)>) -> Map<TermModel, TermModel>
    decreases s.len(),
{
    if s.len() == 0 {
        Map::empty()
    } else {
        entries_map(s.drop_last()).insert(s.last().0@, s.last().1@)
    }
}

/// No key occurs twice.
pub open spec fn distinct_keys(s: Seq<(Term, Term)>) -> bool {
    forall|i: int, j: int| 0 <= i < j < s.len() ==> s[i].0@ != s[j].0@
}

/// A key is in the map exactly when some entry holds it.
proof fn lemma_entries_contains(s: Seq<(Term, Term)>, k: TermModel)
    ensures
        entries_map(s).contains_key(k) <==> exists|i: int| 0 <= i < s.len() && s[i].0@ == k,
    decreases s.len(),
{
    if s.len() > 0 {
        lemma_entries_contains(s.drop_last(), k);
        if entries_map(s).contains_key(k) {
            if s.last().0@ == k {
                assert(s[s.len() - 1].0@ == k);
            } else {
                let i = choose|i: int| 0 <= i < s.drop_last().len() && s.drop_last()[i].0@ == k;
                assert(s[i].0@ == k);
            }
        }
        if exists|i: int| 0 <= i < s.len() && s[i].0@ == k {
            let i = choose|i: int| 0 <= i < s.len() && s[i].0@ == k;
            if i < s.len() - 1 {
                assert(s.drop_last()[i].0@ == k);
            }
        }
    }
}

/// Under distinct keys, each entry gives the map's value at its key.
proof fn lemma_entries_get(s: Seq<(Term, Term)>, i: int)
    requires
        distinct_keys(s),
        0 <= i < s.len(),
    ensures
        entries_map(s).contains_key(s[i].0@),
        entries_map(s)[s[i].0@] == s[i].1@,
    decreases s.len(),
{
    if i == s.len() - 1 {
    } else {
        assert(distinct_keys(s.drop_last()));
        assert(s.drop_last()[i] == s[i]);
        lemma_entries_get(s.drop_last(), i);
        assert(s[i].0@ != s[s.len() - 1].0@);
    }
}

/// Under distinct keys, the map's domain has exactly one element per entry.
proof fn lemma_entries_dom_len(s: Seq<(Term, Term)>)
    requires
        distinct_keys(s),
    ensures
        entries_map(s).dom().finite(),
        entries_map(s).dom().len() == s.len(),
    decreases s.len(),
{
    if s.len() > 0 {
        assert(distinct_keys(s.drop_last()));
        lemma_entries_dom_len(s.drop_last());
        lemma_entries_contains(s.drop_last(), s.last().0@);
        assert(!entries_map(s.drop_last()).contains_key(s.last().0@));
        assert(entries_map(s).dom() =~= entries_map(s.drop_last()).dom().insert(s.last().0@));
    }
}

impl View for Bindings {
    type V = Map<TermModel, TermModel>;

    closed spec fn view(&self) -> Map<TermModel, TermModel> {
        entries_map(self.entries@)
    }
}

impl Bindings {
    /// The entry list never repeats a key.
    pub closed spec fn wf(self) -> bool {
        distinct_keys(self.entries@)
    }

    /// The empty binding set.
    pub fn new() -> (r: Bindings)
        ensures
            r@ == Map::<TermModel, TermModel>::empty(),
            r.wf(),
    {
        Bindings { entries: Vec::new() }
    }

    /// How many variables are bound.
    pub fn len(&self) -> (r: usize)
        requires
            self.wf(),
        ensures
            r == self@.dom().len(),
    {
        proof {
            lemma_entries_dom_len(self.entries@);
        }
        self.entries.len()
    }

    /// The term a variable is bound to, if any.
    pub fn get(&self, k: &Term) -> (r: Option<&Term>)
        requires
            self.wf(),
        ensures
            match r {
                Some(v) => self@.contains_key(k@) && v@ == self@[k@],
                None => !self@.contains_key(k@),
            },
    {
        let mut i: usize = 0;
        while i < self.entries.len()
            invariant
                i <= self.entries@.len(),
                self.wf(),
                forall|j: int| 0 <= j < i ==> (#[trigger] self.entries@[j].0)@ != k@,
            decreases self.entries@.len() - i,
        {
            if terms_match(&self.entries[i].0, k) {
                proof {
                    lemma_entries_get(self.entries@, i as int);
                }
                return Some(&self.entries[i].1);
            }
            i = i + 1;
        }
        proof {
            lemma_entries_contains(self.entries@, k@);
        }
        None
    }

    /// Bind a fresh variable.
    fn insert(&mut self, k: Term, v: Term)
        requires
            old(self).wf(),
            !old(self)@.contains_key(k@),
        ensures
            final(self)@ == old(self)@.insert(k@, v@),
            final(self).wf(),
    {
        proof {
            lemma_entries_contains(self.entries@, k@);
        }
        self.entries.push((k, v));
        proof {
            assert(self.entries@.drop_last() =~= old(self).entries@);
            assert(self.entries@.last().0@ == k@);
        }
    }
}

/// The image of an optional binding set.
pub open spec fn opt_model(r: Option<Bindings>) -> Option<Map<TermModel, TermModel>> {
    match r {
        Some(b) => Some(b@),
        None => None,
    }
}

/// Whether `v` occurs in `x`, chasing bound variables; `None` on fuel
/// exhaustion.
pub open spec fn spec_occurs(
    v: TermModel,
    x: TermModel,
    b: Map<TermModel, TermModel>,
    fuel: nat,
) -> Option<bool>
    decreases fuel,
{
    if fuel == 0 {
        None
    } else if v == x {
        Some(true)
    } else if x is Var && b.contains_key(x) {
        spec_occurs(v, b[x], b, (fuel - 1) as nat)
    } else if x is Compound {
        spec_occurs_args(v, x->Compound_1, 0, b, (fuel - 1) as nat)
    } else {
        Some(false)
    }
}

/// Whether `v` occurs in any child from index `i` on.
pub open spec fn spec_occurs_args(
    v: TermModel,
    args: Seq<TermModel>,
    i: int,
    b: Map<TermModel, TermModel>,
    fuel: nat,
) -> Option<bool>
    decreases fuel,
{
    if fuel == 0 {
        None
    } else if i >= args.len() {
        Some(false)
    } else {
        match spec_occurs(v, args[i], b, (fuel - 1) as nat) {
            None => None,
            Some(true) => Some(true),
            Some(false) => spec_occurs_args(v, args, i + 1, b, (fuel - 1) as nat),
        }
    }
}

/// Unification: extend `b` so that `x` and `y` agree, or fail; `None` from a
/// fuel-exhausted chase is a failure like any other.
pub open spec fn spec_unify(
    x: TermModel,
    y: TermModel,
    b: Map<TermModel, TermModel>,
    fuel: nat,
) -> Option<Map<TermModel, TermModel>>
    decreases fuel,
{
    if fuel == 0 {
        None
    } else if x is Var {
        spec_unify_var(x, y, b, (fuel - 1) as nat)
    } else if y is Var {
        spec_unify_var(y, x, b, (fuel - 1) as nat)
    } else {
        match (x, y) {
            (TermModel::Compound(op1, a1), TermModel::Compound(op2, a2)) => {
                if op1 == op2 && a1.len() == a2.len() {
                    spec_unify_args(a1, a2, 0, b, (fuel - 1) as nat)
                } else {
                    None
                }
            },
            (TermModel::Atom(h1), TermModel::Atom(h2)) => {
                if h1 == h2 {
                    Some(b)
                } else {
                    None
                }
            },
            _ => None,
        }
    }
}

/// Unify the children from index `i` on, threading the bindings through.
pub open spec fn spec_unify_args(
    a1: Seq<TermModel>,
    a2: Seq<TermModel>,
    i: int,
    b: Map<TermModel, TermModel>,
    fuel: nat,
) -> Option<Map<TermModel, TermModel>>
    decreases fuel,
{
    if fuel == 0 {
        None
    } else if i >= a1.len() {
        Some(b)
    } else {
        match spec_unify(a1[i], a2[i], b, (fuel - 1) as nat) {
            None => None,
            Some(b2) => spec_unify_args(a1, a2, i + 1, b2, (fuel - 1) as nat),
        }
    }
}

/// Unify a variable with a term: chase existing bindings, then bind after
/// an occurs-check.
pub open spec fn spec_unify_var(
    v: TermModel,
    t: TermModel,
    b: Map<TermModel, TermModel>,
    fuel: nat,
) -> Option<Map<TermModel, TermModel>>
    decreases fuel,
{
    if fuel == 0 {
        None
    } else if b.contains_key(v) {
        spec_unify(b[v], t, b, (fuel - 1) as nat)
    } else if t is Var && b.contains_key(t) {
        spec_unify(v, b[t], b, (fuel - 1) as nat)
    } else {
        match spec_occurs(v, t, b, (fuel - 1) as nat) {
            None => None,
            Some(true) => None,
            Some(false) => Some(b.insert(v, t)),
        }
    }
}

/// Whether `v` occurs in `x` under the bindings.
fn occurs_fueled(v: &Term, x: &Term, bindings: &Bindings, fuel: u64) -> (r: Option<bool>)
    requires
        bindings.wf(),
    ensures
        r == spec_occurs(v@, x@, bindings@, fuel as nat),
    decreases fuel,
{
    if fuel == 0 {
        return None;
    }
    if terms_match(v, x) {
        return Some(true);
    }
    if matches!(x, Term::Var(_, _)) {
        let bound = bindings.get(x);
        if let Some(val) = bound {
            let val2 = val.clone();
            return occurs_fueled(v, &val2, bindings, fuel - 1);
        }
        return Some(false);
    }
    match x {
        Term::Compound(_, args) => occurs_args_fueled(v, args, 0, bindings, fuel - 1),
        _ => Some(false),
    }
}

/// Whether `v` occurs in any child from index `i` on.
fn occurs_args_fueled(v: &Term, args: &Vec<Term>, i: usize, bindings: &Bindings, fuel: u64) -> (r:
    Option<bool>)
    requires
        bindings.wf(),
        i <= args@.len(),
    ensures
        r == spec_occurs_args(v@, terms_model(args@), i as int, bindings@, fuel as nat),
    decreases fuel,
{
    proof {
        lemma_terms_model_len(args@);
    }
    if fuel == 0 {
        return None;
    }
    if i >= args.len() {
        return Some(false);
    }
    proof {
        lemma_terms_model_index(args@, i as int);
    }
    match occurs_fueled(v, &args[i], bindings, fuel - 1) {
        None => None,
        Some(true) => Some(true),
        Some(false) => occurs_args_fueled(v, args, i + 1, bindings, fuel - 1),
    }
}

/// Unify `x` and `y` under the bindings.
fn unify_fueled(x: &Term, y: &Term, bindings: Bindings, fuel: u64) -> (r: Option<Bindings>)
    requires
        bindings.wf(),
    ensures
        opt_model(r) == spec_unify(x@, y@, bindings@, fuel as nat),
        r matches Some(b2) ==> b2.wf(),
    decreases fuel,
{
    if fuel == 0 {
        return None;
    }
    if matches!(x, Term::Var(_, _)) {
        return unify_var_fueled(x, y, bindings, fuel - 1);
    }
    if matches!(y, Term::Var(_, _)) {
        return unify_var_fueled(y, x, bindings, fuel - 1);
    }
    match (x, y) {
        (Term::Compound(op1, args1), Term::Compound(op2, args2)) => {
            proof {
                lemma_terms_model_len(args1@);
                lemma_terms_model_len(args2@);
            }
            if ops_match(op1, op2) && args1.len() == args2.len() {
                unify_args_fueled(args1, args2, 0, bindings, fuel - 1)
            } else {
                None
            }
        },
        (Term::Atom(h1), Term::Atom(h2)) => {
            if h1 == h2 {
                Some(bindings)
            } else {
                None
            }
        },
        _ => None,
    }
}

/// Unify the children from index `i` on.
fn unify_args_fueled(
    args1: &Vec<Term>,
    args2: &Vec<Term>,
    i: usize,
    bindings: Bindings,
    fuel: u64,
) -> (r: Option<Bindings>)
    requires
        bindings.wf(),
        i <= args1@.len(),
        args1@.len() == args2@.len(),
    ensures
        opt_model(r) == spec_unify_args(
            terms_model(args1@),
            terms_model(args2@),
            i as int,
            bindings@,
            fuel as nat,
        ),
        r matches Some(b2) ==> b2.wf(),
    decreases fuel,
{
    proof {
        lemma_terms_model_len(args1@);
        lemma_terms_model_len(args2@);
    }
    if fuel == 0 {
        return None;
    }
    if i >= args1.len() {
        return Some(bindings);
    }
    proof {
        lemma_terms_model_index(args1@, i as int);
        lemma_terms_model_index(args2@, i as int);
    }
    match unify_fueled(&args1[i], &args2[i], bindings, fuel - 1) {
        None => None,
        Some(b2) => unify_args_fueled(args1, args2, i + 1, b2, fuel - 1),
    }
}

/// Unify a variable with a term.
fn unify_var_fueled(v: &Term, t: &Term, bindings: Bindings, fuel: u64) -> (r: Option<Bindings>)
    requires
        bindings.wf(),
    ensures
        opt_model(r) == spec_unify_var(v@, t@, bindings@, fuel as nat),
        r matches Some(b2) ==> b2.wf(),
    decreases fuel,
{
    if fuel == 0 {
        return None;
    }
    let bound_v = match bindings.get(v) {
        Some(val) => Some(val.clone()),
        None => None,
    };
    if let Some(val) = bound_v {
        return unify_fueled(&val, t, bindings, fuel - 1);
    }
    if matches!(t, Term::Var(_, _)) {
        let bound_t = match bindings.get(t) {
            Some(val) => Some(val.clone()),
            None => None,
        };
        if let Some(val) = bound_t {
            return unify_fueled(v, &val, bindings, fuel - 1);
        }
    }
    match occurs_fueled(v, t, &bindings, fuel - 1) {
        None => None,
        Some(true) => None,
        Some(false) => {
            let mut b = bindings;
            b.insert(v.clone(), t.clone());
            Some(b)
        },
    }
}

/// Unify two terms starting from no bindings.
pub fn unify(x: &Term, y: &Term) -> (r: Option<Bindings>)
    ensures
        opt_model(r) == spec_unify(
            x@,
            y@,
            Map::<TermModel, TermModel>::empty(),
            UNIFY_FUEL as nat,
        ),
        r matches Some(b2) ==> b2.wf(),
{
    unify_with_bindings(x, y, Bindings::new())
}

/// Unify two terms under an existing binding set.
pub fn unify_with_bindings(x: &Term, y: &Term, bindings: Bindings) -> (r: Option<Bindings>)
    requires
        bindings.wf(),
    ensures
        opt_model(r) == spec_unify(x@, y@, bindings@, UNIFY_FUEL as nat),
        r matches Some(b2) ==> b2.wf(),
{
    unify_fueled(x, y, bindings, UNIFY_FUEL)
}

/// Substitute bindings into a template term: a bound variable is replaced by
/// its value, one level deep; compounds substitute each child.
pub open spec fn spec_substitute(t: TermModel, b: Map<TermModel, TermModel>) -> TermModel
    decreases t, 1int,
{
    match t {
        TermModel::Var(k, id) => if b.contains_key(t) {
            b[t]
        } else {
            t
        },
        TermModel::Compound(op, args) => TermModel::Compound(op, spec_substitute_args(args, b)),
        TermModel::Atom(id) => t,
    }
}

/// Substitute into each child.
pub open spec fn spec_substitute_args(
    args: Seq<TermModel>,
    b: Map<TermModel, TermModel>,
) -> Seq<TermModel>
    decreases args, 0int,
{
    if args.len() == 0 {
        Seq::empty()
    } else {
        spec_substitute_args(args.drop_last(), b).push(spec_substitute(args.last(), b))
    }
}

/// Substituted children: same length, elementwise substitution.
proof fn lemma_substitute_args(args: Seq<TermModel>, b: Map<TermModel, TermModel>)
    ensures
        spec_substitute_args(args, b).len() == args.len(),
        forall|i: int|
            0 <= i < args.len() ==> #[trigger] spec_substitute_args(args, b)[i]
                == spec_substitute(args[i], b),
    decreases args.len(),
{
    if args.len() > 0 {
        lemma_substitute_args(args.drop_last(), b);
    }
}

/// Apply a binding set to a template term.
#[verifier::loop_isolation(false)]
pub fn substitute(term: &Term, bindings: &Bindings) -> (r: Term)
    requires
        bindings.wf(),
    ensures
        r@ == spec_substitute(term@, bindings@),
    decreases *term,
{
    match term {
        Term::Var(k, id) => {
            match bindings.get(term) {
                Some(val) => val.clone(),
                None => term.clone(),
            }
        },
        Term::Compound(op, args) => {
            let mut new_args: Vec<Term> = Vec::new();
            let mut i: usize = 0;
            while i < args.len()
                invariant
                    i <= args@.len(),
                    new_args@.len() == i,
                    forall|j: int|
                        0 <= j < i ==> (#[trigger] new_args@[j])@ == spec_substitute(
                            term_model(args@[j]),
                            bindings@,
                        ),
                decreases args@.len() - i,
            {
                proof {
                    assert(decreases_to!(*term => term->Compound_1));
                    assert(decreases_to!(*args => args@));
                    assert(decreases_to!(args@ => args@[i as int]));
                }
                new_args.push(substitute(&args[i], bindings));
                i = i + 1;
            }
            proof {
                lemma_substitute_args(terms_model(args@), bindings@);
                lemma_terms_model_len(args@);
                lemma_terms_model_len(new_args@);
                assert forall|j: int| 0 <= j < args@.len() implies terms_model(new_args@)[j]
                    == spec_substitute_args(terms_model(args@), bindings@)[j] by {
                    lemma_terms_model_index(args@, j);
                    lemma_terms_model_index(new_args@, j);
                }
                assert(terms_model(new_args@) =~= spec_substitute_args(
                    terms_model(args@),
                    bindings@,
                ));
            }
            Term::Compound(op.clone(), new_args)
        },
        Term::Atom(id) => term.clone(),
    }
}

} // verus!
