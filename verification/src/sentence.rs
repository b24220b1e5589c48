//! Sentences and stamps: the external unit of input and output, and the
//! evidence bookkeeping that prevents a belief from supporting itself.

use vstd::prelude::*;
use crate::term::{Term, TermModel};
use crate::truth::TruthValue;

verus! {

broadcast use vstd::seq::group_seq_axioms, vstd::std_specs::vec::group_vec_axioms;

/// The four kinds of sentence.
#[derive(Clone, Copy, Debug, PartialEq, Eq, Structural)]
pub enum Punctuation {
    Judgement,
    Question,
    Goal,
    Quest,
}

/// The largest number of evidence IDs a stamp retains.
pub const EVIDENCE_LIMIT: usize = 100;

/// A stamp: when a belief was formed and which atomic observations support
/// it.
#[derive(Debug)]
pub struct Stamp {
    pub creation_time: u64,
    pub evidence: Vec<u64>,
}

/// The mathematical image of a stamp.
pub struct StampModel {
    pub creation_time: u64,
    pub evidence: Seq<u64>,
}

impl View for Stamp {
    type V = StampModel;

    open spec fn view(&self) -> StampModel {
        StampModel { creation_time: self.creation_time, evidence: self.evidence@ }
    }
}

impl Clone for Stamp {
    fn clone(&self) -> (r: Self)
        ensures
            r@ == self@,
    {
        let r = Stamp { creation_time: self.creation_time, evidence: self.evidence.clone() };
        proof {
            assert(r.evidence@ =~= self.evidence@);
        }
        r
    }
}

/// A sequence holds no value twice.
pub open spec fn no_dups(s: Seq<u64>) -> bool {
    forall|i: int, j: int| 0 <= i < j < s.len() ==> s[i] != s[j]
}

/// Two evidence sets intersect.
pub open spec fn spec_overlaps(a: Seq<u64>, b: Seq<u64>) -> bool {
    exists|v: u64| a.contains(v) && b.contains(v)
}

/// The left-to-right deduplicating append: each value of `b` that `acc` does
/// not already hold is appended in order.
pub open spec fn merge_evidence(acc: Seq<u64>, b: Seq<u64>) -> Seq<u64>
    decreases b.len(),
{
    if b.len() == 0 {
        acc
    } else {
        let first = b.first();
        let acc2 = if acc.contains(first) {
            acc
        } else {
            acc.push(first)
        };
        merge_evidence(acc2, b.drop_first())
    }
}

/// Keep only the newest `EVIDENCE_LIMIT` entries, dropping the oldest first.
pub open spec fn cap_evidence(s: Seq<u64>) -> Seq<u64> {
    if s.len() <= EVIDENCE_LIMIT {
        s
    } else {
        s.subrange(s.len() - EVIDENCE_LIMIT, s.len() as int)
    }
}

/// Deduplicating append keeps a duplicate-free accumulator duplicate-free,
/// never shrinks it, and its result contains exactly the values of either
/// input.
proof fn lemma_merge_evidence(acc: Seq<u64>, b: Seq<u64>)
    ensures
        no_dups(acc) ==> no_dups(merge_evidence(acc, b)),
        merge_evidence(acc, b).len() >= acc.len(),
        forall|v: u64|
            #[trigger] merge_evidence(acc, b).contains(v) <==> (acc.contains(v) || b.contains(v)),
    decreases b.len(),
{
    if b.len() == 0 {
        assert(forall|v: u64| !b.contains(v));
    } else {
        let first = b.first();
        let acc2 = if acc.contains(first) {
            acc
        } else {
            acc.push(first)
        };
        assert(no_dups(acc) ==> no_dups(acc2)) by {
            if no_dups(acc) && !acc.contains(first) {
                assert forall|i: int, j: int| 0 <= i < j < acc2.len() implies acc2[i] != acc2[j] by {
                    if j < acc.len() {
                    } else {
                        assert(acc2[j] == first);
                        assert(acc.contains(acc[i]));
                    }
                }
            }
        }
        lemma_merge_evidence(acc2, b.drop_first());
        assert(merge_evidence(acc, b) == merge_evidence(acc2, b.drop_first()));
        assert(acc2.contains(first)) by {
            if !acc.contains(first) {
                assert(acc2[acc.len() as int] == first);
            }
        }
        assert(b[0] == first);
        assert(b.contains(first));
        assert forall|v: u64| b.contains(v) implies v == first || b.drop_first().contains(v) by {
            let i = choose|i: int| 0 <= i < b.len() && b[i] == v;
            if i > 0 {
                assert(b.drop_first()[i - 1] == v);
            }
        }
        assert forall|v: u64| #[trigger] b.drop_first().contains(v) implies b.contains(v) by {
            let i = choose|i: int| 0 <= i < b.drop_first().len() && b.drop_first()[i] == v;
            assert(b[i + 1] == v);
        }
        assert forall|v: u64| #[trigger] acc2.contains(v) implies acc.contains(v) || v == first by {
            let i = choose|i: int| 0 <= i < acc2.len() && acc2[i] == v;
            if i < acc.len() {
                assert(acc[i] == v);
            }
        }
        assert forall|v: u64| acc.contains(v) implies acc2.contains(v) by {
            let i = choose|i: int| 0 <= i < acc.len() && acc[i] == v;
            assert(acc2[i] == v);
        }
    }
}

/// A subrange of a duplicate-free sequence is duplicate-free.
proof fn lemma_cap_no_dups(s: Seq<u64>)
    requires
        no_dups(s),
    ensures
        no_dups(cap_evidence(s)),
{
}

impl Stamp {
    /// A stamp's evidence list is deduplicated and capped.
    pub open spec fn wf(self) -> bool {
        no_dups(self.evidence@) && self.evidence@.len() <= EVIDENCE_LIMIT
    }

    pub fn new(creation_time: u64, evidence: Vec<u64>) -> (r: Stamp)
        ensures
            r.creation_time == creation_time,
            r.evidence@ == evidence@,
    {
        Stamp { creation_time, evidence }
    }

    /// Whether the two stamps share any evidence ID. Symmetric (see
    /// `lemma_overlaps_symmetric`).
    #[verifier::loop_isolation(false)]
    pub fn overlaps(&self, other: &Stamp) -> (r: bool)
        ensures
            r == spec_overlaps(self.evidence@, other.evidence@),
    {
        let mut i: usize = 0;
        while i < self.evidence.len()
            invariant
                i <= self.evidence@.len(),
                forall|k: int, l: int|
                    0 <= k < i && 0 <= l < other.evidence@.len() ==> #[trigger] self.evidence@[k]
                        != #[trigger] other.evidence@[l],
            decreases self.evidence@.len() - i,
        {
            let id = self.evidence[i];
            let mut j: usize = 0;
            while j < other.evidence.len()
                invariant
                    j <= other.evidence@.len(),
                    id == self.evidence@[i as int],
                    forall|l: int| 0 <= l < j ==> #[trigger] other.evidence@[l] != id,
                decreases other.evidence@.len() - j,
            {
                if other.evidence[j] == id {
                    proof {
                        assert(self.evidence@.contains(id));
                        assert(other.evidence@.contains(id));
                    }
                    return true;
                }
                j = j + 1;
            }
            i = i + 1;
        }
        proof {
            if spec_overlaps(self.evidence@, other.evidence@) {
                let v = choose|v: u64|
                    self.evidence@.contains(v) && other.evidence@.contains(v);
                let k = choose|k: int| 0 <= k < self.evidence@.len() && self.evidence@[k] == v;
                let l = choose|l: int| 0 <= l < other.evidence@.len() && other.evidence@[l] == v;
                assert(self.evidence@[k] != other.evidence@[l]);
            }
        }
        false
    }

    /// The deduplicating union of the two evidence lists, capped at
    /// `EVIDENCE_LIMIT` entries with the oldest dropped first, under a fresh
    /// creation time. The result holds no duplicate evidence IDs and never
    /// exceeds the cap.
    #[verifier::loop_isolation(false)]
    pub fn merge(&self, other: &Stamp) -> (r: Stamp)
        requires
            self.wf(),
        ensures
            r.evidence@ == cap_evidence(merge_evidence(self.evidence@, other.evidence@)),
            r.wf(),
    {
        let mut merged = self.evidence.clone();
        proof {
            assert(merged@ =~= self.evidence@);
        }
        let mut i: usize = 0;
        while i < other.evidence.len()
            invariant
                i <= other.evidence@.len(),
                merged@ == merge_evidence(
                    self.evidence@,
                    other.evidence@.subrange(0, i as int),
                ),
            decreases other.evidence@.len() - i,
        {
            let id = other.evidence[i];
            let present = contains_id(&merged, id);
            proof {
                let pre = other.evidence@.subrange(0, i as int);
                let post = other.evidence@.subrange(0, i + 1);
                lemma_merge_evidence_snoc(self.evidence@, pre, other.evidence@[i as int]);
                assert(post =~= pre.push(other.evidence@[i as int]));
            }
            if !present {
                merged.push(id);
            }
            i = i + 1;
        }
        proof {
            assert(other.evidence@.subrange(0, other.evidence@.len() as int) =~= other.evidence@);
            lemma_merge_evidence(self.evidence@, other.evidence@);
        }
        let full = Ghost(merged@);
        if merged.len() > EVIDENCE_LIMIT {
            let mut capped: Vec<u64> = Vec::new();
            let start = merged.len() - EVIDENCE_LIMIT;
            let mut j: usize = start;
            while j < merged.len()
                invariant
                    start <= j <= merged@.len(),
                    start == merged@.len() - EVIDENCE_LIMIT,
                    merged@ == full@,
                    capped@ =~= merged@.subrange(start as int, j as int),
                decreases merged@.len() - j,
            {
                capped.push(merged[j]);
                proof {
                    assert(capped@ =~= merged@.subrange(start as int, j + 1));
                }
                j = j + 1;
            }
            proof {
                lemma_cap_no_dups(full@);
                assert(capped@ =~= cap_evidence(full@));
            }
            Stamp { creation_time: now_seconds(), evidence: capped }
        } else {
            Stamp { creation_time: now_seconds(), evidence: merged }
        }
    }
}

/// Folding one more value into a deduplicating append appends it exactly
/// when it is not yet present.
proof fn lemma_merge_evidence_snoc(acc: Seq<u64>, b: Seq<u64>, v: u64)
    ensures
        merge_evidence(acc, b.push(v)) == (if merge_evidence(acc, b).contains(v) {
            merge_evidence(acc, b)
        } else {
            merge_evidence(acc, b).push(v)
        }),
    decreases b.len(),
{
    if b.len() == 0 {
        let bp = b.push(v);
        let acc2 = if acc.contains(v) {
            acc
        } else {
            acc.push(v)
        };
        assert(bp.first() == v);
        assert(bp.drop_first() =~= Seq::<u64>::empty());
        assert(merge_evidence(acc, b) == acc);
        assert(merge_evidence(acc, bp) == merge_evidence(acc2, bp.drop_first()));
        assert(merge_evidence(acc2, bp.drop_first()) == acc2);
    } else {
        let first = b.first();
        let acc2 = if acc.contains(first) {
            acc
        } else {
            acc.push(first)
        };
        assert(b.push(v).first() == first);
        assert(b.push(v).drop_first() =~= b.drop_first().push(v));
        lemma_merge_evidence_snoc(acc2, b.drop_first(), v);
        assert(merge_evidence(acc, b) == merge_evidence(acc2, b.drop_first()));
        assert(merge_evidence(acc, b.push(v)) == merge_evidence(acc2, b.push(v).drop_first()));
        assert(merge_evidence(acc2, b.push(v).drop_first()) == merge_evidence(
            acc2,
            b.drop_first().push(v),
        ));
    }
}

/// Whether a vector holds a given ID.
fn contains_id(v: &Vec<u64>, x: u64) -> (r: bool)
    ensures
        r == v@.contains(x),
{
    let mut i: usize = 0;
    while i < v.len()
        invariant
            i <= v@.len(),
            forall|k: int| 0 <= k < i ==> v@[k] != x,
        decreases v@.len() - i,
    {
        if v[i] == x {
            return true;
        }
        i = i + 1;
    }
    proof {
        if v@.contains(x) {
            let k = choose|k: int| 0 <= k < v@.len() && v@[k] == x;
        }
    }
    false
}

/// `overlaps` does not depend on the order of its two stamps.
pub proof fn lemma_overlaps_symmetric(a: Seq<u64>, b: Seq<u64>)
    ensures
        spec_overlaps(a, b) == spec_overlaps(b, a),
{
}

/// Relies on `std::time::SystemTime::now` (with `duration_since` and
/// `Duration::as_secs`) for the wall-clock time in seconds since the Unix
/// epoch; nothing is assumed of the value.
#[verifier::external_body]
fn now_seconds() -> u64 {
    match std::time::SystemTime::now().duration_since(std::time::UNIX_EPOCH) {
        Ok(d) => d.as_secs(),
        Err(_) => 0,
    }
}

/// A sentence: a term with a punctuation, a truth value and a stamp.
#[derive(Debug)]
pub struct Sentence {
    pub term: Term,
    pub punctuation: Punctuation,
    pub truth: TruthValue,
    pub stamp: Stamp,
}

/// The mathematical image of a sentence.
pub struct SentenceModel {
    pub term: TermModel,
    pub punctuation: Punctuation,
    pub truth: TruthValue,
    pub stamp: StampModel,
}

impl View for Sentence {
    type V = SentenceModel;

    open spec fn view(&self) -> SentenceModel {
        SentenceModel {
            term: self.term@,
            punctuation: self.punctuation,
            truth: self.truth,
            stamp: self.stamp@,
        }
    }
}

impl Clone for Sentence {
    fn clone(&self) -> (r: Self)
        ensures
            r@ == self@,
    {
        Sentence {
            term: self.term.clone(),
            punctuation: self.punctuation,
            truth: self.truth,
            stamp: self.stamp.clone(),
        }
    }
}

impl Sentence {
    pub fn new(term: Term, punctuation: Punctuation, truth: TruthValue, stamp: Stamp) -> (r:
        Sentence)
        ensures
            r.term@ == term@,
            r.punctuation == punctuation,
            r.truth == truth,
            r.stamp@ == stamp@,
    {
        Sentence { term, punctuation, truth, stamp }
    }
}

} // verus!
