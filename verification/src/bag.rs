//! The Bag: a bounded, priority-bucketed probabilistic scheduler.
//!
//! Items live in 100 discrete priority levels. Insertion updates an existing
//! entry in place, selection is biased toward high levels but never starves
//! a non-empty bag, and eviction removes the first entry of the lowest
//! occupied level.

use vstd::prelude::*;
use crate::rng::random_below;
use crate::scale::{is_unit, UNIT};
use crate::term::{terms_match, Term, TermModel};

verus! {

broadcast use vstd::seq::group_seq_axioms, vstd::std_specs::vec::group_vec_axioms;

/// The level a priority falls in: the unit interval cut into 100 buckets.
pub open spec fn level_of(p: u64) -> int {
    p * 99 / (UNIT as int)
}

/// The level of a priority, computed.
pub fn level_of_priority(p: u64) -> (r: u64)
    requires
        is_unit(p),
    ensures
        r == level_of(p),
        r <= 99,
{
    p * 99 / UNIT
}

/// An entry list never holds the same term twice.
pub open spec fn distinct_items(s: Seq<(TermModel, u64)>) -> bool {
    forall|i: int, j: int| 0 <= i < j < s.len() ==> s[i].0 != s[j].0
}

/// Every stored priority lies in the unit interval.
pub open spec fn all_priorities_unit(s: Seq<(TermModel, u64)>) -> bool {
    forall|i: int| 0 <= i < s.len() ==> is_unit((#[trigger] s[i]).1)
}

/// Whether some entry holds the item.
pub open spec fn has_item(s: Seq<(TermModel, u64)>, t: TermModel) -> bool {
    exists|i: int| 0 <= i < s.len() && s[i].0 == t
}

/// The index of the entry that would be evicted: the first entry of the
/// lowest occupied level.
pub open spec fn is_weakest_index(s: Seq<(TermModel, u64)>, i: int) -> bool {
    &&& 0 <= i < s.len()
    &&& forall|j: int| 0 <= j < i ==> level_of((#[trigger] s[j]).1) > level_of(s[i].1)
    &&& forall|j: int| 0 <= j < s.len() ==> level_of((#[trigger] s[j]).1) >= level_of(s[i].1)
}

/// A bounded probabilistic scheduler over terms. Entries are kept in
/// insertion order; an entry's level is derived from its priority.
#[derive(Debug)]
pub struct Bag {
    entries: Vec<(Term, u64)>,
    capacity: usize,
}

impl View for Bag {
    type V = Seq<(TermModel, u64)>;

    closed spec fn view(&self) -> Seq<(TermModel, u64)> {
        Seq::new(self.entries@.len(), |i: int| (self.entries@[i].0@, self.entries@[i].1))
    }
}

impl Bag {
    /// No duplicate items, unit priorities, and the capacity respected.
    pub open spec fn wf(self) -> bool {
        &&& distinct_items(self@)
        &&& all_priorities_unit(self@)
        &&& self@.len() <= self.spec_capacity()
        &&& self.spec_capacity() >= 1
    }

    /// The configured capacity.
    pub closed spec fn spec_capacity(self) -> int {
        self.capacity as int
    }

    pub fn new(capacity: usize) -> (r: Bag)
        requires
            capacity >= 1,
        ensures
            r@ =~= Seq::<(TermModel, u64)>::empty(),
            r.spec_capacity() == capacity,
            r.wf(),
    {
        Bag { entries: Vec::new(), capacity }
    }

    /// How many items the bag holds.
    pub fn count(&self) -> (r: usize)
        ensures
            r == self@.len(),
    {
        self.entries.len()
    }

    /// The index of the entry holding `item`, if any.
    fn position_of(&self, item: &Term) -> (r: Option<usize>)
        ensures
            match r {
                Some(i) => 0 <= i < self@.len() && self@[i as int].0 == item@,
                None => !has_item(self@, item@),
            },
    {
        let mut i: usize = 0;
        while i < self.entries.len()
            invariant
                i <= self.entries@.len(),
                forall|j: int| 0 <= j < i ==> (#[trigger] self.entries@[j].0)@ != item@,
            decreases self.entries@.len() - i,
        {
            if terms_match(&self.entries[i].0, item) {
                return Some(i);
            }
            i = i + 1;
        }
        None
    }

    /// The index that `take_weakest` would remove: the first entry of the
    /// lowest occupied level.
    fn weakest_position(&self) -> (r: usize)
        requires
            self@.len() > 0,
            all_priorities_unit(self@),
        ensures
            is_weakest_index(self@, r as int),
    {
        proof {
            assert(self@[0].1 == self.entries@[0].1);
        }
        let mut best: usize = 0;
        let mut best_level: u64 = level_of_priority(self.entries[0].1);
        let mut i: usize = 1;
        while i < self.entries.len()
            invariant
                1 <= i <= self.entries@.len(),
                0 <= best < i,
                all_priorities_unit(self@),
                self@.len() == self.entries@.len(),
                best_level == level_of(self@[best as int].1),
                forall|j: int| 0 <= j < best ==> level_of((#[trigger] self@[j]).1) > best_level,
                forall|j: int| 0 <= j < i ==> level_of((#[trigger] self@[j]).1) >= best_level,
            decreases self.entries@.len() - i,
        {
            proof {
                assert(self@[i as int].1 == self.entries@[i as int].1);
            }
            let lv = level_of_priority(self.entries[i].1);
            if lv < best_level {
                best = i;
                best_level = lv;
            }
            i = i + 1;
        }
        best
    }

    /// Remove the entry at a known index and hand its term back.
    fn remove_at(&mut self, i: usize) -> (r: Term)
        requires
            0 <= i < old(self)@.len(),
        ensures
            r@ == old(self)@[i as int].0,
            final(self)@ =~= old(self)@.remove(i as int),
            final(self).spec_capacity() == old(self).spec_capacity(),
    {
        let (t, _p) = self.entries.remove(i);
        t
    }

    /// Insert `item` at `priority`. An already-present item is re-inserted
    /// at its new level without changing the count; a full bag first evicts
    /// the first entry of its lowest occupied level.
    pub fn put(&mut self, item: Term, priority: u64)
        requires
            old(self).wf(),
            is_unit(priority),
        ensures
            final(self).wf(),
            final(self).spec_capacity() == old(self).spec_capacity(),
            has_item(final(self)@, item@),
            final(self)@.last() == (item@, priority),
            // an update in place never changes the count
            has_item(old(self)@, item@) ==> final(self)@.len() == old(self)@.len(),
            has_item(old(self)@, item@) ==> exists|i: int|
                0 <= i < old(self)@.len() && old(self)@[i].0 == item@ && final(self)@
                    =~= old(self)@.remove(i).push((item@, priority)),
            !has_item(old(self)@, item@) && old(self)@.len() < old(self).spec_capacity()
                ==> final(self)@ =~= old(self)@.push((item@, priority)),
            !has_item(old(self)@, item@) && old(self)@.len() == old(self).spec_capacity()
                ==> exists|i: int|
                is_weakest_index(old(self)@, i) && final(self)@ =~= old(self)@.remove(i).push(
                    (item@, priority),
                ),
    {
        let ghost s0 = self@;
        match self.position_of(&item) {
            Some(i) => {
                self.remove_at(i);
                proof {
                    assert(!has_item(self@, item@)) by {
                        if has_item(self@, item@) {
                            let k = choose|k: int| 0 <= k < self@.len() && self@[k].0 == item@;
                            if k < i {
                                assert(s0[k].0 == item@);
                            } else {
                                assert(s0[k + 1].0 == item@);
                            }
                        }
                    }
                }
            },
            None => {
                if self.entries.len() >= self.capacity {
                    let w = self.weakest_position();
                    self.remove_at(w);
                    proof {
                        assert(!has_item(self@, item@)) by {
                            if has_item(self@, item@) {
                                let k = choose|k: int|
                                    0 <= k < self@.len() && self@[k].0 == item@;
                                if k < w {
                                    assert(s0[k].0 == item@);
                                } else {
                                    assert(s0[k + 1].0 == item@);
                                }
                            }
                        }
                    }
                }
            },
        }
        let ghost mid = self@;
        self.entries.push((item, priority));
        proof {
            assert(self@ =~= mid.push((item@, priority)));
            assert(self@[self@.len() - 1].0 == item@);
            assert(distinct_items(self@)) by {
                assert forall|a: int, b: int| 0 <= a < b < self@.len() implies self@[a].0
                    != self@[b].0 by {
                    if b == self@.len() - 1 {
                        assert(mid[a].0 != item@);
                    }
                }
            }
        }
    }

    /// Remove and return one item, chosen by a quadratically level-biased
    /// random draw with a deterministic top-down fallback: a non-empty bag
    /// always yields an item.
    pub fn take(&mut self) -> (r: Option<Term>)
        requires
            old(self).wf(),
        ensures
            final(self).wf(),
            final(self).spec_capacity() == old(self).spec_capacity(),
            old(self)@.len() == 0 ==> r is None && final(self)@ == old(self)@,
            old(self)@.len() > 0 ==> match r {
                Some(t) => exists|i: int|
                    0 <= i < old(self)@.len() && old(self)@[i].0 == t@ && final(self)@
                        =~= old(self)@.remove(i),
                None => false,
            },
    {
        if self.entries.len() == 0 {
            return None;
        }
        let mut attempt: usize = 0;
        while attempt < 3
            invariant
                self@ == old(self)@,
                self.spec_capacity() == old(self).spec_capacity(),
                self@.len() > 0,
                old(self).wf(),
            decreases 3 - attempt,
        {
            let r = random_below(100);
            proof {
                assert(r * r <= 99 * 99) by (nonlinear_arith)
                    requires
                        r <= 99u64,
                ;
            }
            let level = 99 - (r * r / 100);
            match self.pick_random_at_level(level) {
                Some(i) => {
                    let t = self.remove_at(i);
                    return Some(t);
                },
                None => {},
            }
            attempt = attempt + 1;
        }
        // fallback: deterministic scan from the top level down, which is the
        // first entry of the highest occupied level
        let i = self.strongest_position();
        let t = self.remove_at(i);
        Some(t)
    }

    /// A uniformly random index among the entries of the given level, if
    /// that level is occupied.
    fn pick_random_at_level(&self, level: u64) -> (r: Option<usize>)
        requires
            all_priorities_unit(self@),
        ensures
            match r {
                Some(i) => 0 <= i < self@.len(),
                None => true,
            },
    {
        let mut n: u64 = 0;
        let mut i: usize = 0;
        while i < self.entries.len()
            invariant
                i <= self.entries@.len(),
                n <= i,
                all_priorities_unit(self@),
            decreases self.entries@.len() - i,
        {
            proof {
                assert(self@[i as int].1 == self.entries@[i as int].1);
            }
            if level_of_priority(self.entries[i].1) == level {
                n = n + 1;
            }
            i = i + 1;
        }
        if n == 0 {
            return None;
        }
        let pick = random_below(n);
        let mut seen: u64 = 0;
        let mut j: usize = 0;
        while j < self.entries.len()
            invariant
                j <= self.entries@.len(),
                seen <= j,
                all_priorities_unit(self@),
            decreases self.entries@.len() - j,
        {
            proof {
                assert(self@[j as int].1 == self.entries@[j as int].1);
            }
            if level_of_priority(self.entries[j].1) == level {
                if seen == pick {
                    return Some(j);
                }
                seen = seen + 1;
            }
            j = j + 1;
        }
        None
    }

    /// The first entry of the highest occupied level.
    fn strongest_position(&self) -> (r: usize)
        requires
            self@.len() > 0,
            all_priorities_unit(self@),
        ensures
            0 <= r < self@.len(),
    {
        proof {
            assert(self@[0].1 == self.entries@[0].1);
        }
        let mut best: usize = 0;
        let mut best_level: u64 = level_of_priority(self.entries[0].1);
        let mut i: usize = 1;
        while i < self.entries.len()
            invariant
                1 <= i <= self.entries@.len(),
                0 <= best < self.entries@.len(),
                all_priorities_unit(self@),
                self@.len() == self.entries@.len(),
            decreases self.entries@.len() - i,
        {
            proof {
                assert(self@[i as int].1 == self.entries@[i as int].1);
            }
            let lv = level_of_priority(self.entries[i].1);
            if lv > best_level {
                best = i;
                best_level = lv;
            }
            i = i + 1;
        }
        best
    }

    /// Remove and return the first entry of the lowest occupied level; the
    /// deterministic eviction used by the concept store's forgetting policy.
    pub fn take_weakest(&mut self) -> (r: Option<Term>)
        requires
            old(self).wf(),
        ensures
            final(self).wf(),
            final(self).spec_capacity() == old(self).spec_capacity(),
            old(self)@.len() == 0 ==> r is None && final(self)@ == old(self)@,
            old(self)@.len() > 0 ==> match r {
                Some(t) => exists|i: int|
                    is_weakest_index(old(self)@, i) && old(self)@[i].0 == t@ && final(self)@
                        =~= old(self)@.remove(i),
                None => false,
            },
    {
        if self.entries.len() == 0 {
            return None;
        }
        let i = self.weakest_position();
        let t = self.remove_at(i);
        Some(t)
    }
}

impl Default for Bag {
    /// A bag of capacity 100.
    fn default() -> (r: Bag)
        ensures
            r@ =~= Seq::<(TermModel, u64)>::empty(),
            r.spec_capacity() == 100,
            r.wf(),
    {
        Bag::new(100)
    }
}

} // verus!
