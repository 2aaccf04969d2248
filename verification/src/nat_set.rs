//! A set of small natural numbers, held as a vector of membership bits.
use vstd::prelude::*;

verus! {

/// A finite set of natural numbers; `bits[i]` holds when `i` is in the set.
pub struct NatSet {
    pub bits: Vec<bool>,
}

/// The number of members among the first `n` bits.
pub open spec fn count_members(bits: Seq<bool>, n: int) -> nat
    decreases n,
{
    if n <= 0 {
        0
    } else {
        count_members(bits, n - 1) + if bits[n - 1] { 1nat } else { 0nat }
    }
}

proof fn lemma_count_bounded(bits: Seq<bool>, n: int)
    requires
        0 <= n,
    ensures
        count_members(bits, n) <= n,
    decreases n,
{
    if n > 0 {
        lemma_count_bounded(bits, n - 1);
    }
}

impl NatSet {
    /// Whether `i` is a member.
    pub open spec fn has(&self, i: int) -> bool {
        0 <= i < self.bits@.len() && self.bits@[i]
    }

    /// The members as a set.
    pub open spec fn view(&self) -> Set<int> {
        Set::new(|i: int| self.has(i))
    }

    /// The number of members.
    pub open spec fn cardinality(&self) -> nat {
        count_members(self.bits@, self.bits@.len() as int)
    }

    /// The empty set.
    pub fn new() -> (r: NatSet)
        ensures
            r@ == Set::<int>::empty(),
            r.bits@.len() == 0,
    {
        let r = NatSet { bits: Vec::new() };
        assert(r@ =~= Set::<int>::empty());
        r
    }

    /// A set with the same members.
    pub fn duplicate(&self) -> (r: NatSet)
        ensures
            r@ == self@,
            r.bits@ == self.bits@,
    {
        NatSet { bits: self.bits.clone() }
    }

    /// Whether `i` is a member.
    pub fn contains(&self, i: usize) -> (r: bool)
        ensures
            r == self.has(i as int),
    {
        i < self.bits.len() && self.bits[i]
    }

    /// Adds `i`.
    pub fn insert(&mut self, i: usize)
        ensures
            final(self)@ == old(self)@.insert(i as int),
    {
        while self.bits.len() <= i
            invariant
                self@ == old(self)@,
            decreases i + 1 - self.bits@.len(),
        {
            self.bits.push(false);
            assert(self@ =~= old(self)@);
        }
        self.bits.set(i, true);
        assert(self@ =~= old(self)@.insert(i as int));
    }

    /// Whether the set has no members.
    pub fn is_empty(&self) -> (r: bool)
        ensures
            r == (self@ == Set::<int>::empty()),
    {
        let mut i: usize = 0;
        while i < self.bits.len()
            invariant
                i <= self.bits@.len(),
                forall|k: int| 0 <= k < i ==> !self.bits@[k],
            decreases self.bits@.len() - i,
        {
            if self.bits[i] {
                assert(self@.contains(i as int));
                return false;
            }
            i = i + 1;
        }
        assert(self@ =~= Set::<int>::empty());
        true
    }

    /// Adds every member of `other`.
    pub fn union_in_place(&mut self, other: &NatSet)
        ensures
            final(self)@ == old(self)@.union(other@),
    {
        while self.bits.len() < other.bits.len()
            invariant
                self@ == old(self)@,
            decreases other.bits@.len() - self.bits@.len(),
        {
            self.bits.push(false);
            assert(self@ =~= old(self)@);
        }
        let ghost before = self.bits@;
        let mut i: usize = 0;
        while i < other.bits.len()
            invariant
                i <= other.bits@.len(),
                other.bits@.len() <= self.bits@.len(),
                self.bits@.len() == before.len(),
                forall|k: int| 0 <= k < before.len() ==> #[trigger] self.bits@[k] == (if k < i { before[k] || other.has(k) } else { before[k] }),
            decreases other.bits@.len() - i,
        {
            if other.bits[i] {
                self.bits.set(i, true);
            }
            i = i + 1;
        }
        assert(self@ =~= old(self)@.union(other@));
    }

    /// Whether every member of `other` is a member of `self`.
    pub fn is_superset(&self, other: &NatSet) -> (r: bool)
        ensures
            r == other@.subset_of(self@),
    {
        let mut i: usize = 0;
        while i < other.bits.len()
            invariant
                i <= other.bits@.len(),
                forall|k: int| 0 <= k < i ==> (other.has(k) ==> self.has(k)),
            decreases other.bits@.len() - i,
        {
            if other.bits[i] && !self.contains(i) {
                assert(other@.contains(i as int) && !self@.contains(i as int));
                return false;
            }
            i = i + 1;
        }
        true
    }

    /// Whether `self` and `other` have no common member.
    pub fn is_disjoint(&self, other: &NatSet) -> (r: bool)
        ensures
            r == self@.disjoint(other@),
    {
        let mut i: usize = 0;
        while i < other.bits.len()
            invariant
                i <= other.bits@.len(),
                forall|k: int| 0 <= k < i ==> !(other.has(k) && self.has(k)),
            decreases other.bits@.len() - i,
        {
            if other.bits[i] && self.contains(i) {
                assert(other@.contains(i as int) && self@.contains(i as int));
                return false;
            }
            i = i + 1;
        }
        true
    }

    /// The members of `self` that are not members of `other`.
    pub fn difference(&self, other: &NatSet) -> (r: NatSet)
        ensures
            r@ == self@.difference(other@),
    {
        let mut bits: Vec<bool> = Vec::new();
        let mut i: usize = 0;
        while i < self.bits.len()
            invariant
                i <= self.bits@.len(),
                bits@.len() == i,
                forall|k: int| 0 <= k < i ==> bits@[k] == (self.has(k) && !other.has(k)),
            decreases self.bits@.len() - i,
        {
            bits.push(self.bits[i] && !other.contains(i));
            i = i + 1;
        }
        let r = NatSet { bits };
        assert(r@ =~= self@.difference(other@));
        r
    }

    /// The number of members.
    pub fn len(&self) -> (r: usize)
        ensures
            r == self.cardinality(),
    {
        let mut n: usize = 0;
        let mut i: usize = 0;
        while i < self.bits.len()
            invariant
                i <= self.bits@.len(),
                n == count_members(self.bits@, i as int),
            decreases self.bits@.len() - i,
        {
            proof {
                lemma_count_bounded(self.bits@, i as int);
            }
            if self.bits[i] {
                n = n + 1;
            }
            i = i + 1;
        }
        n
    }
}

} // verus!
