//! The discrimination net of a free symbol: a ternary search tree of tests on the symbols at
//! argument positions of a subject, whose leaves name the sets of equations that may apply.
use vstd::prelude::*;
use std::rc::Rc;
use std::collections::HashSet;
use crate::dag_node::Signature;
use crate::free_remainder::FreeRemainder;
use crate::node_list::{NodeList, node_list_items};
use crate::symbol::{NONE, SymbolMembers};

verus! {

/// The equations whose patterns are still alive, by index.
pub type PatternSet = HashSet<i32>;

/// The remainders of equations, by equation index.
pub type FreeRemainderList = Vec<Option<Rc<FreeRemainder>>>;

/// A test of the net: compare the symbol of argument `arg_index` of the argument list in stack
/// slot `position` (or of the old argument when `position` is `NONE`) with symbol
/// `symbol_index`. On equality go to `equal` (after storing the argument's argument list in
/// slot `slot` unless that is `NONE`); otherwise go to `not_equal.0` for a smaller symbol and to
/// `not_equal.1` for a larger one. A negative target encodes a list of applicable equations,
/// 0 failure.
#[derive(Copy, Clone, Debug)]
pub struct TestNode {
    pub not_equal: (i32, i32),
    pub position: i32,
    pub arg_index: i32,
    pub symbol_index: i32,
    pub slot: i32,
    pub equal: i32,
}

impl TestNode {
    /// A test with every field 0.
    pub fn new() -> (r: TestNode)
        ensures
            r == blank_test_node(),
    {
        TestNode { not_equal: (0, 0), position: 0, arg_index: 0, symbol_index: 0, slot: 0, equal: 0 }
    }
}

pub open spec fn blank_test_node() -> TestNode {
    TestNode { not_equal: (0, 0), position: 0, arg_index: 0, symbol_index: 0, slot: 0, equal: 0 }
}

/// A symbol to test for, with the slot to store its node's arguments in and where to go next.
#[derive(Copy, Clone, PartialEq, Eq, Structural, Debug)]
pub struct Triple {
    pub symbol: usize,
    pub slot: i32,
    pub subtree: i32,
}

/// A discrimination net.
pub struct FreeNet {
    pub stack: Vec<NodeList>,
    pub net: Vec<TestNode>,
    pub fast_applicable: Vec<FreeRemainderList>,
    pub remainders: FreeRemainderList,
    pub applicable: Vec<PatternSet>,
    pub fast: bool,
}

/// The first symbol is more important than the second, and so should be tested first: free
/// symbols come before the others, and among symbols of one kind those of higher arity.
pub open spec fn more_important_spec(sig: Seq<SymbolMembers>, first: usize, second: usize) -> bool {
    let f = !sig[first as int].is_variable;
    let s = !sig[second as int].is_variable;
    if f && !s {
        true
    } else if !f && s {
        false
    } else {
        sig[first as int].arity > sig[second as int].arity
    }
}

/// The triple tested at the root of the tree over `triples[first..=last]`: the middle one, or
/// of two middle ones the later if its symbol is more important.
pub open spec fn middle(sig: Seq<SymbolMembers>, triples: Seq<Triple>, first: int, last: int) -> int {
    let sum = first + last;
    let t = sum / 2;
    if sum % 2 != 0 && more_important_spec(sig, triples[t + 1].symbol, triples[t].symbol) {
        t + 1
    } else {
        t
    }
}

/// The tests, in order from index `start`, of the ternary tree over `triples[first..=last]`:
/// the root test, then the tree of the triples before it, then the tree of those after it.
/// Tests below the root take their argument from the node just tested (`NONE` positions).
pub open spec fn tree_nodes(
    sig: Seq<SymbolMembers>,
    triples: Seq<Triple>,
    first: int,
    last: int,
    start: int,
    default_subtree: i32,
    position: i32,
    arg_index: i32,
) -> Seq<TestNode>
    decreases last - first,
{
    if first > last || first < 0 {
        Seq::empty()
    } else {
        let t = middle(sig, triples, first, last);
        let right_start = start + 1 + (t - first);
        let left = if first < t {
            tree_nodes(sig, triples, first, t - 1, start + 1, default_subtree, NONE, NONE)
        } else {
            Seq::empty()
        };
        let right = if t < last {
            tree_nodes(sig, triples, t + 1, last, right_start, default_subtree, NONE, NONE)
        } else {
            Seq::empty()
        };
        let node = TestNode {
            not_equal: (
                if first < t { (start + 1) as i32 } else { default_subtree },
                if t < last { right_start as i32 } else { default_subtree },
            ),
            position,
            arg_index,
            symbol_index: sig[triples[t].symbol as int].index_within_parent_module,
            slot: triples[t].slot,
            equal: triples[t].subtree,
        };
        seq![node] + left + right
    }
}

proof fn lemma_middle_bounds(sig: Seq<SymbolMembers>, triples: Seq<Triple>, first: int, last: int)
    requires
        0 <= first <= last,
    ensures
        first <= middle(sig, triples, first, last) <= last,
{
}

proof fn lemma_tree_nodes_len(
    sig: Seq<SymbolMembers>,
    triples: Seq<Triple>,
    first: int,
    last: int,
    start: int,
    default_subtree: i32,
    position: i32,
    arg_index: i32,
)
    requires
        0 <= first,
    ensures
        tree_nodes(sig, triples, first, last, start, default_subtree, position, arg_index).len() == (if first > last {
            0
        } else {
            last - first + 1
        }),
    decreases last - first,
{
    if first <= last {
        let t = middle(sig, triples, first, last);
        lemma_middle_bounds(sig, triples, first, last);
        if first < t {
            lemma_tree_nodes_len(sig, triples, first, t - 1, start + 1, default_subtree, NONE, NONE);
        }
        if t < last {
            lemma_tree_nodes_len(sig, triples, t + 1, last, start + 1 + (t - first), default_subtree, NONE, NONE);
        }
    }
}

impl FreeNet {
    /// An empty net with fast handling.
    pub fn new() -> (r: FreeNet)
        ensures
            r.stack@.len() == 0,
            r.net@.len() == 0,
            r.fast_applicable@.len() == 0,
            r.remainders@.len() == 0,
            r.applicable@.len() == 0,
            r.fast,
    {
        FreeNet {
            stack: Vec::new(),
            net: Vec::new(),
            fast_applicable: Vec::new(),
            remainders: Vec::new(),
            applicable: Vec::new(),
            fast: true,
        }
    }

    /// Whether the net can be run in its fast form.
    pub fn fast_handling(&self) -> (r: bool)
        ensures
            r == self.fast,
    {
        self.fast
    }

    /// Adds `nr_match_arcs` blank tests and returns the index of the first.
    pub fn allocate_node(&mut self, nr_match_arcs: usize) -> (r: usize)
        requires
            old(self).net@.len() + nr_match_arcs <= usize::MAX,
        ensures
            r == old(self).net@.len(),
            final(self).net@ == old(self).net@ + Seq::new(nr_match_arcs as nat, |i: int| blank_test_node()),
            final(self).stack@ == old(self).stack@,
            final(self).applicable@ == old(self).applicable@,
            final(self).fast == old(self).fast,
    {
        let len = self.net.len();
        let mut k: usize = 0;
        while k < nr_match_arcs
            invariant
                len == old(self).net@.len(),
                len + nr_match_arcs <= usize::MAX,
                k <= nr_match_arcs,
                self.net@ == old(self).net@ + Seq::new(k as nat, |i: int| blank_test_node()),
                self.stack@ == old(self).stack@,
                self.applicable@ == old(self).applicable@,
                self.fast == old(self).fast,
            decreases nr_match_arcs - k,
        {
            self.net.push(TestNode::new());
            k = k + 1;
            assert(self.net@ =~= old(self).net@ + Seq::new(k as nat, |i: int| blank_test_node()));
        }
        len
    }

    /// Records a set of applicable equations and returns its encoding as a target: the
    /// complement of its index.
    pub fn add_remainder_list(&mut self, live_set: PatternSet) -> (r: i32)
        requires
            old(self).applicable@.len() < 0x8000_0000,
        ensures
            final(self).applicable@ == old(self).applicable@.push(live_set),
            r == -(old(self).applicable@.len() as int) - 1,
            final(self).net@ == old(self).net@,
            final(self).stack@ == old(self).stack@,
            final(self).fast == old(self).fast,
    {
        let index = self.applicable.len();
        self.applicable.push(live_set);
        let i = index as i32;
        assert(!i == -(i as int) - 1) by (bit_vector);
        !i
    }

    /// Makes the stack `nr_real_slots` long, with empty lists at new slots, and renames the
    /// slots and positions of the tests that have one through `slot_translation`.
    pub fn translate_slots(&mut self, nr_real_slots: usize, slot_translation: &Vec<i32>)
        requires
            forall|i: int| 0 <= i < old(self).net@.len() ==> {
                &&& ((#[trigger] old(self).net@[i]).slot == NONE || 0 <= old(self).net@[i].slot < slot_translation@.len())
                &&& (old(self).net@[i].position == NONE || 0 <= old(self).net@[i].position < slot_translation@.len())
            },
        ensures
            final(self).stack@.len() == nr_real_slots,
            forall|i: int| 0 <= i < nr_real_slots && i < old(self).stack@.len() ==> #[trigger] final(self).stack@[i] == old(self).stack@[i],
            forall|i: int| old(self).stack@.len() <= i < nr_real_slots ==> node_list_items(#[trigger] final(self).stack@[i]) == Seq::<usize>::empty(),
            final(self).net@.len() == old(self).net@.len(),
            forall|i: int| 0 <= i < old(self).net@.len() ==> #[trigger] final(self).net@[i] == (TestNode {
                slot: if old(self).net@[i].slot == NONE { NONE } else { slot_translation@[old(self).net@[i].slot as int] },
                position: if old(self).net@[i].position == NONE { NONE } else { slot_translation@[old(self).net@[i].position as int] },
                ..old(self).net@[i]
            }),
            final(self).applicable@ == old(self).applicable@,
            final(self).fast == old(self).fast,
    {
        while self.stack.len() > nr_real_slots
            invariant
                self.stack@.len() <= old(self).stack@.len(),
                self.stack@.len() < old(self).stack@.len() ==> self.stack@.len() >= nr_real_slots,
                forall|i: int| 0 <= i < self.stack@.len() ==> #[trigger] self.stack@[i] == old(self).stack@[i],
                self.net@ == old(self).net@,
                self.applicable@ == old(self).applicable@,
                self.fast == old(self).fast,
            decreases self.stack@.len(),
        {
            self.stack.pop();
        }
        while self.stack.len() < nr_real_slots
            invariant
                self.stack@.len() <= nr_real_slots,
                self.stack@.len() < nr_real_slots ==> self.stack@.len() >= old(self).stack@.len(),
                forall|i: int| 0 <= i < self.stack@.len() && i < old(self).stack@.len() ==> #[trigger] self.stack@[i] == old(self).stack@[i],
                forall|i: int| old(self).stack@.len() <= i < self.stack@.len() ==> node_list_items(#[trigger] self.stack@[i]) == Seq::<usize>::empty(),
                self.net@ == old(self).net@,
                self.applicable@ == old(self).applicable@,
                self.fast == old(self).fast,
            decreases nr_real_slots - self.stack@.len(),
        {
            self.stack.push(NodeList::new());
        }
        let n = self.net.len();
        let mut k: usize = 0;
        while k < n
            invariant
                n == self.net@.len(),
                n == old(self).net@.len(),
                k <= n,
                self.stack@.len() == nr_real_slots,
                forall|i: int| 0 <= i < nr_real_slots && i < old(self).stack@.len() ==> #[trigger] self.stack@[i] == old(self).stack@[i],
                forall|i: int| old(self).stack@.len() <= i < nr_real_slots ==> node_list_items(#[trigger] self.stack@[i]) == Seq::<usize>::empty(),
                forall|i: int| 0 <= i < old(self).net@.len() ==> {
                    &&& ((#[trigger] old(self).net@[i]).slot == NONE || 0 <= old(self).net@[i].slot < slot_translation@.len())
                    &&& (old(self).net@[i].position == NONE || 0 <= old(self).net@[i].position < slot_translation@.len())
                },
                forall|i: int| k <= i < n ==> #[trigger] self.net@[i] == old(self).net@[i],
                forall|i: int| 0 <= i < k ==> #[trigger] self.net@[i] == (TestNode {
                    slot: if old(self).net@[i].slot == NONE { NONE } else { slot_translation@[old(self).net@[i].slot as int] },
                    position: if old(self).net@[i].position == NONE { NONE } else { slot_translation@[old(self).net@[i].position as int] },
                    ..old(self).net@[i]
                }),
                self.applicable@ == old(self).applicable@,
                self.fast == old(self).fast,
            decreases n - k,
        {
            let mut node = self.net[k];
            assert(node == old(self).net@[k as int]);
            node.slot = if node.slot == NONE { NONE } else { slot_translation[node.slot as usize] };
            node.position = if node.position == NONE { NONE } else { slot_translation[node.position as usize] };
            self.net.set(k, node);
            k = k + 1;
        }
    }

    /// Whether `first` should be tested before `second`.
    pub fn more_important(&self, sig: &Signature, first: usize, second: usize) -> (r: bool)
        requires
            first < sig.symbols@.len(),
            second < sig.symbols@.len(),
        ensures
            r == more_important_spec(sig.symbols@, first, second),
    {
        let f = !sig.symbols[first].is_variable;
        let s = !sig.symbols[second].is_variable;
        if f && !s {
            true
        } else if !f && s {
            false
        } else {
            sig.symbols[first].arity > sig.symbols[second].arity
        }
    }

    /// The guard of `apply_replace_aux`: nothing applies when no equation is applicable.
    pub fn apply_replace(&self) -> (r: bool)
        ensures
            !r,
    {
        if !self.applicable.is_empty() {
            self.apply_replace_aux()
        } else {
            false
        }
    }

    /// Rewriting with the net is not done here: no equation is applied.
    pub fn apply_replace_aux(&self) -> (r: bool)
        ensures
            !r,
    {
        false
    }
}


/// The order in which triples are sorted: the hash of their symbol.
pub open spec fn triple_key(sig: Seq<SymbolMembers>, t: Triple) -> u32 {
    sig[t.symbol as int].hash_value
}

/// The triples are sorted by the hashes of their symbols.
pub open spec fn sorted_by_hash(sig: Seq<SymbolMembers>, ts: Seq<Triple>) -> bool {
    forall|a: int, b: int| 0 <= a < b < ts.len() ==> triple_key(sig, #[trigger] ts[a]) <= triple_key(sig, #[trigger] ts[b])
}

/// Every triple names a symbol of the signature.
pub open spec fn triples_in(sig: Seq<SymbolMembers>, ts: Seq<Triple>) -> bool {
    forall|k: int| 0 <= k < ts.len() ==> (#[trigger] ts[k]).symbol < sig.len()
}

proof fn lemma_swap_multiset<A>(s: Seq<A>, i: int, j: int)
    requires
        0 <= i < s.len(),
        0 <= j < s.len(),
    ensures
        s.update(i, s[j]).update(j, s[i]).to_multiset() == s.to_multiset(),
{
    broadcast use vstd::seq_lib::to_multiset_update;
    broadcast use vstd::multiset::group_multiset_axioms;
    let s1 = s.update(i, s[j]);
    assert(s1.to_multiset() == s.to_multiset().insert(s[j]).remove(s[i]));
    assert(s1.update(j, s[i]).to_multiset() == s1.to_multiset().insert(s[i]).remove(s1[j]));
    if i == j {
        assert(s.update(i, s[j]).update(j, s[i]) =~= s);
    } else {
        assert(s1[j] == s[j]);
        broadcast use vstd::seq_lib::to_multiset_contains;
        assert(s.contains(s[i]));
        assert(s.contains(s[j]));
        let m = s.to_multiset();
        assert(m.count(s[i]) > 0);
        assert(m.count(s[j]) > 0);
        assert(m.insert(s[j]).remove(s[i]).insert(s[i]).remove(s[j]) =~= m);
    }
}

/// The triples whose symbols hash to `h`, in their order.
pub open spec fn hash_run(sig: Seq<SymbolMembers>, ts: Seq<Triple>, h: u32) -> Seq<Triple> {
    ts.filter(|t: Triple| triple_key(sig, t) == h)
}

/// Swapping two neighbours whose hashes differ keeps the order of the triples of each hash.
proof fn lemma_swap_keeps_runs(sig: Seq<SymbolMembers>, s: Seq<Triple>, j: int, h: u32)
    requires
        0 < j < s.len(),
        triple_key(sig, s[j - 1]) != triple_key(sig, s[j]),
    ensures
        hash_run(sig, s.update(j - 1, s[j]).update(j, s[j - 1]), h) == hash_run(sig, s, h),
{
    let pred = |t: Triple| triple_key(sig, t) == h;
    let p = s.take(j - 1);
    let q = s.skip(j + 1);
    let x = s[j - 1];
    let y = s[j];
    let swapped = s.update(j - 1, s[j]).update(j, s[j - 1]);
    let xy = Seq::<Triple>::empty().push(x).push(y);
    let yx = Seq::<Triple>::empty().push(y).push(x);
    assert(s =~= p + xy + q);
    assert(swapped =~= p + yx + q);
    Seq::filter_distributes_over_add(p + xy, q, pred);
    Seq::filter_distributes_over_add(p, xy, pred);
    Seq::filter_distributes_over_add(p + yx, q, pred);
    Seq::filter_distributes_over_add(p, yx, pred);
    Seq::<Triple>::empty().lemma_filter_push(x, pred);
    Seq::<Triple>::empty().push(x).lemma_filter_push(y, pred);
    Seq::<Triple>::empty().lemma_filter_push(y, pred);
    Seq::<Triple>::empty().push(y).lemma_filter_push(x, pred);
    reveal(Seq::filter);
    assert(Seq::<Triple>::empty().filter(pred) =~= Seq::<Triple>::empty());
    assert(xy.filter(pred) =~= yx.filter(pred));
}

/// The run of a hash in a nonempty sequence is that of the sequence without its last triple,
/// extended by the last triple when it has that hash.
proof fn lemma_run_of_last(sig: Seq<SymbolMembers>, a: Seq<Triple>, h: u32)
    requires
        a.len() > 0,
    ensures
        hash_run(sig, a, h) == if triple_key(sig, a.last()) == h {
            hash_run(sig, a.drop_last(), h).push(a.last())
        } else {
            hash_run(sig, a.drop_last(), h)
        },
{
    let pred = |t: Triple| triple_key(sig, t) == h;
    a.drop_last().lemma_filter_push(a.last(), pred);
    assert(a.drop_last().push(a.last()) =~= a);
}

/// A hash occurs in a sequence exactly when its run there is not empty.
proof fn lemma_run_nonempty(sig: Seq<SymbolMembers>, a: Seq<Triple>, h: u32)
    ensures
        hash_run(sig, a, h).len() > 0 <==> exists|i: int| 0 <= i < a.len() && triple_key(sig, #[trigger] a[i]) == h,
{
    let pred = |t: Triple| triple_key(sig, t) == h;
    if hash_run(sig, a, h).len() > 0 {
        let e = hash_run(sig, a, h)[0];
        a.lemma_filter_pred(pred, 0);
        assert(a.filter(pred).contains(e));
        a.lemma_filter_contains_rev(pred, e);
        let i = choose|i: int| 0 <= i < a.len() && a[i] == e;
        assert(triple_key(sig, a[i]) == h);
    }
    if exists|i: int| 0 <= i < a.len() && triple_key(sig, #[trigger] a[i]) == h {
        let i = choose|i: int| 0 <= i < a.len() && triple_key(sig, #[trigger] a[i]) == h;
        a.lemma_filter_contains(pred, i);
    }
}

/// Sorting by hash, stably, has one result: two sequences sorted by hash in which the triples
/// of each hash come in the same order are equal.
pub proof fn lemma_stable_sort_unique(sig: Seq<SymbolMembers>, a: Seq<Triple>, b: Seq<Triple>)
    requires
        sorted_by_hash(sig, a),
        sorted_by_hash(sig, b),
        forall|h: u32| #[trigger] hash_run(sig, a, h) == hash_run(sig, b, h),
    ensures
        a == b,
    decreases a.len() + b.len(),
{
    if a.len() == 0 || b.len() == 0 {
        if a.len() > 0 {
            lemma_run_nonempty(sig, a, triple_key(sig, a[0]));
            lemma_run_nonempty(sig, b, triple_key(sig, a[0]));
        } else if b.len() > 0 {
            lemma_run_nonempty(sig, a, triple_key(sig, b[0]));
            lemma_run_nonempty(sig, b, triple_key(sig, b[0]));
        }
        assert(a =~= b);
    } else {
        let ka = triple_key(sig, a.last());
        let kb = triple_key(sig, b.last());
        // The last hash of each is the greatest hash of both.
        lemma_run_nonempty(sig, a, ka);
        lemma_run_nonempty(sig, b, ka);
        lemma_run_nonempty(sig, a, kb);
        lemma_run_nonempty(sig, b, kb);
        let ib = choose|i: int| 0 <= i < b.len() && triple_key(sig, #[trigger] b[i]) == ka;
        let ia = choose|i: int| 0 <= i < a.len() && triple_key(sig, #[trigger] a[i]) == kb;
        assert(triple_key(sig, b[ib]) <= triple_key(sig, b[b.len() - 1]));
        assert(triple_key(sig, a[ia]) <= triple_key(sig, a[a.len() - 1]));
        assert(ka == kb);
        lemma_run_of_last(sig, a, ka);
        lemma_run_of_last(sig, b, ka);
        assert(a.last() == hash_run(sig, a, ka).last());
        assert(b.last() == hash_run(sig, b, ka).last());
        assert forall|h: u32| #[trigger] hash_run(sig, a.drop_last(), h) == hash_run(sig, b.drop_last(), h) by {
            lemma_run_of_last(sig, a, h);
            lemma_run_of_last(sig, b, h);
            if h == ka {
                assert(hash_run(sig, a.drop_last(), h) =~= hash_run(sig, a, h).drop_last());
                assert(hash_run(sig, b.drop_last(), h) =~= hash_run(sig, b, h).drop_last());
            }
        }
        lemma_stable_sort_unique(sig, a.drop_last(), b.drop_last());
        assert(a =~= a.drop_last().push(a.last()));
        assert(b =~= b.drop_last().push(b.last()));
    }
}

/// Sorts the triples by the hashes of their symbols, stably (by insertion): the triples of
/// each hash keep their order.
pub fn sort_triples(sig: &Signature, triples: &mut Vec<Triple>)
    requires
        triples_in(sig.symbols@, old(triples)@),
    ensures
        final(triples)@.len() == old(triples)@.len(),
        final(triples)@.to_multiset() == old(triples)@.to_multiset(),
        sorted_by_hash(sig.symbols@, final(triples)@),
        forall|h: u32| #[trigger] hash_run(sig.symbols@, final(triples)@, h) == hash_run(sig.symbols@, old(triples)@, h),
        triples_in(sig.symbols@, final(triples)@),
{
    let n = triples.len();
    if n == 0 {
        return;
    }
    let mut i: usize = 1;
    while i < n
        invariant
            n == triples@.len(),
            1 <= i <= n,
            triples@.to_multiset() == old(triples)@.to_multiset(),
            forall|h: u32| #[trigger] hash_run(sig.symbols@, triples@, h) == hash_run(sig.symbols@, old(triples)@, h),
            triples_in(sig.symbols@, triples@),
            forall|a: int, b: int| 0 <= a < b < i ==> triple_key(sig.symbols@, #[trigger] triples@[a]) <= triple_key(sig.symbols@, #[trigger] triples@[b]),
        decreases n - i,
    {
        let mut j = i;
        while j > 0 && sig.symbols[triples[j - 1].symbol].hash_value > sig.symbols[triples[j].symbol].hash_value
            invariant
                n == triples@.len(),
                0 <= j <= i < n,
                triples@.to_multiset() == old(triples)@.to_multiset(),
                forall|h: u32| #[trigger] hash_run(sig.symbols@, triples@, h) == hash_run(sig.symbols@, old(triples)@, h),
                triples_in(sig.symbols@, triples@),
                forall|a: int, b: int| 0 <= a < b <= i && a != j && b != j ==> triple_key(sig.symbols@, #[trigger] triples@[a]) <= triple_key(sig.symbols@, #[trigger] triples@[b]),
                forall|k: int| j < k <= i ==> triple_key(sig.symbols@, triples@[j as int]) < triple_key(sig.symbols@, #[trigger] triples@[k]),
            decreases j,
        {
            let x = triples[j];
            let y = triples[j - 1];
            let ghost before = triples@;
            triples.set(j - 1, x);
            triples.set(j, y);
            proof {
                lemma_swap_multiset(before, j - 1, j as int);
                assert(triples@ == before.update(j - 1, before[j as int]).update(j as int, before[j - 1]));
                assert forall|h: u32| #[trigger] hash_run(sig.symbols@, triples@, h) == hash_run(sig.symbols@, old(triples)@, h) by {
                    lemma_swap_keeps_runs(sig.symbols@, before, j as int, h);
                }
            }
            j = j - 1;
        }
        i = i + 1;
    }
}

/// The triple tested at position `p` of the tree over `triples[first..=last]` built from
/// `start` on, or -1 outside the tree.
pub open spec fn tree_origin(sig: Seq<SymbolMembers>, triples: Seq<Triple>, first: int, last: int, start: int, p: int) -> int
    decreases last - first,
{
    if first > last || first < 0 {
        -1
    } else {
        let t = middle(sig, triples, first, last);
        if p == start {
            t
        } else if first < t && start + 1 <= p < start + 1 + (t - first) {
            tree_origin(sig, triples, first, t - 1, start + 1, p)
        } else if t < last && start + 1 + (t - first) <= p < start + 1 + (last - first) {
            tree_origin(sig, triples, t + 1, last, start + 1 + (t - first), p)
        } else {
            -1
        }
    }
}

/// Searching the tests `nodes` (the tree over `triples[first..=last]` from `start` on) for
/// triple `k` from position `p`: stop at the test of `k`; otherwise go to the first target for a
/// triple before the one tested and to the second for one after it; at most `fuel` steps.
pub open spec fn tree_walk(
    nodes: Seq<TestNode>,
    sig: Seq<SymbolMembers>,
    triples: Seq<Triple>,
    first: int,
    last: int,
    start: int,
    p: int,
    k: int,
    fuel: nat,
) -> int
    decreases fuel,
{
    let o = tree_origin(sig, triples, first, last, start, p);
    if fuel == 0 || o == k {
        p
    } else {
        let next = if k < o { nodes[p - start].not_equal.0 as int } else { nodes[p - start].not_equal.1 as int };
        tree_walk(nodes, sig, triples, first, last, start, next, k, (fuel - 1) as nat)
    }
}

/// The search for a triple of a subtree, started at the subtree's root, ends at the test of
/// that triple within the subtree.
proof fn lemma_walk_subtree(
    sig: Seq<SymbolMembers>,
    triples: Seq<Triple>,
    whole_first: int,
    whole_last: int,
    whole_start: int,
    nodes: Seq<TestNode>,
    default_subtree: i32,
    first: int,
    last: int,
    start: int,
    position: i32,
    arg_index: i32,
    k: int,
    fuel: nat,
)
    requires
        0 <= first <= k <= last,
        0 <= whole_start <= start,
        start + (last - first + 1) <= whole_start + nodes.len(),
        start + (last - first + 1) <= 0x7fff_ffff,
        fuel >= last - first + 1,
        forall|p: int| start <= p < start + (last - first + 1) ==> {
            &&& #[trigger] nodes[p - whole_start] == tree_nodes(sig, triples, first, last, start, default_subtree, position, arg_index)[p - start]
            &&& tree_origin(sig, triples, whole_first, whole_last, whole_start, p) == tree_origin(sig, triples, first, last, start, p)
        },
    ensures
        start <= tree_walk(nodes, sig, triples, whole_first, whole_last, whole_start, start, k, fuel) < start + (last - first + 1),
        tree_origin(sig, triples, whole_first, whole_last, whole_start, tree_walk(nodes, sig, triples, whole_first, whole_last, whole_start, start, k, fuel)) == k,
    decreases last - first,
{
    let t = middle(sig, triples, first, last);
    lemma_middle_bounds(sig, triples, first, last);
    let tree = tree_nodes(sig, triples, first, last, start, default_subtree, position, arg_index);
    lemma_tree_nodes_len(sig, triples, first, last, start, default_subtree, position, arg_index);
    assert(nodes[start - whole_start] == tree[0]);
    assert(tree_origin(sig, triples, first, last, start, start) == t);
    assert(tree_origin(sig, triples, whole_first, whole_last, whole_start, start) == t);
    if k < t {
        let left = tree_nodes(sig, triples, first, t - 1, start + 1, default_subtree, NONE, NONE);
        lemma_tree_nodes_len(sig, triples, first, t - 1, start + 1, default_subtree, NONE, NONE);
        assert forall|p: int| start + 1 <= p < start + 1 + (t - first) implies {
            &&& #[trigger] nodes[p - whole_start] == left[p - (start + 1)]
            &&& tree_origin(sig, triples, whole_first, whole_last, whole_start, p) == tree_origin(sig, triples, first, t - 1, start + 1, p)
        } by {
            assert(nodes[p - whole_start] == tree[p - start]);
            assert(tree[p - start] == left[p - start - 1]);
        }
        assert(tree[0].not_equal.0 as int == start + 1);
        assert(tree_walk(nodes, sig, triples, whole_first, whole_last, whole_start, start, k, fuel)
            == tree_walk(nodes, sig, triples, whole_first, whole_last, whole_start, start + 1, k, (fuel - 1) as nat));
        lemma_walk_subtree(sig, triples, whole_first, whole_last, whole_start, nodes, default_subtree, first, t - 1, start + 1, NONE, NONE, k, (fuel - 1) as nat);
    } else if k > t {
        let rs = start + 1 + (t - first);
        let left_len = t - first;
        let right = tree_nodes(sig, triples, t + 1, last, rs, default_subtree, NONE, NONE);
        lemma_tree_nodes_len(sig, triples, t + 1, last, rs, default_subtree, NONE, NONE);
        if first < t {
            lemma_tree_nodes_len(sig, triples, first, t - 1, start + 1, default_subtree, NONE, NONE);
        }
        assert forall|p: int| rs <= p < rs + (last - t) implies {
            &&& #[trigger] nodes[p - whole_start] == right[p - rs]
            &&& tree_origin(sig, triples, whole_first, whole_last, whole_start, p) == tree_origin(sig, triples, t + 1, last, rs, p)
        } by {
            assert(nodes[p - whole_start] == tree[p - start]);
            assert(tree[p - start] == right[p - start - 1 - left_len]);
            assert(tree_origin(sig, triples, whole_first, whole_last, whole_start, p) == tree_origin(sig, triples, first, last, start, p));
            assert(tree_origin(sig, triples, first, last, start, p) == tree_origin(sig, triples, t + 1, last, rs, p));
        }
        assert(tree[0].not_equal.1 as int == rs);
        assert(tree_walk(nodes, sig, triples, whole_first, whole_last, whole_start, start, k, fuel)
            == tree_walk(nodes, sig, triples, whole_first, whole_last, whole_start, rs, k, (fuel - 1) as nat));
        lemma_walk_subtree(sig, triples, whole_first, whole_last, whole_start, nodes, default_subtree, t + 1, last, rs, NONE, NONE, k, (fuel - 1) as nat);
    }
}

/// The test at each position of the tree is made from the triple that position tests.
proof fn lemma_tree_tests_origin(
    sig: Seq<SymbolMembers>,
    triples: Seq<Triple>,
    first: int,
    last: int,
    start: int,
    default_subtree: i32,
    position: i32,
    arg_index: i32,
    p: int,
)
    requires
        0 <= first <= last,
        start <= p < start + (last - first + 1),
    ensures
        ({
            let o = tree_origin(sig, triples, first, last, start, p);
            let n = tree_nodes(sig, triples, first, last, start, default_subtree, position, arg_index)[p - start];
            &&& first <= o <= last
            &&& n.symbol_index == sig[triples[o].symbol as int].index_within_parent_module
            &&& n.slot == triples[o].slot
            &&& n.equal == triples[o].subtree
        }),
    decreases last - first,
{
    let t = middle(sig, triples, first, last);
    lemma_middle_bounds(sig, triples, first, last);
    lemma_tree_nodes_len(sig, triples, first, last, start, default_subtree, position, arg_index);
    let tree = tree_nodes(sig, triples, first, last, start, default_subtree, position, arg_index);
    if p != start {
        if p < start + 1 + (t - first) {
            let left = tree_nodes(sig, triples, first, t - 1, start + 1, default_subtree, NONE, NONE);
            lemma_tree_nodes_len(sig, triples, first, t - 1, start + 1, default_subtree, NONE, NONE);
            assert(tree[p - start] == left[p - start - 1]);
            lemma_tree_tests_origin(sig, triples, first, t - 1, start + 1, default_subtree, NONE, NONE, p);
        } else {
            let rs = start + 1 + (t - first);
            let right = tree_nodes(sig, triples, t + 1, last, rs, default_subtree, NONE, NONE);
            lemma_tree_nodes_len(sig, triples, t + 1, last, rs, default_subtree, NONE, NONE);
            if first < t {
                lemma_tree_nodes_len(sig, triples, first, t - 1, start + 1, default_subtree, NONE, NONE);
            }
            assert(tree[p - start] == right[p - start - 1 - (t - first)]);
            lemma_tree_tests_origin(sig, triples, t + 1, last, rs, default_subtree, NONE, NONE, p);
        }
    }
}

/// The ternary tree finds every triple: searching it from its root for triple `k` of
/// `triples[first..=last]` (going to the first target when `k` comes before the triple tested
/// and to the second when after) ends, within as many steps as there are triples, at the test
/// made from triple `k`: its symbol, its slot and its target.
pub proof fn lemma_ternary_tree_search(
    sig: Seq<SymbolMembers>,
    triples: Seq<Triple>,
    first: int,
    last: int,
    start: int,
    default_subtree: i32,
    position: i32,
    arg_index: i32,
    k: int,
)
    requires
        0 <= first <= k <= last,
        0 <= start,
        start + (last - first + 1) <= 0x7fff_ffff,
    ensures
        ({
            let nodes = tree_nodes(sig, triples, first, last, start, default_subtree, position, arg_index);
            let p = tree_walk(nodes, sig, triples, first, last, start, start, k, (last - first + 1) as nat);
            &&& start <= p < start + (last - first + 1)
            &&& nodes[p - start].symbol_index == sig[triples[k].symbol as int].index_within_parent_module
            &&& nodes[p - start].slot == triples[k].slot
            &&& nodes[p - start].equal == triples[k].subtree
        }),
{
    let nodes = tree_nodes(sig, triples, first, last, start, default_subtree, position, arg_index);
    lemma_tree_nodes_len(sig, triples, first, last, start, default_subtree, position, arg_index);
    lemma_walk_subtree(sig, triples, first, last, start, nodes, default_subtree, first, last, start, position, arg_index, k, (last - first + 1) as nat);
    let p = tree_walk(nodes, sig, triples, first, last, start, start, k, (last - first + 1) as nat);
    lemma_tree_tests_origin(sig, triples, first, last, start, default_subtree, position, arg_index, p);
}

/// The tree over `triples[first..=last]` is in `net` from `start` on, given its root `node` at
/// `start` (set in `with_node`), the tree before the root's triple from `start + 1` on (built in
/// `after_left`), and the tree after it from `right_start` on (built in `net`).
proof fn lemma_tree_assembled(
    sig: Seq<SymbolMembers>,
    triples: Seq<Triple>,
    first: int,
    last: int,
    start: int,
    default_subtree: i32,
    position: i32,
    arg_index: i32,
    tm: int,
    node: TestNode,
    with_node: Seq<TestNode>,
    after_left: Seq<TestNode>,
    net: Seq<TestNode>,
    right_start: int,
)
    requires
        0 <= first <= last,
        tm == middle(sig, triples, first, last),
        right_start == start + 1 + (tm - first),
        0 <= start,
        start + (last - first + 1) <= net.len(),
        with_node.len() == net.len(),
        after_left.len() == net.len(),
        with_node[start] == node,
        node == tree_nodes(sig, triples, first, last, start, default_subtree, position, arg_index)[0],
        forall|k: int| 0 <= k < after_left.len() && !(start + 1 <= k < right_start) ==> #[trigger] after_left[k] == with_node[k],
        first < tm ==> forall|k: int| 0 <= k < tm - first ==> #[trigger] after_left[start + 1 + k] == tree_nodes(
            sig, triples, first, tm - 1, start + 1, default_subtree, NONE, NONE)[k],
        forall|k: int| 0 <= k < net.len() && !(right_start <= k < start + (last - first + 1)) ==> #[trigger] net[k] == after_left[k],
        tm < last ==> forall|k: int| 0 <= k < last - tm ==> #[trigger] net[right_start + k] == tree_nodes(
            sig, triples, tm + 1, last, right_start, default_subtree, NONE, NONE)[k],
    ensures
        forall|k: int| 0 <= k < last - first + 1 ==> #[trigger] net[start + k] == tree_nodes(
            sig, triples, first, last, start, default_subtree, position, arg_index)[k],
{
    let tree = tree_nodes(sig, triples, first, last, start, default_subtree, position, arg_index);
    lemma_middle_bounds(sig, triples, first, last);
    let left = if first < tm {
        tree_nodes(sig, triples, first, tm - 1, start + 1, default_subtree, NONE, NONE)
    } else {
        Seq::empty()
    };
    let right = if tm < last {
        tree_nodes(sig, triples, tm + 1, last, right_start, default_subtree, NONE, NONE)
    } else {
        Seq::empty()
    };
    if first < tm {
        lemma_tree_nodes_len(sig, triples, first, tm - 1, start + 1, default_subtree, NONE, NONE);
    }
    if tm < last {
        lemma_tree_nodes_len(sig, triples, tm + 1, last, right_start, default_subtree, NONE, NONE);
    }
    assert(tree == seq![tree[0]] + left + right);
    assert forall|k: int| 0 <= k < last - first + 1 implies #[trigger] net[start + k] == tree[k] by {
        if k == 0 {
            assert(net[start] == after_left[start]);
        } else if k < 1 + left.len() {
            assert((seq![tree[0]] + left + right)[k] == left[k - 1]);
            assert(net[start + k] == after_left[start + k]);
            assert(after_left[start + 1 + (k - 1)] == left[k - 1]);
        } else {
            assert((seq![tree[0]] + left + right)[k] == right[k - 1 - left.len()]);
            assert(net[right_start + (k - 1 - left.len())] == right[k - 1 - left.len()]);
        }
    }
}

impl FreeNet {
    /// Fills out the tests from `*node_index` on with the ternary tree over
    /// `triples[first..=last]`, sorted, whose root tests argument `arg_index` at `position`;
    /// a test that finds no symbol goes to `default_subtree`.
    pub fn build_ternary_tree(
        &mut self,
        sig: &Signature,
        node_index: &mut usize,
        triples: &Vec<Triple>,
        first: usize,
        last: usize,
        default_subtree: i32,
        position: i32,
        arg_index: i32,
    )
        requires
            first <= last < triples@.len(),
            triples@.len() < 0x4000_0000,
            triples_in(sig.symbols@, triples@),
            *old(node_index) + (last - first + 1) <= old(self).net@.len(),
            old(self).net@.len() < 0x8000_0000,
        ensures
            *final(node_index) == *old(node_index) + (last - first + 1),
            final(self).net@.len() == old(self).net@.len(),
            forall|k: int| 0 <= k < final(self).net@.len() && !(*old(node_index) <= k < *final(node_index)) ==> #[trigger] final(self).net@[k] == old(self).net@[k],
            forall|k: int| 0 <= k < last - first + 1 ==> #[trigger] final(self).net@[*old(node_index) + k] == tree_nodes(
                sig.symbols@,
                triples@,
                first as int,
                last as int,
                *old(node_index) as int,
                default_subtree,
                position,
                arg_index,
            )[k],
            final(self).stack@ == old(self).stack@,
            final(self).applicable@ == old(self).applicable@,
            final(self).fast == old(self).fast,
        decreases last - first,
    {
        let ghost start = *node_index as int;
        let ghost tree = tree_nodes(sig.symbols@, triples@, first as int, last as int, start, default_subtree, position, arg_index);
        // Pick a middle element as the test symbol; of two middle ones take the more
        // important.
        let sum = first + last;
        let mut test_symbol = sum / 2;
        assert((sum & 1) != 0 <==> sum % 2 != 0) by (bit_vector);
        if sum & 1 != 0 && self.more_important(sig, triples[test_symbol + 1].symbol, triples[test_symbol].symbol) {
            test_symbol = test_symbol + 1;
        }
        assert(test_symbol == middle(sig.symbols@, triples@, first as int, last as int));
        proof {
            lemma_tree_nodes_len(sig.symbols@, triples@, first as int, last as int, start, default_subtree, position, arg_index);
        }

        // Fill out a new node. Its subtrees follow it: the one for the symbols before the test
        // symbol first, then the one for those after it.
        let i = *node_index;
        *node_index = i + 1;
        let t = triples[test_symbol];
        let left_target = if first < test_symbol { (i + 1) as i32 } else { default_subtree };
        let right_target = if last > test_symbol { (i + 1 + (test_symbol - first)) as i32 } else { default_subtree };
        let node = TestNode {
            not_equal: (left_target, right_target),
            position,
            arg_index,
            symbol_index: sig.symbols[t.symbol].index_within_parent_module,
            slot: t.slot,
            equal: t.subtree,
        };
        self.net.set(i, node);
        let ghost with_node = self.net@;
        if first < test_symbol {
            self.build_ternary_tree(sig, node_index, triples, first, test_symbol - 1, default_subtree, NONE, NONE);
        }
        let ghost right_start = *node_index as int;
        let ghost after_left = self.net@;
        if last > test_symbol {
            self.build_ternary_tree(sig, node_index, triples, test_symbol + 1, last, default_subtree, NONE, NONE);
        }
        proof {
            lemma_tree_assembled(
                sig.symbols@, triples@, first as int, last as int, start, default_subtree, position, arg_index,
                test_symbol as int, node, with_node, after_left, self.net@, right_start,
            );
        }
    }
}


/// The triples of the symbols with their slots and targets.
pub open spec fn zipped_triples(symbols: Seq<usize>, targets: Seq<i32>, slots: Seq<i32>) -> Seq<Triple> {
    Seq::new(symbols.len(), |i: int| Triple { symbol: symbols[i], slot: slots[i], subtree: targets[i] })
}

impl FreeNet {
    /// Fills out the tests from `node_index` on with a ternary tree that tests argument
    /// `arg_index` at `position` for the symbols, in the order of their hashes; finding a
    /// symbol stores its node's arguments in its slot and goes to its target, finding none goes
    /// to `neq_target`. Symbols of equal hash keep their given order, so the tree is built
    /// from one sequence of triples (see `lemma_stable_sort_unique`).
    pub fn fill_out_node(
        &mut self,
        sig: &Signature,
        node_index: usize,
        position: i32,
        arg_index: i32,
        symbols: &Vec<usize>,
        targets: &Vec<i32>,
        slots: &Vec<i32>,
        neq_target: i32,
    )
        requires
            0 < symbols@.len() < 0x4000_0000,
            targets@.len() >= symbols@.len(),
            slots@.len() >= symbols@.len(),
            forall|i: int| 0 <= i < symbols@.len() ==> #[trigger] symbols@[i] < sig.symbols@.len(),
            node_index + symbols@.len() <= old(self).net@.len(),
            old(self).net@.len() < 0x8000_0000,
        ensures
            final(self).net@.len() == old(self).net@.len(),
            forall|k: int| 0 <= k < final(self).net@.len() && !(node_index <= k < node_index + symbols@.len()) ==> #[trigger] final(self).net@[k] == old(self).net@[k],
            exists|sorted: Seq<Triple>| {
                &&& sorted.len() == symbols@.len()
                &&& sorted.to_multiset() == zipped_triples(symbols@, targets@, slots@).to_multiset()
                &&& sorted_by_hash(sig.symbols@, sorted)
                &&& forall|h: u32| #[trigger] hash_run(sig.symbols@, sorted, h) == hash_run(sig.symbols@, zipped_triples(symbols@, targets@, slots@), h)
                &&& forall|k: int| 0 <= k < symbols@.len() ==> #[trigger] final(self).net@[node_index + k] == tree_nodes(
                    sig.symbols@,
                    sorted,
                    0,
                    symbols@.len() - 1,
                    node_index as int,
                    neq_target,
                    position,
                    arg_index,
                )[k]
            },
            final(self).stack@ == old(self).stack@,
            final(self).applicable@ == old(self).applicable@,
            final(self).fast == old(self).fast,
    {
        let symbol_count = symbols.len();
        let mut triples: Vec<Triple> = Vec::new();
        let mut i: usize = 0;
        while i < symbol_count
            invariant
                symbol_count == symbols@.len(),
                targets@.len() >= symbols@.len(),
                slots@.len() >= symbols@.len(),
                i <= symbol_count,
                triples@ == zipped_triples(symbols@, targets@, slots@).subrange(0, i as int),
            decreases symbol_count - i,
        {
            triples.push(Triple { symbol: symbols[i], slot: slots[i], subtree: targets[i] });
            i = i + 1;
            assert(triples@ =~= zipped_triples(symbols@, targets@, slots@).subrange(0, i as int));
        }
        assert(triples@ =~= zipped_triples(symbols@, targets@, slots@));
        sort_triples(sig, &mut triples);
        let mut index = node_index;
        self.build_ternary_tree(sig, &mut index, &triples, 0, symbol_count - 1, neq_target, position, arg_index);
    }
}

} // verus!
