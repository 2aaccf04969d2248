//! The total order on DAG nodes.
use vstd::prelude::*;
use std::cmp::Ordering;
use crate::dag_node::{
    DagHeap, DagNode, Signature, heap_wf, node_wf, in_heap, hash_at, arity_at, args_len_at,
    arg_at, node_at, as_int, node_args, shallow_copy_node, lemma_push_wf,
};
use crate::symbol::SymbolMembers;

verus! {

pub open spec fn cmp_u32(x: u32, y: u32) -> Ordering {
    if x < y {
        Ordering::Less
    } else if x > y {
        Ordering::Greater
    } else {
        Ordering::Equal
    }
}

/// The opposite of an ordering.
pub open spec fn reverse(o: Ordering) -> Ordering {
    match o {
        Ordering::Less => Ordering::Greater,
        Ordering::Equal => Ordering::Equal,
        Ordering::Greater => Ordering::Less,
    }
}

/// The argument position compared at step `k` for `n` arguments: the arguments before the
/// last one from right to left, then the last one.
pub open spec fn compare_position(k: int, n: int) -> int {
    if k < n - 1 {
        n - 2 - k
    } else {
        n - 1
    }
}

/// The order on DAG nodes: by the hashes of the top symbols, then by the arguments.
pub open spec fn compare_dags(sig: Seq<SymbolMembers>, heap: Seq<DagNode>, a: usize, b: usize) -> Ordering
    decreases a + b, 2int, 0int,
{
    if !(in_heap(sig, heap, a) && in_heap(sig, heap, b)) {
        Ordering::Equal
    } else {
        let r = cmp_u32(hash_at(sig, heap, a), hash_at(sig, heap, b));
        if r != Ordering::Equal {
            r
        } else {
            compare_arguments(sig, heap, a, b)
        }
    }
}

/// The order on two nodes whose top symbols have the same hash.
pub open spec fn compare_arguments(sig: Seq<SymbolMembers>, heap: Seq<DagNode>, a: usize, b: usize) -> Ordering
    decreases a + b, 1int, 0int,
{
    if !(in_heap(sig, heap, a) && b < heap.len()) {
        Ordering::Equal
    } else {
        match (node_at(heap, a), node_at(heap, b)) {
            (DagNode::Variable(va), DagNode::Variable(vb)) => cmp_u32(va.name.id, vb.name.id),
            (DagNode::Variable(_), DagNode::Free(_)) => Ordering::Less,
            (DagNode::Free(_), DagNode::Variable(_)) => Ordering::Equal,
            (DagNode::Free(_), DagNode::Free(_)) => compare_args_from(sig, heap, a, b, 0, arity_at(sig, heap, a)),
        }
    }
}

/// Compares the arguments of `a` and `b` from step `k` of `n` on.
pub open spec fn compare_args_from(
    sig: Seq<SymbolMembers>,
    heap: Seq<DagNode>,
    a: usize,
    b: usize,
    k: int,
    n: int,
) -> Ordering
    decreases a + b, 0int, n - k,
{
    if k >= n || !(a < heap.len() && b < heap.len()) {
        Ordering::Equal
    } else {
        let p = compare_position(k, n);
        if !(0 <= p < args_len_at(heap, a) && p < args_len_at(heap, b)) {
            Ordering::Equal
        } else {
            let x = arg_at(heap, a, p);
            let y = arg_at(heap, b, p);
            if !(x < a && y < b) {
                Ordering::Equal
            } else {
                let r = compare_dags(sig, heap, x, y);
                if r != Ordering::Equal {
                    r
                } else {
                    compare_args_from(sig, heap, a, b, k + 1, n)
                }
            }
        }
    }
}

fn compare_u32(x: u32, y: u32) -> (r: Ordering)
    ensures
        r == cmp_u32(x, y),
{
    if x < y {
        Ordering::Less
    } else if x > y {
        Ordering::Greater
    } else {
        Ordering::Equal
    }
}

/// The two nodes are equal in the order.
pub open spec fn dags_equal(sig: Seq<SymbolMembers>, heap: Seq<DagNode>, a: usize, b: usize) -> bool {
    compare_dags(sig, heap, a, b) == Ordering::Equal
}

/// Where `original` binds a variable, `current` binds it to an equal node.
pub open spec fn consistent_binding(sig: Seq<SymbolMembers>, heap: Seq<DagNode>, current: Option<usize>, original: Option<usize>) -> bool {
    match original {
        None => true,
        Some(b) => match current {
            Some(a) => dags_equal(sig, heap, a, b),
            None => false,
        },
    }
}

impl DagHeap {
    /// Whether two nodes are equal in the order.
    pub fn equal(&self, sig: &Signature, a: usize, b: usize) -> (r: bool)
        requires
            heap_wf(sig.symbols@, self.nodes@),
            a < self.nodes@.len(),
            b < self.nodes@.len(),
        ensures
            r == dags_equal(sig.symbols@, self.nodes@, a, b),
    {
        match self.compare(sig, a, b) {
            Ordering::Equal => true,
            _ => false,
        }
    }

    /// Compares two nodes: by the hashes of their top symbols, then by their arguments.
    pub fn compare(&self, sig: &Signature, a: usize, b: usize) -> (r: Ordering)
        requires
            heap_wf(sig.symbols@, self.nodes@),
            a < self.nodes@.len(),
            b < self.nodes@.len(),
        ensures
            r == compare_dags(sig.symbols@, self.nodes@, a, b),
        decreases a + b, 2int, 0int,
    {
        assert(node_wf(sig.symbols@, self.nodes@[as_int(a)], as_int(a)));
        assert(node_wf(sig.symbols@, self.nodes@[as_int(b)], as_int(b)));
        let r = compare_u32(self.symbol_hash_of(sig, a), self.symbol_hash_of(sig, b));
        match r {
            Ordering::Equal => self.compare_arguments(sig, a, b),
            _ => r,
        }
    }

    /// Compares two nodes whose top symbols have the same hash: variables by name, free nodes
    /// argument by argument.
    pub fn compare_arguments(&self, sig: &Signature, a: usize, b: usize) -> (r: Ordering)
        requires
            heap_wf(sig.symbols@, self.nodes@),
            a < self.nodes@.len(),
            b < self.nodes@.len(),
        ensures
            r == compare_arguments(sig.symbols@, self.nodes@, a, b),
        decreases a + b, 1int, 0int,
    {
        assert(node_wf(sig.symbols@, self.nodes@[as_int(a)], as_int(a)));
        match (&self.nodes[a], &self.nodes[b]) {
            (DagNode::Variable(va), DagNode::Variable(vb)) => compare_u32(va.name.id, vb.name.id),
            (DagNode::Variable(_), DagNode::Free(_)) => Ordering::Less,
            (DagNode::Free(_), DagNode::Variable(_)) => Ordering::Equal,
            (DagNode::Free(_), DagNode::Free(_)) => {
                let n = self.arity_of(sig, a);
                self.compare_args_from(sig, a, b, 0, n)
            },
        }
    }

    fn compare_args_from(&self, sig: &Signature, a: usize, b: usize, k: usize, n: usize) -> (r: Ordering)
        requires
            heap_wf(sig.symbols@, self.nodes@),
            a < self.nodes@.len(),
            b < self.nodes@.len(),
            k <= n,
        ensures
            r == compare_args_from(sig.symbols@, self.nodes@, a, b, as_int(k), as_int(n)),
        decreases a + b, 0int, n - k,
    {
        if k >= n {
            return Ordering::Equal;
        }
        let p = if k < n - 1 {
            n - 2 - k
        } else {
            n - 1
        };
        if !(p < self.len(a) && p < self.len(b)) {
            return Ordering::Equal;
        }
        let x = self.arg(a, p);
        let y = self.arg(b, p);
        if !(x < a && y < b) {
            return Ordering::Equal;
        }
        let r = self.compare(sig, x, y);
        match r {
            Ordering::Equal => self.compare_args_from(sig, a, b, k + 1, n),
            _ => r,
        }
    }
}

/// Every node is equal to itself.
pub proof fn lemma_compare_reflexive(sig: Seq<SymbolMembers>, heap: Seq<DagNode>, a: usize)
    requires
        heap_wf(sig, heap),
        a < heap.len(),
    ensures
        compare_dags(sig, heap, a, a) == Ordering::Equal,
    decreases a, 1int,
{
    assert(node_wf(sig, heap[as_int(a)], as_int(a)));
    match node_at(heap, a) {
        DagNode::Free(_) => lemma_args_reflexive(sig, heap, a, 0, arity_at(sig, heap, a)),
        DagNode::Variable(_) => {},
    }
}

proof fn lemma_args_reflexive(sig: Seq<SymbolMembers>, heap: Seq<DagNode>, a: usize, k: int, n: int)
    requires
        heap_wf(sig, heap),
        a < heap.len(),
        node_at(heap, a) is Free,
        n == arity_at(sig, heap, a),
        0 <= k,
    ensures
        compare_args_from(sig, heap, a, a, k, n) == Ordering::Equal,
    decreases a, 0int, n - k,
{
    assert(node_wf(sig, heap[as_int(a)], as_int(a)));
    if k < n {
        let p = compare_position(k, n);
        let x = arg_at(heap, a, p);
        assert(x < a);
        lemma_compare_reflexive(sig, heap, x);
        lemma_args_reflexive(sig, heap, a, k + 1, n);
    }
}

/// Swapping the two nodes reverses the order.
pub proof fn lemma_compare_antisymmetric(sig: Seq<SymbolMembers>, heap: Seq<DagNode>, a: usize, b: usize)
    requires
        heap_wf(sig, heap),
        a < heap.len(),
        b < heap.len(),
    ensures
        compare_dags(sig, heap, a, b) == reverse(compare_dags(sig, heap, b, a)),
    decreases a + b, 1int,
{
    assert(node_wf(sig, heap[as_int(a)], as_int(a)));
    assert(node_wf(sig, heap[as_int(b)], as_int(b)));
    if hash_at(sig, heap, a) == hash_at(sig, heap, b) {
        let sa = heap[as_int(a)];
        let sb = heap[as_int(b)];
        assert(crate::dag_node::node_symbol(sa) == crate::dag_node::node_symbol(sb));
        match (node_at(heap, a), node_at(heap, b)) {
            (DagNode::Free(_), DagNode::Free(_)) => {
                lemma_args_antisymmetric(sig, heap, a, b, 0, arity_at(sig, heap, a));
            },
            _ => {},
        }
    }
}

proof fn lemma_args_antisymmetric(sig: Seq<SymbolMembers>, heap: Seq<DagNode>, a: usize, b: usize, k: int, n: int)
    requires
        heap_wf(sig, heap),
        a < heap.len(),
        b < heap.len(),
        node_at(heap, a) is Free,
        node_at(heap, b) is Free,
        n == arity_at(sig, heap, a),
        n == arity_at(sig, heap, b),
        0 <= k,
    ensures
        compare_args_from(sig, heap, a, b, k, n) == reverse(compare_args_from(sig, heap, b, a, k, n)),
    decreases a + b, 0int, n - k,
{
    assert(node_wf(sig, heap[as_int(a)], as_int(a)));
    assert(node_wf(sig, heap[as_int(b)], as_int(b)));
    if k < n {
        let p = compare_position(k, n);
        let x = arg_at(heap, a, p);
        let y = arg_at(heap, b, p);
        assert(x < a && y < b);
        lemma_compare_antisymmetric(sig, heap, x, y);
        lemma_args_antisymmetric(sig, heap, a, b, k + 1, n);
    }
}

/// Argument `p` of `a` and argument `p` of `b` are equal in the order.
pub open spec fn args_equal_at(sig: Seq<SymbolMembers>, heap: Seq<DagNode>, a: usize, b: usize, p: int) -> bool {
    compare_dags(sig, heap, arg_at(heap, a, p), arg_at(heap, b, p)) == Ordering::Equal
}

proof fn lemma_args_equal_from(sig: Seq<SymbolMembers>, heap: Seq<DagNode>, a: usize, b: usize, k: int, n: int)
    requires
        heap_wf(sig, heap),
        a < heap.len(),
        b < heap.len(),
        node_at(heap, a) is Free,
        node_at(heap, b) is Free,
        n == arity_at(sig, heap, a),
        n == arity_at(sig, heap, b),
        0 <= k,
    ensures
        compare_args_from(sig, heap, a, b, k, n) == Ordering::Equal <==> forall|j: int|
            k <= j < n ==> #[trigger] args_equal_at(sig, heap, a, b, compare_position(j, n)),
    decreases n - k,
{
    assert(node_wf(sig, heap[as_int(a)], as_int(a)));
    assert(node_wf(sig, heap[as_int(b)], as_int(b)));
    if k < n {
        let p = compare_position(k, n);
        assert(0 <= p < n);
        assert(args_len_at(heap, a) == n);
        assert(args_len_at(heap, b) == n);
        assert(node_args(heap[as_int(a)])[p] < a);
        assert(node_args(heap[as_int(b)])[p] < b);
        assert(arg_at(heap, a, p) < a);
        assert(arg_at(heap, b, p) < b);
        lemma_args_equal_from(sig, heap, a, b, k + 1, n);
        if compare_args_from(sig, heap, a, b, k, n) == Ordering::Equal {
            assert(args_equal_at(sig, heap, a, b, p));
            assert forall|j: int| k <= j < n implies #[trigger] args_equal_at(sig, heap, a, b, compare_position(j, n)) by {
                if j > k {
                }
            }
        } else {
            if args_equal_at(sig, heap, a, b, p) {
                let j = choose|j: int| k + 1 <= j < n && !#[trigger] args_equal_at(sig, heap, a, b, compare_position(j, n));
                assert(k <= j < n);
            } else {
                assert(!args_equal_at(sig, heap, a, b, compare_position(k, n)));
            }
        }
    }
}

/// Two free nodes with the same top symbol are equal in the order exactly when their
/// arguments are equal position by position.
pub proof fn lemma_compare_arguments_equal(sig: Seq<SymbolMembers>, heap: Seq<DagNode>, a: usize, b: usize)
    requires
        heap_wf(sig, heap),
        a < heap.len(),
        b < heap.len(),
        node_at(heap, a) is Free,
        node_at(heap, b) is Free,
        crate::dag_node::node_symbol(heap[as_int(a)]) == crate::dag_node::node_symbol(heap[as_int(b)]),
    ensures
        compare_arguments(sig, heap, a, b) == Ordering::Equal <==> forall|p: int|
            0 <= p < arity_at(sig, heap, a) ==> #[trigger] args_equal_at(sig, heap, a, b, p),
{
    let n = arity_at(sig, heap, a);
    assert(node_wf(sig, heap[as_int(a)], as_int(a)));
    lemma_args_equal_from(sig, heap, a, b, 0, n);
    if compare_arguments(sig, heap, a, b) == Ordering::Equal {
        assert forall|p: int| 0 <= p < n implies #[trigger] args_equal_at(sig, heap, a, b, p) by {
            if p < n - 1 {
                assert(compare_position(n - 2 - p, n) == p);
                assert(args_equal_at(sig, heap, a, b, compare_position(n - 2 - p, n)));
            } else {
                assert(compare_position(n - 1, n) == p);
                assert(args_equal_at(sig, heap, a, b, compare_position(n - 1, n)));
            }
        }
    } else {
        assert(exists|j: int| 0 <= j < n && !#[trigger] args_equal_at(sig, heap, a, b, compare_position(j, n)));
        let j = choose|j: int| 0 <= j < n && !#[trigger] args_equal_at(sig, heap, a, b, compare_position(j, n));
        assert(0 <= compare_position(j, n) < n);
    }
}

/// Whether `o` is `Less` or `Equal`.
pub open spec fn not_greater(o: Ordering) -> bool {
    o != Ordering::Greater
}

/// The order is transitive: `a <= b` and `b <= c` give `a <= c`, strictly when either step is
/// strict.
pub proof fn lemma_compare_transitive(sig: Seq<SymbolMembers>, heap: Seq<DagNode>, a: usize, b: usize, c: usize)
    requires
        heap_wf(sig, heap),
        a < heap.len(),
        b < heap.len(),
        c < heap.len(),
        not_greater(compare_dags(sig, heap, a, b)),
        not_greater(compare_dags(sig, heap, b, c)),
    ensures
        not_greater(compare_dags(sig, heap, a, c)),
        (compare_dags(sig, heap, a, b) == Ordering::Less || compare_dags(sig, heap, b, c) == Ordering::Less)
            ==> compare_dags(sig, heap, a, c) == Ordering::Less,
    decreases a + b + c, 1int, 0int,
{
    assert(node_wf(sig, heap[as_int(a)], as_int(a)));
    assert(node_wf(sig, heap[as_int(b)], as_int(b)));
    assert(node_wf(sig, heap[as_int(c)], as_int(c)));
    if hash_at(sig, heap, a) == hash_at(sig, heap, b) && hash_at(sig, heap, b) == hash_at(sig, heap, c) {
        assert(crate::dag_node::node_symbol(heap[as_int(a)]) == crate::dag_node::node_symbol(heap[as_int(b)]));
        assert(crate::dag_node::node_symbol(heap[as_int(b)]) == crate::dag_node::node_symbol(heap[as_int(c)]));
        match (node_at(heap, a), node_at(heap, b), node_at(heap, c)) {
            (DagNode::Free(_), DagNode::Free(_), DagNode::Free(_)) => {
                lemma_args_transitive(sig, heap, a, b, c, 0, arity_at(sig, heap, a));
            },
            _ => {},
        }
    }
}

proof fn lemma_args_transitive(
    sig: Seq<SymbolMembers>,
    heap: Seq<DagNode>,
    a: usize,
    b: usize,
    c: usize,
    k: int,
    n: int,
)
    requires
        heap_wf(sig, heap),
        a < heap.len(),
        b < heap.len(),
        c < heap.len(),
        node_at(heap, a) is Free,
        node_at(heap, b) is Free,
        node_at(heap, c) is Free,
        n == arity_at(sig, heap, a),
        n == arity_at(sig, heap, b),
        n == arity_at(sig, heap, c),
        0 <= k,
        not_greater(compare_args_from(sig, heap, a, b, k, n)),
        not_greater(compare_args_from(sig, heap, b, c, k, n)),
    ensures
        not_greater(compare_args_from(sig, heap, a, c, k, n)),
        (compare_args_from(sig, heap, a, b, k, n) == Ordering::Less || compare_args_from(sig, heap, b, c, k, n)
            == Ordering::Less) ==> compare_args_from(sig, heap, a, c, k, n) == Ordering::Less,
    decreases a + b + c, 0int, n - k,
{
    assert(node_wf(sig, heap[as_int(a)], as_int(a)));
    assert(node_wf(sig, heap[as_int(b)], as_int(b)));
    assert(node_wf(sig, heap[as_int(c)], as_int(c)));
    if k < n {
        let p = compare_position(k, n);
        let x = arg_at(heap, a, p);
        let y = arg_at(heap, b, p);
        let z = arg_at(heap, c, p);
        assert(x < a && y < b && z < c);
        lemma_compare_transitive(sig, heap, x, y, z);
        if compare_dags(sig, heap, x, y) == Ordering::Equal && compare_dags(sig, heap, y, z) == Ordering::Equal {
            lemma_compare_antisymmetric(sig, heap, x, y);
            lemma_compare_antisymmetric(sig, heap, y, z);
            lemma_compare_antisymmetric(sig, heap, x, z);
            lemma_compare_transitive(sig, heap, z, y, x);
            lemma_args_transitive(sig, heap, a, b, c, k + 1, n);
        }
    }
}


/// A shallow copy of a node compares equal to the node, either way round.
/// The copy stands at position `r`, the end of `heap`.
pub proof fn lemma_shallow_copy_equal(sig: Seq<SymbolMembers>, heap: Seq<DagNode>, a: usize, r: usize)
    requires
        heap_wf(sig, heap),
        a < heap.len(),
        as_int(r) == heap.len(),
    ensures
        compare_dags(sig, heap.push(shallow_copy_node(node_at(heap, a))), r, a) == Ordering::Equal,
        compare_dags(sig, heap.push(shallow_copy_node(node_at(heap, a))), a, r) == Ordering::Equal,
{
    let c = shallow_copy_node(node_at(heap, a));
    let h2 = heap.push(c);
    let n = r;
    assert(node_wf(sig, heap[as_int(a)], as_int(a)));
    assert(node_args(c) == node_args(heap[as_int(a)]));
    assert(node_wf(sig, c, as_int(n)));
    lemma_push_wf(sig, heap, c);
    assert(node_at(h2, a) == node_at(heap, a));
    assert(node_wf(sig, h2[as_int(a)], as_int(a)));
    match node_at(heap, a) {
        DagNode::Free(_) => {
            lemma_copy_args_equal(sig, h2, n, a, 0, arity_at(sig, h2, a));
            lemma_copy_args_equal(sig, h2, a, n, 0, arity_at(sig, h2, a));
        },
        DagNode::Variable(_) => {},
    }
}

proof fn lemma_copy_args_equal(sig: Seq<SymbolMembers>, heap: Seq<DagNode>, a: usize, b: usize, k: int, n: int)
    requires
        heap_wf(sig, heap),
        a < heap.len(),
        b < heap.len(),
        node_args(node_at(heap, a)) == node_args(node_at(heap, b)),
        forall|j: int| 0 <= j < node_args(node_at(heap, a)).len() ==> #[trigger] node_args(node_at(heap, a))[j] < a && node_args(node_at(heap, a))[j] < b,
        0 <= k,
    ensures
        compare_args_from(sig, heap, a, b, k, n) == Ordering::Equal,
    decreases n - k,
{
    if k < n {
        let p = compare_position(k, n);
        if 0 <= p < args_len_at(heap, a) {
            let x = arg_at(heap, a, p);
            assert(node_args(node_at(heap, a))[p] < a);
            lemma_compare_reflexive(sig, heap, x);
        }
        lemma_copy_args_equal(sig, heap, a, b, k + 1, n);
    }
}

} // verus!
