//! Operations on DAG nodes beyond matching: their sorts, counting the operator symbols of the
//! terms they stand for, copying, and turning them back into terms.
use vstd::prelude::*;
use crate::dag_node::{
    DagHeap, DagNode, DagNodeMembers, FreeDagNode, Signature, VariableDagNode, arg_at, args_len_at,
    flags_at, heap_wf, heap_with_flags, members, node_args, node_symbol, node_wf, sort_index_at, as_int,
};
use crate::dag_node_flags::{DagNodeFlag, DagNodeFlags, has_flag};
use crate::node_list::{NodeList, node_list_items};
use crate::symbol::{SORT_UNKNOWN, Sort, SymbolMembers};
use crate::term::{FreeTerm, Term, TermStore, VariableTerm, term_args, term_symbol};

verus! {

/// The number of operator symbols in the term that node `a` stands for: shared subterms count
/// once for each place they occur.
pub open spec fn dag_size(heap: Seq<DagNode>, a: usize) -> nat
    decreases a, args_len_at(heap, a) + 1,
{
    1 + dag_args_size(heap, a, args_len_at(heap, a))
}

/// The sizes of the first `k` arguments of `a`, summed.
pub open spec fn dag_args_size(heap: Seq<DagNode>, a: usize, k: int) -> nat
    decreases a, k,
{
    if k <= 0 {
        0
    } else if arg_at(heap, a, k - 1) < a {
        dag_args_size(heap, a, k - 1) + dag_size(heap, arg_at(heap, a, k - 1))
    } else {
        dag_args_size(heap, a, k - 1)
    }
}

/// The nodes visited, in order, by a depth-first walk from node `a` that starts with the
/// nodes `visited` already seen: `a` itself, then for each argument in turn that has not been
/// seen, the walk from that argument.
pub open spec fn dfs_visit(heap: Seq<DagNode>, a: usize, visited: Seq<usize>) -> Seq<usize>
    decreases a, 1int, 0int,
{
    dfs_visit_args(heap, a, visited.push(a), args_len_at(heap, a))
}

/// The walk over the first `k` arguments of `a`, from the nodes `visited` seen so far.
pub open spec fn dfs_visit_args(heap: Seq<DagNode>, a: usize, visited: Seq<usize>, k: int) -> Seq<usize>
    decreases a, 0int, k,
{
    if k <= 0 {
        visited
    } else {
        let v = dfs_visit_args(heap, a, visited, k - 1);
        let d = arg_at(heap, a, k - 1);
        if d < a && !v.contains(d) {
            dfs_visit(heap, d, v)
        } else {
            v
        }
    }
}

/// The place of `x` in `visited`.
pub fn position_of(visited: &Vec<usize>, x: usize) -> (r: Option<usize>)
    ensures
        match r {
            Some(i) => i < visited@.len() && visited@[i as int] == x && forall|j: int| 0 <= j < i ==> visited@[j] != x,
            None => forall|j: int| 0 <= j < visited@.len() ==> visited@[j] != x,
        },
{
    let mut i: usize = 0;
    while i < visited.len()
        invariant
            i <= visited@.len(),
            forall|j: int| 0 <= j < i ==> visited@[j] != x,
        decreases visited@.len() - i,
    {
        if visited[i] == x {
            return Some(i);
        }
        i = i + 1;
    }
    None
}

/// The visited nodes and their counts agree: every visited node is in the heap, no node is
/// visited twice, and each count is the size of its node's term, or 0 for a node whose count
/// is still being computed, which comes after `below` in the heap.
pub open spec fn counts_agree(heap: Seq<DagNode>, visited: Seq<usize>, counts: Seq<u64>, below: usize) -> bool {
    &&& visited.len() == counts.len()
    &&& forall|i: int| 0 <= i < visited.len() ==> (#[trigger] visited[i]) < heap.len()
    &&& forall|i: int, j: int| 0 <= i < j < visited.len() ==> visited[i] != visited[j]
    &&& forall|i: int| 0 <= i < visited.len() ==> (#[trigger] counts[i] == dag_size(heap, visited[i]) || (counts[i] == 0 && visited[i] > below))
}

/// Every argument of a node whose count is known has been visited.
pub open spec fn visited_closed(heap: Seq<DagNode>, visited: Seq<usize>, counts: Seq<u64>) -> bool {
    forall|i: int, k: int| 0 <= i < visited.len() && counts[i] != 0 && 0 <= k < args_len_at(heap, visited[i]) ==> #[trigger] visited.contains(
        #[trigger] arg_at(heap, visited[i], k),
    )
}

proof fn lemma_contains_extend(t: Seq<usize>, s: Seq<usize>, x: usize)
    requires
        t.len() <= s.len(),
        s.subrange(0, t.len() as int) == t,
        t.contains(x),
    ensures
        s.contains(x),
{
    let w = choose|w: int| 0 <= w < t.len() && t[w] == x;
    assert(s.subrange(0, t.len() as int)[w] == s[w]);
}

proof fn lemma_dag_size_positive(heap: Seq<DagNode>, a: usize)
    ensures
        dag_size(heap, a) >= 1,
{
}

proof fn lemma_args_size_monotone(heap: Seq<DagNode>, a: usize, j: int, k: int)
    requires
        0 <= j <= k,
    ensures
        dag_args_size(heap, a, j) <= dag_args_size(heap, a, k),
    decreases k - j,
{
    if j < k {
        lemma_args_size_monotone(heap, a, j, k - 1);
    }
}

/// Visits node `a` and, depth first, its arguments not yet visited, recording for each visited
/// node the number of operator symbols of its term.
pub fn graph_count(heap: &DagHeap, sig: &Signature, a: usize, visited: &mut Vec<usize>, counts: &mut Vec<u64>)
    requires
        heap_wf(sig.symbols@, heap.nodes@),
        a < heap.nodes@.len(),
        dag_size(heap.nodes@, a) <= u64::MAX,
        !old(visited)@.contains(a),
        counts_agree(heap.nodes@, old(visited)@, old(counts)@, a),
        visited_closed(heap.nodes@, old(visited)@, old(counts)@),
    ensures
        final(visited)@.len() >= old(visited)@.len() + 1,
        final(visited)@.subrange(0, old(visited)@.len() as int) == old(visited)@,
        final(visited)@[old(visited)@.len() as int] == a,
        final(counts)@[old(visited)@.len() as int] == dag_size(heap.nodes@, a),
        forall|i: int| 0 <= i < old(counts)@.len() ==> #[trigger] final(counts)@[i] == old(counts)@[i],
        counts_agree(heap.nodes@, final(visited)@, final(counts)@, a),
        forall|i: int| old(visited)@.len() <= i < final(visited)@.len() ==> {
            &&& final(counts)@[i] == dag_size(heap.nodes@, #[trigger] final(visited)@[i])
            &&& final(visited)@[i] <= a
        },
        visited_closed(heap.nodes@, final(visited)@, final(counts)@),
        final(visited)@ == dfs_visit(heap.nodes@, a, old(visited)@),
    decreases a,
{
    let index = counts.len();
    visited.push(a);
    counts.push(0);
    assert(visited@ == dfs_visit_args(heap.nodes@, a, old(visited)@.push(a), 0));
    assert(node_wf(sig.symbols@, heap.nodes@[a as int], a as int));
    assert(visited@.subrange(0, index as int) =~= old(visited)@);
    assert forall|i: int, k: int| 0 <= i < visited@.len() && counts@[i] != 0 && 0 <= k < args_len_at(heap.nodes@, visited@[i]) implies #[trigger] visited@.contains(
        #[trigger] arg_at(heap.nodes@, visited@[i], k),
    ) by {
        assert(i < index);
        assert(old(visited)@.contains(arg_at(heap.nodes@, old(visited)@[i], k)));
        lemma_contains_extend(old(visited)@, visited@, arg_at(heap.nodes@, visited@[i], k));
    }
    let mut count: u64 = 1;
    let n = heap.len(a);
    let mut k: usize = 0;
    while k < n
        invariant
            heap_wf(sig.symbols@, heap.nodes@),
            a < heap.nodes@.len(),
            node_wf(sig.symbols@, heap.nodes@[a as int], a as int),
            n == args_len_at(heap.nodes@, a),
            k <= n,
            index == old(visited)@.len(),
            index == old(counts)@.len(),
            visited@.len() >= index + 1,
            visited@.len() == counts@.len(),
            visited@.subrange(0, index as int) == old(visited)@,
            visited@[index as int] == a,
            counts@[index as int] == 0,
            forall|i: int| 0 <= i < old(counts)@.len() ==> #[trigger] counts@[i] == old(counts)@[i],
            forall|i: int| 0 <= i < visited@.len() ==> (#[trigger] visited@[i]) < heap.nodes@.len(),
            forall|i: int, j: int| 0 <= i < j < visited@.len() ==> visited@[i] != visited@[j],
            forall|i: int| 0 <= i < visited@.len() ==> (#[trigger] counts@[i] == dag_size(heap.nodes@, visited@[i]) || (counts@[i] == 0 && visited@[i] >= a)),
            forall|i: int| 0 <= i < index ==> (#[trigger] old(counts)@[i] == dag_size(heap.nodes@, old(visited)@[i]) || (old(counts)@[i] == 0 && old(visited)@[i] > a)),
            forall|i: int| index < i < visited@.len() ==> {
                &&& counts@[i] == dag_size(heap.nodes@, #[trigger] visited@[i])
                &&& visited@[i] < a
            },
            visited_closed(heap.nodes@, visited@, counts@),
            forall|j: int| 0 <= j < k ==> #[trigger] visited@.contains(arg_at(heap.nodes@, a, j)),
            count == 1 + dag_args_size(heap.nodes@, a, k as int),
            dag_size(heap.nodes@, a) <= u64::MAX,
            visited@ == dfs_visit_args(heap.nodes@, a, old(visited)@.push(a), k as int),
        decreases n - k,
    {
        let d = heap.arg(a, k);
        assert(d < a);
        let ghost before = visited@;
        proof {
            lemma_args_size_monotone(heap.nodes@, a, k as int + 1, n as int);
        }
        if position_of(visited, d).is_none() {
            graph_count(heap, sig, d, visited, counts);
            assert forall|j: int| 0 <= j < k implies #[trigger] visited@.contains(arg_at(heap.nodes@, a, j)) by {
                assert(before.contains(arg_at(heap.nodes@, a, j)));
                lemma_contains_extend(before, visited@, arg_at(heap.nodes@, a, j));
            }
            assert(visited@[before.len() as int] == d);
        }
        assert(visited@ == dfs_visit_args(heap.nodes@, a, old(visited)@.push(a), k as int + 1));
        assert(visited@.contains(d));
        let p = position_of(visited, d).unwrap();
        let child_count = counts[p];
        assert(child_count == dag_size(heap.nodes@, d));
        proof {
            lemma_dag_size_positive(heap.nodes@, d);
            lemma_args_size_monotone(heap.nodes@, a, k as int + 1, n as int);
        }
        count = count + child_count;
        k = k + 1;
    }
    let ghost v = visited@;
    let ghost c = counts@;
    counts.set(index, count);
    assert forall|i: int, k: int| 0 <= i < visited@.len() && counts@[i] != 0 && 0 <= k < args_len_at(heap.nodes@, visited@[i]) implies #[trigger] visited@.contains(
        #[trigger] arg_at(heap.nodes@, visited@[i], k),
    ) by {
        if i != index {
            assert(c[i] != 0);
        }
    }
}


/// The size of node `j`'s term when it fits in a `u64`.
pub open spec fn size_if_fits(heap: Seq<DagNode>, j: usize) -> Option<u64> {
    if dag_size(heap, j) <= u64::MAX {
        Some(dag_size(heap, j) as u64)
    } else {
        None
    }
}

/// Whether the number of operator symbols in the term that node `a` stands for fits in a
/// `u64`, so that `graph_count` can count it.
pub fn term_size_fits(heap: &DagHeap, sig: &Signature, a: usize) -> (r: bool)
    requires
        heap_wf(sig.symbols@, heap.nodes@),
        a < heap.nodes@.len(),
    ensures
        r == (dag_size(heap.nodes@, a) <= u64::MAX),
{
    let mut sizes: Vec<Option<u64>> = Vec::new();
    let len = heap.nodes.len();
    let mut i: usize = 0;
    while i <= a
        invariant
            heap_wf(sig.symbols@, heap.nodes@),
            len == heap.nodes@.len(),
            a < len,
            i <= a + 1,
            sizes@.len() == i,
            forall|j: int| 0 <= j < i ==> #[trigger] sizes@[j] == size_if_fits(heap.nodes@, j as usize),
        decreases a + 1 - i,
    {
        assert(node_wf(sig.symbols@, heap.nodes@[i as int], i as int));
        let n = heap.len(i);
        let mut total: u64 = 1;
        let mut fits = true;
        let mut k: usize = 0;
        while k < n
            invariant
                heap_wf(sig.symbols@, heap.nodes@),
                i < heap.nodes@.len(),
                node_wf(sig.symbols@, heap.nodes@[i as int], i as int),
                n == args_len_at(heap.nodes@, i),
                sizes@.len() == i,
                forall|j: int| 0 <= j < i ==> #[trigger] sizes@[j] == size_if_fits(heap.nodes@, j as usize),
                k <= n,
                fits ==> total == 1 + dag_args_size(heap.nodes@, i, k as int),
                !fits ==> dag_size(heap.nodes@, i) > u64::MAX,
            decreases n - k,
        {
            if fits {
                let x = heap.arg(i, k);
                assert(node_args(heap.nodes@[i as int])[k as int] < i);
                proof {
                    lemma_args_size_monotone(heap.nodes@, i, k as int + 1, n as int);
                }
                match sizes[x] {
                    None => {
                        fits = false;
                    },
                    Some(c) => {
                        match total.checked_add(c) {
                            None => {
                                fits = false;
                            },
                            Some(t) => {
                                total = t;
                            },
                        }
                    },
                }
            }
            k = k + 1;
        }
        let entry = if fits { Some(total) } else { None };
        let ghost before = sizes@;
        sizes.push(entry);
        assert(sizes@.drop_last() == before);
        i = i + 1;
    }
    sizes[a].is_some()
}

/// One line of the graph representation of a DAG: a node's top symbol and, for each of its
/// arguments, the position of that argument among the visited nodes.
pub struct GraphLine {
    pub symbol: usize,
    pub args: Vec<usize>,
}

/// The nodes are distinct nodes of the heap.
pub open spec fn distinct_nodes(heap: Seq<DagNode>, visited: Seq<usize>) -> bool {
    &&& forall|i: int| 0 <= i < visited.len() ==> (#[trigger] visited[i]) < heap.len()
    &&& forall|i: int, j: int| 0 <= i < j < visited.len() ==> visited[i] != visited[j]
}

/// Line `line` describes node `a`, whose arguments stand at the given positions of `visited`.
pub open spec fn describes(heap: Seq<DagNode>, visited: Seq<usize>, line: GraphLine, a: usize) -> bool {
    &&& line.symbol == members(heap[a as int]).top_symbol
    &&& line.args@.len() == args_len_at(heap, a)
    &&& forall|k: int| 0 <= k < line.args@.len() ==> {
        &&& (#[trigger] line.args@[k]) < visited.len()
        &&& visited[line.args@[k] as int] == arg_at(heap, a, k)
    }
}

/// The graph representation of the term that node `a` stands for: the number of operator
/// symbols of the term, the distinct nodes reachable from `a` in the depth-first order in which
/// `graph_count` visits them (`a` first), and for each of them its symbol and the positions of
/// its arguments.
pub fn graph_representation(heap: &DagHeap, sig: &Signature, a: usize) -> (r: (u64, Vec<usize>, Vec<GraphLine>))
    requires
        heap_wf(sig.symbols@, heap.nodes@),
        a < heap.nodes@.len(),
        dag_size(heap.nodes@, a) <= u64::MAX,
    ensures
        r.0 == dag_size(heap.nodes@, a),
        r.1@.len() >= 1,
        r.1@[0] == a,
        r.1@ == dfs_visit(heap.nodes@, a, Seq::<usize>::empty()),
        distinct_nodes(heap.nodes@, r.1@),
        r.2@.len() == r.1@.len(),
        forall|i: int| 0 <= i < r.1@.len() ==> describes(heap.nodes@, r.1@, #[trigger] r.2@[i], r.1@[i]),
{
    let mut visited: Vec<usize> = Vec::new();
    let mut counts: Vec<u64> = Vec::new();
    let ghost empty = visited@;
    graph_count(heap, sig, a, &mut visited, &mut counts);
    assert(empty =~= Seq::<usize>::empty());
    assert(visited@.subrange(0, 0) =~= Seq::<usize>::empty());
    let operators = counts[0];
    let mut lines: Vec<GraphLine> = Vec::new();
    let n = visited.len();
    let mut i: usize = 0;
    while i < n
        invariant
            n == visited@.len(),
            visited@ == dfs_visit(heap.nodes@, a, Seq::<usize>::empty()),
            i <= n,
            counts_agree(heap.nodes@, visited@, counts@, a),
            visited_closed(heap.nodes@, visited@, counts@),
            forall|j: int| 0 <= j < visited@.len() ==> counts@[j] == dag_size(heap.nodes@, #[trigger] visited@[j]),
            lines@.len() == i,
            forall|j: int| 0 <= j < i ==> describes(heap.nodes@, visited@, #[trigger] lines@[j], visited@[j]),
        decreases n - i,
    {
        let d = visited[i];
        let arg_count = heap.len(d);
        let mut args: Vec<usize> = Vec::new();
        let mut k: usize = 0;
        proof {
            lemma_dag_size_positive(heap.nodes@, d);
        }
        while k < arg_count
            invariant
                n == visited@.len(),
                i < n,
                d == visited@[i as int],
                d < heap.nodes@.len(),
                arg_count == args_len_at(heap.nodes@, d),
                counts@[i as int] != 0,
                visited_closed(heap.nodes@, visited@, counts@),
                k <= arg_count,
                args@.len() == k,
                forall|m: int| 0 <= m < k ==> {
                    &&& (#[trigger] args@[m]) < visited@.len()
                    &&& visited@[args@[m] as int] == arg_at(heap.nodes@, d, m)
                },
            decreases arg_count - k,
        {
            let x = heap.arg(d, k);
            assert(visited@.contains(arg_at(heap.nodes@, visited@[i as int], k as int)));
            let p = position_of(&visited, x);
            match p {
                Some(pos) => {
                    args.push(pos);
                },
                None => {
                    assert(false);
                },
            }
            k = k + 1;
        }
        let ghost before = lines@;
        lines.push(GraphLine { symbol: heap.nodes[d].dag_node_members().top_symbol, args });
        assert(lines@.drop_last() == before);
        i = i + 1;
    }
    (operators, visited, lines)
}

/// `c` is a new variable node with the given symbol, name and index: unknown sort, no flags,
/// no copy, no hash and no arguments.
pub open spec fn is_new_variable(c: DagNode, symbol: int, v: VariableDagNode) -> bool {
    &&& c is Variable
    &&& node_symbol(c) == symbol
    &&& node_args(c) == Seq::<usize>::empty()
    &&& members(c).flags.0 == 0
    &&& members(c).sort_index == SORT_UNKNOWN
    &&& members(c).copied_rc is None
    &&& members(c).hash == 0
    &&& c->Variable_0.name == v.name
    &&& c->Variable_0.index == v.index
}

/// `c` is the copy that `copy_all_aux` makes of `n`: a new node with the same symbol, and for a
/// variable the same name and index.
pub open spec fn is_copy_all(c: DagNode, n: DagNode) -> bool {
    match n {
        DagNode::Free(_) => {
            &&& c is Free
            &&& node_symbol(c) == node_symbol(n)
            &&& node_args(c) == Seq::<usize>::empty()
            &&& members(c).flags.0 == 0
            &&& members(c).sort_index == 0
            &&& members(c).copied_rc is None
            &&& members(c).hash == 0
        },
        DagNode::Variable(v) => is_new_variable(c, node_symbol(n), v),
    }
}

/// Node `a` can be copied whole: it is a variable, or its symbol has no arguments (for
/// arguments the copy indexes into its own, still empty, argument list, which fails).
pub open spec fn copyable(sig: Seq<SymbolMembers>, heap: Seq<DagNode>, a: usize) -> bool {
    heap[a as int] is Variable || sig[node_symbol(heap[a as int])].arity == 0
}

/// A whole copy of a node, placed at position `r` at the end of the heap, is equal to the node.
pub proof fn lemma_copy_all_equal(sig: Seq<SymbolMembers>, heap: Seq<DagNode>, a: usize, c: DagNode, r: usize)
    requires
        heap_wf(sig, heap),
        a < heap.len(),
        copyable(sig, heap, a),
        is_copy_all(c, heap[as_int(a)]),
        as_int(r) == heap.len(),
    ensures
        crate::dag_compare::dags_equal(sig, heap.push(c), r, a),
        crate::dag_compare::dags_equal(sig, heap.push(c), a, r),
{
    assert(node_wf(sig, heap[as_int(a)], as_int(a)));
    assert(heap.push(c)[as_int(a)] == heap[as_int(a)]);
}

/// The heap with the copy of node `a` recorded in it.
pub open spec fn heap_with_copy(heap: Seq<DagNode>, a: usize, c: usize) -> Seq<DagNode> {
    heap.update(a as int, crate::dag_node::with_members(heap[a as int], DagNodeMembers {
        copied_rc: Some(c),
        flags: DagNodeFlags(members(heap[a as int]).flags.0 | 2u32),
        ..members(heap[a as int])
    }))
}

impl DagHeap {
    /// A new node copying node `a` with its arguments copied.
    pub fn copy_all_aux(&mut self, sig: &Signature, a: usize) -> (r: usize)
        requires
            heap_wf(sig.symbols@, old(self).nodes@),
            a < old(self).nodes@.len(),
            copyable(sig.symbols@, old(self).nodes@, a),
        ensures
            r == old(self).nodes@.len(),
            final(self).nodes@.len() == old(self).nodes@.len() + 1,
            final(self).nodes@.drop_last() == old(self).nodes@,
            is_copy_all(final(self).nodes@[r as int], old(self).nodes@[a as int]),
    {
        assert(node_wf(sig.symbols@, self.nodes@[a as int], a as int));
        let symbol = self.nodes[a].dag_node_members().top_symbol;
        let node = match &self.nodes[a] {
            DagNode::Free(_) => DagNode::Free(FreeDagNode::new(symbol)),
            DagNode::Variable(v) => DagNode::Variable(VariableDagNode::new(symbol, v.name, v.index)),
        };
        let r = self.allocate(node);
        assert(self.nodes@.drop_last() =~= old(self).nodes@);
        r
    }

    /// Records `c` as the copy of node `a` and marks `a` copied.
    fn set_copy(&mut self, a: usize, c: usize)
        requires
            a < old(self).nodes@.len(),
        ensures
            final(self).nodes@ == heap_with_copy(old(self).nodes@, a, c),
    {
        match &mut self.nodes[a] {
            DagNode::Free(f) => {
                f.members.copied_rc = Some(c);
                f.members.flags = DagNodeFlags(f.members.flags.0 | DagNodeFlag::Copied.bit());
            },
            DagNode::Variable(v) => {
                v.members.copied_rc = Some(c);
                v.members.flags = DagNodeFlags(v.members.flags.0 | DagNodeFlag::Copied.bit());
            },
        }
    }

    /// The copy of node `a`: none for a reduced node; the copy made before for a copied node;
    /// otherwise a new copy, recorded in `a`.
    pub fn copy_all(&mut self, sig: &Signature, a: usize) -> (r: Option<usize>)
        requires
            heap_wf(sig.symbols@, old(self).nodes@),
            a < old(self).nodes@.len(),
            !has_flag(flags_at(old(self).nodes@, a), DagNodeFlag::Reduced) && !has_flag(
                flags_at(old(self).nodes@, a),
                DagNodeFlag::Copied,
            ) ==> copyable(sig.symbols@, old(self).nodes@, a),
        ensures
            has_flag(flags_at(old(self).nodes@, a), DagNodeFlag::Reduced) ==> r is None && final(self).nodes@ == old(self).nodes@,
            !has_flag(flags_at(old(self).nodes@, a), DagNodeFlag::Reduced) && has_flag(flags_at(old(self).nodes@, a), DagNodeFlag::Copied)
                ==> r == members(old(self).nodes@[a as int]).copied_rc && final(self).nodes@ == old(self).nodes@,
            !has_flag(flags_at(old(self).nodes@, a), DagNodeFlag::Reduced) && !has_flag(flags_at(old(self).nodes@, a), DagNodeFlag::Copied)
                ==> {
                &&& r == Some(old(self).nodes@.len() as usize)
                &&& final(self).nodes@.len() == old(self).nodes@.len() + 1
                &&& final(self).nodes@.drop_last() == heap_with_copy(old(self).nodes@, a, old(self).nodes@.len() as usize)
                &&& is_copy_all(final(self).nodes@.last(), old(self).nodes@[a as int])
            },
    {
        if self.is_reduced(a) {
            return None;
        }
        if !self.is_copied(a) {
            let c = self.copy_all_aux(sig, a);
            let ghost after_copy = self.nodes@;
            self.set_copy(a, c);
            assert(self.nodes@.drop_last() =~= heap_with_copy(old(self).nodes@, a, c));
        }
        self.nodes[a].dag_node_members().copied_rc
    }

    /// Forgets the copy of node `a`.
    pub fn clear_copied_rc(&mut self, a: usize)
        requires
            a < old(self).nodes@.len(),
        ensures
            final(self).nodes@ == old(self).nodes@.update(a as int, crate::dag_node::with_members(
                old(self).nodes@[a as int],
                DagNodeMembers { copied_rc: None, ..members(old(self).nodes@[a as int]) },
            )),
    {
        match &mut self.nodes[a] {
            DagNode::Free(f) => f.members.copied_rc = None,
            DagNode::Variable(v) => v.members.copied_rc = None,
        }
    }

    /// The sort of node `a`: none while it is unknown, otherwise the sort with its index in the
    /// connected component of its symbol's range.
    pub fn get_sort(&self, sig: &Signature, a: usize) -> (r: Option<Sort>)
        requires
            heap_wf(sig.symbols@, self.nodes@),
            a < self.nodes@.len(),
            sort_index_at(self.nodes@, a) != SORT_UNKNOWN ==> sort_available(*sig, self.nodes@, a),
        ensures
            sort_index_at(self.nodes@, a) == SORT_UNKNOWN ==> r is None,
            sort_index_at(self.nodes@, a) != SORT_UNKNOWN ==> {
                &&& r is Some
                &&& r->Some_0.sort_index == node_sort(*sig, self.nodes@, a).sort_index
                &&& r->Some_0.leq_sorts@ == node_sort(*sig, self.nodes@, a).leq_sorts@
            },
    {
        let sort_index = self.get_sort_index(a);
        if sort_index == SORT_UNKNOWN {
            return None;
        }
        assert(node_wf(sig.symbols@, self.nodes@[a as int], a as int));
        let symbol = self.nodes[a].dag_node_members().top_symbol;
        let component = &sig.components[sig.symbols[symbol].sort_table.range_component];
        Some(component.sorts[sort_index as usize].duplicate())
    }
}

/// The sort index of node `a` names a sort of the range component of its symbol.
pub open spec fn sort_available(sig: Signature, heap: Seq<DagNode>, a: usize) -> bool {
    let c = sig.symbols@[node_symbol(heap[a as int])].sort_table.range_component;
    &&& c < sig.components@.len()
    &&& 0 <= sort_index_at(heap, a) < sig.components@[c as int].sorts@.len()
}

/// The sort of node `a`, by its index in the range component of its symbol.
pub open spec fn node_sort(sig: Signature, heap: Seq<DagNode>, a: usize) -> Sort {
    let c = sig.symbols@[node_symbol(heap[a as int])].sort_table.range_component;
    sig.components@[c as int].sorts@[sort_index_at(heap, a) as int]
}


/// Term `t` of the store stands for node `a` of the heap: same symbol and kind (and name for
/// a variable), and arguments that stand for the node's arguments.
pub open spec fn represents(ts: Seq<Term>, t: usize, heap: Seq<DagNode>, a: usize) -> bool
    decreases a, args_len_at(heap, a) + 1,
{
    &&& t < ts.len()
    &&& a < heap.len()
    &&& term_symbol(ts[t as int]) == node_symbol(heap[a as int])
    &&& (ts[t as int] is Free) == (heap[a as int] is Free)
    &&& (heap[a as int] is Variable ==> ts[t as int]->Variable_0.name == heap[a as int]->Variable_0.name)
    &&& term_args(ts[t as int]).len() == args_len_at(heap, a)
    &&& args_represent(ts, t, heap, a, args_len_at(heap, a))
}

/// The first `k` arguments of term `t` stand for those of node `a`.
pub open spec fn args_represent(ts: Seq<Term>, t: usize, heap: Seq<DagNode>, a: usize, k: int) -> bool
    decreases a, k,
{
    if k <= 0 {
        true
    } else {
        &&& args_represent(ts, t, heap, a, k - 1)
        &&& (arg_at(heap, a, k - 1) < a ==> represents(ts, term_args(ts[t as int])[k - 1], heap, arg_at(heap, a, k - 1)))
    }
}

/// What a term stands for stays so when terms are added to the store.
pub proof fn lemma_represents_extend(ts: Seq<Term>, ts2: Seq<Term>, t: usize, heap: Seq<DagNode>, a: usize)
    requires
        ts.len() <= ts2.len(),
        ts2.subrange(0, ts.len() as int) == ts,
        represents(ts, t, heap, a),
    ensures
        represents(ts2, t, heap, a),
    decreases a, args_len_at(heap, a) + 1,
{
    assert(ts2[t as int] == ts2.subrange(0, ts.len() as int)[t as int]);
    lemma_args_represent_extend(ts, ts2, t, heap, a, args_len_at(heap, a));
}

proof fn lemma_args_represent_extend(ts: Seq<Term>, ts2: Seq<Term>, t: usize, heap: Seq<DagNode>, a: usize, k: int)
    requires
        ts.len() <= ts2.len(),
        ts2.subrange(0, ts.len() as int) == ts,
        t < ts.len(),
        args_represent(ts, t, heap, a, k),
    ensures
        args_represent(ts2, t, heap, a, k),
    decreases a, k,
{
    assert(ts2[t as int] == ts2.subrange(0, ts.len() as int)[t as int]);
    if k > 0 {
        lemma_args_represent_extend(ts, ts2, t, heap, a, k - 1);
        if arg_at(heap, a, k - 1) < a {
            lemma_represents_extend(ts, ts2, term_args(ts[t as int])[k - 1], heap, arg_at(heap, a, k - 1));
        }
    }
}

/// A store with one more well formed term at its end is well formed.
proof fn lemma_store_push_wf(sig: Seq<SymbolMembers>, ts: Seq<Term>, t: Term)
    requires
        crate::term::store_wf(sig, ts),
        crate::term::term_wf(sig, t, ts.len() as int),
    ensures
        crate::term::store_wf(sig, ts.push(t)),
{
    assert forall|i: int| 0 <= i < ts.push(t).len() implies #[trigger] crate::term::term_wf(sig, ts.push(t)[i], i) by {
        if i < ts.len() {
            assert(crate::term::term_wf(sig, ts[i], i));
        }
    }
}

impl DagHeap {
    /// The term that node `a` stands for, added to the store with all its subterms (a shared
    /// node gives a term for each place it occurs); returns the index of the term.
    pub fn termify(&self, sig: &Signature, a: usize, terms: &mut TermStore) -> (r: usize)
        requires
            heap_wf(sig.symbols@, self.nodes@),
            a < self.nodes@.len(),
            crate::term::store_wf(sig.symbols@, old(terms).terms@),
        ensures
            final(terms).terms@.len() >= old(terms).terms@.len(),
            final(terms).terms@.subrange(0, old(terms).terms@.len() as int) == old(terms).terms@,
            crate::term::store_wf(sig.symbols@, final(terms).terms@),
            represents(final(terms).terms@, r, self.nodes@, a),
        decreases a,
    {
        assert(node_wf(sig.symbols@, self.nodes@[a as int], a as int));
        let symbol = self.nodes[a].dag_node_members().top_symbol;
        match &self.nodes[a] {
            DagNode::Variable(v) => {
                let ghost ts0 = terms.terms@;
                let t = Term::Variable(VariableTerm::new(v.name, symbol));
                proof {
                    lemma_store_push_wf(sig.symbols@, ts0, t);
                }
                let r = terms.add(t);
                assert(terms.terms@.subrange(0, ts0.len() as int) =~= ts0);
                assert(args_len_at(self.nodes@, a) == 0);
                r
            },
            DagNode::Free(_) => {
                let n = self.len(a);
                let mut args: Vec<usize> = Vec::new();
                let mut k: usize = 0;
                while k < n
                    invariant
                        heap_wf(sig.symbols@, self.nodes@),
                        a < self.nodes@.len(),
                        node_wf(sig.symbols@, self.nodes@[a as int], a as int),
                        n == args_len_at(self.nodes@, a),
                        k <= n,
                        args@.len() == k,
                        crate::term::store_wf(sig.symbols@, terms.terms@),
                        terms.terms@.len() >= old(terms).terms@.len(),
                        terms.terms@.subrange(0, old(terms).terms@.len() as int) == old(terms).terms@,
                        forall|j: int| 0 <= j < k ==> represents(terms.terms@, #[trigger] args@[j], self.nodes@, arg_at(self.nodes@, a, j)),
                    decreases n - k,
                {
                    let d = self.arg(a, k);
                    let ghost before = terms.terms@;
                    let t = self.termify(sig, d, terms);
                    proof {
                        assert forall|j: int| 0 <= j < k implies represents(terms.terms@, #[trigger] args@[j], self.nodes@, arg_at(self.nodes@, a, j)) by {
                            lemma_represents_extend(before, terms.terms@, args@[j], self.nodes@, arg_at(self.nodes@, a, j));
                        }
                        assert(terms.terms@.subrange(0, old(terms).terms@.len() as int) =~= old(terms).terms@) by {
                            assert forall|i: int| 0 <= i < old(terms).terms@.len() implies terms.terms@[i] == old(terms).terms@[i] by {
                                assert(terms.terms@[i] == terms.terms@.subrange(0, before.len() as int)[i]);
                                assert(before[i] == before.subrange(0, old(terms).terms@.len() as int)[i]);
                            }
                        }
                    }
                    args.push(t);
                    k = k + 1;
                }
                let ghost ts0 = terms.terms@;
                let ghost arg_terms = args@;
                let term = Term::Free(FreeTerm::with_args(symbol, args));
                proof {
                    assert forall|j: int| 0 <= j < arg_terms.len() implies #[trigger] arg_terms[j] < ts0.len() by {
                        assert(represents(ts0, arg_terms[j], self.nodes@, arg_at(self.nodes@, a, j)));
                    }
                    lemma_store_push_wf(sig.symbols@, ts0, term);
                }
                let r = terms.add(term);
                proof {
                    assert(terms.terms@.subrange(0, ts0.len() as int) =~= ts0);
                    assert(terms.terms@.subrange(0, old(terms).terms@.len() as int) =~= old(terms).terms@) by {
                        assert forall|i: int| 0 <= i < old(terms).terms@.len() implies terms.terms@[i] == old(terms).terms@[i] by {
                            assert(ts0[i] == ts0.subrange(0, old(terms).terms@.len() as int)[i]);
                        }
                    }
                    assert forall|j: int| 0 <= j < n implies represents(terms.terms@, #[trigger] arg_terms[j], self.nodes@, arg_at(self.nodes@, a, j)) by {
                        lemma_represents_extend(ts0, terms.terms@, arg_terms[j], self.nodes@, arg_at(self.nodes@, a, j));
                    }
                    lemma_args_represent_all(terms.terms@, r, self.nodes@, a, n as int);
                }
                r
            },
        }
    }
}

proof fn lemma_args_represent_all(ts: Seq<Term>, t: usize, heap: Seq<DagNode>, a: usize, k: int)
    requires
        0 <= k <= term_args(ts[t as int]).len(),
        forall|j: int| 0 <= j < k ==> represents(ts, #[trigger] term_args(ts[t as int])[j], heap, arg_at(heap, a, j)),
    ensures
        args_represent(ts, t, heap, a, k),
    decreases k,
{
    if k > 0 {
        lemma_args_represent_all(ts, t, heap, a, k - 1);
    }
}

} // verus!
