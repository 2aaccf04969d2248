//! DAG nodes. Nodes live in a `DagHeap` and refer to each other, and to the symbols of a
//! `Signature`, by index; a node's arguments always have smaller indices than the node, so the
//! heap is acyclic and shared subterms are shared nodes.
use vstd::prelude::*;
use crate::dag_node_flags::{DagNodeFlags, DagNodeFlag, has_flag, rewriting_flags_bits};
use crate::Outcome;
use crate::node_list::{NodeList, node_list_items};
use crate::symbol::{ConnectedComponent, IString, SymbolMembers, SORT_UNKNOWN, Sort, index_leq_sort};

verus! {

/// The symbols of a module, indexed by their position.
pub struct Signature {
    pub symbols: Vec<SymbolMembers>,
    pub components: Vec<ConnectedComponent>,
}

/// The members that every DAG node has.
pub struct DagNodeMembers {
    /// Index of the top symbol in the signature.
    pub top_symbol: usize,
    pub args: NodeList,
    pub flags: DagNodeFlags,
    pub sort_index: i32,
    /// The copy made of this node in the current copy operation.
    pub copied_rc: Option<usize>,
    pub hash: u32,
}

/// A node whose top symbol belongs to the free theory.
pub struct FreeDagNode {
    pub members: DagNodeMembers,
}

/// A node standing for a variable.
pub struct VariableDagNode {
    pub members: DagNodeMembers,
    pub name: IString,
    pub index: i32,
}

/// A DAG node of one of the theories.
pub enum DagNode {
    Free(FreeDagNode),
    Variable(VariableDagNode),
}

/// All DAG nodes; a node is named by its index.
pub struct DagHeap {
    pub nodes: Vec<DagNode>,
}

pub open spec fn members(n: DagNode) -> DagNodeMembers {
    match n {
        DagNode::Free(f) => f.members,
        DagNode::Variable(v) => v.members,
    }
}

pub open spec fn node_args(n: DagNode) -> Seq<usize> {
    node_list_items(members(n).args)
}

pub open spec fn node_symbol(n: DagNode) -> int {
    members(n).top_symbol as int
}

/// Distinct symbols have distinct hashes.
pub open spec fn signature_wf(sig: Seq<SymbolMembers>) -> bool {
    forall|i: int, j: int|
        0 <= i < sig.len() && 0 <= j < sig.len() && i != j ==> #[trigger] sig[i].hash_value
            != #[trigger] sig[j].hash_value
}

/// A node is well formed at position `i`: its symbol exists, its kind agrees with the symbol,
/// a free node has as many arguments as its symbol's arity, a variable node has none, and all
/// arguments come before it.
pub open spec fn node_wf(sig: Seq<SymbolMembers>, n: DagNode, i: int) -> bool {
    &&& 0 <= node_symbol(n) < sig.len()
    &&& (n is Variable) == sig[node_symbol(n)].is_variable
    &&& (n is Free ==> node_args(n).len() == sig[node_symbol(n)].arity)
    &&& (n is Variable ==> node_args(n).len() == 0)
    &&& forall|k: int| 0 <= k < node_args(n).len() ==> #[trigger] node_args(n)[k] < i
}

pub open spec fn heap_wf(sig: Seq<SymbolMembers>, heap: Seq<DagNode>) -> bool {
    &&& signature_wf(sig)
    &&& forall|i: int| 0 <= i < heap.len() ==> #[trigger] node_wf(sig, heap[i], i)
}

pub open spec fn as_int(x: usize) -> int {
    x as int
}

pub open spec fn node_at(heap: Seq<DagNode>, a: usize) -> DagNode {
    heap[a as int]
}

/// `a` names a node of the heap whose symbol is in the signature.
pub open spec fn in_heap(sig: Seq<SymbolMembers>, heap: Seq<DagNode>, a: usize) -> bool {
    &&& a < heap.len()
    &&& 0 <= node_symbol(heap[a as int]) < sig.len()
}

pub open spec fn hash_at(sig: Seq<SymbolMembers>, heap: Seq<DagNode>, a: usize) -> u32 {
    sig[node_symbol(heap[a as int])].hash_value
}

pub open spec fn arity_at(sig: Seq<SymbolMembers>, heap: Seq<DagNode>, a: usize) -> int {
    sig[node_symbol(heap[a as int])].arity as int
}

pub open spec fn args_len_at(heap: Seq<DagNode>, a: usize) -> int {
    node_args(heap[a as int]).len() as int
}

pub open spec fn arg_at(heap: Seq<DagNode>, a: usize, p: int) -> usize {
    node_args(heap[a as int])[p]
}

impl DagNode {
    pub open spec fn dag_node_members_spec(&self) -> DagNodeMembers {
        members(*self)
    }

    pub fn dag_node_members(&self) -> (r: &DagNodeMembers)
        ensures
            *r == members(*self),
    {
        match self {
            DagNode::Free(f) => &f.members,
            DagNode::Variable(v) => &v.members,
        }
    }
}

impl FreeDagNode {
    /// A free node with the given top symbol and no arguments yet.
    pub fn new(symbol: usize) -> (r: FreeDagNode)
        ensures
            r.members.top_symbol == symbol,
            node_list_items(r.members.args) == Seq::<usize>::empty(),
            r.members.flags.0 == 0,
            r.members.sort_index == 0,
            r.members.copied_rc is None,
            r.members.hash == 0,
    {
        FreeDagNode {
            members: DagNodeMembers {
                top_symbol: symbol,
                args: NodeList::new(),
                flags: DagNodeFlags(0),
                sort_index: 0,
                copied_rc: None,
                hash: 0,
            },
        }
    }
}

impl VariableDagNode {
    /// A variable node with the given symbol, name and variable index, of unknown sort.
    pub fn new(symbol: usize, name: IString, index: i32) -> (r: VariableDagNode)
        ensures
            r.members.top_symbol == symbol,
            node_list_items(r.members.args) == Seq::<usize>::empty(),
            r.members.flags.0 == 0,
            r.members.sort_index == SORT_UNKNOWN,
            r.members.copied_rc is None,
            r.members.hash == 0,
            r.name == name,
            r.index == index,
    {
        VariableDagNode {
            members: DagNodeMembers {
                top_symbol: symbol,
                args: NodeList::new(),
                flags: DagNodeFlags(0),
                sort_index: -1,
                copied_rc: None,
                hash: 0,
            },
            name,
            index,
        }
    }
}

impl DagHeap {
    pub open spec fn view(&self) -> Seq<DagNode> {
        self.nodes@
    }

    /// The hash of the top symbol of node `a`.
    pub fn symbol_hash_of(&self, sig: &Signature, a: usize) -> (r: u32)
        requires
            in_heap(sig.symbols@, self.nodes@, a),
        ensures
            r == hash_at(sig.symbols@, self.nodes@, a),
    {
        let s = self.nodes[a].dag_node_members().top_symbol;
        sig.symbols[s].hash_value
    }

    /// The arity of the top symbol of node `a`.
    pub fn arity_of(&self, sig: &Signature, a: usize) -> (r: usize)
        requires
            in_heap(sig.symbols@, self.nodes@, a),
        ensures
            r == arity_at(sig.symbols@, self.nodes@, a),
    {
        let s = self.nodes[a].dag_node_members().top_symbol;
        sig.symbols[s].arity as usize
    }

    /// The number of arguments of node `a`.
    pub fn len(&self, a: usize) -> (r: usize)
        requires
            a < self.nodes@.len(),
        ensures
            r == args_len_at(self.nodes@, a),
    {
        self.nodes[a].dag_node_members().args.len()
    }

    /// Argument `p` of node `a`.
    pub fn arg(&self, a: usize, p: usize) -> (r: usize)
        requires
            a < self.nodes@.len(),
            p < args_len_at(self.nodes@, a),
        ensures
            r == arg_at(self.nodes@, a, p as int),
    {
        self.nodes[a].dag_node_members().args.get(p)
    }
}


/// `n` with its members replaced by `m`.
pub open spec fn with_members(n: DagNode, m: DagNodeMembers) -> DagNode {
    match n {
        DagNode::Free(f) => DagNode::Free(FreeDagNode { members: m }),
        DagNode::Variable(v) => DagNode::Variable(VariableDagNode { members: m, ..v }),
    }
}

pub open spec fn sort_index_at(heap: Seq<DagNode>, a: usize) -> i32 {
    members(heap[a as int]).sort_index
}

pub open spec fn flags_at(heap: Seq<DagNode>, a: usize) -> u32 {
    members(heap[a as int]).flags.0
}

/// The heap after setting the sort index of node `a`.
pub open spec fn heap_with_sort_index(heap: Seq<DagNode>, a: usize, s: i32) -> Seq<DagNode> {
    heap.update(a as int, with_members(heap[a as int], DagNodeMembers { sort_index: s, ..members(heap[a as int]) }))
}

/// The heap after replacing the flags of node `a`.
pub open spec fn heap_with_flags(heap: Seq<DagNode>, a: usize, f: u32) -> Seq<DagNode> {
    heap.update(a as int, with_members(heap[a as int], DagNodeMembers { flags: DagNodeFlags(f), ..members(heap[a as int]) }))
}

impl DagHeap {
    /// An empty heap.
    pub fn new() -> (r: DagHeap)
        ensures
            r.nodes@.len() == 0,
    {
        DagHeap { nodes: Vec::new() }
    }

    /// Adds a node and returns its index.
    pub fn allocate(&mut self, node: DagNode) -> (r: usize)
        ensures
            r == old(self).nodes@.len(),
            final(self).nodes@ == old(self).nodes@.push(node),
    {
        self.nodes.push(node);
        self.nodes.len() - 1
    }

    /// The sort index of node `a`.
    pub fn get_sort_index(&self, a: usize) -> (r: i32)
        requires
            a < self.nodes@.len(),
        ensures
            r == sort_index_at(self.nodes@, a),
    {
        self.nodes[a].dag_node_members().sort_index
    }

    /// Sets the sort index of node `a`.
    pub fn set_sort_index(&mut self, a: usize, sort_index: i32)
        requires
            a < old(self).nodes@.len(),
        ensures
            final(self).nodes@ == heap_with_sort_index(old(self).nodes@, a, sort_index),
    {
        match &mut self.nodes[a] {
            DagNode::Free(f) => f.members.sort_index = sort_index,
            DagNode::Variable(v) => v.members.sort_index = sort_index,
        }
    }

    /// Sets the sort of `a` to the better of its own and that of `other`: an unknown sort
    /// (all one bits) gives way to a known one, and known sorts agree, so a bitwise AND
    /// does it.
    pub fn upgrade_sort_index(&mut self, a: usize, other: usize)
        requires
            a < old(self).nodes@.len(),
            other < old(self).nodes@.len(),
        ensures
            final(self).nodes@ == heap_with_sort_index(
                old(self).nodes@,
                a,
                sort_index_at(old(self).nodes@, a) & sort_index_at(old(self).nodes@, other),
            ),
    {
        let s = self.get_sort_index(a) & self.get_sort_index(other);
        self.set_sort_index(a, s);
    }

    /// The flags of node `a`.
    pub fn flags(&self, a: usize) -> (r: DagNodeFlags)
        requires
            a < self.nodes@.len(),
        ensures
            r.0 == flags_at(self.nodes@, a),
    {
        self.nodes[a].dag_node_members().flags
    }

    /// Adds `flags` to the flags of node `a`.
    pub fn set_flags(&mut self, a: usize, flags: DagNodeFlags)
        requires
            a < old(self).nodes@.len(),
        ensures
            final(self).nodes@ == heap_with_flags(old(self).nodes@, a, flags_at(old(self).nodes@, a) | flags.0),
    {
        match &mut self.nodes[a] {
            DagNode::Free(f) => f.members.flags = DagNodeFlags(f.members.flags.0 | flags.0),
            DagNode::Variable(v) => v.members.flags = DagNodeFlags(v.members.flags.0 | flags.0),
        }
    }

    pub fn is_reduced(&self, a: usize) -> (r: bool)
        requires
            a < self.nodes@.len(),
        ensures
            r == has_flag(flags_at(self.nodes@, a), DagNodeFlag::Reduced),
    {
        self.flags(a).is_reduced()
    }

    pub fn is_copied(&self, a: usize) -> (r: bool)
        requires
            a < self.nodes@.len(),
        ensures
            r == has_flag(flags_at(self.nodes@, a), DagNodeFlag::Copied),
    {
        self.flags(a).is_copied()
    }

    pub fn is_unrewritable(&self, a: usize) -> (r: bool)
        requires
            a < self.nodes@.len(),
        ensures
            r == has_flag(flags_at(self.nodes@, a), DagNodeFlag::Unrewritable),
    {
        self.flags(a).is_unrewritable()
    }

    pub fn is_unstackable(&self, a: usize) -> (r: bool)
        requires
            a < self.nodes@.len(),
        ensures
            r == has_flag(flags_at(self.nodes@, a), DagNodeFlag::Unstackable),
    {
        self.flags(a).is_unstackable()
    }

    pub fn is_ground(&self, a: usize) -> (r: bool)
        requires
            a < self.nodes@.len(),
        ensures
            r == has_flag(flags_at(self.nodes@, a), DagNodeFlag::Ground),
    {
        self.flags(a).is_ground()
    }

    pub fn is_hash_valid(&self, a: usize) -> (r: bool)
        requires
            a < self.nodes@.len(),
        ensures
            r == has_flag(flags_at(self.nodes@, a), DagNodeFlag::HashValid),
    {
        self.flags(a).is_hash_valid()
    }

    /// Whether the sort of node `a` lies below `sort`; the sort of `a` must be known.
    pub fn leq_sort(&self, a: usize, sort: &Sort) -> (r: bool)
        requires
            a < self.nodes@.len(),
            sort_index_at(self.nodes@, a) != SORT_UNKNOWN,
        ensures
            r == index_leq_sort(sort_index_at(self.nodes@, a) as int, *sort),
    {
        sort.leq_index(self.get_sort_index(a))
    }
}


pub open spec fn diagram_of(sig: Seq<SymbolMembers>, heap: Seq<DagNode>, a: usize) -> Seq<i32> {
    sig[node_symbol(heap[a as int])].sort_table.sort_diagram@
}

/// The state of the sort diagram of `a`'s symbol after reading the sorts of the first `k`
/// arguments of `a`.
pub open spec fn sort_state(sig: Seq<SymbolMembers>, heap: Seq<DagNode>, a: usize, k: int) -> int
    decreases k,
{
    if k <= 0 {
        0
    } else {
        let prev = sort_state(sig, heap, a, k - 1);
        let t = sort_index_at(heap, arg_at(heap, a, k - 1));
        diagram_of(sig, heap, a)[prev + t] as int
    }
}

/// Every step of the diagram walk for the first `k` arguments of `a` reads a known argument sort
/// and stays inside the diagram.
pub open spec fn sort_walk_defined(sig: Seq<SymbolMembers>, heap: Seq<DagNode>, a: usize, k: int) -> bool
    decreases k,
{
    if k <= 0 {
        true
    } else {
        let prev = sort_state(sig, heap, a, k - 1);
        let t = sort_index_at(heap, arg_at(heap, a, k - 1));
        &&& sort_walk_defined(sig, heap, a, k - 1)
        &&& prev >= 0
        &&& t != SORT_UNKNOWN
        &&& t >= 0
        &&& prev + t < diagram_of(sig, heap, a).len()
    }
}

/// The sort a node gets from its top symbol and the sorts of its arguments.
pub open spec fn base_sort(sig: Seq<SymbolMembers>, heap: Seq<DagNode>, a: usize) -> int {
    match heap[a as int] {
        DagNode::Free(_) => if arity_at(sig, heap, a) == 0 {
            diagram_of(sig, heap, a)[0] as int
        } else {
            sort_state(sig, heap, a, arity_at(sig, heap, a))
        },
        DagNode::Variable(_) => sig[node_symbol(heap[a as int])].sort_table.op_declarations@[0]@[0].sort_index as int,
    }
}

/// The base sort of `a` can be computed without leaving the sort tables.
pub open spec fn base_sort_defined(sig: Seq<SymbolMembers>, heap: Seq<DagNode>, a: usize) -> bool {
    match heap[a as int] {
        DagNode::Free(_) => if arity_at(sig, heap, a) == 0 {
            diagram_of(sig, heap, a).len() > 0
        } else {
            sort_walk_defined(sig, heap, a, arity_at(sig, heap, a))
        },
        DagNode::Variable(_) => {
            &&& sig[node_symbol(heap[a as int])].sort_table.op_declarations@.len() == 1
            &&& sig[node_symbol(heap[a as int])].sort_table.op_declarations@[0]@.len() == 1
        },
    }
}

impl DagHeap {
    /// Computes the sort of node `a` from its symbol and the sorts of its arguments, stores it
    /// in `a` and returns it.
    pub fn compute_base_sort(&mut self, sig: &Signature, a: usize) -> (r: i32)
        requires
            heap_wf(sig.symbols@, old(self).nodes@),
            a < old(self).nodes@.len(),
            base_sort_defined(sig.symbols@, old(self).nodes@, a),
        ensures
            r as int == base_sort(sig.symbols@, old(self).nodes@, a),
            final(self).nodes@ == heap_with_sort_index(old(self).nodes@, a, r),
    {
        assert(node_wf(sig.symbols@, self.nodes@[a as int], a as int));
        let sym = self.nodes[a].dag_node_members().top_symbol;
        let symbol = &sig.symbols[sym];
        match &self.nodes[a] {
            DagNode::Variable(_) => {
                let vs = &symbol.sort_table.op_declarations[0];
                let si = vs[0].sort_index;
                self.set_sort_index(a, si);
                return si;
            },
            DagNode::Free(_) => {},
        }
        let arg_count = symbol.arity as usize;
        if arg_count == 0 {
            let idx = symbol.sort_table.traverse(0, 0);
            self.set_sort_index(a, idx);
            return idx;
        }
        let mut state: i32 = 0;
        let mut i: usize = 0;
        while i < arg_count
            invariant
                heap_wf(sig.symbols@, self.nodes@),
                a < self.nodes@.len(),
                self.nodes@[a as int] is Free,
                symbol == sig.symbols@[node_symbol(self.nodes@[a as int])],
                arg_count == arity_at(sig.symbols@, self.nodes@, a),
                arg_count == args_len_at(self.nodes@, a),
                sort_walk_defined(sig.symbols@, self.nodes@, a, arg_count as int),
                i <= arg_count,
                state as int == sort_state(sig.symbols@, self.nodes@, a, i as int),
            decreases arg_count - i,
        {
            proof {
                lemma_walk_prefix(sig.symbols@, self.nodes@, a, i as int + 1, arg_count as int);
                assert(node_wf(sig.symbols@, self.nodes@[a as int], a as int));
                assert(arg_at(self.nodes@, a, i as int) < a);
            }
            let d = self.arg(a, i);
            let t = self.get_sort_index(d);
            state = symbol.sort_table.traverse(state as usize, t as usize);
            i = i + 1;
        }
        self.set_sort_index(a, state);
        state
    }
}

proof fn lemma_walk_prefix(sig: Seq<SymbolMembers>, heap: Seq<DagNode>, a: usize, j: int, k: int)
    requires
        0 <= j <= k,
        sort_walk_defined(sig, heap, a, k),
    ensures
        sort_walk_defined(sig, heap, a, j),
    decreases k - j,
{
    if j < k {
        lemma_walk_prefix(sig, heap, a, j, k - 1);
    }
}


/// `check_sort` can run on node `a` without failing: a node of unknown sort must have a
/// computable base sort that is known.
pub open spec fn check_sort_defined(sig: Seq<SymbolMembers>, heap: Seq<DagNode>, a: usize) -> bool {
    sort_index_at(heap, a) == SORT_UNKNOWN ==> {
        &&& base_sort_defined(sig, heap, a)
        &&& base_sort(sig, heap, a) != SORT_UNKNOWN
    }
}

/// The outcome of `check_sort` on node `a` and the heap after it.
pub open spec fn check_sort_result(sig: Seq<SymbolMembers>, heap: Seq<DagNode>, a: usize, bound_sort: Sort) -> (Outcome, Seq<DagNode>) {
    let known = sort_index_at(heap, a);
    let bs = base_sort(sig, heap, a);
    let free = sig[node_symbol(heap[a as int])].sort_constraint_free;
    if known != SORT_UNKNOWN {
        (if index_leq_sort(known as int, bound_sort) { Outcome::Success } else { Outcome::Failure }, heap)
    } else if index_leq_sort(bs, bound_sort) {
        (Outcome::Success, heap_with_sort_index(heap, a, if free { bs as i32 } else { SORT_UNKNOWN }))
    } else {
        (if free { Outcome::Failure } else { Outcome::Success }, heap_with_sort_index(heap, a, if free { bs as i32 } else { SORT_UNKNOWN }))
    }
}

impl DagHeap {
    /// Checks the sort of `a` against `bound_sort`. A known sort is simply compared. Otherwise
    /// the base sort is computed; if the symbol has sort constraints the sort is reset to
    /// unknown and the check succeeds, since the constraints may still lower the sort.
    pub fn check_sort(&mut self, sig: &Signature, a: usize, bound_sort: &Sort) -> (r: Outcome)
        requires
            heap_wf(sig.symbols@, old(self).nodes@),
            a < old(self).nodes@.len(),
            check_sort_defined(sig.symbols@, old(self).nodes@, a),
        ensures
            (r, final(self).nodes@) == check_sort_result(sig.symbols@, old(self).nodes@, a, *bound_sort),
    {
        assert(node_wf(sig.symbols@, self.nodes@[a as int], a as int));
        if self.get_sort_index(a) != SORT_UNKNOWN {
            return Outcome::from_bool(self.leq_sort(a, bound_sort));
        }
        let sym = self.nodes[a].dag_node_members().top_symbol;
        let free = sig.symbols[sym].sort_constraint_free;
        let ghost heap0 = self.nodes@;
        self.compute_base_sort(sig, a);
        assert(self.nodes@[a as int] == heap_with_sort_index(heap0, a, self.nodes@[a as int].dag_node_members_spec().sort_index)[a as int]);
        if self.leq_sort(a, bound_sort) {
            if !free {
                self.set_sort_index(a, SORT_UNKNOWN);
                assert(self.nodes@ =~= heap_with_sort_index(heap0, a, SORT_UNKNOWN));
            }
        } else {
            if free {
                return Outcome::Failure;
            }
            self.set_sort_index(a, SORT_UNKNOWN);
            assert(self.nodes@ =~= heap_with_sort_index(heap0, a, SORT_UNKNOWN));
        }
        Outcome::Success
    }
}


/// A position in the redex stack: a node that replaces argument `arg_index` of its parent.
#[derive(Copy, Clone, Debug)]
pub struct RedexPosition {
    pub dag_node: usize,
    pub arg_index: i32,
}

/// `c` is the copy that `shallow_copy` makes of `n`: same kind, symbol, arguments, sort index and
/// copy pointer, only the rewriting flags kept, no hash; a variable copy has an unknown sort and
/// no copy pointer.
pub open spec fn is_shallow_copy(c: DagNode, n: DagNode) -> bool {
    &&& node_symbol(c) == node_symbol(n)
    &&& node_args(c) == node_args(n)
    &&& members(c).flags.0 == members(n).flags.0 & rewriting_flags_bits()
    &&& members(c).hash == 0
    &&& match (c, n) {
        (DagNode::Free(_), DagNode::Free(_)) => {
            &&& members(c).sort_index == members(n).sort_index
            &&& members(c).copied_rc == members(n).copied_rc
        },
        (DagNode::Variable(vc), DagNode::Variable(vn)) => {
            &&& members(c).sort_index == SORT_UNKNOWN
            &&& members(c).copied_rc is None
            &&& vc.name == vn.name
            &&& vc.index == vn.index
        },
        _ => false,
    }
}

/// The arguments of a copy with replacements: scanning the arguments from `i` on, with the
/// replacements from `j` to `last` still to place.
pub open spec fn replaced_args(orig: Seq<usize>, stack: Seq<RedexPosition>, last: int, i: int, j: int) -> Seq<usize>
    decreases orig.len() - i,
{
    if i >= orig.len() {
        Seq::empty()
    } else if j <= last && stack[j].arg_index == i {
        seq![stack[j].dag_node].add(replaced_args(orig, stack, last, i + 1, j + 1))
    } else {
        seq![orig[i]].add(replaced_args(orig, stack, last, i + 1, j))
    }
}

/// The argument indices of `stack[first..=last]` increase strictly.
pub open spec fn increasing_indices(stack: Seq<RedexPosition>, first: int, last: int) -> bool {
    forall|k1: int, k2: int| first <= k1 < k2 <= last ==> #[trigger] stack[k1].arg_index < #[trigger] stack[k2].arg_index
}

/// Argument `p` of a copy with the replacements `stack[first..=last]`: the node of the entry
/// for argument `p`, if there is one, else the original argument.
pub open spec fn replaced_at(orig: Seq<usize>, stack: Seq<RedexPosition>, first: int, last: int, p: int) -> usize {
    if exists|k: int| first <= k <= last && stack[k].arg_index == p {
        stack[choose|k: int| first <= k <= last && stack[k].arg_index == p].dag_node
    } else {
        orig[p]
    }
}

/// With increasing argument indices, the scan puts at each position the replacement for it,
/// if any, and otherwise the original argument.
pub proof fn lemma_replaced_args(orig: Seq<usize>, stack: Seq<RedexPosition>, last: int, i: int, j: int)
    requires
        0 <= i <= orig.len(),
        0 <= j,
        last < stack.len(),
        increasing_indices(stack, j, last),
        forall|k: int| j <= k <= last ==> #[trigger] stack[k].arg_index >= i,
    ensures
        replaced_args(orig, stack, last, i, j).len() == orig.len() - i,
        forall|p: int| i <= p < orig.len() ==> #[trigger] replaced_args(orig, stack, last, i, j)[p - i] == replaced_at(orig, stack, j, last, p),
    decreases orig.len() - i,
{
    if i < orig.len() {
        if j <= last && stack[j].arg_index == i {
            assert forall|k: int| j + 1 <= k <= last implies #[trigger] stack[k].arg_index >= i + 1 by {
                assert(stack[j].arg_index < stack[k].arg_index);
            }
            lemma_replaced_args(orig, stack, last, i + 1, j + 1);
            let r = replaced_args(orig, stack, last, i, j);
            assert forall|p: int| i <= p < orig.len() implies #[trigger] r[p - i] == replaced_at(orig, stack, j, last, p) by {
                if p == i {
                    let k = choose|k: int| j <= k <= last && stack[k].arg_index == p;
                    if k != j {
                        assert(stack[j].arg_index < stack[k].arg_index);
                    }
                } else {
                    assert(r[p - i] == replaced_args(orig, stack, last, i + 1, j + 1)[p - (i + 1)]);
                    if exists|k: int| j <= k <= last && stack[k].arg_index == p {
                        let k = choose|k: int| j <= k <= last && stack[k].arg_index == p;
                        assert(k != j);
                        assert(j + 1 <= k <= last && stack[k].arg_index == p);
                        let k2 = choose|k: int| j + 1 <= k <= last && stack[k].arg_index == p;
                        if k < k2 {
                            assert(stack[k].arg_index < stack[k2].arg_index);
                        } else if k2 < k {
                            assert(stack[k2].arg_index < stack[k].arg_index);
                        }
                    } else {
                        assert(!exists|k: int| j + 1 <= k <= last && stack[k].arg_index == p);
                    }
                }
            }
        } else {
            assert forall|k: int| j <= k <= last implies #[trigger] stack[k].arg_index >= i + 1 by {
                if k > j {
                    assert(stack[j].arg_index < stack[k].arg_index);
                }
            }
            lemma_replaced_args(orig, stack, last, i + 1, j);
            let r = replaced_args(orig, stack, last, i, j);
            assert forall|p: int| i <= p < orig.len() implies #[trigger] r[p - i] == replaced_at(orig, stack, j, last, p) by {
                if p == i {
                    assert(!exists|k: int| j <= k <= last && stack[k].arg_index == p);
                } else {
                    assert(r[p - i] == replaced_args(orig, stack, last, i + 1, j)[p - (i + 1)]);
                }
            }
        }
    }
}

/// `heap` with one more node at its end keeps its well formedness.
pub proof fn lemma_push_wf(sig: Seq<SymbolMembers>, heap: Seq<DagNode>, n: DagNode)
    requires
        heap_wf(sig, heap),
        node_wf(sig, n, heap.len() as int),
    ensures
        heap_wf(sig, heap.push(n)),
{
    assert forall|i: int| 0 <= i < heap.push(n).len() implies #[trigger] node_wf(sig, heap.push(n)[i], i) by {
        if i < heap.len() {
            assert(node_wf(sig, heap[i], i));
        }
    }
}

/// The node that `shallow_copy` makes of `n`.
pub open spec fn shallow_copy_node(n: DagNode) -> DagNode {
    match n {
        DagNode::Free(f) => DagNode::Free(FreeDagNode { members: DagNodeMembers {
            flags: DagNodeFlags(f.members.flags.0 & rewriting_flags_bits()),
            hash: 0,
            ..f.members
        } }),
        DagNode::Variable(v) => DagNode::Variable(VariableDagNode {
            members: DagNodeMembers {
                top_symbol: v.members.top_symbol,
                args: v.members.args,
                flags: DagNodeFlags(v.members.flags.0 & rewriting_flags_bits()),
                sort_index: SORT_UNKNOWN,
                copied_rc: None,
                hash: 0,
            },
            name: v.name,
            index: v.index,
        }),
    }
}

impl DagHeap {
    /// Copies node `a` into a new node with the same arguments (a fresh argument buffer), keeping
    /// only its rewriting flags.
    pub fn shallow_copy(&mut self, sig: &Signature, a: usize) -> (r: usize)
        requires
            heap_wf(sig.symbols@, old(self).nodes@),
            a < old(self).nodes@.len(),
        ensures
            r == old(self).nodes@.len(),
            final(self).nodes@ == old(self).nodes@.push(shallow_copy_node(old(self).nodes@[a as int])),
            is_shallow_copy(final(self).nodes@[r as int], old(self).nodes@[a as int]),
            heap_wf(sig.symbols@, final(self).nodes@),
    {
        assert(node_wf(sig.symbols@, self.nodes@[a as int], a as int));
        let rf = DagNodeFlags::rewriting_flags();
        let node = match &self.nodes[a] {
            DagNode::Free(f) => DagNode::Free(FreeDagNode { members: DagNodeMembers {
                top_symbol: f.members.top_symbol,
                args: f.members.args.clone_buffer(),
                flags: f.members.flags.bitand(rf),
                sort_index: f.members.sort_index,
                copied_rc: f.members.copied_rc,
                hash: 0,
            } }),
            DagNode::Variable(v) => DagNode::Variable(VariableDagNode {
                members: DagNodeMembers {
                    top_symbol: v.members.top_symbol,
                    args: v.members.args.clone_buffer(),
                    flags: v.members.flags.bitand(rf),
                    sort_index: SORT_UNKNOWN,
                    copied_rc: None,
                    hash: 0,
                },
                name: v.name,
                index: v.index,
            }),
        };
        assert(node == shallow_copy_node(self.nodes@[a as int]));
        assert(is_shallow_copy(node, self.nodes@[a as int]));
        proof {
            lemma_push_wf(sig.symbols@, self.nodes@, node);
        }
        self.allocate(node)
    }
}


/// `c` is a fresh free node (no flags, sort index 0, no copy pointer, no hash) with symbol
/// `symbol` and arguments `args`.
pub open spec fn is_fresh_free(c: DagNode, symbol: int, args: Seq<usize>) -> bool {
    &&& c is Free
    &&& node_symbol(c) == symbol
    &&& node_args(c) == args
    &&& members(c).flags.0 == 0
    &&& members(c).sort_index == 0
    &&& members(c).copied_rc is None
    &&& members(c).hash == 0
}

impl DagHeap {
    /// A new free node like `a`, with argument `arg_index` replaced by `replacement`.
    pub fn copy_with_replacement(&mut self, sig: &Signature, a: usize, replacement: usize, arg_index: usize) -> (r: usize)
        requires
            heap_wf(sig.symbols@, old(self).nodes@),
            a < old(self).nodes@.len(),
            old(self).nodes@[a as int] is Free,
            replacement < old(self).nodes@.len(),
            arg_index < arity_at(sig.symbols@, old(self).nodes@, a),
        ensures
            r == old(self).nodes@.len(),
            final(self).nodes@.drop_last() == old(self).nodes@,
            is_fresh_free(
                final(self).nodes@[r as int],
                node_symbol(old(self).nodes@[a as int]),
                node_args(old(self).nodes@[a as int]).update(arg_index as int, replacement),
            ),
            heap_wf(sig.symbols@, final(self).nodes@),
    {
        assert(node_wf(sig.symbols@, self.nodes@[a as int], a as int));
        let symbol = self.nodes[a].dag_node_members().top_symbol;
        let mut new_dag_node = FreeDagNode::new(symbol);
        new_dag_node.members.args = self.nodes[a].dag_node_members().args.clone_buffer();
        new_dag_node.members.args.set(arg_index, replacement);
        let node = DagNode::Free(new_dag_node);
        proof {
            let n = node_args(node);
            assert forall|k: int| 0 <= k < n.len() implies #[trigger] n[k] < self.nodes@.len() by {
                if k != arg_index as int {
                    assert(node_args(self.nodes@[a as int])[k] < a);
                }
            }
            lemma_push_wf(sig.symbols@, self.nodes@, node);
        }
        let ghost h0 = self.nodes@;
        let r = self.allocate(node);
        assert(self.nodes@.drop_last() =~= h0);
        r
    }

    /// A new free node like `a`, with the arguments named by `stack[first..=last]` replaced:
    /// scanning the arguments in order, argument `i` is replaced by the next pending stack entry
    /// when that entry's argument index is `i`. Positions are compared as `i32`, so the arity
    /// is at most `i32::MAX`.
    pub fn copy_with_replacements(
        &mut self,
        sig: &Signature,
        a: usize,
        stack: &Vec<RedexPosition>,
        first_idx: usize,
        last_idx: usize,
    ) -> (r: usize)
        requires
            heap_wf(sig.symbols@, old(self).nodes@),
            a < old(self).nodes@.len(),
            old(self).nodes@[a as int] is Free,
            first_idx <= last_idx < stack@.len(),
            stack@[first_idx as int].arg_index < arity_at(sig.symbols@, old(self).nodes@, a),
            stack@[last_idx as int].arg_index < arity_at(sig.symbols@, old(self).nodes@, a),
            arity_at(sig.symbols@, old(self).nodes@, a) <= 0x7fff_ffff,
            forall|j: int| first_idx <= j <= last_idx ==> #[trigger] stack@[j].dag_node < old(self).nodes@.len(),
        ensures
            r == old(self).nodes@.len(),
            final(self).nodes@.drop_last() == old(self).nodes@,
            is_fresh_free(
                final(self).nodes@[r as int],
                node_symbol(old(self).nodes@[a as int]),
                replaced_args(node_args(old(self).nodes@[a as int]), stack@, last_idx as int, 0, first_idx as int),
            ),
            increasing_indices(stack@, first_idx as int, last_idx as int) && stack@[first_idx as int].arg_index >= 0 ==> {
                &&& node_args(final(self).nodes@[r as int]).len() == arity_at(sig.symbols@, old(self).nodes@, a)
                &&& forall|p: int| 0 <= p < arity_at(sig.symbols@, old(self).nodes@, a) ==> #[trigger] node_args(final(self).nodes@[r as int])[p]
                    == replaced_at(node_args(old(self).nodes@[a as int]), stack@, first_idx as int, last_idx as int, p)
            },
            heap_wf(sig.symbols@, final(self).nodes@),
    {
        assert(node_wf(sig.symbols@, self.nodes@[a as int], a as int));
        let ghost orig = node_args(self.nodes@[a as int]);
        let symbol = self.nodes[a].dag_node_members().top_symbol;
        let arg_count = sig.symbols[symbol].arity as usize;
        let mut new_dag_node = FreeDagNode::new(symbol);
        let stack_len = stack.len();
        let mut first = first_idx;
        let mut next_replacement_index: i32 = stack[first].arg_index;
        let mut i: usize = 0;
        while i < arg_count
            invariant
                heap_wf(sig.symbols@, self.nodes@),
                a < self.nodes@.len(),
                orig == node_args(self.nodes@[a as int]),
                orig.len() == arg_count,
                arg_count <= 0x7fff_ffff,
                i <= arg_count,
                first_idx <= first <= last_idx + 1,
                last_idx < stack@.len(),
                stack_len == stack@.len(),
                first <= last_idx ==> next_replacement_index == stack@[first as int].arg_index,
                first > last_idx ==> next_replacement_index == -1,
                node_list_items(new_dag_node.members.args).len() == i,
                node_list_items(new_dag_node.members.args).add(replaced_args(orig, stack@, last_idx as int, i as int, first as int))
                    == replaced_args(orig, stack@, last_idx as int, 0, first_idx as int),
                forall|k: int| 0 <= k < i ==> #[trigger] node_list_items(new_dag_node.members.args)[k] < self.nodes@.len(),
                forall|j: int| first_idx <= j <= last_idx ==> #[trigger] stack@[j].dag_node < self.nodes@.len(),
                new_dag_node.members.top_symbol == symbol,
                new_dag_node.members.flags.0 == 0,
                new_dag_node.members.sort_index == 0,
                new_dag_node.members.copied_rc is None,
                new_dag_node.members.hash == 0,
            decreases arg_count - i,
        {
            let ghost before = node_list_items(new_dag_node.members.args);
            let ghost rest = replaced_args(orig, stack@, last_idx as int, i as int, first as int);
            if i as i32 == next_replacement_index {
                assert(i as i32 >= 0);
                assert(first <= last_idx);
                new_dag_node.members.args.push(stack[first].dag_node);
                first = first + 1;
                next_replacement_index = if first <= last_idx {
                    stack[first].arg_index
                } else {
                    -1
                };
                proof {
                    assert(rest == seq![stack@[first - 1].dag_node].add(
                        replaced_args(orig, stack@, last_idx as int, i as int + 1, first as int)));
                    assert(before.push(stack@[first - 1].dag_node).add(replaced_args(orig, stack@, last_idx as int, i as int + 1, first as int))
                        =~= before.add(rest));
                }
            } else {
                assert(node_wf(sig.symbols@, self.nodes@[a as int], a as int));
                new_dag_node.members.args.push(self.arg(a, i));
                proof {
                    assert(rest == seq![orig[i as int]].add(
                        replaced_args(orig, stack@, last_idx as int, i as int + 1, first as int)));
                    assert(before.push(orig[i as int]).add(replaced_args(orig, stack@, last_idx as int, i as int + 1, first as int))
                        =~= before.add(rest));
                    assert(orig[i as int] < a);
                }
            }
            i = i + 1;
        }
        let node = DagNode::Free(new_dag_node);
        proof {
            assert(replaced_args(orig, stack@, last_idx as int, i as int, first as int) =~= Seq::<usize>::empty());
            assert(node_list_items(new_dag_node.members.args) =~= replaced_args(orig, stack@, last_idx as int, 0, first_idx as int));
            lemma_push_wf(sig.symbols@, self.nodes@, node);
            if increasing_indices(stack@, first_idx as int, last_idx as int) && stack@[first_idx as int].arg_index >= 0 {
                assert forall|k: int| first_idx <= k <= last_idx implies #[trigger] stack@[k].arg_index >= 0 by {
                    if k > first_idx {
                        assert(stack@[first_idx as int].arg_index < stack@[k].arg_index);
                    }
                }
                lemma_replaced_args(orig, stack@, last_idx as int, 0, first_idx as int);
            }
        }
        let ghost h0 = self.nodes@;
        let r = self.allocate(node);
        assert(self.nodes@.drop_last() =~= h0);
        r
    }
}


/// `c` is what `overwrite_with_clone` writes over `o` as a clone of `n`: `n`'s symbol, its flags
/// plus the rewriting flags, no copy pointer and no hash; a free clone keeps `n`'s sort index and
/// `o`'s own arguments, a variable clone takes `n`'s name and index and an unknown sort.
pub open spec fn is_clone_over(c: DagNode, n: DagNode, o: DagNode) -> bool {
    &&& node_symbol(c) == node_symbol(n)
    &&& members(c).flags.0 == members(n).flags.0 | rewriting_flags_bits()
    &&& members(c).copied_rc is None
    &&& members(c).hash == 0
    &&& match (c, n) {
        (DagNode::Free(_), DagNode::Free(_)) => {
            &&& members(c).sort_index == members(n).sort_index
            &&& node_args(c) == node_args(o)
        },
        (DagNode::Variable(vc), DagNode::Variable(vn)) => {
            &&& members(c).sort_index == SORT_UNKNOWN
            &&& node_args(c) == Seq::<usize>::empty()
            &&& vc.name == vn.name
            &&& vc.index == vn.index
        },
        _ => false,
    }
}

impl DagHeap {
    /// Overwrites node `target` in place with a clone of node `a` that is marked reduced,
    /// unrewritable, unstackable and ground. Both nodes must be of the same theory.
    pub fn overwrite_with_clone(&mut self, a: usize, target: usize)
        requires
            a < old(self).nodes@.len(),
            target < old(self).nodes@.len(),
            (old(self).nodes@[a as int] is Free) == (old(self).nodes@[target as int] is Free),
        ensures
            final(self).nodes@.len() == old(self).nodes@.len(),
            forall|k: int| 0 <= k < old(self).nodes@.len() && k != target ==> final(self).nodes@[k] == old(self).nodes@[k],
            is_clone_over(final(self).nodes@[target as int], old(self).nodes@[a as int], old(self).nodes@[target as int]),
    {
        let marks = DagNodeFlag::Reduced.bitor(DagNodeFlag::Unrewritable).bitor_flag(DagNodeFlag::Unstackable).bitor_flag(
            DagNodeFlag::Ground,
        );
        assert(1u32 | 4u32 | 8u32 | 16u32 == 29u32) by (bit_vector);
        let node = match &self.nodes[a] {
            DagNode::Free(f) => {
                let mut fdg = FreeDagNode::new(f.members.top_symbol);
                fdg.members.sort_index = f.members.sort_index;
                fdg.members.flags = DagNodeFlags(fdg.members.flags.0 | f.members.flags.bitor(marks).0);
                fdg.members.args = self.nodes[target].dag_node_members().args.new_ref();
                assert(0u32 | (f.members.flags.0 | 29u32) == f.members.flags.0 | 29u32) by (bit_vector);
                DagNode::Free(fdg)
            },
            DagNode::Variable(v) => {
                let mut vdg = VariableDagNode::new(v.members.top_symbol, v.name, v.index);
                vdg.members.flags = DagNodeFlags(vdg.members.flags.0 | v.members.flags.bitor(marks).0);
                assert(0u32 | (v.members.flags.0 | 29u32) == v.members.flags.0 | 29u32) by (bit_vector);
                DagNode::Variable(vdg)
            },
        };
        self.nodes.set(target, node);
    }
}


impl Signature {
    /// Whether distinct symbols have distinct hashes.
    pub fn well_formed(&self) -> (r: bool)
        ensures
            r == signature_wf(self.symbols@),
    {
        let n = self.symbols.len();
        let mut i: usize = 0;
        while i < n
            invariant
                n == self.symbols@.len(),
                i <= n,
                forall|p: int, q: int|
                    0 <= p < i && 0 <= q < n && p != q ==> #[trigger] self.symbols@[p].hash_value
                        != #[trigger] self.symbols@[q].hash_value,
            decreases n - i,
        {
            let mut j: usize = 0;
            while j < n
                invariant
                    n == self.symbols@.len(),
                    i < n,
                    j <= n,
                    forall|p: int, q: int|
                        0 <= p < i && 0 <= q < n && p != q ==> #[trigger] self.symbols@[p].hash_value
                            != #[trigger] self.symbols@[q].hash_value,
                    forall|q: int| 0 <= q < j && q != i ==> self.symbols@[i as int].hash_value != #[trigger] self.symbols@[q].hash_value,
                decreases n - j,
            {
                if j != i && self.symbols[i].hash_value == self.symbols[j].hash_value {
                    assert(!signature_wf(self.symbols@)) by {
                        assert(self.symbols@[i as int].hash_value == self.symbols@[j as int].hash_value);
                    }
                    return false;
                }
                j = j + 1;
            }
            i = i + 1;
        }
        true
    }
}

impl DagHeap {
    /// Whether node `i` is well formed at its position.
    fn node_well_formed(&self, sig: &Signature, i: usize) -> (r: bool)
        requires
            i < self.nodes@.len(),
        ensures
            r == node_wf(sig.symbols@, self.nodes@[i as int], i as int),
    {
        let m = self.nodes[i].dag_node_members();
        let s = m.top_symbol;
        if s >= sig.symbols.len() {
            return false;
        }
        let is_variable = match &self.nodes[i] {
            DagNode::Variable(_) => true,
            DagNode::Free(_) => false,
        };
        if is_variable != sig.symbols[s].is_variable {
            return false;
        }
        let n = m.args.len();
        if is_variable && n != 0 {
            return false;
        }
        if !is_variable && n as u64 != sig.symbols[s].arity as u64 {
            return false;
        }
        let mut k: usize = 0;
        while k < n
            invariant
                i < self.nodes@.len(),
                *m == members(self.nodes@[i as int]),
                n == node_args(self.nodes@[i as int]).len(),
                k <= n,
                forall|j: int| 0 <= j < k ==> #[trigger] node_args(self.nodes@[i as int])[j] < i,
            decreases n - k,
        {
            if m.args.get(k) >= i {
                return false;
            }
            k = k + 1;
        }
        true
    }

    /// Whether the heap is well formed for `sig`: the signature is, and every node is at its
    /// position.
    pub fn well_formed(&self, sig: &Signature) -> (r: bool)
        ensures
            r == heap_wf(sig.symbols@, self.nodes@),
    {
        if !sig.well_formed() {
            return false;
        }
        let n = self.nodes.len();
        let mut i: usize = 0;
        while i < n
            invariant
                n == self.nodes@.len(),
                i <= n,
                signature_wf(sig.symbols@),
                forall|j: int| 0 <= j < i ==> #[trigger] node_wf(sig.symbols@, self.nodes@[j], j),
            decreases n - i,
        {
            if !self.node_well_formed(sig, i) {
                return false;
            }
            i = i + 1;
        }
        true
    }
}

/// Setting a sort index keeps the heap well formed.
pub proof fn lemma_sort_index_update(sig: Seq<SymbolMembers>, heap: Seq<DagNode>, a: usize, s: i32)
    requires
        heap_wf(sig, heap),
        a < heap.len(),
    ensures
        heap_wf(sig, heap_with_sort_index(heap, a, s)),
{
    let h2 = heap_with_sort_index(heap, a, s);
    assert forall|i: int| 0 <= i < h2.len() implies #[trigger] node_wf(sig, h2[i], i) by {
        assert(node_wf(sig, heap[i], i));
    }
}


} // verus!
