//! Comparing terms with terms and with DAG nodes.
use vstd::prelude::*;
use std::cmp::Ordering;
use crate::dag_node::{DagHeap, DagNode, Signature, heap_wf, in_heap, hash_at, args_len_at, arg_at, node_at, as_int};
use crate::dag_compare::{cmp_u32, compare_dags, reverse, not_greater};
use crate::symbol::SymbolMembers;
use crate::dag_ops::{represents, args_represent};
use crate::term::term_args;
use crate::substitution::{Substitution, MaybeDagNode, bindings_in_heap};
use crate::term::{
    Term, TermStore, store_wf, term_wf, in_store, thash_at, targs_len, targ_at, term_at, tsymbol_at,
    stable_at, term_symbol,
};

verus! {

/// The outcome of comparing a term with a node under a partial substitution.
#[derive(Copy, Clone, PartialEq, Eq, Debug)]
pub enum OrderingValue {
    Less,
    Equal,
    Greater,
    Unknown,
}

pub open spec fn ordering_value_of(o: Ordering) -> OrderingValue {
    match o {
        Ordering::Less => OrderingValue::Less,
        Ordering::Equal => OrderingValue::Equal,
        Ordering::Greater => OrderingValue::Greater,
    }
}

fn ordering_value(o: Ordering) -> (r: OrderingValue)
    ensures
        r == ordering_value_of(o),
{
    match o {
        Ordering::Less => OrderingValue::Less,
        Ordering::Equal => OrderingValue::Equal,
        Ordering::Greater => OrderingValue::Greater,
    }
}

fn compare_u32(x: u32, y: u32) -> (r: Ordering)
    ensures
        r == cmp_u32(x, y),
{
    if x < y {
        Ordering::Less
    } else if x > y {
        Ordering::Greater
    } else {
        Ordering::Equal
    }
}

/// The order on terms: by the hashes of the top symbols, then by the arguments from left to right.
pub open spec fn compare_terms(sig: Seq<SymbolMembers>, ts: Seq<Term>, a: usize, b: usize) -> Ordering
    decreases a + b, 2int, 0int,
{
    if !(in_store(sig, ts, a) && in_store(sig, ts, b)) {
        Ordering::Equal
    } else {
        let r = cmp_u32(thash_at(sig, ts, a), thash_at(sig, ts, b));
        if r != Ordering::Equal {
            r
        } else {
            compare_term_arguments(sig, ts, a, b)
        }
    }
}

pub open spec fn compare_term_arguments(sig: Seq<SymbolMembers>, ts: Seq<Term>, a: usize, b: usize) -> Ordering
    decreases a + b, 1int, 0int,
{
    if !(a < ts.len() && b < ts.len()) {
        Ordering::Equal
    } else {
        match (term_at(ts, a), term_at(ts, b)) {
            (Term::Variable(va), Term::Variable(vb)) => cmp_u32(va.name.id, vb.name.id),
            (Term::Variable(_), _) => Ordering::Less,
            (Term::Free(_), Term::Free(_)) => compare_term_args_from(sig, ts, a, b, 0),
            (Term::Free(_), _) => Ordering::Equal,
        }
    }
}

/// Compares the arguments of two free terms from position `k` on, as long as both have one.
pub open spec fn compare_term_args_from(sig: Seq<SymbolMembers>, ts: Seq<Term>, a: usize, b: usize, k: int) -> Ordering
    decreases a + b, 0int, targs_len(ts, a) - k,
{
    if !(a < ts.len() && b < ts.len()) || k < 0 || k >= targs_len(ts, a) || k >= targs_len(ts, b) {
        Ordering::Equal
    } else {
        let x = targ_at(ts, a, k);
        let y = targ_at(ts, b, k);
        if !(x < a && y < b) {
            Ordering::Equal
        } else {
            let r = compare_terms(sig, ts, x, y);
            if r != Ordering::Equal {
                r
            } else {
                compare_term_args_from(sig, ts, a, b, k + 1)
            }
        }
    }
}

/// The order between a term and a DAG node: by the hashes of the top symbols, then by the
/// arguments from left to right.
pub open spec fn compare_term_dag(sig: Seq<SymbolMembers>, ts: Seq<Term>, heap: Seq<DagNode>, t: usize, d: usize) -> Ordering
    decreases t + d, 2int, 0int,
{
    if !(in_store(sig, ts, t) && in_heap(sig, heap, d)) {
        Ordering::Equal
    } else if thash_at(sig, ts, t) == hash_at(sig, heap, d) {
        compare_dag_arguments(sig, ts, heap, t, d)
    } else {
        cmp_u32(thash_at(sig, ts, t), hash_at(sig, heap, d))
    }
}

pub open spec fn compare_dag_arguments(sig: Seq<SymbolMembers>, ts: Seq<Term>, heap: Seq<DagNode>, t: usize, d: usize) -> Ordering
    decreases t + d, 1int, 0int,
{
    if !(t < ts.len() && d < heap.len()) {
        Ordering::Equal
    } else {
        match (term_at(ts, t), node_at(heap, d)) {
            (Term::Variable(v), DagNode::Variable(vd)) => cmp_u32(v.name.id, vd.name.id),
            (Term::Variable(_), _) => Ordering::Less,
            (Term::Free(_), DagNode::Free(_)) => compare_term_dag_args_from(sig, ts, heap, t, d, 0),
            (Term::Free(_), _) => Ordering::Equal,
        }
    }
}

pub open spec fn compare_term_dag_args_from(
    sig: Seq<SymbolMembers>,
    ts: Seq<Term>,
    heap: Seq<DagNode>,
    t: usize,
    d: usize,
    k: int,
) -> Ordering
    decreases t + d, 0int, targs_len(ts, t) - k,
{
    if !(t < ts.len() && d < heap.len()) || k < 0 || k >= targs_len(ts, t) || k >= args_len_at(heap, d) {
        Ordering::Equal
    } else {
        let x = targ_at(ts, t, k);
        let y = arg_at(heap, d, k);
        if !(x < t && y < d) {
            Ordering::Equal
        } else {
            let r = compare_term_dag(sig, ts, heap, x, y);
            if r != Ordering::Equal {
                r
            } else {
                compare_term_dag_args_from(sig, ts, heap, t, d, k + 1)
            }
        }
    }
}

/// Compares a term with a node, given bindings for some of the term's variables: an unstable
/// variable compares by its binding, or is unknown when unbound; an unstable free term is
/// unknown; a stable term with the node's very symbol compares argument by argument; other
/// symbols decide by their hashes.
pub open spec fn partial_compare(
    sig: Seq<SymbolMembers>,
    ts: Seq<Term>,
    heap: Seq<DagNode>,
    s: Seq<MaybeDagNode>,
    t: usize,
    d: usize,
) -> OrderingValue
    decreases t, 1int, 0int,
{
    if !(in_store(sig, ts, t) && in_heap(sig, heap, d)) {
        OrderingValue::Unknown
    } else if !stable_at(ts, t) {
        match term_at(ts, t) {
            Term::Variable(v) => match crate::term::binding_of_index(s, v.index) {
                Some(b) => ordering_value_of(compare_dags(sig, heap, b, d)),
                None => OrderingValue::Unknown,
            },
            Term::Free(_) => OrderingValue::Unknown,
        }
    } else if tsymbol_at(ts, t) == crate::dag_node::node_symbol(node_at(heap, d)) {
        match (term_at(ts, t), node_at(heap, d)) {
            (Term::Free(_), DagNode::Free(_)) => partial_compare_args_from(sig, ts, heap, s, t, d, 0),
            _ => OrderingValue::Unknown,
        }
    } else if cmp_u32(thash_at(sig, ts, t), hash_at(sig, heap, d)) == Ordering::Less {
        OrderingValue::Less
    } else {
        OrderingValue::Greater
    }
}

pub open spec fn partial_compare_args_from(
    sig: Seq<SymbolMembers>,
    ts: Seq<Term>,
    heap: Seq<DagNode>,
    s: Seq<MaybeDagNode>,
    t: usize,
    d: usize,
    k: int,
) -> OrderingValue
    decreases t, 0int, targs_len(ts, t) - k,
{
    if !(t < ts.len() && d < heap.len()) || k < 0 || k >= targs_len(ts, t) || k >= args_len_at(heap, d) {
        OrderingValue::Equal
    } else {
        let x = targ_at(ts, t, k);
        let y = arg_at(heap, d, k);
        if !(x < t) {
            OrderingValue::Equal
        } else {
            let r = partial_compare(sig, ts, heap, s, x, y);
            if r != OrderingValue::Equal {
                r
            } else {
                partial_compare_args_from(sig, ts, heap, s, t, d, k + 1)
            }
        }
    }
}

impl TermStore {
    /// Compares two terms: by the hashes of their top symbols, then by their arguments.
    pub fn compare(&self, sig: &Signature, a: usize, b: usize) -> (r: Ordering)
        requires
            store_wf(sig.symbols@, self.terms@),
            a < self.terms@.len(),
            b < self.terms@.len(),
        ensures
            r == compare_terms(sig.symbols@, self.terms@, a, b),
        decreases a + b, 2int, 0int,
    {
        assert(term_wf(sig.symbols@, self.terms@[crate::dag_node::as_int(a)], crate::dag_node::as_int(a)));
        assert(term_wf(sig.symbols@, self.terms@[crate::dag_node::as_int(b)], crate::dag_node::as_int(b)));
        let r = compare_u32(self.symbol_hash_of(sig, a), self.symbol_hash_of(sig, b));
        match r {
            Ordering::Equal => self.compare_term_arguments(sig, a, b),
            _ => r,
        }
    }

    /// Compares two terms whose top symbols have the same hash.
    pub fn compare_term_arguments(&self, sig: &Signature, a: usize, b: usize) -> (r: Ordering)
        requires
            store_wf(sig.symbols@, self.terms@),
            a < self.terms@.len(),
            b < self.terms@.len(),
        ensures
            r == compare_term_arguments(sig.symbols@, self.terms@, a, b),
        decreases a + b, 1int, 0int,
    {
        match (&self.terms[a], &self.terms[b]) {
            (Term::Variable(va), Term::Variable(vb)) => compare_u32(va.name.id, vb.name.id),
            (Term::Variable(_), _) => Ordering::Less,
            (Term::Free(_), Term::Free(_)) => self.compare_term_args_from(sig, a, b, 0),
            (Term::Free(_), _) => Ordering::Equal,
        }
    }

    fn compare_term_args_from(&self, sig: &Signature, a: usize, b: usize, k: usize) -> (r: Ordering)
        requires
            store_wf(sig.symbols@, self.terms@),
            a < self.terms@.len(),
            b < self.terms@.len(),
        ensures
            r == compare_term_args_from(sig.symbols@, self.terms@, a, b, crate::dag_node::as_int(k)),
        decreases a + b, 0int, targs_len(self.terms@, a) - k,
    {
        if k >= self.arg_count(a) || k >= self.arg_count(b) {
            return Ordering::Equal;
        }
        let x = self.arg(a, k);
        let y = self.arg(b, k);
        if !(x < a && y < b) {
            return Ordering::Equal;
        }
        let r = self.compare(sig, x, y);
        match r {
            Ordering::Equal => self.compare_term_args_from(sig, a, b, k + 1),
            _ => r,
        }
    }

    /// Compares term `t` with DAG node `d`.
    pub fn compare_dag_node(&self, sig: &Signature, heap: &DagHeap, t: usize, d: usize) -> (r: Ordering)
        requires
            store_wf(sig.symbols@, self.terms@),
            heap_wf(sig.symbols@, heap.nodes@),
            t < self.terms@.len(),
            d < heap.nodes@.len(),
        ensures
            r == compare_term_dag(sig.symbols@, self.terms@, heap.nodes@, t, d),
        decreases t + d, 2int, 0int,
    {
        assert(term_wf(sig.symbols@, self.terms@[crate::dag_node::as_int(t)], crate::dag_node::as_int(t)));
        assert(crate::dag_node::node_wf(sig.symbols@, heap.nodes@[crate::dag_node::as_int(d)], crate::dag_node::as_int(d)));
        let ht = self.symbol_hash_of(sig, t);
        let hd = heap.symbol_hash_of(sig, d);
        if ht == hd {
            self.compare_dag_arguments(sig, heap, t, d)
        } else {
            compare_u32(ht, hd)
        }
    }

    /// Compares term `t` with DAG node `d` whose top symbol has the same hash.
    pub fn compare_dag_arguments(&self, sig: &Signature, heap: &DagHeap, t: usize, d: usize) -> (r: Ordering)
        requires
            store_wf(sig.symbols@, self.terms@),
            heap_wf(sig.symbols@, heap.nodes@),
            t < self.terms@.len(),
            d < heap.nodes@.len(),
        ensures
            r == compare_dag_arguments(sig.symbols@, self.terms@, heap.nodes@, t, d),
        decreases t + d, 1int, 0int,
    {
        match (&self.terms[t], &heap.nodes[d]) {
            (Term::Variable(v), DagNode::Variable(vd)) => compare_u32(v.name.id, vd.name.id),
            (Term::Variable(_), _) => Ordering::Less,
            (Term::Free(_), DagNode::Free(_)) => self.compare_term_dag_args_from(sig, heap, t, d, 0),
            (Term::Free(_), _) => Ordering::Equal,
        }
    }

    fn compare_term_dag_args_from(&self, sig: &Signature, heap: &DagHeap, t: usize, d: usize, k: usize) -> (r: Ordering)
        requires
            store_wf(sig.symbols@, self.terms@),
            heap_wf(sig.symbols@, heap.nodes@),
            t < self.terms@.len(),
            d < heap.nodes@.len(),
        ensures
            r == compare_term_dag_args_from(sig.symbols@, self.terms@, heap.nodes@, t, d, crate::dag_node::as_int(k)),
        decreases t + d, 0int, targs_len(self.terms@, t) - k,
    {
        if k >= self.arg_count(t) || k >= heap.len(d) {
            return Ordering::Equal;
        }
        let x = self.arg(t, k);
        let y = heap.arg(d, k);
        if !(x < t && y < d) {
            return Ordering::Equal;
        }
        let r = self.compare_dag_node(sig, heap, x, y);
        match r {
            Ordering::Equal => self.compare_term_dag_args_from(sig, heap, t, d, k + 1),
            _ => r,
        }
    }

    /// Compares term `t` with node `d` under the partial substitution `solution`.
    pub fn partial_compare(&self, sig: &Signature, heap: &DagHeap, solution: &Substitution, t: usize, d: usize) -> (r: OrderingValue)
        requires
            store_wf(sig.symbols@, self.terms@),
            heap_wf(sig.symbols@, heap.nodes@),
            bindings_in_heap(solution.bindings@, heap.nodes@.len()),
            t < self.terms@.len(),
            d < heap.nodes@.len(),
        ensures
            r == partial_compare(sig.symbols@, self.terms@, heap.nodes@, solution.bindings@, t, d),
        decreases t, 1int, 0int,
    {
        assert(term_wf(sig.symbols@, self.terms@[crate::dag_node::as_int(t)], crate::dag_node::as_int(t)));
        assert(crate::dag_node::node_wf(sig.symbols@, heap.nodes@[crate::dag_node::as_int(d)], crate::dag_node::as_int(d)));
        if !self.is_stable(t) {
            return match &self.terms[t] {
                Term::Variable(v) => {
                    if v.index >= 0 && crate::term::slot_below(v.index, solution.len()) {
                        match solution.get(crate::term::slot_of(v.index)) {
                            Some(b) => ordering_value(heap.compare(sig, b, d)),
                            None => OrderingValue::Unknown,
                        }
                    } else {
                        OrderingValue::Unknown
                    }
                },
                Term::Free(_) => OrderingValue::Unknown,
            };
        }
        if self.symbol_of(t) == heap.nodes[d].dag_node_members().top_symbol {
            return match (&self.terms[t], &heap.nodes[d]) {
                (Term::Free(_), DagNode::Free(_)) => self.partial_compare_args_from(sig, heap, solution, t, d, 0),
                _ => OrderingValue::Unknown,
            };
        }
        match compare_u32(self.symbol_hash_of(sig, t), heap.symbol_hash_of(sig, d)) {
            Ordering::Less => OrderingValue::Less,
            _ => OrderingValue::Greater,
        }
    }

    fn partial_compare_args_from(&self, sig: &Signature, heap: &DagHeap, solution: &Substitution, t: usize, d: usize, k: usize) -> (r: OrderingValue)
        requires
            store_wf(sig.symbols@, self.terms@),
            heap_wf(sig.symbols@, heap.nodes@),
            bindings_in_heap(solution.bindings@, heap.nodes@.len()),
            t < self.terms@.len(),
            d < heap.nodes@.len(),
        ensures
            r == partial_compare_args_from(sig.symbols@, self.terms@, heap.nodes@, solution.bindings@, t, d, crate::dag_node::as_int(k)),
        decreases t, 0int, targs_len(self.terms@, t) - k,
    {
        if k >= self.arg_count(t) || k >= heap.len(d) {
            return OrderingValue::Equal;
        }
        let x = self.arg(t, k);
        let y = heap.arg(d, k);
        if !(x < t) {
            return OrderingValue::Equal;
        }
        assert(crate::dag_node::node_wf(sig.symbols@, heap.nodes@[crate::dag_node::as_int(d)], crate::dag_node::as_int(d)));
        let r = self.partial_compare(sig, heap, solution, x, y);
        match r {
            OrderingValue::Equal => self.partial_compare_args_from(sig, heap, solution, t, d, k + 1),
            _ => r,
        }
    }
}

/// Term `t` and node `d` are equal in the order.
pub open spec fn term_dag_equal(sig: Seq<SymbolMembers>, ts: Seq<Term>, heap: Seq<DagNode>, t: usize, d: usize) -> bool {
    compare_term_dag(sig, ts, heap, t, d) == Ordering::Equal
}

impl TermStore {
    /// Whether term `t` and node `d` are equal.
    pub fn equal_dag_node(&self, sig: &Signature, heap: &DagHeap, t: usize, d: usize) -> (r: bool)
        requires
            store_wf(sig.symbols@, self.terms@),
            heap_wf(sig.symbols@, heap.nodes@),
            t < self.terms@.len(),
            d < heap.nodes@.len(),
        ensures
            r == term_dag_equal(sig.symbols@, self.terms@, heap.nodes@, t, d),
    {
        match self.compare_dag_node(sig, heap, t, d) {
            Ordering::Equal => true,
            _ => false,
        }
    }

    /// Whether the arguments of term `t` and node `d` are equal, their top symbols taken to
    /// agree.
    pub fn dag_arguments_equal(&self, sig: &Signature, heap: &DagHeap, t: usize, d: usize) -> (r: bool)
        requires
            store_wf(sig.symbols@, self.terms@),
            heap_wf(sig.symbols@, heap.nodes@),
            t < self.terms@.len(),
            d < heap.nodes@.len(),
        ensures
            r == term_dag_arguments_equal(sig.symbols@, self.terms@, heap.nodes@, t, d),
    {
        match self.compare_dag_arguments(sig, heap, t, d) {
            Ordering::Equal => true,
            _ => false,
        }
    }
}

/// The arguments of term `t` and node `d` are equal in the order.
pub open spec fn term_dag_arguments_equal(sig: Seq<SymbolMembers>, ts: Seq<Term>, heap: Seq<DagNode>, t: usize, d: usize) -> bool {
    compare_dag_arguments(sig, ts, heap, t, d) == Ordering::Equal
}


/// A term that stands for a DAG node (as `termify` builds one) compares equal to it.
pub proof fn lemma_represented_compares_equal(
    sig: Seq<SymbolMembers>,
    ts: Seq<Term>,
    heap: Seq<DagNode>,
    t: usize,
    a: usize,
)
    requires
        store_wf(sig, ts),
        heap_wf(sig, heap),
        represents(ts, t, heap, a),
    ensures
        compare_term_dag(sig, ts, heap, t, a) == Ordering::Equal,
    decreases a, 1int, 0int,
{
    assert(term_wf(sig, ts[as_int(t)], as_int(t)));
    assert(crate::dag_node::node_wf(sig, heap[as_int(a)], as_int(a)));
    match (term_at(ts, t), node_at(heap, a)) {
        (Term::Free(_), DagNode::Free(_)) => {
            lemma_represented_args_equal(sig, ts, heap, t, a, 0);
        },
        _ => {},
    }
}

proof fn lemma_represented_args_equal(
    sig: Seq<SymbolMembers>,
    ts: Seq<Term>,
    heap: Seq<DagNode>,
    t: usize,
    a: usize,
    k: int,
)
    requires
        store_wf(sig, ts),
        heap_wf(sig, heap),
        represents(ts, t, heap, a),
        0 <= k,
    ensures
        compare_term_dag_args_from(sig, ts, heap, t, a, k) == Ordering::Equal,
    decreases a, 0int, targs_len(ts, t) - k,
{
    if k < targs_len(ts, t) && k < args_len_at(heap, a) {
        assert(term_wf(sig, ts[as_int(t)], as_int(t)));
        assert(crate::dag_node::node_wf(sig, heap[as_int(a)], as_int(a)));
        let x = targ_at(ts, t, k);
        let y = arg_at(heap, a, k);
        assert(term_args(ts[as_int(t)])[k] < t);
        assert(crate::dag_node::node_args(heap[as_int(a)])[k] < a);
        lemma_args_represent_at(ts, t, heap, a, args_len_at(heap, a), k);
        lemma_represented_compares_equal(sig, ts, heap, x, y);
        lemma_represented_args_equal(sig, ts, heap, t, a, k + 1);
    }
}

proof fn lemma_args_represent_at(ts: Seq<Term>, t: usize, heap: Seq<DagNode>, a: usize, n: int, k: int)
    requires
        args_represent(ts, t, heap, a, n),
        0 <= k < n,
        arg_at(heap, a, k) < a,
    ensures
        represents(ts, term_args(ts[as_int(t)])[k], heap, arg_at(heap, a, k)),
    decreases n,
{
    if k < n - 1 {
        lemma_args_represent_at(ts, t, heap, a, n - 1, k);
    }
}

/// Every term is equal to itself.
pub proof fn lemma_compare_terms_reflexive(sig: Seq<SymbolMembers>, ts: Seq<Term>, a: usize)
    requires
        store_wf(sig, ts),
        a < ts.len(),
    ensures
        compare_terms(sig, ts, a, a) == Ordering::Equal,
    decreases a, 1int, 0int,
{
    assert(term_wf(sig, ts[as_int(a)], as_int(a)));
    match term_at(ts, a) {
        Term::Free(_) => lemma_term_args_reflexive(sig, ts, a, 0),
        Term::Variable(_) => {},
    }
}

proof fn lemma_term_args_reflexive(sig: Seq<SymbolMembers>, ts: Seq<Term>, a: usize, k: int)
    requires
        store_wf(sig, ts),
        a < ts.len(),
        0 <= k,
    ensures
        compare_term_args_from(sig, ts, a, a, k) == Ordering::Equal,
    decreases a, 0int, targs_len(ts, a) - k,
{
    if k < targs_len(ts, a) {
        assert(term_wf(sig, ts[as_int(a)], as_int(a)));
        assert(term_args(ts[as_int(a)])[k] < a);
        lemma_compare_terms_reflexive(sig, ts, targ_at(ts, a, k));
        lemma_term_args_reflexive(sig, ts, a, k + 1);
    }
}


/// Swapping the two terms reverses the order.
pub proof fn lemma_compare_terms_antisymmetric(sig: Seq<SymbolMembers>, ts: Seq<Term>, a: usize, b: usize)
    requires
        store_wf(sig, ts),
        a < ts.len(),
        b < ts.len(),
    ensures
        compare_terms(sig, ts, a, b) == reverse(compare_terms(sig, ts, b, a)),
    decreases a + b, 1int, 0int,
{
    assert(term_wf(sig, ts[as_int(a)], as_int(a)));
    assert(term_wf(sig, ts[as_int(b)], as_int(b)));
    if thash_at(sig, ts, a) == thash_at(sig, ts, b) {
        assert(term_symbol(ts[as_int(a)]) == term_symbol(ts[as_int(b)]));
        match (term_at(ts, a), term_at(ts, b)) {
            (Term::Free(_), Term::Free(_)) => lemma_term_args_antisymmetric(sig, ts, a, b, 0),
            _ => {},
        }
    }
}

proof fn lemma_term_args_antisymmetric(sig: Seq<SymbolMembers>, ts: Seq<Term>, a: usize, b: usize, k: int)
    requires
        store_wf(sig, ts),
        a < ts.len(),
        b < ts.len(),
        0 <= k,
    ensures
        compare_term_args_from(sig, ts, a, b, k) == reverse(compare_term_args_from(sig, ts, b, a, k)),
    decreases a + b, 0int, targs_len(ts, a) - k,
{
    assert(term_wf(sig, ts[as_int(a)], as_int(a)));
    assert(term_wf(sig, ts[as_int(b)], as_int(b)));
    if k < targs_len(ts, a) && k < targs_len(ts, b) {
        let x = targ_at(ts, a, k);
        let y = targ_at(ts, b, k);
        assert(term_args(ts[as_int(a)])[k] < a);
        assert(term_args(ts[as_int(b)])[k] < b);
        lemma_compare_terms_antisymmetric(sig, ts, x, y);
        lemma_term_args_antisymmetric(sig, ts, a, b, k + 1);
    }
}

/// The order on terms is transitive: `a <= b` and `b <= c` give `a <= c`, strictly when either
/// step is strict.
pub proof fn lemma_compare_terms_transitive(sig: Seq<SymbolMembers>, ts: Seq<Term>, a: usize, b: usize, c: usize)
    requires
        store_wf(sig, ts),
        a < ts.len(),
        b < ts.len(),
        c < ts.len(),
        not_greater(compare_terms(sig, ts, a, b)),
        not_greater(compare_terms(sig, ts, b, c)),
    ensures
        not_greater(compare_terms(sig, ts, a, c)),
        (compare_terms(sig, ts, a, b) == Ordering::Less || compare_terms(sig, ts, b, c) == Ordering::Less)
            ==> compare_terms(sig, ts, a, c) == Ordering::Less,
    decreases a + b + c, 1int, 0int,
{
    assert(term_wf(sig, ts[as_int(a)], as_int(a)));
    assert(term_wf(sig, ts[as_int(b)], as_int(b)));
    assert(term_wf(sig, ts[as_int(c)], as_int(c)));
    if thash_at(sig, ts, a) == thash_at(sig, ts, b) && thash_at(sig, ts, b) == thash_at(sig, ts, c) {
        assert(term_symbol(ts[as_int(a)]) == term_symbol(ts[as_int(b)]));
        assert(term_symbol(ts[as_int(b)]) == term_symbol(ts[as_int(c)]));
        match (term_at(ts, a), term_at(ts, b), term_at(ts, c)) {
            (Term::Free(_), Term::Free(_), Term::Free(_)) => lemma_term_args_transitive(sig, ts, a, b, c, 0),
            _ => {},
        }
    }
}

proof fn lemma_term_args_transitive(sig: Seq<SymbolMembers>, ts: Seq<Term>, a: usize, b: usize, c: usize, k: int)
    requires
        store_wf(sig, ts),
        a < ts.len(),
        b < ts.len(),
        c < ts.len(),
        term_at(ts, a) is Free,
        term_symbol(ts[as_int(a)]) == term_symbol(ts[as_int(b)]),
        term_symbol(ts[as_int(b)]) == term_symbol(ts[as_int(c)]),
        0 <= k,
        not_greater(compare_term_args_from(sig, ts, a, b, k)),
        not_greater(compare_term_args_from(sig, ts, b, c, k)),
    ensures
        not_greater(compare_term_args_from(sig, ts, a, c, k)),
        (compare_term_args_from(sig, ts, a, b, k) == Ordering::Less || compare_term_args_from(sig, ts, b, c, k)
            == Ordering::Less) ==> compare_term_args_from(sig, ts, a, c, k) == Ordering::Less,
    decreases a + b + c, 0int, targs_len(ts, a) - k,
{
    assert(term_wf(sig, ts[as_int(a)], as_int(a)));
    assert(term_wf(sig, ts[as_int(b)], as_int(b)));
    assert(term_wf(sig, ts[as_int(c)], as_int(c)));
    if k < targs_len(ts, a) {
        let x = targ_at(ts, a, k);
        let y = targ_at(ts, b, k);
        let z = targ_at(ts, c, k);
        assert(term_args(ts[as_int(a)])[k] < a);
        assert(term_args(ts[as_int(b)])[k] < b);
        assert(term_args(ts[as_int(c)])[k] < c);
        lemma_compare_terms_transitive(sig, ts, x, y, z);
        if compare_terms(sig, ts, x, y) == Ordering::Equal && compare_terms(sig, ts, y, z) == Ordering::Equal {
            lemma_compare_terms_antisymmetric(sig, ts, x, y);
            lemma_compare_terms_antisymmetric(sig, ts, y, z);
            lemma_compare_terms_antisymmetric(sig, ts, x, z);
            lemma_compare_terms_transitive(sig, ts, z, y, x);
            lemma_term_args_transitive(sig, ts, a, b, c, k + 1);
        }
    }
}

} // verus!
