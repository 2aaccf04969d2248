//! Terms whose top symbol is associative and commutative: their arguments with
//! multiplicities, and how they compare with nodes of the same theory.
use vstd::prelude::*;
use std::cmp::Ordering;
use crate::acu_dag_node::ACUDagNode;
use crate::dag_node::{DagHeap, DagNode, Signature, as_int, heap_wf};
use crate::red_black_tree::{arguments_in_heap, entries_are, lemma_entries_in_heap};
use crate::symbol::SymbolMembers;
use crate::term::{Term, TermStore, store_wf};
use crate::term_compare::compare_term_dag;
use crate::numeric::{signed, signed_count, signed_of, wrapped};
use crate::acu_automaton::claimed_len;

verus! {

/// An argument of an associative-commutative term: a subterm occurring `multiplicity` times.
#[derive(Copy, Clone, Debug)]
pub struct ACUTermRecord {
    pub term: usize,
    pub multiplicity: u32,
    /// The variable that abstracts the subterm, if it could enter this theory.
    pub abstraction_variable_index: u32,
    /// The subterm may collapse into this theory.
    pub collapse_to_our_theory: bool,
    /// The subterm may match the identity of this theory.
    pub match_our_identity: bool,
}

/// A term whose top symbol is associative and commutative.
#[derive(Clone, Debug)]
pub struct ACUTerm {
    pub args: Vec<ACUTermRecord>,
    pub unique_collapse_subterm_index: u32,
    pub top_symbol: usize,
}

/// Comparing the records with the entries from position `k` on, pair by pair while both have
/// one: by multiplicity, taken as `i32`, then by the term against the node.
pub open spec fn records_compare(
    sig: Seq<SymbolMembers>,
    ts: Seq<Term>,
    heap: Seq<DagNode>,
    recs: Seq<ACUTermRecord>,
    es: Seq<(usize, u32)>,
    k: int,
) -> Ordering
    decreases recs.len() - k,
{
    if k < 0 || k >= recs.len() || k >= es.len() {
        Ordering::Equal
    } else if signed(recs[k].multiplicity) < signed(es[k].1) {
        Ordering::Less
    } else if signed(recs[k].multiplicity) > signed(es[k].1) {
        Ordering::Greater
    } else {
        let r = compare_term_dag(sig, ts, heap, recs[k].term, es[k].0);
        if r != Ordering::Equal {
            r
        } else {
            records_compare(sig, ts, heap, recs, es, k + 1)
        }
    }
}

/// No difference of multiplicities taken as `i32` that the comparison from position `k` on
/// computes leaves the range of `i32`.
pub open spec fn records_differences_fit(
    sig: Seq<SymbolMembers>,
    ts: Seq<Term>,
    heap: Seq<DagNode>,
    recs: Seq<ACUTermRecord>,
    es: Seq<(usize, u32)>,
    k: int,
) -> bool
    decreases recs.len() - k,
{
    if k < 0 || k >= recs.len() || k >= es.len() {
        true
    } else {
        let d = signed(recs[k].multiplicity) - signed(es[k].1);
        &&& i32::MIN <= d <= i32::MAX
        &&& (d == 0 && compare_term_dag(sig, ts, heap, recs[k].term, es[k].0) == Ordering::Equal
            ==> records_differences_fit(sig, ts, heap, recs, es, k + 1))
    }
}

/// The order between an associative-commutative term and node: by the numbers of arguments,
/// taken as `i32`, then by the arguments with their multiplicities.
pub open spec fn acu_term_dag_compare(
    sig: Seq<SymbolMembers>,
    ts: Seq<Term>,
    heap: Seq<DagNode>,
    recs: Seq<ACUTermRecord>,
    count: nat,
    es: Seq<(usize, u32)>,
) -> Ordering {
    if wrapped(recs.len()) < wrapped(count) {
        Ordering::Less
    } else if wrapped(recs.len()) > wrapped(count) {
        Ordering::Greater
    } else {
        records_compare(sig, ts, heap, recs, es, 0)
    }
}

impl ACUTerm {
    /// The top symbol.
    pub fn symbol(&self) -> (r: usize)
        ensures
            r == self.top_symbol,
    {
        self.top_symbol
    }

    /// Such terms are always stable.
    pub fn is_stable(&self) -> (r: bool)
        ensures
            r,
    {
        true
    }

    /// Compares the arguments with those of node `other` of the same theory: first their
    /// numbers, then pair by pair the multiplicities and the terms against the nodes.
    pub fn compare_dag_arguments(&self, sig: &Signature, terms: &TermStore, heap: &DagHeap, other: &ACUDagNode) -> (r: Ordering)
        requires
            store_wf(sig.symbols@, terms.terms@),
            heap_wf(sig.symbols@, heap.nodes@),
            forall|k: int| 0 <= k < self.args@.len() ==> (#[trigger] self.args@[k]).term < terms.terms@.len(),
            arguments_in_heap(other.args, heap.nodes@.len()),
            i32::MIN <= wrapped(self.args@.len()) - wrapped(claimed_len(other.args)) <= i32::MAX,
            forall|es: Seq<(usize, u32)>| #[trigger] entries_are(other.args, es)
                ==> records_differences_fit(sig.symbols@, terms.terms@, heap.nodes@, self.args@, es, 0),
        ensures
            exists|es: Seq<(usize, u32)>| {
                &&& #[trigger] entries_are(other.args, es)
                &&& r == acu_term_dag_compare(sig.symbols@, terms.terms@, heap.nodes@, self.args@, claimed_len(other.args), es)
            },
    {
        let entries = other.args.iter();
        let ghost es = entries@;
        proof {
            lemma_entries_in_heap(other.args, es, heap.nodes@.len());
        }
        let ours = signed_count(self.args.len());
        let theirs = signed_count(other.args.len());
        let difference = ours - theirs;
        if difference < 0 {
            return Ordering::Less;
        } else if difference > 0 {
            return Ordering::Greater;
        }
        let mut k: usize = 0;
        while k < self.args.len() && k < entries.len()
            invariant
                store_wf(sig.symbols@, terms.terms@),
                heap_wf(sig.symbols@, heap.nodes@),
                forall|j: int| 0 <= j < self.args@.len() ==> (#[trigger] self.args@[j]).term < terms.terms@.len(),
                forall|j: int| 0 <= j < es.len() ==> (#[trigger] es[j]).0 < heap.nodes@.len(),
                entries@ == es,
                entries_are(other.args, es),
                acu_term_dag_compare(sig.symbols@, terms.terms@, heap.nodes@, self.args@, claimed_len(other.args), es)
                    == records_compare(sig.symbols@, terms.terms@, heap.nodes@, self.args@, es, 0),
                k <= self.args@.len(),
                records_compare(sig.symbols@, terms.terms@, heap.nodes@, self.args@, es, 0)
                    == records_compare(sig.symbols@, terms.terms@, heap.nodes@, self.args@, es, as_int(k)),
                records_differences_fit(sig.symbols@, terms.terms@, heap.nodes@, self.args@, es, as_int(k)),
            decreases self.args@.len() - k,
        {
            let record = self.args[k];
            let (node, multiplicity) = entries[k];
            let d = signed_count_difference(record.multiplicity, multiplicity);
            if d < 0 {
                return Ordering::Less;
            } else if d > 0 {
                return Ordering::Greater;
            }
            let c = terms.compare_dag_node(sig, heap, record.term, node);
            match c {
                Ordering::Equal => {},
                _ => {
                    return c;
                },
            }
            k = k + 1;
        }
        Ordering::Equal
    }
}

/// The difference of two multiplicities taken as `i32`.
fn signed_count_difference(a: u32, b: u32) -> (r: i32)
    requires
        i32::MIN <= signed(a) - signed(b) <= i32::MAX,
    ensures
        r == signed(a) - signed(b),
{
    signed_of(a) - signed_of(b)
}

} // verus!
