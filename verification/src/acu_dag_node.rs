//! Nodes of the associative-commutative theory: a top symbol and the arguments with their
//! multiplicities, as a list or as a tree.
use vstd::prelude::*;
use std::cmp::Ordering;
use crate::acu::NormalizationStatus;
use crate::dag_node::{DagHeap, DagNode, Signature, as_int, heap_wf};
use crate::red_black_tree::{ACUArguments, DagPair, RedBlackTree, key_order, pair_of};
use crate::symbol::{SORT_UNKNOWN, SymbolMembers};
use crate::term::{Term, TermStore, store_wf};
use crate::term_compare::{OrderingValue, compare_term_dag, partial_compare, term_dag_equal};
use crate::substitution::{MaybeDagNode, Substitution, bindings_in_heap};
use crate::numeric::{index_of, index_u32, index_usize};

verus! {

/// A node whose top symbol is associative and commutative (with identity).
pub struct ACUDagNode {
    pub top_symbol: usize,
    pub args: ACUArguments,
    pub is_reduced: bool,
    pub sort_index: i32,
    pub normalization_status: NormalizationStatus,
}

/// The binary search for term `t` among the argument pairs `args[lower..upper]`: the position
/// of the argument it stops at, equal to `t`, or `None` when the range runs empty. The middle
/// argument is compared with `t`; a term before it goes on to the lower half, one after it to
/// the upper half.
pub open spec fn search_run(
    sig: Seq<SymbolMembers>,
    ts: Seq<Term>,
    heap: Seq<DagNode>,
    t: usize,
    args: Seq<DagPair>,
    lower: int,
    upper: int,
) -> Option<int>
    decreases upper - lower,
{
    if lower < 0 || upper > args.len() || lower >= upper {
        None
    } else {
        let probe = lower + (upper - lower) / 2;
        let r = compare_term_dag(sig, ts, heap, t, args[probe].dag_node);
        if r == Ordering::Equal {
            Some(probe)
        } else if r == Ordering::Less {
            search_run(sig, ts, heap, t, args, lower, probe)
        } else {
            search_run(sig, ts, heap, t, args, probe + 1, upper)
        }
    }
}

/// Term `t` may match node `d` under the bindings `sol`: they are equal, or their order is
/// not known yet.
pub open spec fn potential_match_at(sig: Seq<SymbolMembers>, ts: Seq<Term>, heap: Seq<DagNode>, sol: Seq<MaybeDagNode>, t: usize, d: usize) -> bool {
    ||| partial_compare(sig, ts, heap, sol, t, d) == OrderingValue::Equal
    ||| partial_compare(sig, ts, heap, sol, t, d) == OrderingValue::Unknown
}

/// The number of argument pairs.
pub open spec fn arg_count(args: Seq<DagPair>) -> int {
    args.len() as int
}

/// The binary search for term `t` over all of `args`.
pub open spec fn full_search(sig: Seq<SymbolMembers>, ts: Seq<Term>, heap: Seq<DagNode>, t: usize, args: Seq<DagPair>) -> Option<int> {
    search_run(sig, ts, heap, t, args, 0, arg_count(args))
}

/// The arguments are in order as seen from term `t`: an argument after one that `t` comes
/// before also comes after `t`, and an argument before one that `t` comes after also comes
/// before `t`.
pub open spec fn ordered_for(sig: Seq<SymbolMembers>, ts: Seq<Term>, heap: Seq<DagNode>, t: usize, args: Seq<DagPair>) -> bool {
    forall|i: int, j: int| 0 <= i < j < args.len() ==> {
        &&& compare_term_dag(sig, ts, heap, t, #[trigger] args[i].dag_node) == Ordering::Less
            ==> compare_term_dag(sig, ts, heap, t, #[trigger] args[j].dag_node) == Ordering::Less
        &&& compare_term_dag(sig, ts, heap, t, args[j].dag_node) == Ordering::Greater
            ==> compare_term_dag(sig, ts, heap, t, args[i].dag_node) == Ordering::Greater
    }
}

/// What the search finds: a position in the range whose argument equals `t`; and, on
/// arguments in order as seen from `t`, no result only when no argument in the range equals `t`.
pub proof fn lemma_search_run(
    sig: Seq<SymbolMembers>,
    ts: Seq<Term>,
    heap: Seq<DagNode>,
    t: usize,
    args: Seq<DagPair>,
    lower: int,
    upper: int,
)
    requires
        0 <= lower,
        upper <= args.len(),
    ensures
        search_run(sig, ts, heap, t, args, lower, upper) matches Some(p) ==> {
            &&& lower <= p < upper
            &&& compare_term_dag(sig, ts, heap, t, args[p].dag_node) == Ordering::Equal
        },
        search_run(sig, ts, heap, t, args, lower, upper) is None && ordered_for(sig, ts, heap, t, args) ==> forall|i: int|
            lower <= i < upper ==> compare_term_dag(sig, ts, heap, t, #[trigger] args[i].dag_node) != Ordering::Equal,
    decreases upper - lower,
{
    if lower < upper {
        let probe = lower + (upper - lower) / 2;
        let r = compare_term_dag(sig, ts, heap, t, args[probe].dag_node);
        if r == Ordering::Less {
            lemma_search_run(sig, ts, heap, t, args, lower, probe);
            if search_run(sig, ts, heap, t, args, lower, upper) is None && ordered_for(sig, ts, heap, t, args) {
                assert forall|i: int| lower <= i < upper implies compare_term_dag(sig, ts, heap, t, #[trigger] args[i].dag_node) != Ordering::Equal by {
                    if i > probe {
                        assert(compare_term_dag(sig, ts, heap, t, args[i].dag_node) == Ordering::Less);
                    }
                }
            }
        } else if r == Ordering::Greater {
            lemma_search_run(sig, ts, heap, t, args, probe + 1, upper);
            if search_run(sig, ts, heap, t, args, lower, upper) is None && ordered_for(sig, ts, heap, t, args) {
                assert forall|i: int| lower <= i < upper implies compare_term_dag(sig, ts, heap, t, #[trigger] args[i].dag_node) != Ordering::Equal by {
                    if i < probe {
                        assert(compare_term_dag(sig, ts, heap, t, args[i].dag_node) == Ordering::Greater);
                    }
                }
            }
        }
    }
}

/// The position the search over all arguments finds is one of them.
pub proof fn lemma_full_search_in_range(sig: Seq<SymbolMembers>, ts: Seq<Term>, heap: Seq<DagNode>, t: usize, args: Seq<DagPair>)
    ensures
        full_search(sig, ts, heap, t, args) matches Some(q) ==> 0 <= q < args.len(),
{
    lemma_search_run(sig, ts, heap, t, args, 0, arg_count(args));
}

/// The search for the first argument among `args[lower..upper]` that term `t` may match under
/// the partial bindings `sol`, with `first` the least position found so far that may match: an
/// argument that `t` comes after sends the search up, one it comes before sends it down, an
/// equal one is the answer, and one whose order is not known yet is recorded and the search
/// goes on below it.
pub open spec fn potential_run(
    sig: Seq<SymbolMembers>,
    ts: Seq<Term>,
    heap: Seq<DagNode>,
    sol: Seq<MaybeDagNode>,
    t: usize,
    args: Seq<DagPair>,
    lower: int,
    upper: int,
    first: int,
) -> int
    decreases upper - lower,
{
    if lower < 0 || upper > args.len() || lower >= upper {
        first
    } else {
        let probe = lower + (upper - lower) / 2;
        match partial_compare(sig, ts, heap, sol, t, args[probe].dag_node) {
            OrderingValue::Greater => potential_run(sig, ts, heap, sol, t, args, probe + 1, upper, first),
            OrderingValue::Less => potential_run(sig, ts, heap, sol, t, args, lower, probe, first),
            OrderingValue::Equal => probe,
            OrderingValue::Unknown => potential_run(sig, ts, heap, sol, t, args, lower, probe, probe),
        }
    }
}

/// The search ends at `first` or at a position in the range whose argument `t` may match.
pub proof fn lemma_potential_run(
    sig: Seq<SymbolMembers>,
    ts: Seq<Term>,
    heap: Seq<DagNode>,
    sol: Seq<MaybeDagNode>,
    t: usize,
    args: Seq<DagPair>,
    lower: int,
    upper: int,
    first: int,
)
    requires
        0 <= lower,
        upper <= args.len(),
    ensures
        ({
            let r = potential_run(sig, ts, heap, sol, t, args, lower, upper, first);
            ||| r == first
            ||| (lower <= r < upper && partial_compare(sig, ts, heap, sol, t, args[r].dag_node) != OrderingValue::Greater
                && partial_compare(sig, ts, heap, sol, t, args[r].dag_node) != OrderingValue::Less)
        }),
    decreases upper - lower,
{
    if lower < upper {
        let probe = lower + (upper - lower) / 2;
        match partial_compare(sig, ts, heap, sol, t, args[probe].dag_node) {
            OrderingValue::Greater => lemma_potential_run(sig, ts, heap, sol, t, args, probe + 1, upper, first),
            OrderingValue::Less => lemma_potential_run(sig, ts, heap, sol, t, args, lower, probe, first),
            OrderingValue::Equal => {},
            OrderingValue::Unknown => lemma_potential_run(sig, ts, heap, sol, t, args, lower, probe, probe),
        }
    }
}

impl ACUDagNode {
    /// A node with top symbol `symbol`, no arguments yet (room for `size`), of unknown sort.
    pub fn new(symbol: usize, size: usize, normalization_status: NormalizationStatus) -> (r: ACUDagNode)
        ensures
            r.top_symbol == symbol,
            r.args matches ACUArguments::List(v) && v@.len() == 0,
            !r.is_reduced,
            r.sort_index == SORT_UNKNOWN,
            r.normalization_status == normalization_status,
    {
        ACUDagNode {
            top_symbol: symbol,
            args: ACUArguments::List(Vec::with_capacity(size)),
            is_reduced: false,
            sort_index: SORT_UNKNOWN,
            normalization_status,
        }
    }

    /// A fresh node with top symbol `symbol` whose arguments are the tree `tree`.
    pub fn new_tree(symbol: usize, tree: RedBlackTree) -> (r: ACUDagNode)
        ensures
            r.top_symbol == symbol,
            r.args == ACUArguments::Tree(tree),
            !r.is_reduced,
            r.sort_index == SORT_UNKNOWN,
            r.normalization_status == NormalizationStatus::Fresh,
    {
        ACUDagNode {
            top_symbol: symbol,
            args: ACUArguments::Tree(tree),
            is_reduced: false,
            sort_index: SORT_UNKNOWN,
            normalization_status: NormalizationStatus::Fresh,
        }
    }

    /// Turns tree arguments into the list of their pairs in the order of their keys; list
    /// arguments stay.
    pub fn to_list_arguments(&mut self)
        ensures
            final(self).top_symbol == old(self).top_symbol,
            final(self).is_reduced == old(self).is_reduced,
            final(self).sort_index == old(self).sort_index,
            final(self).normalization_status == old(self).normalization_status,
            old(self).args is List ==> final(self).args == old(self).args,
            old(self).args matches ACUArguments::Tree(t) ==> final(self).args matches ACUArguments::List(v)
                && exists|ks: Seq<i32>| {
                &&& key_order(t.rb_tree@, ks)
                &&& v@ == ks.map(|i: int, k: i32| pair_of(t.rb_tree@[k]))
            },
    {
        let mut args = ACUArguments::List(Vec::new());
        std::mem::swap(&mut args, &mut self.args);
        match args {
            ACUArguments::Tree(t) => {
                self.args = ACUArguments::List(t.vectorize());
            },
            ACUArguments::List(v) => {
                self.args = ACUArguments::List(v);
            },
        }
    }

    /// The position of an argument equal to term `key`, found by binary search in the list of
    /// arguments, or `None`; on arguments in order as seen from `key`, `None` means that no
    /// argument equals `key`.
    pub fn binary_search_by_term(&self, sig: &Signature, terms: &TermStore, heap: &DagHeap, key: usize) -> (r: Option<usize>)
        requires
            store_wf(sig.symbols@, terms.terms@),
            heap_wf(sig.symbols@, heap.nodes@),
            key < terms.terms@.len(),
            self.args matches ACUArguments::List(v) && forall|i: int| 0 <= i < v@.len() ==> (#[trigger] v@[i]).dag_node < heap.nodes@.len(),
        ensures
            self.args matches ACUArguments::List(v) && {
                &&& r == match full_search(sig.symbols@, terms.terms@, heap.nodes@, key, v@) {
                    Some(p) => Some(index_of(p)),
                    None => None::<usize>,
                }
                &&& r matches Some(p) ==> {
                    &&& p < v@.len()
                    &&& term_dag_equal(sig.symbols@, terms.terms@, heap.nodes@, key, v@[as_int(p)].dag_node)
                }
                &&& r is None && ordered_for(sig.symbols@, terms.terms@, heap.nodes@, key, v@) ==> forall|i: int|
                    0 <= i < v@.len() ==> !term_dag_equal(sig.symbols@, terms.terms@, heap.nodes@, key, #[trigger] v@[i].dag_node)
            },
    {
        match &self.args {
            ACUArguments::List(args) => {
                proof {
                    lemma_search_run(sig.symbols@, terms.terms@, heap.nodes@, key, args@, 0, arg_count(args@));
                }
                let len = args.len();
                let mut upper: usize = len;
                let mut lower: usize = 0;
                while lower < upper
                    invariant
                        store_wf(sig.symbols@, terms.terms@),
                        heap_wf(sig.symbols@, heap.nodes@),
                        key < terms.terms@.len(),
                        self.args == ACUArguments::List(*args),
                        len == args@.len(),
                        forall|i: int| 0 <= i < args@.len() ==> (#[trigger] args@[i]).dag_node < heap.nodes@.len(),
                        lower <= upper <= len,
                        search_run(sig.symbols@, terms.terms@, heap.nodes@, key, args@, as_int(lower), as_int(upper))
                            == full_search(sig.symbols@, terms.terms@, heap.nodes@, key, args@),
                    decreases upper - lower,
                {
                    let probe = lower + (upper - lower) / 2;
                    let r = terms.compare_dag_node(sig, heap, key, args[probe].dag_node);
                    proof {
                        assert(search_run(sig.symbols@, terms.terms@, heap.nodes@, key, args@, as_int(lower), as_int(upper)) == if r
                            == Ordering::Equal {
                            Some(as_int(probe))
                        } else if r == Ordering::Less {
                            search_run(sig.symbols@, terms.terms@, heap.nodes@, key, args@, as_int(lower), as_int(probe))
                        } else {
                            search_run(sig.symbols@, terms.terms@, heap.nodes@, key, args@, as_int(probe) + 1, as_int(upper))
                        });
                        assert(index_of(as_int(probe)) == probe);
                    }
                    match r {
                        Ordering::Equal => {
                            return Some(probe);
                        },
                        Ordering::Less => {
                            upper = probe;
                        },
                        Ordering::Greater => {
                            lower = probe + 1;
                        },
                    }
                }
                None
            },
            ACUArguments::Tree(_) => {
                None
            },
        }
    }

    /// The least position, by binary search, of an argument that term `key` may match under
    /// the bindings of `partial`; the number of arguments when none may.
    pub fn find_first_potential_match(&self, sig: &Signature, terms: &TermStore, heap: &DagHeap, key: usize, partial: &Substitution) -> (r: u32)
        requires
            store_wf(sig.symbols@, terms.terms@),
            heap_wf(sig.symbols@, heap.nodes@),
            bindings_in_heap(partial.bindings@, heap.nodes@.len()),
            key < terms.terms@.len(),
            self.args matches ACUArguments::List(v) && {
                &&& forall|i: int| 0 <= i < v@.len() ==> (#[trigger] v@[i]).dag_node < heap.nodes@.len()
                &&& v@.len() <= u32::MAX
            },
        ensures
            self.args matches ACUArguments::List(v) && {
                &&& r == potential_run(sig.symbols@, terms.terms@, heap.nodes@, partial.bindings@, key, v@, 0, arg_count(v@), arg_count(v@))
                &&& r <= v@.len()
                &&& r < v@.len() ==> potential_match_at(sig.symbols@, terms.terms@, heap.nodes@, partial.bindings@, key, v@[as_int(index_usize(r))].dag_node)
            },
    {
        match &self.args {
            ACUArguments::List(args) => {
                proof {
                    lemma_potential_run(sig.symbols@, terms.terms@, heap.nodes@, partial.bindings@, key, args@, 0, arg_count(args@), arg_count(args@));
                }
                let len = args.len();
                let mut first: usize = len;
                let mut upper: usize = len;
                let mut lower: usize = 0;
                while lower < upper
                    invariant
                        store_wf(sig.symbols@, terms.terms@),
                        heap_wf(sig.symbols@, heap.nodes@),
                        bindings_in_heap(partial.bindings@, heap.nodes@.len()),
                        key < terms.terms@.len(),
                        self.args == ACUArguments::List(*args),
                        len == args@.len(),
                        len <= u32::MAX,
                        forall|i: int| 0 <= i < args@.len() ==> (#[trigger] args@[i]).dag_node < heap.nodes@.len(),
                        lower <= upper <= len,
                        first <= len,
                        potential_run(sig.symbols@, terms.terms@, heap.nodes@, partial.bindings@, key, args@, as_int(lower), as_int(upper), as_int(first))
                            == potential_run(sig.symbols@, terms.terms@, heap.nodes@, partial.bindings@, key, args@, 0, arg_count(args@), arg_count(args@)),
                    decreases upper - lower,
                {
                    let probe = lower + (upper - lower) / 2;
                    let r = terms.partial_compare(sig, heap, partial, key, args[probe].dag_node);
                    match r {
                        OrderingValue::Greater => {
                            lower = probe + 1;
                        },
                        OrderingValue::Less => {
                            upper = probe;
                        },
                        OrderingValue::Equal => {
                            return index_u32(probe);
                        },
                        OrderingValue::Unknown => {
                            first = probe;
                            upper = probe;
                        },
                    }
                }
                index_u32(first)
            },
            ACUArguments::Tree(_) => {
                0
            },
        }
    }
}

} // verus!
