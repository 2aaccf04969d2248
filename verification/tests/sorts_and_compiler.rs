use mod_theory::dag_node::{DagHeap, DagNode, Signature, VariableDagNode};
use mod_theory::lhs_compiler::{ConstraintPropagationSequence, FreeOccurrence};
use mod_theory::nat_set::NatSet;
use mod_theory::symbol::{ConnectedComponent, IString, Sort, SortTable, SymbolMembers, NONE};
use mod_theory::term::{FreeTerm, Term, TermStore, VariableTerm};
use mod_theory::Outcome;

fn sort(index: i32, leq: Vec<bool>) -> Sort {
    Sort { sort_index: index, leq_sorts: leq, fast_geq_sufficient: true, error_free_maximal: false }
}

/// Sorts of one component: 0 the error sort, 1 Nat, 2 Int (Nat <= Int).
/// Symbols: 0 = zero : -> Nat, 1 = s : Nat -> Nat (Int -> Int), 2 = X : Int.
fn signature() -> Signature {
    let mut zero = SymbolMembers::new(IString { id: 1 }, 0, false);
    zero.sort_table.sort_diagram = vec![1];
    let mut s = SymbolMembers::new(IString { id: 2 }, 1, false);
    // State 0 reads the argument sort: error -> 0, Nat -> 1, Int -> 2.
    s.sort_table.sort_diagram = vec![0, 1, 2];
    let mut x = SymbolMembers::new(IString { id: 3 }, 0, false);
    x.is_variable = true;
    x.sort_table.op_declarations.push(vec![sort(2, vec![false, true, true])]);
    let component = ConnectedComponent {
        sorts: vec![sort(0, vec![true, true, true]), sort(1, vec![false, true, false]), sort(2, vec![false, true, true])],
    };
    Signature { symbols: vec![zero, s, x], components: vec![component] }
}

#[test]
fn leq_index_and_traverse() {
    let int = sort(2, vec![false, true, true]);
    assert!(int.leq_index(1));
    assert!(int.leq_index(2));
    assert!(!int.leq_index(0));
    assert!(!int.leq_index(-1));
    assert!(!int.leq_index(7));
    let table = SortTable { op_declarations: Vec::new(), sort_diagram: vec![5, 6, 7], range_component: 0 };
    assert_eq!(table.traverse(1, 1), 7);
    let d = int.duplicate();
    assert_eq!(d.sort_index, 2);
    assert_eq!(d.leq_sorts, vec![false, true, true]);
}

#[test]
fn compute_base_sort_walks_the_diagram() {
    let sig = signature();
    let mut heap = DagHeap::new();
    let z = heap.make_free_node(0);
    let sz = heap.make_free_node(1);
    heap.push_arg(sz, z);
    assert_eq!(heap.compute_base_sort(&sig, z), 1);
    assert_eq!(heap.get_sort_index(z), 1);
    assert_eq!(heap.compute_base_sort(&sig, sz), 1);
    let x = heap.allocate(DagNode::Variable(VariableDagNode::new(2, IString { id: 3 }, 0)));
    assert_eq!(heap.compute_base_sort(&sig, x), 2);
    let sx = heap.make_free_node(1);
    heap.push_arg(sx, x);
    assert_eq!(heap.compute_base_sort(&sig, sx), 2);
}

#[test]
fn check_sort_computes_an_unknown_sort() {
    let sig = signature();
    let nat = sort(1, vec![false, true, false]);
    let mut heap = DagHeap::new();
    let z = heap.make_free_node(0);
    heap.set_sort_index(z, -1);
    assert_eq!(heap.check_sort(&sig, z, &nat), Outcome::Success);
    assert_eq!(heap.get_sort_index(z), 1);
    let x = heap.allocate(DagNode::Variable(VariableDagNode::new(2, IString { id: 3 }, 0)));
    assert_eq!(heap.check_sort(&sig, x, &nat), Outcome::Failure);
    assert_eq!(heap.get_sort_index(x), 2);
    // A known sort is just compared.
    assert_eq!(heap.check_sort(&sig, x, &nat), Outcome::Failure);
    assert!(heap.leq_sort(z, &nat));
}

#[test]
fn check_sort_with_sort_constraints_leaves_the_sort_unknown() {
    let mut sig = signature();
    sig.symbols[0].sort_constraint_free = false;
    let int = sort(2, vec![false, false, true]);
    let mut heap = DagHeap::new();
    let z = heap.make_free_node(0);
    heap.set_sort_index(z, -1);
    assert_eq!(heap.check_sort(&sig, z, &int), Outcome::Success);
    assert_eq!(heap.get_sort_index(z), -1);
}

#[test]
fn get_sort_reads_the_component() {
    let sig = signature();
    let mut heap = DagHeap::new();
    let z = heap.make_free_node(0);
    heap.set_sort_index(z, -1);
    assert!(heap.get_sort(&sig, z).is_none());
    heap.set_sort_index(z, 2);
    let s = heap.get_sort(&sig, z).unwrap();
    assert_eq!(s.sort_index, 2);
    assert_eq!(s.leq_sorts, vec![false, true, true]);
}

/// Terms: X (index 3), zero, s(zero), s(s(zero)) as the pattern's skeleton above X.
fn terms() -> (TermStore, usize, usize) {
    let mut terms = TermStore::new();
    let mut x = VariableTerm::new(IString { id: 3 }, 2);
    x.index = 3;
    let x = terms.add(Term::Variable(x));
    let zero = terms.add(Term::Free(FreeTerm::new(0)));
    let sx = terms.add(Term::Free(FreeTerm::with_args(1, vec![x])));
    let ssx = terms.add(Term::Free(FreeTerm::with_args(1, vec![sx])));
    let _ = zero;
    (terms, sx, ssx)
}

#[test]
fn scan_free_skeleton_separates_the_skeleton() {
    let sig = signature();
    let (terms, sx, ssx) = terms();
    let mut free_symbols: Vec<FreeOccurrence> = Vec::new();
    let mut others: Vec<FreeOccurrence> = Vec::new();
    terms.scan_free_skeleton(&sig, ssx, &mut free_symbols, &mut others, 0, 0);
    assert_eq!(free_symbols, vec![FreeOccurrence::new(0, 0, ssx), FreeOccurrence::new(0, 0, sx)]);
    assert_eq!(others, vec![FreeOccurrence::new(1, 0, 0)]);
}

#[test]
fn analyse_constraint_propagation_binds_the_variables_below() {
    let sig = signature();
    let (terms, _, ssx) = terms();
    let mut bound = NatSet::new();
    bound.insert(1);
    terms.analyse_constraint_propagation(&sig, ssx, &mut bound);
    assert!(bound.contains(3));
    assert!(bound.contains(1));
    assert_eq!(bound.len(), 2);
}

#[test]
fn term_accessors() {
    let sig = signature();
    let (mut terms, sx, _) = terms();
    assert_eq!(terms.variable_index_of(0), 3);
    assert_eq!(terms.variable_index_of(sx), NONE);
    assert_eq!(terms.slot_index_of(sx), 0);
    assert_eq!(terms.slot_index_of(0), NONE);
    terms.set_slot_index(sx, 4);
    assert_eq!(terms.slot_index_of(sx), 4);
    assert_eq!(terms.variable_sort(&sig, 0).sort_index, 2);
    assert_eq!(terms.arg_count(sx), 1);
    assert_eq!(terms.arg(sx, 0), 0);
}

#[test]
fn constraint_propagation_without_aliens() {
    let (terms, _, _) = terms();
    let mut bound = NatSet::new();
    bound.insert(2);
    let mut best = ConstraintPropagationSequence::new();
    assert_eq!(best.cardinality, 0);
    terms.find_constraint_propagation_sequence(&Vec::new(), &mut bound, &mut best);
    assert!(best.sequence.is_empty());
    assert_eq!(best.cardinality, 1);
    assert!(best.bound.contains(2));
    assert!(bound.contains(2));
    assert!(!terms.remaining_aliens_contain(&Vec::new(), &Vec::new(), 0, 0, &bound));
}
