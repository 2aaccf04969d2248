use std::cmp::Ordering;

use mod_theory::dag_node::{DagHeap, DagNode, RedexPosition, Signature, VariableDagNode};
use mod_theory::dag_node_flags::{DagNodeFlag, DagNodeFlags};
use mod_theory::dag_ops::{graph_count, position_of};
use mod_theory::symbol::{IString, SymbolMembers};
use mod_theory::term::TermStore;

/// Symbols: 0 = a (constant), 1 = f (binary), 2 = g (unary), 3 = X (variable).
fn signature() -> Signature {
    let a = SymbolMembers::new(IString { id: 1 }, 0, false);
    let f = SymbolMembers::new(IString { id: 2 }, 2, false);
    let g = SymbolMembers::new(IString { id: 3 }, 1, false);
    let mut x = SymbolMembers::new(IString { id: 4 }, 0, false);
    x.is_variable = true;
    Signature { symbols: vec![a, f, g, x], components: Vec::new() }
}

/// Nodes: a, f(a, a), g(f(a, a)), X, f(X, a).
fn heap() -> (DagHeap, [usize; 5]) {
    let mut heap = DagHeap::new();
    let a = heap.make_free_node(0);
    let fa = heap.make_free_node(1);
    heap.push_arg(fa, a);
    heap.push_arg(fa, a);
    let g = heap.make_free_node(2);
    heap.push_arg(g, fa);
    let x = heap.allocate(DagNode::Variable(VariableDagNode::new(3, IString { id: 4 }, 0)));
    let fx = heap.make_free_node(1);
    heap.push_arg(fx, x);
    heap.push_arg(fx, a);
    (heap, [a, fa, g, x, fx])
}

#[test]
fn every_node_equals_itself() {
    let sig = signature();
    let (heap, n) = heap();
    for &i in n.iter() {
        assert_eq!(heap.compare(&sig, i, i), Ordering::Equal);
        assert!(heap.equal(&sig, i, i));
    }
}

#[test]
fn swapping_reverses_the_order() {
    let sig = signature();
    let (heap, n) = heap();
    for &i in n.iter() {
        for &j in n.iter() {
            assert_eq!(heap.compare(&sig, i, j), heap.compare(&sig, j, i).reverse());
        }
    }
    // Different top symbols decide by their hashes.
    assert_eq!(heap.compare(&sig, n[0], n[1]), Ordering::Less);
    // Same top symbol: the arguments decide; a variable precedes a free node.
    assert_eq!(heap.compare(&sig, n[4], n[1]), Ordering::Greater);
    assert!(!heap.equal(&sig, n[1], n[4]));
}

#[test]
fn shallow_copy_equals_its_source() {
    let sig = signature();
    let (mut heap, n) = heap();
    let c = heap.shallow_copy(&sig, n[1]);
    assert_eq!(c, 5);
    assert!(heap.equal(&sig, c, n[1]));
    assert!(heap.equal(&sig, n[1], c));
    assert_eq!(heap.len(c), 2);
    assert_eq!(heap.arg(c, 0), n[0]);
}

#[test]
fn copy_with_replacement_replaces_one_argument() {
    let sig = signature();
    let (mut heap, n) = heap();
    let c = heap.copy_with_replacement(&sig, n[1], n[3], 0);
    assert_eq!(heap.arg(c, 0), n[3]);
    assert_eq!(heap.arg(c, 1), n[0]);
    assert!(heap.equal(&sig, c, n[4]));
    // The source keeps its arguments.
    assert_eq!(heap.arg(n[1], 0), n[0]);
}

#[test]
fn graph_count_counts_symbol_occurrences() {
    let sig = signature();
    let (heap, n) = heap();
    let mut visited: Vec<usize> = Vec::new();
    let mut counts: Vec<u64> = Vec::new();
    graph_count(&heap, &sig, n[2], &mut visited, &mut counts);
    assert_eq!(visited[0], n[2]);
    // g(f(a, a)) has four symbol occurrences.
    assert_eq!(counts[0], 4);
    let pf = position_of(&visited, n[1]).unwrap();
    assert_eq!(counts[pf], 3);
    let pa = position_of(&visited, n[0]).unwrap();
    assert_eq!(counts[pa], 1);
    assert_eq!(visited.len(), 3);
    assert_eq!(position_of(&visited, n[3]), None);
}

#[test]
fn termify_gives_a_term_that_compares_equal() {
    let sig = signature();
    let (heap, n) = heap();
    let mut terms = TermStore::new();
    for &i in n.iter() {
        let t = heap.termify(&sig, i, &mut terms);
        assert_eq!(terms.compare_dag_node(&sig, &heap, t, i), Ordering::Equal);
        assert!(terms.equal_dag_node(&sig, &heap, t, i));
    }
    let t = heap.termify(&sig, n[1], &mut terms);
    assert_ne!(terms.compare_dag_node(&sig, &heap, t, n[4]), Ordering::Equal);
}

#[test]
fn upgrade_sort_index_prefers_a_known_sort() {
    let (mut heap, n) = heap();
    heap.set_sort_index(n[0], -1);
    heap.set_sort_index(n[1], 3);
    heap.upgrade_sort_index(n[0], n[1]);
    assert_eq!(heap.get_sort_index(n[0]), 3);
    heap.upgrade_sort_index(n[1], n[3]);
    assert_eq!(heap.get_sort_index(n[1]), 3);
}

#[test]
fn copy_all_of_a_reduced_node_is_none() {
    let sig = signature();
    let (mut heap, n) = heap();
    heap.set_flags(n[1], DagNodeFlags::from_flag(DagNodeFlag::Reduced));
    assert_eq!(heap.copy_all(&sig, n[1]), None);
    assert_eq!(heap.nodes.len(), 5);
}

#[test]
fn copy_all_of_a_constant_records_the_copy() {
    let sig = signature();
    let (mut heap, n) = heap();
    let c = heap.copy_all(&sig, n[0]).unwrap();
    assert_eq!(c, 5);
    assert!(heap.is_copied(n[0]));
    assert!(heap.equal(&sig, c, n[0]));
    // A second copy returns the recorded one.
    assert_eq!(heap.copy_all(&sig, n[0]), Some(c));
    heap.clear_copied_rc(n[0]);
}

#[test]
fn overwrite_with_clone_marks_the_target() {
    let sig = signature();
    let (mut heap, n) = heap();
    heap.overwrite_with_clone(n[1], n[4]);
    assert!(heap.is_reduced(n[4]));
    assert!(heap.is_ground(n[4]));
    assert!(heap.is_unrewritable(n[4]));
    assert!(heap.is_unstackable(n[4]));
    // The clone takes the symbol of the source and keeps the arguments of the target.
    assert_eq!(heap.arg(n[4], 0), n[3]);
    assert!(!heap.equal(&sig, n[4], n[1]));
}

#[test]
fn graph_representation_numbers_the_nodes() {
    let sig = signature();
    let (heap, n) = heap();
    let (operators, visited, lines) = mod_theory::dag_ops::graph_representation(&heap, &sig, n[2]);
    assert_eq!(operators, 4);
    assert_eq!(visited, vec![n[2], n[1], n[0]]);
    assert_eq!(lines.len(), 3);
    assert_eq!(lines[0].symbol, 2);
    assert_eq!(lines[0].args, vec![1]);
    assert_eq!(lines[1].symbol, 1);
    assert_eq!(lines[1].args, vec![2, 2]);
    assert!(lines[2].args.is_empty());
}

#[test]
fn heap_checks() {
    let sig = signature();
    let (heap, n) = heap();
    assert!(sig.well_formed());
    assert!(heap.well_formed(&sig));
    assert!(mod_theory::dag_ops::term_size_fits(&heap, &sig, n[2]));
    let mut clash = signature();
    clash.symbols[1].hash_value = clash.symbols[0].hash_value;
    assert!(!clash.well_formed());
    assert!(!heap.well_formed(&clash));
    let mut bad = DagHeap::new();
    let f = bad.make_free_node(1);
    bad.push_arg(f, 0);
    assert!(!bad.well_formed(&sig));
}

#[test]
fn term_size_overflow_is_detected() {
    let sig = signature();
    let mut heap = DagHeap::new();
    let mut node = heap.make_free_node(0);
    for _ in 0..70 {
        let f = heap.make_free_node(1);
        heap.push_arg(f, node);
        heap.push_arg(f, node);
        node = f;
    }
    assert!(!mod_theory::dag_ops::term_size_fits(&heap, &sig, node));
    assert!(mod_theory::dag_ops::term_size_fits(&heap, &sig, 5));
}

#[test]
fn copy_with_replacements_follows_the_stack() {
    let sig = signature();
    let (mut heap, n) = heap();
    // Replace argument 1 of f(a, a) by X; the entry before `first` is not used.
    let stack = vec![
        RedexPosition { dag_node: n[2], arg_index: 0 },
        RedexPosition { dag_node: n[3], arg_index: 1 },
    ];
    let c = heap.copy_with_replacements(&sig, n[1], &stack, 1, 1);
    assert_eq!(heap.arg(c, 0), n[0]);
    assert_eq!(heap.arg(c, 1), n[3]);
    let both = vec![RedexPosition { dag_node: n[3], arg_index: 0 }, RedexPosition { dag_node: n[2], arg_index: 1 }];
    let d = heap.copy_with_replacements(&sig, n[1], &both, 0, 1);
    assert_eq!(heap.arg(d, 0), n[3]);
    assert_eq!(heap.arg(d, 1), n[2]);
}

#[test]
fn term_order_is_antisymmetric_and_transitive() {
    let sig = signature();
    let mut terms = TermStore::new();
    let a = terms.add(mod_theory::term::Term::Free(mod_theory::term::FreeTerm::new(0)));
    let x = terms.add(mod_theory::term::Term::Variable(mod_theory::term::VariableTerm::new(IString { id: 4 }, 3)));
    let fa = terms.add(mod_theory::term::Term::Free(mod_theory::term::FreeTerm::with_args(1, vec![a, a])));
    let fx = terms.add(mod_theory::term::Term::Free(mod_theory::term::FreeTerm::with_args(1, vec![x, a])));
    let g = terms.add(mod_theory::term::Term::Free(mod_theory::term::FreeTerm::with_args(2, vec![fa])));
    let all = [a, x, fa, fx, g];
    for &i in all.iter() {
        assert_eq!(terms.compare(&sig, i, i), Ordering::Equal);
        for &j in all.iter() {
            assert_eq!(terms.compare(&sig, i, j), terms.compare(&sig, j, i).reverse());
            for &k in all.iter() {
                if terms.compare(&sig, i, j) != Ordering::Greater && terms.compare(&sig, j, k) != Ordering::Greater {
                    assert_ne!(terms.compare(&sig, i, k), Ordering::Greater);
                }
            }
        }
    }
    // Same top symbol: the arguments decide, here by the hashes of their symbols.
    assert_eq!(terms.compare(&sig, fx, fa), Ordering::Greater);
}
