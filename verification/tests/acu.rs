use std::cmp::Ordering;
use std::collections::BTreeMap;
use std::rc::Rc;

use mod_theory::acu::NormalizationStatus;
use mod_theory::acu_automaton::{ACULHSAutomaton, GroundAlien, MatchStrategy, NonGroundAlien};
use mod_theory::lhs_automaton::{LHSAutomaton, VariableLHSAutomaton};
use mod_theory::substitution::Substitution;
use mod_theory::symbol::Sort;
use mod_theory::acu_dag_node::ACUDagNode;
use mod_theory::acu_term::{ACUTerm, ACUTermRecord};
use mod_theory::dag_node::{DagHeap, Signature};
use mod_theory::extension_info::ACUExtensionInfo;
use mod_theory::red_black_tree::{ACUArguments, DagPair, RedBlackNode, RedBlackTree};
use mod_theory::subproblem::ExtensionInfo;
use mod_theory::symbol::{IString, SymbolMembers};
use mod_theory::term::{FreeTerm, Term, TermAttribute, TermStore};

/// Symbols a, b, c (constants with hashes 1, 2, 3); nodes 0 = a, 1 = b, 2 = c with sort
/// indices 5, 3 and 9.
fn setup() -> (Signature, DagHeap, TermStore) {
    let symbols = vec![
        SymbolMembers::new(IString { id: 1 }, 0, false),
        SymbolMembers::new(IString { id: 2 }, 0, false),
        SymbolMembers::new(IString { id: 3 }, 0, false),
    ];
    let sig = Signature { symbols, components: Vec::new() };
    let mut heap = DagHeap::new();
    for (s, sort) in [(0usize, 5i32), (1, 3), (2, 9)] {
        let n = heap.make_free_node(s);
        heap.set_sort_index(n, sort);
    }
    let mut terms = TermStore::new();
    for s in 0..3usize {
        terms.add(Term::Free(FreeTerm::new(s)));
    }
    (sig, heap, terms)
}

/// A tree keyed by symbol hash: a twice, b once, c three times.
fn hashed_tree() -> RedBlackTree {
    let mut rb_tree = BTreeMap::new();
    rb_tree.insert(1, RedBlackNode::new(0, 2));
    rb_tree.insert(2, RedBlackNode::new(1, 1));
    rb_tree.insert(3, RedBlackNode::new(2, 3));
    RedBlackTree { rb_tree, size: 3 }
}

#[test]
fn new_tree_is_keyed_by_symbol_hash() {
    let (sig, heap, _) = setup();
    let tree = RedBlackTree::new(&sig, &heap, 1, 4);
    assert_eq!(tree.size, 1);
    assert_eq!(tree.rb_tree.len(), 1);
    // Node 1 is b, whose symbol hashes to 2.
    assert_eq!(tree.rb_tree.get(&2).unwrap().dag_node, 1);
    assert_eq!(tree.get_sole_multiplicity(), 4);
    assert_eq!(tree.get_sole_dag_node(), 1);
    assert_eq!(tree.max_multiplicity(), 4);
    assert!(tree.is_reduced());
}

#[test]
fn insert_puts_a_single_copy_and_counts_nodes() {
    let (sig, heap, _) = setup();
    let mut tree = RedBlackTree::new(&sig, &heap, 1, 4);
    tree.insert(&sig, &heap, 0);
    tree.insert(&sig, &heap, 2);
    assert_eq!(tree.size, 3);
    assert_eq!(tree.rb_tree.len(), 3);
    // The least key is the hash 1 of node 0.
    assert_eq!(tree.get_sole_dag_node(), 0);
    assert_eq!(tree.max_multiplicity(), 4);
    tree.insert(&sig, &heap, 1);
    assert_eq!(tree.size, 3);
    assert_eq!(tree.max_multiplicity(), 1);
    tree.clear();
    assert_eq!(tree.size, 0);
    assert_eq!(tree.max_multiplicity(), 0);
}

#[test]
fn inserted_node_is_found() {
    let (sig, heap, _) = setup();
    let mut tree = RedBlackTree::new(&sig, &heap, 0, 2);
    tree.insert(&sig, &heap, 2);
    assert_eq!(tree.find(&sig, &heap, 2).map(|n| (n.dag_node, n.multiplicity)), Some((2, 1)));
    assert_eq!(tree.find(&sig, &heap, 0).map(|n| (n.dag_node, n.multiplicity)), Some((0, 2)));
    assert!(tree.find(&sig, &heap, 1).is_none());
    tree.delete_multiplicity(&sig, &heap, 0, 2);
    assert!(tree.find(&sig, &heap, 0).is_none());
    assert_eq!(tree.size, 1);
}

#[test]
fn vectorize_and_iter_follow_the_keys() {
    let tree = hashed_tree();
    assert_eq!(tree.iter(), vec![(0, 2), (1, 1), (2, 3)]);
    let pairs = tree.vectorize();
    assert_eq!(pairs.len(), 3);
    assert_eq!(pairs[2].dag_node, 2);
    assert_eq!(pairs[2].multiplicity, 3);
}

#[test]
fn find_by_node_and_by_term() {
    let (sig, heap, terms) = setup();
    let tree = hashed_tree();
    assert_eq!(tree.find(&sig, &heap, 1).unwrap().multiplicity, 1);
    assert_eq!(tree.find_term(&sig, &terms, &heap, 2).unwrap().multiplicity, 3);
    let mut other = hashed_tree();
    other.rb_tree.insert(2, RedBlackNode::new(0, 1));
    // Under b's key stands a, which is not b.
    assert!(other.find(&sig, &heap, 1).is_none());
}

#[test]
fn delete_multiplicity_lowers_then_removes() {
    let (sig, heap, _) = setup();
    let mut tree = hashed_tree();
    tree.delete_multiplicity(&sig, &heap, 2, 1);
    assert_eq!(tree.find(&sig, &heap, 2).unwrap().multiplicity, 2);
    assert_eq!(tree.size, 3);
    tree.delete_multiplicity(&sig, &heap, 2, 2);
    assert!(tree.find(&sig, &heap, 2).is_none());
    assert_eq!(tree.size, 2);
    tree.delete_multiplicity(&sig, &heap, 2, 5);
    assert_eq!(tree.size, 2);
}

#[test]
fn potential_match_and_multiplicity_search() {
    let (sig, _, terms) = setup();
    let tree = hashed_tree();
    // Below the key of c (3) the greatest key is that of b.
    assert_eq!(tree.find_first_potential_match(&sig, &terms, 2).unwrap().dag_node, 1);
    assert!(tree.find_first_potential_match(&sig, &terms, 0).is_none());
    assert_eq!(tree.find_greater_equal_multiplicity(2).unwrap().dag_node, 0);
    assert_eq!(tree.find_greater_equal_multiplicity(3).unwrap().dag_node, 2);
    assert!(tree.find_greater_equal_multiplicity(4).is_none());
}

#[test]
fn arguments_size_search_and_iter() {
    let (sig, heap, terms) = setup();
    let list = ACUArguments::List(vec![
        DagPair { dag_node: 0, multiplicity: 2 },
        DagPair { dag_node: 2, multiplicity: 7 },
    ]);
    assert_eq!(list.size(), 2);
    assert_eq!(list.len(), 2);
    assert_eq!(list.search_for_term(&sig, &terms, &heap, 2), Some(7));
    assert_eq!(list.search_for_term(&sig, &terms, &heap, 1), None);
    assert_eq!(list.iter(), vec![(0, 2), (2, 7)]);
    let tree = ACUArguments::Tree(hashed_tree());
    assert_eq!(tree.size(), 3);
    assert_eq!(tree.search_for_term(&sig, &terms, &heap, 0), Some(2));
    assert_eq!(tree.iter(), vec![(0, 2), (1, 1), (2, 3)]);
}

#[test]
fn acu_node_construction_and_conversion() {
    let node = ACUDagNode::new(4, 8, NormalizationStatus::Assignment);
    assert_eq!(node.top_symbol, 4);
    assert_eq!(node.args.size(), 0);
    assert_eq!(node.sort_index, -1);
    assert!(!node.is_reduced);
    let mut tree_node = ACUDagNode::new_tree(4, hashed_tree());
    assert_eq!(tree_node.normalization_status, NormalizationStatus::Fresh);
    tree_node.to_list_arguments();
    match &tree_node.args {
        ACUArguments::List(v) => {
            assert_eq!(v.len(), 3);
            assert_eq!(v[0].dag_node, 0);
            assert_eq!(v[1].multiplicity, 1);
        },
        ACUArguments::Tree(_) => panic!("expected a list"),
    }
}

#[test]
fn binary_search_by_term_finds_the_argument() {
    let (sig, heap, terms) = setup();
    let mut node = ACUDagNode::new(4, 3, NormalizationStatus::Fresh);
    node.args = ACUArguments::List(vec![
        DagPair { dag_node: 0, multiplicity: 1 },
        DagPair { dag_node: 1, multiplicity: 1 },
        DagPair { dag_node: 2, multiplicity: 1 },
    ]);
    assert_eq!(node.binary_search_by_term(&sig, &terms, &heap, 0), Some(0));
    assert_eq!(node.binary_search_by_term(&sig, &terms, &heap, 1), Some(1));
    assert_eq!(node.binary_search_by_term(&sig, &terms, &heap, 2), Some(2));
    node.args = ACUArguments::List(vec![DagPair { dag_node: 0, multiplicity: 1 }, DagPair { dag_node: 2, multiplicity: 1 }]);
    assert_eq!(node.binary_search_by_term(&sig, &terms, &heap, 1), None);
    // Keys before the first and after the last argument are not found.
    node.args = ACUArguments::List(vec![DagPair { dag_node: 1, multiplicity: 1 }]);
    assert_eq!(node.binary_search_by_term(&sig, &terms, &heap, 0), None);
    assert_eq!(node.binary_search_by_term(&sig, &terms, &heap, 2), None);
    node.args = ACUArguments::List(Vec::new());
    assert_eq!(node.binary_search_by_term(&sig, &terms, &heap, 0), None);
}

fn automaton(max: u32, lower: u32, upper: u32, aliens: Vec<GroundAlien>) -> ACULHSAutomaton {
    ACULHSAutomaton {
        max_pattern_multiplicity: max,
        current_multiplicity: vec![9, 9, 9, 9],
        total_lower_bound: lower,
        total_upper_bound: upper,
        total_multiplicity: 0,
        total_non_ground_aliens_multiplicity: 0,
        last_unbound_variable: 0,
        unbound_variable_count: 0,
        ground_aliens: aliens,
        grounded_out_aliens: Vec::new(),
        non_ground_aliens: Vec::new(),
        current: RedBlackTree { rb_tree: BTreeMap::new(), size: 0 },
        top_symbol: 4,
        top_variables: Vec::new(),
        collapse_possible: false,
        match_at_top: false,
        tree_match_ok: false,
        match_strategy: MatchStrategy::Full,
        matched_multiplicity: 0,
    }
}

fn subject() -> ACUDagNode {
    let mut node = ACUDagNode::new(4, 3, NormalizationStatus::Fresh);
    node.args = ACUArguments::List(vec![
        DagPair { dag_node: 0, multiplicity: 2 },
        DagPair { dag_node: 1, multiplicity: 1 },
        DagPair { dag_node: 2, multiplicity: 3 },
    ]);
    node
}

#[test]
fn multiplicity_checks_copy_and_total() {
    let mut a = automaton(3, 2, 10, Vec::new());
    assert!(a.multiplicity_checks(&subject()));
    assert_eq!(a.current_multiplicity, vec![2, 1, 3]);
    assert_eq!(a.total_multiplicity, 6);
}

#[test]
fn multiplicity_checks_fail_without_a_high_enough_multiplicity() {
    let mut a = automaton(4, 0, 10, Vec::new());
    assert!(!a.multiplicity_checks(&subject()));
    assert_eq!(a.current_multiplicity, vec![9, 9, 9, 9]);
}

#[test]
fn multiplicity_checks_fail_outside_the_bounds() {
    let mut a = automaton(1, 7, 10, Vec::new());
    assert!(!a.multiplicity_checks(&subject()));
    assert_eq!(a.current_multiplicity, vec![2, 1, 3]);
    assert_eq!(a.total_multiplicity, 0);
    let mut b = automaton(1, 0, 5, Vec::new());
    assert!(!b.multiplicity_checks(&subject()));
}

#[test]
fn eliminate_ground_aliens_takes_subjects_away() {
    let (sig, heap, terms) = setup();
    let mut a = automaton(1, 0, 10, vec![GroundAlien { term: 2, multiplicity: 2 }, GroundAlien { term: 0, multiplicity: 1 }]);
    let s = subject();
    assert!(a.multiplicity_checks(&s));
    assert!(a.eliminate_ground_aliens(&sig, &terms, &heap, &s));
    assert_eq!(a.current_multiplicity, vec![1, 1, 1]);
}

#[test]
fn eliminate_ground_aliens_fails_on_a_missing_subject() {
    let (sig, heap, terms) = setup();
    let mut a = automaton(1, 0, 10, vec![GroundAlien { term: 1, multiplicity: 1 }]);
    let mut s = subject();
    s.args = ACUArguments::List(vec![DagPair { dag_node: 0, multiplicity: 2 }, DagPair { dag_node: 2, multiplicity: 3 }]);
    assert!(a.multiplicity_checks(&s));
    assert!(!a.eliminate_ground_aliens(&sig, &terms, &heap, &s));
}

#[test]
fn eliminate_ground_aliens_keeps_what_was_taken_before_failing() {
    let (sig, heap, terms) = setup();
    let mut a = automaton(1, 0, 10, vec![GroundAlien { term: 2, multiplicity: 2 }, GroundAlien { term: 1, multiplicity: 1 }]);
    let mut s = subject();
    s.args = ACUArguments::List(vec![DagPair { dag_node: 0, multiplicity: 2 }, DagPair { dag_node: 2, multiplicity: 3 }]);
    assert!(a.multiplicity_checks(&s));
    assert!(!a.eliminate_ground_aliens(&sig, &terms, &heap, &s));
    assert_eq!(a.current_multiplicity, vec![2, 1]);
}

#[test]
fn extension_info_records_the_unmatched_part() {
    let (sig, heap, _) = setup();
    let mut info = ACUExtensionInfo {
        valid_after_match: false,
        matched_whole: true,
        subject: Rc::new(ACUDagNode::new(4, 0, NormalizationStatus::Fresh)),
        unmatched: RedBlackTree { rb_tree: BTreeMap::new(), size: 0 },
        unmatched_multiplicity: vec![2],
        upper_bound: 7,
    };
    info.set_valid_after_match(true);
    info.set_matched_whole(false);
    info.set_unmatched(&sig, &heap, 2);
    info.set_unmatched(&sig, &heap, 1);
    assert!(info.valid_after_match);
    assert!(!info.matched_whole);
    // Keyed by symbol hash: node 2 under 3, node 1 under 2.
    assert_eq!(info.unmatched.rb_tree.get(&3).map(|n| n.dag_node), Some(2));
    assert_eq!(info.unmatched.rb_tree.get(&2).map(|n| n.dag_node), Some(1));
    assert_eq!(info.unmatched.size, 2);
    assert_eq!(info.upper_bound, 7);
}

fn record(term: usize, multiplicity: u32) -> ACUTermRecord {
    ACUTermRecord { term, multiplicity, abstraction_variable_index: 0, collapse_to_our_theory: false, match_our_identity: false }
}

fn listed(pairs: &[(usize, u32)]) -> ACUDagNode {
    let mut node = ACUDagNode::new(4, 0, NormalizationStatus::Fresh);
    node.args = ACUArguments::List(pairs.iter().map(|&(d, m)| DagPair { dag_node: d, multiplicity: m }).collect());
    node
}

#[test]
fn acu_term_compares_with_nodes_by_count_then_pairs() {
    let (sig, heap, terms) = setup();
    let t = ACUTerm { args: vec![record(0, 2), record(2, 1)], unique_collapse_subterm_index: 0, top_symbol: 4 };
    assert_eq!(t.symbol(), 4);
    assert!(t.is_stable());
    assert_eq!(t.compare_dag_arguments(&sig, &terms, &heap, &listed(&[(0, 2), (2, 1)])), Ordering::Equal);
    // c against b: the hashes decide.
    assert_eq!(t.compare_dag_arguments(&sig, &terms, &heap, &listed(&[(0, 2), (1, 1)])), Ordering::Greater);
    // Fewer occurrences of a.
    assert_eq!(t.compare_dag_arguments(&sig, &terms, &heap, &listed(&[(0, 3), (2, 1)])), Ordering::Less);
    // Fewer arguments.
    assert_eq!(t.compare_dag_arguments(&sig, &terms, &heap, &listed(&[(0, 1), (1, 1), (2, 1)])), Ordering::Less);
    assert_eq!(t.compare_dag_arguments(&sig, &terms, &heap, &listed(&[(0, 2)])), Ordering::Greater);
    // Multiplicities are compared as i32: 2^31 comes before 0.
    let big = ACUTerm { args: vec![record(0, 0x8000_0000)], unique_collapse_subterm_index: 0, top_symbol: 4 };
    assert_eq!(big.compare_dag_arguments(&sig, &terms, &heap, &listed(&[(0, 0)])), Ordering::Less);
}

#[test]
fn eliminate_ground_aliens_fails_when_a_subject_occurs_too_rarely() {
    let (sig, heap, terms) = setup();
    let mut a = automaton(1, 0, 10, vec![GroundAlien { term: 0, multiplicity: 1 }, GroundAlien { term: 2, multiplicity: 4 }]);
    let mut s = subject();
    s.args = ACUArguments::List(vec![DagPair { dag_node: 0, multiplicity: 2 }, DagPair { dag_node: 2, multiplicity: 3 }]);
    assert!(a.multiplicity_checks(&s));
    assert!(!a.eliminate_ground_aliens(&sig, &terms, &heap, &s));
    // The first alien took one a away; c was left as it was.
    assert_eq!(a.current_multiplicity, vec![1, 3]);
}

#[test]
fn find_first_potential_match_finds_the_first_argument_a_term_may_match() {
    let (sig, heap, mut terms) = setup();
    let solution = Substitution::with_capacity(1);
    let s = subject();
    // The order of a term that is not stable is not known: every argument may match it.
    assert_eq!(s.find_first_potential_match(&sig, &terms, &heap, 1, &solution), 0);
    for t in 0..3usize {
        terms.set_attribute(t, TermAttribute::Stable);
    }
    assert_eq!(s.find_first_potential_match(&sig, &terms, &heap, 1, &solution), 1);
    assert_eq!(s.find_first_potential_match(&sig, &terms, &heap, 2, &solution), 2);
    let mut later = ACUDagNode::new(4, 2, NormalizationStatus::Fresh);
    later.args = ACUArguments::List(vec![DagPair { dag_node: 1, multiplicity: 1 }, DagPair { dag_node: 2, multiplicity: 1 }]);
    // a comes before every argument: nothing may match it.
    assert_eq!(later.find_first_potential_match(&sig, &terms, &heap, 0, &solution), 2);
}

fn any_sort() -> Sort {
    Sort { sort_index: 0, leq_sorts: vec![true; 10], fast_geq_sufficient: false, error_free_maximal: false }
}

fn variable_alien(multiplicity: u32) -> NonGroundAlien {
    NonGroundAlien {
        term: None,
        multiplicity,
        lhs_automaton: LHSAutomaton::Variable(VariableLHSAutomaton::new(0, any_sort(), false)),
    }
}

#[test]
fn grounded_out_aliens_take_their_subjects_away() {
    let (sig, mut heap, terms) = setup();
    let mut a = automaton(1, 0, 10, Vec::new());
    a.grounded_out_aliens = vec![variable_alien(2)];
    let s = subject();
    assert!(a.multiplicity_checks(&s));
    let mut solution = Substitution::with_capacity(1);
    assert!(a.eliminate_grounded_out_aliens_for_subject(&sig, &terms, &mut heap, &s, &mut solution));
    // The variable matched the first argument, a, and took both copies of it.
    assert_eq!(solution.value(0), Some(0));
    assert_eq!(a.current_multiplicity, vec![0, 1, 3]);
    // A second alien bound to the same variable finds a used up.
    a.grounded_out_aliens = vec![variable_alien(1)];
    assert!(!a.eliminate_grounded_out_aliens_for_subject(&sig, &terms, &mut heap, &s, &mut solution));
}
