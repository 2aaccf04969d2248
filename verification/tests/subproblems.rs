use mod_theory::abstraction::VariableAbstractionSubproblem;
use mod_theory::acu::{ACUSubproblem, PatternNode};
use mod_theory::dag_node::{DagHeap, Signature};
use mod_theory::lhs_automaton::{LHSAutomaton, VariableLHSAutomaton};
use mod_theory::subproblem::{RewritingContext, Subproblem, SubproblemSequence};
use mod_theory::substitution::Substitution;
use mod_theory::symbol::{IString, Sort, SymbolMembers};
use mod_theory::term::TermStore;

fn top_sort() -> Sort {
    Sort { sort_index: 1, leq_sorts: vec![true, true], fast_geq_sufficient: false, error_free_maximal: false }
}

/// A context with the constant a at node 0 and f(a, a) at node 1, and two unbound variables.
fn context() -> RewritingContext {
    let a = SymbolMembers::new(IString { id: 1 }, 0, false);
    let f = SymbolMembers::new(IString { id: 2 }, 2, false);
    let mut heap = DagHeap::new();
    let na = heap.make_free_node(0);
    let nf = heap.make_free_node(1);
    heap.push_arg(nf, na);
    heap.push_arg(nf, na);
    RewritingContext {
        signature: Signature { symbols: vec![a, f], components: Vec::new() },
        terms: TermStore::new(),
        heap,
        solution: Substitution::with_capacity(2),
    }
}

#[test]
fn empty_sequence_has_exactly_one_solution() {
    let mut c = context();
    let mut s = SubproblemSequence::new();
    assert!(s.solve(true, &mut c));
    assert!(!s.solve(false, &mut c));
}

#[test]
fn sequence_of_empty_sequences() {
    let mut c = context();
    let mut s = SubproblemSequence::new();
    s.add(Box::new(SubproblemSequence::new()));
    s.push(Box::new(SubproblemSequence::new()));
    assert!(s.solve(true, &mut c));
    assert!(!s.solve(false, &mut c));
    assert_eq!(c.solution.len(), 2);
}

#[test]
fn extract_subproblem_of_one_is_that_one() {
    let mut c = context();
    let mut s = SubproblemSequence::new();
    s.add(Box::new(SubproblemSequence::new()));
    let mut one = s.extract_subproblem();
    assert!(one.solve(true, &mut c));
    let mut none = SubproblemSequence::new().extract_subproblem();
    assert!(!none.solve(false, &mut c));
}

#[test]
fn abstraction_matches_the_pattern_against_the_binding() {
    let mut c = context();
    c.solution.bind(1, Some(1));
    let pattern = LHSAutomaton::Variable(VariableLHSAutomaton::new(0, top_sort(), false));
    let mut p = VariableAbstractionSubproblem::new(pattern, 1, 2);
    assert!(!p.solved);
    assert!(p.subproblem.is_none());
    p.local = Substitution::with_capacity(2);
    assert!(p.solve(true, &mut c));
    // The pattern bound variable 0 in the local copy only.
    assert_eq!(p.local.value(0), Some(1));
    assert_eq!(p.local.value(1), Some(1));
    assert_eq!(c.solution.value(0), None);
    assert!(p.difference.is_none());
    // Without a nested subproblem the match has exactly one solution.
    assert!(!p.solve(false, &mut c));
    assert!(p.difference.is_none());
    assert!(p.subproblem.is_none());
    assert_eq!(c.solution.value(0), None);
    assert_eq!(c.solution.value(1), Some(1));
}

#[test]
fn abstraction_fails_when_the_pattern_does_not_match() {
    let mut c = context();
    c.solution.bind(1, Some(1));
    c.solution.bind(0, Some(0));
    let pattern = LHSAutomaton::Variable(VariableLHSAutomaton::new(0, top_sort(), false));
    let mut p = VariableAbstractionSubproblem::new(pattern, 1, 2);
    p.local = Substitution::with_capacity(2);
    assert!(!p.solve(true, &mut c));
}

#[test]
fn pattern_node_solve_succeeds() {
    let mut c = context();
    let mut node = PatternNode { multiplicity: 2, edges: Vec::new(), selected_edge: 0 };
    let mut current = vec![3u32, 4];
    assert!(node.solve(true, &mut c, &mut current));
    assert_eq!(current, vec![3, 4]);
    assert_eq!(node.multiplicity, 2);
}

#[test]
fn acu_subproblem_records_being_solved_and_finds_no_solution() {
    let mut c = context();
    let mut p = ACUSubproblem {
        subject: 1,
        extension_info: None,
        solved: false,
        current_multiplicity: vec![1, 2],
        top_variables: Vec::new(),
        pattern_nodes: Vec::new(),
        variable_map: Vec::new(),
        subject_map: Vec::new(),
        after_multiplicity: Vec::new(),
    };
    assert!(!p.is_solved());
    assert!(p.no_patterns());
    p.set_solved(true);
    assert!(p.is_solved());
    assert!(!p.delayed_solve(true, &mut c));
    assert!(!p.solve(true, &mut c));
    assert!(p.is_solved());
    assert_eq!(p.current_multiplicity, vec![1, 2]);
    p.pattern_nodes.push(PatternNode { multiplicity: 1, edges: Vec::new(), selected_edge: 0 });
    assert!(!p.no_patterns());
}

fn failing() -> ACUSubproblem {
    ACUSubproblem {
        subject: 1,
        extension_info: None,
        solved: false,
        current_multiplicity: Vec::new(),
        top_variables: Vec::new(),
        pattern_nodes: Vec::new(),
        variable_map: Vec::new(),
        subject_map: Vec::new(),
        after_multiplicity: Vec::new(),
    }
}

#[test]
fn sequence_fails_when_an_element_has_no_solution() {
    let mut c = context();
    let mut one = SubproblemSequence::new();
    one.add(Box::new(failing()));
    assert!(!one.solve(true, &mut c));
    assert!(!one.solve(false, &mut c));
    // An always solvable element before a failing one: backtracking finds no joint solution.
    let mut two = SubproblemSequence::new();
    two.add(Box::new(SubproblemSequence::new()));
    two.add(Box::new(failing()));
    assert!(!two.solve(true, &mut c));
    assert_eq!(c.solution.len(), 2);
}
