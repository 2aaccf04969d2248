use mod_theory::dag_node::{DagHeap, DagNode, Signature, VariableDagNode};
use mod_theory::lhs_automaton::{
    BindingLHSAutomaton, FreeLHSAutomaton, FreeSubterm, LHSAutomaton, NonGroundAlien, VariableLHSAutomaton,
};
use mod_theory::nat_set::NatSet;
use mod_theory::node_list::NodeList;
use mod_theory::substitution::Substitution;
use mod_theory::symbol::{IString, Sort, SymbolMembers, NONE};
use mod_theory::term::{FreeTerm, Term, TermStore, VariableTerm};

fn top_sort() -> Sort {
    Sort { sort_index: 1, leq_sorts: vec![true, true], fast_geq_sufficient: false, error_free_maximal: false }
}

/// Symbols: 0 = a (constant), 1 = f (binary), 2 = g (unary), 3 = X (variable of sort 1).
fn signature() -> Signature {
    let a = SymbolMembers::new(IString { id: 1 }, 0, false);
    let f = SymbolMembers::new(IString { id: 2 }, 2, false);
    let g = SymbolMembers::new(IString { id: 3 }, 1, false);
    let mut x = SymbolMembers::new(IString { id: 4 }, 0, false);
    x.is_variable = true;
    x.sort_table.op_declarations.push(vec![top_sort()]);
    Signature { symbols: vec![a, f, g, x], components: Vec::new() }
}

/// Nodes: a, f(a, a), g(f(a, a)), X, f(X, a).
fn heap() -> (DagHeap, [usize; 5]) {
    let mut heap = DagHeap::new();
    let a = heap.make_free_node(0);
    let fa = heap.make_free_node(1);
    heap.push_arg(fa, a);
    heap.push_arg(fa, a);
    let g = heap.make_free_node(2);
    heap.push_arg(g, fa);
    let x = heap.allocate(DagNode::Variable(VariableDagNode::new(3, IString { id: 4 }, 0)));
    let fx = heap.make_free_node(1);
    heap.push_arg(fx, x);
    heap.push_arg(fx, a);
    (heap, [a, fa, g, x, fx])
}

/// The automaton of f(Y, a) with Y, variable 0, matched as a non-ground alien.
fn f_y_a() -> LHSAutomaton {
    LHSAutomaton::Free(FreeLHSAutomaton {
        top_symbol: 1,
        stack: vec![NodeList::new()],
        free_subterms: vec![FreeSubterm { position: 0, arg_index: 1, symbol: 0, save_index: NONE }],
        uncertain_variables: Vec::new(),
        bound_variables: Vec::new(),
        ground_aliens: Vec::new(),
        non_ground_aliens: vec![NonGroundAlien {
            position: 0,
            arg_index: 0,
            automaton: LHSAutomaton::Variable(VariableLHSAutomaton::new(0, top_sort(), false)),
        }],
    })
}

#[test]
fn variable_binds_an_unbound_variable() {
    let sig = signature();
    let (mut heap, n) = heap();
    let v = VariableLHSAutomaton::new(0, top_sort(), false);
    let mut solution = Substitution::with_capacity(2);
    let (ok, sub) = v.match_(&sig, &mut heap, n[1], &mut solution);
    assert!(ok);
    assert!(sub.is_none());
    assert_eq!(solution.value(0), Some(n[1]));
}

#[test]
fn bound_variable_matches_only_an_equal_node() {
    let sig = signature();
    let (mut heap, n) = heap();
    let v = VariableLHSAutomaton::new(0, top_sort(), false);
    let mut solution = Substitution::with_capacity(1);
    solution.bind(0, Some(n[1]));
    let c = heap.shallow_copy(&sig, n[1]);
    assert!(v.match_(&sig, &mut heap, c, &mut solution).0);
    assert!(!v.match_(&sig, &mut heap, n[4], &mut solution).0);
    assert_eq!(solution.value(0), Some(n[1]));
}

#[test]
fn variable_of_a_higher_sort_fails() {
    let sig = signature();
    let (mut heap, n) = heap();
    let low = Sort { sort_index: 2, leq_sorts: vec![false, false, true], fast_geq_sufficient: false, error_free_maximal: false };
    let v = VariableLHSAutomaton::new(0, low, false);
    let mut solution = Substitution::with_capacity(1);
    assert!(!v.match_(&sig, &mut heap, n[0], &mut solution).0);
    assert_eq!(solution.value(0), None);
}

#[test]
fn variable_at_the_top_binds_a_copy() {
    let sig = signature();
    let (mut heap, n) = heap();
    let v = VariableLHSAutomaton::new(0, top_sort(), true);
    let mut solution = Substitution::with_capacity(1);
    assert!(v.match_(&sig, &mut heap, n[1], &mut solution).0);
    assert_eq!(solution.value(0), Some(5));
    assert!(heap.equal(&sig, 5, n[1]));
}

#[test]
fn variable_of_unknown_sort_gets_its_sort_computed() {
    let sig = signature();
    let (mut heap, n) = heap();
    let v = VariableLHSAutomaton::new(1, top_sort(), false);
    let mut solution = Substitution::with_capacity(2);
    assert_eq!(heap.get_sort_index(n[3]), -1);
    assert!(v.match_(&sig, &mut heap, n[3], &mut solution).0);
    assert_eq!(heap.get_sort_index(n[3]), 1);
    assert_eq!(solution.value(1), Some(n[3]));
}

#[test]
fn binding_automaton_binds_the_whole_subject_too() {
    let sig = signature();
    let terms = TermStore::new();
    let (mut heap, n) = heap();
    let inner = LHSAutomaton::Variable(VariableLHSAutomaton::new(0, top_sort(), false));
    let mut b = LHSAutomaton::Binding(BindingLHSAutomaton::new(1, inner));
    let mut solution = Substitution::with_capacity(2);
    let (ok, _) = b.match_(&sig, &terms, &mut heap, n[2], &mut solution);
    assert!(ok);
    assert_eq!(solution.value(0), Some(n[2]));
    assert_eq!(solution.value(1), Some(n[2]));
}

#[test]
fn free_automaton_matches_its_pattern() {
    let sig = signature();
    let terms = TermStore::new();
    let (mut heap, n) = heap();
    let mut automaton = f_y_a();
    let mut solution = Substitution::with_capacity(1);
    let (ok, subproblem) = automaton.match_(&sig, &terms, &mut heap, n[1], &mut solution);
    assert!(ok);
    assert!(subproblem.is_some());
    assert_eq!(solution.value(0), Some(n[0]));

    let mut other = Substitution::with_capacity(1);
    let (ok, _) = automaton.match_(&sig, &terms, &mut heap, n[4], &mut other);
    assert!(ok);
    assert_eq!(other.value(0), Some(n[3]));
}

#[test]
fn free_automaton_fails_on_another_symbol() {
    let sig = signature();
    let terms = TermStore::new();
    let (mut heap, n) = heap();
    let mut automaton = f_y_a();
    let mut solution = Substitution::with_capacity(1);
    let (ok, subproblem) = automaton.match_(&sig, &terms, &mut heap, n[2], &mut solution);
    assert!(!ok);
    assert!(subproblem.is_none());
    assert_eq!(solution.value(0), None);
}

#[test]
fn free_automaton_respects_an_earlier_binding() {
    let sig = signature();
    let terms = TermStore::new();
    let (mut heap, n) = heap();
    let mut automaton = f_y_a();
    let mut solution = Substitution::with_capacity(1);
    solution.bind(0, Some(n[3]));
    assert!(!automaton.match_(&sig, &terms, &mut heap, n[1], &mut solution).0);
    assert!(automaton.match_(&sig, &terms, &mut heap, n[4], &mut solution).0);
}

#[test]
fn compile_lhs_builds_the_skeleton() {
    let sig = signature();
    let mut terms = TermStore::new();
    let a = terms.add(Term::Free(FreeTerm::new(0)));
    let f = terms.add(Term::Free(FreeTerm::with_args(1, vec![a, a])));
    let g = terms.add(Term::Free(FreeTerm::with_args(2, vec![f])));
    let mut bound = NatSet::new();
    let (automaton, likely) = terms.compile_lhs(&sig, g, true, &mut bound);
    assert!(!likely);
    assert!(bound.is_empty());
    // A new term has save index 0, so the automaton also binds variable 0 to the subject.
    let inner = match automaton {
        LHSAutomaton::Binding(b) => {
            assert_eq!(b.variable_index, 0);
            *b.real_automaton
        },
        other => other,
    };
    match inner {
        LHSAutomaton::Free(fa) => {
            assert_eq!(fa.top_symbol, 2);
            assert_eq!(fa.free_subterms.len(), 3);
            assert_eq!(fa.free_subterms[0].symbol, 1);
            assert_eq!(fa.free_subterms[0].position, 0);
            assert_eq!(fa.free_subterms[1].symbol, 0);
            assert_eq!(fa.free_subterms[2].arg_index, 1);
            assert_eq!(fa.stack.len(), 2);
            assert!(fa.non_ground_aliens.is_empty());
        },
        _ => panic!("expected a free automaton"),
    }
}

#[test]
fn compile_variable_lhs_binds_the_variable() {
    let sig = signature();
    let mut terms = TermStore::new();
    let mut x = VariableTerm::new(IString { id: 4 }, 3);
    x.index = 2;
    let t = terms.add(Term::Variable(x));
    let mut bound = NatSet::new();
    let mut likely = true;
    let automaton = terms.compile_variable_lhs(&sig, t, true, &mut bound, &mut likely);
    assert!(!likely);
    assert!(bound.contains(2));
    let inner = match automaton {
        LHSAutomaton::Binding(b) => *b.real_automaton,
        other => other,
    };
    match inner {
        LHSAutomaton::Variable(v) => {
            assert_eq!(v.index, 2);
            assert!(v.copy_to_avoid_overwriting);
            assert_eq!(v.sort.sort_index, 1);
        },
        _ => panic!("expected a variable automaton"),
    }
}
