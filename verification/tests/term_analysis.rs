use mod_theory::dag_node::Signature;
use mod_theory::rhs_automaton::VariableInfo;
use mod_theory::symbol::{IString, SymbolMembers};
use mod_theory::term::{FreeTerm, Term, TermStore, VariableTerm};

/// Symbols: 0 = zero : -> Nat (sort 1), 1 = s : Nat -> Nat, 2 = X (variable), 3 = c (constant).
fn signature() -> Signature {
    let mut zero = SymbolMembers::new(IString { id: 1 }, 0, false);
    zero.sort_table.sort_diagram = vec![1];
    zero.sort_table.range_component = 0;
    let mut s = SymbolMembers::new(IString { id: 2 }, 1, false);
    s.sort_table.sort_diagram = vec![0, 2, 2];
    s.sort_table.range_component = 0;
    let mut x = SymbolMembers::new(IString { id: 3 }, 0, false);
    x.is_variable = true;
    x.sort_table.sort_diagram = vec![2];
    x.sort_table.range_component = 1;
    let c = SymbolMembers::new(IString { id: 4 }, 0, false);
    Signature { symbols: vec![zero, s, x, c], components: Vec::new() }
}

/// Terms: 0 = zero, 1 = s(zero), 2 = s(s(zero)), 3 = X, 4 = s(X), 5 = c.
fn terms() -> TermStore {
    let mut terms = TermStore::new();
    terms.add(Term::Free(FreeTerm::new(0)));
    terms.add(Term::Free(FreeTerm::with_args(1, vec![0])));
    terms.add(Term::Free(FreeTerm::with_args(1, vec![1])));
    terms.add(Term::Variable(VariableTerm::new(IString { id: 3 }, 2)));
    terms.add(Term::Free(FreeTerm::with_args(1, vec![3])));
    terms.add(Term::Free(FreeTerm::new(3)));
    terms
}

#[test]
fn analyse_collapses_marks_free_terms_below() {
    let sig = signature();
    let mut terms = terms();
    terms.analyse_collapses(&sig, 4);
    assert!(terms.is_stable(4));
    // A variable is never stable.
    assert!(!terms.is_stable(3));
    // Terms not below are left alone.
    assert!(!terms.is_stable(1));
}

#[test]
fn analyse_collapses_skips_terms_that_may_collapse() {
    let sig = signature();
    let mut terms = terms();
    match &mut terms.terms[1] {
        Term::Free(f) => f.term_members.collapse_set.push(0),
        Term::Variable(_) => {},
    }
    terms.analyse_collapses(&sig, 2);
    assert!(terms.is_stable(2));
    assert!(!terms.is_stable(1));
    assert!(terms.is_stable(0));
}

#[test]
fn insert_abstraction_variables_marks_everything_below() {
    let sig = signature();
    let mut terms = terms();
    let mut info = VariableInfo { remapping: vec![4, 5] };
    terms.insert_abstraction_variables(&sig, 4, &mut info);
    assert!(terms.honors_ground_out_match(4));
    assert!(terms.honors_ground_out_match(3));
    assert!(!terms.honors_ground_out_match(2));
    assert_eq!(info.remapping, vec![4, 5]);
}

#[test]
fn fill_in_sort_info_walks_the_diagrams() {
    let sig = signature();
    let mut terms = terms();
    terms.fill_in_sort_info(&sig, 2);
    assert_eq!(terms.terms[0].term_members().sort_index, 1);
    assert_eq!(terms.terms[1].term_members().sort_index, 2);
    assert_eq!(terms.terms[2].term_members().sort_index, 2);
    assert_eq!(terms.terms[2].term_members().connected_component, 0);
    terms.fill_in_sort_info(&sig, 4);
    assert_eq!(terms.terms[3].term_members().sort_index, 2);
    assert_eq!(terms.terms[3].term_members().connected_component, 1);
    assert_eq!(terms.terms[4].term_members().sort_index, 2);
    // Untouched terms keep an unknown sort.
    assert_eq!(terms.terms[5].term_members().sort_index, -1);
}

#[test]
fn analyses_are_idempotent() {
    let sig = signature();
    let mut once = terms();
    once.analyse_collapses(&sig, 2);
    once.fill_in_sort_info(&sig, 2);
    let mut info = VariableInfo { remapping: Vec::new() };
    once.insert_abstraction_variables(&sig, 2, &mut info);
    let attributes: Vec<u8> = once.terms.iter().map(|t| t.term_members().attributes).collect();
    let sorts: Vec<i32> = once.terms.iter().map(|t| t.term_members().sort_index).collect();
    once.analyse_collapses(&sig, 2);
    once.fill_in_sort_info(&sig, 2);
    once.insert_abstraction_variables(&sig, 2, &mut info);
    let attributes_again: Vec<u8> = once.terms.iter().map(|t| t.term_members().attributes).collect();
    let sorts_again: Vec<i32> = once.terms.iter().map(|t| t.term_members().sort_index).collect();
    assert_eq!(attributes, attributes_again);
    assert_eq!(sorts, sorts_again);
    assert_eq!(attributes[2], 1 | 4);
}
