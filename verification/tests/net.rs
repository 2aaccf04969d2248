use std::collections::HashSet;

use mod_theory::dag_node::Signature;
use mod_theory::free_net::{sort_triples, FreeNet, TestNode, Triple};
use mod_theory::free_remainder::{FreeRemainder, PreEquation, Speed};
use mod_theory::lhs_compiler::FreeOccurrence;
use mod_theory::symbol::{ConnectedComponent, IString, Sort, SymbolMembers, NONE};
use mod_theory::term::{FreeTerm, Term, TermStore, VariableTerm};

fn sort(index: i32, fast: bool, maximal: bool) -> Sort {
    Sort { sort_index: index, leq_sorts: vec![true, true], fast_geq_sufficient: fast, error_free_maximal: maximal }
}

/// Symbols: 0 = a (hash 1), 1 = f (binary), 2 = g (unary), 3 = X (variable of `var_sort`).
fn signature(var_sort: Sort) -> Signature {
    let mut a = SymbolMembers::new(IString { id: 1 }, 0, false);
    a.set_module_information(10);
    let mut f = SymbolMembers::new(IString { id: 2 }, 2, false);
    f.set_module_information(11);
    let mut g = SymbolMembers::new(IString { id: 3 }, 1, false);
    g.set_module_information(12);
    let mut x = SymbolMembers::new(IString { id: 4 }, 0, false);
    x.is_variable = true;
    x.sort_table.op_declarations.push(vec![var_sort]);
    Signature {
        symbols: vec![a, f, g, x],
        components: vec![ConnectedComponent { sorts: vec![sort(0, false, false)] }],
    }
}

#[test]
fn new_net_is_empty_and_fast() {
    let net = FreeNet::new();
    assert!(net.fast_handling());
    assert!(net.net.is_empty());
    assert!(!net.apply_replace());
}

#[test]
fn allocate_node_adds_blank_tests() {
    let mut net = FreeNet::new();
    assert_eq!(net.allocate_node(3), 0);
    assert_eq!(net.allocate_node(2), 3);
    assert_eq!(net.net.len(), 5);
    assert_eq!(net.net[4].equal, TestNode::new().equal);
}

#[test]
fn remainder_lists_are_encoded_by_complement() {
    let mut net = FreeNet::new();
    let mut live: HashSet<i32> = HashSet::new();
    live.insert(7);
    assert_eq!(net.add_remainder_list(live.clone()), -1);
    assert_eq!(net.add_remainder_list(live), -2);
    assert_eq!(net.applicable.len(), 2);
}

#[test]
fn more_important_prefers_free_symbols_of_higher_arity() {
    let sig = signature(sort(1, true, true));
    let net = FreeNet::new();
    assert!(net.more_important(&sig, 0, 3));
    assert!(!net.more_important(&sig, 3, 0));
    assert!(net.more_important(&sig, 1, 2));
    assert!(!net.more_important(&sig, 2, 1));
    assert!(!net.more_important(&sig, 0, 0));
}

#[test]
fn sort_triples_orders_by_hash() {
    let sig = signature(sort(1, true, true));
    let mut triples = vec![
        Triple { symbol: 2, slot: 0, subtree: 30 },
        Triple { symbol: 0, slot: 1, subtree: 10 },
        Triple { symbol: 1, slot: 2, subtree: 20 },
        Triple { symbol: 0, slot: 3, subtree: 11 },
    ];
    sort_triples(&sig, &mut triples);
    let symbols: Vec<usize> = triples.iter().map(|t| t.symbol).collect();
    // The hash of g (arity 1) is below that of f (arity 2).
    assert_eq!(symbols, vec![0, 0, 2, 1]);
    // Equal keys keep their order.
    assert_eq!(triples[0].subtree, 10);
    assert_eq!(triples[1].subtree, 11);
}

#[test]
fn fill_out_node_builds_a_ternary_tree() {
    let sig = signature(sort(1, true, true));
    let mut net = FreeNet::new();
    net.allocate_node(3);
    net.fill_out_node(&sig, 0, 0, 1, &vec![2, 0, 1], &vec![30, 10, 20], &vec![NONE, NONE, 5], 0);
    // In hash order a, g, f: the middle symbol, g, is tested first; a before it, f after it.
    assert_eq!(net.net[0].symbol_index, 12);
    assert_eq!(net.net[0].equal, 30);
    assert_eq!(net.net[0].slot, NONE);
    assert_eq!(net.net[0].not_equal, (1, 2));
    assert_eq!(net.net[0].position, 0);
    assert_eq!(net.net[0].arg_index, 1);
    assert_eq!(net.net[1].symbol_index, 10);
    assert_eq!(net.net[1].equal, 10);
    assert_eq!(net.net[1].not_equal, (0, 0));
    assert_eq!(net.net[1].position, NONE);
    assert_eq!(net.net[2].symbol_index, 11);
    assert_eq!(net.net[2].equal, 20);
    assert_eq!(net.net[2].slot, 5);
}

#[test]
fn build_ternary_tree_of_two_takes_the_more_important_middle() {
    let sig = signature(sort(1, true, true));
    let mut net = FreeNet::new();
    net.allocate_node(2);
    let triples = vec![Triple { symbol: 0, slot: NONE, subtree: 10 }, Triple { symbol: 1, slot: NONE, subtree: 20 }];
    let mut index: usize = 0;
    net.build_ternary_tree(&sig, &mut index, &triples, 0, 1, -1, 0, 0);
    assert_eq!(index, 2);
    assert_eq!(net.net[0].symbol_index, 11);
    assert_eq!(net.net[0].not_equal, (1, -1));
    assert_eq!(net.net[1].symbol_index, 10);
}

#[test]
fn translate_slots_renames_slots_and_positions() {
    let mut net = FreeNet::new();
    net.allocate_node(2);
    net.net[0].slot = 1;
    net.net[0].position = 0;
    net.net[1].slot = NONE;
    net.net[1].position = NONE;
    net.translate_slots(3, &vec![4, 7]);
    assert_eq!(net.stack.len(), 3);
    assert_eq!(net.net[0].slot, 7);
    assert_eq!(net.net[0].position, 4);
    assert_eq!(net.net[1].slot, NONE);
    assert_eq!(net.net[1].position, NONE);
}

/// The pattern f(X, a): terms X, a, f(X, a).
fn pattern(save_top: bool) -> TermStore {
    let mut terms = TermStore::new();
    let mut x = VariableTerm::new(IString { id: 4 }, 3);
    x.index = 1;
    let x = terms.add(Term::Variable(x));
    let mut a = FreeTerm::new(0);
    a.term_members.save_index = NONE;
    let a = terms.add(Term::Free(a));
    let mut f = FreeTerm::with_args(1, vec![x, a]);
    if !save_top {
        f.term_members.save_index = NONE;
    }
    terms.add(Term::Free(f));
    terms
}

fn remainder(sig: &Signature, terms: &TermStore, equation: PreEquation) -> FreeRemainder {
    let free_symbols = vec![FreeOccurrence::new(0, 0, 2), FreeOccurrence::new(0, 1, 1)];
    let free_variables = vec![FreeOccurrence::new(0, 0, 0)];
    FreeRemainder::new(
        terms,
        sig,
        equation,
        &free_symbols,
        &free_variables,
        &Vec::new(),
        &Vec::new(),
        &Vec::new(),
        &Vec::new(),
        Vec::new(),
        &vec![3],
    )
}

#[test]
fn remainder_speed_follows_the_variable_sorts() {
    let unconditional = PreEquation { index: 0, has_condition: false };
    let terms = pattern(false);
    let super_fast = remainder(&signature(sort(1, true, true)), &terms, unconditional);
    assert_eq!(super_fast.fast, Speed::SuperFast);
    let fast = remainder(&signature(sort(1, true, false)), &terms, unconditional);
    assert_eq!(fast.fast, Speed::Fast);
    let slow = remainder(&signature(sort(1, false, true)), &terms, unconditional);
    assert_eq!(slow.fast, Speed::Slow);
    let conditional = remainder(&signature(sort(1, true, true)), &terms, PreEquation { index: 0, has_condition: true });
    assert_eq!(conditional.fast, Speed::Slow);
    assert!(!super_fast.foreign);
    assert_eq!(super_fast.equation.index, 0);
}

#[test]
fn remainder_variables_come_with_translated_slots() {
    let sig = signature(sort(1, true, true));
    let r = remainder(&sig, &pattern(false), PreEquation { index: 2, has_condition: false });
    assert_eq!(r.free_variables.len(), 1);
    assert_eq!(r.free_variables[0].position, 3);
    assert_eq!(r.free_variables[0].arg_index, 0);
    assert_eq!(r.free_variables[0].var_index, 1);
    assert_eq!(r.free_variables[0].sort.sort_index, 1);
}

#[test]
fn remainder_saves_skeleton_nodes_in_error_sort_variables() {
    let sig = signature(sort(1, true, true));
    let r = remainder(&sig, &pattern(true), PreEquation { index: 2, has_condition: false });
    assert_eq!(r.free_variables.len(), 2);
    assert_eq!(r.free_variables[1].var_index, 0);
    assert_eq!(r.free_variables[1].sort.sort_index, 0);
    assert_eq!(r.free_variables[1].position, 3);
}

#[test]
fn foreign_remainder_is_slow_and_empty() {
    let r = FreeRemainder::with_equation(PreEquation { index: 4, has_condition: true });
    assert_eq!(r.fast, Speed::Slow);
    assert!(r.foreign);
    assert!(r.free_variables.is_empty());
}

#[test]
fn ternary_tree_search_reaches_every_triple() {
    // Five constants whose hashes are their names, so the triples below are in hash order.
    let mut symbols = Vec::new();
    for i in 0..5u32 {
        let mut s = SymbolMembers::new(IString { id: i + 1 }, 0, false);
        s.set_module_information(20 + i as i32);
        symbols.push(s);
    }
    let sig = Signature { symbols, components: vec![ConnectedComponent { sorts: vec![sort(0, false, false)] }] };
    let triples: Vec<Triple> =
        (0..5usize).map(|i| Triple { symbol: i, slot: 100 + i as i32, subtree: 50 + i as i32 }).collect();
    let mut net = FreeNet::new();
    net.allocate_node(5);
    let mut index: usize = 0;
    net.build_ternary_tree(&sig, &mut index, &triples, 0, 4, -7, 0, 0);
    assert_eq!(index, 5);
    for k in 0..5usize {
        let mut p: i32 = 0;
        let mut steps = 0;
        loop {
            let node = &net.net[p as usize];
            let tested = (node.symbol_index - 20) as usize;
            if tested == k {
                break;
            }
            p = if k < tested { node.not_equal.0 } else { node.not_equal.1 };
            assert!(p >= 0);
            steps += 1;
            assert!(steps < 5);
        }
        let found = &net.net[p as usize];
        assert_eq!(found.slot, 100 + k as i32);
        assert_eq!(found.equal, 50 + k as i32);
    }
}
