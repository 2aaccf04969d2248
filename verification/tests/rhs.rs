use mod_theory::dag_node::DagHeap;
use mod_theory::rhs_automaton::{
    with_arity_and_free_variable_count, FreeBinaryRHSAutomaton, FreeFast2RHSAutomaton, FreeRHSAutomaton,
    FreeRHSAutomatonInstruction, FreeRHSAutomatonKind, FreeUnaryRHSAutomaton, VariableInfo,
};
use mod_theory::substitution::Substitution;

/// A heap with the constant `a` (symbol 0) at node 0 and `b` (symbol 4) at node 1.
fn heap() -> DagHeap {
    let mut heap = DagHeap::new();
    heap.make_free_node(0);
    heap.make_free_node(4);
    heap
}

fn top_symbol(heap: &DagHeap, a: usize) -> usize {
    heap.nodes[a].dag_node_members().top_symbol
}

#[test]
fn automaton_kind_by_arity_and_count() {
    assert_eq!(with_arity_and_free_variable_count(4, 1), FreeRHSAutomatonKind::General);
    assert_eq!(with_arity_and_free_variable_count(3, 2), FreeRHSAutomatonKind::Fast3);
    assert_eq!(with_arity_and_free_variable_count(2, 5), FreeRHSAutomatonKind::Fast2);
    assert_eq!(with_arity_and_free_variable_count(3, 1), FreeRHSAutomatonKind::Ternary);
    assert_eq!(with_arity_and_free_variable_count(2, 1), FreeRHSAutomatonKind::Binary);
    assert_eq!(with_arity_and_free_variable_count(1, 0), FreeRHSAutomatonKind::Unary);
    assert_eq!(with_arity_and_free_variable_count(0, 1), FreeRHSAutomatonKind::Nullary);
}

#[test]
fn remap_index_reads_the_table() {
    let info = VariableInfo { remapping: vec![2, 0, 1] };
    assert_eq!(info.remap_index(0), 2);
    assert_eq!(info.remap_index(2), 1);
}

#[test]
fn general_automaton_builds_and_binds_each_node() {
    let mut heap = heap();
    let mut automaton = FreeRHSAutomaton::new();
    automaton.add_free(1, 2, &vec![0, 1]);
    automaton.add_free(2, 3, &vec![2]);
    assert_eq!(automaton.instructions.len(), 2);
    let mut matcher = Substitution::with_capacity(4);
    matcher.bind(0, Some(0));
    matcher.bind(1, Some(1));
    let r = automaton.construct(&mut matcher, &mut heap);
    assert_eq!(r, Some(3));
    assert_eq!(matcher.value(2), Some(2));
    assert_eq!(matcher.value(3), Some(3));
    assert_eq!(top_symbol(&heap, 2), 1);
    assert_eq!(top_symbol(&heap, 3), 2);
    // The arguments read from the sources are not stored in the new nodes.
    assert_eq!(heap.len(2), 0);
}

#[test]
fn general_automaton_with_no_instructions_builds_nothing() {
    let mut heap = heap();
    let automaton = FreeRHSAutomaton::new();
    let mut matcher = Substitution::with_capacity(1);
    assert_eq!(automaton.construct(&mut matcher, &mut heap), None);
    assert_eq!(heap.nodes.len(), 2);
}

#[test]
fn general_automaton_replace_rebuilds_in_place() {
    let mut heap = heap();
    let mut automaton = FreeRHSAutomaton::new();
    automaton.add_free(1, 2, &vec![0, 1]);
    automaton.add_free(2, 3, &vec![2]);
    let mut matcher = Substitution::with_capacity(4);
    matcher.bind(0, Some(0));
    matcher.bind(1, Some(1));
    automaton.replace(0, &mut matcher, &mut heap);
    assert_eq!(heap.nodes.len(), 3);
    assert_eq!(top_symbol(&heap, 0), 2);
    assert_eq!(top_symbol(&heap, 2), 1);
    assert_eq!(matcher.value(2), Some(2));
    assert_eq!(matcher.value(3), None);
}

#[test]
fn general_automaton_remaps_indices() {
    let mut automaton = FreeRHSAutomaton::new();
    automaton.add_free(1, 2, &vec![0, 1]);
    let mut info = VariableInfo { remapping: vec![5, 6, 7] };
    automaton.remap_indices(&mut info);
    assert_eq!(automaton.instructions[0].destination, 7);
    assert_eq!(automaton.instructions[0].sources, vec![5, 6]);
    assert_eq!(automaton.instructions[0].symbol, 1);
}

#[test]
fn unary_automaton_builds_one_node_with_its_argument() {
    let mut heap = heap();
    let mut automaton = FreeUnaryRHSAutomaton::new();
    automaton.instructions.push(FreeRHSAutomatonInstruction { symbol: 2, destination: 1, sources: vec![0] });
    let mut info = VariableInfo { remapping: vec![0, 1] };
    automaton.remap_indices(&mut info);
    assert_eq!(automaton.symbol, Some(2));
    assert_eq!(automaton.source, 0);
    assert_eq!(automaton.destination, 1);
    let mut matcher = Substitution::with_capacity(2);
    matcher.bind(0, Some(1));
    let r = automaton.construct(&mut matcher, &mut heap);
    assert_eq!(r, Some(2));
    assert_eq!(matcher.value(1), Some(2));
    assert_eq!(heap.len(2), 1);
    assert_eq!(heap.arg(2, 0), 1);

    automaton.replace(0, &mut matcher, &mut heap);
    assert_eq!(top_symbol(&heap, 0), 2);
    assert_eq!(heap.arg(0, 0), 1);
}

#[test]
fn binary_automaton_takes_variables_zero_and_one() {
    let mut heap = heap();
    let mut automaton = FreeBinaryRHSAutomaton::new();
    automaton.instructions.push(FreeRHSAutomatonInstruction { symbol: 1, destination: 2, sources: vec![1, 0] });
    let mut info = VariableInfo { remapping: vec![0, 1, 2] };
    automaton.remap_indices(&mut info);
    assert_eq!(automaton.sources, [1, 0]);
    let mut matcher = Substitution::with_capacity(3);
    matcher.bind(0, Some(0));
    matcher.bind(1, Some(1));
    let r = automaton.construct(&mut matcher, &mut heap).unwrap();
    // Whatever the sources say, the arguments are the bindings of variables 0 and 1.
    assert_eq!(heap.arg(r, 0), 0);
    assert_eq!(heap.arg(r, 1), 1);
    assert_eq!(matcher.value(2), Some(r));
}

#[test]
fn fast2_automaton_builds_each_node_with_two_arguments() {
    let mut heap = heap();
    let mut automaton = FreeFast2RHSAutomaton::new();
    automaton.instructions.push(FreeRHSAutomatonInstruction { symbol: 1, destination: 2, sources: vec![0, 1] });
    automaton.instructions.push(FreeRHSAutomatonInstruction { symbol: 1, destination: 3, sources: vec![2, 2] });
    let mut info = VariableInfo { remapping: vec![0, 1, 2, 3] };
    automaton.remap_indices(&mut info);
    assert_eq!(automaton.fast_instructions.len(), 2);
    assert_eq!(automaton.fast_instructions[1].sources, [2, 2]);
    let mut matcher = Substitution::with_capacity(4);
    matcher.bind(0, Some(0));
    matcher.bind(1, Some(1));
    let r = automaton.construct(&mut matcher, &mut heap);
    assert_eq!(r, Some(3));
    assert_eq!(heap.arg(2, 0), 0);
    assert_eq!(heap.arg(2, 1), 1);
    assert_eq!(heap.arg(3, 0), 2);
    assert_eq!(heap.arg(3, 1), 2);
    assert_eq!(matcher.value(3), Some(3));
}
