use mod_theory::dag_node::{DagHeap, DagNode, FreeDagNode, Signature};
use mod_theory::substitution::{LocalBindings, Substitution};
use mod_theory::symbol::{IString, SymbolMembers};

fn one_constant() -> (Signature, DagHeap, usize, usize) {
    let sig = Signature {
        symbols: vec![SymbolMembers::new(IString { id: 7 }, 0, false)],
        components: Vec::new(),
    };
    let mut heap = DagHeap::new();
    let a = heap.allocate(DagNode::Free(FreeDagNode::new(0)));
    let b = heap.allocate(DagNode::Free(FreeDagNode::new(0)));
    (sig, heap, a, b)
}

#[test]
fn with_capacity_starts_unbound() {
    let s = Substitution::with_capacity(3);
    assert_eq!(s.len(), 3);
    assert_eq!(s.fragile_binding_count(), 3);
    for i in 0..3u32 {
        assert_eq!(s.value(i), None);
    }
    assert_eq!(s.get(10), None);
}

#[test]
fn bind_then_read_gives_the_binding() {
    let mut s = Substitution::with_capacity(3);
    s.bind(1, Some(42));
    assert_eq!(s.value(1), Some(42));
    assert_eq!(s.value(0), None);
    assert_eq!(s.value(2), None);
    s.bind(1, None);
    assert_eq!(s.value(1), None);
}

#[test]
fn resize_keeps_old_bindings_and_adds_unbound_ones() {
    let mut s = Substitution::with_capacity(2);
    s.bind(0, Some(5));
    s.resize(4);
    assert_eq!(s.len(), 4);
    assert_eq!(s.value(0), Some(5));
    assert_eq!(s.value(3), None);
    s.resize(1);
    assert_eq!(s.len(), 1);
    assert_eq!(s.value(0), Some(5));
}

#[test]
fn copy_from_substitution_copies_only_with_a_copy_size() {
    let mut original = Substitution::with_capacity(2);
    original.bind(1, Some(9));
    let mut copy = Substitution::with_capacity(2);
    copy.copy_from_substitution(&original);
    assert_eq!(copy.value(1), Some(9));

    let mut empty_original = Substitution::new();
    empty_original.bindings.push(Some(3));
    let mut target = Substitution::new();
    target.copy_from_substitution(&empty_original);
    assert_eq!(target.len(), 0);
}

#[test]
fn subtract_of_consistent_substitutions_is_none() {
    let (sig, heap, a, b) = one_constant();
    let mut current = Substitution::with_capacity(3);
    current.bind(0, Some(a));
    current.bind(1, Some(b));
    let mut original = Substitution::with_capacity(3);
    original.bind(0, Some(a));
    assert!(current.subtract(&original, &sig, &heap).is_none());
}

#[test]
fn local_bindings_assert_then_retract_restores() {
    let mut local = LocalBindings::new();
    local.add_binding(0, 11);
    local.add_binding(2, 12);
    assert_eq!(local.len(), 2);
    let mut s = Substitution::with_capacity(3);
    s.bind(1, Some(4));
    local.assert_bindings(&mut s);
    assert_eq!(s.value(0), Some(11));
    assert_eq!(s.value(1), Some(4));
    assert_eq!(s.value(2), Some(12));
    local.retract(&mut s);
    assert_eq!(s.value(0), None);
    assert_eq!(s.value(1), Some(4));
    assert_eq!(s.value(2), None);
}

#[test]
fn later_local_binding_of_the_same_variable_wins() {
    let mut local = LocalBindings::new();
    local.add_binding(0, 1);
    local.add_binding(0, 2);
    let mut s = Substitution::with_capacity(1);
    local.assert_bindings(&mut s);
    assert_eq!(s.value(0), Some(2));
}
