use mod_theory::acu::RedBlackNodeFlags;
use mod_theory::dag_node_flags::{DagNodeFlag, DagNodeFlags};
use mod_theory::free_remainder::Speed;
use mod_theory::symbol::{IString, SymbolMembers};
use mod_theory::symbol_type::{SymbolAttribute, SymbolType};
use mod_theory::{AssociativeSymbolStructure, Outcome};

#[test]
fn copied_flags_keep_rewriting_flags() {
    let mut flags = DagNodeFlags(0);
    let other = DagNodeFlags::from_flag(DagNodeFlag::Reduced);
    flags.set_copied_flags(other);
    assert!(flags.is_reduced());
}

#[test]
fn copied_flags_drop_the_copied_and_hash_flags() {
    let mut flags = DagNodeFlags(0);
    let other = DagNodeFlags(63);
    flags.set_copied_flags(other);
    assert_eq!(flags.0, 29);
    assert!(!flags.is_copied());
    assert!(!flags.is_hash_valid());
    assert!(flags.is_ground());
    assert!(flags.is_unstackable());
    assert!(flags.is_unrewritable());
}

#[test]
fn flag_bits() {
    assert_eq!(DagNodeFlag::Reduced.bit(), 1);
    assert_eq!(DagNodeFlag::HashValid.bit(), 32);
    assert_eq!(DagNodeFlags::rewriting_flags().0, 29);
    assert_eq!(DagNodeFlag::irreducible_by_variant_equations(), DagNodeFlag::Unrewritable);
    assert_eq!(DagNodeFlag::Copied.bitor(DagNodeFlag::Ground).0, 18);
    let f = DagNodeFlags(0).bitor_flag(DagNodeFlag::Copied);
    assert!(f.is_copied());
    assert!(!f.is_reduced());
    assert_eq!(f.bitand(DagNodeFlags(1)).0, 0);
}

#[test]
fn symbol_type_sets() {
    let mut t = SymbolType::from_attribute(SymbolAttribute::Assoc);
    assert!(t.is_set(SymbolAttribute::Assoc));
    assert!(!t.is_set(SymbolAttribute::Comm));
    t.set(SymbolAttribute::Comm.bitor(SymbolAttribute::LeftId));
    assert!(t.all_set(SymbolAttribute::Assoc.bitor(SymbolAttribute::Comm)));
    assert!(!t.all_set(SymbolAttribute::collapse()));
    assert!(t.any_set(SymbolAttribute::collapse()));
    assert_eq!(SymbolAttribute::axioms().0, 0x1f000);
    assert_eq!(SymbolAttribute::collapse().0, 0x1c000);
    assert!(SymbolAttribute::attributes().all_set(SymbolAttribute::axioms()));
}

#[test]
fn symbol_hash_holds_the_arity_in_the_top_byte() {
    let s = SymbolMembers::new(IString { id: 5 }, 2, false);
    assert_eq!(s.hash_value, 5 | (2 << 24));
    assert_eq!(s.compute_hash(), 0x0200_0005);
    assert_eq!(s.semantic_hash(), 0x0200_0005);
    assert!(!s.is_variable);
}

#[test]
fn small_enums() {
    assert_eq!(Speed::Fast.value(), -1);
    assert_eq!(Speed::Slow.value(), 0);
    assert_eq!(Speed::SuperFast.value(), 1);
    assert_eq!(Outcome::from_bool(true), Outcome::Success);
    assert_eq!(Outcome::from_bool(false), Outcome::Failure);
    assert_eq!(AssociativeSymbolStructure::LimitSort.repr(), "LIMIT_SORT");
    assert_eq!(AssociativeSymbolStructure::PureSort.repr(), "PURE_SORT");
    assert_eq!(AssociativeSymbolStructure::Unstructured.repr(), "UNSTRUCTURED");
    assert_eq!(RedBlackNodeFlags::Marked.bit_position(), 6);
    assert_eq!(RedBlackNodeFlags::Collect.bit_position(), 7);
}
