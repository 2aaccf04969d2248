use mod_theory::nat_set::NatSet;

fn set_of(items: &[usize]) -> NatSet {
    let mut s = NatSet::new();
    for &i in items {
        s.insert(i);
    }
    s
}

#[test]
fn insert_then_contains() {
    let s = set_of(&[3, 70]);
    assert!(s.contains(3));
    assert!(s.contains(70));
    assert!(!s.contains(4));
    assert!(!s.contains(1000));
    assert_eq!(s.len(), 2);
}

#[test]
fn empty_set() {
    let s = NatSet::new();
    assert!(s.is_empty());
    assert_eq!(s.len(), 0);
    let t = set_of(&[0]);
    assert!(!t.is_empty());
}

#[test]
fn union_difference_and_tests() {
    let mut a = set_of(&[1, 2]);
    let b = set_of(&[2, 5]);
    assert!(!a.is_disjoint(&b));
    assert!(set_of(&[1]).is_disjoint(&set_of(&[5])));
    a.union_in_place(&b);
    assert_eq!(a.len(), 3);
    assert!(a.is_superset(&b));
    assert!(!b.is_superset(&a));
    let d = a.difference(&b);
    assert!(d.contains(1));
    assert!(!d.contains(2));
    assert!(!d.contains(5));
    assert_eq!(d.len(), 1);
    let copy = d.duplicate();
    assert!(copy.contains(1));
    assert_eq!(copy.len(), 1);
}
