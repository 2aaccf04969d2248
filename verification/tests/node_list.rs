use mod_theory::node_list::NodeList;

#[test]
fn push_get_and_set() {
    let mut list = NodeList::new();
    assert_eq!(list.len(), 0);
    list.push(4);
    list.push(9);
    assert_eq!(list.len(), 2);
    assert_eq!(list.get(0), 4);
    assert_eq!(list.get(1), 9);
    list.set(0, 7);
    assert_eq!(list.get(0), 7);
    assert_eq!(list.get(1), 9);
}

#[test]
fn a_shared_reference_keeps_its_value_when_the_original_changes() {
    let mut list = NodeList::new();
    list.push(1);
    list.push(2);
    let shared = list.new_ref();
    let copy = list.clone_buffer();
    list.set(1, 5);
    list.push(6);
    assert_eq!(shared.len(), 2);
    assert_eq!(shared.get(1), 2);
    assert_eq!(copy.len(), 2);
    assert_eq!(copy.get(1), 2);
    assert_eq!(list.get(1), 5);
    assert_eq!(list.len(), 3);
}
