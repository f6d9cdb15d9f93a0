use source_wrench::names::{sort_by_name, NameMap};

fn list(names: &[&str]) -> NameMap<usize> {
    let mut list = NameMap::new();
    for (i, name) in names.iter().enumerate() {
        list.insert_full(name.to_string(), i);
    }
    list
}

#[test]
fn names_keep_their_order_of_insertion() {
    let list = list(&["pelvis", "spine", "head"]);
    assert_eq!(list.len(), 3);
    assert_eq!(list.get_index_of("spine"), Some(1));
    assert_eq!(list.get_index_of("tail"), None);
    assert_eq!(list.name_at(2), "head");
    assert_eq!(*list.value_at(2), 2);
}

#[test]
fn insert_full_leaves_a_known_name_alone() {
    let mut list = list(&["a", "b"]);
    assert_eq!(list.insert_full("a".to_string(), 9), (0, false));
    assert_eq!(*list.value_at(0), 0);
    assert_eq!(list.insert_full("c".to_string(), 9), (2, true));
    assert_eq!(list.len(), 3);
}

#[test]
fn insert_replaces_the_value_of_a_known_name() {
    let mut list = list(&["a", "b", "c"]);
    assert_eq!(list.insert("b".to_string(), 7), Some(1));
    assert_eq!(list.len(), 3);
    assert_eq!(list.get_index_of("b"), Some(1));
    assert_eq!(*list.value_at(1), 7);
    assert_eq!(*list.value_at(2), 2);
    assert_eq!(list.insert("d".to_string(), 8), None);
    assert_eq!(list.get_index_of("d"), Some(3));
}

#[test]
fn shift_remove_moves_the_rest_up() {
    let mut list = list(&["a", "b", "c", "d"]);
    assert_eq!(list.shift_remove_index(1), 1);
    assert_eq!(list.len(), 3);
    assert_eq!(list.name_at(1), "c");
    assert_eq!(*list.value_at(2), 3);
    assert_eq!(list.get_index_of("b"), None);
}

#[test]
fn set_value_changes_one_value() {
    let mut list = list(&["a", "b"]);
    list.set_value(1, 40);
    assert_eq!(*list.value_at(0), 0);
    assert_eq!(*list.value_at(1), 40);
}

#[test]
fn sort_by_name_orders_positions_by_their_names() {
    let list = list(&["spine", "Head", "arm", "pelvis", "arm2", ""]);
    assert_eq!(sort_by_name(&list), vec![5, 1, 2, 4, 3, 0]);
}

#[test]
fn sort_by_name_follows_code_points() {
    let list = list(&["b", "a", "B", "ä", "aa", "Z"]);
    let order = sort_by_name(&list);
    let mut expected: Vec<u8> = (0..6).collect();
    let names = ["b", "a", "B", "ä", "aa", "Z"];
    expected.sort_by(|x, y| names[*x as usize].cmp(names[*y as usize]));
    assert_eq!(order, expected);
    assert_eq!(order, vec![2, 5, 1, 4, 0, 3]);
}

#[test]
fn sort_by_name_of_nothing_is_nothing() {
    let list: NameMap<usize> = NameMap::new();
    assert!(sort_by_name(&list).is_empty());
}
