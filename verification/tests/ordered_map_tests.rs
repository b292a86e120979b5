use jsprint::ordered_map::OrderedMap;
use jsprint::sorting::{arrange, sort_order};

#[test]
fn map_keeps_its_keys_in_order() {
    let mut map: OrderedMap<u32> = OrderedMap::new();
    assert!(map.is_empty());
    assert_eq!(map.insert("m".to_string(), 1), None);
    assert_eq!(map.insert("a".to_string(), 2), None);
    assert_eq!(map.insert("z".to_string(), 3), None);
    assert_eq!(map.insert("ab".to_string(), 4), None);
    assert_eq!(map.len(), 4);
    assert_eq!(map.keys(), vec!["a", "ab", "m", "z"]);
    assert_eq!(map.key_at(1), "ab");
    assert_eq!(map.value_at(1), &4);
    assert_eq!(map.get("m"), Some(&1));
    assert_eq!(map.get("b"), None);
    assert!(map.contains_key("z"));
    assert!(!map.contains_key(""));
}

#[test]
fn map_insert_replaces_and_remove_takes_out() {
    let mut map: OrderedMap<u32> = OrderedMap::new();
    map.insert("k".to_string(), 1);
    map.insert("j".to_string(), 5);
    assert_eq!(map.insert("k".to_string(), 2), Some(1));
    assert_eq!(map.len(), 2);
    assert_eq!(map.get("k"), Some(&2));
    assert_eq!(map.remove("x"), None);
    assert_eq!(map.remove("j"), Some(5));
    assert_eq!(map.keys(), vec!["k"]);
    assert_eq!(map.remove("k"), Some(2));
    assert!(map.is_empty());
    let copy = map.clone();
    assert!(copy.is_empty());
}

#[test]
fn sorting_is_stable() {
    let keys: Vec<u64> = vec![3, 1, 2, 1, 3, 0];
    let order = sort_order(&keys);
    assert_eq!(order, vec![5, 1, 3, 2, 0, 4]);
    let items = vec!['a', 'b', 'c', 'd', 'e', 'f'];
    assert_eq!(arrange(&items, &order), vec!['f', 'b', 'd', 'c', 'a', 'e']);
    let none: Vec<u64> = vec![];
    assert!(sort_order(&none).is_empty());
}

#[test]
fn absent_keys_sort_first() {
    let keys: Vec<Option<&str>> = vec![Some("b"), None, Some("a"), None, Some("ab")];
    assert_eq!(sort_order(&keys), vec![1, 3, 2, 4, 0]);
    let names: Vec<&str> = vec!["Sprint 10", "Sprint 9", "Sprint 1"];
    assert_eq!(sort_order(&names), vec![2, 0, 1]);
}
