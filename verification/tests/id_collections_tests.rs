use spellclash::id_collections::{IdMap, IdSet};

#[test]
fn set_keeps_ids_sorted_without_duplicates() {
    let mut set = IdSet::new();
    assert!(set.is_empty());
    set.insert(5);
    set.insert(2);
    set.insert(9);
    set.insert(5);
    assert_eq!(set.ids, vec![2, 5, 9]);
    assert_eq!(set.len(), 3);
    assert!(set.contains(9));
    assert!(!set.contains(3));
}

#[test]
fn set_remove_takes_out_only_that_id() {
    let mut set = IdSet::new();
    set.insert(1);
    set.insert(4);
    set.insert(7);
    set.remove(4);
    assert_eq!(set.ids, vec![1, 7]);
    set.remove(3);
    assert_eq!(set.ids, vec![1, 7]);
}

#[test]
fn set_insert_then_remove_restores() {
    let mut set = IdSet::new();
    set.insert(3);
    set.insert(8);
    let before = set.ids.clone();
    set.insert(5);
    set.remove(5);
    assert_eq!(set.ids, before);
}

#[test]
fn map_insert_overwrites_and_orders_keys() {
    let mut map: IdMap<u32> = IdMap::new();
    map.insert(10, 1);
    map.insert(3, 2);
    map.insert(10, 7);
    assert_eq!(map.entries, vec![(3, 2), (10, 7)]);
    assert_eq!(map.get(10), Some(&7));
    assert_eq!(map.get(4), None);
    assert!(map.contains_key(3));
    assert_eq!(map.len(), 2);
}

#[test]
fn map_remove_and_find() {
    let mut map: IdMap<u32> = IdMap::new();
    map.insert(1, 10);
    map.insert(2, 20);
    map.insert(3, 30);
    assert_eq!(map.find(2), Some(1));
    map.remove(2);
    assert_eq!(map.entries, vec![(1, 10), (3, 30)]);
    assert_eq!(map.find(2), None);
    assert!(!map.is_empty());
}

#[test]
fn map_exactly_one() {
    let mut map: IdMap<u32> = IdMap::new();
    assert_eq!(map.exactly_one(), None);
    map.insert(6, 0);
    assert_eq!(map.exactly_one(), Some(6));
    map.insert(7, 0);
    assert_eq!(map.exactly_one(), None);
}

#[test]
fn map_insert_then_remove_restores() {
    let mut map: IdMap<u32> = IdMap::new();
    map.insert(2, 4);
    map.insert(9, 1);
    let before = map.entries.clone();
    map.insert(5, 3);
    map.remove(5);
    assert_eq!(map.entries, before);
}
