use game::keymap::{KeyMap, MapEntry};

#[test]
fn new_map_is_empty() {
    let m: KeyMap<u32, u32> = KeyMap::new();
    assert_eq!(m.len(), 0);
    assert!(m.get(&1).is_none());
}

#[test]
fn insert_then_get() {
    let mut m: KeyMap<u32, &str> = KeyMap::new();
    m.insert(7, "seven");
    m.insert(9, "nine");
    assert_eq!(m.len(), 2);
    assert_eq!(m.get(&7), Some(&"seven"));
    assert_eq!(m.get(&9), Some(&"nine"));
    assert!(m.get(&8).is_none());
}

#[test]
fn insert_replaces_value_of_same_key() {
    let mut m: KeyMap<u32, u32> = KeyMap::new();
    m.insert(1, 10);
    m.insert(1, 11);
    assert_eq!(m.len(), 1);
    assert_eq!(m.get(&1), Some(&11));
}

#[test]
fn get_mut_changes_value_in_place() {
    let mut m: KeyMap<u32, u32> = KeyMap::new();
    m.insert(3, 30);
    if let Some(v) = m.get_mut(&3) {
        *v = 31;
    }
    assert_eq!(m.get(&3), Some(&31));
    assert!(m.get_mut(&4).is_none());
    assert_eq!(m.len(), 1);
}

#[test]
fn remove_gives_back_value() {
    let mut m: KeyMap<u32, u32> = KeyMap::new();
    m.insert(1, 10);
    m.insert(2, 20);
    m.insert(3, 30);
    assert_eq!(m.remove(&2), Some(20));
    assert_eq!(m.len(), 2);
    assert!(m.get(&2).is_none());
    assert_eq!(m.get(&1), Some(&10));
    assert_eq!(m.get(&3), Some(&30));
    assert_eq!(m.remove(&2), None);
    assert_eq!(m.len(), 2);
}

#[test]
fn read_after_write_law() {
    let mut m: KeyMap<u32, u32> = KeyMap::new();
    for k in 0..20u32 {
        m.insert(k, k * 2);
    }
    m.insert(5, 500);
    assert_eq!(m.get(&5), Some(&500));
    assert_eq!(m.get(&6), Some(&12));
    assert_eq!(m.len(), 20);
    assert_eq!(m.remove(&5), Some(500));
    assert!(m.get(&5).is_none());
    assert_eq!(m.len(), 19);
}

#[test]
fn entry_vacant_for_missing_key() {
    let mut m: KeyMap<u32, u32> = KeyMap::new();
    m.insert(1, 10);
    match m.entry(2) {
        MapEntry::Vacant(e) => assert_eq!(e.key, 2),
        MapEntry::Occupied(_) => panic!("key 2 is not in the table"),
    }
    assert_eq!(m.len(), 1);
}

#[test]
fn entry_occupied_get_and_remove() {
    let mut m: KeyMap<u32, u32> = KeyMap::new();
    m.insert(1, 10);
    m.insert(2, 20);
    match m.entry(2) {
        MapEntry::Occupied(e) => {
            assert_eq!(*e.get(), 20);
            e.remove();
        },
        MapEntry::Vacant(_) => panic!("key 2 is in the table"),
    }
    assert!(m.get(&2).is_none());
    assert_eq!(m.get(&1), Some(&10));
    assert_eq!(m.len(), 1);
}

#[test]
fn pair_at_lists_each_key_once() {
    let mut m: KeyMap<u32, u32> = KeyMap::new();
    m.insert(4, 40);
    m.insert(5, 50);
    m.insert(4, 41);
    let mut seen = vec![];
    for i in 0..m.len() {
        let (k, v) = m.pair_at(i);
        seen.push((*k, *v));
    }
    seen.sort();
    assert_eq!(seen, vec![(4, 41), (5, 50)]);
}
