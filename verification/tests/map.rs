use std::collections::HashMap;

use vnodes::intern::Interned;
use vnodes::map::{lower_bound, search, InternedMap};

#[test]
fn check_insert_get() {
    const KEYS: &[&str] = &[
        "abc", "whatever", "hello", "okay", "makes", "sense", "w1th", "numb3rs", "s0m3", "m0r3",
    ];

    let mut cmp: HashMap<_, _> = HashMap::default();
    let mut map = InternedMap::new();

    for (i, &key) in KEYS.iter().enumerate() {
        let interned = Interned::from(key);
        map.insert(interned, i);
        cmp.insert(interned, i);
    }

    for (key, value) in cmp {
        assert_eq!(map.get(key), Some(&value));
    }
}

#[test]
fn keys_stay_strictly_ascending() {
    let mut map = InternedMap::new();
    for key in [50u64, 10, 40, 10, 30, 20, 50, 0, u64::MAX] {
        map.insert(Interned(key), key + 1);
        let keys = map.keys();
        for pair in keys.windows(2) {
            assert!(pair[0] < pair[1]);
        }
        assert_eq!(map.keys().len(), map.values().len());
    }
    assert_eq!(map.keys(), &vec![0, 10, 20, 30, 40, 50, u64::MAX]);
    assert_eq!(map.len(), 7);
}

#[test]
fn insert_replaces_and_returns_the_old_value() {
    let mut map = InternedMap::new();
    assert_eq!(map.insert(Interned(5), "first"), None);
    assert_eq!(map.insert(Interned(5), "second"), Some("first"));
    assert_eq!(map.get(Interned(5)), Some(&"second"));
    assert_eq!(map.len(), 1);
}

#[test]
fn get_on_an_empty_map_finds_nothing() {
    let map: InternedMap<u8> = InternedMap::new();
    assert_eq!(map.get(Interned(0)), None);
    assert!(!map.contains_key(Interned(0)));
    assert_eq!(map.len(), 0);
}

#[test]
fn get_mut_writes_through() {
    let mut map = InternedMap::new();
    map.insert(Interned(1), 10);
    map.insert(Interned(2), 20);
    *map.get_mut(Interned(2)).unwrap() = 21;
    assert_eq!(map.get(Interned(2)), Some(&21));
    assert_eq!(map.get(Interned(1)), Some(&10));
    assert!(map.get_mut(Interned(3)).is_none());
}

#[test]
fn search_finds_every_key_in_arrays_of_every_size() {
    for len in 0..70usize {
        let keys: Vec<u64> = (0..len as u64).map(|k| 3 * k + 1).collect();
        for (i, &key) in keys.iter().enumerate() {
            assert_eq!(search(key, &keys), Some(i));
            assert_eq!(lower_bound(key, &keys), i);
            assert_eq!(search(key + 1, &keys), None);
            assert_eq!(lower_bound(key + 1, &keys), i + 1);
        }
        assert_eq!(search(0, &keys), None);
        assert_eq!(lower_bound(0, &keys), 0);
    }
}

#[test]
fn five_hundred_identifiers() {
    let prefixes = [
        "abc", "hello", "okay", "makes", "sense", "w1th", "numb3", "s0m3", "m0r3", "last",
    ];
    let mut map = InternedMap::new();
    for (p, prefix) in prefixes.iter().enumerate() {
        for suffix in 0..50usize {
            let name = format!("{}{}", prefix, suffix);
            map.insert(Interned::from(name.as_str()), p * 50 + suffix);
        }
    }
    assert_eq!(map.len(), 500);
    for (p, prefix) in prefixes.iter().enumerate() {
        for suffix in 0..50usize {
            let name = format!("{}{}", prefix, suffix);
            assert_eq!(map.get(Interned::from(name.as_str())), Some(&(p * 50 + suffix)));
        }
    }
    assert_eq!(map.get(Interned::from("abc999")), None);
}

#[test]
fn remove_takes_one_binding_out() {
    let mut map = InternedMap::new();
    for key in [3u64, 1, 2] {
        map.insert(Interned(key), key * 10);
    }
    assert_eq!(map.remove(Interned(2)), Some(20));
    assert_eq!(map.remove(Interned(2)), None);
    assert_eq!(map.keys(), &vec![1, 3]);
    assert_eq!(map.values(), &vec![10, 30]);
    assert_eq!(map.get(Interned(3)), Some(&30));
}
