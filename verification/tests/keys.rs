use turingdb::keys::{key_order, KeyList, KeyOrder};
use turingdb::names::{is_component, same_text, sort_names};

#[test]
fn key_order_is_lexicographic() {
    assert_eq!(key_order(b"", b""), KeyOrder::Same);
    assert_eq!(key_order(b"", b"a"), KeyOrder::Before);
    assert_eq!(key_order(b"a", b""), KeyOrder::After);
    assert_eq!(key_order(b"abc", b"abd"), KeyOrder::Before);
    assert_eq!(key_order(b"abd", b"abc"), KeyOrder::After);
    assert_eq!(key_order(b"ab", b"abc"), KeyOrder::Before);
    assert_eq!(key_order(b"abc", b"ab"), KeyOrder::After);
    assert_eq!(key_order(b"abc", b"abc"), KeyOrder::Same);
    assert_eq!(key_order(&[0xff], &[0x00, 0x01]), KeyOrder::After);
    assert_eq!(key_order(&[0x7f], &[0x80]), KeyOrder::Before);
}

#[test]
fn key_order_agrees_with_slices() {
    let samples: Vec<&[u8]> = vec![b"", b"a", b"aa", b"ab", b"b", &[0], &[0, 0], &[255], &[1, 255]];
    for a in &samples {
        for b in &samples {
            let expected = match a.cmp(b) {
                std::cmp::Ordering::Less => KeyOrder::Before,
                std::cmp::Ordering::Equal => KeyOrder::Same,
                std::cmp::Ordering::Greater => KeyOrder::After,
            };
            assert_eq!(key_order(a, b), expected);
        }
    }
}

#[test]
fn key_list_stays_sorted_and_without_repeats() {
    let mut list = KeyList::new();
    assert!(list.is_empty());
    assert!(list.insert(b"m"));
    assert!(list.insert(b"a"));
    assert!(list.insert(b"z"));
    assert!(list.insert(b"mm"));
    assert!(!list.insert(b"a"));
    assert!(!list.insert(b"mm"));
    assert_eq!(list.len(), 4);
    assert_eq!(list.to_vec(), vec![b"a".to_vec(), b"m".to_vec(), b"mm".to_vec(), b"z".to_vec()]);
}

#[test]
fn key_list_search_finds_the_place() {
    let mut list = KeyList::new();
    for key in [&b"b"[..], b"d", b"f"] {
        list.insert(key);
    }
    assert_eq!(list.search(b"b"), Ok(0));
    assert_eq!(list.search(b"d"), Ok(1));
    assert_eq!(list.search(b"f"), Ok(2));
    assert_eq!(list.search(b"a"), Err(0));
    assert_eq!(list.search(b"c"), Err(1));
    assert_eq!(list.search(b"e"), Err(2));
    assert_eq!(list.search(b"g"), Err(3));
    assert!(list.contains(b"d"));
    assert!(!list.contains(b"dd"));
    assert_eq!(KeyList::new().search(b"x"), Err(0));
}

#[test]
fn key_list_remove() {
    let mut list = KeyList::new();
    for key in [&b"b"[..], b"d", b"f"] {
        list.insert(key);
    }
    assert!(!list.remove(b"c"));
    assert_eq!(list.len(), 3);
    assert!(list.remove(b"d"));
    assert!(!list.remove(b"d"));
    assert_eq!(list.to_vec(), vec![b"b".to_vec(), b"f".to_vec()]);
    assert!(list.remove(b"b"));
    assert!(list.remove(b"f"));
    assert!(list.is_empty());
    assert_eq!(list.to_vec(), Vec::<Vec<u8>>::new());
}

#[test]
fn key_list_from_keys_in_any_order() {
    let found = vec![b"m".to_vec(), b"a".to_vec(), b"z".to_vec(), b"a".to_vec(), vec![]];
    let list = KeyList::from_keys(&found);
    assert_eq!(list.to_vec(), vec![vec![], b"a".to_vec(), b"m".to_vec(), b"z".to_vec()]);
    assert!(KeyList::from_keys(&Vec::new()).is_empty());
}

#[test]
fn key_list_many_keys() {
    let mut list = KeyList::new();
    for i in (0..200u32).rev() {
        assert!(list.insert(format!("key{:03}", (i * 7) % 200).as_bytes()));
    }
    assert_eq!(list.len(), 200);
    let keys = list.to_vec();
    for i in 1..keys.len() {
        assert!(keys[i - 1] < keys[i]);
    }
    for i in 0..200u32 {
        assert_eq!(list.search(format!("key{:03}", i).as_bytes()), Ok(i as usize));
    }
}

#[test]
fn same_text_compares_contents() {
    assert!(same_text("", ""));
    assert!(same_text("db0", "db0"));
    assert!(!same_text("db0", "db1"));
    assert!(!same_text("db", "db0"));
    assert!(same_text("données", "données"));
    assert!(!same_text("données", "donnees"));
}

#[test]
fn names_that_are_components() {
    assert!(is_component("db0"));
    assert!(is_component("a b"));
    assert!(is_component("données"));
    assert!(is_component("a.b"));
    assert!(is_component("a."));
    assert!(!is_component(""));
    assert!(!is_component("."));
    assert!(!is_component(".."));
    assert!(!is_component("..."));
    assert!(!is_component(".hidden"));
    assert!(!is_component("a/b"));
    assert!(!is_component("/etc"));
    assert!(is_component("a\\b"));
    assert!(!is_component("a\0b"));
}

#[test]
fn sort_names_orders_by_bytes() {
    let names = vec!["b".to_string(), "a".to_string(), "B".to_string(), "ab".to_string(), "é".to_string()];
    assert_eq!(sort_names(&names), vec!["B", "a", "ab", "b", "é"]);
    assert_eq!(sort_names(&Vec::new()), Vec::<String>::new());
    let mut expected = names.clone();
    expected.sort();
    assert_eq!(sort_names(&names), expected);
}

#[test]
fn sort_names_keeps_each_name_once() {
    let names = vec!["b".to_string(), "a".to_string(), "b".to_string(), "a".to_string()];
    assert_eq!(sort_names(&names), vec!["a", "b"]);
}
