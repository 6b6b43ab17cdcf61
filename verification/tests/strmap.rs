use gc1805::strmap::{str_less, StrMap};

#[test]
fn keys_stay_sorted_and_insert_replaces() {
    let mut m: StrMap<i32> = StrMap::new();
    assert_eq!(m.insert("b".to_string(), 2), None);
    assert_eq!(m.insert("a".to_string(), 1), None);
    assert_eq!(m.insert("c".to_string(), 3), None);
    assert_eq!(m.insert("b".to_string(), 20), Some(2));
    assert_eq!(m.len(), 3);
    let keys: Vec<String> = (0..m.len()).map(|i| m.key_at(i).clone()).collect();
    assert_eq!(keys, vec!["a", "b", "c"]);
    assert_eq!(m.get("b"), Some(&20));
    assert_eq!(m.get("z"), None);
    assert!(m.contains_key("c"));
    assert_eq!(m.find("c"), Some(2));
}

#[test]
fn lexicographic_comparison() {
    assert!(str_less("AUS", "FRA"));
    assert!(!str_less("FRA", "FRA"));
    assert!(str_less("FR", "FRA"));
    assert!(!str_less("b", "a"));
}
