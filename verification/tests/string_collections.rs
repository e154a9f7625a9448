use echoxide::strmap::{str_eq, StrMap, StrSet};

#[test]
fn map_insert_get_remove() {
    let mut m: StrMap<u64> = StrMap::new();
    assert!(m.is_empty());
    m.insert("a".to_string(), 1);
    m.insert("b".to_string(), 2);
    m.insert("a".to_string(), 3);
    assert_eq!(m.len(), 2);
    assert_eq!(m.get("a"), Some(&3));
    assert_eq!(m.get("b"), Some(&2));
    assert_eq!(m.get("c"), None);
    assert!(m.contains_key("a"));
    assert_eq!(m.remove("a"), Some(3));
    assert_eq!(m.remove("a"), None);
    assert_eq!(m.len(), 1);
    let keys = m.keys();
    assert_eq!(keys, vec!["b".to_string()]);
    m.clear();
    assert!(m.is_empty());
}

#[test]
fn set_insert_remove_dedupes() {
    let mut s = StrSet::new();
    s.insert("x".to_string());
    s.insert("x".to_string());
    s.insert("y".to_string());
    assert_eq!(s.len(), 2);
    assert!(s.contains("x"));
    assert!(!s.contains("z"));
    assert!(s.remove("x"));
    assert!(!s.remove("x"));
    assert_eq!(s.len(), 1);
    let copy = s.duplicate();
    assert!(copy.contains("y"));
    assert_eq!(copy.len(), 1);
    let mut items = s.to_vec();
    items.sort();
    assert_eq!(items, vec!["y".to_string()]);
}

#[test]
fn str_eq_agrees_with_equality() {
    assert!(str_eq("", ""));
    assert!(str_eq("abc", "abc"));
    assert!(!str_eq("abc", "abx"));
    assert!(!str_eq("abc", "abcd"));
    assert!(str_eq("\u{1F600}", "\u{1F600}"));
}
