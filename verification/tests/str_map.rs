use chora::str_map::{text_eq, StrMap};
use chora::text::{chars_of, parse_u32, trimmed};

#[test]
fn a_lookup_finds_what_was_stored() {
    let mut m = StrMap::new();
    assert_eq!(m.insert("a".to_string(), 1), None);
    assert_eq!(m.insert("b".to_string(), 2), None);
    assert_eq!(m.get("a"), Some(&1));
    assert_eq!(m.insert("a".to_string(), 3), Some(1));
    assert_eq!(m.get("a"), Some(&3));
    assert_eq!(m.get("b"), Some(&2));
    assert_eq!(m.len(), 2);
}

#[test]
fn names_keep_their_first_insertion_order() {
    let mut m = StrMap::new();
    m.insert("z".to_string(), 0);
    m.insert("y".to_string(), 1);
    m.insert("z".to_string(), 2);
    let keys: Vec<String> = m.keys().into_iter().cloned().collect();
    assert_eq!(keys, vec!["z".to_string(), "y".to_string()]);
    let values: Vec<i32> = m.values().into_iter().cloned().collect();
    assert_eq!(values, vec![2, 1]);
}

#[test]
fn a_removed_name_is_gone_and_others_stay() {
    let mut m = StrMap::new();
    m.insert("a".to_string(), 1);
    m.insert("b".to_string(), 2);
    assert_eq!(m.remove("a"), Some(1));
    assert_eq!(m.remove("a"), None);
    assert!(!m.contains_key("a"));
    assert_eq!(m.get("b"), Some(&2));
    assert_eq!(m.len(), 1);
}

#[test]
fn text_helpers() {
    assert!(text_eq("abc", "abc"));
    assert!(!text_eq("abc", "abd"));
    assert!(!text_eq("ab", "abc"));
    let v = chars_of("  x y \t");
    assert_eq!(trimmed(&v, 0, v.len()), "x y");
    let n = chars_of("+4294967295");
    assert_eq!(parse_u32(&n, 0, n.len()), Some(u32::MAX));
    let big = chars_of("4294967296");
    assert_eq!(parse_u32(&big, 0, big.len()), None);
    let empty = chars_of("");
    assert_eq!(parse_u32(&empty, 0, 0), None);
}
