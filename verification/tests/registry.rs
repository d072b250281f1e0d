use coliseum::registry::AddressSet;

fn set_of(items: &[&str]) -> AddressSet {
    let mut s = AddressSet::new();
    for i in items {
        s.insert(i.to_string());
    }
    s
}

fn listed(s: &AddressSet) -> Vec<String> {
    (0..s.len()).map(|i| s.get(i).clone()).collect()
}

#[test]
fn insert_keeps_first_order_and_skips_repeats() {
    let mut s = AddressSet::new();
    assert!(s.insert("a".to_string()));
    assert!(s.insert("b".to_string()));
    assert!(!s.insert("a".to_string()));
    assert_eq!(listed(&s), vec!["a", "b"]);
    assert!(s.contains("b"));
    assert!(!s.contains("c"));
    assert_eq!(s.position("b"), Some(1));
}

#[test]
fn remove_undoes_insert() {
    let mut s = set_of(&["a", "b"]);
    assert!(s.insert("c".to_string()));
    assert!(s.remove("c"));
    assert_eq!(listed(&s), vec!["a", "b"]);
    assert!(!s.remove("c"));
    assert_eq!(listed(&s), vec!["a", "b"]);
}

#[test]
fn remove_keeps_the_others_in_order() {
    let mut s = set_of(&["a", "b", "c"]);
    assert!(s.remove("b"));
    assert_eq!(listed(&s), vec!["a", "c"]);
    assert!(!s.contains("b"));
}

#[test]
fn insert_all_and_remove_all() {
    let mut s = set_of(&["a"]);
    s.insert_all(vec!["b".to_string(), "a".to_string(), "c".to_string(), "b".to_string()]);
    assert_eq!(listed(&s), vec!["a", "b", "c"]);
    s.remove_all(&vec!["a".to_string(), "x".to_string(), "c".to_string()]);
    assert_eq!(listed(&s), vec!["b"]);
}

#[test]
fn to_json_lists_the_addresses() {
    assert_eq!(AddressSet::new().to_json(), "[]");
    assert_eq!(set_of(&["a", "q\"x"]).to_json(), "[\"a\",\"q\\\"x\"]");
}
