use rot::props::PropMap;

#[test]
fn insert_keeps_first_place_and_last_value() {
    let mut p = PropMap::new();
    assert!(p.is_empty());
    p.insert("a".to_string(), "1".to_string());
    p.insert("b".to_string(), "2".to_string());
    p.insert("a".to_string(), "3".to_string());
    assert_eq!(p.len(), 2);
    assert_eq!(p.position("a"), Some(0));
    assert_eq!(p.position("b"), Some(1));
    assert_eq!(p.position("c"), None);
    assert_eq!(p.get("a").unwrap(), "3");
    assert!(p.contains_key("b"));
    assert!(!p.contains_key("c"));
    assert!(p.get("c").is_none());
}

#[test]
fn extend_is_last_writer_wins() {
    let mut base = PropMap::new();
    base.insert("a".to_string(), "1".to_string());
    base.insert("b".to_string(), "2".to_string());
    let mut extra = PropMap::new();
    extra.insert("c".to_string(), "9".to_string());
    extra.insert("a".to_string(), "8".to_string());
    base.extend(extra);
    assert_eq!(base.len(), 3);
    assert_eq!(base.entry(0).unwrap(), (&"a".to_string(), &"8".to_string()));
    assert_eq!(base.entry(1).unwrap(), (&"b".to_string(), &"2".to_string()));
    assert_eq!(base.entry(2).unwrap(), (&"c".to_string(), &"9".to_string()));
}

#[test]
fn clone_is_a_copy() {
    let mut p = PropMap::new();
    p.insert("a".to_string(), "1".to_string());
    let mut q = p.clone();
    q.insert("a".to_string(), "2".to_string());
    assert_eq!(p.get("a").unwrap(), "1");
    assert_eq!(q.get("a").unwrap(), "2");
}
