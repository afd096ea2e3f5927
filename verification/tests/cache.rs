use sql_anonymizer::cache::TextCache;

#[test]
fn cache_starts_empty() {
    let c = TextCache::new();
    assert!(!c.contains_key(7));
    assert!(c.get(7).is_none());
}

#[test]
fn first_write_wins() {
    let mut c = TextCache::new();
    assert!(c.insert_first(1, b"users".to_vec()));
    assert!(!c.insert_first(1, b"orders".to_vec()));
    assert_eq!(c.get(1), Some(&b"users".to_vec()));
}

#[test]
fn entries_are_independent() {
    let mut c = TextCache::new();
    assert!(c.insert_first(1, b"users".to_vec()));
    assert!(c.insert_first(2, b"orders".to_vec()));
    assert_eq!(c.get(1), Some(&b"users".to_vec()));
    assert_eq!(c.get(2), Some(&b"orders".to_vec()));
    assert!(c.get(3).is_none());
    assert!(c.contains_key(2));
}
