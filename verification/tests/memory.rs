use kvs::{KvStore, KvStoreError, KvsEngine};

#[test]
fn memory_store_set_then_get() {
    let mut store = KvStore::new();
    assert_eq!(store.get("a".to_string()).unwrap(), None);
    store.set("a".to_string(), "1".to_string()).unwrap();
    assert_eq!(store.get("a".to_string()).unwrap(), Some("1".to_string()));
    store.set("a".to_string(), "2".to_string()).unwrap();
    assert_eq!(store.get("a".to_string()).unwrap(), Some("2".to_string()));
}

#[test]
fn memory_store_remove_forgets_key() {
    let mut store = KvStore::new();
    store.set("a".to_string(), "1".to_string()).unwrap();
    store.set("b".to_string(), "2".to_string()).unwrap();
    store.remove("a".to_string()).unwrap();
    assert_eq!(store.get("a".to_string()).unwrap(), None);
    assert_eq!(store.get("b".to_string()).unwrap(), Some("2".to_string()));
}

#[test]
fn memory_store_remove_of_missing_key_is_key_not_found() {
    let mut store = KvStore::new();
    assert!(matches!(store.remove("a".to_string()), Err(KvStoreError::KeyNotFound)));
    store.set("b".to_string(), "2".to_string()).unwrap();
    assert!(matches!(store.remove("a".to_string()), Err(KvStoreError::KeyNotFound)));
    assert_eq!(store.get("b".to_string()).unwrap(), Some("2".to_string()));
    store.remove("b".to_string()).unwrap();
    assert!(matches!(store.remove("b".to_string()), Err(KvStoreError::KeyNotFound)));
}
