use kvs::engine::sled_engine::{found_value, removed_value};
use kvs::KvStoreError;

#[test]
fn found_value_decodes_utf8() {
    assert_eq!(found_value(None).unwrap(), None);
    assert_eq!(found_value(Some(b"value".to_vec())).unwrap(), Some("value".to_string()));
    assert_eq!(found_value(Some(Vec::new())).unwrap(), Some(String::new()));
    assert_eq!(
        found_value(Some("\u{2603}\u{3b2}\u{30c4}".as_bytes().to_vec())).unwrap(),
        Some("\u{2603}\u{3b2}\u{30c4}".to_string())
    );
}

#[test]
fn found_value_refuses_invalid_utf8() {
    let mut bytes = "\u{2603}\u{3b2}\u{30c4}".as_bytes().to_vec();
    bytes.push(0xFF);
    match found_value(Some(bytes)) {
        Err(KvStoreError::Utf8Error(e)) => assert_eq!(e.valid_up_to(), 8),
        other => panic!("unexpected {:?}", other),
    }
    assert!(matches!(found_value(Some(vec![0xC0, 0x80])), Err(KvStoreError::Utf8Error(_))));
    assert!(matches!(found_value(Some(vec![0xED, 0xA0, 0x80])), Err(KvStoreError::Utf8Error(_))));
    assert!(matches!(found_value(Some(vec![0xE2, 0x98])), Err(KvStoreError::Utf8Error(_))));
}

#[test]
fn removed_value_tells_missing_key() {
    assert!(removed_value(Some(b"old".to_vec())).is_ok());
    assert!(removed_value(Some(Vec::new())).is_ok());
    assert!(matches!(removed_value(None), Err(KvStoreError::KeyNotFound)));
}
