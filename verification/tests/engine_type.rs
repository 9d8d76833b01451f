use kvs::engine::{check_engine_type, engine_path, get_init_engine_type, init_engine_marker};
use kvs::{EngineType, KvStoreError};

fn message(e: KvStoreError) -> String {
    match e {
        KvStoreError::OtherError(m) => m,
        other => panic!("unexpected error {:?}", other),
    }
}

#[test]
fn engine_type_from_str_knows_both_engines() {
    assert_eq!(EngineType::from_str("kvs").unwrap(), EngineType::EngineKvStore);
    assert_eq!(EngineType::from_str("sled").unwrap(), EngineType::EngineSled);
}

#[test]
fn engine_type_from_str_refuses_other_names() {
    assert_eq!(
        message(EngineType::from_str("rocks").unwrap_err()),
        "invalid init engine type: rocks"
    );
    assert_eq!(message(EngineType::from_str("").unwrap_err()), "invalid init engine type: ");
    assert_eq!(message(EngineType::from_str("KVS").unwrap_err()), "invalid init engine type: KVS");
    assert_eq!(
        message(EngineType::from_str("kvs\n").unwrap_err()),
        "invalid init engine type: kvs\n"
    );
}

#[test]
fn engine_type_name_is_read_back() {
    for t in [EngineType::EngineKvStore, EngineType::EngineSled] {
        assert_eq!(EngineType::from_str(&t.to_string()).unwrap(), t);
        assert_eq!(init_engine_marker(t), t.to_string());
    }
    assert_eq!(EngineType::EngineKvStore.to_string(), "kvs");
    assert_eq!(EngineType::EngineSled.to_string(), "sled");
}

#[test]
fn init_engine_type_of_missing_marker_is_none() {
    assert_eq!(get_init_engine_type(None).unwrap(), None);
    assert_eq!(get_init_engine_type(Some("sled")).unwrap(), Some(EngineType::EngineSled));
    assert_eq!(get_init_engine_type(Some("kvs")).unwrap(), Some(EngineType::EngineKvStore));
    assert_eq!(
        message(get_init_engine_type(Some("other")).unwrap_err()),
        "invalid init engine type: other"
    );
}

#[test]
fn check_engine_type_takes_same_engine_or_none() {
    assert_eq!(check_engine_type(None, EngineType::EngineSled).unwrap(), None);
    assert_eq!(check_engine_type(None, EngineType::EngineKvStore).unwrap(), None);
    assert_eq!(
        check_engine_type(Some(EngineType::EngineSled), EngineType::EngineSled).unwrap(),
        Some(EngineType::EngineSled)
    );
    assert_eq!(
        check_engine_type(Some(EngineType::EngineKvStore), EngineType::EngineKvStore).unwrap(),
        Some(EngineType::EngineKvStore)
    );
}

#[test]
fn check_engine_type_refuses_mismatch() {
    let e = check_engine_type(Some(EngineType::EngineKvStore), EngineType::EngineSled).unwrap_err();
    assert_eq!(message(e), "current selected engine [sled] mismatches with init engine [kvs]");
    let e = check_engine_type(Some(EngineType::EngineSled), EngineType::EngineKvStore).unwrap_err();
    assert_eq!(message(e), "current selected engine [kvs] mismatches with init engine [sled]");
}

#[test]
fn engine_paths() {
    assert_eq!(engine_path(EngineType::EngineKvStore), "./kvs_data");
    assert_eq!(engine_path(EngineType::EngineSled), "./sled_data");
}
