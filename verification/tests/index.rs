use kvs::engine::index::{CommandPos, Index};

fn pos(index: u64, start_pos: u64, len: u64) -> CommandPos {
    CommandPos { index, start_pos, len }
}

#[test]
fn index_starts_empty() {
    let index = Index::new();
    assert_eq!(index.len(), 0);
    assert_eq!(index.get("a"), None);
    assert!(!index.contains_key("a"));
}

#[test]
fn index_insert_then_get() {
    let mut index = Index::new();
    assert_eq!(index.insert("a".to_string(), pos(1, 0, 5)), None);
    assert_eq!(index.get("a"), Some(pos(1, 0, 5)));
    assert!(index.contains_key("a"));
    assert_eq!(index.len(), 1);
}

#[test]
fn index_insert_replaces_and_returns_previous() {
    let mut index = Index::new();
    index.insert("a".to_string(), pos(1, 0, 5));
    assert_eq!(index.insert("a".to_string(), pos(1, 5, 7)), Some(pos(1, 0, 5)));
    assert_eq!(index.get("a"), Some(pos(1, 5, 7)));
    assert_eq!(index.len(), 1);
}

#[test]
fn index_remove_returns_position_and_forgets_key() {
    let mut index = Index::new();
    index.insert("a".to_string(), pos(1, 0, 5));
    index.insert("b".to_string(), pos(1, 5, 6));
    index.insert("c".to_string(), pos(2, 0, 9));
    assert_eq!(index.remove("a"), Some(pos(1, 0, 5)));
    assert_eq!(index.get("a"), None);
    assert_eq!(index.get("b"), Some(pos(1, 5, 6)));
    assert_eq!(index.get("c"), Some(pos(2, 0, 9)));
    assert_eq!(index.len(), 2);
    assert_eq!(index.remove("a"), None);
    assert_eq!(index.len(), 2);
}

#[test]
fn index_walk_visits_every_key_once() {
    let mut index = Index::new();
    for i in 0..50u64 {
        index.insert(format!("key{}", i), pos(1, i * 10, 10));
    }
    for i in 0..50u64 {
        if i % 3 == 0 {
            assert_eq!(index.remove(&format!("key{}", i)), Some(pos(1, i * 10, 10)));
        }
    }
    let mut seen: Vec<String> = Vec::new();
    for i in 0..index.len() {
        let key = index.key_at(i).clone();
        assert_eq!(index.get(&key), Some(index.pos_at(i)));
        assert!(!seen.contains(&key));
        seen.push(key);
    }
    assert_eq!(seen.len(), 33);
    for i in 0..50u64 {
        assert_eq!(seen.contains(&format!("key{}", i)), i % 3 != 0);
    }
}
