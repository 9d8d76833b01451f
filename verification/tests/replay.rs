use kvs::engine::index::{CommandPos, Index};
use kvs::engine::replay::{read_log_file, LogRecord};
use kvs::{Command, KvStoreError};

fn set(key: &str, next_pos: u64) -> LogRecord {
    LogRecord { cmd: Command::SetValue(key.to_string(), "v".to_string()), next_pos }
}

fn remove(key: &str, next_pos: u64) -> LogRecord {
    LogRecord { cmd: Command::Remove(key.to_string()), next_pos }
}

#[test]
fn replay_records_positions_from_offsets() {
    let mut index = Index::new();
    let records = vec![set("a", 10), set("b", 25), set("a", 31)];
    read_log_file(&mut index, 4, &records).unwrap();
    assert_eq!(index.len(), 2);
    assert_eq!(index.get("a"), Some(CommandPos { index: 4, start_pos: 25, len: 6 }));
    assert_eq!(index.get("b"), Some(CommandPos { index: 4, start_pos: 10, len: 15 }));
}

#[test]
fn replay_remove_drops_key_present_or_not() {
    let mut index = Index::new();
    let records = vec![set("a", 10), remove("zz", 20), remove("a", 30), set("c", 44)];
    read_log_file(&mut index, 1, &records).unwrap();
    assert_eq!(index.get("a"), None);
    assert_eq!(index.get("zz"), None);
    assert_eq!(index.get("c"), Some(CommandPos { index: 1, start_pos: 30, len: 14 }));
    assert_eq!(index.len(), 1);
}

#[test]
fn replay_of_later_segment_supersedes_earlier() {
    let mut index = Index::new();
    read_log_file(&mut index, 1, &vec![set("a", 10), set("b", 20)]).unwrap();
    read_log_file(&mut index, 2, &vec![set("a", 7)]).unwrap();
    assert_eq!(index.get("a"), Some(CommandPos { index: 2, start_pos: 0, len: 7 }));
    assert_eq!(index.get("b"), Some(CommandPos { index: 1, start_pos: 10, len: 10 }));
}

#[test]
fn replay_of_nothing_changes_nothing() {
    let mut index = Index::new();
    index.insert("a".to_string(), CommandPos { index: 1, start_pos: 2, len: 3 });
    read_log_file(&mut index, 2, &vec![]).unwrap();
    assert_eq!(index.len(), 1);
    assert_eq!(index.get("a"), Some(CommandPos { index: 1, start_pos: 2, len: 3 }));
}

#[test]
fn replay_refuses_get_and_keeps_what_came_before() {
    let mut index = Index::new();
    let records = vec![
        set("a", 10),
        LogRecord { cmd: Command::Get("a".to_string()), next_pos: 20 },
        set("b", 30),
    ];
    assert!(matches!(read_log_file(&mut index, 1, &records), Err(KvStoreError::OtherError(_))));
    assert_eq!(index.get("a"), Some(CommandPos { index: 1, start_pos: 0, len: 10 }));
    assert_eq!(index.get("b"), None);
}

#[test]
fn replay_refuses_offsets_that_go_back() {
    let mut index = Index::new();
    let records = vec![set("a", 10), set("b", 9)];
    assert!(matches!(read_log_file(&mut index, 1, &records), Err(KvStoreError::OtherError(_))));
    assert_eq!(index.len(), 1);
}
