use kvs::engine::file_pool::{FilePool, MAX_OPEN_FILES};

#[test]
fn pool_limit_defaults_to_one_hundred() {
    assert_eq!(MAX_OPEN_FILES, 100);
    let pool: FilePool<u32> = FilePool::new(0);
    assert_eq!(pool.max_open_files(), 100);
    let pool: FilePool<u32> = FilePool::new(3);
    assert_eq!(pool.max_open_files(), 3);
    assert_eq!(pool.len(), 0);
}

#[test]
fn pool_open_reports_whether_cached() {
    let mut pool: FilePool<String> = FilePool::new(2);
    assert!(!pool.open(7));
    assert_eq!(pool.get(7), None);
    pool.insert(7, "seven".to_string());
    assert!(pool.open(7));
    assert!(pool.contains(7));
    assert_eq!(pool.get(7), Some(&"seven".to_string()));
    assert_eq!(pool.len(), 1);
}

#[test]
fn pool_evicts_first_opened_not_last_used() {
    let mut pool: FilePool<u32> = FilePool::new(2);
    assert!(!pool.open(1));
    pool.insert(1, 10);
    assert!(!pool.open(2));
    pool.insert(2, 20);
    // Using 1 again does not save it: it was opened first.
    assert!(pool.open(1));
    assert!(pool.open(1));
    assert!(!pool.open(3));
    assert!(!pool.contains(1));
    assert!(pool.contains(2));
    assert_eq!(pool.len(), 1);
    pool.insert(3, 30);
    assert_eq!(pool.len(), 2);
    assert!(!pool.open(4));
    assert!(!pool.contains(2));
    assert!(pool.contains(3));
    pool.insert(4, 40);
    assert_eq!(pool.get(3), Some(&30));
    assert_eq!(pool.get(4), Some(&40));
}

#[test]
fn pool_open_of_missing_evicts_before_insert() {
    let mut pool: FilePool<u32> = FilePool::new(1);
    pool.insert(1, 10);
    assert!(!pool.open(2));
    // The caller may fail to open segment 2: the room was made all the same.
    assert_eq!(pool.len(), 0);
}

#[test]
fn pool_never_holds_more_than_its_limit() {
    let mut pool: FilePool<u64> = FilePool::new(5);
    for index in 0..200u64 {
        if !pool.open(index % 37) {
            pool.insert(index % 37, index);
        }
        assert!(pool.len() <= 5);
    }
    assert_eq!(pool.len(), 5);
}

#[test]
fn pool_insert_alone_keeps_the_limit() {
    let mut pool: FilePool<u64> = FilePool::new(3);
    for index in 0..10u64 {
        pool.insert(index, index);
        assert!(pool.len() <= 3);
    }
    assert!(pool.contains(7) && pool.contains(8) && pool.contains(9));
    assert!(!pool.contains(6));
    // A cached segment takes the new handle and keeps its place.
    pool.insert(7, 70);
    assert_eq!(pool.get(7), Some(&70));
    pool.insert(10, 10);
    assert!(!pool.contains(7));
}

#[test]
fn pool_clear_drops_every_handle() {
    let mut pool: FilePool<u64> = FilePool::new(3);
    pool.insert(1, 1);
    pool.insert(2, 2);
    pool.clear();
    assert_eq!(pool.len(), 0);
    assert!(!pool.contains(1));
    assert_eq!(pool.max_open_files(), 3);
}

#[test]
fn pool_names_the_file_of_a_segment() {
    let pool: FilePool<u64> = FilePool::new(3);
    assert_eq!(pool.get_path_buf(12), "12.log");
}
