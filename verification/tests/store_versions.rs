#![allow(unused_mut)]

use tagsyd::ids::FileId;
use tagsyd::paths::LogicalPath;
use tagsyd::state::DeletedRule;
use tagsyd::store::types::CatalogRows;
use tagsyd::store::CatalogStore;

fn memory_db() -> CatalogStore {
    CatalogStore::initialize(CatalogRows::new()).expect("an empty catalog opens")
}

#[test]
fn size_round_trips_through_version_and_file_info() {
    let mut database = memory_db();
    let file_id = FileId::new();
    database
        .add_file(file_id, &LogicalPath::new("a.txt"), 0)
        .unwrap();
    database
        .record_version(file_id, "hash-1", "local", 42)
        .unwrap();

    assert_eq!(database.latest_version(file_id).unwrap().unwrap().size, 42);
    assert_eq!(
        database
            .file_info_from_id(file_id, DeletedRule::Exclude)
            .unwrap()
            .size,
        42
    );

    database
        .record_version(file_id, "hash-2", "local", 100)
        .unwrap();
    assert_eq!(
        database
            .file_info_from_id(file_id, DeletedRule::Exclude)
            .unwrap()
            .size,
        100
    );
}

#[test]
fn zero_byte_size_is_a_real_value() {
    let mut database = memory_db();
    let file_id = FileId::new();
    database
        .add_file(file_id, &LogicalPath::new("empty.txt"), 0)
        .unwrap();
    database
        .record_version(file_id, "hash-0", "local", 0)
        .unwrap();
    assert_eq!(
        database
            .file_info_from_id(file_id, DeletedRule::Exclude)
            .unwrap()
            .size,
        0
    );
}

#[test]
fn version_history_carries_per_version_size() {
    let mut database = memory_db();
    let file_id = FileId::new();
    database
        .add_file(file_id, &LogicalPath::new("a.txt"), 0)
        .unwrap();
    database.record_version(file_id, "h1", "local", 10).unwrap();
    database.record_version(file_id, "h2", "local", 20).unwrap();

    let history = database.version_history(file_id).unwrap();
    assert_eq!(history, vec![
        (1, "h1".to_owned(), 10),
        (2, "h2".to_owned(), 20),
    ]);
}

#[test]
fn file_ids_matching_content_hash_prefix_matches_latest_version() {
    let mut database = memory_db();
    let a = FileId::new();
    let b = FileId::new();
    database.add_file(a, &LogicalPath::new("a"), 0).unwrap();
    database.add_file(b, &LogicalPath::new("b"), 0).unwrap();
    database
        .record_version(a, "deadbeef00000000", "local", 1)
        .unwrap();
    database
        .record_version(b, "beef000000000000", "local", 1)
        .unwrap();

    assert_eq!(
        database
            .file_ids_matching_content_hash_prefix("dead", DeletedRule::Exclude)
            .unwrap(),
        vec![a]
    );

    assert_eq!(
        database
            .file_ids_matching_content_hash_prefix("BEEF", DeletedRule::Exclude)
            .unwrap(),
        vec![b]
    );

    assert!(
        database
            .file_ids_matching_content_hash_prefix("zzzz", DeletedRule::Exclude)
            .unwrap()
            .is_empty()
    );
}

#[test]
fn file_ids_matching_content_hash_prefix_ignores_superseded_versions() {
    let mut database = memory_db();
    let file_id = FileId::new();
    database
        .add_file(file_id, &LogicalPath::new("a"), 0)
        .unwrap();
    database
        .record_version(file_id, "aaaa000000000000", "local", 1)
        .unwrap();
    database
        .record_version(file_id, "bbbb000000000000", "local", 1)
        .unwrap();

    assert_eq!(
        database
            .file_ids_matching_content_hash_prefix("bbbb", DeletedRule::Exclude)
            .unwrap(),
        vec![file_id]
    );
    assert!(
        database
            .file_ids_matching_content_hash_prefix("aaaa", DeletedRule::Exclude)
            .unwrap()
            .is_empty()
    );
}
