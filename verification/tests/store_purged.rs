#![allow(unused_mut)]

use tagsyd::ids::FileId;
use tagsyd::paths::LogicalPath;
use tagsyd::store::types::CatalogRows;
use tagsyd::store::CatalogStore;

fn memory_db() -> CatalogStore {
    CatalogStore::initialize(CatalogRows::new()).expect("an empty catalog opens")
}

#[test]
fn record_purge_is_idempotent() {
    let mut database = memory_db();
    let file_id = FileId::new();

    assert!(!database.is_purged(file_id).unwrap());
    assert!(
        database.record_purge(file_id).unwrap(),
        "first insert is new"
    );
    assert!(database.is_purged(file_id).unwrap());
    assert!(
        !database.record_purge(file_id).unwrap(),
        "re-purge is a no-op"
    );
}

#[test]
fn purged_ids_lists_every_purge() {
    let mut database = memory_db();
    let a = FileId::new();
    let b = FileId::new();
    database.record_purge(a).unwrap();
    database.record_purge(b).unwrap();

    let mut ids = database.purged_ids().unwrap();
    ids.sort();
    let mut expected = vec![a, b];
    expected.sort();
    assert_eq!(ids, expected);
}

#[test]
fn strip_removes_file_versions_and_survives_purge_row() {
    let mut database = memory_db();
    let file_id = FileId::new();
    let logical_path = LogicalPath::new("broken.bin");
    database.add_file(file_id, &logical_path, 0).unwrap();
    database
        .record_version(file_id, "hash", "local", 3)
        .unwrap();

    assert!(database.file_exists(file_id).unwrap());

    database.record_purge(file_id).unwrap();
    database.strip_purged_file(file_id).unwrap();

    assert!(!database.file_exists(file_id).unwrap());
    assert!(database.latest_version(file_id).unwrap().is_none());
    assert!(database.is_purged(file_id).unwrap());
}
