#![allow(unused_mut)]

use tagsyd::clock::now_millis;
use tagsyd::ids::FileId;
use tagsyd::paths::LogicalPath;
use tagsyd::state::DeletedRule;
use tagsyd::store::types::{CatalogRows, DatabaseError, DeletionState};
use tagsyd::store::CatalogStore;

fn memory_db() -> CatalogStore {
    CatalogStore::initialize(CatalogRows::new()).expect("an empty catalog opens")
}

#[test]
fn logical_path_for_file_id_roundtrips() {
    let mut database = memory_db();
    let file_id = FileId::new();
    database
        .add_file(file_id, &LogicalPath::new("photos/cat.jpg"), 0)
        .unwrap();

    assert_eq!(
        database.logical_path_for_file_id(file_id).unwrap(),
        LogicalPath::new("photos/cat.jpg")
    );
}

#[test]
fn logical_path_for_file_id_missing_is_not_found() {
    let mut database = memory_db();
    let missing = FileId::new();
    assert!(matches!(
        database.logical_path_for_file_id(missing),
        Err(DatabaseError::MissingFile)
    ));
}

#[test]
fn get_all_files_reports_latest_version() {
    let mut database = memory_db();
    let file_id = FileId::new();
    database
        .add_file(file_id, &LogicalPath::new("a.txt"), 0)
        .unwrap();

    let v1 = database
        .record_version(file_id, "hash-v1", "local", 1)
        .unwrap();
    let v2 = database
        .record_version(file_id, "hash-v2", "local", 1)
        .unwrap();
    assert!(v2 > v1);

    let files = database.get_all_files(DeletedRule::Exclude).unwrap();
    assert_eq!(files.len(), 1);
    let info = &files[0];
    assert_eq!(info.file_id, file_id);
    assert_eq!(info.logical_path, LogicalPath::new("a.txt"));
    assert_eq!(info.content_hash, "hash-v2");
    assert_eq!(info.version_number, v2);
}

#[test]
fn reverting_to_an_old_hash_becomes_the_new_latest_version() {
    let mut database = memory_db();
    let file_id = FileId::new();
    database
        .add_file(file_id, &LogicalPath::new("a.txt"), 0)
        .unwrap();

    database
        .record_version(file_id, "hash-A", "local", 1)
        .unwrap();
    database
        .record_version(file_id, "hash-B", "local", 1)
        .unwrap();
    assert_eq!(
        database
            .latest_version(file_id)
            .unwrap()
            .unwrap()
            .content_hash,
        "hash-B"
    );

    let reverted = database
        .record_version(file_id, "hash-A", "local", 1)
        .unwrap();
    let latest = database.latest_version(file_id).unwrap().unwrap();
    assert_eq!(latest.content_hash, "hash-A");
    assert_eq!(latest.version_number, reverted);
    let history = database.version_history(file_id).unwrap();
    assert_eq!(
        history
            .iter()
            .map(|(_, h, _)| h.as_str())
            .collect::<Vec<_>>(),
        vec!["hash-A", "hash-B", "hash-A"]
    );
}

#[test]
fn get_all_files_excludes_files_without_versions() {
    let mut database = memory_db();
    database
        .add_file(FileId::new(), &LogicalPath::new("orphan.txt"), 0)
        .unwrap();

    assert!(
        database
            .get_all_files(DeletedRule::Exclude)
            .unwrap()
            .is_empty()
    );
}

#[test]
fn get_all_files_empty_when_no_files() {
    let mut database = memory_db();
    assert!(
        database
            .get_all_files(DeletedRule::Exclude)
            .unwrap()
            .is_empty()
    );
}

#[test]
fn file_delete_soft_deletes_and_hides_from_reads() {
    let mut database = memory_db();
    let file_id = FileId::new();
    database
        .add_file(file_id, &LogicalPath::new("a.txt"), 0)
        .unwrap();
    database.record_version(file_id, "h1", "local", 1).unwrap();

    let deleted_at = now_millis() + 10_000;
    assert!(database.remove_file(file_id, deleted_at).unwrap());

    assert!(
        database
            .get_all_files(DeletedRule::Exclude)
            .unwrap()
            .is_empty()
    );
    assert!(matches!(
        database.file_info_from_id(file_id, DeletedRule::Exclude),
        Err(DatabaseError::MissingFile)
    ));
    assert!(database.file_exists(file_id).unwrap());
    assert_eq!(
        database.file_deletion_state(file_id).unwrap(),
        Some(DeletionState {
            deleted: true,
            deleted_at,
            restored_at: 0,
        })
    );
}

#[test]
fn file_delete_loses_to_newer_edit() {
    let mut database = memory_db();
    let file_id = FileId::new();
    database
        .add_file(file_id, &LogicalPath::new("a.txt"), 0)
        .unwrap();
    database.record_version(file_id, "h1", "local", 1).unwrap();
    let stale_delete_at = 1;

    assert!(!database.remove_file(file_id, stale_delete_at).unwrap());
    assert_eq!(
        database.get_all_files(DeletedRule::Exclude).unwrap().len(),
        1
    );
    assert_eq!(
        database.file_deletion_state(file_id).unwrap(),
        Some(DeletionState {
            deleted: false,
            deleted_at: 0,
            restored_at: 0,
        })
    );
}

#[test]
fn apply_restore_clears_tombstone() {
    let mut database = memory_db();
    let file_id = FileId::new();
    database
        .add_file(file_id, &LogicalPath::new("a.txt"), 0)
        .unwrap();
    database.record_version(file_id, "h1", "local", 1).unwrap();
    let deleted_at = now_millis() + 10_000;
    assert!(database.remove_file(file_id, deleted_at).unwrap());
    assert!(
        database
            .get_all_files(DeletedRule::Exclude)
            .unwrap()
            .is_empty()
    );

    let restored_at = deleted_at + 1;
    assert!(database.apply_restore(file_id, restored_at).unwrap());
    assert_eq!(
        database.get_all_files(DeletedRule::Exclude).unwrap().len(),
        1
    );
    assert_eq!(
        database.file_deletion_state(file_id).unwrap(),
        Some(DeletionState {
            deleted: false,
            deleted_at,
            restored_at,
        })
    );
}

#[test]
fn apply_restore_loses_to_newer_delete() {
    let mut database = memory_db();
    let file_id = FileId::new();
    database
        .add_file(file_id, &LogicalPath::new("a.txt"), 0)
        .unwrap();
    database.record_version(file_id, "h1", "local", 1).unwrap();
    let deleted_at = now_millis() + 10_000;
    assert!(database.remove_file(file_id, deleted_at).unwrap());

    assert!(!database.apply_restore(file_id, deleted_at - 1).unwrap());
    assert!(
        database
            .get_all_files(DeletedRule::Exclude)
            .unwrap()
            .is_empty()
    );

    assert!(database.remove_file(file_id, deleted_at + 5).unwrap());
}

#[test]
fn delete_loses_to_newer_restore() {
    let mut database = memory_db();
    let file_id = FileId::new();
    database
        .add_file(file_id, &LogicalPath::new("a.txt"), 0)
        .unwrap();
    database.record_version(file_id, "h1", "local", 1).unwrap();
    let deleted_at = now_millis() + 10_000;
    assert!(database.remove_file(file_id, deleted_at).unwrap());
    assert!(database.apply_restore(file_id, deleted_at + 10).unwrap());
    assert!(!database.remove_file(file_id, deleted_at + 5).unwrap());
    assert_eq!(
        database.get_all_files(DeletedRule::Exclude).unwrap().len(),
        1
    );
}

#[test]
fn update_logical_path_applies_when_newer() {
    let mut database = memory_db();
    let file_id = FileId::new();
    database
        .add_file(file_id, &LogicalPath::new("old.txt"), 10)
        .unwrap();

    let applied = database
        .update_file_logical_path(file_id, &LogicalPath::new("new.txt"), 20)
        .unwrap();
    assert!(applied);
    assert_eq!(
        database.logical_path_for_file_id(file_id).unwrap(),
        LogicalPath::new("new.txt")
    );
    assert_eq!(
        database.logical_path_modified_at(file_id).unwrap(),
        Some(20)
    );
}

#[test]
fn update_logical_path_rejects_older_or_equal() {
    let mut database = memory_db();
    let file_id = FileId::new();
    database
        .add_file(file_id, &LogicalPath::new("current.txt"), 20)
        .unwrap();

    let older = database
        .update_file_logical_path(file_id, &LogicalPath::new("stale.txt"), 10)
        .unwrap();
    assert!(!older);
    let equal = database
        .update_file_logical_path(file_id, &LogicalPath::new("dup.txt"), 20)
        .unwrap();
    assert!(!equal);

    assert_eq!(
        database.logical_path_for_file_id(file_id).unwrap(),
        LogicalPath::new("current.txt")
    );
    assert_eq!(
        database.logical_path_modified_at(file_id).unwrap(),
        Some(20)
    );
}

#[test]
fn deleted_file_appears_in_manifest_with_tombstone() {
    let mut database = memory_db();
    let file_id = FileId::new();
    database
        .add_file(file_id, &LogicalPath::new("a.txt"), 0)
        .unwrap();
    database.record_version(file_id, "h1", "local", 7).unwrap();
    let deleted_at = now_millis() + 10_000;
    assert!(database.remove_file(file_id, deleted_at).unwrap());

    let entries = database.manifest_entries().unwrap();
    assert_eq!(entries.len(), 1);
    let (id, history, _observed, _path, _path_modified, deleted, got_deleted_at, restored_at) =
        &entries[0];
    assert_eq!(*id, file_id);
    assert!(*deleted);
    assert_eq!(*got_deleted_at, deleted_at);
    assert_eq!(*restored_at, 0);
    assert_eq!(history, &vec![(1, "h1".to_owned(), 7)]);
}

#[test]
fn get_all_files_include_returns_tombstoned_with_flag() {
    let mut database = memory_db();
    let live = FileId::new();
    let dead = FileId::new();
    database
        .add_file(live, &LogicalPath::new("live.txt"), 0)
        .unwrap();
    database
        .add_file(dead, &LogicalPath::new("dead.txt"), 0)
        .unwrap();
    database.record_version(live, "h1", "local", 1).unwrap();
    database.record_version(dead, "h2", "local", 1).unwrap();
    let deleted_at = now_millis() + 10_000;
    assert!(database.remove_file(dead, deleted_at).unwrap());

    let excluded: Vec<_> = database.get_all_files(DeletedRule::Exclude).unwrap();
    assert_eq!(excluded.len(), 1);
    assert_eq!(excluded[0].file_id, live);
    assert!(!excluded[0].deleted);

    let included: Vec<_> = database.get_all_files(DeletedRule::Include).unwrap();
    assert_eq!(included.len(), 2);
    let dead_info = included.iter().find(|f| f.file_id == dead).unwrap();
    assert!(dead_info.deleted);
    let live_info = included.iter().find(|f| f.file_id == live).unwrap();
    assert!(!live_info.deleted);
}
