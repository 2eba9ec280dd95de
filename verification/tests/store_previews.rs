#![allow(unused_mut)]

use tagsyd::clock::now_millis;
use tagsyd::ids::FileId;
use tagsyd::paths::LogicalPath;
use tagsyd::state::Preview;
use tagsyd::store::types::CatalogRows;
use tagsyd::store::CatalogStore;

fn memory_db() -> CatalogStore {
    CatalogStore::initialize(CatalogRows::new()).expect("an empty catalog opens")
}

#[test]
fn preview_cache_roundtrips_each_kind() {
    let mut database = memory_db();
    let file_id = FileId::new();

    assert!(database.preview_for(file_id, "h").unwrap().is_none());

    let image = Preview::Image {
        bytes: vec![1, 2, 3],
        width: 12,
        height: 34,
    };
    database.record_preview(file_id, "h", &image).unwrap();
    assert_eq!(database.preview_for(file_id, "h").unwrap(), Some(image));

    let text = Preview::Text("hello".to_owned());
    database.record_preview(file_id, "h2", &text).unwrap();
    assert_eq!(database.preview_for(file_id, "h2").unwrap(), Some(text));

    database
        .record_preview(file_id, "h3", &Preview::Absent)
        .unwrap();
    assert_eq!(
        database.preview_for(file_id, "h3").unwrap(),
        Some(Preview::Absent)
    );
}

#[test]
fn record_preview_replaces_same_key() {
    let mut database = memory_db();
    let file_id = FileId::new();

    database
        .record_preview(file_id, "h", &Preview::Text("first".to_owned()))
        .unwrap();
    database
        .record_preview(file_id, "h", &Preview::Text("second".to_owned()))
        .unwrap();

    assert_eq!(
        database.preview_for(file_id, "h").unwrap(),
        Some(Preview::Text("second".to_owned()))
    );
}

#[test]
fn record_version_invalidates_previews() {
    let mut database = memory_db();
    let file_id = FileId::new();
    database
        .add_file(file_id, &LogicalPath::new("a.txt"), 0)
        .unwrap();
    database
        .record_version(file_id, "hash-v1", "local", 1)
        .unwrap();
    database
        .record_preview(file_id, "hash-v1", &Preview::Text("v1".to_owned()))
        .unwrap();

    database
        .record_version(file_id, "hash-v2", "local", 1)
        .unwrap();
    assert!(database.preview_for(file_id, "hash-v1").unwrap().is_none());
}

#[test]
fn remove_file_invalidates_previews() {
    let mut database = memory_db();
    let file_id = FileId::new();
    database
        .add_file(file_id, &LogicalPath::new("a.txt"), 0)
        .unwrap();
    database
        .record_version(file_id, "hash-v1", "local", 1)
        .unwrap();
    database
        .record_preview(file_id, "hash-v1", &Preview::Text("v1".to_owned()))
        .unwrap();

    let deleted_at = now_millis() + 1_000;
    assert!(database.remove_file(file_id, deleted_at).unwrap());
    assert!(database.preview_for(file_id, "hash-v1").unwrap().is_none());
}
