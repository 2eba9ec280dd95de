#![allow(unused_mut)]

use tagsyd::ids::{FileId, TagId};
use tagsyd::paths::LogicalPath;
use tagsyd::state::{DeletedRule, TagStyle};
use tagsyd::store::types::{CatalogRows, DatabaseError};
use tagsyd::store::CatalogStore;

fn memory_db() -> CatalogStore {
    CatalogStore::initialize(CatalogRows::new()).expect("an empty catalog opens")
}

fn dot_style(color: &str) -> TagStyle {
    TagStyle {
        dot_color: color.to_owned(),
        ..TagStyle::default()
    }
}

fn file_id_from_hex(hex: &str) -> FileId {
    FileId::from_string(hex).expect("valid hex id")
}

fn tag_id_from_hex(hex: &str) -> TagId {
    TagId::from_string(hex).expect("valid hex id")
}

#[test]
fn shorten_file_id_single_file_needs_one_char() {
    let mut database = memory_db();
    let only = file_id_from_hex("00000000000000000000000000000001");
    database.add_file(only, &LogicalPath::new("a"), 0).unwrap();

    assert_eq!(database.shorten_file_id(only).unwrap(), 1);
}

#[test]
fn shorten_file_id_grows_prefix_to_disambiguate_neighbours() {
    let mut database = memory_db();
    let shared_a = file_id_from_hex("abcd000000000000000000000000000a");
    let shared_b = file_id_from_hex("abcd000000000000000000000000000b");
    let far = file_id_from_hex("ffff000000000000000000000000000f");
    for (id, name) in [(shared_a, "a"), (shared_b, "b"), (far, "c")] {
        database.add_file(id, &LogicalPath::new(name), 0).unwrap();
    }

    let len_a = database.shorten_file_id(shared_a).unwrap();
    let len_b = database.shorten_file_id(shared_b).unwrap();
    let a = shared_a.to_string();
    let b = shared_b.to_string();
    assert!(!b.starts_with(&a[..len_a]));
    assert!(!a.starts_with(&b[..len_b]));

    assert_eq!(database.shorten_file_id(far).unwrap(), 1);
}

#[test]
fn shorten_file_id_missing_is_not_found() {
    let mut database = memory_db();
    assert!(matches!(
        database.shorten_file_id(FileId::new()),
        Err(DatabaseError::MissingFile)
    ));
}

#[test]
fn get_all_files_reports_short_id_length() {
    let mut database = memory_db();
    let shared_a = file_id_from_hex("abcd000000000000000000000000000a");
    let shared_b = file_id_from_hex("abcd000000000000000000000000000b");
    for (id, name) in [(shared_a, "a"), (shared_b, "b")] {
        database.add_file(id, &LogicalPath::new(name), 0).unwrap();
        database.record_version(id, "hash", "local", 1).unwrap();
    }

    let files = database.get_all_files(DeletedRule::Exclude).unwrap();
    for info in &files {
        let full = info.file_id.to_string();
        assert_eq!(info.short_id_length, full.len());
    }
}

#[test]
fn shorten_then_resolve_tag_roundtrips() {
    let mut database = memory_db();
    let shared_a = tag_id_from_hex("abcd000000000000000000000000000a");
    let shared_b = tag_id_from_hex("abcd000000000000000000000000000b");
    let far = tag_id_from_hex("ffff000000000000000000000000000f");
    for (id, name) in [(shared_a, "a"), (shared_b, "b"), (far, "c")] {
        database.add_tag(id, name, &dot_style("red"), 1).unwrap();
    }

    assert_eq!(database.shorten_tag_id(far).unwrap(), 1);
    let full_a = shared_a.to_string();
    let len_a = database.shorten_tag_id(shared_a).unwrap();
    assert!(!shared_b.to_string().starts_with(&full_a[..len_a]));
}

#[test]
fn listed_short_ids_are_unique_among_all_files() {
    let mut database = memory_db();
    let live = file_id_from_hex("a1000000000000000000000000000001");
    let dead = file_id_from_hex("a2000000000000000000000000000002");
    let bare = file_id_from_hex("a1100000000000000000000000000003");
    for (id, name) in [(live, "live"), (dead, "dead"), (bare, "bare")] {
        database.add_file(id, &LogicalPath::new(name), 0).unwrap();
    }
    for id in [live, dead] {
        database.record_version_at(id, "hash", "local", 1, 10).unwrap();
    }
    assert!(database.remove_file(dead, 20).unwrap());

    for rule in [DeletedRule::Exclude, DeletedRule::Include] {
        for info in database.get_all_files(rule).unwrap() {
            let alone = database.file_info_from_id(info.file_id, rule).unwrap();
            assert_eq!(info.short_id_length, alone.short_id_length);
            assert_eq!(
                info.short_id_length,
                database.shorten_file_id(info.file_id).unwrap()
            );
        }
    }
    let listed = database.get_all_files(DeletedRule::Exclude).unwrap();
    assert_eq!(listed.len(), 1);
    assert_eq!((listed[0].file_id, listed[0].short_id_length), (live, 3));
}
