#![allow(unused_mut)]

use std::collections::BTreeSet;

use tagsyd::ids::TagId;
use tagsyd::state::{DeletedRule, TagStyle};
use tagsyd::store::types::{CatalogRows, DatabaseError};
use tagsyd::store::pattern::TextPattern;
use tagsyd::store::CatalogStore;

fn memory_db() -> CatalogStore {
    CatalogStore::initialize(CatalogRows::new()).expect("an empty catalog opens")
}

fn dot_style(color: &str) -> TagStyle {
    TagStyle {
        dot_color: color.to_owned(),
        ..TagStyle::default()
    }
}

fn tag_id_from_hex(hex: &str) -> TagId {
    TagId::from_string(hex).expect("valid hex id")
}

#[test]
fn tag_ids_matching_id_prefix_is_id_only() {
    let mut database = memory_db();
    let tag_id = tag_id_from_hex("abcd000000000000000000000000000a");
    database.add_tag(tag_id, "abcd", &dot_style("red"), 1).unwrap();

    assert_eq!(
        database
            .tag_ids_matching_id_prefix("abcd", DeletedRule::Exclude)
            .unwrap(),
        vec![tag_id]
    );

    assert!(
        database
            .tag_ids_matching_id_prefix("zzzz", DeletedRule::Exclude)
            .unwrap()
            .is_empty()
    );
}

#[test]
fn add_tag_newer_modified_at_wins_older_is_noop() {
    let mut database = memory_db();
    let tag_id = TagId::new();

    database.add_tag(tag_id, "work", &dot_style("red"), 100).unwrap();
    database.add_tag(tag_id, "job", &dot_style("blue"), 200).unwrap();
    let (name, style, modified_at) = database.tag_definition(tag_id).unwrap().unwrap();
    assert_eq!(
        (name.as_str(), style.dot_color.as_str(), modified_at),
        ("job", "blue", 200)
    );

    database
        .add_tag(tag_id, "stale", &dot_style("green"), 150)
        .unwrap();
    let (name, _, modified_at) = database.tag_definition(tag_id).unwrap().unwrap();
    assert_eq!((name.as_str(), modified_at), ("job", 200));
}

#[test]
fn update_tag_name_respects_lww() {
    let mut database = memory_db();
    let tag_id = TagId::new();
    database.add_tag(tag_id, "work", &dot_style("red"), 100).unwrap();

    database.update_tag_name(tag_id, "old", 50).unwrap();
    assert_eq!(database.tag_definition(tag_id).unwrap().unwrap().0, "work");

    database.update_tag_name(tag_id, "new", 300).unwrap();
    assert_eq!(database.tag_definition(tag_id).unwrap().unwrap().0, "new");
}

#[test]
fn duplicate_tag_names_coexist() {
    let mut database = memory_db();
    let a = TagId::new();
    let b = TagId::new();
    database.add_tag(a, "work", &dot_style("red"), 100).unwrap();
    database.add_tag(b, "work", &dot_style("blue"), 100).unwrap();

    assert!(database.tag_definition(a).unwrap().is_some());
    assert!(database.tag_definition(b).unwrap().is_some());
    let all: Vec<_> = database
        .get_all_tags(DeletedRule::Exclude)
        .unwrap()
        .into_iter()
        .collect();
    assert_eq!(all.len(), 2);
}

#[test]
fn tag_manifest_entries_reports_all_definitions() {
    let mut database = memory_db();
    let a = TagId::new();
    let b = TagId::new();
    database.add_tag(a, "one", &dot_style("red"), 111).unwrap();
    database.add_tag(b, "two", &dot_style("blue"), 222).unwrap();

    let mut entries = database.tag_manifest_entries().unwrap();
    entries.sort_by_key(|entry| entry.modified_at);
    assert_eq!(entries.len(), 2);
    assert_eq!(entries[0].modified_at, 111);
    assert_eq!(entries[1].modified_at, 222);
}

#[test]
fn tag_ids_matching_token_matches_name_substring_case_insensitively() {
    let mut database = memory_db();
    let foo = TagId::new();
    let foobar = TagId::new();
    let barfoo = TagId::new();
    let unrelated = TagId::new();
    database.add_tag(foo, "foo", &dot_style("red"), 1).unwrap();
    database.add_tag(foobar, "foobar", &dot_style("red"), 1).unwrap();
    database.add_tag(barfoo, "barfoo", &dot_style("red"), 1).unwrap();
    database.add_tag(unrelated, "baz", &dot_style("red"), 1).unwrap();

    let matched: BTreeSet<TagId> = database
        .tag_ids_matching_pattern(
            &TextPattern::Substring("FOO".to_owned()),
            DeletedRule::Exclude,
        )
        .unwrap()
        .into_iter()
        .collect();

    assert_eq!(
        matched,
        BTreeSet::from([foo, foobar, barfoo]),
        "should match every tag whose name contains 'foo'"
    );
}

#[test]
fn tag_ids_matching_token_empty_when_nothing_matches() {
    let mut database = memory_db();
    database
        .add_tag(TagId::new(), "alpha", &dot_style("red"), 1)
        .unwrap();

    assert!(
        database
            .tag_ids_matching_pattern(
                &TextPattern::Substring("nope".to_owned()),
                DeletedRule::Exclude
            )
            .unwrap()
            .is_empty(),
        "an unmatched token yields an empty set, not an error"
    );
}

#[test]
fn tag_delete_soft_deletes_and_hides_from_reads() {
    let mut database = memory_db();
    let tag_id = TagId::new();
    database.add_tag(tag_id, "work", &dot_style("red"), 10).unwrap();

    assert!(database.remove_tag(tag_id, 20).unwrap());

    assert!(
        database
            .get_all_tags(DeletedRule::Exclude)
            .unwrap()
            .into_iter()
            .next()
            .is_none()
    );
    assert!(matches!(
        database.tag_from_id(tag_id, DeletedRule::Exclude),
        Err(DatabaseError::MissingTag)
    ));
    let entries = database.tag_manifest_entries().unwrap();
    let entry = entries.iter().find(|e| e.tag_id == tag_id).unwrap();
    assert!(entry.deleted);
    assert_eq!(entry.modified_at, 20);
}

#[test]
fn tag_delete_loses_to_newer_edit() {
    let mut database = memory_db();
    let tag_id = TagId::new();
    database.add_tag(tag_id, "work", &dot_style("red"), 100).unwrap();

    assert!(!database.remove_tag(tag_id, 50).unwrap());
    assert!(database.tag_from_id(tag_id, DeletedRule::Exclude).is_ok());
}

#[test]
fn newer_add_revives_deleted_tag() {
    let mut database = memory_db();
    let tag_id = TagId::new();
    database.add_tag(tag_id, "work", &dot_style("red"), 10).unwrap();
    assert!(database.remove_tag(tag_id, 20).unwrap());
    assert!(database.tag_from_id(tag_id, DeletedRule::Exclude).is_err());

    database.add_tag(tag_id, "work", &dot_style("blue"), 30).unwrap();
    let tag = database.tag_from_id(tag_id, DeletedRule::Exclude).unwrap();
    assert_eq!(tag.style.dot_color, "blue");
}

#[test]
fn restore_tag_preserves_definition() {
    let mut database = memory_db();
    let tag_id = TagId::new();
    database
        .add_tag(tag_id, "work", &dot_style("#123456"), 10)
        .unwrap();
    assert!(database.remove_tag(tag_id, 20).unwrap());

    let deleted = database.tag_from_id(tag_id, DeletedRule::Include).unwrap();
    assert!(deleted.deleted);
    assert_eq!(deleted.name, "work");
    assert_eq!(deleted.style.dot_color, "#123456");

    database
        .add_tag(tag_id, &deleted.name, &deleted.style, 30)
        .unwrap();
    let restored = database.tag_from_id(tag_id, DeletedRule::Exclude).unwrap();
    assert!(!restored.deleted);
    assert_eq!(restored.name, "work");
    assert_eq!(restored.style.dot_color, "#123456");
}

#[test]
fn get_all_tags_include_returns_tombstoned_with_flag() {
    let mut database = memory_db();
    let live = TagId::new();
    let dead = TagId::new();
    database.add_tag(live, "live", &dot_style("red"), 10).unwrap();
    database.add_tag(dead, "dead", &dot_style("blue"), 10).unwrap();
    assert!(database.remove_tag(dead, 20).unwrap());

    let excluded: Vec<_> = database
        .get_all_tags(DeletedRule::Exclude)
        .unwrap()
        .into_iter()
        .collect();
    assert_eq!(excluded.len(), 1);
    assert_eq!(excluded[0].id, live);
    assert!(!excluded[0].deleted);

    let included: Vec<_> = database
        .get_all_tags(DeletedRule::Include)
        .unwrap()
        .into_iter()
        .collect();
    assert_eq!(included.len(), 2);
    let dead_tag = included.iter().find(|t| t.id == dead).unwrap();
    assert!(dead_tag.deleted);
}

#[test]
fn tag_ids_matching_token_include_covers_tombstoned_tags() {
    let mut database = memory_db();
    let dead = TagId::new();
    database.add_tag(dead, "receipts", &dot_style("red"), 10).unwrap();
    assert!(database.remove_tag(dead, 20).unwrap());

    assert!(
        database
            .tag_ids_matching_pattern(
                &TextPattern::Substring("receipt".to_owned()),
                DeletedRule::Exclude
            )
            .unwrap()
            .is_empty()
    );
    let matched = database
        .tag_ids_matching_pattern(
            &TextPattern::Substring("receipt".to_owned()),
            DeletedRule::Include,
        )
        .unwrap();
    assert_eq!(matched, vec![dead]);
}

#[test]
fn newer_rename_or_restyling_revives_a_tag() {
    let mut database = memory_db();
    let tag_id = tag_id_from_hex("abcd000000000000000000000000000a");
    database.add_tag(tag_id, "work", &TagStyle::default(), 10).unwrap();
    assert!(database.remove_tag(tag_id, 20).unwrap());

    database.update_tag_name(tag_id, "stale", 15).unwrap();
    assert!(matches!(
        database.tag_from_id(tag_id, DeletedRule::Exclude),
        Err(DatabaseError::MissingTag)
    ));
    database.update_tag_name(tag_id, "job", 30).unwrap();
    let tag = database.tag_from_id(tag_id, DeletedRule::Exclude).unwrap();
    assert_eq!(tag.name, "job");
    assert!(!tag.deleted);

    assert!(database.remove_tag(tag_id, 40).unwrap());
    database.update_tag_style(tag_id, &dot_style("blue"), 50).unwrap();
    let tag = database.tag_from_id(tag_id, DeletedRule::Exclude).unwrap();
    assert_eq!((tag.name.as_str(), tag.style.dot_color.as_str()), ("job", "blue"));
    assert_eq!(database.tag_modified_at(tag_id).unwrap(), Some(50));
}

#[test]
fn tag_search_ignores_case_beyond_ascii() {
    let mut database = memory_db();
    let tag_id = tag_id_from_hex("11111111111111111111111111111111");
    database.add_tag(tag_id, "\u{c9}cole", &TagStyle::default(), 1).unwrap();
    for text in ["\u{e9}cole", "\u{c9}COLE", "COL"] {
        assert_eq!(
            database
                .tag_ids_matching_pattern(
                    &TextPattern::Substring(text.to_owned()),
                    DeletedRule::Exclude
                )
                .unwrap(),
            vec![tag_id]
        );
    }
    assert!(database
        .tag_ids_matching_pattern(
            &TextPattern::Substring("ecole".to_owned()),
            DeletedRule::Exclude
        )
        .unwrap()
        .is_empty());
}
