#![allow(unused_mut)]

use std::collections::BTreeSet;

use tagsyd::ids::{FileId, TagId};
use tagsyd::paths::LogicalPath;
use tagsyd::state::{RelationshipKind, RelationshipManifestEntry, SubtagRule, TagStyle};
use tagsyd::store::types::{CatalogRows, DatabaseError};
use tagsyd::store::CatalogStore;

fn memory_db() -> CatalogStore {
    CatalogStore::initialize(CatalogRows::new()).expect("an empty catalog opens")
}

fn dot_style(color: &str) -> TagStyle {
    TagStyle {
        dot_color: color.to_owned(),
        ..TagStyle::default()
    }
}

#[test]
fn tag_tag_then_subtag_ids_lists_children() {
    let mut database = memory_db();
    let parent = TagId::new();
    let child_a = TagId::new();
    let child_b = TagId::new();
    for (id, name) in [(parent, "parent"), (child_a, "a"), (child_b, "b")] {
        database.add_tag(id, name, &dot_style("red"), 1).unwrap();
    }

    database.tag_tag(parent, child_a, 10).unwrap();
    database.tag_tag(parent, child_b, 10).unwrap();

    let subtags: BTreeSet<TagId> = database
        .subtag_ids_for_tag(parent, SubtagRule::Exclude)
        .unwrap()
        .into_iter()
        .collect();
    assert_eq!(subtags, BTreeSet::from([child_a, child_b]));
}

#[test]
fn subtag_ids_include_walks_transitively() {
    let mut database = memory_db();
    let grandparent = TagId::new();
    let parent = TagId::new();
    let child = TagId::new();
    for (id, name) in [(grandparent, "gp"), (parent, "p"), (child, "c")] {
        database.add_tag(id, name, &dot_style("red"), 1).unwrap();
    }

    database.tag_tag(grandparent, parent, 10).unwrap();
    database.tag_tag(parent, child, 10).unwrap();

    let direct: BTreeSet<TagId> = database
        .subtag_ids_for_tag(grandparent, SubtagRule::Exclude)
        .unwrap()
        .into_iter()
        .collect();
    assert_eq!(direct, BTreeSet::from([parent]));

    let transitive: BTreeSet<TagId> = database
        .subtag_ids_for_tag(grandparent, SubtagRule::Include)
        .unwrap()
        .into_iter()
        .collect();
    assert_eq!(transitive, BTreeSet::from([parent, child]));
}

#[test]
fn untag_tag_removes_child_from_subtags() {
    let mut database = memory_db();
    let parent = TagId::new();
    let child = TagId::new();
    database
        .add_tag(parent, "parent", &dot_style("red"), 1)
        .unwrap();
    database
        .add_tag(child, "child", &dot_style("red"), 1)
        .unwrap();

    database.tag_tag(parent, child, 10).unwrap();
    database.untag_tag(parent, child, 20).unwrap();

    let subtags: Vec<TagId> = database
        .subtag_ids_for_tag(parent, SubtagRule::Exclude)
        .unwrap()
        .into_iter()
        .collect();
    assert!(subtags.is_empty());
}

#[test]
fn tag_tag_rejects_self() {
    let mut database = memory_db();
    let tag = TagId::new();
    database.add_tag(tag, "t", &dot_style("red"), 1).unwrap();
    assert!(matches!(
        database.tag_tag(tag, tag, 10),
        Err(DatabaseError::CantTagItself)
    ));
}

#[test]
fn tag_file_then_untag_soft_deletes_and_hides_from_reads() {
    let mut database = memory_db();
    let file_id = FileId::new();
    let tag_id = TagId::new();
    database
        .add_file(file_id, &LogicalPath::new("a.txt"), 0)
        .unwrap();

    database.tag_file(tag_id, file_id, 100).unwrap();
    let tags: Vec<_> = database
        .tag_ids_for_file(file_id, SubtagRule::Exclude)
        .unwrap()
        .into_iter()
        .collect();
    assert_eq!(tags, vec![tag_id]);

    database.untag_file(tag_id, file_id, 200).unwrap();
    let tags: Vec<_> = database
        .tag_ids_for_file(file_id, SubtagRule::Exclude)
        .unwrap()
        .into_iter()
        .collect();
    assert!(tags.is_empty());

    let manifest = database.relationship_manifest_entries().unwrap();
    assert_eq!(manifest.len(), 1);
    assert!(manifest[0].deleted);
    assert_eq!(manifest[0].modified_at, 200);
}

#[test]
fn deleting_a_tag_hides_it_from_applied_tags() {
    let mut database = memory_db();
    let file_id = FileId::new();
    let tag_id = TagId::new();
    database
        .add_file(file_id, &LogicalPath::new("a.txt"), 0)
        .unwrap();
    database
        .add_tag(tag_id, "work", &dot_style("red"), 10)
        .unwrap();
    database.tag_file(tag_id, file_id, 100).unwrap();

    let tags: Vec<_> = database
        .tag_ids_for_file(file_id, SubtagRule::Exclude)
        .unwrap()
        .into_iter()
        .collect();
    assert_eq!(tags, vec![tag_id]);

    assert!(database.remove_tag(tag_id, 200).unwrap());
    let tags: Vec<_> = database
        .tag_ids_for_file(file_id, SubtagRule::Exclude)
        .unwrap()
        .into_iter()
        .collect();
    assert!(tags.is_empty(), "a deleted tag must not appear as applied");

    database
        .add_tag(tag_id, "work", &dot_style("red"), 300)
        .unwrap();
    let tags: Vec<_> = database
        .tag_ids_for_file(file_id, SubtagRule::Exclude)
        .unwrap()
        .into_iter()
        .collect();
    assert_eq!(tags, vec![tag_id]);
}

#[test]
fn applied_tag_without_definition_is_still_returned() {
    let mut database = memory_db();
    let file_id = FileId::new();
    let tag_id = TagId::new();
    database
        .add_file(file_id, &LogicalPath::new("a.txt"), 0)
        .unwrap();
    database.tag_file(tag_id, file_id, 100).unwrap();

    let tags: Vec<_> = database
        .tag_ids_for_file(file_id, SubtagRule::Exclude)
        .unwrap()
        .into_iter()
        .collect();
    assert_eq!(tags, vec![tag_id]);
}

#[test]
fn stale_untag_does_not_override_newer_tag() {
    let mut database = memory_db();
    let file_id = FileId::new();
    let tag_id = TagId::new();
    database
        .add_file(file_id, &LogicalPath::new("a.txt"), 0)
        .unwrap();

    database.tag_file(tag_id, file_id, 200).unwrap();
    database.untag_file(tag_id, file_id, 100).unwrap();

    let tags: Vec<_> = database
        .tag_ids_for_file(file_id, SubtagRule::Exclude)
        .unwrap()
        .into_iter()
        .collect();
    assert_eq!(tags, vec![tag_id]);
}

#[test]
fn retag_after_untag_revives_row() {
    let mut database = memory_db();
    let file_id = FileId::new();
    let tag_id = TagId::new();
    database
        .add_file(file_id, &LogicalPath::new("a.txt"), 0)
        .unwrap();

    database.tag_file(tag_id, file_id, 100).unwrap();
    database.untag_file(tag_id, file_id, 200).unwrap();
    database.tag_file(tag_id, file_id, 300).unwrap();

    let tags: Vec<_> = database
        .tag_ids_for_file(file_id, SubtagRule::Exclude)
        .unwrap()
        .into_iter()
        .collect();
    assert_eq!(tags, vec![tag_id]);
    assert_eq!(database.relationship_manifest_entries().unwrap().len(), 1);
}

#[test]
fn apply_relationship_reconciles_tombstone_with_lww() {
    let mut database = memory_db();
    let file_id = FileId::new();
    let tag_id = TagId::new();
    database
        .add_file(file_id, &LogicalPath::new("a.txt"), 0)
        .unwrap();

    database.tag_file(tag_id, file_id, 100).unwrap();

    let incoming = RelationshipManifestEntry {
        tag_id,
        target_id: file_id.to_string(),
        kind: RelationshipKind::File,
        modified_at: 200,
        deleted: true,
    };
    database.apply_relationship(&incoming).unwrap();

    let tags: Vec<_> = database
        .tag_ids_for_file(file_id, SubtagRule::Exclude)
        .unwrap()
        .into_iter()
        .collect();
    assert!(tags.is_empty());

    let stale = RelationshipManifestEntry {
        tag_id,
        target_id: file_id.to_string(),
        kind: RelationshipKind::File,
        modified_at: 150,
        deleted: false,
    };
    database.apply_relationship(&stale).unwrap();
    let tags: Vec<_> = database
        .tag_ids_for_file(file_id, SubtagRule::Exclude)
        .unwrap()
        .into_iter()
        .collect();
    assert!(tags.is_empty());
}
