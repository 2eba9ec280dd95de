use tagsyd::ids::{FileId, TagId};
use tagsyd::paths::LogicalPath;
use tagsyd::peer::messages::{Change, Frame, SyncMessage};
use tagsyd::peer::plan_tags::{
    batch_tag_manifest, build_local_tag_manifest, build_tag_request_response, plan_tag_sync,
    relationship_to_change, TagSyncStep,
};
use tagsyd::state::{RelationshipKind, RelationshipManifestEntry, TagManifestEntry, TagStyle};
use tagsyd::store::{CatalogRows, CatalogStore};

fn memory_db() -> CatalogStore {
    CatalogStore::initialize(CatalogRows::new()).expect("an empty catalog opens")
}

fn relationship(
    tag_id: TagId,
    target_id: String,
    kind: RelationshipKind,
    modified_at: i64,
    deleted: bool,
) -> RelationshipManifestEntry {
    RelationshipManifestEntry {
        tag_id,
        target_id,
        kind,
        modified_at,
        deleted,
    }
}

#[test]
fn newer_definition_is_asked_for_and_newer_tombstone_applied() {
    let mut database = memory_db();
    let known = TagId::new();
    let unknown = TagId::new();
    database.add_tag(known, "known", &TagStyle::default(), 10).unwrap();
    let entry = |tag_id, modified_at, deleted| TagManifestEntry {
        tag_id,
        modified_at,
        deleted,
    };

    let steps = plan_tag_sync(
        "peer",
        vec![entry(known, 10, false), entry(known, 9, true), entry(unknown, 1, false)],
        Vec::new(),
        &database,
    );
    assert_eq!(steps.len(), 1);
    assert!(matches!(
        &steps[0],
        TagSyncStep::Ask(Frame::Sync(SyncMessage::TagRequest { tag_id })) if *tag_id == unknown
    ));

    let steps = plan_tag_sync("peer", vec![entry(known, 11, true)], Vec::new(), &database);
    assert!(matches!(
        &steps[..],
        [TagSyncStep::Apply(Change::TagRemoved { tag_id, modified_at: 11 })] if *tag_id == known
    ));
}

#[test]
fn newer_relationships_are_applied() {
    let mut database = memory_db();
    let tag = TagId::new();
    let file = FileId::new();
    database.add_tag(tag, "t", &TagStyle::default(), 1).unwrap();
    database.add_file(file, &LogicalPath::new("f"), 0).unwrap();
    database.tag_file(tag, file, 5).unwrap();
    let plan = |modified_at, deleted| {
        let entry = relationship(tag, file.to_string(), RelationshipKind::File, modified_at, deleted);
        plan_tag_sync("peer", Vec::new(), vec![entry], &database)
    };
    assert!(plan(5, true).is_empty());
    assert!(plan(4, true).is_empty());
    assert!(matches!(
        &plan(6, true)[..],
        [TagSyncStep::Apply(Change::FileUntagged { file_id, tag_id, modified_at: 6 })]
            if *file_id == file && *tag_id == tag
    ));
}

#[test]
fn relationships_stand_for_changes() {
    let tag = TagId::new();
    let other = TagId::new();
    let file = FileId::new();
    let change = |target: String, kind, deleted| {
        relationship_to_change(&relationship(tag, target, kind, 7, deleted))
    };
    assert!(matches!(
        change(file.to_string(), RelationshipKind::File, false),
        Some(Change::FileTagged { file_id, tag_id, metadata: None, modified_at: 7 })
            if file_id == file && tag_id == tag
    ));
    assert!(matches!(
        change(other.to_string(), RelationshipKind::Tag, false),
        Some(Change::TagTagged { taggee_id, tag_id, metadata: None, modified_at: 7 })
            if taggee_id == other && tag_id == tag
    ));
    assert!(matches!(
        change(other.to_string(), RelationshipKind::Tag, true),
        Some(Change::TagUntagged { taggee_id, tag_id, modified_at: 7 })
            if taggee_id == other && tag_id == tag
    ));
    assert!(change("not an id".to_owned(), RelationshipKind::File, false).is_none());
}

#[test]
fn unreadable_target_is_passed_over() {
    let entry = relationship(TagId::new(), "zz".to_owned(), RelationshipKind::File, 7, false);
    assert!(plan_tag_sync("peer", Vec::new(), vec![entry], &memory_db()).is_empty());
}

#[test]
fn own_tag_manifest_asks_for_nothing() {
    let mut database = memory_db();
    let tag = TagId::new();
    let gone = TagId::new();
    let file = FileId::new();
    database.add_tag(tag, "t", &TagStyle::default(), 1).unwrap();
    database.add_tag(gone, "g", &TagStyle::default(), 1).unwrap();
    database.remove_tag(gone, 2).unwrap();
    database.add_file(file, &LogicalPath::new("f"), 0).unwrap();
    database.tag_file(tag, file, 5).unwrap();
    let (definitions, relationships) = build_local_tag_manifest(&database).unwrap();
    assert_eq!(definitions.len(), 2);
    assert_eq!(relationships.len(), 1);
    assert!(plan_tag_sync("peer", definitions, relationships, &database).is_empty());
}

#[test]
fn tag_manifest_is_cut_into_frames() {
    let definitions: Vec<TagManifestEntry> = (0..3)
        .map(|i| TagManifestEntry {
            tag_id: TagId::new(),
            modified_at: i,
            deleted: false,
        })
        .collect();
    let relationships = vec![relationship(
        TagId::new(),
        FileId::new().to_string(),
        RelationshipKind::File,
        1,
        false,
    )];
    let frames = batch_tag_manifest(definitions.clone(), relationships.clone(), 2);
    let shape: Vec<(usize, usize)> = frames.iter().map(|(d, r)| (d.len(), r.len())).collect();
    assert_eq!(shape, vec![(2, 0), (1, 0), (0, 1)]);
    let shape: Vec<(usize, usize)> = batch_tag_manifest(definitions, relationships, 0)
        .iter()
        .map(|(d, r)| (d.len(), r.len()))
        .collect();
    assert_eq!(shape, vec![(1, 0), (1, 0), (1, 0), (0, 1)]);
}

#[test]
fn tag_request_is_answered_with_the_definition() {
    let mut database = memory_db();
    let tag = TagId::new();
    let style = TagStyle {
        dot_color: "#fff".to_owned(),
        ..TagStyle::default()
    };
    database.add_tag(tag, "name", &style, 4).unwrap();
    match build_tag_request_response("peer", tag, &database) {
        Frame::Change(Change::TagAdded {
            tag_id,
            tag_name,
            style,
            metadata: None,
            modified_at: 4,
        }) => {
            assert_eq!(tag_id, tag);
            assert_eq!(tag_name, "name");
            assert_eq!(style.dot_color, "#fff");
        }
        other => panic!("expected the definition, got {other:?}"),
    }
    let unknown = TagId::new();
    assert!(matches!(
        build_tag_request_response("peer", unknown, &database),
        Frame::Sync(SyncMessage::TagNotFound { tag_id }) if tag_id == unknown
    ));
}

#[test]
fn answered_definition_is_not_asked_for_again() {
    let mut ours = memory_db();
    let mut theirs = memory_db();
    let tag = TagId::new();
    theirs.add_tag(tag, "name", &TagStyle::default(), 4).unwrap();
    let (definitions, _) = build_local_tag_manifest(&theirs).unwrap();
    assert_eq!(plan_tag_sync("peer", definitions.clone(), Vec::new(), &ours).len(), 1);
    if let Frame::Change(Change::TagAdded { tag_id, tag_name, style, modified_at, .. }) =
        build_tag_request_response("peer", tag, &theirs)
    {
        ours.add_tag(tag_id, &tag_name, &style, modified_at).unwrap();
    }
    assert!(plan_tag_sync("peer", definitions, Vec::new(), &ours).is_empty());
}
