use tagsyd::clock::{now_millis, stamp_of};
use tagsyd::ids::{FileId, TagId};
use tagsyd::paths::LogicalPath;
use tagsyd::state::{
    DeletedRule, Preview, RelationshipKind, RelationshipManifestEntry, SubtagRule, TagStyle,
};
use tagsyd::store::types::{FileRow, PreviewRow, TagRow};
use tagsyd::store::{
    normalize_id_prefix, CatalogRows, CatalogStore, DatabaseError, QueryTerm, TextPattern,
};
use tagsyd::text::{chars_of, is_white, like_chars, trim};

fn memory_db() -> CatalogStore {
    CatalogStore::initialize(CatalogRows::new()).expect("an empty catalog opens")
}

fn with_file(file_id: FileId) -> CatalogStore {
    let mut database = memory_db();
    database.add_file(file_id, &LogicalPath::new("start"), 1).unwrap();
    database
}

fn path_of(database: &CatalogStore, file_id: FileId) -> String {
    database.logical_path_for_file_id(file_id).unwrap().as_str().to_owned()
}

#[test]
fn moves_end_up_the_same_in_either_order() {
    let file_id = FileId::new();
    let early = LogicalPath::new("early");
    let late = LogicalPath::new("late");
    let mut a = with_file(file_id);
    assert!(a.update_file_logical_path(file_id, &early, 5).unwrap());
    assert!(a.update_file_logical_path(file_id, &late, 9).unwrap());
    let mut b = with_file(file_id);
    assert!(b.update_file_logical_path(file_id, &late, 9).unwrap());
    assert!(!b.update_file_logical_path(file_id, &early, 5).unwrap());
    assert_eq!(path_of(&a, file_id), "late");
    assert_eq!(path_of(&b, file_id), "late");
    assert!(!a.update_file_logical_path(file_id, &late, 9).unwrap());
    assert_eq!(a.logical_path_modified_at(file_id).unwrap(), Some(9));
}

#[test]
fn delete_and_restore_end_up_the_same_in_either_order() {
    for (deleted_at, restored_at) in [(10, 20), (20, 10)] {
        let file_id = FileId::new();
        let mut a = with_file(file_id);
        a.remove_file(file_id, deleted_at).unwrap();
        a.apply_restore(file_id, restored_at).unwrap();
        let mut b = with_file(file_id);
        b.apply_restore(file_id, restored_at).unwrap();
        b.remove_file(file_id, deleted_at).unwrap();
        let state_a = a.file_deletion_state(file_id).unwrap().unwrap();
        let state_b = b.file_deletion_state(file_id).unwrap().unwrap();
        assert_eq!(state_a.deleted, state_b.deleted);
        assert_eq!(state_a.deleted, deleted_at > restored_at);
        assert_eq!(state_a.restored_at, state_b.restored_at);
    }
}

#[test]
fn path_and_tombstone_do_not_touch_each_other() {
    let file_id = FileId::new();
    let moved = LogicalPath::new("moved");
    let mut a = with_file(file_id);
    a.remove_file(file_id, 7).unwrap();
    a.update_file_logical_path(file_id, &moved, 8).unwrap();
    let mut b = with_file(file_id);
    b.update_file_logical_path(file_id, &moved, 8).unwrap();
    b.remove_file(file_id, 7).unwrap();
    for database in [&a, &b] {
        let row = &database.rows().files[0];
        assert_eq!(row.logical_path.as_str(), "moved");
        assert!(row.deleted);
        assert_eq!(row.deleted_at, 7);
    }
}

#[test]
fn history_only_grows() {
    let file_id = FileId::new();
    let other = FileId::new();
    let mut database = with_file(file_id);
    database.add_file(other, &LogicalPath::new("other"), 1).unwrap();
    assert_eq!(database.record_version_at(other, "x", "local", 3, 10).unwrap(), 1);
    assert_eq!(database.record_version_at(file_id, "a", "local", 1, 30).unwrap(), 1);
    assert_eq!(database.record_version_at(file_id, "b", "peer", 2, 20).unwrap(), 2);
    assert_eq!(
        database.version_history(file_id).unwrap(),
        vec![(1, "a".to_owned(), 1), (2, "b".to_owned(), 2)]
    );
    assert_eq!(database.version_history(other).unwrap(), vec![(1, "x".to_owned(), 3)]);
    assert_eq!(database.latest_version(file_id).unwrap().unwrap().observed_at, 20);
}

#[test]
fn tag_definitions_end_up_the_same_in_either_order() {
    let tag = TagId::new();
    let style = TagStyle::default();
    let mut a = memory_db();
    a.add_tag(tag, "early", &style, 5).unwrap();
    a.add_tag(tag, "late", &style, 9).unwrap();
    let mut b = memory_db();
    b.add_tag(tag, "late", &style, 9).unwrap();
    b.add_tag(tag, "early", &style, 5).unwrap();
    for database in [&mut a, &mut b] {
        let (name, _, modified_at) = database.tag_definition(tag).unwrap().unwrap();
        assert_eq!(name, "late");
        assert_eq!(modified_at, 9);
        assert!(!database.remove_tag(tag, 9).unwrap());
        assert!(database.remove_tag(tag, 10).unwrap());
        assert!(matches!(
            database.tag_from_id(tag, DeletedRule::Exclude),
            Err(DatabaseError::MissingTag)
        ));
    }
}

#[test]
fn relationships_end_up_the_same_in_either_order() {
    let tag = TagId::new();
    let file_id = FileId::new();
    let entry = |modified_at, deleted| RelationshipManifestEntry {
        tag_id: tag,
        target_id: file_id.to_string(),
        kind: RelationshipKind::File,
        modified_at,
        deleted,
    };
    let mut a = with_file(file_id);
    a.apply_relationship(&entry(4, false)).unwrap();
    a.apply_relationship(&entry(6, true)).unwrap();
    let mut b = with_file(file_id);
    b.apply_relationship(&entry(6, true)).unwrap();
    b.apply_relationship(&entry(4, false)).unwrap();
    for database in [&a, &b] {
        let entries = database.relationship_manifest_entries().unwrap();
        assert_eq!(entries.len(), 1);
        assert_eq!(entries[0].modified_at, 6);
        assert!(entries[0].deleted);
        assert!(database.tag_ids_for_file(file_id, SubtagRule::Exclude).unwrap().is_empty());
    }
}

#[test]
fn untagging_leaves_a_tombstone_and_unknown_ones_nothing() {
    let tag = TagId::new();
    let file_id = FileId::new();
    let mut database = with_file(file_id);
    database.untag_file(tag, file_id, 3).unwrap();
    assert!(database.relationship_manifest_entries().unwrap().is_empty());
    database.tag_file(tag, file_id, 4).unwrap();
    database.untag_file(tag, file_id, 5).unwrap();
    let entries = database.relationship_manifest_entries().unwrap();
    assert_eq!(entries.len(), 1);
    assert!(entries[0].deleted);
    assert_eq!(entries[0].modified_at, 5);
}

#[test]
fn purges_commute_and_strip_one_file() {
    let kept = FileId::new();
    let gone = FileId::new();
    let mut database = with_file(kept);
    database.add_file(gone, &LogicalPath::new("gone"), 1).unwrap();
    database.record_version(gone, "h", "local", 1).unwrap();
    database.record_preview(gone, "h", &Preview::Absent).unwrap();
    assert!(database.record_purge(gone).unwrap());
    assert!(!database.record_purge(gone).unwrap());
    database.strip_purged_file(gone).unwrap();
    assert!(!database.file_exists(gone).unwrap());
    assert!(database.version_history(gone).unwrap().is_empty());
    assert_eq!(database.preview_for(gone, "h").unwrap(), None);
    assert!(database.is_purged(gone).unwrap());
    assert!(database.file_exists(kept).unwrap());
    assert!(!database.is_purged(kept).unwrap());
    assert_eq!(database.purged_ids().unwrap(), vec![gone]);
}

#[test]
fn cached_preview_is_served_for_its_content_only() {
    let file_id = FileId::new();
    let mut database = with_file(file_id);
    let image = Preview::Image {
        bytes: vec![1, 2],
        width: 3,
        height: 4,
    };
    database.record_preview_at(file_id, "old", &image, 1).unwrap();
    assert_eq!(database.preview_for(file_id, "old").unwrap(), Some(image));
    assert_eq!(database.preview_for(file_id, "new").unwrap(), None);
    let text = Preview::Text("\u{e9}t\u{e9}".to_owned());
    database.record_preview_at(file_id, "old", &text, 2).unwrap();
    assert_eq!(database.preview_for(file_id, "old").unwrap(), Some(text));
    database.invalidate_previews(file_id).unwrap();
    assert_eq!(database.preview_for(file_id, "old").unwrap(), None);
    assert_eq!(database.purge_previews().unwrap(), 0);
}

#[test]
fn query_terms_combine_conjunctively() {
    let mut database = memory_db();
    let tag = TagId::new();
    database.add_tag(tag, "Pets", &TagStyle::default(), 1).unwrap();
    let cat = FileId::new();
    let dog = FileId::new();
    database.add_file(cat, &LogicalPath::new("photos/Cat.jpg"), 1).unwrap();
    database.add_file(dog, &LogicalPath::new("photos/dog.jpg"), 1).unwrap();
    database.record_version(cat, "c", "local", 1).unwrap();
    database.record_version(dog, "d", "local", 1).unwrap();
    database.tag_file(tag, cat, 2).unwrap();
    let ask = |terms: Vec<QueryTerm>| {
        database
            .file_ids_for_query(&terms, SubtagRule::Include, DeletedRule::Exclude)
            .unwrap()
    };
    let substring = |text: &str| TextPattern::Substring(text.to_owned());
    assert_eq!(ask(Vec::new()).len(), 2);
    assert_eq!(ask(vec![QueryTerm::HasTag(vec![tag])]), vec![cat]);
    assert_eq!(ask(vec![QueryTerm::NotTag(vec![tag])]), vec![dog]);
    assert!(ask(vec![QueryTerm::HasTag(Vec::new())]).is_empty());
    assert_eq!(ask(vec![QueryTerm::NotTag(Vec::new())]).len(), 2);
    assert_eq!(
        ask(vec![
            QueryTerm::NameMatches(substring("PHOTOS")),
            QueryTerm::NotNameMatches(substring("CAT")),
        ]),
        vec![dog]
    );
    let tags = database
        .tag_ids_for_query(
            &vec![QueryTerm::FileIdMatches(vec![cat])],
            SubtagRule::Include,
            DeletedRule::Exclude,
        )
        .unwrap();
    assert!(tags.is_empty(), "a term on files selects no tag");
}

#[test]
fn lowercasing_goes_beyond_ascii() {
    let mut database = memory_db();
    let file_id = FileId::new();
    database.add_file(file_id, &LogicalPath::new("\u{c9}T\u{c9}.txt"), 1).unwrap();
    database.record_version(file_id, "h", "local", 1).unwrap();
    let term = QueryTerm::NameMatches(TextPattern::Substring("\u{e9}t\u{e9}".to_owned()));
    let found = database
        .file_ids_for_query(&vec![term], SubtagRule::Exclude, DeletedRule::Exclude)
        .unwrap();
    assert_eq!(found, vec![file_id]);
}

#[test]
fn shortened_id_resolves_to_its_tag() {
    let mut database = memory_db();
    let first = TagId::from_string("00000000000000000000000000000001").unwrap();
    let second = TagId::from_string("00000000-0000-0000-0000-0000000000f1").unwrap();
    database.add_tag(first, "a", &TagStyle::default(), 1).unwrap();
    database.add_tag(second, "b", &TagStyle::default(), 1).unwrap();
    let length = database.shorten_tag_id(first).unwrap();
    assert_eq!(length, 31);
    let prefix = &first.to_string()[..length];
    assert_eq!(
        database.tag_ids_matching_id_prefix(prefix, DeletedRule::Exclude).unwrap(),
        vec![first]
    );
    assert_eq!(
        normalize_id_prefix("00-0F").as_deref(),
        Some("000f"),
        "hyphens go and letters are lowered"
    );
    assert_eq!(normalize_id_prefix("xyz"), None);
}

#[test]
fn fresh_ids_differ_and_are_random() {
    let a = FileId::new();
    let b = FileId::new();
    assert_ne!(a, b);
    let text = a.to_string();
    assert_eq!(text.len(), 32);
    assert_eq!(&text[12..13], "4");
    assert_eq!(FileId::from_string(&text), Some(a));
    assert_eq!(FileId::from_string("123"), None);
}

#[test]
fn rows_that_break_the_tables_are_refused() {
    let id = FileId::new();
    let row = || FileRow {
        id,
        logical_path: LogicalPath::new("a"),
        logical_path_modified_at: 0,
        deleted: false,
        deleted_at: 0,
        restored_at: 0,
    };
    let mut rows = CatalogRows::new();
    rows.files = vec![row(), row()];
    assert!(matches!(
        CatalogStore::initialize(rows),
        Err(DatabaseError::UnableToOpenOrCreate)
    ));
    let mut rows = CatalogRows::new();
    rows.files = vec![row()];
    rows.tags = vec![TagRow {
        id: TagId::new(),
        name: "t".to_owned(),
        modified_at: 1,
        deleted: false,
        style: TagStyle::default(),
    }];
    rows.previews = vec![PreviewRow {
        file_id: id,
        content_hash: "h".to_owned(),
        kind: 2,
        data: None,
        width: None,
        height: None,
        generated_at: 1,
    }];
    let database = CatalogStore::initialize(rows).unwrap();
    assert_eq!(database.preview_for(id, "h").unwrap(), Some(Preview::Absent));
}

#[test]
fn time_is_in_milliseconds() {
    assert!(now_millis() > 1_600_000_000_000);
    assert_eq!(stamp_of(None), 0);
    assert_eq!(stamp_of(Some(17)), 17);
}

#[test]
fn text_is_trimmed_and_matched() {
    assert_eq!(trim("\u{a0} a b\t\r\n"), "a b");
    assert_eq!(trim(" \n "), "");
    assert!(is_white('\u{3000}') && !is_white('\u{200b}'));
    let like = |pattern: &str, text: &str| like_chars(&chars_of(pattern), &chars_of(text));
    assert!(like("a%C_", "abbcd"));
    assert!(!like("a_", "a"));
    assert!(like("%", ""));
}

#[test]
fn edit_clears_a_tombstone_and_no_restore_is_recorded() {
    let file_id = FileId::new();
    let mut database = with_file(file_id);
    database.remove_file(file_id, 10).unwrap();
    database.record_version_at(file_id, "old", "peer", 1, 10).unwrap();
    database.restore_file(file_id).unwrap();
    assert!(database.file_deletion_state(file_id).unwrap().unwrap().deleted);
    database.record_version_at(file_id, "new", "peer", 1, 11).unwrap();
    database.restore_file(file_id).unwrap();
    let state = database.file_deletion_state(file_id).unwrap().unwrap();
    assert!(!state.deleted);
    assert_eq!(state.restored_at, 0);
    assert_eq!(state.deleted_at, 10);
    database.restore_file(FileId::new()).unwrap();
}

#[test]
fn live_file_is_found_by_its_path() {
    let file_id = FileId::new();
    let mut database = with_file(file_id);
    let path = LogicalPath::new("start");
    assert_eq!(database.file_id_from_logical_path(&path).unwrap(), file_id);
    database.remove_file(file_id, 10).unwrap();
    assert!(matches!(
        database.file_id_from_logical_path(&path),
        Err(DatabaseError::MissingFile)
    ));
}

#[test]
fn sizes_are_summed_over_latest_versions() {
    let a = FileId::new();
    let b = FileId::new();
    let mut database = with_file(a);
    database.add_file(b, &LogicalPath::new("b"), 1).unwrap();
    database.record_version(a, "1", "local", 100).unwrap();
    database.record_version(a, "2", "local", 5).unwrap();
    database.record_version_at(b, "3", "local", 7, 1).unwrap();
    assert_eq!(database.total_catalog_size(DeletedRule::Exclude).unwrap(), (12, 2));
    assert_eq!(
        database.size_of_files(&[b, b, FileId::new()], DeletedRule::Exclude).unwrap(),
        (7, 1)
    );
    database.remove_file(b, 10).unwrap();
    assert_eq!(database.total_catalog_size(DeletedRule::Exclude).unwrap(), (5, 1));
    assert_eq!(database.total_catalog_size(DeletedRule::Include).unwrap(), (12, 2));
    let mut hashes = database.latest_content_hashes().unwrap();
    hashes.sort();
    let mut expected = vec![(a, "2".to_owned()), (b, "3".to_owned())];
    expected.sort();
    assert_eq!(hashes, expected);
}

#[test]
fn total_that_leaves_the_number_range_fails() {
    let a = FileId::new();
    let b = FileId::new();
    let mut database = with_file(a);
    database.add_file(b, &LogicalPath::new("b"), 1).unwrap();
    database.record_version(a, "1", "local", i64::MAX).unwrap();
    database.record_version(b, "2", "local", 1).unwrap();
    assert!(matches!(
        database.total_catalog_size(DeletedRule::Exclude),
        Err(DatabaseError::Sqlite { .. })
    ));
}

#[test]
fn tags_are_found_and_restyled() {
    let mut database = memory_db();
    let tag = TagId::new();
    assert!(!database.tag_exists(tag).unwrap());
    database.add_tag(tag, "name", &TagStyle::default(), 1).unwrap();
    assert!(database.tag_exists(tag).unwrap());
    assert_eq!(database.tag_id_from_name("name").unwrap(), tag);
    assert!(matches!(
        database.tag_id_from_name("other"),
        Err(DatabaseError::MissingTag)
    ));
    let style = TagStyle {
        shape: "round".to_owned(),
        ..TagStyle::default()
    };
    database.update_tag_style(tag, &style, 2).unwrap();
    let (_, style, modified_at) = database.tag_definition(tag).unwrap().unwrap();
    assert_eq!(style.shape, "round");
    assert_eq!(modified_at, 2);
}

#[test]
fn tag_graph_is_walked_both_ways() {
    let mut database = memory_db();
    let animals = TagId::new();
    let pets = TagId::new();
    let cat = FileId::new();
    database.add_tag(animals, "animals", &TagStyle::default(), 1).unwrap();
    database.add_tag(pets, "pets", &TagStyle::default(), 1).unwrap();
    database.add_file(cat, &LogicalPath::new("cat"), 1).unwrap();
    database.record_version(cat, "h", "local", 1).unwrap();
    database.tag_tag(animals, pets, 2).unwrap();
    database.tag_file(pets, cat, 2).unwrap();
    assert!(matches!(
        database.tag_tag(pets, pets, 3),
        Err(DatabaseError::CantTagItself)
    ));
    assert!(database.file_ids_for_tag(animals, SubtagRule::Exclude).unwrap().is_empty());
    assert_eq!(database.file_ids_for_tag(animals, SubtagRule::Include).unwrap(), vec![cat]);
    assert_eq!(database.subtag_ids_for_tag(animals, SubtagRule::Exclude).unwrap(), vec![pets]);
    assert_eq!(database.tag_ids_for_subtag(pets, SubtagRule::Exclude).unwrap(), vec![animals]);
    let mut all = database.tag_ids_for_file(cat, SubtagRule::Include).unwrap();
    all.sort();
    let mut expected = vec![animals, pets];
    expected.sort();
    assert_eq!(all, expected);
}

#[test]
fn any_tag_of_a_chain_surfaces_the_file() {
    let mut database = memory_db();
    let chain: Vec<TagId> = (0..4).map(|_| TagId::new()).collect();
    let file_id = FileId::new();
    database.add_file(file_id, &LogicalPath::new("f"), 1).unwrap();
    for pair in chain.windows(2) {
        database.tag_tag(pair[0], pair[1], 1).unwrap();
    }
    database.tag_file(chain[3], file_id, 1).unwrap();
    for tag in &chain {
        let term = QueryTerm::HasTag(vec![*tag]);
        let found = database
            .file_ids_for_query(&vec![term], SubtagRule::Include, DeletedRule::Exclude)
            .unwrap();
        assert_eq!(found, vec![file_id]);
    }
    database.tag_tag(chain[3], chain[0], 2).unwrap();
    for tag in &chain {
        assert_eq!(database.file_ids_for_tag(*tag, SubtagRule::Include).unwrap(), vec![file_id]);
        assert_eq!(database.subtag_ids_for_tag(*tag, SubtagRule::Include).unwrap().len(), 4);
    }
    database.untag_file(chain[3], file_id, 2).unwrap();
    assert!(database.file_ids_for_tag(chain[0], SubtagRule::Include).unwrap().is_empty());
}
