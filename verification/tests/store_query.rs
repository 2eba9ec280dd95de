#![allow(unused_mut)]

use std::collections::BTreeSet;

use tagsyd::clock::now_millis;
use tagsyd::ids::{FileId, TagId};
use tagsyd::paths::LogicalPath;
use tagsyd::state::{DeletedRule, SubtagRule, TagStyle};
use tagsyd::store::pattern::TextPattern;
use tagsyd::store::query::QueryTerm;
use tagsyd::store::types::CatalogRows;
use tagsyd::store::CatalogStore;

fn memory_db() -> CatalogStore {
    CatalogStore::initialize(CatalogRows::new()).expect("an empty catalog opens")
}

fn dot_style(color: &str) -> TagStyle {
    TagStyle {
        dot_color: color.to_owned(),
        ..TagStyle::default()
    }
}

fn file_id_from_hex(hex: &str) -> FileId {
    FileId::from_string(hex).expect("valid hex id")
}

fn tag_id_from_hex(hex: &str) -> TagId {
    TagId::from_string(hex).expect("valid hex id")
}

fn files_at(database: &mut CatalogStore, paths: &[&str]) -> Vec<FileId> {
    paths
        .iter()
        .map(|path| {
            let file_id = FileId::new();
            database
                .add_file(file_id, &LogicalPath::new(*path), 0)
                .unwrap();
            database
                .record_version(file_id, "hash", "local", 1)
                .unwrap();
            file_id
        })
        .collect()
}

fn matching_files(database: &CatalogStore, terms: &Vec<QueryTerm>) -> BTreeSet<FileId> {
    database
        .file_ids_for_query(terms, SubtagRule::Exclude, DeletedRule::Exclude)
        .unwrap()
        .into_iter()
        .collect()
}

fn regex(pattern: &str) -> TextPattern {
    TextPattern::Regex(pattern.to_owned())
}

#[test]
fn regex_term_matches_against_the_full_logical_path() {
    let mut database = memory_db();
    let files = files_at(&mut database, &[
        "photos/holiday/cat.jpg",
        "archive/photos/cat.jpg",
        "notes/todo.md",
    ]);

    let terms = vec![QueryTerm::LogicalMatches(regex("^photos/"))];
    assert_eq!(
        matching_files(&database, &terms),
        BTreeSet::from([files[0]]),
        "anchoring must bind to the whole path, not the basename"
    );
}

#[test]
fn regex_term_may_contain_slashes() {
    let mut database = memory_db();
    let files = files_at(&mut database, &[
        "photos/2024/raw/a.dng",
        "photos/2024/a.jpg",
    ]);

    let terms = vec![QueryTerm::LogicalMatches(regex(r"^photos/.*/raw/.*\.dng$"))];
    assert_eq!(
        matching_files(&database, &terms),
        BTreeSet::from([files[0]])
    );
}

#[test]
fn regex_term_is_case_insensitive_by_default() {
    let mut database = memory_db();
    let files = files_at(&mut database, &["Photos/Cat.JPG"]);

    let terms = vec![QueryTerm::LogicalMatches(regex(r"^photos/cat\.jpg$"))];
    assert_eq!(
        matching_files(&database, &terms),
        BTreeSet::from([files[0]])
    );
}

#[test]
fn regex_term_case_sensitivity_can_be_opted_into() {
    let mut database = memory_db();
    let files = files_at(&mut database, &["Photos/Cat.JPG", "photos/cat.jpg"]);

    let terms = vec![QueryTerm::LogicalMatches(regex(r"(?-i)^Photos/"))];
    assert_eq!(
        matching_files(&database, &terms),
        BTreeSet::from([files[0]]),
        "(?-i) must see the original casing"
    );
}

#[test]
fn invalid_regex_term_matches_nothing() {
    let mut database = memory_db();
    files_at(&mut database, &["notes/todo.md", "notes/todo.txt"]);

    let terms = vec![QueryTerm::LogicalMatches(regex("*.md"))];
    assert!(matching_files(&database, &terms).is_empty());
}

#[test]
fn negated_regex_term_excludes_matches() {
    let mut database = memory_db();
    let files = files_at(&mut database, &["notes/todo.md", "notes/todo.txt"]);

    let terms = vec![QueryTerm::NotLogicalMatches(regex(r"\.md$"))];
    assert_eq!(
        matching_files(&database, &terms),
        BTreeSet::from([files[1]])
    );
}

#[test]
fn substring_term_treats_metacharacters_literally() {
    let mut database = memory_db();
    let files = files_at(&mut database, &["notes/todo.md", "notes/todoXmd"]);

    let terms = vec![QueryTerm::LogicalMatches(TextPattern::Substring(
        "todo.md".to_owned(),
    ))];
    assert_eq!(
        matching_files(&database, &terms),
        BTreeSet::from([files[0]]),
        "`.` must not behave as a wildcard in a substring term"
    );
}

#[test]
fn regex_token_resolves_tags_by_name() {
    let mut database = memory_db();
    let wip = TagId::new();
    let done = TagId::new();
    database
        .add_tag(wip, "wip-draft", &dot_style("red"), 1)
        .unwrap();
    database
        .add_tag(done, "done", &dot_style("red"), 1)
        .unwrap();

    let matched = database
        .tag_ids_matching_pattern(&regex("^wip-"), DeletedRule::Exclude)
        .unwrap();
    assert_eq!(matched, vec![wip]);
}

#[test]
fn regex_token_does_not_resolve_tags_by_id() {
    let mut database = memory_db();
    let tag_id = TagId::new();
    database
        .add_tag(tag_id, "unrelated", &dot_style("red"), 1)
        .unwrap();

    let id = tag_id.to_string();
    let matched = database
        .tag_ids_matching_pattern(&regex(&format!("^{}", &id[..6])), DeletedRule::Exclude)
        .unwrap();
    assert!(matched.is_empty(), "ids are not a regex surface");

    let matched = database
        .tag_ids_matching_pattern(
            &TextPattern::Substring(id[..6].to_owned()),
            DeletedRule::Exclude,
        )
        .unwrap();
    assert_eq!(matched, vec![tag_id]);
}

#[test]
fn file_ids_for_query_positive_term_unions_all_matching_tags() {
    let mut database = memory_db();
    let foo = TagId::new();
    let foobar = TagId::new();
    database.add_tag(foo, "foo", &dot_style("red"), 1).unwrap();
    database
        .add_tag(foobar, "foobar", &dot_style("red"), 1)
        .unwrap();

    let file_a = FileId::new();
    let file_b = FileId::new();
    let file_c = FileId::new();
    for (id, path) in [(file_a, "a"), (file_b, "b"), (file_c, "c")] {
        database.add_file(id, &LogicalPath::new(path), 0).unwrap();
    }
    database.tag_file(foo, file_a, 1).unwrap();
    database.tag_file(foobar, file_b, 1).unwrap();

    let terms = vec![QueryTerm::HasTag(vec![foo, foobar])];
    let matched: BTreeSet<FileId> = database
        .file_ids_for_query(&terms, SubtagRule::Exclude, DeletedRule::Exclude)
        .unwrap()
        .into_iter()
        .collect();

    assert_eq!(matched, BTreeSet::from([file_a, file_b]));
}

#[test]
fn file_ids_for_query_empty_positive_set_matches_nothing() {
    let mut database = memory_db();
    let file = FileId::new();
    database.add_file(file, &LogicalPath::new("a"), 0).unwrap();

    let terms = vec![QueryTerm::HasTag(vec![])];
    let matched: Vec<FileId> = database
        .file_ids_for_query(&terms, SubtagRule::Exclude, DeletedRule::Exclude)
        .unwrap()
        .into_iter()
        .collect();

    assert!(matched.is_empty());
}

#[test]
fn file_ids_for_query_negative_term_excludes_union_of_matching_tags() {
    let mut database = memory_db();
    let foo = TagId::new();
    let foobar = TagId::new();
    database.add_tag(foo, "foo", &dot_style("red"), 1).unwrap();
    database
        .add_tag(foobar, "foobar", &dot_style("red"), 1)
        .unwrap();

    let file_a = FileId::new();
    let file_b = FileId::new();
    let file_c = FileId::new();
    for (id, path) in [(file_a, "a"), (file_b, "b"), (file_c, "c")] {
        database.add_file(id, &LogicalPath::new(path), 0).unwrap();
        database.record_version(id, "hash", "test", 1).unwrap();
    }
    database.tag_file(foo, file_a, 1).unwrap();
    database.tag_file(foobar, file_b, 1).unwrap();

    let terms = vec![QueryTerm::NotTag(vec![foo, foobar])];
    let matched: BTreeSet<FileId> = database
        .file_ids_for_query(&terms, SubtagRule::Exclude, DeletedRule::Exclude)
        .unwrap()
        .into_iter()
        .collect();

    assert_eq!(matched, BTreeSet::from([file_c]));
}

#[test]
fn file_ids_for_query_include_returns_tombstoned_candidates() {
    let mut database = memory_db();
    let tag_id = TagId::new();
    database
        .add_tag(tag_id, "photos", &dot_style("red"), 10)
        .unwrap();

    let live = FileId::new();
    let dead = FileId::new();
    database
        .add_file(live, &LogicalPath::new("live.jpg"), 0)
        .unwrap();
    database
        .add_file(dead, &LogicalPath::new("dead.jpg"), 0)
        .unwrap();
    database.record_version(live, "h1", "local", 1).unwrap();
    database.record_version(dead, "h2", "local", 1).unwrap();
    database.tag_file(tag_id, live, 20).unwrap();
    database.tag_file(tag_id, dead, 20).unwrap();

    let deleted_at = now_millis() + 10_000;
    assert!(database.remove_file(dead, deleted_at).unwrap());

    let terms = vec![QueryTerm::HasTag(vec![tag_id])];

    let candidates: BTreeSet<FileId> = database
        .file_ids_for_query(&terms, SubtagRule::Exclude, DeletedRule::Include)
        .unwrap()
        .into_iter()
        .collect();
    assert_eq!(candidates, BTreeSet::from([live, dead]));

    let live_info = database
        .file_info_from_id(live, DeletedRule::Include)
        .unwrap();
    let dead_info = database
        .file_info_from_id(dead, DeletedRule::Include)
        .unwrap();
    assert!(!live_info.deleted);
    assert!(dead_info.deleted);
}

#[test]
fn file_ids_for_query_file_id_term_filters_by_id() {
    let mut database = memory_db();
    let wanted = file_id_from_hex("abcd000000000000000000000000000a");
    let other = file_id_from_hex("ffff000000000000000000000000000f");
    for (id, path) in [(wanted, "a"), (other, "b")] {
        database.add_file(id, &LogicalPath::new(path), 0).unwrap();
        database.record_version(id, "hash", "local", 1).unwrap();
    }

    let terms = vec![QueryTerm::FileIdMatches(vec![wanted])];
    assert_eq!(matching_files(&database, &terms), BTreeSet::from([wanted]));

    let terms = vec![QueryTerm::FileIdMatches(vec![])];
    assert!(matching_files(&database, &terms).is_empty());
}

#[test]
fn file_ids_for_query_negated_file_id_term_excludes_id() {
    let mut database = memory_db();
    let excluded = file_id_from_hex("abcd000000000000000000000000000a");
    let kept = file_id_from_hex("ffff000000000000000000000000000f");
    for (id, path) in [(excluded, "a"), (kept, "b")] {
        database.add_file(id, &LogicalPath::new(path), 0).unwrap();
        database.record_version(id, "hash", "local", 1).unwrap();
    }

    let terms = vec![QueryTerm::NotFileIdMatches(vec![excluded])];
    assert_eq!(matching_files(&database, &terms), BTreeSet::from([kept]));
}

#[test]
fn file_ids_for_query_any_match_unions_file_id_set() {
    let mut database = memory_db();
    let by_id = file_id_from_hex("abcd000000000000000000000000000a");
    let by_path = file_id_from_hex("ffff000000000000000000000000000f");
    database
        .add_file(by_id, &LogicalPath::new("unrelated"), 0)
        .unwrap();
    database.record_version(by_id, "hash", "local", 1).unwrap();
    database
        .add_file(by_path, &LogicalPath::new("abcd-name"), 0)
        .unwrap();
    database
        .record_version(by_path, "hash", "local", 1)
        .unwrap();

    let terms = vec![QueryTerm::AnyMatch(
        TextPattern::Substring("abcd".to_owned()),
        vec![],
        vec![by_id],
    )];
    assert_eq!(
        matching_files(&database, &terms),
        BTreeSet::from([by_id, by_path])
    );
}

#[test]
fn tag_ids_for_query_any_match_ignores_file_id_set() {
    let mut database = memory_db();
    let tag_id = TagId::new();
    database
        .add_tag(tag_id, "photos", &dot_style("red"), 1)
        .unwrap();

    let some_file = file_id_from_hex("abcd000000000000000000000000000a");
    let terms = vec![QueryTerm::AnyMatch(
        TextPattern::Substring("no-such-name".to_owned()),
        vec![],
        vec![some_file],
    )];
    let matched: BTreeSet<TagId> = database
        .tag_ids_for_query(&terms, SubtagRule::Exclude, DeletedRule::Exclude)
        .unwrap()
        .into_iter()
        .collect();
    assert!(matched.is_empty());
}

#[test]
fn tag_ids_for_query_file_id_term_yields_no_tags() {
    let mut database = memory_db();
    let tag_id = TagId::new();
    database
        .add_tag(tag_id, "photos", &dot_style("red"), 1)
        .unwrap();

    let some_file = file_id_from_hex("abcd000000000000000000000000000a");
    for term in [
        QueryTerm::FileIdMatches(vec![some_file]),
        QueryTerm::NotFileIdMatches(vec![some_file]),
    ] {
        let matched: BTreeSet<TagId> = database
            .tag_ids_for_query(&vec![term], SubtagRule::Exclude, DeletedRule::Exclude)
            .unwrap()
            .into_iter()
            .collect();
        assert!(matched.is_empty());
    }
}

#[test]
fn tag_ids_for_query_any_match_surfaces_the_resolved_tag_itself() {
    let mut database = memory_db();
    let parent = tag_id_from_hex("abcd000000000000000000000000000a");
    let child = TagId::new();
    let unrelated = TagId::new();
    database
        .add_tag(parent, "work", &dot_style("red"), 1)
        .unwrap();
    database
        .add_tag(child, "urgent", &dot_style("red"), 1)
        .unwrap();
    database
        .add_tag(unrelated, "leisure", &dot_style("red"), 1)
        .unwrap();
    database.tag_tag(parent, child, 1).unwrap();

    let terms = vec![QueryTerm::AnyMatch(
        TextPattern::Substring("abcd".to_owned()),
        vec![parent],
        vec![],
    )];
    let matched: BTreeSet<TagId> = database
        .tag_ids_for_query(&terms, SubtagRule::Include, DeletedRule::Exclude)
        .unwrap()
        .into_iter()
        .collect();

    assert!(
        matched.contains(&parent),
        "the tag named by the id must appear"
    );
    assert!(matched.contains(&child), "its subtags still appear too");
    assert!(!matched.contains(&unrelated));
}
