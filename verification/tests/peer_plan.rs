use std::collections::HashSet;

use tagsyd::clock::now_millis;
use tagsyd::ids::FileId;
use tagsyd::paths::LogicalPath;
use tagsyd::peer::messages::{ManifestEntry, MaterializePlacement};
use tagsyd::peer::plan::{batch_manifest, plan_file_sync};
use tagsyd::store::{CatalogRows, CatalogStore};

fn memory_db() -> CatalogStore {
    CatalogStore::initialize(CatalogRows::new()).expect("an empty catalog opens")
}

#[test]
fn unknown_file_is_requested_as_create() {
    let database = memory_db();
    let file_id = FileId::new();
    let logical_path = LogicalPath::new("subdir/new.txt");
    let entry = ManifestEntry {
        file_id,
        history: vec![(1, "aaaa".to_owned(), 1), (2, "bbbb".to_owned(), 1)],
        latest_observed_at: 100,
        logical_path: logical_path.clone(),
        logical_path_modified_at: 0,
        deleted: false,
        deleted_at: 0,
        restored_at: 0,
    };

    let plan = plan_file_sync("peer", vec![entry], &database);
    assert!(plan.deletions.is_empty());
    assert_eq!(plan.pulls.len(), 1);
    assert_eq!(plan.pulls[0].file_id, file_id);
    assert_eq!(plan.pulls[0].content_hash, "bbbb");
    match &plan.pulls[0].placement {
        MaterializePlacement::Create {
            logical_path: got_logical_path,
            tags,
        } => {
            assert_eq!(got_logical_path, &logical_path);
            assert!(tags.is_empty(), "tags reconcile via Sync::TagManifest");
        }
        other => panic!("expected Create placement, got {other:?}"),
    }
}

#[test]
fn equal_latest_is_not_wanted() {
    let mut database = memory_db();
    let file_id = FileId::new();
    database
        .add_file(file_id, &LogicalPath::new("f.txt"), 0)
        .unwrap();
    database
        .record_version(file_id, "bbbb", "local", 1)
        .unwrap();

    let entry = ManifestEntry {
        file_id,
        history: vec![(1, "bbbb".to_owned(), 1)],
        latest_observed_at: 100,
        logical_path: LogicalPath::new("f.txt"),
        logical_path_modified_at: 0,
        deleted: false,
        deleted_at: 0,
        restored_at: 0,
    };

    let plan = plan_file_sync("peer", vec![entry], &database);
    assert!(plan.deletions.is_empty());
    assert!(plan.pulls.is_empty());
}

#[test]
fn behind_is_wanted_as_change() {
    let mut database = memory_db();
    let file_id = FileId::new();
    database
        .add_file(file_id, &LogicalPath::new("f.txt"), 0)
        .unwrap();
    database.record_version(file_id, "v1", "local", 1).unwrap();

    let entry = ManifestEntry {
        file_id,
        history: vec![(1, "v1".to_owned(), 1), (2, "v2".to_owned(), 1)],
        latest_observed_at: 100,
        logical_path: LogicalPath::new("f.txt"),
        logical_path_modified_at: 0,
        deleted: false,
        deleted_at: 0,
        restored_at: 0,
    };

    let plan = plan_file_sync("peer", vec![entry], &database);
    assert!(plan.deletions.is_empty());
    assert_eq!(plan.pulls.len(), 1);
    assert_eq!(plan.pulls[0].file_id, file_id);
    assert_eq!(plan.pulls[0].content_hash, "v2");
    assert!(
        matches!(
            plan.pulls[0].placement,
            MaterializePlacement::Change
        ),
        "known file placement must be Change, got {:?}",
        plan.pulls[0].placement
    );
}

#[test]
fn newer_peer_path_is_wanted_as_move() {
    let mut database = memory_db();
    let file_id = FileId::new();
    database
        .add_file(file_id, &LogicalPath::new("old.txt"), 10)
        .unwrap();
    database.record_version(file_id, "v1", "local", 1).unwrap();

    let entry = ManifestEntry {
        file_id,
        history: vec![(1, "v1".to_owned(), 1)],
        latest_observed_at: 100,
        logical_path: LogicalPath::new("new.txt"),
        logical_path_modified_at: 20,
        deleted: false,
        deleted_at: 0,
        restored_at: 0,
    };

    let plan = plan_file_sync("peer", vec![entry], &database);
    assert!(plan.deletions.is_empty());
    assert!(
        plan.pulls.is_empty(),
        "content is identical; the move must not trigger a byte pull"
    );
    assert_eq!(plan.moves.len(), 1);
    assert_eq!(plan.moves[0].file_id, file_id);
    assert_eq!(plan.moves[0].logical_path, LogicalPath::new("new.txt"));
    assert_eq!(plan.moves[0].modified_at, 20);
}

#[test]
fn stale_peer_path_is_not_wanted_as_move() {
    let mut database = memory_db();
    let file_id = FileId::new();
    database
        .add_file(file_id, &LogicalPath::new("ours.txt"), 30)
        .unwrap();
    database.record_version(file_id, "v1", "local", 1).unwrap();

    let entry = ManifestEntry {
        file_id,
        history: vec![(1, "v1".to_owned(), 1)],
        latest_observed_at: 100,
        logical_path: LogicalPath::new("theirs.txt"),
        logical_path_modified_at: 20,
        deleted: false,
        deleted_at: 0,
        restored_at: 0,
    };

    let plan = plan_file_sync("peer", vec![entry], &database);
    assert!(plan.moves.is_empty(), "a stale peer path must not win LWW");
}

#[test]
fn unknown_file_does_not_emit_move() {
    let database = memory_db();
    let entry = ManifestEntry {
        file_id: FileId::new(),
        history: vec![(1, "aaaa".to_owned(), 1)],
        latest_observed_at: 100,
        logical_path: LogicalPath::new("new.txt"),
        logical_path_modified_at: 999,
        deleted: false,
        deleted_at: 0,
        restored_at: 0,
    };

    let plan = plan_file_sync("peer", vec![entry], &database);
    assert!(
        plan.moves.is_empty(),
        "an unknown file adopts the path via Create, not a move"
    );
}

#[test]
fn peer_delete_newer_than_our_edit_is_applied() {
    let mut database = memory_db();
    let file_id = FileId::new();
    database
        .add_file(file_id, &LogicalPath::new("f.txt"), 0)
        .unwrap();
    database.record_version(file_id, "v1", "local", 1).unwrap();

    let entry = ManifestEntry {
        file_id,
        history: vec![(1, "v1".to_owned(), 1)],
        latest_observed_at: 0,
        logical_path: LogicalPath::new("f.txt"),
        logical_path_modified_at: 0,
        deleted: true,
        deleted_at: now_millis() + 10_000,
        restored_at: 0,
    };

    let plan = plan_file_sync("peer", vec![entry], &database);
    assert!(
        plan.pulls.is_empty(),
        "a tombstoned file must not be pulled"
    );
    assert_eq!(plan.deletions.len(), 1);
    assert_eq!(plan.deletions[0].file_id, file_id);
}

#[test]
fn peer_delete_older_than_our_edit_is_ignored() {
    let mut database = memory_db();
    let file_id = FileId::new();
    database
        .add_file(file_id, &LogicalPath::new("f.txt"), 0)
        .unwrap();
    database.record_version(file_id, "v1", "local", 1).unwrap();

    let entry = ManifestEntry {
        file_id,
        history: vec![(1, "v1".to_owned(), 1)],
        latest_observed_at: 0,
        logical_path: LogicalPath::new("f.txt"),
        logical_path_modified_at: 0,
        deleted: true,
        deleted_at: 1,
        restored_at: 0,
    };

    let plan = plan_file_sync("peer", vec![entry], &database);
    assert!(plan.deletions.is_empty(), "stale delete must not win");
    assert!(plan.pulls.is_empty());
}

#[test]
fn peer_delete_for_already_tombstoned_file_is_ignored() {
    let mut database = memory_db();
    let file_id = FileId::new();
    database
        .add_file(file_id, &LogicalPath::new("f.txt"), 0)
        .unwrap();
    database.record_version(file_id, "v1", "local", 1).unwrap();
    let ours_deleted_at = now_millis() + 5_000;
    assert!(database.remove_file(file_id, ours_deleted_at).unwrap());

    for peer_deleted_at in [ours_deleted_at - 1, ours_deleted_at, ours_deleted_at + 1] {
        let entry = ManifestEntry {
            file_id,
            history: vec![(1, "v1".to_owned(), 1)],
            latest_observed_at: 0,
            logical_path: LogicalPath::new("f.txt"),
            logical_path_modified_at: 0,
            deleted: true,
            deleted_at: peer_deleted_at,
            restored_at: 0,
        };

        let plan = plan_file_sync("peer", vec![entry], &database);
        assert!(
            plan.pulls.is_empty(),
            "no bytes to pull for a tombstoned file"
        );
        assert!(
            plan.deletions.is_empty(),
            "already-tombstoned file must not schedule another delete \
             (peer_deleted_at={peer_deleted_at})"
        );
        assert!(plan.moves.is_empty());
        assert!(plan.restores.is_empty());
    }
}

fn live_entry(file_id: FileId, hash: &str, name: &str) -> ManifestEntry {
    ManifestEntry {
        file_id,
        history: vec![(1, hash.to_owned(), 1)],
        latest_observed_at: 100,
        logical_path: LogicalPath::new(name),
        logical_path_modified_at: 0,
        deleted: false,
        deleted_at: 0,
        restored_at: 0,
    }
}

#[test]
fn batch_manifest_empty_yields_no_batches() {
    assert!(batch_manifest(Vec::new(), 2000).is_empty());
}

#[test]
fn batch_manifest_single_batch() {
    let entries = vec![
        live_entry(FileId::new(), "a", "a.txt"),
        live_entry(FileId::new(), "b", "b.txt"),
    ];
    let batches = batch_manifest(entries.clone(), 2000);
    assert_eq!(batches.len(), 1);
    assert_eq!(batches[0].len(), 2);
}

#[test]
fn batch_manifest_splits_and_preserves_order() {
    let entries: Vec<ManifestEntry> = (0..5u8)
        .map(|i| live_entry(FileId::new(), &format!("h{i}"), &format!("{i}.txt")))
        .collect();
    let ids: Vec<FileId> = entries.iter().map(|e| e.file_id).collect();

    let batches = batch_manifest(entries, 2);
    assert_eq!(batches.len(), 3, "ceil(5 / 2) == 3");
    assert_eq!(batches[0].len(), 2);
    assert_eq!(batches[1].len(), 2);
    assert_eq!(batches[2].len(), 1);

    let flattened: Vec<FileId> = batches
        .into_iter()
        .flatten()
        .map(|entry| entry.file_id)
        .collect();
    assert_eq!(flattened, ids, "no entry lost/duplicated; order preserved");
}

#[test]
fn batch_manifest_zero_size_is_clamped() {
    let entries = vec![live_entry(FileId::new(), "a", "a.txt")];
    let batches = batch_manifest(entries, 0);
    assert_eq!(batches.len(), 1);
    assert_eq!(batches[0].len(), 1);
}

#[test]
fn split_reconcile_matches_whole() {
    let whole_db = memory_db();
    let batched_db = memory_db();

    let entries: Vec<ManifestEntry> = (0..5u8)
        .map(|i| live_entry(FileId::new(), &format!("h{i}"), &format!("{i}.txt")))
        .collect();

    let whole_plan = plan_file_sync("peer", entries.clone(), &whole_db);

    let mut batched_pulls = Vec::new();
    for batch in batch_manifest(entries, 2) {
        let plan = plan_file_sync("peer", batch, &batched_db);
        batched_pulls.extend(plan.pulls);
    }

    let whole_ids: HashSet<FileId> = whole_plan.pulls.iter().map(|p| p.file_id).collect();
    let batched_ids: HashSet<FileId> = batched_pulls.iter().map(|p| p.file_id).collect();
    assert_eq!(whole_plan.pulls.len(), 5);
    assert_eq!(
        whole_ids, batched_ids,
        "the same files are pulled whether the manifest is whole or split"
    );
}
