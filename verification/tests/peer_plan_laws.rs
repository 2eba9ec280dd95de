use tagsyd::ids::{FileId, TagId};
use tagsyd::paths::LogicalPath;
use tagsyd::peer::batch::split_in_batches;
use tagsyd::peer::messages::{ManifestEntry, MaterializePlacement};
use tagsyd::peer::plan::{build_local_manifest, decide_request, plan_file_sync, ReconcileDecision};
use tagsyd::peer::plan_purge::{build_local_purge_manifest, plan_purge_sync};
use tagsyd::state::{DeletedRule, TagStyle};
use tagsyd::store::{CatalogRows, CatalogStore};

fn memory_db() -> CatalogStore {
    CatalogStore::initialize(CatalogRows::new()).expect("an empty catalog opens")
}

fn entry(file_id: FileId, hashes: &[&str]) -> ManifestEntry {
    ManifestEntry {
        file_id,
        history: hashes
            .iter()
            .enumerate()
            .map(|(i, hash)| (i as i64 + 1, hash.to_string(), 10 + i as i64))
            .collect(),
        latest_observed_at: 100,
        logical_path: LogicalPath::new("f"),
        logical_path_modified_at: 0,
        deleted: false,
        deleted_at: 0,
        restored_at: 0,
    }
}

fn with_versions(file_id: FileId, hashes: &[&str]) -> CatalogStore {
    let mut database = memory_db();
    database.add_file(file_id, &LogicalPath::new("f"), 0).unwrap();
    for (i, hash) in hashes.iter().enumerate() {
        database.record_version_at(file_id, hash, "local", 10 + i as i64, 100).unwrap();
    }
    database
}

#[test]
fn applied_delete_is_not_planned_again() {
    let file_id = FileId::new();
    let mut database = with_versions(file_id, &["a"]);
    let mut announced = entry(file_id, &["a"]);
    announced.deleted = true;
    announced.deleted_at = 200;
    let plan = plan_file_sync("peer", vec![announced.clone()], &database);
    assert_eq!(plan.deletions.len(), 1);
    assert_eq!(plan.deletions[0].deleted_at, 200);
    database.remove_file(file_id, plan.deletions[0].deleted_at).unwrap();
    let plan = plan_file_sync("peer", vec![announced], &database);
    assert!(plan.deletions.is_empty() && plan.pulls.is_empty());
}

#[test]
fn applied_restore_is_not_planned_again() {
    let file_id = FileId::new();
    let mut database = with_versions(file_id, &["a"]);
    database.remove_file(file_id, 200).unwrap();
    let mut announced = entry(file_id, &["a"]);
    announced.restored_at = 300;
    let plan = plan_file_sync("peer", vec![announced.clone()], &database);
    assert_eq!(plan.restores.len(), 1);
    assert_eq!(plan.restores[0].restored_at, 300);
    assert_eq!(plan.restores[0].content_hash, "a");
    assert!(database.apply_restore(file_id, 300).unwrap());
    let plan = plan_file_sync("peer", vec![announced], &database);
    assert!(plan.restores.is_empty() && plan.deletions.is_empty() && plan.pulls.is_empty());
}

#[test]
fn applied_move_is_not_planned_again() {
    let file_id = FileId::new();
    let mut database = with_versions(file_id, &["a"]);
    let mut announced = entry(file_id, &["a"]);
    announced.logical_path = LogicalPath::new("moved");
    announced.logical_path_modified_at = 5;
    let plan = plan_file_sync("peer", vec![announced.clone()], &database);
    assert_eq!(plan.moves.len(), 1);
    let moved = &plan.moves[0];
    assert!(database
        .update_file_logical_path(moved.file_id, &moved.logical_path, moved.modified_at)
        .unwrap());
    assert!(plan_file_sync("peer", vec![announced], &database).moves.is_empty());
}

#[test]
fn recorded_content_is_not_pulled_again() {
    let file_id = FileId::new();
    let mut database = with_versions(file_id, &["a"]);
    let announced = entry(file_id, &["a", "b"]);
    let plan = plan_file_sync("peer", vec![announced.clone()], &database);
    assert_eq!(plan.pulls.len(), 1);
    assert_eq!(plan.pulls[0].size, 11);
    assert!(matches!(plan.pulls[0].placement, MaterializePlacement::Change));
    database.record_version(file_id, &plan.pulls[0].content_hash, "peer", 11).unwrap();
    assert!(plan_file_sync("peer", vec![announced], &database).pulls.is_empty());
}

#[test]
fn diverged_histories_are_pulled_from_one_side_only() {
    let file_id = FileId::new();
    let mut ours = memory_db();
    let mut theirs = memory_db();
    for (database, hash, observed_at) in [(&mut ours, "mine", 100), (&mut theirs, "yours", 200)] {
        database.add_file(file_id, &LogicalPath::new("f"), 0).unwrap();
        database.record_version_at(file_id, "base", "local", 1, 50).unwrap();
        database.record_version_at(file_id, hash, "local", 2, observed_at).unwrap();
    }
    let our_manifest = build_local_manifest(&ours).unwrap();
    let their_manifest = build_local_manifest(&theirs).unwrap();
    assert_eq!(
        decide_request(&ours, &their_manifest[0]),
        ReconcileDecision::Divergent { ours_observed_at: 100, request: true }
    );
    assert_eq!(
        decide_request(&theirs, &our_manifest[0]),
        ReconcileDecision::Divergent { ours_observed_at: 200, request: false }
    );
    assert_eq!(plan_file_sync("peer", their_manifest, &ours).pulls.len(), 1);
    assert!(plan_file_sync("peer", our_manifest, &theirs).pulls.is_empty());
}

#[test]
fn peer_with_no_history_is_asked_for_nothing() {
    let file_id = FileId::new();
    let database = with_versions(file_id, &["a"]);
    assert_eq!(decide_request(&database, &entry(file_id, &[])), ReconcileDecision::Nothing);
}

#[test]
fn applied_purges_are_not_planned_again() {
    let mut ours = memory_db();
    let mut theirs = memory_db();
    for _ in 0..3 {
        theirs.record_purge(FileId::new()).unwrap();
    }
    let announced = build_local_purge_manifest(&theirs).unwrap();
    let wanted = plan_purge_sync("peer", announced.clone(), &ours);
    assert_eq!(wanted.len(), 3);
    for file_id in wanted {
        ours.record_purge(file_id).unwrap();
    }
    assert!(plan_purge_sync("peer", announced, &ours).is_empty());
}

#[test]
fn batches_join_to_the_whole() {
    let items: Vec<u32> = (0..11).collect();
    for size in 0..13 {
        let batches = split_in_batches(items.clone(), size);
        assert!(batches.iter().all(|batch| !batch.is_empty() && batch.len() <= size.max(1)));
        assert_eq!(batches.concat(), items);
    }
}

#[test]
fn exchanged_manifests_bring_two_devices_together() {
    let file_id = FileId::new();
    let mut ours = with_versions(file_id, &["base"]);
    let mut theirs = with_versions(file_id, &["base", "next"]);
    ours.update_file_logical_path(file_id, &LogicalPath::new("ours"), 10).unwrap();
    theirs.update_file_logical_path(file_id, &LogicalPath::new("theirs"), 20).unwrap();

    let our_manifest = build_local_manifest(&ours).unwrap();
    let their_manifest = build_local_manifest(&theirs).unwrap();
    for (database, manifest) in [(&mut ours, their_manifest), (&mut theirs, our_manifest)] {
        let plan = plan_file_sync("peer", manifest, database);
        for moved in plan.moves {
            database
                .update_file_logical_path(moved.file_id, &moved.logical_path, moved.modified_at)
                .unwrap();
        }
        for pull in plan.pulls {
            database
                .record_version(pull.file_id, &pull.content_hash, "peer", pull.size)
                .unwrap();
        }
    }
    for database in [&ours, &theirs] {
        assert_eq!(database.logical_path_for_file_id(file_id).unwrap().as_str(), "theirs");
        assert_eq!(database.logical_path_modified_at(file_id).unwrap(), Some(20));
        assert_eq!(database.latest_version(file_id).unwrap().unwrap().content_hash, "next");
    }
    let again = plan_file_sync("peer", build_local_manifest(&theirs).unwrap(), &ours);
    assert!(again.pulls.is_empty() && again.moves.is_empty());
    let again = plan_file_sync("peer", build_local_manifest(&ours).unwrap(), &theirs);
    assert!(again.pulls.is_empty() && again.moves.is_empty());
}

#[test]
fn exchanged_delete_and_restore_leave_two_devices_alike() {
    let file_id = FileId::new();
    for (deleted_at, restored_at, live) in [(20, 30, true), (30, 20, false)] {
        let mut ours = CatalogStore::initialize(CatalogRows::new()).unwrap();
        let mut theirs = CatalogStore::initialize(CatalogRows::new()).unwrap();
        for database in [&mut ours, &mut theirs] {
            database.add_file(file_id, &LogicalPath::new("a"), 0).unwrap();
            database.record_version_at(file_id, "h", "local", 1, 10).unwrap();
        }
        assert!(ours.remove_file(file_id, deleted_at).unwrap());
        theirs.apply_restore(file_id, restored_at).unwrap();

        let our_manifest = build_local_manifest(&ours).unwrap();
        let their_manifest = build_local_manifest(&theirs).unwrap();
        for (database, manifest) in [(&mut ours, their_manifest), (&mut theirs, our_manifest)] {
            let plan = plan_file_sync("peer", manifest, database);
            for deletion in plan.deletions {
                database.remove_file(deletion.file_id, deletion.deleted_at).unwrap();
            }
            for restore in plan.restores {
                database.apply_restore(restore.file_id, restore.restored_at).unwrap();
            }
        }
        let our_state = ours.file_deletion_state(file_id).unwrap().unwrap();
        let their_state = theirs.file_deletion_state(file_id).unwrap().unwrap();
        assert_eq!((our_state.deleted, their_state.deleted), (!live, !live));
        if !live {
            assert_eq!((our_state.deleted_at, their_state.deleted_at), (30, 30));
        }
    }
}

#[test]
fn exchanged_tag_tombstone_leaves_two_devices_alike() {
    let tag_id = TagId::new();
    let mut ours = CatalogStore::initialize(CatalogRows::new()).unwrap();
    let mut theirs = CatalogStore::initialize(CatalogRows::new()).unwrap();
    ours.add_tag(tag_id, "work", &TagStyle::default(), 10).unwrap();
    theirs.add_tag(tag_id, "job", &TagStyle::default(), 20).unwrap();
    assert!(ours.remove_tag(tag_id, 30).unwrap());

    theirs.remove_tag(tag_id, 30).unwrap();
    ours.add_tag(tag_id, "job", &TagStyle::default(), 20).unwrap();
    for database in [&ours, &theirs] {
        assert_eq!(database.tag_modified_at(tag_id).unwrap(), Some(30));
        assert!(database.tag_from_id(tag_id, DeletedRule::Include).unwrap().deleted);
    }
}
