use tagsyd::ids::FileId;
use tagsyd::peer::plan_purge::{batch_purge_manifest, plan_purge_sync};
use tagsyd::store::{CatalogRows, CatalogStore};

fn memory_db() -> CatalogStore {
    CatalogStore::initialize(CatalogRows::new()).expect("an empty catalog opens")
}

#[test]
fn batch_splits_and_clamps() {
    let ids: Vec<FileId> = (0..5).map(|_| FileId::new()).collect();
    let frames = batch_purge_manifest(ids.clone(), 2);
    assert_eq!(frames.len(), 3);
    assert_eq!(frames[0].len(), 2);
    assert_eq!(frames[2].len(), 1);

    let frames = batch_purge_manifest(ids, 0);
    assert_eq!(frames.len(), 5);

    assert!(batch_purge_manifest(Vec::new(), 4).is_empty());
}

#[test]
fn plan_skips_ids_we_already_hold() {
    let mut database = memory_db();
    let already = FileId::new();
    let fresh = FileId::new();
    database.record_purge(already).unwrap();

    let to_purge = plan_purge_sync("peer", vec![already, fresh], &database);
    assert_eq!(to_purge, vec![fresh]);
}
