use tagsyd::file_bytes::FileBytes;
use tagsyd::ids::{FileId, TagId};
use tagsyd::paths::LogicalPath;
use tagsyd::peer::messages::{
    CatalogCommand, Change, ChangeOrigin, Frame, ManifestEntry, MaterializePlacement,
    ReceiverPurpose, SyncMessage,
};
use tagsyd::peer::plan::{build_local_manifest, plan_file_sync};
use tagsyd::peer::session::{
    claim_outbound, clear_outbound_if_owned, on_frame, on_received, on_start_receive, on_tick,
    open_session, route_chunk_request, route_preview_request, ChunkRoute, OnFailure, OutboundSlot,
    PreviewRoute, SessionAction, SessionRole, TickActions, LIVENESS_TIMEOUT, PING_INTERVAL,
};
use tagsyd::peer::transfer::{ChunkAnswer, ReceiveOutcome, TransferError};
use tagsyd::state::{Preview, TagStyle};
use tagsyd::store::{CatalogRows, CatalogStore};

fn memory_db() -> CatalogStore {
    CatalogStore::initialize(CatalogRows::new()).expect("an empty catalog opens")
}

fn entry(file_id: FileId, hash: &str, size: i64, path: &str) -> ManifestEntry {
    ManifestEntry {
        file_id,
        history: vec![(1, hash.to_owned(), size)],
        latest_observed_at: 1,
        logical_path: LogicalPath::new(path),
        logical_path_modified_at: 3,
        deleted: false,
        deleted_at: 0,
        restored_at: 0,
    }
}

fn frame(database: &CatalogStore, registered: bool, frame: Frame) -> (Vec<SessionAction>, OnFailure) {
    on_frame("peer", &"key".to_owned(), registered, frame, database)
}

#[test]
fn change_is_handed_to_the_catalog() {
    let file_id = FileId::new();
    let change = Change::FileDeleted {
        file_id,
        deleted_at: 8,
    };
    let (actions, failure) = frame(&memory_db(), false, Frame::Change(change));
    assert_eq!(failure, OnFailure::EndSession);
    assert!(matches!(
        &actions[..],
        [SessionAction::Command(CatalogCommand::Change(
            Change::FileDeleted { file_id: id, deleted_at: 8 },
            ChangeOrigin::Peer { public_key },
        ))] if *id == file_id && public_key == "key"
    ));
}

#[test]
fn unknown_file_is_recorded_and_pulled() {
    let file_id = FileId::new();
    let entries = vec![entry(file_id, "h", 12, "a/b")];
    let (actions, failure) = frame(
        &memory_db(),
        true,
        Frame::Sync(SyncMessage::Manifest { entries: entries.clone() }),
    );
    assert_eq!(failure, OnFailure::GoOn);
    match &actions[..] {
        [SessionAction::CatalogAndPull {
            command:
                CatalogCommand::CatalogFile {
                    file_id: recorded,
                    logical_path,
                    logical_path_modified_at: 3,
                    content_hash,
                    size: 12,
                    ..
                },
            expected_size: 12,
            purpose,
        }] => {
            assert_eq!(*recorded, file_id);
            assert_eq!(logical_path.as_str(), "a/b");
            assert_eq!(content_hash, "h");
            assert_eq!(purpose.file_id, file_id);
            assert!(matches!(purpose.placement, MaterializePlacement::Create { .. }));
        }
        other => panic!("expected a pull, got {other:?}"),
    }
    let (actions, _) = frame(
        &memory_db(),
        false,
        Frame::Sync(SyncMessage::Manifest { entries }),
    );
    assert!(actions.is_empty(), "a peer that is gone is not synced with");
}

#[test]
fn known_file_is_placed_anew() {
    let mut database = memory_db();
    let file_id = FileId::new();
    database.add_file(file_id, &LogicalPath::new("a"), 3).unwrap();
    database.record_version(file_id, "h", "local", 1).unwrap();
    let entries = build_local_manifest(&database).unwrap();
    let (actions, _) = frame(
        &database,
        true,
        Frame::Sync(SyncMessage::Manifest { entries }),
    );
    assert!(matches!(
        &actions[..],
        [SessionAction::Command(CatalogCommand::ReconcilePlacement { file_id: id })]
            if *id == file_id
    ));
}

#[test]
fn announced_delete_restore_and_move_become_changes() {
    let mut database = memory_db();
    let deleted = FileId::new();
    let restored = FileId::new();
    let moved = FileId::new();
    for (id, path) in [(deleted, "d"), (restored, "r"), (moved, "m")] {
        database.add_file(id, &LogicalPath::new(path), 1).unwrap();
        database.record_version_at(id, "h", "local", 1, 5).unwrap();
    }
    database.remove_file(restored, 50).unwrap();
    let mut delete = entry(deleted, "h", 1, "d");
    delete.deleted = true;
    delete.deleted_at = 60;
    let mut restore = entry(restored, "h", 1, "r");
    restore.restored_at = 70;
    let mut rename = entry(moved, "h", 1, "new");
    rename.logical_path_modified_at = 80;
    let (actions, _) = frame(
        &database,
        true,
        Frame::Sync(SyncMessage::Manifest {
            entries: vec![delete, restore, rename],
        }),
    );
    let changes: Vec<&Change> = actions
        .iter()
        .filter_map(|action| match action {
            SessionAction::Command(CatalogCommand::Change(change, _)) => Some(change),
            _ => None,
        })
        .collect();
    assert!(matches!(
        changes[0],
        Change::FileDeleted { file_id, deleted_at: 60 } if *file_id == deleted
    ));
    assert!(matches!(
        changes[1],
        Change::FileRestored { file_id, restored_at: 70, .. } if *file_id == restored
    ));
    assert!(changes[2..].iter().any(|change| matches!(
        change,
        Change::FileMoved { file_id, modified_at: 80, .. } if *file_id == moved
    )));
}

#[test]
fn sync_messages_are_routed() {
    let database = memory_db();
    let file_id = FileId::new();
    let hash = || "h".to_owned();
    let one = |message| {
        let (mut actions, _) = frame(&database, true, Frame::Sync(message));
        assert_eq!(actions.len(), 1);
        actions.remove(0)
    };
    assert!(matches!(
        one(SyncMessage::ChunkRequest { file_id, content_hash: hash(), offset: 4 }),
        SessionAction::AnswerChunk { offset: 4, .. }
    ));
    assert!(matches!(
        one(SyncMessage::ChunkData { file_id, content_hash: hash(), offset: 4, bytes: vec![9] }),
        SessionAction::ChunkArrived { offset: 4, bytes, .. } if bytes == [9]
    ));
    assert!(matches!(
        one(SyncMessage::ChunkMiss { file_id, content_hash: hash(), offset: 4 }),
        SessionAction::ChunkMissed { offset: 4, .. }
    ));
    assert!(matches!(
        one(SyncMessage::PreviewRequest { file_id, content_hash: hash() }),
        SessionAction::GeneratePreview { .. }
    ));
    assert!(matches!(
        one(SyncMessage::PreviewData { file_id, content_hash: hash(), preview: Preview::Absent }),
        SessionAction::PreviewArrived { preview: Preview::Absent, .. }
    ));
    assert!(matches!(
        one(SyncMessage::PreviewMiss { file_id, content_hash: hash() }),
        SessionAction::PreviewMissed { .. }
    ));
    let tag_id = TagId::new();
    assert!(matches!(
        one(SyncMessage::TagRequest { tag_id }),
        SessionAction::Reply(Frame::Sync(SyncMessage::TagNotFound { .. }))
    ));
    let (actions, _) = frame(&database, true, Frame::Sync(SyncMessage::TagNotFound { tag_id }));
    assert!(actions.is_empty());
}

#[test]
fn chunk_request_is_answered_or_relayed() {
    let file_id = FileId::new();
    assert!(matches!(
        route_chunk_request(Some(ChunkAnswer::Data(vec![1])), file_id, "h".to_owned(), 0),
        ChunkRoute::Send(Frame::Sync(SyncMessage::ChunkData { offset: 0, bytes, .. }))
            if bytes == [1]
    ));
    assert!(matches!(
        route_chunk_request(Some(ChunkAnswer::Miss), file_id, "h".to_owned(), 0),
        ChunkRoute::Relay
    ));
    assert!(matches!(
        route_chunk_request(None, file_id, "h".to_owned(), 0),
        ChunkRoute::Relay
    ));
}

#[test]
fn preview_request_is_answered_or_relayed() {
    let asked = FileId::new();
    for generated in [Preview::Absent, Preview::Text("t".to_owned())] {
        match route_preview_request(Some(generated.clone()), asked, "h".to_owned()) {
            PreviewRoute::Send(Frame::Sync(SyncMessage::PreviewData {
                file_id,
                content_hash,
                preview,
            })) => {
                assert_eq!(file_id, asked);
                assert_eq!(content_hash, "h");
                assert_eq!(preview, generated);
            }
            other => panic!("expected the preview, got {other:?}"),
        }
    }
    assert!(matches!(
        route_preview_request(None, asked, "h".to_owned()),
        PreviewRoute::Relay
    ));
}

#[test]
fn received_content_is_materialized() {
    let purpose = || ReceiverPurpose {
        file_id: FileId::new(),
        content_hash: "h".to_owned(),
        origin: ChangeOrigin::Local,
        placement: MaterializePlacement::Change,
    };
    let complete = ReceiveOutcome::Complete(FileBytes::FileToMove("p".to_owned()));
    assert!(matches!(
        on_received(purpose(), complete),
        Some(CatalogCommand::Materialize { content: FileBytes::FileToMove(path), .. })
            if path == "p"
    ));
    let failed = ReceiveOutcome::Failed(TransferError::LivenessTimeout);
    assert!(on_received(purpose(), failed).is_none());

    match on_start_receive(
        &"key".to_owned(),
        FileId::new(),
        "h".to_owned(),
        5,
        MaterializePlacement::Change,
    ) {
        SessionAction::StartPull { expected_size: 5, purpose } => {
            assert!(matches!(purpose.origin, ChangeOrigin::Peer { public_key } if public_key == "key"));
        }
        other => panic!("expected a pull, got {other:?}"),
    }
}

#[test]
fn one_session_owns_the_link() {
    assert_eq!(claim_outbound(OutboundSlot::Missing), SessionRole::Refused);
    assert_eq!(claim_outbound(OutboundSlot::Free), SessionRole::Owner);
    assert_eq!(claim_outbound(OutboundSlot::Closed), SessionRole::Owner);
    assert_eq!(claim_outbound(OutboundSlot::Live), SessionRole::InboundOnly);
    assert!(clear_outbound_if_owned(SessionRole::Owner, true));
    assert!(!clear_outbound_if_owned(SessionRole::Owner, false));
    assert!(!clear_outbound_if_owned(SessionRole::InboundOnly, true));
}

#[test]
fn silence_closes_and_idleness_pings() {
    let tick = |pong, close, ping| TickActions { pong, close, ping };
    assert_eq!(on_tick(100, 100, 100, false), tick(false, false, false));
    assert_eq!(on_tick(PING_INTERVAL, 1, 0, false), tick(false, false, true));
    assert_eq!(on_tick(PING_INTERVAL, 1, 0, true), tick(true, false, false));
    assert_eq!(on_tick(LIVENESS_TIMEOUT, 0, 0, false), tick(false, true, false));
    assert_eq!(on_tick(LIVENESS_TIMEOUT - 1, 0, LIVENESS_TIMEOUT - 1, false), tick(false, false, false));
    assert_eq!(on_tick(5, 9, 9, true), tick(true, false, false));
}

#[test]
fn tags_are_announced_before_files() {
    let mut database = memory_db();
    for i in 0..3 {
        database.add_tag(TagId::new(), &format!("t{i}"), &TagStyle::default(), 1).unwrap();
        let id = FileId::new();
        database.add_file(id, &LogicalPath::new(&format!("f{i}")), 1).unwrap();
        database.record_version(id, "h", "local", 1).unwrap();
    }
    let actions = open_session(&database, 2, 2);
    let shape: Vec<(&str, usize)> = actions
        .iter()
        .map(|action| match action {
            SessionAction::Send(Frame::Sync(SyncMessage::TagManifest { definitions, .. })) => {
                ("tags", definitions.len())
            }
            SessionAction::Send(Frame::Sync(SyncMessage::Manifest { entries })) => {
                ("files", entries.len())
            }
            _ => ("other", 0),
        })
        .collect();
    assert_eq!(
        shape[..4],
        [("tags", 2), ("tags", 1), ("files", 2), ("files", 1)]
    );
}

#[test]
fn own_manifest_plans_nothing() {
    let mut database = memory_db();
    for i in 0..3 {
        let id = FileId::new();
        database.add_file(id, &LogicalPath::new(&format!("f{i}")), 1).unwrap();
        database.record_version(id, "h", "local", 1).unwrap();
        if i == 1 {
            database.remove_file(id, i64::MAX).unwrap();
        }
    }
    let entries = build_local_manifest(&database).unwrap();
    assert_eq!(entries.len(), 3);
    let plan = plan_file_sync("peer", entries, &database);
    assert!(plan.pulls.is_empty());
    assert!(plan.deletions.is_empty());
    assert!(plan.restores.is_empty());
    assert!(plan.moves.is_empty());
}
