//! What peers send one another, and what a session asks of the rest of the device.

use vstd::prelude::*;

use crate::file_bytes::FileBytes;
use crate::ids::{FileId, TagId};
use crate::paths::LogicalPath;
use crate::state::{
    EntryView, Preview, PreviewView, RelationshipManifestEntry, TagManifestEntry, TagStyle,
};
use crate::store::files::ManifestEntryView;
use crate::store::versions::{history_view, VersionHistory};

verus! {

/// What a peer announces of one file: its whole history, its path and its tombstone state.
#[derive(Debug, Clone)]
pub struct ManifestEntry {
    pub file_id: FileId,
    pub history: VersionHistory,
    pub latest_observed_at: i64,
    pub logical_path: LogicalPath,
    pub logical_path_modified_at: i64,
    pub deleted: bool,
    pub deleted_at: i64,
    pub restored_at: i64,
}

impl View for ManifestEntry {
    type V = ManifestEntryView;

    open spec fn view(&self) -> ManifestEntryView {
        ManifestEntryView {
            file_id: self.file_id,
            history: history_view(self.history@),
            latest_observed_at: self.latest_observed_at,
            logical_path: self.logical_path@,
            logical_path_modified_at: self.logical_path_modified_at,
            deleted: self.deleted,
            deleted_at: self.deleted_at,
            restored_at: self.restored_at,
        }
    }
}

/// The models of some manifest entries.
pub open spec fn entry_views(entries: Seq<ManifestEntry>) -> Seq<ManifestEntryView> {
    entries.map_values(|entry: ManifestEntry| entry@)
}

/// The models of some relationships.
pub open spec fn relationship_views(entries: Seq<RelationshipManifestEntry>) -> Seq<EntryView> {
    entries.map_values(|entry: RelationshipManifestEntry| entry@)
}

/// The model of an optional text.
pub open spec fn optional_text(text: Option<String>) -> Option<Seq<char>> {
    match text {
        Some(text) => Some(text@),
        None => None,
    }
}

/// How received bytes are placed in the sync directories.
#[derive(Debug)]
pub enum MaterializePlacement {
    /// The file is new here: it is placed by its path and its tags.
    Create { logical_path: LogicalPath, tags: Vec<TagId> },
    /// The file is known: its bytes are replaced where they stand.
    Change,
}

/// The model of a placement.
#[verifier::ext_equal]
pub enum PlacementView {
    Create { logical_path: Seq<char>, tags: Seq<TagId> },
    Change,
}

impl View for MaterializePlacement {
    type V = PlacementView;

    open spec fn view(&self) -> PlacementView {
        match self {
            MaterializePlacement::Create { logical_path, tags } => PlacementView::Create {
                logical_path: logical_path@,
                tags: tags@,
            },
            MaterializePlacement::Change => PlacementView::Change,
        }
    }
}

/// Where a change comes from.
#[derive(Debug)]
pub enum ChangeOrigin {
    Local,
    Peer { public_key: String },
}

/// The model of an origin.
pub enum OriginView {
    Local,
    Peer { public_key: Seq<char> },
}

impl View for ChangeOrigin {
    type V = OriginView;

    open spec fn view(&self) -> OriginView {
        match self {
            ChangeOrigin::Local => OriginView::Local,
            ChangeOrigin::Peer { public_key } => OriginView::Peer { public_key: public_key@ },
        }
    }
}

/// One change to the shared catalog.
#[derive(Debug)]
pub enum Change {
    FileDeleted { file_id: FileId, deleted_at: i64 },
    FileRestored { file_id: FileId, content_hash: String, size: u64, restored_at: i64 },
    FileMoved { file_id: FileId, logical_path: LogicalPath, modified_at: i64 },
    FileTagged { file_id: FileId, tag_id: TagId, metadata: Option<String>, modified_at: i64 },
    FileUntagged { file_id: FileId, tag_id: TagId, modified_at: i64 },
    TagTagged { taggee_id: TagId, tag_id: TagId, metadata: Option<String>, modified_at: i64 },
    TagUntagged { taggee_id: TagId, tag_id: TagId, modified_at: i64 },
    TagAdded {
        tag_id: TagId,
        tag_name: String,
        style: TagStyle,
        metadata: Option<String>,
        modified_at: i64,
    },
    TagRemoved { tag_id: TagId, modified_at: i64 },
}

/// The model of a change.
pub enum ChangeView {
    FileDeleted { file_id: FileId, deleted_at: i64 },
    FileRestored { file_id: FileId, content_hash: Seq<char>, size: u64, restored_at: i64 },
    FileMoved { file_id: FileId, logical_path: Seq<char>, modified_at: i64 },
    FileTagged { file_id: FileId, tag_id: TagId, metadata: Option<Seq<char>>, modified_at: i64 },
    FileUntagged { file_id: FileId, tag_id: TagId, modified_at: i64 },
    TagTagged { taggee_id: TagId, tag_id: TagId, metadata: Option<Seq<char>>, modified_at: i64 },
    TagUntagged { taggee_id: TagId, tag_id: TagId, modified_at: i64 },
    TagAdded {
        tag_id: TagId,
        tag_name: Seq<char>,
        style: TagStyle,
        metadata: Option<Seq<char>>,
        modified_at: i64,
    },
    TagRemoved { tag_id: TagId, modified_at: i64 },
}

impl View for Change {
    type V = ChangeView;

    open spec fn view(&self) -> ChangeView {
        match *self {
            Change::FileDeleted { file_id, deleted_at } => ChangeView::FileDeleted {
                file_id,
                deleted_at,
            },
            Change::FileRestored { file_id, content_hash, size, restored_at } => {
                ChangeView::FileRestored { file_id, content_hash: content_hash@, size, restored_at }
            },
            Change::FileMoved { file_id, logical_path, modified_at } => ChangeView::FileMoved {
                file_id,
                logical_path: logical_path@,
                modified_at,
            },
            Change::FileTagged { file_id, tag_id, metadata, modified_at } => {
                ChangeView::FileTagged {
                    file_id,
                    tag_id,
                    metadata: optional_text(metadata),
                    modified_at,
                }
            },
            Change::FileUntagged { file_id, tag_id, modified_at } => ChangeView::FileUntagged {
                file_id,
                tag_id,
                modified_at,
            },
            Change::TagTagged { taggee_id, tag_id, metadata, modified_at } => {
                ChangeView::TagTagged {
                    taggee_id,
                    tag_id,
                    metadata: optional_text(metadata),
                    modified_at,
                }
            },
            Change::TagUntagged { taggee_id, tag_id, modified_at } => ChangeView::TagUntagged {
                taggee_id,
                tag_id,
                modified_at,
            },
            Change::TagAdded { tag_id, tag_name, style, metadata, modified_at } => {
                ChangeView::TagAdded {
                    tag_id,
                    tag_name: tag_name@,
                    style,
                    metadata: optional_text(metadata),
                    modified_at,
                }
            },
            Change::TagRemoved { tag_id, modified_at } => ChangeView::TagRemoved {
                tag_id,
                modified_at,
            },
        }
    }
}

/// What two sessions exchange to bring their devices together.
#[derive(Debug)]
pub enum SyncMessage {
    Manifest { entries: Vec<ManifestEntry> },
    TagManifest {
        definitions: Vec<TagManifestEntry>,
        relationships: Vec<RelationshipManifestEntry>,
    },
    TagRequest { tag_id: TagId },
    TagNotFound { tag_id: TagId },
    ChunkRequest { file_id: FileId, content_hash: String, offset: u64 },
    ChunkData { file_id: FileId, content_hash: String, offset: u64, bytes: Vec<u8> },
    ChunkMiss { file_id: FileId, content_hash: String, offset: u64 },
    PreviewRequest { file_id: FileId, content_hash: String },
    PreviewData { file_id: FileId, content_hash: String, preview: Preview },
    PreviewMiss { file_id: FileId, content_hash: String },
}

/// The model of a sync message.
#[verifier::ext_equal]
pub enum SyncView {
    Manifest { entries: Seq<ManifestEntryView> },
    TagManifest { definitions: Seq<TagManifestEntry>, relationships: Seq<EntryView> },
    TagRequest { tag_id: TagId },
    TagNotFound { tag_id: TagId },
    ChunkRequest { file_id: FileId, content_hash: Seq<char>, offset: u64 },
    ChunkData { file_id: FileId, content_hash: Seq<char>, offset: u64, bytes: Seq<u8> },
    ChunkMiss { file_id: FileId, content_hash: Seq<char>, offset: u64 },
    PreviewRequest { file_id: FileId, content_hash: Seq<char> },
    PreviewData { file_id: FileId, content_hash: Seq<char>, preview: PreviewView },
    PreviewMiss { file_id: FileId, content_hash: Seq<char> },
}

impl View for SyncMessage {
    type V = SyncView;

    open spec fn view(&self) -> SyncView {
        match *self {
            SyncMessage::Manifest { entries } => SyncView::Manifest {
                entries: entry_views(entries@),
            },
            SyncMessage::TagManifest { definitions, relationships } => SyncView::TagManifest {
                definitions: definitions@,
                relationships: relationship_views(relationships@),
            },
            SyncMessage::TagRequest { tag_id } => SyncView::TagRequest { tag_id },
            SyncMessage::TagNotFound { tag_id } => SyncView::TagNotFound { tag_id },
            SyncMessage::ChunkRequest { file_id, content_hash, offset } => {
                SyncView::ChunkRequest { file_id, content_hash: content_hash@, offset }
            },
            SyncMessage::ChunkData { file_id, content_hash, offset, bytes } => {
                SyncView::ChunkData {
                    file_id,
                    content_hash: content_hash@,
                    offset,
                    bytes: bytes@,
                }
            },
            SyncMessage::ChunkMiss { file_id, content_hash, offset } => SyncView::ChunkMiss {
                file_id,
                content_hash: content_hash@,
                offset,
            },
            SyncMessage::PreviewRequest { file_id, content_hash } => SyncView::PreviewRequest {
                file_id,
                content_hash: content_hash@,
            },
            SyncMessage::PreviewData { file_id, content_hash, preview } => {
                SyncView::PreviewData { file_id, content_hash: content_hash@, preview: preview@ }
            },
            SyncMessage::PreviewMiss { file_id, content_hash } => SyncView::PreviewMiss {
                file_id,
                content_hash: content_hash@,
            },
        }
    }
}

/// What travels over a peer link.
#[derive(Debug)]
pub enum Frame {
    Change(Change),
    Sync(SyncMessage),
}

/// The model of a frame.
#[verifier::ext_equal]
pub enum FrameView {
    Change(ChangeView),
    Sync(SyncView),
}

impl View for Frame {
    type V = FrameView;

    open spec fn view(&self) -> FrameView {
        match self {
            Frame::Change(change) => FrameView::Change(change@),
            Frame::Sync(message) => FrameView::Sync(message@),
        }
    }
}

/// What a received file is for: which content it is, whose announcement asked for it, and how it
/// is placed.
#[derive(Debug)]
pub struct ReceiverPurpose {
    pub file_id: FileId,
    pub content_hash: String,
    pub origin: ChangeOrigin,
    pub placement: MaterializePlacement,
}

/// The model of a purpose.
#[verifier::ext_equal]
pub struct PurposeView {
    pub file_id: FileId,
    pub content_hash: Seq<char>,
    pub origin: OriginView,
    pub placement: PlacementView,
}

impl View for ReceiverPurpose {
    type V = PurposeView;

    open spec fn view(&self) -> PurposeView {
        PurposeView {
            file_id: self.file_id,
            content_hash: self.content_hash@,
            origin: self.origin@,
            placement: self.placement@,
        }
    }
}

/// What a session asks of the one writer of the catalog.
#[derive(Debug)]
pub enum CatalogCommand {
    /// Apply a change.
    Change(Change, ChangeOrigin),
    /// Record a file and its version, whether or not its bytes arrive.
    CatalogFile {
        file_id: FileId,
        logical_path: LogicalPath,
        logical_path_modified_at: i64,
        content_hash: String,
        size: u64,
        origin: ChangeOrigin,
    },
    /// Place received bytes.
    Materialize { content: FileBytes, purpose: ReceiverPurpose },
    /// Place a known file anew, by its tags.
    ReconcilePlacement { file_id: FileId },
    /// Recover the files whose bytes should be here and are not.
    SweepMissingContent,
}

/// The model of a command.
#[verifier::ext_equal]
pub enum CommandView {
    Change(ChangeView, OriginView),
    CatalogFile {
        file_id: FileId,
        logical_path: Seq<char>,
        logical_path_modified_at: i64,
        content_hash: Seq<char>,
        size: u64,
        origin: OriginView,
    },
    Materialize { content: FileBytes, purpose: PurposeView },
    ReconcilePlacement { file_id: FileId },
    SweepMissingContent,
}

impl View for CatalogCommand {
    type V = CommandView;

    open spec fn view(&self) -> CommandView {
        match *self {
            CatalogCommand::Change(change, origin) => CommandView::Change(change@, origin@),
            CatalogCommand::CatalogFile {
                file_id,
                logical_path,
                logical_path_modified_at,
                content_hash,
                size,
                origin,
            } => CommandView::CatalogFile {
                file_id,
                logical_path: logical_path@,
                logical_path_modified_at,
                content_hash: content_hash@,
                size,
                origin: origin@,
            },
            CatalogCommand::Materialize { content, purpose } => CommandView::Materialize {
                content,
                purpose: purpose@,
            },
            CatalogCommand::ReconcilePlacement { file_id } => CommandView::ReconcilePlacement {
                file_id,
            },
            CatalogCommand::SweepMissingContent => CommandView::SweepMissingContent,
        }
    }
}

} // verus!
