//! The rows of the catalog's tables, their models, and the error that every store operation
//! returns.

use vstd::prelude::*;

use crate::ids::{FileId, TagId};
use crate::paths::LogicalPath;
use crate::state::{DeletedRule, EntryView, RelationshipManifestEntry, TagStyle};

verus! {

/// A file's row: where it lives logically and whether it is tombstoned.
#[derive(Debug)]
pub struct FileRow {
    pub id: FileId,
    pub logical_path: LogicalPath,
    pub logical_path_modified_at: i64,
    pub deleted: bool,
    pub deleted_at: i64,
    pub restored_at: i64,
}

/// The model of a file's row.
pub struct FileRowView {
    pub id: FileId,
    pub logical_path: Seq<char>,
    pub logical_path_modified_at: i64,
    pub deleted: bool,
    pub deleted_at: i64,
    pub restored_at: i64,
}

impl View for FileRow {
    type V = FileRowView;

    open spec fn view(&self) -> FileRowView {
        FileRowView {
            id: self.id,
            logical_path: self.logical_path@,
            logical_path_modified_at: self.logical_path_modified_at,
            deleted: self.deleted,
            deleted_at: self.deleted_at,
            restored_at: self.restored_at,
        }
    }
}

/// A single recorded version of a file's content.
///
/// Rows are append-only. `version_number` counts up from 1 per file and orders the versions;
/// `observed_at` is the wall-clock time at which the version was recorded, and orders nothing.
#[derive(Debug)]
pub struct FileVersion {
    pub file_id: FileId,
    pub content_hash: String,
    pub observed_at: i64,
    pub version_number: i64,
    pub origin: String,
    pub size: i64,
}

/// The model of a version.
pub struct FileVersionView {
    pub file_id: FileId,
    pub content_hash: Seq<char>,
    pub observed_at: i64,
    pub version_number: i64,
    pub origin: Seq<char>,
    pub size: i64,
}

impl View for FileVersion {
    type V = FileVersionView;

    open spec fn view(&self) -> FileVersionView {
        FileVersionView {
            file_id: self.file_id,
            content_hash: self.content_hash@,
            observed_at: self.observed_at,
            version_number: self.version_number,
            origin: self.origin@,
            size: self.size,
        }
    }
}

impl Clone for FileVersion {
    fn clone(&self) -> (r: FileVersion)
        ensures
            r == *self,
    {
        FileVersion {
            file_id: self.file_id,
            content_hash: self.content_hash.clone(),
            observed_at: self.observed_at,
            version_number: self.version_number,
            origin: self.origin.clone(),
            size: self.size,
        }
    }
}

/// A tag's row: its definition, its last-writer-wins clock and its tombstone.
#[derive(Debug)]
pub struct TagRow {
    pub id: TagId,
    pub name: String,
    pub modified_at: i64,
    pub deleted: bool,
    pub style: TagStyle,
}

/// The model of a tag's row.
pub struct TagRowView {
    pub id: TagId,
    pub name: Seq<char>,
    pub modified_at: i64,
    pub deleted: bool,
    pub style: TagStyle,
}

impl View for TagRow {
    type V = TagRowView;

    open spec fn view(&self) -> TagRowView {
        TagRowView {
            id: self.id,
            name: self.name@,
            modified_at: self.modified_at,
            deleted: self.deleted,
            style: self.style,
        }
    }
}

/// A cached preview, in the columns in which it is stored.
#[derive(Debug)]
pub struct PreviewRow {
    pub file_id: FileId,
    pub content_hash: String,
    pub kind: i64,
    pub data: Option<Vec<u8>>,
    pub width: Option<i64>,
    pub height: Option<i64>,
    pub generated_at: i64,
}

/// The model of a cached preview.
pub struct PreviewRowView {
    pub file_id: FileId,
    pub content_hash: Seq<char>,
    pub kind: i64,
    pub data: Option<Seq<u8>>,
    pub width: Option<i64>,
    pub height: Option<i64>,
    pub generated_at: i64,
}

impl View for PreviewRow {
    type V = PreviewRowView;

    open spec fn view(&self) -> PreviewRowView {
        PreviewRowView {
            file_id: self.file_id,
            content_hash: self.content_hash@,
            kind: self.kind,
            data: match self.data {
                Some(bytes) => Some(bytes@),
                None => None,
            },
            width: self.width,
            height: self.height,
            generated_at: self.generated_at,
        }
    }
}

/// A file's soft-delete state: the stored flag and the two wall clocks that, with the latest
/// version's `observed_at`, decide it.
#[derive(Debug, Clone, Copy, PartialEq, Eq, Structural)]
pub struct DeletionState {
    pub deleted: bool,
    /// Unix milliseconds of the last delete (0 if never deleted).
    pub deleted_at: i64,
    /// Unix milliseconds of the last explicit restore (0 if never restored).
    pub restored_at: i64,
}

/// Why a store operation failed.
#[derive(Debug)]
pub enum DatabaseError {
    UnableToOpenOrCreate,
    FailedToExecuteCommand,
    NonUtf8FilePath,
    MissingFile,
    MissingTag,
    InvalidTagName,
    InvalidColor,
    CantTagItself,
    /// A short-id prefix matched more than one row.
    AmbiguousIdPrefix(String),
    /// A constraint or computation of the tables failed.
    Sqlite { message: String },
}

/// The error is the failure of a constraint or computation, with this message.
pub open spec fn is_sqlite_error(error: DatabaseError, text: Seq<char>) -> bool {
    error matches DatabaseError::Sqlite { message } && message@ == text
}

/// Every row of every table of the catalog.
#[derive(Debug)]
pub struct CatalogRows {
    pub files: Vec<FileRow>,
    pub versions: Vec<FileVersion>,
    pub tags: Vec<TagRow>,
    pub entries: Vec<RelationshipManifestEntry>,
    pub previews: Vec<PreviewRow>,
    pub purged: Vec<FileId>,
}

/// The model of the catalog: its tables as sequences of rows, in order of insertion.
#[verifier::ext_equal]
pub struct CatalogView {
    pub files: Seq<FileRowView>,
    pub versions: Seq<FileVersionView>,
    pub tags: Seq<TagRowView>,
    pub entries: Seq<EntryView>,
    pub previews: Seq<PreviewRowView>,
    pub purged: Seq<FileId>,
}

impl View for CatalogRows {
    type V = CatalogView;

    open spec fn view(&self) -> CatalogView {
        CatalogView {
            files: self.files@.map_values(|row: FileRow| row@),
            versions: self.versions@.map_values(|row: FileVersion| row@),
            tags: self.tags@.map_values(|row: TagRow| row@),
            entries: self.entries@.map_values(|row: RelationshipManifestEntry| row@),
            previews: self.previews@.map_values(|row: PreviewRow| row@),
            purged: self.purged@,
        }
    }
}

/// Two relationships are the same relationship: tag, target and kind agree.
pub open spec fn same_relationship(a: EntryView, b: EntryView) -> bool {
    a.tag_id == b.tag_id && a.target_id == b.target_id && a.kind == b.kind
}

/// Two cached previews stand for the same content of the same file.
pub open spec fn same_preview_key(a: PreviewRowView, b: PreviewRowView) -> bool {
    a.file_id == b.file_id && a.content_hash == b.content_hash
}

/// No two rows of the file table share an id.
pub open spec fn files_distinct(rows: Seq<FileRowView>) -> bool {
    forall|i: int, j: int|
        0 <= i < rows.len() && 0 <= j < rows.len() && i != j ==> (#[trigger] rows[i]).id != (
        #[trigger] rows[j]).id
}

/// The versions of one file stand in the order of their numbers, and no number repeats.
pub open spec fn versions_ordered(rows: Seq<FileVersionView>) -> bool {
    forall|i: int, j: int|
        0 <= i < j < rows.len() && (#[trigger] rows[i]).file_id == (#[trigger] rows[j]).file_id
            ==> rows[i].version_number < rows[j].version_number
}

/// No two rows of the tag table share an id.
pub open spec fn tags_distinct(rows: Seq<TagRowView>) -> bool {
    forall|i: int, j: int|
        0 <= i < rows.len() && 0 <= j < rows.len() && i != j ==> (#[trigger] rows[i]).id != (
        #[trigger] rows[j]).id
}

/// No relationship has two rows.
pub open spec fn entries_distinct(rows: Seq<EntryView>) -> bool {
    forall|i: int, j: int|
        0 <= i < rows.len() && 0 <= j < rows.len() && i != j ==> !same_relationship(
            #[trigger] rows[i],
            #[trigger] rows[j],
        )
}

/// No content of a file has two cached previews.
pub open spec fn previews_distinct(rows: Seq<PreviewRowView>) -> bool {
    forall|i: int, j: int|
        0 <= i < rows.len() && 0 <= j < rows.len() && i != j ==> !same_preview_key(
            #[trigger] rows[i],
            #[trigger] rows[j],
        )
}

/// Whether a read under `rule` sees a row with this tombstone flag.
pub open spec fn rule_admits(rule: DeletedRule, deleted: bool) -> bool {
    rule is Include || !deleted
}

/// Whether a read under `rule` sees a row with this tombstone flag.
pub fn admits(rule: DeletedRule, deleted: bool) -> (r: bool)
    ensures
        r == rule_admits(rule, deleted),
{
    match rule {
        DeletedRule::Include => true,
        DeletedRule::Exclude => !deleted,
    }
}

impl CatalogView {
    /// The keys of every table hold.
    pub open spec fn wf(self) -> bool {
        &&& files_distinct(self.files)
        &&& versions_ordered(self.versions)
        &&& tags_distinct(self.tags)
        &&& entries_distinct(self.entries)
        &&& previews_distinct(self.previews)
        &&& self.purged.no_duplicates()
    }
}

} // verus!
