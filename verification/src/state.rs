//! The records that peers exchange and the catalog stores.

use vstd::prelude::*;

use crate::ids::{FileId, TagId};
use crate::paths::LogicalPath;

verus! {

/// Whether a relationship tags a file or a tag.
#[derive(Clone, Copy, Debug, PartialEq, Eq, Structural)]
pub enum RelationshipKind {
    File,
    Tag,
}

/// Whether a read sees tombstoned rows.
#[derive(Clone, Copy, Debug, PartialEq, Eq, Structural)]
pub enum DeletedRule {
    Exclude,
    Include,
}

/// Whether a read of the tag graph walks it transitively.
#[derive(Clone, Copy, Debug, PartialEq, Eq, Structural)]
pub enum SubtagRule {
    Exclude,
    Include,
}

/// How a tag is drawn. The catalog stores and exchanges it as one value.
#[derive(Debug)]
pub struct TagStyle {
    pub dot_color: String,
    pub background: String,
    pub gradient: String,
    pub foreground: String,
    pub border: String,
    pub border_width: i64,
    pub border_style: String,
    pub shape: String,
    pub shadow: bool,
    pub shadow_color: String,
}

impl Clone for TagStyle {
    fn clone(&self) -> (r: TagStyle)
        ensures
            r == *self,
    {
        TagStyle {
            dot_color: self.dot_color.clone(),
            background: self.background.clone(),
            gradient: self.gradient.clone(),
            foreground: self.foreground.clone(),
            border: self.border.clone(),
            border_width: self.border_width,
            border_style: self.border_style.clone(),
            shape: self.shape.clone(),
            shadow: self.shadow,
            shadow_color: self.shadow_color.clone(),
        }
    }
}

impl Default for TagStyle {
    /// A style with no color set, no border and no shadow.
    fn default() -> (r: TagStyle)
        ensures
            r.dot_color@.len() == 0 && r.background@.len() == 0 && r.gradient@.len() == 0,
            r.foreground@.len() == 0 && r.border@.len() == 0 && r.border_style@.len() == 0,
            r.shape@.len() == 0 && r.shadow_color@.len() == 0,
            r.border_width == 0 && !r.shadow,
    {
        TagStyle {
            dot_color: String::new(),
            background: String::new(),
            gradient: String::new(),
            foreground: String::new(),
            border: String::new(),
            border_width: 0,
            border_style: String::new(),
            shape: String::new(),
            shadow: false,
            shadow_color: String::new(),
        }
    }
}

/// One tag relationship: `tag_id` is applied to the file or tag that `target_id` writes.
#[derive(Debug)]
pub struct RelationshipManifestEntry {
    pub tag_id: TagId,
    pub target_id: String,
    pub kind: RelationshipKind,
    pub modified_at: i64,
    pub deleted: bool,
}

/// The model of a relationship.
pub struct EntryView {
    pub tag_id: TagId,
    pub target_id: Seq<char>,
    pub kind: RelationshipKind,
    pub modified_at: i64,
    pub deleted: bool,
}

impl View for RelationshipManifestEntry {
    type V = EntryView;

    open spec fn view(&self) -> EntryView {
        EntryView {
            tag_id: self.tag_id,
            target_id: self.target_id@,
            kind: self.kind,
            modified_at: self.modified_at,
            deleted: self.deleted,
        }
    }
}

impl Clone for RelationshipManifestEntry {
    fn clone(&self) -> (r: RelationshipManifestEntry)
        ensures
            r == *self,
    {
        RelationshipManifestEntry {
            tag_id: self.tag_id,
            target_id: self.target_id.clone(),
            kind: self.kind,
            modified_at: self.modified_at,
            deleted: self.deleted,
        }
    }
}

/// What a peer is told of a tag definition: enough to decide whose is newer.
#[derive(Clone, Copy, Debug, PartialEq, Eq, Structural)]
pub struct TagManifestEntry {
    pub tag_id: TagId,
    pub modified_at: i64,
    pub deleted: bool,
}

/// A preview of a file's content.
#[derive(Debug)]
pub enum Preview {
    Image { bytes: Vec<u8>, width: u32, height: u32 },
    Text(String),
    /// The content has no preview.
    Absent,
}

/// The model of a preview.
pub enum PreviewView {
    Image { bytes: Seq<u8>, width: u32, height: u32 },
    Text(Seq<char>),
    Absent,
}

impl View for Preview {
    type V = PreviewView;

    open spec fn view(&self) -> PreviewView {
        match self {
            Preview::Image { bytes, width, height } => PreviewView::Image {
                bytes: bytes@,
                width: *width,
                height: *height,
            },
            Preview::Text(text) => PreviewView::Text(text@),
            Preview::Absent => PreviewView::Absent,
        }
    }
}

/// A copy of some bytes.
pub fn copy_bytes(bytes: &Vec<u8>) -> (r: Vec<u8>)
    ensures
        r@ == bytes@,
{
    let mut r: Vec<u8> = Vec::new();
    r.extend_from_slice(bytes.as_slice());
    assert(r@ =~= bytes@);
    r
}

impl Clone for Preview {
    fn clone(&self) -> (r: Preview)
        ensures
            r@ == self@,
    {
        match self {
            Preview::Image { bytes, width, height } => Preview::Image {
                bytes: copy_bytes(bytes),
                width: *width,
                height: *height,
            },
            Preview::Text(text) => Preview::Text(text.clone()),
            Preview::Absent => Preview::Absent,
        }
    }
}

impl PartialEq for Preview {
    fn eq(&self, other: &Preview) -> (r: bool) {
        match (self, other) {
            (
                Preview::Image { bytes: a, width: aw, height: ah },
                Preview::Image { bytes: b, width: bw, height: bh },
            ) => *aw == *bw && *ah == *bh && same_bytes(a, b),
            (Preview::Text(a), Preview::Text(b)) => *a == *b,
            (Preview::Absent, Preview::Absent) => true,
            _ => false,
        }
    }
}

impl vstd::std_specs::cmp::PartialEqSpecImpl for Preview {
    open spec fn obeys_eq_spec() -> bool {
        true
    }

    open spec fn eq_spec(&self, other: &Preview) -> bool {
        self@ == other@
    }
}

/// Whether two byte strings are equal.
pub fn same_bytes(a: &Vec<u8>, b: &Vec<u8>) -> (r: bool)
    ensures
        r == (a@ == b@),
{
    if a.len() != b.len() {
        return false;
    }
    let mut i: usize = 0;
    while i < a.len()
        invariant
            i <= a.len() == b.len(),
            forall|j: int| 0 <= j < i ==> a@[j] == b@[j],
        decreases a.len() - i,
    {
        if a[i] != b[i] {
            return false;
        }
        i = i + 1;
    }
    assert(a@ =~= b@);
    true
}

/// A file as a listing shows it.
#[derive(Debug)]
pub struct FileInfo {
    pub file_id: FileId,
    pub logical_path: LogicalPath,
    pub content_hash: String,
    pub version_number: i64,
    pub size: u64,
    pub short_id_length: usize,
    pub deleted: bool,
    pub first_recorded_at: i64,
    pub latest_change_at: i64,
}

/// The model of a listed file.
pub struct FileInfoView {
    pub file_id: FileId,
    pub logical_path: Seq<char>,
    pub content_hash: Seq<char>,
    pub version_number: i64,
    pub size: u64,
    pub short_id_length: nat,
    pub deleted: bool,
    pub first_recorded_at: i64,
    pub latest_change_at: i64,
}

impl View for FileInfo {
    type V = FileInfoView;

    open spec fn view(&self) -> FileInfoView {
        FileInfoView {
            file_id: self.file_id,
            logical_path: self.logical_path@,
            content_hash: self.content_hash@,
            version_number: self.version_number,
            size: self.size,
            short_id_length: self.short_id_length as nat,
            deleted: self.deleted,
            first_recorded_at: self.first_recorded_at,
            latest_change_at: self.latest_change_at,
        }
    }
}

/// A tag as a listing shows it.
#[derive(Debug)]
pub struct Tag {
    pub id: TagId,
    pub name: String,
    pub deleted: bool,
    pub style: TagStyle,
    pub metadata: Option<String>,
}

} // verus!
