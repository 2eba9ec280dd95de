//! Walking older rows forward.

use vstd::prelude::*;

use crate::ids::FileId;
use crate::paths::LogicalPath;
use crate::store::types::{FileRow, FileRowView};

verus! {

/// A file's row as it was stored before the restore clock existed.
#[derive(Debug)]
pub struct FileRowV1 {
    pub id: FileId,
    pub logical_path: LogicalPath,
    pub logical_path_modified_at: i64,
    pub deleted: bool,
    pub deleted_at: i64,
}

/// The row that an older row becomes: no restore has happened.
pub open spec fn migrated(row: FileRowV1) -> FileRowView {
    FileRowView {
        id: row.id,
        logical_path: row.logical_path@,
        logical_path_modified_at: row.logical_path_modified_at,
        deleted: row.deleted,
        deleted_at: row.deleted_at,
        restored_at: 0,
    }
}

/// Carries every older row across, in order, with its restore clock at 0.
pub fn migrate_files_to_v2(rows: Vec<FileRowV1>) -> (r: Vec<FileRow>)
    ensures
        r@.map_values(|row: FileRow| row@) == rows@.map_values(|row: FileRowV1| migrated(row)),
{
    let mut files: Vec<FileRow> = Vec::new();
    let mut i: usize = 0;
    while i < rows.len()
        invariant
            i <= rows.len(),
            files@.len() == i,
            forall|k: int| 0 <= k < i ==> (#[trigger] files@[k])@ == migrated(rows@[k]),
        decreases rows.len() - i,
    {
        let row = &rows[i];
        files.push(
            FileRow {
                id: row.id,
                logical_path: row.logical_path.clone(),
                logical_path_modified_at: row.logical_path_modified_at,
                deleted: row.deleted,
                deleted_at: row.deleted_at,
                restored_at: 0,
            },
        );
        i = i + 1;
    }
    assert(files@.map_values(|row: FileRow| row@) =~= rows@.map_values(
        |row: FileRowV1| migrated(row),
    ));
    files
}

} // verus!
