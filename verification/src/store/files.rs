//! The file table: which files exist, where they live logically, and whether they are
//! tombstoned. Also the manifest, which joins those rows to their version history.

use vstd::prelude::*;

use crate::ids::{id_text, FileId};
use crate::paths::LogicalPath;
use crate::seqs::{lemma_filter_first, lemma_filter_map_take, lemma_filter_none};
use crate::state::{DeletedRule, FileInfo, FileInfoView};
use crate::store::short_id::{is_short_length, shortest_unique_prefix_length};
use crate::store::types::{
    admits, files_distinct, is_sqlite_error, rule_admits, CatalogView, DatabaseError,
    DeletionState, FileRow, FileRowView, FileVersionView,
};
use crate::store::versions::{history_view, VersionHistory};
use crate::store::CatalogStore;

verus! {

/// One row of the manifest: a file's id, its full history, when its latest version was
/// recorded, its logical path, when that path was last changed, and its tombstone state
/// (flag, time of the delete, time of the restore).
pub type ManifestRow = (FileId, VersionHistory, i64, LogicalPath, i64, bool, i64, i64);

/// The model of a manifest entry.
pub struct ManifestEntryView {
    pub file_id: FileId,
    pub history: Seq<(i64, Seq<char>, i64)>,
    pub latest_observed_at: i64,
    pub logical_path: Seq<char>,
    pub logical_path_modified_at: i64,
    pub deleted: bool,
    pub deleted_at: i64,
    pub restored_at: i64,
}

/// The model of a manifest row.
pub open spec fn manifest_row_view(row: ManifestRow) -> ManifestEntryView {
    ManifestEntryView {
        file_id: row.0,
        history: history_view(row.1@),
        latest_observed_at: row.2,
        logical_path: row.3@,
        logical_path_modified_at: row.4,
        deleted: row.5,
        deleted_at: row.6,
        restored_at: row.7,
    }
}

/// The later of two times.
pub open spec fn later(a: i64, b: i64) -> i64 {
    if a > b {
        a
    } else {
        b
    }
}

/// The later of two times.
pub fn later_of(a: i64, b: i64) -> (r: i64)
    ensures
        r == later(a, b),
{
    if a > b {
        a
    } else {
        b
    }
}

/// What a listing shows of a file, given its row, its versions and its short-id length.
pub open spec fn info_of(
    row: FileRowView,
    versions: Seq<FileVersionView>,
    short_id_length: nat,
) -> FileInfoView {
    FileInfoView {
        file_id: row.id,
        logical_path: row.logical_path,
        content_hash: versions.last().content_hash,
        version_number: versions.last().version_number,
        size: versions.last().size as u64,
        short_id_length,
        deleted: row.deleted,
        first_recorded_at: versions[0].observed_at,
        latest_change_at: versions.last().observed_at,
    }
}

/// The sum of some sizes.
pub open spec fn sum_of(sizes: Seq<i64>) -> int
    decreases sizes.len(),
{
    if sizes.len() == 0 {
        0
    } else {
        sum_of(sizes.drop_last()) + sizes.last()
    }
}

/// Every running total of some sizes fits in 64 bits.
pub open spec fn sums_fit(sizes: Seq<i64>) -> bool {
    forall|k: int|
        0 <= k <= sizes.len() ==> i64::MIN <= #[trigger] sum_of(sizes.take(k)) <= i64::MAX
}

impl CatalogView {
    /// A row of the file table has this id.
    pub open spec fn has_file(self, file_id: FileId) -> bool {
        exists|i: int| 0 <= i < self.files.len() && (#[trigger] self.files[i]).id == file_id
    }

    /// The row of a file.
    pub open spec fn file(self, file_id: FileId) -> FileRowView
        recommends
            self.has_file(file_id),
    {
        self.files[choose|i: int|
            0 <= i < self.files.len() && (#[trigger] self.files[i]).id == file_id]
    }

    /// When a file was last explicitly restored; 0 if never or unknown.
    pub open spec fn restored_at(self, file_id: FileId) -> i64 {
        if self.has_file(file_id) {
            self.file(file_id).restored_at
        } else {
            0
        }
    }

    /// The file table with the row of one file replaced.
    pub open spec fn update_file(
        self,
        file_id: FileId,
        change: spec_fn(FileRowView) -> FileRowView,
    ) -> CatalogView {
        CatalogView {
            files: self.files.map_values(
                |row: FileRowView|
                    if row.id == file_id {
                        change(row)
                    } else {
                        row
                    },
            ),
            ..self
        }
    }

    /// A delete at `deleted_at` is newer than both the latest edit and the last restore.
    pub open spec fn delete_wins(self, file_id: FileId, deleted_at: i64) -> bool {
        deleted_at > later(self.latest_observed_at(file_id), self.restored_at(file_id))
    }

    /// The catalog after a delete of a file: tombstoned where the delete wins, else unchanged.
    pub open spec fn after_remove_file(self, file_id: FileId, deleted_at: i64) -> CatalogView {
        if self.has_file(file_id) && self.delete_wins(file_id, deleted_at) {
            self.update_file(
                file_id,
                |row: FileRowView| FileRowView { deleted: true, deleted_at, ..row },
            ).without_previews(file_id)
        } else {
            self
        }
    }

    /// The catalog after a version arrived: a tombstone older than the latest edit is cleared.
    pub open spec fn after_restore_file(self, file_id: FileId) -> CatalogView {
        self.update_file(
            file_id,
            |row: FileRowView|
                FileRowView {
                    deleted: row.deleted && self.latest_observed_at(file_id) <= row.deleted_at,
                    ..row
                },
        )
    }

    /// The row of a file after an explicit restore: its restore clock only advances, and the
    /// tombstone is cleared where the newest of edit and restore beats the delete.
    pub open spec fn restored_row(self, row: FileRowView, restored_at: i64) -> FileRowView {
        let clock = later(row.restored_at, restored_at);
        FileRowView {
            restored_at: clock,
            deleted: row.deleted && later(clock, self.latest_observed_at(row.id))
                <= row.deleted_at,
            ..row
        }
    }

    /// The catalog after an explicit restore of a file.
    pub open spec fn after_apply_restore(self, file_id: FileId, restored_at: i64) -> CatalogView {
        self.update_file(file_id, |row: FileRowView| self.restored_row(row, restored_at))
    }

    /// The catalog after a move of a file: its path changes where the move is newer.
    pub open spec fn after_move(
        self,
        file_id: FileId,
        logical_path: Seq<char>,
        modified_at: i64,
    ) -> CatalogView {
        self.update_file(
            file_id,
            |row: FileRowView|
                if row.logical_path_modified_at < modified_at {
                    FileRowView { logical_path, logical_path_modified_at: modified_at, ..row }
                } else {
                    row
                },
        )
    }

    /// The catalog with a new live file.
    pub open spec fn with_file(
        self,
        file_id: FileId,
        logical_path: Seq<char>,
        logical_path_modified_at: i64,
    ) -> CatalogView {
        CatalogView {
            files: self.files.push(
                FileRowView {
                    id: file_id,
                    logical_path,
                    logical_path_modified_at,
                    deleted: false,
                    deleted_at: 0,
                    restored_at: 0,
                },
            ),
            ..self
        }
    }

    /// What a peer is told of a file.
    pub open spec fn manifest_entry(self, row: FileRowView) -> ManifestEntryView {
        ManifestEntryView {
            file_id: row.id,
            history: self.history_of(row.id),
            latest_observed_at: self.latest_observed_at(row.id),
            logical_path: row.logical_path,
            logical_path_modified_at: row.logical_path_modified_at,
            deleted: row.deleted,
            deleted_at: row.deleted_at,
            restored_at: row.restored_at,
        }
    }

    /// What a peer is told of every file that has a version, tombstoned files among them.
    pub open spec fn manifest(self) -> Seq<ManifestEntryView> {
        self.files.filter(|row: FileRowView| self.versions_of(row.id).len() > 0).map_values(
            |row: FileRowView| self.manifest_entry(row),
        )
    }

    /// A listing under `rule` shows this row: it has a version, and the rule admits it.
    pub open spec fn is_listed(self, row: FileRowView, rule: DeletedRule) -> bool {
        rule_admits(rule, row.deleted) && self.versions_of(row.id).len() > 0
    }

    /// The rows that a listing under `rule` shows.
    pub open spec fn listed(self, rule: DeletedRule) -> Seq<FileRowView> {
        self.files.filter(|row: FileRowView| self.is_listed(row, rule))
    }

    /// The sizes of the latest versions of some files.
    pub open spec fn latest_sizes(self, rows: Seq<FileRowView>) -> Seq<i64> {
        rows.map_values(|row: FileRowView| self.versions_of(row.id).last().size)
    }
}

/// A row of the table is the row of its file.
pub proof fn lemma_file_row(catalog: CatalogView, i: int)
    requires
        files_distinct(catalog.files),
        0 <= i < catalog.files.len(),
    ensures
        catalog.has_file(catalog.files[i].id),
        catalog.file(catalog.files[i].id) == catalog.files[i],
{
    let id = catalog.files[i].id;
    let k = choose|k: int|
        0 <= k < catalog.files.len() && (#[trigger] catalog.files[k]).id == id;
    assert(catalog.files[i].id == id);
    assert(k == i);
}

/// Changing the row of a file keeps the ids of the table, so long as the change keeps the id.
pub proof fn lemma_update_file_wf(
    catalog: CatalogView,
    file_id: FileId,
    change: spec_fn(FileRowView) -> FileRowView,
)
    requires
        catalog.wf(),
        forall|row: FileRowView| (#[trigger] change(row)).id == row.id,
    ensures
        catalog.update_file(file_id, change).wf(),
{
    let updated = catalog.update_file(file_id, change);
    assert forall|i: int| 0 <= i < updated.files.len() implies (#[trigger] updated.files[i]).id
        == catalog.files[i].id by {}
    assert(files_distinct(updated.files));
}

/// Changing the row of a file changes the one place where it stands.
pub proof fn lemma_update_at(
    catalog: CatalogView,
    file_id: FileId,
    change: spec_fn(FileRowView) -> FileRowView,
    i: int,
)
    requires
        files_distinct(catalog.files),
        0 <= i < catalog.files.len(),
        catalog.files[i].id == file_id,
    ensures
        catalog.update_file(file_id, change).files == catalog.files.update(
            i,
            change(catalog.files[i]),
        ),
{
    let updated = catalog.update_file(file_id, change).files;
    let placed = catalog.files.update(i, change(catalog.files[i]));
    assert forall|j: int| 0 <= j < updated.len() implies updated[j] == placed[j] by {
        if j != i {
            assert(catalog.files[j].id != catalog.files[i].id);
        }
    }
    assert(updated =~= placed);
}

/// Changing the row of an unknown file changes nothing.
pub proof fn lemma_update_nowhere(
    catalog: CatalogView,
    file_id: FileId,
    change: spec_fn(FileRowView) -> FileRowView,
)
    requires
        !catalog.has_file(file_id),
    ensures
        catalog.update_file(file_id, change) == catalog,
{
    let updated = catalog.update_file(file_id, change).files;
    assert forall|j: int| 0 <= j < updated.len() implies updated[j] == catalog.files[j] by {
        assert(catalog.files[j].id != file_id);
    }
    assert(updated =~= catalog.files);
}

impl CatalogStore {
    /// The place of a file's row.
    pub(super) fn file_index(&self, file_id: FileId) -> (r: Option<usize>)
        ensures
            match r {
                Some(i) => i < self.rows.files@.len() && i < self@.files.len() && self@.has_file(
                    file_id,
                ) && self@.files[i as int] == self.rows.files@[i as int]@
                    && self@.files[i as int].id == file_id && (self.wf() ==> self@.file(file_id)
                    == self@.files[i as int]),
                None => !self@.has_file(file_id),
            },
    {
        let mut i: usize = 0;
        while i < self.rows.files.len()
            invariant
                i <= self.rows.files.len(),
                forall|j: int|
                    0 <= j < i ==> (#[trigger] self@.files[j]).id != file_id,
            decreases self.rows.files.len() - i,
        {
            assert(self@.files[i as int] == self.rows.files@[i as int]@);
            if self.rows.files[i].id == file_id {
                proof {
                    if self.wf() {
                        lemma_file_row(self@, i as int);
                    }
                }
                return Some(i);
            }
            i = i + 1;
        }
        None
    }

    /// Whether a file has a row.
    pub fn file_exists(&self, file_id: FileId) -> (r: Result<bool, DatabaseError>)
        ensures
            r == Ok::<bool, DatabaseError>(self@.has_file(file_id)),
    {
        Ok(self.file_index(file_id).is_some())
    }

    /// Adds a new, live file. `logical_path_modified_at` seeds the clock of its path.
    pub fn add_file(
        &mut self,
        file_id: FileId,
        logical_path: &LogicalPath,
        logical_path_modified_at: i64,
    ) -> (r: Result<(), DatabaseError>)
        requires
            old(self).wf(),
        ensures
            final(self).wf(),
            match r {
                Ok(()) => !old(self)@.has_file(file_id) && final(self)@ == old(self)@.with_file(
                    file_id,
                    logical_path@,
                    logical_path_modified_at,
                ),
                Err(error) => old(self)@.has_file(file_id) && final(self)@ == old(self)@
                    && is_sqlite_error(error, "UNIQUE constraint failed: files_v2.id"@),
            },
    {
        if self.file_index(file_id).is_some() {
            return Err(
                DatabaseError::Sqlite {
                    message: "UNIQUE constraint failed: files_v2.id".to_owned(),
                },
            );
        }
        self.rows.files.push(
            FileRow {
                id: file_id,
                logical_path: logical_path.clone(),
                logical_path_modified_at,
                deleted: false,
                deleted_at: 0,
                restored_at: 0,
            },
        );
        proof {
            assert(self@.files =~= old(self)@.with_file(
                file_id,
                logical_path@,
                logical_path_modified_at,
            ).files);
            assert forall|i: int, j: int|
                0 <= i < self@.files.len() && 0 <= j < self@.files.len() && i != j implies (
            #[trigger] self@.files[i]).id != (#[trigger] self@.files[j]).id by {
                if i < old(self)@.files.len() {
                    assert(self@.files[i] == old(self)@.files[i]);
                }
                if j < old(self)@.files.len() {
                    assert(self@.files[j] == old(self)@.files[j]);
                }
            }
        }
        Ok(())
    }

    /// A file's tombstone state; `None` if the file is unknown.
    pub fn file_deletion_state(&self, file_id: FileId) -> (r: Result<
        Option<DeletionState>,
        DatabaseError,
    >)
        requires
            self.wf(),
        ensures
            r == Ok::<Option<DeletionState>, DatabaseError>(
                if self@.has_file(file_id) {
                    Some(
                        (DeletionState {
                            deleted: self@.file(file_id).deleted,
                            deleted_at: self@.file(file_id).deleted_at,
                            restored_at: self@.file(file_id).restored_at,
                        }),
                    )
                } else {
                    None
                },
            ),
    {
        match self.file_index(file_id) {
            Some(i) => {
                let row = &self.rows.files[i];
                Ok(
                    Some(
                        DeletionState {
                            deleted: row.deleted,
                            deleted_at: row.deleted_at,
                            restored_at: row.restored_at,
                        },
                    ),
                )
            },
            None => Ok(None),
        }
    }

    /// When a file's latest version was recorded; 0 if it has none.
    pub(super) fn latest_observed(&self, file_id: FileId) -> (r: i64)
        ensures
            r == self@.latest_observed_at(file_id),
    {
        match self.latest_index(file_id) {
            Some(i) => self.rows.versions[i].observed_at,
            None => 0,
        }
    }

    /// Clears a file's tombstone when a newer content edit supersedes the delete. The restore
    /// clock is left alone: an edit is no restore.
    pub fn restore_file(&mut self, file_id: FileId) -> (r: Result<(), DatabaseError>)
        requires
            old(self).wf(),
        ensures
            final(self).wf(),
            r is Ok,
            final(self)@ == old(self)@.after_restore_file(file_id),
    {
        let ghost change = |row: FileRowView|
            FileRowView {
                deleted: row.deleted && old(self)@.latest_observed_at(file_id) <= row.deleted_at,
                ..row
            };
        proof {
            lemma_update_file_wf(old(self)@, file_id, change);
        }
        match self.file_index(file_id) {
            Some(i) => {
                let observed_at: i64 = self.latest_observed(file_id);
                if self.rows.files[i].deleted && observed_at > self.rows.files[i].deleted_at {
                    self.rows.files[i].deleted = false;
                }
                proof {
                    assert(self@.files =~= old(self)@.files.update(
                        i as int,
                        change(old(self)@.files[i as int]),
                    ));
                    lemma_update_at(old(self)@, file_id, change, i as int);
                }
            },
            None => {
                proof {
                    lemma_update_nowhere(old(self)@, file_id, change);
                }
            },
        }
        Ok(())
    }

    /// Applies an explicit restore of a file.
    ///
    /// The restore clock only advances. The tombstone is cleared where the newest of edit and
    /// restore is strictly newer than the delete. Returns whether the file is live afterwards:
    /// the restore won, or the file was live already.
    pub fn apply_restore(&mut self, file_id: FileId, restored_at: i64) -> (r: Result<
        bool,
        DatabaseError,
    >)
        requires
            old(self).wf(),
        ensures
            final(self).wf(),
            final(self)@ == old(self)@.after_apply_restore(file_id, restored_at),
            r == Ok::<bool, DatabaseError>(
                final(self)@.has_file(file_id) && !final(self)@.file(file_id).deleted,
            ),
    {
        let ghost change = |row: FileRowView| old(self)@.restored_row(row, restored_at);
        proof {
            lemma_update_file_wf(old(self)@, file_id, change);
        }
        match self.file_index(file_id) {
            Some(i) => {
                let observed_at: i64 = self.latest_observed(file_id);
                let clock: i64 = later_of(self.rows.files[i].restored_at, restored_at);
                let newest: i64 = later_of(clock, observed_at);
                if restored_at > self.rows.files[i].restored_at {
                    self.rows.files[i].restored_at = restored_at;
                }
                if newest > self.rows.files[i].deleted_at {
                    self.rows.files[i].deleted = false;
                }
                proof {
                    assert(self@.files =~= old(self)@.files.update(
                        i as int,
                        change(old(self)@.files[i as int]),
                    ));
                    lemma_update_at(old(self)@, file_id, change, i as int);
                    lemma_file_row(self@, i as int);
                }
                Ok(!self.rows.files[i].deleted)
            },
            None => {
                proof {
                    lemma_update_nowhere(old(self)@, file_id, change);
                }
                Ok(false)
            },
        }
    }

    /// Changes a file's logical path, provided `modified_at` is strictly newer than the
    /// recorded change. Returns whether the move was applied.
    pub fn update_file_logical_path(
        &mut self,
        file_id: FileId,
        logical_path: &LogicalPath,
        modified_at: i64,
    ) -> (r: Result<bool, DatabaseError>)
        requires
            old(self).wf(),
        ensures
            final(self).wf(),
            final(self)@ == old(self)@.after_move(file_id, logical_path@, modified_at),
            r == Ok::<bool, DatabaseError>(
                old(self)@.has_file(file_id) && old(self)@.file(file_id).logical_path_modified_at
                    < modified_at,
            ),
    {
        let ghost change = |row: FileRowView|
            if row.logical_path_modified_at < modified_at {
                FileRowView {
                    logical_path: logical_path@,
                    logical_path_modified_at: modified_at,
                    ..row
                }
            } else {
                row
            };
        proof {
            lemma_update_file_wf(old(self)@, file_id, change);
        }
        match self.file_index(file_id) {
            Some(i) => {
                let newer = self.rows.files[i].logical_path_modified_at < modified_at;
                if newer {
                    self.rows.files[i].logical_path = logical_path.clone();
                    self.rows.files[i].logical_path_modified_at = modified_at;
                }
                proof {
                    assert(self@.files =~= old(self)@.files.update(
                        i as int,
                        change(old(self)@.files[i as int]),
                    ));
                    lemma_update_at(old(self)@, file_id, change, i as int);
                }
                Ok(newer)
            },
            None => {
                proof {
                    lemma_update_nowhere(old(self)@, file_id, change);
                }
                Ok(false)
            },
        }
    }

    /// Tombstones a file, provided the delete is strictly newer than its latest edit and its
    /// last restore. The row and the version history stay; cached previews go. Returns whether
    /// the delete was applied.
    pub fn remove_file(&mut self, file_id: FileId, deleted_at: i64) -> (r: Result<
        bool,
        DatabaseError,
    >)
        requires
            old(self).wf(),
        ensures
            final(self).wf(),
            final(self)@ == old(self)@.after_remove_file(file_id, deleted_at),
            r == Ok::<bool, DatabaseError>(
                old(self)@.has_file(file_id) && old(self)@.delete_wins(file_id, deleted_at),
            ),
    {
        let ghost change = |row: FileRowView| FileRowView { deleted: true, deleted_at, ..row };
        match self.file_index(file_id) {
            Some(i) => {
                let observed_at: i64 = self.latest_observed(file_id);
                if deleted_at <= later_of(observed_at, self.rows.files[i].restored_at) {
                    return Ok(false);
                }
                self.rows.files[i].deleted = true;
                self.rows.files[i].deleted_at = deleted_at;
                proof {
                    assert(self@.files =~= old(self)@.files.update(
                        i as int,
                        change(old(self)@.files[i as int]),
                    ));
                    lemma_update_at(old(self)@, file_id, change, i as int);
                    lemma_update_file_wf(old(self)@, file_id, change);
                }
                self.delete_previews_for(file_id);
                Ok(true)
            },
            None => Ok(false),
        }
    }

    /// The id of the first live file at a logical path.
    pub fn file_id_from_logical_path(&self, logical_path: &LogicalPath) -> (r: Result<
        FileId,
        DatabaseError,
    >)
        ensures
            ({
                let found = self@.files.filter(
                    |row: FileRowView| !row.deleted && row.logical_path == logical_path@,
                );
                match r {
                    Ok(file_id) => found.len() > 0 && file_id == found[0].id,
                    Err(error) => found.len() == 0 && error is MissingFile,
                }
            }),
    {
        let ghost p = |row: FileRowView| !row.deleted && row.logical_path == logical_path@;
        let mut i: usize = 0;
        while i < self.rows.files.len()
            invariant
                i <= self.rows.files.len(),
                p == (|row: FileRowView| !row.deleted && row.logical_path == logical_path@),
                forall|j: int| 0 <= j < i ==> !p(#[trigger] self@.files[j]),
            decreases self.rows.files.len() - i,
        {
            assert(self@.files[i as int] == self.rows.files@[i as int]@);
            if !self.rows.files[i].deleted && self.rows.files[i].logical_path == *logical_path {
                proof {
                    lemma_filter_first(self@.files, i as int, p);
                }
                return Ok(self.rows.files[i].id);
            }
            i = i + 1;
        }
        proof {
            lemma_filter_none(self@.files, p);
        }
        Err(DatabaseError::MissingFile)
    }

    /// The logical path of a live file.
    pub fn logical_path_for_file_id(&self, file_id: FileId) -> (r: Result<
        LogicalPath,
        DatabaseError,
    >)
        requires
            self.wf(),
        ensures
            match r {
                Ok(path) => self@.has_file(file_id) && !self@.file(file_id).deleted && path@
                    == self@.file(file_id).logical_path,
                Err(error) => (!self@.has_file(file_id) || self@.file(file_id).deleted)
                    && error is MissingFile,
            },
    {
        match self.file_index(file_id) {
            Some(i) if !self.rows.files[i].deleted => Ok(self.rows.files[i].logical_path.clone()),
            _ => Err(DatabaseError::MissingFile),
        }
    }

    /// When a file's path was last changed, tombstoned or not; `None` if it is unknown.
    pub fn logical_path_modified_at(&self, file_id: FileId) -> (r: Result<
        Option<i64>,
        DatabaseError,
    >)
        requires
            self.wf(),
        ensures
            r == Ok::<Option<i64>, DatabaseError>(
                if self@.has_file(file_id) {
                    Some(self@.file(file_id).logical_path_modified_at)
                } else {
                    None
                },
            ),
    {
        match self.file_index(file_id) {
            Some(i) => Ok(Some(self.rows.files[i].logical_path_modified_at)),
            None => Ok(None),
        }
    }

    /// Every file that has a version, with its history and tombstone state. Tombstoned files
    /// are told too, so that a delete can win against a peer's stale copy.
    pub fn manifest_entries(&self) -> (r: Result<Vec<ManifestRow>, DatabaseError>)
        ensures
            r matches Ok(entries) && entries@.map_values(|row: ManifestRow| manifest_row_view(row))
                == self@.manifest(),
    {
        let ghost p = |row: FileRowView| self@.versions_of(row.id).len() > 0;
        let ghost f = |row: FileRowView| self@.manifest_entry(row);
        let ghost g = |row: ManifestRow| manifest_row_view(row);
        let mut entries: Vec<ManifestRow> = Vec::new();
        let mut i: usize = 0;
        assert(entries@.map_values(g) =~= self@.files.take(0).filter(p).map_values(f)) by {
            lemma_filter_none(self@.files.take(0), p);
        }
        while i < self.rows.files.len()
            invariant
                i <= self.rows.files.len(),
                p == (|row: FileRowView| self@.versions_of(row.id).len() > 0),
                f == (|row: FileRowView| self@.manifest_entry(row)),
                g == (|row: ManifestRow| manifest_row_view(row)),
                entries@.map_values(g) == self@.files.take(i as int).filter(p).map_values(f),
            decreases self.rows.files.len() - i,
        {
            let row = &self.rows.files[i];
            proof {
                assert(self@.files[i as int] == row@);
                lemma_filter_map_take(self@.files, i as int, p, f);
            }
            match self.version_history(row.id) {
                Ok(history) => {
                    assert(history@.len() == history_view(history@).len());
                    if history.len() > 0 {
                        let ghost before = entries@;
                        let observed_at: i64 = self.latest_observed(row.id);
                        entries.push(
                            (
                                row.id,
                                history,
                                observed_at,
                                row.logical_path.clone(),
                                row.logical_path_modified_at,
                                row.deleted,
                                row.deleted_at,
                                row.restored_at,
                            ),
                        );
                        assert(entries@.map_values(g) =~= before.map_values(g).push(f(row@)));
                    }
                },
                Err(error) => {
                    return Err(error);
                },
            }
            i = i + 1;
        }
        assert(self@.files.take(i as int) =~= self@.files);
        Ok(entries)
    }

    /// The place of a file's first version in the log.
    fn first_version_index(&self, file_id: FileId) -> (r: Option<usize>)
        ensures
            match r {
                Some(i) => i < self.rows.versions@.len() && self@.versions_of(file_id).len() > 0
                    && self@.versions_of(file_id)[0] == self.rows.versions@[i as int]@,
                None => self@.versions_of(file_id).len() == 0,
            },
    {
        let ghost p = |version: FileVersionView| version.file_id == file_id;
        let mut i: usize = 0;
        while i < self.rows.versions.len()
            invariant
                i <= self.rows.versions.len(),
                p == (|version: FileVersionView| version.file_id == file_id),
                forall|j: int| 0 <= j < i ==> !p(#[trigger] self@.versions[j]),
            decreases self.rows.versions.len() - i,
        {
            assert(self@.versions[i as int] == self.rows.versions@[i as int]@);
            if self.rows.versions[i].file_id == file_id {
                proof {
                    lemma_filter_first(self@.versions, i as int, p);
                }
                return Some(i);
            }
            i = i + 1;
        }
        proof {
            lemma_filter_none(self@.versions, p);
        }
        None
    }

    /// What a listing shows of a file, with its short-id length still to be filled in.
    fn info_at(&self, i: usize) -> (r: Option<FileInfo>)
        requires
            i < self.rows.files@.len(),
        ensures
            match r {
                Some(info) => self@.versions_of(self@.files[i as int].id).len() > 0 && info@
                    == info_of(
                    self@.files[i as int],
                    self@.versions_of(self@.files[i as int].id),
                    0,
                ) && info.file_id == self@.files[i as int].id,
                None => self@.versions_of(self@.files[i as int].id).len() == 0,
            },
    {
        let row = &self.rows.files[i];
        assert(self@.files[i as int] == row@);
        match (self.first_version_index(row.id), self.latest_index(row.id)) {
            (Some(first), Some(latest)) => {
                let version = &self.rows.versions[latest];
                Some(
                    FileInfo {
                        file_id: row.id,
                        logical_path: row.logical_path.clone(),
                        content_hash: version.content_hash.clone(),
                        version_number: version.version_number,
                        size: #[verifier::truncate] (version.size as u64),
                        short_id_length: 0,
                        deleted: row.deleted,
                        first_recorded_at: self.rows.versions[first].observed_at,
                        latest_change_at: version.observed_at,
                    },
                )
            },
            _ => None,
        }
    }

    /// What a listing shows of one file. A file without a row, without a version, or hidden by
    /// `deleted_rule` is missing.
    pub fn file_info_from_id(&self, file_id: FileId, deleted_rule: DeletedRule) -> (r: Result<
        FileInfo,
        DatabaseError,
    >)
        requires
            self.wf(),
        ensures
            match r {
                Ok(info) => self@.has_file(file_id) && self@.is_listed(
                    self@.file(file_id),
                    deleted_rule,
                ) && info@ == info_of(
                    self@.file(file_id),
                    self@.versions_of(file_id),
                    info.short_id_length as nat,
                ) && is_short_length(
                    self@.file_numbers(),
                    file_id.value,
                    info.short_id_length as nat,
                ),
                Err(error) => error is MissingFile && (!self@.has_file(file_id)
                    || !self@.is_listed(self@.file(file_id), deleted_rule)),
            },
    {
        match self.file_index(file_id) {
            Some(i) => {
                if !admits(deleted_rule, self.rows.files[i].deleted) {
                    return Err(DatabaseError::MissingFile);
                }
                match self.info_at(i) {
                    Some(mut info) => match self.shorten_file_id(file_id) {
                        Ok(length) => {
                            info.short_id_length = length;
                            Ok(info)
                        },
                        Err(error) => Err(error),
                    },
                    None => Err(DatabaseError::MissingFile),
                }
            },
            None => Err(DatabaseError::MissingFile),
        }
    }

    /// Every file that has a version and that `deleted_rule` admits, each with its latest
    /// version and the length of its shortest id prefix that no other file of the catalog shares.
    pub fn get_all_files(&self, deleted_rule: DeletedRule) -> (r: Result<
        Vec<FileInfo>,
        DatabaseError,
    >)
        ensures
            r is Ok,
            r->Ok_0@.len() == self@.listed(deleted_rule).len(),
            forall|k: int|
                0 <= k < r->Ok_0@.len() ==> (#[trigger] r->Ok_0@[k])@ == info_of(
                    self@.listed(deleted_rule)[k],
                    self@.versions_of(self@.listed(deleted_rule)[k].id),
                    r->Ok_0@[k].short_id_length as nat,
                ) && is_short_length(
                    self@.file_numbers(),
                    r->Ok_0@[k].file_id.value,
                    r->Ok_0@[k].short_id_length as nat,
                ),
    {
        let ghost p = |row: FileRowView| self@.is_listed(row, deleted_rule);
        let mut files: Vec<FileInfo> = Vec::new();
        let mut i: usize = 0;
        proof {
            lemma_filter_none(self@.files.take(0), p);
        }
        while i < self.rows.files.len()
            invariant
                i <= self.rows.files.len(),
                p == (|row: FileRowView| self@.is_listed(row, deleted_rule)),
                files@.len() == self@.files.take(i as int).filter(p).len(),
                forall|k: int|
                    0 <= k < files@.len() ==> (#[trigger] files@[k])@ == info_of(
                        self@.files.take(i as int).filter(p)[k],
                        self@.versions_of(self@.files.take(i as int).filter(p)[k].id),
                        0,
                    ),
            decreases self.rows.files.len() - i,
        {
            proof {
                assert(self@.files[i as int] == self.rows.files@[i as int]@);
                crate::seqs::lemma_filter_take(self@.files, i as int, p);
            }
            if admits(deleted_rule, self.rows.files[i].deleted) {
                match self.info_at(i) {
                    Some(info) => {
                        files.push(info);
                    },
                    None => {},
                }
            }
            i = i + 1;
        }
        assert(self@.files.take(i as int) =~= self@.files);
        let ghost listed = self@.listed(deleted_rule);
        let (ids, texts) = self.written_file_ids();
        let mut k: usize = 0;
        while k < files.len()
            invariant
                k <= files.len(),
                files@.len() == listed.len(),
                texts@.len() == ids@.len(),
                listed == self@.listed(deleted_rule),
                ids@ == self@.file_numbers(),
                forall|m: int| 0 <= m < ids@.len() ==> (#[trigger] texts@[m])@ == id_text(ids@[m]),
                forall|m: int|
                    0 <= m < files@.len() ==> (#[trigger] files@[m])@ == info_of(
                        listed[m],
                        self@.versions_of(listed[m].id),
                        files@[m].short_id_length as nat,
                    ),
                forall|m: int|
                    0 <= m < k ==> is_short_length(
                        ids@,
                        (#[trigger] files@[m]).file_id.value,
                        files@[m].short_id_length as nat,
                    ),
            decreases files.len() - k,
        {
            assert(files@[k as int]@ == info_of(
                listed[k as int],
                self@.versions_of(listed[k as int].id),
                files@[k as int].short_id_length as nat,
            ));
            let length: usize = shortest_unique_prefix_length(
                &ids,
                &texts,
                files[k].file_id.value,
            );
            files[k].short_id_length = length;
            k = k + 1;
        }
        Ok(files)
    }

    /// The summed size of the latest versions of every file that `deleted_rule` admits, and
    /// the number of those files. Fails where the running total leaves 64 bits.
    pub fn total_catalog_size(&self, deleted_rule: DeletedRule) -> (r: Result<
        (u64, u64),
        DatabaseError,
    >)
        ensures
            size_outcome(self@.latest_sizes(self@.listed(deleted_rule)), r),
    {
        let ghost p = |row: FileRowView| self@.is_listed(row, deleted_rule);
        self.sum_sizes(deleted_rule, None, Ghost(p))
    }

    /// The summed size of the latest versions of the named files that `deleted_rule` admits,
    /// and the number of those files. Ids that the catalog does not list are skipped, and an id
    /// that is named twice counts once.
    pub fn size_of_files(&self, file_ids: &[FileId], deleted_rule: DeletedRule) -> (r: Result<
        (u64, u64),
        DatabaseError,
    >)
        ensures
            size_outcome(
                self@.latest_sizes(
                    self@.listed(deleted_rule).filter(
                        |row: FileRowView| file_ids@.contains(row.id),
                    ),
                ),
                r,
            ),
    {
        let ghost listed = |row: FileRowView| self@.is_listed(row, deleted_rule);
        let ghost named = |row: FileRowView| file_ids@.contains(row.id);
        let ghost p = |row: FileRowView| listed(row) && named(row);
        proof {
            crate::seqs::lemma_filter_filter(self@.files, listed, named);
            crate::seqs::lemma_filter_agree(
                self@.files,
                p,
                |row: FileRowView| listed(row) && named(row),
            );
        }
        self.sum_sizes(deleted_rule, Some(file_ids), Ghost(p))
    }

    fn sum_sizes(
        &self,
        deleted_rule: DeletedRule,
        file_ids: Option<&[FileId]>,
        Ghost(p): Ghost<spec_fn(FileRowView) -> bool>,
    ) -> (r: Result<(u64, u64), DatabaseError>)
        requires
            forall|row: FileRowView| #[trigger]
                p(row) == (self@.is_listed(row, deleted_rule) && (file_ids matches Some(ids)
                    ==> ids@.contains(row.id))),
        ensures
            size_outcome(self@.latest_sizes(self@.files.filter(p)), r),
    {
        let ghost f = |row: FileRowView| self@.versions_of(row.id).last().size;
        let ghost all = self@.files.filter(p).map_values(f);
        let mut total: i64 = 0;
        let mut count: u64 = 0;
        let mut i: usize = 0;
        proof {
            lemma_filter_none(self@.files.take(0), p);
            assert(self@.files.take(0).filter(p).map_values(f) =~= Seq::<i64>::empty());
            assert(all.take(0) =~= Seq::<i64>::empty());
        }
        while i < self.rows.files.len()
            invariant
                i <= self.rows.files.len(),
                f == (|row: FileRowView| self@.versions_of(row.id).last().size),
                all == self@.files.filter(p).map_values(f),
                forall|row: FileRowView| #[trigger]
                    p(row) == (self@.is_listed(row, deleted_rule) && (file_ids matches Some(ids)
                        ==> ids@.contains(row.id))),
                count == self@.files.take(i as int).filter(p).len(),
                count <= i,
                count <= all.len(),
                self@.files.take(i as int).filter(p).map_values(f) == all.take(count as int),
                total == sum_of(all.take(count as int)),
                forall|k: int|
                    0 <= k <= count ==> i64::MIN <= #[trigger] sum_of(all.take(k)) <= i64::MAX,
            decreases self.rows.files.len() - i,
        {
            let row = &self.rows.files[i];
            proof {
                assert(self@.files[i as int] == row@);
                crate::seqs::lemma_filter_take(self@.files, i as int, p);
                lemma_filter_map_take(self@.files, i as int, p, f);
                let rest = self@.files.skip(i + 1);
                assert(self@.files =~= self@.files.take(i + 1) + rest);
                crate::seqs::lemma_filter_concat(self@.files.take(i + 1), rest, p);
                let shown = self@.files.take(i + 1).filter(p);
                assert(all =~= shown.map_values(f) + rest.filter(p).map_values(f));
                assert(shown.map_values(f) =~= all.take(shown.len() as int));
            }
            let named = match file_ids {
                Some(ids) => names(ids, row.id),
                None => true,
            };
            if named && admits(deleted_rule, row.deleted) {
                match self.latest_index(row.id) {
                    Some(k) => {
                        let size: i64 = self.rows.versions[k].size;
                        proof {
                            assert(p(row@));
                            let longer = all.take(count + 1);
                            assert(longer.drop_last() =~= all.take(count as int));
                            assert(longer.last() == size);
                        }
                        match total.checked_add(size) {
                            Some(sum) => {
                                total = sum;
                            },
                            None => {
                                assert(sum_of(all.take(count + 1)) == total + size);
                                assert(!sums_fit(all));
                                return Err(
                                    DatabaseError::Sqlite {
                                        message: "integer overflow".to_owned(),
                                    },
                                );
                            },
                        }
                        count = count + 1;
                    },
                    None => {},
                }
            }
            i = i + 1;
        }
        proof {
            assert(self@.files.take(i as int) =~= self@.files);
            assert(all.take(count as int) =~= all);
        }
        Ok((#[verifier::truncate] (total as u64), count))
    }
}

/// Whether an id stands in a list.
fn names(ids: &[FileId], file_id: FileId) -> (r: bool)
    ensures
        r == ids@.contains(file_id),
{
    let mut i: usize = 0;
    while i < ids.len()
        invariant
            i <= ids.len(),
            forall|j: int| 0 <= j < i ==> ids@[j] != file_id,
        decreases ids.len() - i,
    {
        if ids[i] == file_id {
            return true;
        }
        i = i + 1;
    }
    false
}

/// The total and number of some sizes, or the failure of a running total that leaves 64 bits.
pub open spec fn size_outcome(sizes: Seq<i64>, r: Result<(u64, u64), DatabaseError>) -> bool {
    match r {
        Ok((total, count)) => sums_fit(sizes) && total == (sum_of(sizes) as i64) as u64 && count
            == sizes.len(),
        Err(error) => !sums_fit(sizes) && is_sqlite_error(error, "integer overflow"@),
    }
}

} // verus!
