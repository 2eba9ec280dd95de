//! The index of one sync directory: where each file's bytes sit on disk, and which file a path
//! on disk belongs to.

use vstd::prelude::*;

use crate::ids::FileId;
use crate::paths::PhysicalPath;
use crate::seqs::{
    lemma_filter_all, lemma_filter_first, lemma_filter_none, lemma_filter_pairs,
    lemma_filter_remove, lemma_filter_take,
};
use crate::store::types::{is_sqlite_error, DatabaseError};
use crate::text::{chars_of, like, like_chars};

verus! {

/// A file of a sync directory and its path on disk, relative to the directory's root.
#[derive(Debug)]
pub struct SyncDirectoryFile {
    pub file_id: FileId,
    pub physical_path: PhysicalPath,
}

/// The model of a file of a sync directory.
pub struct DirectoryFileView {
    pub file_id: FileId,
    pub physical_path: Seq<char>,
}

impl View for SyncDirectoryFile {
    type V = DirectoryFileView;

    open spec fn view(&self) -> DirectoryFileView {
        DirectoryFileView { file_id: self.file_id, physical_path: self.physical_path@ }
    }
}

impl Clone for SyncDirectoryFile {
    fn clone(&self) -> (r: SyncDirectoryFile)
        ensures
            r == *self,
    {
        SyncDirectoryFile {
            file_id: self.file_id,
            physical_path: self.physical_path.clone(),
        }
    }
}

/// The index of one sync directory.
#[derive(Debug)]
pub struct DirectoryIndex {
    files: Vec<SyncDirectoryFile>,
}

impl View for DirectoryIndex {
    type V = Seq<DirectoryFileView>;

    closed spec fn view(&self) -> Seq<DirectoryFileView> {
        self.files@.map_values(|file: SyncDirectoryFile| file@)
    }
}

/// No file is indexed twice.
pub open spec fn indexed_once(rows: Seq<DirectoryFileView>) -> bool {
    forall|i: int, j: int|
        0 <= i < rows.len() && 0 <= j < rows.len() && i != j ==> (#[trigger] rows[i]).file_id != (
        #[trigger] rows[j]).file_id
}

/// A file is indexed.
pub open spec fn indexes(rows: Seq<DirectoryFileView>, file_id: FileId) -> bool {
    exists|i: int| 0 <= i < rows.len() && (#[trigger] rows[i]).file_id == file_id
}

/// A path is that of a file other than the given one.
pub open spec fn taken_by_other(
    rows: Seq<DirectoryFileView>,
    physical_path: Seq<char>,
    except_file_id: FileId,
) -> bool {
    exists|i: int|
        0 <= i < rows.len() && (#[trigger] rows[i]).physical_path == physical_path
            && rows[i].file_id != except_file_id
}

/// Some listed files show some rows.
pub open spec fn shows_rows(files: Seq<SyncDirectoryFile>, rows: Seq<DirectoryFileView>) -> bool {
    files.map_values(|file: SyncDirectoryFile| file@) == rows
}

impl DirectoryIndex {
    /// The index keeps its key.
    pub open spec fn wf(&self) -> bool {
        indexed_once(self@)
    }

    /// Takes over the rows of an index, provided no file stands in them twice.
    pub fn initialize(files: Vec<SyncDirectoryFile>) -> (r: Result<DirectoryIndex, DatabaseError>)
        ensures
            ({
                let rows = files@.map_values(|file: SyncDirectoryFile| file@);
                match r {
                    Ok(index) => indexed_once(rows) && index@ == rows,
                    Err(error) => !indexed_once(rows) && error is UnableToOpenOrCreate,
                }
            }),
    {
        let ghost rows = files@.map_values(|file: SyncDirectoryFile| file@);
        let mut i: usize = 0;
        while i < files.len()
            invariant
                i <= files.len(),
                rows == files@.map_values(|file: SyncDirectoryFile| file@),
                forall|a: int, b: int|
                    0 <= a < b < i ==> (#[trigger] rows[a]).file_id != (
                    #[trigger] rows[b]).file_id,
            decreases files.len() - i,
        {
            let mut j: usize = 0;
            while j < i
                invariant
                    j <= i < files.len(),
                    rows == files@.map_values(|file: SyncDirectoryFile| file@),
                    forall|a: int| 0 <= a < j ==> (#[trigger] rows[a]).file_id != rows[i as int].file_id,
                decreases i - j,
            {
                if files[j].file_id == files[i].file_id {
                    assert(rows[j as int].file_id == rows[i as int].file_id);
                    return Err(DatabaseError::UnableToOpenOrCreate);
                }
                j = j + 1;
            }
            i = i + 1;
        }
        Ok(DirectoryIndex { files })
    }

    fn index_of(&self, file_id: FileId) -> (r: Option<usize>)
        ensures
            match r {
                Some(i) => i < self.files@.len() && i < self@.len() && self@[i as int].file_id
                    == file_id && self@[i as int] == self.files@[i as int]@ && indexes(
                    self@,
                    file_id,
                ),
                None => !indexes(self@, file_id),
            },
    {
        let mut i: usize = 0;
        while i < self.files.len()
            invariant
                i <= self.files.len(),
                forall|j: int| 0 <= j < i ==> (#[trigger] self@[j]).file_id != file_id,
            decreases self.files.len() - i,
        {
            assert(self@[i as int] == self.files@[i as int]@);
            if self.files[i].file_id == file_id {
                return Some(i);
            }
            i = i + 1;
        }
        None
    }

    /// Adds a file.
    pub fn add_file(&mut self, file_id: FileId, physical_path: &PhysicalPath) -> (r: Result<
        (),
        DatabaseError,
    >)
        requires
            old(self).wf(),
        ensures
            final(self).wf(),
            match r {
                Ok(()) => !indexes(old(self)@, file_id) && final(self)@ == old(self)@.push(
                    DirectoryFileView { file_id, physical_path: physical_path@ },
                ),
                Err(error) => indexes(old(self)@, file_id) && final(self)@ == old(self)@
                    && is_sqlite_error(error, "UNIQUE constraint failed: files_v1.id"@),
            },
    {
        if self.index_of(file_id).is_some() {
            return Err(
                DatabaseError::Sqlite {
                    message: "UNIQUE constraint failed: files_v1.id".to_owned(),
                },
            );
        }
        let ghost before = self@;
        self.files.push(SyncDirectoryFile { file_id, physical_path: physical_path.clone() });
        proof {
            let row = DirectoryFileView { file_id, physical_path: physical_path@ };
            assert(self@ =~= before.push(row));
            assert forall|i: int, j: int|
                0 <= i < self@.len() && 0 <= j < self@.len() && i != j implies (
            #[trigger] self@[i]).file_id != (#[trigger] self@[j]).file_id by {
                if i < before.len() {
                    assert(self@[i] == before[i]);
                }
                if j < before.len() {
                    assert(self@[j] == before[j]);
                }
            }
        }
        Ok(())
    }

    /// Changes where a file's bytes sit; an unknown file is passed over.
    pub fn update_file_physical_path(
        &mut self,
        file_id: FileId,
        physical_path: &PhysicalPath,
    ) -> (r: Result<(), DatabaseError>)
        requires
            old(self).wf(),
        ensures
            final(self).wf(),
            r is Ok,
            final(self)@ == old(self)@.map_values(
                |row: DirectoryFileView|
                    if row.file_id == file_id {
                        DirectoryFileView { physical_path: physical_path@, ..row }
                    } else {
                        row
                    },
            ),
    {
        let ghost f = |row: DirectoryFileView|
            if row.file_id == file_id {
                DirectoryFileView { physical_path: physical_path@, ..row }
            } else {
                row
            };
        let ghost before = self@;
        match self.index_of(file_id) {
            Some(i) => {
                self.files[i].physical_path = physical_path.clone();
                proof {
                    assert forall|j: int| 0 <= j < before.len() implies self@[j]
                        == before.map_values(f)[j] by {
                        if j != i {
                            assert(before[j].file_id != before[i as int].file_id);
                            assert(self@[j] == before[j]);
                        }
                    }
                    assert(self@ =~= before.map_values(f));
                }
            },
            None => {
                assert forall|j: int| 0 <= j < before.len() implies before[j] == before.map_values(
                    f,
                )[j] by {
                    assert(before[j].file_id != file_id);
                }
                assert(before =~= before.map_values(f));
            },
        }
        proof {
            assert forall|i: int| 0 <= i < self@.len() implies (#[trigger] self@[i]).file_id
                == before[i].file_id by {}
            assert forall|i: int, j: int|
                0 <= i < self@.len() && 0 <= j < self@.len() && i != j implies (
            #[trigger] self@[i]).file_id != (#[trigger] self@[j]).file_id by {
                assert(before[i].file_id != before[j].file_id);
            }
        }
        Ok(())
    }

    /// Removes a file; an unknown file is passed over.
    pub fn remove_file_by_id(&mut self, file_id: FileId) -> (r: Result<(), DatabaseError>)
        requires
            old(self).wf(),
        ensures
            final(self).wf(),
            r is Ok,
            final(self)@ == old(self)@.filter(|row: DirectoryFileView| row.file_id != file_id),
    {
        let ghost keep = |row: DirectoryFileView| row.file_id != file_id;
        let ghost before = self@;
        match self.index_of(file_id) {
            Some(i) => {
                self.files.remove(i);
                proof {
                    assert(self@ =~= before.remove(i as int));
                    lemma_filter_remove(before, i as int, keep);
                    assert forall|j: int| 0 <= j < self@.len() implies keep(
                        #[trigger] self@[j],
                    ) by {
                        let k = if j < i {
                            j
                        } else {
                            j + 1
                        };
                        assert(self@[j] == before[k]);
                        assert(before[k].file_id != before[i as int].file_id);
                    }
                }
            },
            None => {},
        }
        proof {
            lemma_filter_all(self@, keep);
            let apart = |a: DirectoryFileView, b: DirectoryFileView| a.file_id != b.file_id;
            lemma_filter_pairs(before, keep, apart);
            assert forall|i: int, j: int|
                0 <= i < self@.len() && 0 <= j < self@.len() && i != j implies (
            #[trigger] self@[i]).file_id != (#[trigger] self@[j]).file_id by {
                if i < j {
                    assert(apart(self@[i], self@[j]));
                } else {
                    assert(apart(self@[j], self@[i]));
                }
            }
        }
        Ok(())
    }

    /// Where a file's bytes sit.
    pub fn get_file(&self, file_id: FileId) -> (r: Result<SyncDirectoryFile, DatabaseError>)
        ensures
            match r {
                Ok(file) => file.file_id == file_id && self@.contains(file@),
                Err(error) => !indexes(self@, file_id) && error is MissingFile,
            },
    {
        match self.index_of(file_id) {
            Some(i) => {
                let file = self.files[i].clone();
                assert(self@[i as int] == file@);
                Ok(file)
            },
            None => Err(DatabaseError::MissingFile),
        }
    }

    /// Whether some other file already occupies a path.
    pub fn physical_path_in_use_by_other(
        &self,
        physical_path: &PhysicalPath,
        except_file_id: FileId,
    ) -> (r: Result<bool, DatabaseError>)
        ensures
            r == Ok::<bool, DatabaseError>(
                taken_by_other(self@, physical_path@, except_file_id),
            ),
    {
        let mut i: usize = 0;
        while i < self.files.len()
            invariant
                i <= self.files.len(),
                forall|j: int|
                    0 <= j < i ==> !((#[trigger] self@[j]).physical_path == physical_path@
                        && self@[j].file_id != except_file_id),
            decreases self.files.len() - i,
        {
            assert(self@[i as int] == self.files@[i as int]@);
            if self.files[i].physical_path == *physical_path && self.files[i].file_id
                != except_file_id {
                return Ok(true);
            }
            i = i + 1;
        }
        Ok(false)
    }

    /// The first file at a path.
    pub fn get_file_id(&self, physical_path: &PhysicalPath) -> (r: Result<FileId, DatabaseError>)
        ensures
            ({
                let found = self@.filter(
                    |row: DirectoryFileView| row.physical_path == physical_path@,
                );
                match r {
                    Ok(file_id) => found.len() > 0 && file_id == found[0].file_id,
                    Err(error) => found.len() == 0 && error is MissingFile,
                }
            }),
    {
        let ghost p = |row: DirectoryFileView| row.physical_path == physical_path@;
        let mut i: usize = 0;
        while i < self.files.len()
            invariant
                i <= self.files.len(),
                p == (|row: DirectoryFileView| row.physical_path == physical_path@),
                forall|j: int| 0 <= j < i ==> !p(#[trigger] self@[j]),
            decreases self.files.len() - i,
        {
            assert(self@[i as int] == self.files@[i as int]@);
            if self.files[i].physical_path == *physical_path {
                proof {
                    lemma_filter_first(self@, i as int, p);
                }
                return Ok(self.files[i].file_id);
            }
            i = i + 1;
        }
        proof {
            lemma_filter_none(self@, p);
        }
        Err(DatabaseError::MissingFile)
    }

    /// Every file of the directory.
    pub fn get_all_files(&self) -> (r: Result<Vec<SyncDirectoryFile>, DatabaseError>)
        ensures
            r matches Ok(files) && shows_rows(files@, self@),
    {
        let mut files: Vec<SyncDirectoryFile> = Vec::new();
        let mut i: usize = 0;
        while i < self.files.len()
            invariant
                i <= self.files.len(),
                files@.len() == i,
                forall|k: int| 0 <= k < i ==> files@[k] == self.files@[k],
            decreases self.files.len() - i,
        {
            files.push(self.files[i].clone());
            i = i + 1;
        }
        assert(files@.map_values(|file: SyncDirectoryFile| file@) =~= self@);
        Ok(files)
    }

    /// Every file whose path starts with a path, matched as a wildcard pattern: letters in
    /// either ASCII case, `_` for any character and `%` for any run of them.
    pub fn get_all_files_at(&self, physical_path: &PhysicalPath) -> (r: Result<
        Vec<SyncDirectoryFile>,
        DatabaseError,
    >)
        ensures
            r matches Ok(files) && shows_rows(
                files@,
                self@.filter(
                    |row: DirectoryFileView| like(physical_path@.push('%'), row.physical_path),
                ),
            ),
    {
        let mut pattern = chars_of(physical_path.as_str());
        pattern.push('%');
        let ghost p = |row: DirectoryFileView| like(physical_path@.push('%'), row.physical_path);
        let ghost view = |file: SyncDirectoryFile| file@;
        let mut files: Vec<SyncDirectoryFile> = Vec::new();
        let mut i: usize = 0;
        proof {
            lemma_filter_none(self@.take(0), p);
            assert(files@.map_values(view) =~= self@.take(0).filter(p));
        }
        while i < self.files.len()
            invariant
                i <= self.files.len(),
                pattern@ == physical_path@.push('%'),
                p == (|row: DirectoryFileView|
                    like(physical_path@.push('%'), row.physical_path)),
                view == (|file: SyncDirectoryFile| file@),
                files@.map_values(view) == self@.take(i as int).filter(p),
            decreases self.files.len() - i,
        {
            proof {
                assert(self@[i as int] == self.files@[i as int]@);
                lemma_filter_take(self@, i as int, p);
            }
            let path = chars_of(self.files[i].physical_path.as_str());
            if like_chars(&pattern, &path) {
                let ghost before = files@;
                files.push(self.files[i].clone());
                assert(files@.map_values(view) =~= before.map_values(view).push(
                    self@[i as int],
                ));
            }
            i = i + 1;
        }
        assert(self@.take(i as int) =~= self@);
        Ok(files)
    }
}

} // verus!
