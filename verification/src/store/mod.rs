//! The catalog: files, tags, the relationships between them, version history and the preview
//! cache, and the only type that can write them.
//!
//! The tables live in memory as rows; a caller that keeps them on disk reads them before
//! [`CatalogStore::initialize`] and writes the changed rows back afterwards.

pub mod directory_index;
pub mod entries;
pub mod files;
pub mod graph;
pub mod graph_laws;
pub mod laws;
pub mod pattern;
pub mod previews;
pub mod purged;
pub mod query;
pub mod query_laws;
pub mod row_laws;
pub mod schema;
pub mod short_id;
pub mod tags;
pub mod types;
pub mod versions;

pub use crate::state::{DeletedRule, SubtagRule, Tag};
pub use directory_index::{DirectoryIndex, SyncDirectoryFile};
pub use files::ManifestRow;
pub use pattern::TextPattern;
pub use query::QueryTerm;
pub use short_id::normalize_id_prefix;
pub use types::{DeletionState, FileVersion};
pub use versions::VersionHistory;

use vstd::prelude::*;

use crate::store::types::{
    entries_distinct, files_distinct, previews_distinct, same_preview_key, same_relationship,
    tags_distinct, versions_ordered, CatalogView,
};
pub use types::{CatalogRows, DatabaseError};

verus! {

/// A handle on the main catalog.
#[derive(Debug)]
pub struct CatalogStore {
    rows: CatalogRows,
}

impl View for CatalogStore {
    type V = CatalogView;

    closed spec fn view(&self) -> CatalogView {
        self.rows@
    }
}

impl CatalogRows {
    /// The rows of an empty catalog.
    pub fn new() -> (r: CatalogRows)
        ensures
            r@.wf(),
            r@.files.len() == 0 && r@.versions.len() == 0 && r@.tags.len() == 0,
            r@.entries.len() == 0 && r@.previews.len() == 0 && r@.purged.len() == 0,
    {
        CatalogRows {
            files: Vec::new(),
            versions: Vec::new(),
            tags: Vec::new(),
            entries: Vec::new(),
            previews: Vec::new(),
            purged: Vec::new(),
        }
    }

    fn files_keyed(&self) -> (r: bool)
        ensures
            r == files_distinct(self@.files),
    {
        let mut i: usize = 0;
        while i < self.files.len()
            invariant
                i <= self.files.len(),
                forall|a: int, b: int|
                    0 <= a < b < i ==> (#[trigger] self@.files[a]).id != (
                    #[trigger] self@.files[b]).id,
            decreases self.files.len() - i,
        {
            let mut j: usize = 0;
            while j < i
                invariant
                    j <= i < self.files.len(),
                    forall|a: int| 0 <= a < j ==> (#[trigger] self@.files[a]).id != self@.files[i as int].id,
                decreases i - j,
            {
                if self.files[j].id == self.files[i].id {
                    assert(self@.files[j as int].id == self@.files[i as int].id);
                    return false;
                }
                j = j + 1;
            }
            i = i + 1;
        }
        true
    }

    fn versions_keyed(&self) -> (r: bool)
        ensures
            r == versions_ordered(self@.versions),
    {
        let mut i: usize = 0;
        while i < self.versions.len()
            invariant
                i <= self.versions.len(),
                forall|a: int, b: int|
                    0 <= a < b < i && (#[trigger] self@.versions[a]).file_id == (
                    #[trigger] self@.versions[b]).file_id ==> self@.versions[a].version_number
                        < self@.versions[b].version_number,
            decreases self.versions.len() - i,
        {
            let mut j: usize = 0;
            while j < i
                invariant
                    j <= i < self.versions.len(),
                    forall|a: int|
                        0 <= a < j && (#[trigger] self@.versions[a]).file_id
                            == self@.versions[i as int].file_id
                            ==> self@.versions[a].version_number
                            < self@.versions[i as int].version_number,
                decreases i - j,
            {
                if self.versions[j].file_id == self.versions[i].file_id
                    && self.versions[j].version_number >= self.versions[i].version_number {
                    assert(self@.versions[j as int].file_id == self@.versions[i as int].file_id);
                    return false;
                }
                j = j + 1;
            }
            i = i + 1;
        }
        true
    }

    fn tags_keyed(&self) -> (r: bool)
        ensures
            r == tags_distinct(self@.tags),
    {
        let mut i: usize = 0;
        while i < self.tags.len()
            invariant
                i <= self.tags.len(),
                forall|a: int, b: int|
                    0 <= a < b < i ==> (#[trigger] self@.tags[a]).id != (
                    #[trigger] self@.tags[b]).id,
            decreases self.tags.len() - i,
        {
            let mut j: usize = 0;
            while j < i
                invariant
                    j <= i < self.tags.len(),
                    forall|a: int| 0 <= a < j ==> (#[trigger] self@.tags[a]).id != self@.tags[i as int].id,
                decreases i - j,
            {
                if self.tags[j].id == self.tags[i].id {
                    assert(self@.tags[j as int].id == self@.tags[i as int].id);
                    return false;
                }
                j = j + 1;
            }
            i = i + 1;
        }
        true
    }

    fn entries_keyed(&self) -> (r: bool)
        ensures
            r == entries_distinct(self@.entries),
    {
        let mut i: usize = 0;
        while i < self.entries.len()
            invariant
                i <= self.entries.len(),
                forall|a: int, b: int|
                    0 <= a < b < i ==> !same_relationship(
                        #[trigger] self@.entries[a],
                        #[trigger] self@.entries[b],
                    ),
            decreases self.entries.len() - i,
        {
            let mut j: usize = 0;
            while j < i
                invariant
                    j <= i < self.entries.len(),
                    forall|a: int|
                        0 <= a < j ==> !same_relationship(
                            #[trigger] self@.entries[a],
                            self@.entries[i as int],
                        ),
                decreases i - j,
            {
                if self.entries[j].tag_id == self.entries[i].tag_id && self.entries[j].kind
                    == self.entries[i].kind && self.entries[j].target_id
                    == self.entries[i].target_id {
                    assert(same_relationship(self@.entries[j as int], self@.entries[i as int]));
                    return false;
                }
                j = j + 1;
            }
            i = i + 1;
        }
        true
    }

    fn previews_keyed(&self) -> (r: bool)
        ensures
            r == previews_distinct(self@.previews),
    {
        let mut i: usize = 0;
        while i < self.previews.len()
            invariant
                i <= self.previews.len(),
                forall|a: int, b: int|
                    0 <= a < b < i ==> !same_preview_key(
                        #[trigger] self@.previews[a],
                        #[trigger] self@.previews[b],
                    ),
            decreases self.previews.len() - i,
        {
            let mut j: usize = 0;
            while j < i
                invariant
                    j <= i < self.previews.len(),
                    forall|a: int|
                        0 <= a < j ==> !same_preview_key(
                            #[trigger] self@.previews[a],
                            self@.previews[i as int],
                        ),
                decreases i - j,
            {
                if self.previews[j].file_id == self.previews[i].file_id
                    && self.previews[j].content_hash == self.previews[i].content_hash {
                    assert(same_preview_key(self@.previews[j as int], self@.previews[i as int]));
                    return false;
                }
                j = j + 1;
            }
            i = i + 1;
        }
        true
    }

    fn purged_keyed(&self) -> (r: bool)
        ensures
            r == self@.purged.no_duplicates(),
    {
        let mut i: usize = 0;
        while i < self.purged.len()
            invariant
                i <= self.purged.len(),
                forall|a: int, b: int| 0 <= a < b < i ==> self@.purged[a] != self@.purged[b],
            decreases self.purged.len() - i,
        {
            let mut j: usize = 0;
            while j < i
                invariant
                    j <= i < self.purged.len(),
                    forall|a: int| 0 <= a < j ==> self@.purged[a] != self@.purged[i as int],
                decreases i - j,
            {
                if self.purged[j] == self.purged[i] {
                    return false;
                }
                j = j + 1;
            }
            i = i + 1;
        }
        true
    }
}

impl CatalogStore {
    /// The store keeps every table's keys.
    pub open spec fn wf(&self) -> bool {
        self@.wf()
    }

    /// Takes over the rows of a catalog, provided the keys of its tables hold.
    pub fn initialize(rows: CatalogRows) -> (r: Result<CatalogStore, DatabaseError>)
        ensures
            match r {
                Ok(store) => rows@.wf() && store@ == rows@,
                Err(error) => !rows@.wf() && error is UnableToOpenOrCreate,
            },
    {
        if rows.files_keyed() && rows.versions_keyed() && rows.tags_keyed() && rows.entries_keyed()
            && rows.previews_keyed() && rows.purged_keyed() {
            Ok(CatalogStore { rows })
        } else {
            Err(DatabaseError::UnableToOpenOrCreate)
        }
    }

    /// The rows as they stand, for a caller that keeps them on disk.
    pub fn rows(&self) -> (r: &CatalogRows)
        ensures
            r@ == self@,
    {
        &self.rows
    }
}

} // verus!
