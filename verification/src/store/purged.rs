//! The permanent set of file ids purged as broken.
//!
//! A purge is a terminal fact: the id's presence is the whole state, and sets of purges merge
//! by union. The id stays after the file's rows are stripped, so that a later announcement of
//! the file can be refused.

use vstd::prelude::*;

use crate::ids::{id_text, FileId};
use crate::seqs::{
    lemma_filter_all, lemma_filter_member, lemma_filter_none, lemma_filter_pairs,
    lemma_filter_remove,
};
use crate::state::{EntryView, RelationshipKind};
use crate::store::types::{
    same_relationship, CatalogView, DatabaseError, FileRowView, FileVersionView,
};
use crate::store::CatalogStore;

verus! {

/// A relationship that applies a tag to this file.
pub open spec fn tags_this_file(entry: EntryView, file_id: FileId) -> bool {
    entry.kind is File && entry.target_id == id_text(file_id.value)
}

impl CatalogView {
    /// An id is in the permanent purge set.
    pub open spec fn is_purged(self, file_id: FileId) -> bool {
        self.purged.contains(file_id)
    }

    /// The catalog with an id purged.
    pub open spec fn with_purge(self, file_id: FileId) -> CatalogView {
        if self.is_purged(file_id) {
            self
        } else {
            CatalogView { purged: self.purged.push(file_id), ..self }
        }
    }

    /// The catalog without any row of a file: its file row, its versions, its tags and its
    /// cached previews. The purge set stays.
    pub open spec fn stripped(self, file_id: FileId) -> CatalogView {
        CatalogView {
            files: self.files.filter(|row: FileRowView| row.id != file_id),
            versions: self.versions.filter(|row: FileVersionView| row.file_id != file_id),
            entries: self.entries.filter(|row: EntryView| !tags_this_file(row, file_id)),
            ..self
        }.without_previews(file_id)
    }
}

impl CatalogStore {
    /// Records a purge; purging again changes nothing. Returns whether the id is new.
    pub fn record_purge(&mut self, file_id: FileId) -> (r: Result<bool, DatabaseError>)
        requires
            old(self).wf(),
        ensures
            final(self).wf(),
            r == Ok::<bool, DatabaseError>(!old(self)@.is_purged(file_id)),
            final(self)@ == old(self)@.with_purge(file_id),
    {
        if self.purge_listed(file_id) {
            return Ok(false);
        }
        self.rows.purged.push(file_id);
        Ok(true)
    }

    fn purge_listed(&self, file_id: FileId) -> (r: bool)
        ensures
            r == self@.is_purged(file_id),
    {
        let mut i: usize = 0;
        while i < self.rows.purged.len()
            invariant
                i <= self.rows.purged.len(),
                forall|j: int| 0 <= j < i ==> self@.purged[j] != file_id,
            decreases self.rows.purged.len() - i,
        {
            if self.rows.purged[i] == file_id {
                assert(self@.purged[i as int] == file_id);
                return true;
            }
            i = i + 1;
        }
        false
    }

    /// Whether an id is purged. A file fact about a purged id is to be dropped.
    pub fn is_purged(&self, file_id: FileId) -> (r: Result<bool, DatabaseError>)
        ensures
            r == Ok::<bool, DatabaseError>(self@.is_purged(file_id)),
    {
        Ok(self.purge_listed(file_id))
    }

    /// Every purged id.
    pub fn purged_ids(&self) -> (r: Result<Vec<FileId>, DatabaseError>)
        ensures
            r matches Ok(ids) && ids@ == self@.purged,
    {
        let mut ids: Vec<FileId> = Vec::new();
        let mut i: usize = 0;
        while i < self.rows.purged.len()
            invariant
                i <= self.rows.purged.len(),
                ids@ == self@.purged.take(i as int),
            decreases self.rows.purged.len() - i,
        {
            ids.push(self.rows.purged[i]);
            i = i + 1;
        }
        assert(self@.purged.take(i as int) =~= self@.purged);
        Ok(ids)
    }

    /// Removes every row of a file: its file row, its whole history, its cached previews and
    /// the tags applied to it. The purge itself stays.
    pub fn strip_purged_file(&mut self, file_id: FileId) -> (r: Result<(), DatabaseError>)
        requires
            old(self).wf(),
        ensures
            final(self).wf(),
            r is Ok,
            final(self)@ == old(self)@.stripped(file_id),
    {
        self.strip_files(file_id);
        self.strip_versions(file_id);
        self.strip_entries(file_id);
        self.delete_previews_for(file_id);
        Ok(())
    }

    fn strip_files(&mut self, file_id: FileId)
        requires
            old(self).wf(),
        ensures
            final(self).wf(),
            final(self)@ == (CatalogView {
                files: old(self)@.files.filter(|row: FileRowView| row.id != file_id),
                ..old(self)@
            }),
    {
        let ghost keep = |row: FileRowView| row.id != file_id;
        let ghost before = self@.files;
        let mut i: usize = 0;
        while i < self.rows.files.len()
            invariant
                i <= self.rows.files.len(),
                keep == (|row: FileRowView| row.id != file_id),
                self@ == (CatalogView { files: self@.files, ..old(self)@ }),
                self@.files.filter(keep) == before.filter(keep),
                forall|j: int| 0 <= j < i ==> keep(#[trigger] self@.files[j]),
            decreases self.rows.files.len() - i,
        {
            if self.rows.files[i].id == file_id {
                let ghost rows = self@.files;
                self.rows.files.remove(i);
                proof {
                    assert(self@.files =~= rows.remove(i as int));
                    lemma_filter_remove(rows, i as int, keep);
                }
            } else {
                i = i + 1;
            }
        }
        proof {
            lemma_filter_all(self@.files, keep);
            let apart = |a: FileRowView, b: FileRowView| a.id != b.id;
            lemma_filter_pairs(before, keep, apart);
            assert forall|i: int, j: int|
                0 <= i < self@.files.len() && 0 <= j < self@.files.len() && i != j implies (
            #[trigger] self@.files[i]).id != (#[trigger] self@.files[j]).id by {
                if i < j {
                    assert(apart(self@.files[i], self@.files[j]));
                } else {
                    assert(apart(self@.files[j], self@.files[i]));
                }
            }
        }
    }

    fn strip_versions(&mut self, file_id: FileId)
        requires
            old(self).wf(),
        ensures
            final(self).wf(),
            final(self)@ == (CatalogView {
                versions: old(self)@.versions.filter(
                    |row: FileVersionView| row.file_id != file_id,
                ),
                ..old(self)@
            }),
    {
        let ghost keep = |row: FileVersionView| row.file_id != file_id;
        let ghost before = self@.versions;
        let mut i: usize = 0;
        while i < self.rows.versions.len()
            invariant
                i <= self.rows.versions.len(),
                keep == (|row: FileVersionView| row.file_id != file_id),
                self@ == (CatalogView { versions: self@.versions, ..old(self)@ }),
                self@.versions.filter(keep) == before.filter(keep),
                forall|j: int| 0 <= j < i ==> keep(#[trigger] self@.versions[j]),
            decreases self.rows.versions.len() - i,
        {
            if self.rows.versions[i].file_id == file_id {
                let ghost rows = self@.versions;
                self.rows.versions.remove(i);
                proof {
                    assert(self@.versions =~= rows.remove(i as int));
                    lemma_filter_remove(rows, i as int, keep);
                }
            } else {
                i = i + 1;
            }
        }
        proof {
            lemma_filter_all(self@.versions, keep);
            let ordered = |a: FileVersionView, b: FileVersionView|
                a.file_id == b.file_id ==> a.version_number < b.version_number;
            assert forall|i: int, j: int| 0 <= i < j < before.len() implies ordered(
                #[trigger] before[i],
                #[trigger] before[j],
            ) by {}
            lemma_filter_pairs(before, keep, ordered);
            assert forall|i: int, j: int|
                0 <= i < j < self@.versions.len() && (#[trigger] self@.versions[i]).file_id == (
                #[trigger] self@.versions[j]).file_id implies self@.versions[i].version_number
                < self@.versions[j].version_number by {
                assert(ordered(self@.versions[i], self@.versions[j]));
            }
        }
    }

    fn strip_entries(&mut self, file_id: FileId)
        requires
            old(self).wf(),
        ensures
            final(self).wf(),
            final(self)@ == (CatalogView {
                entries: old(self)@.entries.filter(
                    |row: EntryView| !tags_this_file(row, file_id),
                ),
                ..old(self)@
            }),
    {
        let target = file_id.to_string();
        let ghost keep = |row: EntryView| !tags_this_file(row, file_id);
        let ghost before = self@.entries;
        let mut i: usize = 0;
        while i < self.rows.entries.len()
            invariant
                i <= self.rows.entries.len(),
                target@ == id_text(file_id.value),
                keep == (|row: EntryView| !tags_this_file(row, file_id)),
                self@ == (CatalogView { entries: self@.entries, ..old(self)@ }),
                self@.entries.filter(keep) == before.filter(keep),
                forall|j: int| 0 <= j < i ==> keep(#[trigger] self@.entries[j]),
            decreases self.rows.entries.len() - i,
        {
            if matches!(self.rows.entries[i].kind, RelationshipKind::File)
                && self.rows.entries[i].target_id == target {
                let ghost rows = self@.entries;
                self.rows.entries.remove(i);
                proof {
                    assert(self@.entries =~= rows.remove(i as int));
                    lemma_filter_remove(rows, i as int, keep);
                }
            } else {
                i = i + 1;
            }
        }
        proof {
            lemma_filter_all(self@.entries, keep);
            let apart = |a: EntryView, b: EntryView| !same_relationship(a, b);
            lemma_filter_pairs(before, keep, apart);
            assert forall|i: int, j: int|
                0 <= i < self@.entries.len() && 0 <= j < self@.entries.len() && i != j implies
                !same_relationship(#[trigger] self@.entries[i], #[trigger] self@.entries[j]) by {
                if i < j {
                    assert(apart(self@.entries[i], self@.entries[j]));
                } else {
                    assert(apart(self@.entries[j], self@.entries[i]));
                }
            }
        }
    }
}

/// Purges merge by union: in whatever order two ids are purged, the same ids are purged.
pub proof fn law_purges_commute(catalog: CatalogView, a: FileId, b: FileId, id: FileId)
    ensures
        catalog.with_purge(a).with_purge(b).is_purged(id) == (catalog.is_purged(id) || id == a
            || id == b),
        catalog.with_purge(a).with_purge(b).is_purged(id) == catalog.with_purge(b).with_purge(
            a,
        ).is_purged(id),
{
    lemma_purge(catalog, a, id);
    lemma_purge(catalog.with_purge(a), b, id);
    lemma_purge(catalog, b, id);
    lemma_purge(catalog.with_purge(b), a, id);
}

proof fn lemma_purge(catalog: CatalogView, a: FileId, id: FileId)
    ensures
        catalog.with_purge(a).is_purged(id) == (catalog.is_purged(id) || id == a),
{
    if !catalog.is_purged(a) {
        let purged = catalog.purged.push(a);
        assert(purged[purged.len() - 1] == a);
        if catalog.is_purged(id) {
            let k = choose|k: int| 0 <= k < catalog.purged.len() && catalog.purged[k] == id;
            assert(purged[k] == id);
        }
    }
}

/// Purging an id again changes nothing.
pub proof fn law_purge_is_idempotent(catalog: CatalogView, a: FileId)
    ensures
        catalog.with_purge(a).with_purge(a) == catalog.with_purge(a),
{
    lemma_purge(catalog, a, a);
}

/// After a file is stripped nothing in the catalog speaks of it, and its purge stands.
pub proof fn law_strip_leaves_only_the_purge(catalog: CatalogView, file_id: FileId, tag: u128)
    ensures
        !catalog.stripped(file_id).has_file(file_id),
        catalog.stripped(file_id).versions_of(file_id).len() == 0,
        catalog.stripped(file_id).latest_version(file_id) is None,
        !catalog.stripped(file_id).direct_tag(file_id.value, tag),
        forall|content_hash: Seq<char>| #[trigger]
            catalog.stripped(file_id).cached_preview(file_id, content_hash) is None,
        forall|id: FileId| #[trigger]
            catalog.stripped(file_id).is_purged(id) == catalog.is_purged(id),
{
    let after = catalog.stripped(file_id);
    let files = |row: FileRowView| row.id != file_id;
    assert forall|i: int| 0 <= i < after.files.len() implies (#[trigger] after.files[i]).id
        != file_id by {
        lemma_filter_member(catalog.files, files, i);
    }
    let versions = |row: FileVersionView| row.file_id != file_id;
    let of_file = |row: FileVersionView| row.file_id == file_id;
    assert forall|i: int| 0 <= i < after.versions.len() implies !of_file(
        #[trigger] after.versions[i],
    ) by {
        lemma_filter_member(catalog.versions, versions, i);
    }
    lemma_filter_none(after.versions, of_file);
    let entries = |row: EntryView| !tags_this_file(row, file_id);
    assert forall|i: int| 0 <= i < after.entries.len() implies !crate::store::entries::gives_tag(
        #[trigger] after.entries[i],
        file_id.value,
        tag,
    ) by {
        lemma_filter_member(catalog.entries, entries, i);
    }
    assert forall|content_hash: Seq<char>| #[trigger]
        after.cached_preview(file_id, content_hash) is None by {
        crate::store::previews::law_dropped_previews_are_gone(
            CatalogView { previews: catalog.previews, ..after },
            file_id,
            content_hash,
        );
        assert(after == (CatalogView { previews: catalog.previews, ..after }).without_previews(
            file_id,
        ));
    }
}

/// Stripping one file leaves the rows of every other file.
pub proof fn law_strip_touches_one_file(catalog: CatalogView, file_id: FileId, other: FileId)
    requires
        file_id != other,
    ensures
        catalog.stripped(file_id).has_file(other) == catalog.has_file(other),
        catalog.stripped(file_id).versions_of(other) == catalog.versions_of(other),
{
    let keep = |row: FileRowView| row.id != file_id;
    let after = catalog.stripped(file_id);
    if catalog.has_file(other) {
        let i = choose|i: int|
            0 <= i < catalog.files.len() && (#[trigger] catalog.files[i]).id == other;
        crate::seqs::lemma_filter_keeps(catalog.files, keep, i);
        let k = choose|k: int| 0 <= k < after.files.len() && after.files[k] == catalog.files[i];
        assert(after.files[k].id == other);
    }
    if after.has_file(other) {
        let k = choose|k: int|
            0 <= k < after.files.len() && (#[trigger] after.files[k]).id == other;
        lemma_filter_member(catalog.files, keep, k);
        let i = choose|i: int| 0 <= i < catalog.files.len() && catalog.files[i] == after.files[k];
        assert(catalog.files[i].id == other);
    }
    let keep_versions = |row: FileVersionView| row.file_id != file_id;
    let of_other = |row: FileVersionView| row.file_id == other;
    crate::seqs::lemma_filter_filter(catalog.versions, keep_versions, of_other);
    crate::seqs::lemma_filter_agree(
        catalog.versions,
        |row: FileVersionView| keep_versions(row) && of_other(row),
        of_other,
    );
}

} // verus!
