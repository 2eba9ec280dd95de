//! The version log: an append-only record of content hashes per file.
//!
//! The row of a file with the highest version number is its current content.

use vstd::prelude::*;

use crate::clock::now_millis;
use crate::ids::FileId;
use crate::seqs::{lemma_filter_last, lemma_filter_map_take, lemma_filter_none};
use crate::state::DeletedRule;
use crate::store::types::{
    admits, rule_admits, versions_ordered, CatalogView, DatabaseError, FileRowView, FileVersion,
    FileVersionView,
};
use crate::store::CatalogStore;
use crate::text::{
    all_hex, all_hex_chars, ascii_lower_chars, ascii_lowercase, chars_of, starts_with_chars,
};

verus! {

/// A file's version history as `(version_number, content_hash, size)`, oldest first.
pub type VersionHistory = Vec<(i64, String, i64)>;

/// The model of a version history.
pub open spec fn history_view(history: Seq<(i64, String, i64)>) -> Seq<(i64, Seq<char>, i64)> {
    history.map_values(|version: (i64, String, i64)| (version.0, version.1@, version.2))
}

impl CatalogView {
    /// The recorded versions of a file, oldest first.
    pub open spec fn versions_of(self, file_id: FileId) -> Seq<FileVersionView> {
        self.versions.filter(|version: FileVersionView| version.file_id == file_id)
    }

    /// The most recent recorded version of a file.
    pub open spec fn latest_version(self, file_id: FileId) -> Option<FileVersionView> {
        let versions = self.versions_of(file_id);
        if versions.len() == 0 {
            None
        } else {
            Some(versions.last())
        }
    }

    /// When a file's most recent version was recorded; 0 if it has none.
    pub open spec fn latest_observed_at(self, file_id: FileId) -> i64 {
        match self.latest_version(file_id) {
            Some(version) => version.observed_at,
            None => 0,
        }
    }

    /// The number that the next version of a file gets.
    pub open spec fn next_version_number(self, file_id: FileId) -> int {
        match self.latest_version(file_id) {
            Some(version) => version.version_number + 1,
            None => 1,
        }
    }

    /// The history of a file as a peer is told it.
    pub open spec fn history_of(self, file_id: FileId) -> Seq<(i64, Seq<char>, i64)> {
        self.versions_of(file_id).map_values(
            |version: FileVersionView|
                (version.version_number, version.content_hash, version.size),
        )
    }

    /// The catalog with one more version of a file; its cached previews are dropped.
    pub open spec fn with_version(
        self,
        file_id: FileId,
        content_hash: Seq<char>,
        origin: Seq<char>,
        size: i64,
        observed_at: i64,
    ) -> CatalogView {
        let version = FileVersionView {
            file_id,
            content_hash,
            observed_at,
            version_number: self.next_version_number(file_id) as i64,
            origin,
            size,
        };
        CatalogView { versions: self.versions.push(version), ..self }.without_previews(file_id)
    }

    /// The file's latest content hash starts with `prefix`, read in either ASCII case.
    pub open spec fn hash_prefix_matches(self, file_id: FileId, prefix: Seq<char>) -> bool {
        self.latest_version(file_id) matches Some(version) && ascii_lowercase(prefix).is_prefix_of(
            ascii_lowercase(version.content_hash),
        )
    }
}

/// The latest version has the highest number among the versions of its file.
pub proof fn lemma_latest_is_highest(catalog: CatalogView, file_id: FileId, i: int)
    requires
        catalog.wf(),
        0 <= i < catalog.versions.len(),
        catalog.versions[i].file_id == file_id,
    ensures
        catalog.latest_version(file_id) is Some,
        catalog.versions[i].version_number <= catalog.latest_version(
            file_id,
        )->Some_0.version_number,
{
    let p = |version: FileVersionView| version.file_id == file_id;
    let last = last_index(catalog.versions, file_id);
    lemma_last_index(catalog.versions, file_id, i);
    lemma_filter_last(catalog.versions, last, p);
}

/// The place of a file's last row among the versions.
spec fn last_index(versions: Seq<FileVersionView>, file_id: FileId) -> int
    decreases versions.len(),
{
    if versions.len() == 0 || versions.last().file_id == file_id {
        versions.len() - 1
    } else {
        last_index(versions.drop_last(), file_id)
    }
}

proof fn lemma_last_index(versions: Seq<FileVersionView>, file_id: FileId, i: int)
    requires
        0 <= i < versions.len(),
        versions[i].file_id == file_id,
    ensures
        i <= last_index(versions, file_id) < versions.len(),
        versions[last_index(versions, file_id)].file_id == file_id,
        forall|j: int|
            last_index(versions, file_id) < j < versions.len() ==> (
            #[trigger] versions[j]).file_id != file_id,
    decreases versions.len(),
{
    if versions.last().file_id != file_id {
        lemma_last_index(versions.drop_last(), file_id, i);
        assert forall|j: int|
            last_index(versions, file_id) < j < versions.len() implies (
            #[trigger] versions[j]).file_id != file_id by {
            if j < versions.len() - 1 {
                assert(versions[j] == versions.drop_last()[j]);
            }
        }
    }
}

impl CatalogStore {
    /// The place of a file's latest version in the log.
    pub(super) fn latest_index(&self, file_id: FileId) -> (r: Option<usize>)
        ensures
            match r {
                Some(i) => i < self@.versions.len() && self@.latest_version(file_id) == Some(
                    self@.versions[i as int],
                ) && self@.versions[i as int].file_id == file_id
                    && self@.versions[i as int] == self.rows.versions@[i as int]@,
                None => self@.latest_version(file_id) is None && forall|j: int|
                    0 <= j < self@.versions.len() ==> (#[trigger] self@.versions[j]).file_id
                        != file_id,
            },
    {
        let ghost p = |version: FileVersionView| version.file_id == file_id;
        let mut i: usize = self.rows.versions.len();
        while i > 0
            invariant
                i <= self.rows.versions.len(),
                p == (|version: FileVersionView| version.file_id == file_id),
                forall|j: int|
                    i <= j < self@.versions.len() ==> (#[trigger] self@.versions[j]).file_id
                        != file_id,
            decreases i,
        {
            i = i - 1;
            if self.rows.versions[i].file_id == file_id {
                proof {
                    assert(self@.versions[i as int] == self.rows.versions@[i as int]@);
                    lemma_filter_last(self@.versions, i as int, p);
                }
                return Some(i);
            }
            assert(self@.versions[i as int] == self.rows.versions@[i as int]@);
        }
        proof {
            lemma_filter_none(self@.versions, p);
        }
        None
    }

    /// Appends a version of a file at a given time and returns its number: one above the
    /// file's highest so far, starting at 1. The file's cached previews are dropped.
    pub fn record_version_at(
        &mut self,
        file_id: FileId,
        content_hash: &str,
        origin: &str,
        size: i64,
        observed_at: i64,
    ) -> (r: Result<i64, DatabaseError>)
        requires
            old(self).wf(),
            old(self)@.next_version_number(file_id) <= i64::MAX,
        ensures
            final(self).wf(),
            r matches Ok(number) && number == old(self)@.next_version_number(file_id),
            final(self)@ == old(self)@.with_version(
                file_id,
                content_hash@,
                origin@,
                size,
                observed_at,
            ),
    {
        let latest = self.latest_index(file_id);
        let version_number: i64 = match latest {
            Some(i) => self.rows.versions[i].version_number + 1,
            None => 1,
        };
        proof {
            assert forall|i: int|
                0 <= i < self@.versions.len() && (#[trigger] self@.versions[i]).file_id
                    == file_id implies self@.versions[i].version_number < version_number by {
                lemma_latest_is_highest(self@, file_id, i);
            }
        }
        self.rows.versions.push(
            FileVersion {
                file_id,
                content_hash: content_hash.to_owned(),
                observed_at,
                version_number,
                origin: origin.to_owned(),
                size,
            },
        );
        proof {
            let version = FileVersionView {
                file_id,
                content_hash: content_hash@,
                observed_at,
                version_number,
                origin: origin@,
                size,
            };
            assert(self@.versions =~= old(self)@.versions.push(version));
            assert(versions_ordered(self@.versions));
        }
        self.delete_previews_for(file_id);
        Ok(version_number)
    }

    /// Appends a version of a file as of now. See [`CatalogStore::record_version_at`].
    pub fn record_version(
        &mut self,
        file_id: FileId,
        content_hash: &str,
        origin: &str,
        size: i64,
    ) -> (r: Result<i64, DatabaseError>)
        requires
            old(self).wf(),
            old(self)@.next_version_number(file_id) <= i64::MAX,
        ensures
            final(self).wf(),
            r matches Ok(number) && number == old(self)@.next_version_number(file_id),
            exists|observed_at: i64|
                final(self)@ == #[trigger] old(self)@.with_version(
                    file_id,
                    content_hash@,
                    origin@,
                    size,
                    observed_at,
                ),
    {
        let observed_at: i64 = now_millis();
        self.record_version_at(file_id, content_hash, origin, size, observed_at)
    }

    /// The most recent recorded version of a file.
    pub fn latest_version(&self, file_id: FileId) -> (r: Result<Option<FileVersion>, DatabaseError>)
        ensures
            r matches Ok(latest) && match latest {
                Some(version) => self@.latest_version(file_id) == Some(version@),
                None => self@.latest_version(file_id) is None,
            },
    {
        match self.latest_index(file_id) {
            Some(i) => Ok(Some(self.rows.versions[i].clone())),
            None => Ok(None),
        }
    }

    /// The full version history of a file, oldest first.
    pub fn version_history(&self, file_id: FileId) -> (r: Result<VersionHistory, DatabaseError>)
        ensures
            r matches Ok(history) && history_view(history@) == self@.history_of(file_id),
    {
        let ghost p = |version: FileVersionView| version.file_id == file_id;
        let ghost f = |version: FileVersionView|
            (version.version_number, version.content_hash, version.size);
        let mut history: VersionHistory = Vec::new();
        let mut i: usize = 0;
        assert(self@.versions.take(0).filter(p).map_values(f) =~= history_view(history@)) by {
            lemma_filter_none(self@.versions.take(0), p);
        }
        while i < self.rows.versions.len()
            invariant
                i <= self.rows.versions.len(),
                p == (|version: FileVersionView| version.file_id == file_id),
                f == (|version: FileVersionView|
                    (version.version_number, version.content_hash, version.size)),
                history_view(history@) == self@.versions.take(i as int).filter(p).map_values(f),
            decreases self.rows.versions.len() - i,
        {
            let version = &self.rows.versions[i];
            proof {
                assert(self@.versions[i as int] == version@);
                lemma_filter_map_take(self@.versions, i as int, p, f);
            }
            if version.file_id == file_id {
                let ghost before = history@;
                history.push((version.version_number, version.content_hash.clone(), version.size));
                assert(history_view(history@) =~= history_view(before).push(f(version@)));
            }
            i = i + 1;
        }
        assert(self@.versions.take(i as int) =~= self@.versions);
        Ok(history)
    }

    /// The latest content hash of every file that has a version, one pair per file.
    pub fn latest_content_hashes(&self) -> (r: Result<Vec<(FileId, String)>, DatabaseError>)
        ensures
            r is Ok,
            forall|k: int|
                0 <= k < r->Ok_0@.len() ==> (self@.latest_version(
                    (#[trigger] r->Ok_0@[k]).0,
                ) matches Some(version) && version.content_hash == r->Ok_0@[k].1@),
            forall|file_id: FileId|
                #![trigger self@.latest_version(file_id)]
                self@.latest_version(file_id) is Some ==> exists|k: int|
                    0 <= k < r->Ok_0@.len() && (#[trigger] r->Ok_0@[k]).0 == file_id,
            forall|k: int, m: int|
                0 <= k < m < r->Ok_0@.len() ==> (#[trigger] r->Ok_0@[k]).0 != (
                #[trigger] r->Ok_0@[m]).0,
    {
        let mut hashes: Vec<(FileId, String)> = Vec::new();
        let ghost mut places: Seq<int> = Seq::empty();
        let mut i: usize = 0;
        while i < self.rows.versions.len()
            invariant
                i <= self.rows.versions.len(),
                places.len() == hashes@.len(),
                forall|k: int|
                    0 <= k < places.len() ==> 0 <= #[trigger] places[k] < i && is_last_of_file(
                        self@.versions,
                        places[k],
                    ) && self@.versions[places[k]].file_id == hashes@[k].0
                        && self@.versions[places[k]].content_hash == hashes@[k].1@,
                forall|k: int, m: int| 0 <= k < m < places.len() ==> places[k] < places[m],
                forall|j: int|
                    0 <= j < i && is_last_of_file(self@.versions, j) ==> #[trigger] places.contains(
                        j,
                    ),
            decreases self.rows.versions.len() - i,
        {
            let file_id = self.rows.versions[i].file_id;
            assert(self@.versions[i as int] == self.rows.versions@[i as int]@);
            let mut last = true;
            let mut j: usize = i + 1;
            while j < self.rows.versions.len()
                invariant
                    i < j <= self.rows.versions.len(),
                    last == forall|k: int|
                        i < k < j ==> (#[trigger] self@.versions[k]).file_id != file_id,
                decreases self.rows.versions.len() - j,
            {
                assert(self@.versions[j as int] == self.rows.versions@[j as int]@);
                if self.rows.versions[j].file_id == file_id {
                    last = false;
                }
                j = j + 1;
            }
            assert(last == is_last_of_file(self@.versions, i as int));
            let ghost before = places;
            if last {
                hashes.push((file_id, self.rows.versions[i].content_hash.clone()));
                proof {
                    places = places.push(i as int);
                    assert(places[places.len() - 1] == i);
                }
            }
            assert forall|j: int| 0 <= j < i + 1 && is_last_of_file(self@.versions, j) implies
                #[trigger] places.contains(j) by {
                if j < i {
                    assert(before.contains(j));
                    let k = choose|k: int| 0 <= k < before.len() && before[k] == j;
                    assert(places[k] == j);
                }
            }
            i = i + 1;
        }
        proof {
            assert forall|k: int| 0 <= k < hashes@.len() implies (self@.latest_version(
                (#[trigger] hashes@[k]).0,
            ) matches Some(version) && version.content_hash == hashes@[k].1@) by {
                let file_id = hashes@[k].0;
                let p = |version: FileVersionView| version.file_id == file_id;
                lemma_filter_last(self@.versions, places[k], p);
            }
            assert forall|file_id: FileId|
                #![trigger self@.latest_version(file_id)]
                self@.latest_version(file_id) is Some implies exists|k: int|
                0 <= k < hashes@.len() && (#[trigger] hashes@[k]).0 == file_id by {
                let p = |version: FileVersionView| version.file_id == file_id;
                let versions = self@.versions_of(file_id);
                crate::seqs::lemma_filter_member(self@.versions, p, versions.len() - 1);
                let w = choose|w: int|
                    0 <= w < self@.versions.len() && self@.versions[w] == versions[versions.len()
                        - 1];
                lemma_last_index(self@.versions, file_id, w);
                let j = last_index(self@.versions, file_id);
                assert(is_last_of_file(self@.versions, j));
                assert(places.contains(j));
                let k = choose|k: int| 0 <= k < places.len() && places[k] == j;
                assert(hashes@[k].0 == file_id);
            }
            assert forall|k: int, m: int| 0 <= k < m < hashes@.len() implies (
            #[trigger] hashes@[k]).0 != (#[trigger] hashes@[m]).0 by {
                assert(places[k] < places[m]);
            }
        }
        Ok(hashes)
    }

    /// Every file whose latest content hash starts with `text` read as a hex prefix in either
    /// case. A text that is no hex prefix matches nothing; only the latest version takes part.
    pub fn file_ids_matching_content_hash_prefix(
        &self,
        text: &str,
        deleted_rule: DeletedRule,
    ) -> (r: Result<Vec<FileId>, DatabaseError>)
        ensures
            r matches Ok(ids) && ids@ == if text@.len() == 0 || !all_hex(text@) {
                Seq::<FileId>::empty()
            } else {
                self@.files.filter(
                    |row: FileRowView|
                        rule_admits(deleted_rule, row.deleted) && self@.hash_prefix_matches(
                            row.id,
                            text@,
                        ),
                ).map_values(|row: FileRowView| row.id)
            },
    {
        let chars = chars_of(text);
        let mut ids: Vec<FileId> = Vec::new();
        if chars.len() == 0 || !all_hex_chars(&chars) {
            assert(ids@ =~= Seq::<FileId>::empty());
            return Ok(ids);
        }
        let prefix = ascii_lower_chars(&chars);
        let ghost p = |row: FileRowView|
            rule_admits(deleted_rule, row.deleted) && self@.hash_prefix_matches(row.id, text@);
        let ghost f = |row: FileRowView| row.id;
        let mut i: usize = 0;
        assert(ids@ =~= self@.files.take(0).filter(p).map_values(f)) by {
            lemma_filter_none(self@.files.take(0), p);
        }
        while i < self.rows.files.len()
            invariant
                i <= self.rows.files.len(),
                prefix@ == ascii_lowercase(text@),
                p == (|row: FileRowView|
                    rule_admits(deleted_rule, row.deleted) && self@.hash_prefix_matches(
                        row.id,
                        text@,
                    )),
                f == (|row: FileRowView| row.id),
                ids@ == self@.files.take(i as int).filter(p).map_values(f),
            decreases self.rows.files.len() - i,
        {
            let row = &self.rows.files[i];
            proof {
                assert(self@.files[i as int] == row@);
                lemma_filter_map_take(self@.files, i as int, p, f);
            }
            if admits(deleted_rule, row.deleted) {
                match self.latest_index(row.id) {
                    Some(k) => {
                        let hash = ascii_lower_chars(
                            &chars_of(self.rows.versions[k].content_hash.as_str()),
                        );
                        if starts_with_chars(&hash, &prefix) {
                            ids.push(row.id);
                        }
                    },
                    None => {},
                }
            }
            i = i + 1;
        }
        assert(self@.files.take(i as int) =~= self@.files);
        Ok(ids)
    }
}

/// No later row belongs to the same file.
spec fn is_last_of_file(versions: Seq<FileVersionView>, i: int) -> bool {
    0 <= i < versions.len() && forall|j: int|
        i < j < versions.len() ==> (#[trigger] versions[j]).file_id != versions[i].file_id
}

} // verus!
