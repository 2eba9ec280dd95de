//! The tag graph: one row per relationship, a tag applied to a file or to a tag.
//!
//! Each row has its own last-writer-wins clock and tombstone. Untagging flips the tombstone
//! and keeps the row, so that "absent" can win against a peer's stale "present". Reads pass
//! over a target that is not the written form of an id.

use vstd::prelude::*;

use crate::ids::{id_text, parsed_id, FileId, TagId};
use crate::state::{EntryView, RelationshipKind, RelationshipManifestEntry, SubtagRule};
use crate::store::graph::{
    ascending, holds, insert_sorted, leads_to, listed_edge, reach, reached, reaches,
};
use crate::store::types::{entries_distinct, same_relationship, CatalogView, DatabaseError};
use crate::store::CatalogStore;

verus! {

/// A live relationship that makes tag `child` a subtag of tag `parent`.
pub open spec fn gives_child(entry: EntryView, parent: u128, child: u128) -> bool {
    !entry.deleted && entry.kind is Tag && entry.tag_id.value == parent && parsed_id(
        entry.target_id,
    ) == Some(child)
}

/// A live relationship, looked up by its written target, that puts tag `child` under `parent`.
pub open spec fn gives_parent(entry: EntryView, child: u128, parent: u128) -> bool {
    !entry.deleted && entry.kind is Tag && entry.target_id == id_text(child) && entry.tag_id.value
        == parent
}

/// A live relationship that applies a tag to a file.
pub open spec fn gives_file(entry: EntryView, tag: u128, file: u128) -> bool {
    !entry.deleted && entry.kind is File && entry.tag_id.value == tag && parsed_id(entry.target_id)
        == Some(file)
}

/// A live relationship, looked up by its written target, that applies a tag to a file.
pub open spec fn gives_tag(entry: EntryView, file: u128, tag: u128) -> bool {
    !entry.deleted && entry.kind is File && entry.target_id == id_text(file) && entry.tag_id.value
        == tag
}

/// A row after an untag: tombstoned and stamped where the untag is newer.
pub open spec fn untagged_row(row: EntryView, key: EntryView, modified_at: i64) -> EntryView {
    if same_relationship(row, key) && modified_at > row.modified_at {
        EntryView { deleted: true, modified_at, ..row }
    } else {
        row
    }
}

/// A row after an incoming relationship: its clock and state are taken over where newer.
pub open spec fn merged_row(row: EntryView, incoming: EntryView) -> EntryView {
    if same_relationship(row, incoming) && incoming.modified_at > row.modified_at {
        EntryView { deleted: incoming.deleted, modified_at: incoming.modified_at, ..row }
    } else {
        row
    }
}

impl CatalogView {
    /// A row of this relationship exists, tombstoned or not.
    pub open spec fn has_relationship(self, key: EntryView) -> bool {
        exists|i: int|
            0 <= i < self.entries.len() && same_relationship(#[trigger] self.entries[i], key)
    }

    /// The row of a relationship.
    pub open spec fn relationship(self, key: EntryView) -> EntryView
        recommends
            self.has_relationship(key),
    {
        self.entries[choose|i: int|
            0 <= i < self.entries.len() && same_relationship(#[trigger] self.entries[i], key)]
    }

    /// The catalog after an incoming relationship, newest wins; a new one is added.
    pub open spec fn with_relationship(self, incoming: EntryView) -> CatalogView {
        if self.has_relationship(incoming) {
            CatalogView {
                entries: self.entries.map_values(|row: EntryView| merged_row(row, incoming)),
                ..self
            }
        } else {
            CatalogView { entries: self.entries.push(incoming), ..self }
        }
    }

    /// The catalog after an untag; a relationship that was never recorded stays unrecorded.
    pub open spec fn without_relationship(self, key: EntryView, modified_at: i64) -> CatalogView {
        CatalogView {
            entries: self.entries.map_values(
                |row: EntryView| untagged_row(row, key, modified_at),
            ),
            ..self
        }
    }

    /// A tag's own row is tombstoned. A tag whose definition is unknown is not.
    pub open spec fn tag_tombstoned(self, tag: u128) -> bool {
        exists|i: int|
            0 <= i < self.tags.len() && (#[trigger] self.tags[i]).id.value == tag
                && self.tags[i].deleted
    }

    /// The subtag relation, from parent to child.
    pub open spec fn child_edge(self) -> spec_fn(u128, u128) -> bool {
        |parent: u128, child: u128|
            exists|i: int|
                0 <= i < self.entries.len() && gives_child(
                    #[trigger] self.entries[i],
                    parent,
                    child,
                )
    }

    /// The subtag relation without tombstoned children.
    pub open spec fn live_child_edge(self) -> spec_fn(u128, u128) -> bool {
        |parent: u128, child: u128|
            self.child_edge()(parent, child) && !self.tag_tombstoned(child)
    }

    /// The subtag relation from child to parent, without tombstoned parents.
    pub open spec fn live_parent_edge(self) -> spec_fn(u128, u128) -> bool {
        |child: u128, parent: u128|
            !self.tag_tombstoned(parent) && exists|i: int|
                0 <= i < self.entries.len() && gives_parent(
                    #[trigger] self.entries[i],
                    child,
                    parent,
                )
    }

    /// A tag is applied to a file by a relationship of its own.
    pub open spec fn tags_file(self, tag: u128, file: u128) -> bool {
        exists|i: int|
            0 <= i < self.entries.len() && gives_file(#[trigger] self.entries[i], tag, file)
    }

    /// A tag that is not tombstoned is applied to a file directly.
    pub open spec fn direct_tag(self, file: u128, tag: u128) -> bool {
        !self.tag_tombstoned(tag) && exists|i: int|
            0 <= i < self.entries.len() && gives_tag(#[trigger] self.entries[i], file, tag)
    }

    /// A file carries a tag: directly or, under `Include`, through a subtag of any depth.
    pub open spec fn carries(self, tag: u128, rule: SubtagRule, file: u128) -> bool {
        match rule {
            SubtagRule::Exclude => self.tags_file(tag, file),
            SubtagRule::Include => exists|subtag: u128| #[trigger]
                reaches(self.child_edge(), tag, subtag) && self.tags_file(subtag, file),
        }
    }

    /// A tag stands under another: as its child or, under `Include`, at any depth.
    pub open spec fn is_subtag(self, tag: u128, rule: SubtagRule, subtag: u128) -> bool {
        match rule {
            SubtagRule::Exclude => self.live_child_edge()(tag, subtag),
            SubtagRule::Include => leads_to(self.live_child_edge(), tag, subtag),
        }
    }

    /// A tag stands above another: as its parent or, under `Include`, at any height.
    pub open spec fn is_supertag(self, subtag: u128, rule: SubtagRule, tag: u128) -> bool {
        match rule {
            SubtagRule::Exclude => self.live_parent_edge()(subtag, tag),
            SubtagRule::Include => leads_to(self.live_parent_edge(), subtag, tag),
        }
    }

    /// A tag is shown on a file: applied directly or, under `Include`, above one that is.
    pub open spec fn shows_tag(self, file: u128, rule: SubtagRule, tag: u128) -> bool {
        self.direct_tag(file, tag) || (rule is Include && exists|direct: u128| #[trigger]
            self.direct_tag(file, direct) && leads_to(self.live_parent_edge(), direct, tag))
    }
}

/// A row of the table is the row of its relationship.
pub proof fn lemma_relationship_row(catalog: CatalogView, key: EntryView, i: int)
    requires
        entries_distinct(catalog.entries),
        0 <= i < catalog.entries.len(),
        same_relationship(catalog.entries[i], key),
    ensures
        catalog.has_relationship(key),
        catalog.relationship(key) == catalog.entries[i],
{
    let k = choose|k: int|
        0 <= k < catalog.entries.len() && same_relationship(#[trigger] catalog.entries[k], key);
    if k != i {
        assert(!same_relationship(catalog.entries[k], catalog.entries[i]));
    }
}

proof fn lemma_map_keeps_keys(rows: Seq<EntryView>, f: spec_fn(EntryView) -> EntryView)
    requires
        entries_distinct(rows),
        forall|row: EntryView| same_relationship(#[trigger] f(row), row),
    ensures
        entries_distinct(rows.map_values(f)),
{
    let mapped = rows.map_values(f);
    assert forall|i: int, j: int|
        0 <= i < mapped.len() && 0 <= j < mapped.len() && i != j implies !same_relationship(
        #[trigger] mapped[i],
        #[trigger] mapped[j],
    ) by {
        assert(same_relationship(f(rows[i]), rows[i]));
        assert(same_relationship(f(rows[j]), rows[j]));
        assert(!same_relationship(rows[i], rows[j]));
    }
}

/// The file ids of some numbers.
fn file_ids(numbers: &Vec<u128>) -> (r: Vec<FileId>)
    ensures
        r@ == numbers@.map_values(|n: u128| FileId { value: n }),
{
    let mut r: Vec<FileId> = Vec::new();
    let mut i: usize = 0;
    while i < numbers.len()
        invariant
            i <= numbers.len(),
            r@.len() == i,
            forall|k: int| 0 <= k < i ==> r@[k] == (FileId { value: numbers@[k] }),
        decreases numbers.len() - i,
    {
        r.push(FileId { value: numbers[i] });
        i = i + 1;
    }
    assert(r@ =~= numbers@.map_values(|n: u128| FileId { value: n }));
    r
}

/// The tag ids of some numbers.
fn tag_ids(numbers: &Vec<u128>) -> (r: Vec<TagId>)
    ensures
        r@ == numbers@.map_values(|n: u128| TagId { value: n }),
{
    let mut r: Vec<TagId> = Vec::new();
    let mut i: usize = 0;
    while i < numbers.len()
        invariant
            i <= numbers.len(),
            r@.len() == i,
            forall|k: int| 0 <= k < i ==> r@[k] == (TagId { value: numbers@[k] }),
        decreases numbers.len() - i,
    {
        r.push(TagId { value: numbers[i] });
        i = i + 1;
    }
    assert(r@ =~= numbers@.map_values(|n: u128| TagId { value: n }));
    r
}

/// Some file ids in ascending order, each once, are exactly those of which `p` holds.
pub open spec fn lists_files(ids: Seq<FileId>, p: spec_fn(u128) -> bool) -> bool {
    &&& forall|i: int, j: int|
        0 <= i < j < ids.len() ==> (#[trigger] ids[i]).value < (#[trigger] ids[j]).value
    &&& forall|id: FileId| #[trigger] ids.contains(id) <==> p(id.value)
}

/// Some tag ids in ascending order, each once, are exactly those of which `p` holds.
pub open spec fn lists_tags(ids: Seq<TagId>, p: spec_fn(u128) -> bool) -> bool {
    &&& forall|i: int, j: int|
        0 <= i < j < ids.len() ==> (#[trigger] ids[i]).value < (#[trigger] ids[j]).value
    &&& forall|id: TagId| #[trigger] ids.contains(id) <==> p(id.value)
}

/// An ascending list of numbers written as file ids.
pub(super) fn listed_file_ids(
    numbers: &Vec<u128>,
    Ghost(p): Ghost<spec_fn(u128) -> bool>,
) -> (r: Vec<FileId>)
    requires
        ascending(numbers@),
        forall|n: u128| #[trigger] numbers@.contains(n) <==> p(n),
    ensures
        lists_files(r@, p),
{
    let r = file_ids(numbers);
    proof {
        assert forall|id: FileId| #[trigger] r@.contains(id) <==> p(id.value) by {
            if r@.contains(id) {
                let k = choose|k: int| 0 <= k < r@.len() && r@[k] == id;
                assert(numbers@[k] == id.value);
                assert(numbers@.contains(id.value));
            }
            if p(id.value) {
                assert(numbers@.contains(id.value));
                let k = choose|k: int| 0 <= k < numbers@.len() && numbers@[k] == id.value;
                assert(r@[k] == id);
            }
        }
    }
    r
}

/// An ascending list of numbers written as tag ids.
pub(super) fn listed_tag_ids(
    numbers: &Vec<u128>,
    Ghost(p): Ghost<spec_fn(u128) -> bool>,
) -> (r: Vec<TagId>)
    requires
        ascending(numbers@),
        forall|n: u128| #[trigger] numbers@.contains(n) <==> p(n),
    ensures
        lists_tags(r@, p),
{
    let r = tag_ids(numbers);
    proof {
        assert forall|id: TagId| #[trigger] r@.contains(id) <==> p(id.value) by {
            if r@.contains(id) {
                let k = choose|k: int| 0 <= k < r@.len() && r@[k] == id;
                assert(numbers@[k] == id.value);
                assert(numbers@.contains(id.value));
            }
            if p(id.value) {
                assert(numbers@.contains(id.value));
                let k = choose|k: int| 0 <= k < numbers@.len() && numbers@[k] == id.value;
                assert(r@[k] == id);
            }
        }
    }
    r
}

impl CatalogStore {
    /// The place of a relationship's row.
    fn entry_index(&self, tag_id: TagId, target_id: &String, kind: RelationshipKind) -> (r: Option<
        usize,
    >)
        ensures
            ({
                let key = EntryView {
                    tag_id,
                    target_id: target_id@,
                    kind,
                    modified_at: 0,
                    deleted: false,
                };
                match r {
                    Some(i) => i < self@.entries.len() && i < self.rows.entries@.len()
                        && same_relationship(self@.entries[i as int], key)
                        && self@.entries[i as int] == self.rows.entries@[i as int]@,
                    None => forall|j: int|
                        0 <= j < self@.entries.len() ==> !same_relationship(
                            #[trigger] self@.entries[j],
                            key,
                        ),
                }
            }),
    {
        let ghost key = EntryView {
            tag_id,
            target_id: target_id@,
            kind,
            modified_at: 0,
            deleted: false,
        };
        let mut i: usize = 0;
        while i < self.rows.entries.len()
            invariant
                i <= self.rows.entries.len(),
                key == (EntryView {
                    tag_id,
                    target_id: target_id@,
                    kind,
                    modified_at: 0,
                    deleted: false,
                }),
                forall|j: int|
                    0 <= j < i ==> !same_relationship(#[trigger] self@.entries[j], key),
            decreases self.rows.entries.len() - i,
        {
            assert(self@.entries[i as int] == self.rows.entries@[i as int]@);
            let row = &self.rows.entries[i];
            if row.tag_id == tag_id && row.kind == kind && row.target_id == *target_id {
                return Some(i);
            }
            i = i + 1;
        }
        None
    }

    /// Every relationship, tombstoned ones among them, as peers are told them.
    pub fn relationship_manifest_entries(&self) -> (r: Result<
        Vec<RelationshipManifestEntry>,
        DatabaseError,
    >)
        ensures
            r matches Ok(entries) && entries@.map_values(|e: RelationshipManifestEntry| e@)
                == self@.entries,
    {
        let mut entries: Vec<RelationshipManifestEntry> = Vec::new();
        let mut i: usize = 0;
        while i < self.rows.entries.len()
            invariant
                i <= self.rows.entries.len(),
                entries@.len() == i,
                forall|k: int| 0 <= k < i ==> entries@[k] == self.rows.entries@[k],
            decreases self.rows.entries.len() - i,
        {
            entries.push(self.rows.entries[i].clone());
            i = i + 1;
        }
        assert(entries@.map_values(|e: RelationshipManifestEntry| e@) =~= self@.entries);
        Ok(entries)
    }

    /// The clock of a relationship; `None` if it has no row.
    pub fn relationship_modified_at(
        &self,
        tag_id: TagId,
        target_id: &str,
        kind: RelationshipKind,
    ) -> (r: Result<Option<i64>, DatabaseError>)
        requires
            self.wf(),
        ensures
            ({
                let key = EntryView {
                    tag_id,
                    target_id: target_id@,
                    kind,
                    modified_at: 0,
                    deleted: false,
                };
                r == Ok::<Option<i64>, DatabaseError>(
                    if self@.has_relationship(key) {
                        Some(self@.relationship(key).modified_at)
                    } else {
                        None
                    },
                )
            }),
    {
        let target = target_id.to_owned();
        match self.entry_index(tag_id, &target, kind) {
            Some(i) => {
                proof {
                    let key = EntryView {
                        tag_id,
                        target_id: target_id@,
                        kind,
                        modified_at: 0,
                        deleted: false,
                    };
                    lemma_relationship_row(self@, key, i as int);
                }
                Ok(Some(self.rows.entries[i].modified_at))
            },
            None => Ok(None),
        }
    }

    /// Applies an incoming relationship: a newer one takes over clock and state, an older or
    /// equal one changes nothing, an unknown one is added.
    pub fn apply_relationship(&mut self, entry: &RelationshipManifestEntry) -> (r: Result<
        (),
        DatabaseError,
    >)
        requires
            old(self).wf(),
        ensures
            final(self).wf(),
            r is Ok,
            final(self)@ == old(self)@.with_relationship(entry@),
    {
        let ghost f = |row: EntryView| merged_row(row, entry@);
        match self.entry_index(entry.tag_id, &entry.target_id, entry.kind) {
            Some(i) => {
                if entry.modified_at > self.rows.entries[i].modified_at {
                    self.rows.entries[i].modified_at = entry.modified_at;
                    self.rows.entries[i].deleted = entry.deleted;
                }
                proof {
                    let before = old(self)@.entries;
                    assert(same_relationship(before[i as int], entry@));
                    assert forall|j: int| 0 <= j < before.len() implies self@.entries[j]
                        == before.map_values(f)[j] by {
                        if j != i {
                            assert(!same_relationship(before[j], before[i as int]));
                            assert(self@.entries[j] == before[j]);
                        }
                    }
                    assert(self@.entries =~= before.map_values(f));
                    lemma_map_keeps_keys(before, f);
                }
            },
            None => {
                self.rows.entries.push(entry.clone());
                proof {
                    let before = old(self)@.entries;
                    assert(self@.entries =~= before.push(entry@));
                    assert forall|j: int| 0 <= j < before.len() implies !same_relationship(
                        #[trigger] before[j],
                        entry@,
                    ) by {}
                    assert(!old(self)@.has_relationship(entry@));
                }
            },
        }
        Ok(())
    }

    /// Adds or revives a relationship, newest wins.
    fn upsert_entry(
        &mut self,
        tag_id: TagId,
        target_id: String,
        kind: RelationshipKind,
        modified_at: i64,
    ) -> (r: Result<(), DatabaseError>)
        requires
            old(self).wf(),
        ensures
            final(self).wf(),
            r is Ok,
            final(self)@ == old(self)@.with_relationship(
                EntryView { tag_id, target_id: target_id@, kind, modified_at, deleted: false },
            ),
    {
        let entry = RelationshipManifestEntry {
            tag_id,
            target_id,
            kind,
            modified_at,
            deleted: false,
        };
        self.apply_relationship(&entry)
    }

    /// Tombstones a relationship, newest wins; one that has no row stays without.
    fn untag_entry(
        &mut self,
        tag_id: TagId,
        target_id: String,
        kind: RelationshipKind,
        modified_at: i64,
    ) -> (r: Result<(), DatabaseError>)
        requires
            old(self).wf(),
        ensures
            final(self).wf(),
            r is Ok,
            final(self)@ == old(self)@.without_relationship(
                EntryView {
                    tag_id,
                    target_id: target_id@,
                    kind,
                    modified_at: 0,
                    deleted: false,
                },
                modified_at,
            ),
    {
        let ghost key = EntryView {
            tag_id,
            target_id: target_id@,
            kind,
            modified_at: 0,
            deleted: false,
        };
        let ghost f = |row: EntryView| untagged_row(row, key, modified_at);
        let ghost before = old(self)@.entries;
        proof {
            lemma_map_keeps_keys(before, f);
        }
        match self.entry_index(tag_id, &target_id, kind) {
            Some(i) => {
                if modified_at > self.rows.entries[i].modified_at {
                    self.rows.entries[i].deleted = true;
                    self.rows.entries[i].modified_at = modified_at;
                }
                proof {
                    assert forall|j: int| 0 <= j < before.len() implies self@.entries[j]
                        == before.map_values(f)[j] by {
                        if j != i {
                            assert(!same_relationship(before[j], before[i as int]));
                            assert(self@.entries[j] == before[j]);
                        }
                    }
                    assert(self@.entries =~= before.map_values(f));
                }
            },
            None => {
                assert(before =~= before.map_values(f));
            },
        }
        Ok(())
    }

    /// Applies a tag to a file. Tagging again revives the relationship; an older tag than the
    /// recorded change loses.
    pub fn tag_file(&mut self, tag_id: TagId, file_id: FileId, modified_at: i64) -> (r: Result<
        (),
        DatabaseError,
    >)
        requires
            old(self).wf(),
        ensures
            final(self).wf(),
            r is Ok,
            final(self)@ == old(self)@.with_relationship(
                EntryView {
                    tag_id,
                    target_id: id_text(file_id.value),
                    kind: RelationshipKind::File,
                    modified_at,
                    deleted: false,
                },
            ),
    {
        self.upsert_entry(tag_id, file_id.to_string(), RelationshipKind::File, modified_at)
    }

    /// Applies a tag to another tag. A tag cannot tag itself.
    pub fn tag_tag(&mut self, tag_id: TagId, subtag_id: TagId, modified_at: i64) -> (r: Result<
        (),
        DatabaseError,
    >)
        requires
            old(self).wf(),
        ensures
            final(self).wf(),
            match r {
                Ok(()) => tag_id != subtag_id && final(self)@ == old(self)@.with_relationship(
                    EntryView {
                        tag_id,
                        target_id: id_text(subtag_id.value),
                        kind: RelationshipKind::Tag,
                        modified_at,
                        deleted: false,
                    },
                ),
                Err(error) => tag_id == subtag_id && final(self)@ == old(self)@
                    && error is CantTagItself,
            },
    {
        if tag_id == subtag_id {
            return Err(DatabaseError::CantTagItself);
        }
        self.upsert_entry(tag_id, subtag_id.to_string(), RelationshipKind::Tag, modified_at)
    }

    /// Removes a tag from a file.
    pub fn untag_file(&mut self, tag_id: TagId, file_id: FileId, modified_at: i64) -> (r: Result<
        (),
        DatabaseError,
    >)
        requires
            old(self).wf(),
        ensures
            final(self).wf(),
            r is Ok,
            final(self)@ == old(self)@.without_relationship(
                EntryView {
                    tag_id,
                    target_id: id_text(file_id.value),
                    kind: RelationshipKind::File,
                    modified_at: 0,
                    deleted: false,
                },
                modified_at,
            ),
    {
        self.untag_entry(tag_id, file_id.to_string(), RelationshipKind::File, modified_at)
    }

    /// Removes a tag from another tag.
    pub fn untag_tag(&mut self, tag_id: TagId, subtag_id: TagId, modified_at: i64) -> (r: Result<
        (),
        DatabaseError,
    >)
        requires
            old(self).wf(),
        ensures
            final(self).wf(),
            r is Ok,
            final(self)@ == old(self)@.without_relationship(
                EntryView {
                    tag_id,
                    target_id: id_text(subtag_id.value),
                    kind: RelationshipKind::Tag,
                    modified_at: 0,
                    deleted: false,
                },
                modified_at,
            ),
    {
        self.untag_entry(tag_id, subtag_id.to_string(), RelationshipKind::Tag, modified_at)
    }

    /// Whether a tag's own row is tombstoned.
    fn tombstoned(&self, tag: u128) -> (r: bool)
        ensures
            r == self@.tag_tombstoned(tag),
    {
        let mut i: usize = 0;
        while i < self.rows.tags.len()
            invariant
                i <= self.rows.tags.len(),
                forall|j: int|
                    0 <= j < i ==> !((#[trigger] self@.tags[j]).id.value == tag
                        && self@.tags[j].deleted),
            decreases self.rows.tags.len() - i,
        {
            assert(self@.tags[i as int] == self.rows.tags@[i as int]@);
            if self.rows.tags[i].id.value == tag && self.rows.tags[i].deleted {
                return true;
            }
            i = i + 1;
        }
        false
    }

    /// The subtag relation as pairs of parent and child, with or without tombstoned children.
    fn child_pairs(&self, live_only: bool) -> (r: Vec<(u128, u128)>)
        ensures
            forall|a: u128, b: u128| #[trigger]
                r@.contains((a, b)) <==> if live_only {
                    self@.live_child_edge()(a, b)
                } else {
                    self@.child_edge()(a, b)
                },
    {
        let mut pairs: Vec<(u128, u128)> = Vec::new();
        let mut i: usize = 0;
        while i < self.rows.entries.len()
            invariant
                i <= self.rows.entries.len(),
                forall|a: u128, b: u128| #[trigger]
                    pairs@.contains((a, b)) <==> (live_only ==> !self@.tag_tombstoned(b))
                        && exists|k: int|
                        0 <= k < i && gives_child(#[trigger] self@.entries[k], a, b),
            decreases self.rows.entries.len() - i,
        {
            let row = &self.rows.entries[i];
            assert(self@.entries[i as int] == row@);
            let ghost before = pairs@;
            if !row.deleted && matches!(row.kind, RelationshipKind::Tag) {
                match TagId::from_string(row.target_id.as_str()) {
                    Some(child) => {
                        if !live_only || !self.tombstoned(child.value) {
                            pairs.push((row.tag_id.value, child.value));
                            assert(pairs@[pairs@.len() - 1] == (row.tag_id.value, child.value));
                        }
                    },
                    None => {},
                }
            }
            proof {
                assert forall|a: u128, b: u128| #[trigger]
                    pairs@.contains((a, b)) <==> (live_only ==> !self@.tag_tombstoned(b))
                        && exists|k: int|
                        0 <= k < i + 1 && gives_child(#[trigger] self@.entries[k], a, b) by {
                    if before.contains((a, b)) {
                        let m = choose|m: int| 0 <= m < before.len() && before[m] == (a, b);
                        assert(pairs@[m] == (a, b));
                    }
                    if pairs@.contains((a, b)) && !before.contains((a, b)) {
                        let m = choose|m: int| 0 <= m < pairs@.len() && pairs@[m] == (a, b);
                        if m < before.len() {
                            assert(before[m] == (a, b));
                        }
                        assert(gives_child(self@.entries[i as int], a, b));
                    }
                }
            }
            i = i + 1;
        }
        pairs
    }

    /// The subtag relation as pairs of child and parent, without tombstoned parents, as a
    /// lookup by the written child finds them.
    fn parent_pairs(&self) -> (r: Vec<(u128, u128)>)
        ensures
            forall|a: u128, b: u128| #[trigger]
                r@.contains((a, b)) <==> self@.live_parent_edge()(a, b),
    {
        let mut pairs: Vec<(u128, u128)> = Vec::new();
        let mut i: usize = 0;
        while i < self.rows.entries.len()
            invariant
                i <= self.rows.entries.len(),
                forall|a: u128, b: u128| #[trigger]
                    pairs@.contains((a, b)) <==> !self@.tag_tombstoned(b) && exists|k: int|
                        0 <= k < i && gives_parent(#[trigger] self@.entries[k], a, b),
            decreases self.rows.entries.len() - i,
        {
            let row = &self.rows.entries[i];
            assert(self@.entries[i as int] == row@);
            let ghost before = pairs@;
            if !row.deleted && matches!(row.kind, RelationshipKind::Tag) && !self.tombstoned(
                row.tag_id.value,
            ) {
                match TagId::from_string(row.target_id.as_str()) {
                    Some(child) => {
                        if child.to_string() == row.target_id {
                            pairs.push((child.value, row.tag_id.value));
                            assert(pairs@[pairs@.len() - 1] == (child.value, row.tag_id.value));
                        }
                    },
                    None => {},
                }
            }
            proof {
                assert forall|a: u128, b: u128| #[trigger]
                    pairs@.contains((a, b)) <==> !self@.tag_tombstoned(b) && exists|k: int|
                        0 <= k < i + 1 && gives_parent(#[trigger] self@.entries[k], a, b) by {
                    crate::ids::lemma_id_round_trip(a);
                    if before.contains((a, b)) {
                        let m = choose|m: int| 0 <= m < before.len() && before[m] == (a, b);
                        assert(pairs@[m] == (a, b));
                    }
                    if pairs@.contains((a, b)) && !before.contains((a, b)) {
                        let m = choose|m: int| 0 <= m < pairs@.len() && pairs@[m] == (a, b);
                        if m < before.len() {
                            assert(before[m] == (a, b));
                        }
                        assert(gives_parent(self@.entries[i as int], a, b));
                    }
                    if gives_parent(self@.entries[i as int], a, b) && !self@.tag_tombstoned(b) {
                        assert(parsed_id(row.target_id@) == Some(a));
                        assert(pairs@.contains((a, b)));
                    }
                }
            }
            i = i + 1;
        }
        pairs
    }

    /// The files to which one of some tags is applied directly, in ascending order.
    fn files_tagged_by(&self, tags: &Vec<u128>) -> (r: Vec<u128>)
        ensures
            ascending(r@),
            forall|file: u128| #[trigger]
                r@.contains(file) <==> exists|tag: u128|
                    tags@.contains(tag) && #[trigger] self@.tags_file(tag, file),
    {
        let mut files: Vec<u128> = Vec::new();
        let mut i: usize = 0;
        while i < self.rows.entries.len()
            invariant
                i <= self.rows.entries.len(),
                ascending(files@),
                forall|file: u128| #[trigger]
                    files@.contains(file) <==> exists|k: int|
                        0 <= k < i && tagged_by(#[trigger] self@.entries[k], tags@, file),
            decreases self.rows.entries.len() - i,
        {
            let row = &self.rows.entries[i];
            assert(self@.entries[i as int] == row@);
            let ghost before = files@;
            if !row.deleted && matches!(row.kind, RelationshipKind::File) && holds(
                tags,
                row.tag_id.value,
            ) {
                match FileId::from_string(row.target_id.as_str()) {
                    Some(file) => {
                        insert_sorted(&mut files, file.value);
                        assert(tagged_by(self@.entries[i as int], tags@, file.value));
                    },
                    None => {},
                }
            }
            assert forall|file: u128| #[trigger]
                files@.contains(file) <==> exists|k: int|
                    0 <= k < i + 1 && tagged_by(#[trigger] self@.entries[k], tags@, file) by {
                if files@.contains(file) && !before.contains(file) {
                    assert(tagged_by(self@.entries[i as int], tags@, file));
                }
            }
            i = i + 1;
        }
        assert forall|file: u128| #[trigger]
            files@.contains(file) <==> exists|tag: u128|
                tags@.contains(tag) && #[trigger] self@.tags_file(tag, file) by {
            if files@.contains(file) {
                let k = choose|k: int|
                    0 <= k < i && tagged_by(#[trigger] self@.entries[k], tags@, file);
                let tag = self@.entries[k].tag_id.value;
                assert(gives_file(self@.entries[k], tag, file));
                assert(self@.tags_file(tag, file));
            }
            if exists|tag: u128| tags@.contains(tag) && #[trigger] self@.tags_file(tag, file) {
                let tag = choose|tag: u128|
                    tags@.contains(tag) && #[trigger] self@.tags_file(tag, file);
                let k = choose|k: int|
                    0 <= k < self@.entries.len() && gives_file(
                        #[trigger] self@.entries[k],
                        tag,
                        file,
                    );
                assert(tagged_by(self@.entries[k], tags@, file));
            }
        }
        files
    }

    /// The files that carry a tag, as ascending numbers.
    pub(super) fn file_numbers_for_tag(&self, tag: u128, subtag_rule: SubtagRule) -> (r: Vec<u128>)
        ensures
            ascending(r@),
            forall|file: u128| #[trigger]
                r@.contains(file) <==> self@.carries(tag, subtag_rule, file),
    {
        let mut roots: Vec<u128> = Vec::new();
        roots.push(tag);
        assert(forall|n: u128| #[trigger] roots@.contains(n) <==> n == tag) by {
            assert(roots@[0] == tag);
        }
        match subtag_rule {
            SubtagRule::Exclude => {
                let files = self.files_tagged_by(&roots);
                assert forall|file: u128| #[trigger]
                    files@.contains(file) <==> self@.carries(tag, subtag_rule, file) by {
                    if self@.tags_file(tag, file) {
                        assert(roots@.contains(tag));
                    }
                }
                files
            },
            SubtagRule::Include => {
                let edges = self.child_pairs(false);
                assert(listed_edge(edges@) =~= self@.child_edge());
                let seen = reach(&edges, &roots);
                let files = self.files_tagged_by(&seen);
                assert forall|file: u128| #[trigger]
                    files@.contains(file) <==> self@.carries(tag, subtag_rule, file) by {
                    if files@.contains(file) {
                        let t = choose|t: u128|
                            seen@.contains(t) && #[trigger] self@.tags_file(t, file);
                        assert(reached(self@.child_edge(), roots@, t));
                        assert(reaches(self@.child_edge(), tag, t));
                    }
                    if self@.carries(tag, subtag_rule, file) {
                        let t = choose|t: u128| #[trigger]
                            reaches(self@.child_edge(), tag, t) && self@.tags_file(t, file);
                        assert(roots@.contains(tag));
                        assert(seen@.contains(t));
                    }
                }
                files
            },
        }
    }

    /// The targets of pairs whose source stands in a list, in ascending order.
    fn pair_targets(pairs: &Vec<(u128, u128)>, sources: &Vec<u128>, mut into: Vec<u128>) -> (r: Vec<
        u128,
    >)
        requires
            ascending(into@),
        ensures
            ascending(r@),
            forall|n: u128| #[trigger]
                r@.contains(n) <==> into@.contains(n) || exists|source: u128|
                    sources@.contains(source) && #[trigger] pairs@.contains((source, n)),
    {
        let ghost start = into@;
        let mut i: usize = 0;
        while i < pairs.len()
            invariant
                i <= pairs.len(),
                ascending(into@),
                forall|n: u128| #[trigger]
                    into@.contains(n) <==> start.contains(n) || exists|k: int|
                        0 <= k < i && sources@.contains((#[trigger] pairs@[k]).0) && pairs@[k].1
                            == n,
            decreases pairs.len() - i,
        {
            let ghost before = into@;
            if holds(sources, pairs[i].0) {
                insert_sorted(&mut into, pairs[i].1);
            }
            assert forall|n: u128| #[trigger]
                into@.contains(n) <==> start.contains(n) || exists|k: int|
                    0 <= k < i + 1 && sources@.contains((#[trigger] pairs@[k]).0) && pairs@[k].1
                        == n by {
                if into@.contains(n) && !before.contains(n) {
                    assert(sources@.contains(pairs@[i as int].0) && pairs@[i as int].1 == n);
                }
            }
            i = i + 1;
        }
        assert forall|n: u128| #[trigger]
            into@.contains(n) <==> start.contains(n) || exists|source: u128|
                sources@.contains(source) && #[trigger] pairs@.contains((source, n)) by {
            if into@.contains(n) && !start.contains(n) {
                let k = choose|k: int|
                    0 <= k < i && sources@.contains((#[trigger] pairs@[k]).0) && pairs@[k].1 == n;
                let source = pairs@[k].0;
                assert(pairs@[k] == (source, n));
                assert(pairs@.contains((source, n)));
            }
            if exists|source: u128|
                sources@.contains(source) && #[trigger] pairs@.contains((source, n)) {
                let source = choose|source: u128|
                    sources@.contains(source) && #[trigger] pairs@.contains((source, n));
                let k = choose|k: int| 0 <= k < pairs@.len() && pairs@[k] == (source, n);
                assert(sources@.contains(pairs@[k].0));
            }
        }
        into
    }

    /// One step or, under `Include`, any number of steps along some pairs, in ascending order.
    fn follow(pairs: &Vec<(u128, u128)>, from: u128, subtag_rule: SubtagRule) -> (r: Vec<u128>)
        ensures
            ascending(r@),
            forall|n: u128| #[trigger]
                r@.contains(n) <==> match subtag_rule {
                    SubtagRule::Exclude => listed_edge(pairs@)(from, n),
                    SubtagRule::Include => leads_to(listed_edge(pairs@), from, n),
                },
    {
        let ghost edge = listed_edge(pairs@);
        let mut roots: Vec<u128> = Vec::new();
        roots.push(from);
        assert(forall|n: u128| #[trigger] roots@.contains(n) <==> n == from) by {
            assert(roots@[0] == from);
        }
        let none: Vec<u128> = Vec::new();
        match subtag_rule {
            SubtagRule::Exclude => {
                let r = Self::pair_targets(pairs, &roots, none);
                assert forall|n: u128| #[trigger] r@.contains(n) <==> edge(from, n) by {
                    if edge(from, n) {
                        assert(roots@.contains(from) && pairs@.contains((from, n)));
                    }
                }
                r
            },
            SubtagRule::Include => {
                let seen = reach(pairs, &roots);
                let r = Self::pair_targets(pairs, &seen, none);
                assert forall|n: u128| #[trigger] r@.contains(n) <==> leads_to(edge, from, n) by {
                    if r@.contains(n) {
                        let source = choose|source: u128|
                            seen@.contains(source) && #[trigger] pairs@.contains((source, n));
                        assert(reached(edge, roots@, source));
                        assert(reaches(edge, from, source) && edge(source, n));
                    }
                    if leads_to(edge, from, n) {
                        let last = choose|last: u128| #[trigger]
                            reaches(edge, from, last) && edge(last, n);
                        assert(roots@.contains(from));
                        assert(seen@.contains(last));
                        assert(pairs@.contains((last, n)));
                    }
                }
                r
            },
        }
    }

    /// The tags under a tag, as ascending numbers.
    pub(super) fn subtag_numbers(&self, tag: u128, subtag_rule: SubtagRule) -> (r: Vec<u128>)
        ensures
            ascending(r@),
            forall|n: u128| #[trigger]
                r@.contains(n) <==> self@.is_subtag(tag, subtag_rule, n),
    {
        let pairs = self.child_pairs(true);
        assert(listed_edge(pairs@) =~= self@.live_child_edge());
        Self::follow(&pairs, tag, subtag_rule)
    }

    /// Every file that carries a tag, in ascending order of id. Under `Include` a file that
    /// carries a subtag of any depth is among them; cycles of tags are walked once.
    pub fn file_ids_for_tag(&self, tag_id: TagId, subtag_rule: SubtagRule) -> (r: Result<
        Vec<FileId>,
        DatabaseError,
    >)
        ensures
            r matches Ok(ids) && lists_files(
                ids@,
                |file: u128| self@.carries(tag_id.value, subtag_rule, file),
            ),
    {
        let numbers = self.file_numbers_for_tag(tag_id.value, subtag_rule);
        Ok(
            listed_file_ids(
                &numbers,
                Ghost(|file: u128| self@.carries(tag_id.value, subtag_rule, file)),
            ),
        )
    }

    /// Every tag under a tag, in ascending order of id. A tombstoned tag is no subtag; one
    /// whose definition is unknown is.
    pub fn subtag_ids_for_tag(&self, tag_id: TagId, subtag_rule: SubtagRule) -> (r: Result<
        Vec<TagId>,
        DatabaseError,
    >)
        ensures
            r matches Ok(ids) && lists_tags(
                ids@,
                |tag: u128| self@.is_subtag(tag_id.value, subtag_rule, tag),
            ),
    {
        let numbers = self.subtag_numbers(tag_id.value, subtag_rule);
        Ok(
            listed_tag_ids(
                &numbers,
                Ghost(|tag: u128| self@.is_subtag(tag_id.value, subtag_rule, tag)),
            ),
        )
    }

    /// Every tag above a tag, in ascending order of id. A tombstoned tag is no parent; one
    /// whose definition is unknown is.
    pub fn tag_ids_for_subtag(&self, subtag_id: TagId, subtag_rule: SubtagRule) -> (r: Result<
        Vec<TagId>,
        DatabaseError,
    >)
        ensures
            r matches Ok(ids) && lists_tags(
                ids@,
                |tag: u128| self@.is_supertag(subtag_id.value, subtag_rule, tag),
            ),
    {
        let pairs = self.parent_pairs();
        assert(listed_edge(pairs@) =~= self@.live_parent_edge());
        let numbers = Self::follow(&pairs, subtag_id.value, subtag_rule);
        Ok(
            listed_tag_ids(
                &numbers,
                Ghost(|tag: u128| self@.is_supertag(subtag_id.value, subtag_rule, tag)),
            ),
        )
    }

    /// Every tag shown on a file, in ascending order of id: those applied to it directly and,
    /// under `Include`, those above them. Tombstoned tags are not shown.
    pub fn tag_ids_for_file(&self, file_id: FileId, subtag_rule: SubtagRule) -> (r: Result<
        Vec<TagId>,
        DatabaseError,
    >)
        ensures
            r matches Ok(ids) && lists_tags(
                ids@,
                |tag: u128| self@.shows_tag(file_id.value, subtag_rule, tag),
            ),
    {
        let ghost shown = |tag: u128| self@.shows_tag(file_id.value, subtag_rule, tag);
        let target = file_id.to_string();
        let mut direct: Vec<u128> = Vec::new();
        let mut i: usize = 0;
        while i < self.rows.entries.len()
            invariant
                i <= self.rows.entries.len(),
                target@ == id_text(file_id.value),
                ascending(direct@),
                forall|tag: u128| #[trigger]
                    direct@.contains(tag) <==> !self@.tag_tombstoned(tag) && exists|k: int|
                        0 <= k < i && gives_tag(#[trigger] self@.entries[k], file_id.value, tag),
            decreases self.rows.entries.len() - i,
        {
            let row = &self.rows.entries[i];
            assert(self@.entries[i as int] == row@);
            let ghost before = direct@;
            if !row.deleted && matches!(row.kind, RelationshipKind::File) && row.target_id == target
                && !self.tombstoned(row.tag_id.value) {
                insert_sorted(&mut direct, row.tag_id.value);
            }
            assert forall|tag: u128| #[trigger]
                direct@.contains(tag) <==> !self@.tag_tombstoned(tag) && exists|k: int|
                    0 <= k < i + 1 && gives_tag(#[trigger] self@.entries[k], file_id.value, tag) by {
                if direct@.contains(tag) && !before.contains(tag) {
                    assert(gives_tag(self@.entries[i as int], file_id.value, tag));
                }
            }
            i = i + 1;
        }
        assert(forall|tag: u128| #[trigger]
            direct@.contains(tag) <==> self@.direct_tag(file_id.value, tag));
        match subtag_rule {
            SubtagRule::Exclude => Ok(listed_tag_ids(&direct, Ghost(shown))),
            SubtagRule::Include => {
                let pairs = self.parent_pairs();
                let ghost edge = self@.live_parent_edge();
                assert(listed_edge(pairs@) =~= edge);
                let seen = reach(&pairs, &direct);
                let ghost held = direct@;
                let all = Self::pair_targets(&pairs, &seen, direct);
                assert forall|tag: u128| #[trigger] all@.contains(tag) <==> shown(tag) by {
                    if all@.contains(tag) && !held.contains(tag) {
                        let source = choose|source: u128|
                            seen@.contains(source) && #[trigger] pairs@.contains((source, tag));
                        assert(reached(edge, held, source));
                        let d = choose|d: u128|
                            held.contains(d) && #[trigger] reaches(edge, d, source);
                        assert(edge(source, tag));
                        assert(leads_to(edge, d, tag));
                        assert(self@.direct_tag(file_id.value, d));
                    }
                    if shown(tag) && !self@.direct_tag(file_id.value, tag) {
                        let d = choose|d: u128| #[trigger]
                            self@.direct_tag(file_id.value, d) && leads_to(edge, d, tag);
                        let last = choose|last: u128| #[trigger]
                            reaches(edge, d, last) && edge(last, tag);
                        assert(held.contains(d));
                        assert(seen@.contains(last));
                        assert(pairs@.contains((last, tag)));
                    }
                }
                Ok(listed_tag_ids(&all, Ghost(shown)))
            },
        }
    }
}

/// A live relationship applies one of some tags to a file.
spec fn tagged_by(entry: EntryView, tags: Seq<u128>, file: u128) -> bool {
    tags.contains(entry.tag_id.value) && gives_file(entry, entry.tag_id.value, file)
}

} // verus!
