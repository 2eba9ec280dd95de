//! The tag table: tag definitions, their last-writer-wins clock, and the lookups that search
//! resolves user input through.

use vstd::prelude::*;

use crate::ids::{id_text, TagId};
use crate::seqs::{lemma_filter_first, lemma_filter_map_take, lemma_filter_none, lemma_filter_take};
use crate::state::{DeletedRule, Tag, TagManifestEntry, TagStyle};
use crate::store::entries::{listed_tag_ids, lists_tags};
use crate::store::graph::{ascending, insert_sorted};
use crate::store::pattern::{pattern_matches, TextPattern};
use crate::store::short_id::{
    is_short_length, normalize_id_prefix, normalized_prefix, shortest_unique_prefix_length,
};
use crate::store::types::{
    admits, rule_admits, tags_distinct, CatalogView, DatabaseError, TagRow, TagRowView,
};
use crate::store::CatalogStore;
use crate::text::{
    chars_of, contains_chars, is_substring, lowercase, starts_with_chars, to_lowercase,
};

verus! {

/// A listed tag shows a row.
pub open spec fn shows_row(tag: Tag, row: TagRowView) -> bool {
    &&& tag.id == row.id
    &&& tag.name@ == row.name
    &&& tag.deleted == row.deleted
    &&& tag.style == row.style
    &&& tag.metadata is None
}

/// A tag's name contains a text, both taken in their lowercase form.
pub open spec fn name_contains(name: Seq<char>, text: Seq<char>) -> bool {
    is_substring(lowercase(name), lowercase(text))
}

/// The written form of an id starts with a text read as a hex prefix.
pub open spec fn id_prefix_matches(id: u128, text: Seq<char>) -> bool {
    normalized_prefix(text) matches Some(prefix) && prefix.is_prefix_of(id_text(id))
}

impl CatalogView {
    /// A row of the tag table has this id.
    pub open spec fn has_tag(self, tag_id: TagId) -> bool {
        exists|i: int| 0 <= i < self.tags.len() && (#[trigger] self.tags[i]).id == tag_id
    }

    /// The row of a tag.
    pub open spec fn tag(self, tag_id: TagId) -> TagRowView
        recommends
            self.has_tag(tag_id),
    {
        self.tags[choose|i: int|
            0 <= i < self.tags.len() && (#[trigger] self.tags[i]).id == tag_id]
    }

    /// The tag table with the row of one tag changed where `modified_at` is newer.
    pub open spec fn update_tag(
        self,
        tag_id: TagId,
        modified_at: i64,
        change: spec_fn(TagRowView) -> TagRowView,
    ) -> CatalogView {
        CatalogView {
            tags: self.tags.map_values(
                |row: TagRowView|
                    if row.id == tag_id && modified_at > row.modified_at {
                        change(row)
                    } else {
                        row
                    },
            ),
            ..self
        }
    }

    /// The catalog after a tag definition arrived: a new tag is added, a newer definition
    /// replaces the whole definition and revives the tag, an older or equal one is ignored.
    pub open spec fn with_tag(
        self,
        tag_id: TagId,
        name: Seq<char>,
        style: TagStyle,
        modified_at: i64,
    ) -> CatalogView {
        let row = TagRowView { id: tag_id, name, modified_at, deleted: false, style };
        if self.has_tag(tag_id) {
            self.update_tag(tag_id, modified_at, |old_row: TagRowView| row)
        } else {
            CatalogView { tags: self.tags.push(row), ..self }
        }
    }

    /// The catalog after a newer rename of a tag, which revives the tag.
    pub open spec fn with_tag_name(
        self,
        tag_id: TagId,
        name: Seq<char>,
        modified_at: i64,
    ) -> CatalogView {
        self.update_tag(
            tag_id,
            modified_at,
            |row: TagRowView| TagRowView { name, modified_at, deleted: false, ..row },
        )
    }

    /// The catalog after a newer restyling of a tag, which revives the tag.
    pub open spec fn with_tag_style(
        self,
        tag_id: TagId,
        style: TagStyle,
        modified_at: i64,
    ) -> CatalogView {
        self.update_tag(
            tag_id,
            modified_at,
            |row: TagRowView| TagRowView { style, modified_at, deleted: false, ..row },
        )
    }

    /// The catalog after a newer delete of a tag.
    pub open spec fn without_tag(self, tag_id: TagId, deleted_at: i64) -> CatalogView {
        self.update_tag(
            tag_id,
            deleted_at,
            |row: TagRowView| TagRowView { deleted: true, modified_at: deleted_at, ..row },
        )
    }

    /// The rows that a listing of tags under `rule` shows.
    pub open spec fn listed_tags(self, rule: DeletedRule) -> Seq<TagRowView> {
        self.tags.filter(|row: TagRowView| rule_admits(rule, row.deleted))
    }
}

/// A row of the table is the row of its tag.
pub proof fn lemma_tag_row(catalog: CatalogView, i: int)
    requires
        tags_distinct(catalog.tags),
        0 <= i < catalog.tags.len(),
    ensures
        catalog.has_tag(catalog.tags[i].id),
        catalog.tag(catalog.tags[i].id) == catalog.tags[i],
{
    let id = catalog.tags[i].id;
    let k = choose|k: int| 0 <= k < catalog.tags.len() && (#[trigger] catalog.tags[k]).id == id;
    assert(catalog.tags[i].id == id);
    assert(k == i);
}

/// Changing a tag's row keeps the ids of the table and touches one place at most.
proof fn lemma_update_tag(
    catalog: CatalogView,
    tag_id: TagId,
    modified_at: i64,
    change: spec_fn(TagRowView) -> TagRowView,
)
    requires
        catalog.wf(),
        forall|row: TagRowView| row.id == tag_id ==> (#[trigger] change(row)).id == tag_id,
    ensures
        catalog.update_tag(tag_id, modified_at, change).wf(),
        !catalog.has_tag(tag_id) ==> catalog.update_tag(tag_id, modified_at, change) == catalog,
        forall|i: int|
            0 <= i < catalog.tags.len() && (#[trigger] catalog.tags[i]).id == tag_id
                ==> catalog.update_tag(tag_id, modified_at, change).tags == if modified_at
                > catalog.tags[i].modified_at {
                catalog.tags.update(i, change(catalog.tags[i]))
            } else {
                catalog.tags
            },
{
    let updated = catalog.update_tag(tag_id, modified_at, change);
    assert forall|i: int| 0 <= i < updated.tags.len() implies (#[trigger] updated.tags[i]).id
        == catalog.tags[i].id by {}
    assert(tags_distinct(updated.tags));
    if !catalog.has_tag(tag_id) {
        assert forall|j: int| 0 <= j < updated.tags.len() implies updated.tags[j]
            == catalog.tags[j] by {
            assert(catalog.tags[j].id != tag_id);
        }
        assert(updated.tags =~= catalog.tags);
    }
    assert forall|i: int|
        0 <= i < catalog.tags.len() && (#[trigger] catalog.tags[i]).id == tag_id implies
        updated.tags == if modified_at > catalog.tags[i].modified_at {
        catalog.tags.update(i, change(catalog.tags[i]))
    } else {
        catalog.tags
    } by {
        let placed = if modified_at > catalog.tags[i].modified_at {
            catalog.tags.update(i, change(catalog.tags[i]))
        } else {
            catalog.tags
        };
        assert forall|j: int| 0 <= j < updated.tags.len() implies updated.tags[j] == placed[j] by {
            if j != i {
                assert(catalog.tags[j].id != catalog.tags[i].id);
            }
        }
        assert(updated.tags =~= placed);
    }
}

/// Changing the row of a known tag changes what the catalog says of that tag where the change is
/// newer, and keeps the catalog valid.
pub proof fn lemma_updated_tag(
    catalog: CatalogView,
    tag_id: TagId,
    modified_at: i64,
    change: spec_fn(TagRowView) -> TagRowView,
)
    requires
        catalog.wf(),
        catalog.has_tag(tag_id),
        forall|row: TagRowView| row.id == tag_id ==> (#[trigger] change(row)).id == tag_id,
    ensures
        catalog.tag(tag_id).id == tag_id,
        ({
            let after = catalog.update_tag(tag_id, modified_at, change);
            &&& after.wf()
            &&& after.has_tag(tag_id)
            &&& after.tag(tag_id) == if modified_at > catalog.tag(tag_id).modified_at {
                change(catalog.tag(tag_id))
            } else {
                catalog.tag(tag_id)
            }
        }),
{
    let after = catalog.update_tag(tag_id, modified_at, change);
    lemma_update_tag(catalog, tag_id, modified_at, change);
    let i = choose|i: int|
        0 <= i < catalog.tags.len() && (#[trigger] catalog.tags[i]).id == tag_id;
    lemma_tag_row(catalog, i);
    assert(after.tags[i].id == tag_id);
    lemma_tag_row(after, i);
}

impl CatalogStore {
    /// The place of a tag's row.
    fn tag_index(&self, tag_id: TagId) -> (r: Option<usize>)
        ensures
            match r {
                Some(i) => i < self.rows.tags@.len() && i < self@.tags.len() && self@.has_tag(
                    tag_id,
                ) && self@.tags[i as int] == self.rows.tags@[i as int]@ && self@.tags[i as int].id
                    == tag_id && (self.wf() ==> self@.tag(tag_id) == self@.tags[i as int]),
                None => !self@.has_tag(tag_id),
            },
    {
        let mut i: usize = 0;
        while i < self.rows.tags.len()
            invariant
                i <= self.rows.tags.len(),
                forall|j: int| 0 <= j < i ==> (#[trigger] self@.tags[j]).id != tag_id,
            decreases self.rows.tags.len() - i,
        {
            assert(self@.tags[i as int] == self.rows.tags@[i as int]@);
            if self.rows.tags[i].id == tag_id {
                proof {
                    if self.wf() {
                        lemma_tag_row(self@, i as int);
                    }
                }
                return Some(i);
            }
            i = i + 1;
        }
        None
    }

    /// Every tag definition as peers are told it, tombstoned ones among them.
    pub fn tag_manifest_entries(&self) -> (r: Result<Vec<TagManifestEntry>, DatabaseError>)
        ensures
            r matches Ok(entries) && entries@ == self@.tags.map_values(
                |row: TagRowView|
                    TagManifestEntry {
                        tag_id: row.id,
                        modified_at: row.modified_at,
                        deleted: row.deleted,
                    },
            ),
    {
        let ghost f = |row: TagRowView|
            TagManifestEntry {
                tag_id: row.id,
                modified_at: row.modified_at,
                deleted: row.deleted,
            };
        let mut entries: Vec<TagManifestEntry> = Vec::new();
        let mut i: usize = 0;
        while i < self.rows.tags.len()
            invariant
                i <= self.rows.tags.len(),
                f == (|row: TagRowView|
                    TagManifestEntry {
                        tag_id: row.id,
                        modified_at: row.modified_at,
                        deleted: row.deleted,
                    }),
                entries@.len() == i,
                forall|k: int| 0 <= k < i ==> entries@[k] == f(self@.tags[k]),
            decreases self.rows.tags.len() - i,
        {
            let row = &self.rows.tags[i];
            assert(self@.tags[i as int] == row@);
            entries.push(
                TagManifestEntry {
                    tag_id: row.id,
                    modified_at: row.modified_at,
                    deleted: row.deleted,
                },
            );
            i = i + 1;
        }
        assert(entries@ =~= self@.tags.map_values(f));
        Ok(entries)
    }

    /// The clock of a tag definition; `None` if the tag is unknown.
    pub fn tag_modified_at(&self, tag_id: TagId) -> (r: Result<Option<i64>, DatabaseError>)
        requires
            self.wf(),
        ensures
            r == Ok::<Option<i64>, DatabaseError>(
                if self@.has_tag(tag_id) {
                    Some(self@.tag(tag_id).modified_at)
                } else {
                    None
                },
            ),
    {
        match self.tag_index(tag_id) {
            Some(i) => Ok(Some(self.rows.tags[i].modified_at)),
            None => Ok(None),
        }
    }

    /// A tag's stored definition, tombstoned or not: name, style and clock.
    pub fn tag_definition(&self, tag_id: TagId) -> (r: Result<
        Option<(String, TagStyle, i64)>,
        DatabaseError,
    >)
        requires
            self.wf(),
        ensures
            r matches Ok(definition) && match definition {
                Some((name, style, modified_at)) => self@.has_tag(tag_id) && name@ == self@.tag(
                    tag_id,
                ).name && style == self@.tag(tag_id).style && modified_at == self@.tag(
                    tag_id,
                ).modified_at,
                None => !self@.has_tag(tag_id),
            },
    {
        match self.tag_index(tag_id) {
            Some(i) => {
                let row = &self.rows.tags[i];
                Ok(Some((row.name.clone(), row.style.clone(), row.modified_at)))
            },
            None => Ok(None),
        }
    }

    /// Whether a tag has a row.
    pub fn tag_exists(&self, tag_id: TagId) -> (r: Result<bool, DatabaseError>)
        ensures
            r == Ok::<bool, DatabaseError>(self@.has_tag(tag_id)),
    {
        Ok(self.tag_index(tag_id).is_some())
    }

    /// Adds a tag, or takes over a newer definition of it. An empty name is refused.
    pub fn add_tag(
        &mut self,
        tag_id: TagId,
        name: &str,
        style: &TagStyle,
        modified_at: i64,
    ) -> (r: Result<(), DatabaseError>)
        requires
            old(self).wf(),
        ensures
            final(self).wf(),
            match r {
                Ok(()) => name@.len() > 0 && final(self)@ == old(self)@.with_tag(
                    tag_id,
                    name@,
                    *style,
                    modified_at,
                ),
                Err(error) => name@.len() == 0 && final(self)@ == old(self)@
                    && error is InvalidTagName,
            },
    {
        if name.is_empty() {
            return Err(DatabaseError::InvalidTagName);
        }
        let row = TagRow {
            id: tag_id,
            name: name.to_owned(),
            modified_at,
            deleted: false,
            style: style.clone(),
        };
        let ghost shown = row@;
        let ghost change = |old_row: TagRowView| shown;
        proof {
            lemma_update_tag(old(self)@, tag_id, modified_at, change);
        }
        match self.tag_index(tag_id) {
            Some(i) => {
                if modified_at > self.rows.tags[i].modified_at {
                    self.rows.tags[i] = row;
                    assert(self@.tags =~= old(self)@.tags.update(i as int, shown));
                }
                assert(old(self)@.tags[i as int].id == tag_id);
            },
            None => {
                self.rows.tags.push(row);
                proof {
                    assert(self@.tags =~= old(self)@.tags.push(shown));
                    assert forall|i: int, j: int|
                        0 <= i < self@.tags.len() && 0 <= j < self@.tags.len() && i != j implies (
                    #[trigger] self@.tags[i]).id != (#[trigger] self@.tags[j]).id by {
                        if i < old(self)@.tags.len() {
                            assert(self@.tags[i] == old(self)@.tags[i]);
                        }
                        if j < old(self)@.tags.len() {
                            assert(self@.tags[j] == old(self)@.tags[j]);
                        }
                    }
                }
            },
        }
        Ok(())
    }

    /// Renames a tag, newest wins; a tombstoned tag is revived. An empty name is refused.
    pub fn update_tag_name(&mut self, tag_id: TagId, name: &str, modified_at: i64) -> (r: Result<
        (),
        DatabaseError,
    >)
        requires
            old(self).wf(),
        ensures
            final(self).wf(),
            match r {
                Ok(()) => name@.len() > 0 && final(self)@ == old(self)@.with_tag_name(
                    tag_id,
                    name@,
                    modified_at,
                ),
                Err(error) => name@.len() == 0 && final(self)@ == old(self)@
                    && error is InvalidTagName,
            },
    {
        if name.is_empty() {
            return Err(DatabaseError::InvalidTagName);
        }
        let ghost change = |row: TagRowView|
            TagRowView { name: name@, modified_at, deleted: false, ..row };
        proof {
            lemma_update_tag(old(self)@, tag_id, modified_at, change);
        }
        match self.tag_index(tag_id) {
            Some(i) => {
                assert(old(self)@.tags[i as int].id == tag_id);
                if modified_at > self.rows.tags[i].modified_at {
                    self.rows.tags[i].name = name.to_owned();
                    self.rows.tags[i].modified_at = modified_at;
                    self.rows.tags[i].deleted = false;
                    assert(self@.tags =~= old(self)@.tags.update(
                        i as int,
                        change(old(self)@.tags[i as int]),
                    ));
                }
            },
            None => {},
        }
        Ok(())
    }

    /// Replaces a tag's whole style, newest wins; a tombstoned tag is revived.
    pub fn update_tag_style(
        &mut self,
        tag_id: TagId,
        style: &TagStyle,
        modified_at: i64,
    ) -> (r: Result<(), DatabaseError>)
        requires
            old(self).wf(),
        ensures
            final(self).wf(),
            r is Ok,
            final(self)@ == old(self)@.with_tag_style(tag_id, *style, modified_at),
    {
        let ghost change = |row: TagRowView|
            TagRowView { style: *style, modified_at, deleted: false, ..row };
        proof {
            lemma_update_tag(old(self)@, tag_id, modified_at, change);
        }
        match self.tag_index(tag_id) {
            Some(i) => {
                assert(old(self)@.tags[i as int].id == tag_id);
                if modified_at > self.rows.tags[i].modified_at {
                    self.rows.tags[i].style = style.clone();
                    self.rows.tags[i].modified_at = modified_at;
                    self.rows.tags[i].deleted = false;
                    assert(self@.tags =~= old(self)@.tags.update(
                        i as int,
                        change(old(self)@.tags[i as int]),
                    ));
                }
            },
            None => {},
        }
        Ok(())
    }

    /// Tombstones a tag, provided the delete is strictly newer than its definition.
    /// Relationships of the tag stay as they are. Returns whether the delete was applied.
    pub fn remove_tag(&mut self, tag_id: TagId, deleted_at: i64) -> (r: Result<bool, DatabaseError>)
        requires
            old(self).wf(),
        ensures
            final(self).wf(),
            final(self)@ == old(self)@.without_tag(tag_id, deleted_at),
            r == Ok::<bool, DatabaseError>(
                old(self)@.has_tag(tag_id) && deleted_at > old(self)@.tag(tag_id).modified_at,
            ),
    {
        let ghost change = |row: TagRowView|
            TagRowView { deleted: true, modified_at: deleted_at, ..row };
        proof {
            lemma_update_tag(old(self)@, tag_id, deleted_at, change);
        }
        match self.tag_index(tag_id) {
            Some(i) => {
                assert(old(self)@.tags[i as int].id == tag_id);
                if deleted_at > self.rows.tags[i].modified_at {
                    self.rows.tags[i].deleted = true;
                    self.rows.tags[i].modified_at = deleted_at;
                    assert(self@.tags =~= old(self)@.tags.update(
                        i as int,
                        change(old(self)@.tags[i as int]),
                    ));
                    Ok(true)
                } else {
                    Ok(false)
                }
            },
            None => Ok(false),
        }
    }

    /// What a listing shows of a row.
    fn shown_tag(&self, i: usize) -> (r: Tag)
        requires
            i < self.rows.tags@.len(),
        ensures
            shows_row(r, self@.tags[i as int]),
    {
        let row = &self.rows.tags[i];
        assert(self@.tags[i as int] == row@);
        Tag {
            id: row.id,
            name: row.name.clone(),
            deleted: row.deleted,
            style: row.style.clone(),
            metadata: None,
        }
    }

    /// Every tag that `deleted_rule` admits.
    pub fn get_all_tags(&self, deleted_rule: DeletedRule) -> (r: Result<Vec<Tag>, DatabaseError>)
        ensures
            r is Ok,
            r->Ok_0@.len() == self@.listed_tags(deleted_rule).len(),
            forall|k: int|
                0 <= k < r->Ok_0@.len() ==> shows_row(
                    #[trigger] r->Ok_0@[k],
                    self@.listed_tags(deleted_rule)[k],
                ),
    {
        let ghost p = |row: TagRowView| rule_admits(deleted_rule, row.deleted);
        let mut tags: Vec<Tag> = Vec::new();
        let mut i: usize = 0;
        proof {
            lemma_filter_none(self@.tags.take(0), p);
        }
        while i < self.rows.tags.len()
            invariant
                i <= self.rows.tags.len(),
                p == (|row: TagRowView| rule_admits(deleted_rule, row.deleted)),
                tags@.len() == self@.tags.take(i as int).filter(p).len(),
                forall|k: int|
                    0 <= k < tags@.len() ==> shows_row(
                        #[trigger] tags@[k],
                        self@.tags.take(i as int).filter(p)[k],
                    ),
            decreases self.rows.tags.len() - i,
        {
            proof {
                assert(self@.tags[i as int] == self.rows.tags@[i as int]@);
                lemma_filter_take(self@.tags, i as int, p);
            }
            if admits(deleted_rule, self.rows.tags[i].deleted) {
                tags.push(self.shown_tag(i));
            }
            i = i + 1;
        }
        assert(self@.tags.take(i as int) =~= self@.tags);
        Ok(tags)
    }

    /// One tag, provided `deleted_rule` admits it.
    pub fn tag_from_id(&self, tag_id: TagId, deleted_rule: DeletedRule) -> (r: Result<
        Tag,
        DatabaseError,
    >)
        requires
            self.wf(),
        ensures
            match r {
                Ok(tag) => self@.has_tag(tag_id) && rule_admits(
                    deleted_rule,
                    self@.tag(tag_id).deleted,
                ) && shows_row(tag, self@.tag(tag_id)),
                Err(error) => error is MissingTag && (!self@.has_tag(tag_id) || !rule_admits(
                    deleted_rule,
                    self@.tag(tag_id).deleted,
                )),
            },
    {
        match self.tag_index(tag_id) {
            Some(i) => {
                if admits(deleted_rule, self.rows.tags[i].deleted) {
                    Ok(self.shown_tag(i))
                } else {
                    Err(DatabaseError::MissingTag)
                }
            },
            None => Err(DatabaseError::MissingTag),
        }
    }

    /// The tags under `deleted_rule` for which `hits` says yes, in the order of the listing.
    pub fn tag_ids_where(&self, deleted_rule: DeletedRule, hits: &Vec<bool>) -> (r: Vec<TagId>)
        requires
            hits@.len() == self@.listed_tags(deleted_rule).len(),
        ensures
            r@ == picked(self@.listed_tags(deleted_rule), hits@, hits@.len() as int),
    {
        let ghost p = |row: TagRowView| rule_admits(deleted_rule, row.deleted);
        let ghost listed = self@.listed_tags(deleted_rule);
        let mut ids: Vec<TagId> = Vec::new();
        let mut i: usize = 0;
        let mut k: usize = 0;
        proof {
            lemma_filter_none(self@.tags.take(0), p);
        }
        while i < self.rows.tags.len()
            invariant
                i <= self.rows.tags.len(),
                p == (|row: TagRowView| rule_admits(deleted_rule, row.deleted)),
                listed == self@.listed_tags(deleted_rule),
                hits@.len() == listed.len(),
                k == self@.tags.take(i as int).filter(p).len(),
                k <= listed.len(),
                ids@ == picked(listed, hits@, k as int),
            decreases self.rows.tags.len() - i,
        {
            proof {
                assert(self@.tags[i as int] == self.rows.tags@[i as int]@);
                lemma_filter_take(self@.tags, i as int, p);
                let rest = self@.tags.skip(i + 1);
                assert(self@.tags =~= self@.tags.take(i + 1) + rest);
                crate::seqs::lemma_filter_concat(self@.tags.take(i + 1), rest, p);
            }
            if admits(deleted_rule, self.rows.tags[i].deleted) {
                assert(listed[k as int] == self@.tags[i as int]);
                if hits[k] {
                    ids.push(self.rows.tags[i].id);
                }
                k = k + 1;
            }
            i = i + 1;
        }
        assert(self@.tags.take(i as int) =~= self@.tags);
        ids
    }

    /// Every tag that a query token's payload resolves to.
    ///
    /// A literal text resolves to the tags whose name contains it, both taken in their lowercase
    /// form, and to those whose id starts with it read as a hex prefix; they come in ascending
    /// order of id. A regular expression resolves to the tags whose name it matches,
    /// in the order of the listing; ids are no surface for it.
    pub fn tag_ids_matching_pattern(
        &self,
        pattern: &TextPattern,
        deleted_rule: DeletedRule,
    ) -> (r: Result<Vec<TagId>, DatabaseError>)
        ensures
            r matches Ok(ids) && match *pattern {
                TextPattern::Substring(text) => lists_tags(
                    ids@,
                    |tag: u128| self@.tag_resolves(deleted_rule, text@, tag),
                ),
                TextPattern::Regex(source) => ids@ == self@.listed_tags(deleted_rule).filter(
                    |row: TagRowView| pattern_matches(*pattern, row.name),
                ).map_values(|row: TagRowView| row.id),
            },
    {
        match pattern {
            TextPattern::Substring(text) => {
                let needle = chars_of(to_lowercase(text.as_str()).as_str());
                let prefix = normalize_id_prefix(text.as_str());
                let mut ids: Vec<u128> = Vec::new();
                let mut i: usize = 0;
                while i < self.rows.tags.len()
                    invariant
                        i <= self.rows.tags.len(),
                        needle@ == lowercase(text@),
                        match prefix {
                            Some(digits) => normalized_prefix(text@) == Some(digits@),
                            None => normalized_prefix(text@) is None,
                        },
                        ascending(ids@),
                        forall|tag: u128| #[trigger]
                            ids@.contains(tag) <==> exists|k: int|
                                0 <= k < i && resolves(
                                    #[trigger] self@.tags[k],
                                    deleted_rule,
                                    text@,
                                    tag,
                                ),
                    decreases self.rows.tags.len() - i,
                {
                    let row = &self.rows.tags[i];
                    assert(self@.tags[i as int] == row@);
                    let ghost before = ids@;
                    if admits(deleted_rule, row.deleted) {
                        let name = chars_of(to_lowercase(row.name.as_str()).as_str());
                        let named = contains_chars(&name, &needle);
                        let prefixed = match &prefix {
                            Some(digits) => starts_with_chars(
                                &chars_of(row.id.to_string().as_str()),
                                &chars_of(digits.as_str()),
                            ),
                            None => false,
                        };
                        if named || prefixed {
                            insert_sorted(&mut ids, row.id.value);
                        }
                    }
                    assert forall|tag: u128| #[trigger]
                        ids@.contains(tag) <==> exists|k: int|
                            0 <= k < i + 1 && resolves(
                                #[trigger] self@.tags[k],
                                deleted_rule,
                                text@,
                                tag,
                            ) by {
                        if ids@.contains(tag) && !before.contains(tag) {
                            assert(resolves(self@.tags[i as int], deleted_rule, text@, tag));
                        }
                    }
                    i = i + 1;
                }
                Ok(
                    listed_tag_ids(
                        &ids,
                        Ghost(|tag: u128| self@.tag_resolves(deleted_rule, text@, tag)),
                    ),
                )
            },
            TextPattern::Regex(_) => {
                let compiled = pattern.compile();
                let ghost listed = self@.listed_tags(deleted_rule);
                let tags = match self.get_all_tags(deleted_rule) {
                    Ok(tags) => tags,
                    Err(error) => {
                        return Err(error);
                    },
                };
                let mut hits: Vec<bool> = Vec::new();
                let mut k: usize = 0;
                while k < tags.len()
                    invariant
                        k <= tags.len(),
                        listed == self@.listed_tags(deleted_rule),
                        tags@.len() == listed.len(),
                        hits@.len() == k,
                        forall|m: int|
                            0 <= m < tags@.len() ==> shows_row(#[trigger] tags@[m], listed[m]),
                        forall|text: Seq<char>| #[trigger]
                            compiled.accepts(text, lowercase(text)) == pattern_matches(
                                *pattern,
                                text,
                            ),
                        forall|m: int|
                            0 <= m < k ==> hits@[m] == pattern_matches(
                                *pattern,
                                (#[trigger] listed[m]).name,
                            ),
                    decreases tags.len() - k,
                {
                    let name = &tags[k].name;
                    assert(shows_row(tags@[k as int], listed[k as int]));
                    let lowercased = to_lowercase(name.as_str());
                    hits.push(compiled.is_match(name.as_str(), lowercased.as_str()));
                    k = k + 1;
                }
                let ids = self.tag_ids_where(deleted_rule, &hits);
                proof {
                    lemma_picked(
                        listed,
                        hits@,
                        |row: TagRowView| pattern_matches(*pattern, row.name),
                        hits@.len() as int,
                    );
                    assert(listed.take(listed.len() as int) =~= listed);
                }
                Ok(ids)
            },
        }
    }

    /// Every tag whose id starts with `text` read as a hex prefix: hyphens are ignored, either
    /// case will do, and a text that is no hex prefix resolves to nothing.
    pub fn tag_ids_matching_id_prefix(&self, text: &str, deleted_rule: DeletedRule) -> (r: Result<
        Vec<TagId>,
        DatabaseError,
    >)
        ensures
            r matches Ok(ids) && ids@ == self@.tags.filter(
                |row: TagRowView|
                    rule_admits(deleted_rule, row.deleted) && id_prefix_matches(
                        row.id.value,
                        text@,
                    ),
            ).map_values(|row: TagRowView| row.id),
    {
        let ghost p = |row: TagRowView|
            rule_admits(deleted_rule, row.deleted) && id_prefix_matches(row.id.value, text@);
        let ghost f = |row: TagRowView| row.id;
        let mut ids: Vec<TagId> = Vec::new();
        let prefix = match normalize_id_prefix(text) {
            Some(prefix) => chars_of(prefix.as_str()),
            None => {
                proof {
                    lemma_filter_none(self@.tags, p);
                    assert(ids@ =~= self@.tags.filter(p).map_values(f));
                }
                return Ok(ids);
            },
        };
        let mut i: usize = 0;
        assert(ids@ =~= self@.tags.take(0).filter(p).map_values(f)) by {
            lemma_filter_none(self@.tags.take(0), p);
        }
        while i < self.rows.tags.len()
            invariant
                i <= self.rows.tags.len(),
                p == (|row: TagRowView|
                    rule_admits(deleted_rule, row.deleted) && id_prefix_matches(
                        row.id.value,
                        text@,
                    )),
                f == (|row: TagRowView| row.id),
                normalized_prefix(text@) == Some(prefix@),
                ids@ == self@.tags.take(i as int).filter(p).map_values(f),
            decreases self.rows.tags.len() - i,
        {
            let row = &self.rows.tags[i];
            proof {
                assert(self@.tags[i as int] == row@);
                lemma_filter_map_take(self@.tags, i as int, p, f);
            }
            if admits(deleted_rule, row.deleted) && starts_with_chars(
                &chars_of(row.id.to_string().as_str()),
                &prefix,
            ) {
                ids.push(row.id);
            }
            i = i + 1;
        }
        assert(self@.tags.take(i as int) =~= self@.tags);
        Ok(ids)
    }

    /// The first live tag with a name.
    pub fn tag_id_from_name(&self, name: &str) -> (r: Result<TagId, DatabaseError>)
        ensures
            ({
                let found = self@.tags.filter(
                    |row: TagRowView| !row.deleted && row.name == name@,
                );
                match r {
                    Ok(tag_id) => found.len() > 0 && tag_id == found[0].id,
                    Err(error) => found.len() == 0 && error is MissingTag,
                }
            }),
    {
        let ghost p = |row: TagRowView| !row.deleted && row.name == name@;
        let wanted = name.to_owned();
        let mut i: usize = 0;
        while i < self.rows.tags.len()
            invariant
                i <= self.rows.tags.len(),
                wanted@ == name@,
                p == (|row: TagRowView| !row.deleted && row.name == name@),
                forall|j: int| 0 <= j < i ==> !p(#[trigger] self@.tags[j]),
            decreases self.rows.tags.len() - i,
        {
            assert(self@.tags[i as int] == self.rows.tags@[i as int]@);
            if !self.rows.tags[i].deleted && self.rows.tags[i].name == wanted {
                proof {
                    lemma_filter_first(self@.tags, i as int, p);
                }
                return Ok(self.rows.tags[i].id);
            }
            i = i + 1;
        }
        proof {
            lemma_filter_none(self@.tags, p);
        }
        Err(DatabaseError::MissingTag)
    }

    /// The length of the shortest prefix of a tag's id that no other tag's id shares.
    pub fn shorten_tag_id(&self, tag_id: TagId) -> (r: Result<usize, DatabaseError>)
        ensures
            match r {
                Ok(length) => self@.has_tag(tag_id) && is_short_length(
                    self@.tag_numbers(),
                    tag_id.value,
                    length as nat,
                ),
                Err(error) => !self@.has_tag(tag_id) && error is MissingTag,
            },
    {
        if self.tag_index(tag_id).is_none() {
            return Err(DatabaseError::MissingTag);
        }
        let mut ids: Vec<u128> = Vec::new();
        let mut texts: Vec<String> = Vec::new();
        let mut i: usize = 0;
        while i < self.rows.tags.len()
            invariant
                i <= self.rows.tags.len(),
                ids@.len() == i,
                texts@.len() == i,
                forall|k: int| 0 <= k < i ==> ids@[k] == self@.tags[k].id.value,
                forall|k: int| 0 <= k < i ==> (#[trigger] texts@[k])@ == id_text(ids@[k]),
            decreases self.rows.tags.len() - i,
        {
            let id = self.rows.tags[i].id;
            assert(self@.tags[i as int].id == id);
            ids.push(id.value);
            texts.push(id.to_string());
            i = i + 1;
        }
        assert(ids@ =~= self@.tag_numbers());
        Ok(shortest_unique_prefix_length(&ids, &texts, tag_id.value))
    }
}

/// A row of the tag table resolves a literal token to its tag.
pub open spec fn resolves(row: TagRowView, rule: DeletedRule, text: Seq<char>, tag: u128) -> bool {
    &&& row.id.value == tag
    &&& rule_admits(rule, row.deleted)
    &&& name_contains(row.name, text) || id_prefix_matches(tag, text)
}

impl CatalogView {
    /// A literal token resolves to a tag: by its name or by its id.
    pub open spec fn tag_resolves(self, rule: DeletedRule, text: Seq<char>, tag: u128) -> bool {
        exists|i: int|
            0 <= i < self.tags.len() && resolves(#[trigger] self.tags[i], rule, text, tag)
    }
}

/// The ids among the first `n` rows for which `hits` says yes.
pub open spec fn picked(rows: Seq<TagRowView>, hits: Seq<bool>, n: int) -> Seq<TagId>
    decreases n,
{
    if n <= 0 {
        Seq::empty()
    } else if hits[n - 1] {
        picked(rows, hits, n - 1).push(rows[n - 1].id)
    } else {
        picked(rows, hits, n - 1)
    }
}

proof fn lemma_picked(
    rows: Seq<TagRowView>,
    hits: Seq<bool>,
    p: spec_fn(TagRowView) -> bool,
    n: int,
)
    requires
        0 <= n <= rows.len(),
        hits.len() == rows.len(),
        forall|k: int| 0 <= k < rows.len() ==> hits[k] == p(#[trigger] rows[k]),
    ensures
        picked(rows, hits, n) == rows.take(n).filter(p).map_values(|row: TagRowView| row.id),
    decreases n,
{
    let f = |row: TagRowView| row.id;
    if n > 0 {
        lemma_picked(rows, hits, p, n - 1);
        lemma_filter_map_take(rows, n - 1, p, f);
        assert(hits[n - 1] == p(rows[n - 1]));
    } else {
        lemma_filter_none(rows.take(0), p);
        assert(picked(rows, hits, 0) =~= rows.take(0).filter(p).map_values(f));
    }
}

} // verus!
