//! What each change of the catalog does to its rows: the row it is about takes the change if the
//! change is newer, and every other row and table stays as it was.

use vstd::prelude::*;

use crate::ids::{id_text, FileId, TagId};
use crate::seqs::{
    lemma_filter_agree, lemma_filter_filter, lemma_filter_first, lemma_filter_keeps,
    lemma_filter_last, lemma_filter_member, lemma_filter_none,
};
use crate::state::{DeletedRule, EntryView, PreviewView, RelationshipKind, TagStyle};
use crate::store::entries::lemma_relationship_row;
use crate::store::files::{info_of, lemma_file_row, sum_of, sums_fit};
use crate::store::previews::{caches, decoded, encoded};
use crate::store::schema::{migrated, FileRowV1};
use crate::store::types::{
    same_relationship, CatalogView, FileRowView, FileVersionView, PreviewRowView, TagRowView,
};

verus! {

/// A new file is live, at the path and with the clock it was added with, was never deleted or
/// restored, and comes last; nothing else changes.
pub proof fn law_added_file_is_live(catalog: CatalogView, file_id: FileId, path: Seq<char>, at: i64)
    ensures
        ({
            let after = catalog.with_file(file_id, path, at);
            let row = after.files[after.files.len() - 1];
            &&& after.files.len() == catalog.files.len() + 1
            &&& row.id == file_id && row.logical_path == path && row.logical_path_modified_at == at
            &&& !row.deleted && row.deleted_at == 0 && row.restored_at == 0
            &&& after.files.drop_last() == catalog.files
            &&& after == (CatalogView { files: after.files, ..catalog })
        }),
{
    let after = catalog.with_file(file_id, path, at);
    assert(after.files.drop_last() =~= catalog.files);
}

/// A move gives a file a path if it is newer than the path the file has, and else changes nothing;
/// all else of the file, every other file and every other table stay.
pub proof fn law_newer_move_gives_the_path(
    catalog: CatalogView,
    file_id: FileId,
    path: Seq<char>,
    at: i64,
    i: int,
)
    requires
        0 <= i < catalog.files.len(),
    ensures
        ({
            let after = catalog.after_move(file_id, path, at);
            let before = catalog.files[i];
            let row = after.files[i];
            &&& after.files.len() == catalog.files.len()
            &&& before.id == file_id && at > before.logical_path_modified_at ==> row.logical_path
                == path && row.logical_path_modified_at == at && row.id == before.id && row.deleted
                == before.deleted && row.deleted_at == before.deleted_at && row.restored_at
                == before.restored_at
            &&& before.id != file_id || at <= before.logical_path_modified_at ==> row == before
            &&& after == (CatalogView { files: after.files, ..catalog })
        }),
{
}

/// A delete makes a file a tombstone, with its time, if it is newer than the file's latest version
/// and last restore, and drops the file's previews; else it changes nothing. All else of the file,
/// every other file and the other tables stay.
pub proof fn law_newest_delete_makes_a_tombstone(
    catalog: CatalogView,
    file_id: FileId,
    at: i64,
    i: int,
)
    requires
        catalog.wf(),
        0 <= i < catalog.files.len(),
        catalog.files[i].id == file_id,
    ensures
        ({
            let after = catalog.after_remove_file(file_id, at);
            let before = catalog.files[i];
            let newest = at > before.restored_at && at > catalog.latest_observed_at(file_id);
            &&& after.files.len() == catalog.files.len()
            &&& newest ==> after.files[i].deleted && after.files[i].deleted_at == at
                && after.files[i].id == file_id && after.files[i].logical_path
                == before.logical_path && after.files[i].logical_path_modified_at
                == before.logical_path_modified_at && after.files[i].restored_at
                == before.restored_at
            &&& newest ==> (forall|k: int|
                0 <= k < catalog.files.len() && k != i ==> #[trigger] after.files[k]
                    == catalog.files[k])
            &&& newest ==> (forall|k: int|
                0 <= k < after.previews.len() ==> (#[trigger] after.previews[k]).file_id != file_id)
            &&& !newest ==> after == catalog
            &&& after == (CatalogView {
                files: after.files,
                previews: after.previews,
                ..catalog
            })
        }),
{
    lemma_file_row(catalog, i);
    let after = catalog.after_remove_file(file_id, at);
    let keep = |row: PreviewRowView| row.file_id != file_id;
    if catalog.delete_wins(file_id, at) {
        assert forall|k: int| 0 <= k < after.previews.len() implies (
        #[trigger] after.previews[k]).file_id != file_id by {
            lemma_filter_member(catalog.previews, keep, k);
        }
    }
}

/// A delete of a file that has no row changes nothing.
pub proof fn law_delete_of_an_unknown_file_changes_nothing(
    catalog: CatalogView,
    file_id: FileId,
    at: i64,
)
    requires
        forall|i: int|
            0 <= i < catalog.files.len() ==> (#[trigger] catalog.files[i]).id != file_id,
    ensures
        catalog.after_remove_file(file_id, at) == catalog,
{
}

/// A restore advances the restore clock of a file, never back, and makes the file live if the
/// restore or the latest version is newer than its delete; a tombstone whose delete is newer
/// stands. All else of the file, every other file and every other table stay.
pub proof fn law_newest_restore_makes_a_file_live(
    catalog: CatalogView,
    file_id: FileId,
    at: i64,
    i: int,
)
    requires
        0 <= i < catalog.files.len(),
    ensures
        ({
            let after = catalog.after_apply_restore(file_id, at);
            let before = catalog.files[i];
            let row = after.files[i];
            let observed_at = catalog.latest_observed_at(before.id);
            &&& after.files.len() == catalog.files.len()
            &&& before.id == file_id ==> row.restored_at == if at > before.restored_at {
                at
            } else {
                before.restored_at
            }
            &&& before.id == file_id ==> (row.deleted <==> before.deleted && at
                <= before.deleted_at && before.restored_at <= before.deleted_at && observed_at
                <= before.deleted_at)
            &&& before.id == file_id ==> row.id == before.id && row.logical_path
                == before.logical_path && row.logical_path_modified_at
                == before.logical_path_modified_at && row.deleted_at == before.deleted_at
            &&& before.id != file_id ==> row == before
            &&& after == (CatalogView { files: after.files, ..catalog })
        }),
{
}

/// A look at a tombstone after an edit makes the file live if its latest version is newer than its
/// delete, and else changes nothing.
pub proof fn law_newer_edit_makes_a_file_live(catalog: CatalogView, file_id: FileId, i: int)
    requires
        0 <= i < catalog.files.len(),
    ensures
        ({
            let after = catalog.after_restore_file(file_id);
            let before = catalog.files[i];
            &&& after.files.len() == catalog.files.len()
            &&& after.files[i] == if before.id == file_id && catalog.latest_observed_at(file_id)
                > before.deleted_at {
                FileRowView { deleted: false, ..before }
            } else {
                before
            }
            &&& after == (CatalogView { files: after.files, ..catalog })
        }),
{
}

/// A version is recorded last, as it was given, with the number after that of the file's latest
/// version; the file's previews are dropped, and nothing else changes.
pub proof fn law_version_is_recorded_as_given(
    catalog: CatalogView,
    file_id: FileId,
    content_hash: Seq<char>,
    origin: Seq<char>,
    size: i64,
    observed_at: i64,
)
    requires
        catalog.next_version_number(file_id) <= i64::MAX,
    ensures
        ({
            let after = catalog.with_version(file_id, content_hash, origin, size, observed_at);
            let row = after.versions[after.versions.len() - 1];
            &&& after.versions.len() == catalog.versions.len() + 1
            &&& after.versions.drop_last() == catalog.versions
            &&& row.file_id == file_id && row.content_hash == content_hash && row.origin == origin
                && row.size == size && row.observed_at == observed_at
            &&& row.version_number == catalog.next_version_number(file_id)
            &&& forall|k: int|
                0 <= k < after.previews.len() ==> (#[trigger] after.previews[k]).file_id != file_id
            &&& after == (CatalogView {
                versions: after.versions,
                previews: after.previews,
                ..catalog
            })
        }),
{
    let after = catalog.with_version(file_id, content_hash, origin, size, observed_at);
    assert(after.versions.drop_last() =~= catalog.versions);
    let keep = |row: PreviewRowView| row.file_id != file_id;
    assert forall|k: int| 0 <= k < after.previews.len() implies (
    #[trigger] after.previews[k]).file_id != file_id by {
        lemma_filter_member(catalog.previews, keep, k);
    }
}

/// Dropping the previews of a file drops no other preview: each preview of another file stays.
pub proof fn law_dropping_previews_touches_one_file(
    catalog: CatalogView,
    file_id: FileId,
    other: FileId,
    content_hash: Seq<char>,
)
    requires
        other != file_id,
    ensures
        catalog.without_previews(file_id).cached_preview(other, content_hash)
            == catalog.cached_preview(other, content_hash),
        catalog.without_previews(file_id) == (CatalogView {
            previews: catalog.without_previews(file_id).previews,
            ..catalog
        }),
{
    let keep = |row: PreviewRowView| row.file_id != file_id;
    let hit = |row: PreviewRowView| caches(row, other, content_hash);
    lemma_filter_filter(catalog.previews, keep, hit);
    lemma_filter_agree(
        catalog.previews,
        |row: PreviewRowView| keep(row) && hit(row),
        hit,
    );
}

/// A preview is cached in the columns that a stored preview has: an image as kind 0 with its bytes
/// and edges, a text as kind 1 with its bytes, and the finding that there is none as kind 2.
pub proof fn law_preview_is_stored_by_kind(
    file_id: FileId,
    content_hash: Seq<char>,
    preview: PreviewView,
    at: i64,
)
    ensures
        ({
            let row = encoded(file_id, content_hash, preview, at);
            &&& row.file_id == file_id && row.content_hash == content_hash && row.generated_at == at
            &&& match preview {
                PreviewView::Image { bytes, width, height } => row.kind == 0 && row.data == Some(
                    bytes,
                ) && row.width == Some(width as i64) && row.height == Some(height as i64),
                PreviewView::Text(text) => row.kind == 1 && row.data == Some(
                    vstd::utf8::encode_utf8(text),
                ) && row.width is None && row.height is None,
                PreviewView::Absent => row.kind == 2 && row.data is None && row.width is None
                    && row.height is None,
            }
        }),
{
}

/// A cached preview is found by its file and its content, whatever else is cached.
pub proof fn law_cached_preview_is_found(catalog: CatalogView, k: int)
    requires
        catalog.wf(),
        0 <= k < catalog.previews.len(),
    ensures
        catalog.cached_preview(catalog.previews[k].file_id, catalog.previews[k].content_hash)
            == Some(decoded(catalog.previews[k])),
{
    let row = catalog.previews[k];
    let hit = |other: PreviewRowView| caches(other, row.file_id, row.content_hash);
    assert forall|m: int| 0 <= m < k implies !hit(#[trigger] catalog.previews[m]) by {
        if hit(catalog.previews[m]) {
            assert(crate::store::types::same_preview_key(catalog.previews[m], row));
        }
    }
    lemma_filter_first(catalog.previews, k, hit);
}

/// A definition of a tag gives a tag that has a row its name, style and clock and makes it live, if
/// it is newer, and else changes nothing; one of a tag without a row adds a live row. Every other
/// tag and every other table stay.
pub proof fn law_newer_definition_defines_the_tag(
    catalog: CatalogView,
    tag_id: TagId,
    name: Seq<char>,
    style: TagStyle,
    at: i64,
    i: int,
)
    requires
        0 <= i < catalog.tags.len(),
    ensures
        ({
            let after = catalog.with_tag(tag_id, name, style, at);
            let row = TagRowView { id: tag_id, name, modified_at: at, deleted: false, style };
            let known = exists|k: int|
                0 <= k < catalog.tags.len() && (#[trigger] catalog.tags[k]).id == tag_id;
            &&& after.tags[i] == if catalog.tags[i].id == tag_id && at
                > catalog.tags[i].modified_at {
                row
            } else {
                catalog.tags[i]
            }
            &&& known ==> after.tags.len() == catalog.tags.len()
            &&& !known ==> after.tags == catalog.tags.push(row)
            &&& after == (CatalogView { tags: after.tags, ..catalog })
        }),
{
    if catalog.tags[i].id == tag_id {
        assert(catalog.has_tag(tag_id));
    }
}

/// The first definition of a tag adds its row.
pub proof fn law_first_tag_is_added(
    catalog: CatalogView,
    tag_id: TagId,
    name: Seq<char>,
    style: TagStyle,
    at: i64,
)
    requires
        catalog.tags.len() == 0,
    ensures
        catalog.with_tag(tag_id, name, style, at).tags == seq![
            TagRowView { id: tag_id, name, modified_at: at, deleted: false, style },
        ],
{
    assert(catalog.with_tag(tag_id, name, style, at).tags =~= seq![
        TagRowView { id: tag_id, name, modified_at: at, deleted: false, style },
    ]);
}

/// A rename, a restyling and a removal change a tag if they are newer than what is known of it, and
/// else nothing: a rename its name, a restyling its style, and both make it live; a removal makes
/// it a tombstone. Each sets the clock; every other tag and every other table stay.
pub proof fn law_newer_edit_changes_the_tag(
    catalog: CatalogView,
    tag_id: TagId,
    name: Seq<char>,
    style: TagStyle,
    at: i64,
    i: int,
)
    requires
        0 <= i < catalog.tags.len(),
    ensures
        ({
            let row = catalog.tags[i];
            let newer = row.id == tag_id && at > row.modified_at;
            let renamed = catalog.with_tag_name(tag_id, name, at);
            let restyled = catalog.with_tag_style(tag_id, style, at);
            let removed = catalog.without_tag(tag_id, at);
            &&& renamed.tags[i] == if newer {
                TagRowView { id: row.id, name, modified_at: at, deleted: false, style: row.style }
            } else {
                row
            }
            &&& restyled.tags[i] == if newer {
                TagRowView { id: row.id, name: row.name, modified_at: at, deleted: false, style }
            } else {
                row
            }
            &&& removed.tags[i] == if newer {
                TagRowView {
                    id: row.id,
                    name: row.name,
                    modified_at: at,
                    deleted: true,
                    style: row.style,
                }
            } else {
                row
            }
            &&& renamed.tags.len() == catalog.tags.len()
            &&& restyled.tags.len() == catalog.tags.len()
            &&& removed.tags.len() == catalog.tags.len()
            &&& renamed == (CatalogView { tags: renamed.tags, ..catalog })
            &&& restyled == (CatalogView { tags: restyled.tags, ..catalog })
            &&& removed == (CatalogView { tags: removed.tags, ..catalog })
        }),
{
}

/// A state of a relationship is taken over by the row of the relationship if it is newer, and else
/// changes nothing; a relationship without a row gets one. Every other relationship and every
/// other table stay.
pub proof fn law_newer_relationship_is_taken_over(
    catalog: CatalogView,
    incoming: EntryView,
    e: int,
)
    requires
        0 <= e < catalog.entries.len(),
    ensures
        ({
            let after = catalog.with_relationship(incoming);
            let row = catalog.entries[e];
            let same = row.tag_id == incoming.tag_id && row.target_id == incoming.target_id
                && row.kind == incoming.kind;
            let known = exists|k: int|
                0 <= k < catalog.entries.len() && (#[trigger] catalog.entries[k]).tag_id
                    == incoming.tag_id && catalog.entries[k].target_id == incoming.target_id
                    && catalog.entries[k].kind == incoming.kind;
            &&& after.entries[e] == if same && incoming.modified_at > row.modified_at {
                incoming
            } else {
                row
            }
            &&& known ==> after.entries.len() == catalog.entries.len()
            &&& !known ==> after.entries == catalog.entries.push(incoming)
            &&& after == (CatalogView { entries: after.entries, ..catalog })
        }),
{
    let after = catalog.with_relationship(incoming);
    if exists|k: int|
        0 <= k < catalog.entries.len() && (#[trigger] catalog.entries[k]).tag_id
            == incoming.tag_id && catalog.entries[k].target_id == incoming.target_id
            && catalog.entries[k].kind == incoming.kind {
        let k = choose|k: int|
            0 <= k < catalog.entries.len() && (#[trigger] catalog.entries[k]).tag_id
                == incoming.tag_id && catalog.entries[k].target_id == incoming.target_id
                && catalog.entries[k].kind == incoming.kind;
        assert(same_relationship(catalog.entries[k], incoming));
    }
    if catalog.has_relationship(incoming) {
        let k = choose|k: int|
            0 <= k < catalog.entries.len() && same_relationship(
                #[trigger] catalog.entries[k],
                incoming,
            );
        assert(catalog.entries[k].tag_id == incoming.tag_id);
    }
}

/// An untagging makes the row of a relationship a tombstone, with its time, if it is newer, and else
/// changes nothing; every other relationship and every other table stay.
pub proof fn law_newer_untagging_makes_a_tombstone(
    catalog: CatalogView,
    key: EntryView,
    at: i64,
    e: int,
)
    requires
        0 <= e < catalog.entries.len(),
    ensures
        ({
            let after = catalog.without_relationship(key, at);
            let row = catalog.entries[e];
            &&& after.entries.len() == catalog.entries.len()
            &&& after.entries[e] == if row.tag_id == key.tag_id && row.target_id == key.target_id
                && row.kind == key.kind && at > row.modified_at {
                EntryView { deleted: true, modified_at: at, ..row }
            } else {
                row
            }
            &&& after == (CatalogView { entries: after.entries, ..catalog })
        }),
{
}

/// What a stripped file leaves: every row that does not speak of the file. The rows that speak of
/// it are its own row, its versions, its taggings, which name it as their target, and its previews.
pub proof fn law_strip_keeps_what_speaks_of_other_files(
    catalog: CatalogView,
    file_id: FileId,
    i: int,
    j: int,
    e: int,
    p: int,
)
    ensures
        ({
            let after = catalog.stripped(file_id);
            &&& 0 <= i < catalog.files.len() && catalog.files[i].id != file_id
                ==> after.files.contains(catalog.files[i])
            &&& 0 <= j < catalog.versions.len() && catalog.versions[j].file_id != file_id
                ==> after.versions.contains(catalog.versions[j])
            &&& 0 <= e < catalog.entries.len() && !(catalog.entries[e].kind
                == RelationshipKind::File && catalog.entries[e].target_id == id_text(file_id.value))
                ==> after.entries.contains(catalog.entries[e])
            &&& 0 <= p < catalog.previews.len() && catalog.previews[p].file_id != file_id
                ==> after.previews.contains(catalog.previews[p])
            &&& 0 <= e < after.entries.len() ==> !(after.entries[e].kind == RelationshipKind::File
                && after.entries[e].target_id == id_text(file_id.value))
            &&& after.tags == catalog.tags && after.purged == catalog.purged
        }),
{
    let after = catalog.stripped(file_id);
    let files = |row: FileRowView| row.id != file_id;
    let versions = |row: FileVersionView| row.file_id != file_id;
    let entries = |row: EntryView| !crate::store::purged::tags_this_file(row, file_id);
    let previews = |row: PreviewRowView| row.file_id != file_id;
    if 0 <= i < catalog.files.len() && catalog.files[i].id != file_id {
        lemma_filter_keeps(catalog.files, files, i);
    }
    if 0 <= j < catalog.versions.len() && catalog.versions[j].file_id != file_id {
        lemma_filter_keeps(catalog.versions, versions, j);
    }
    if 0 <= e < catalog.entries.len() && !(catalog.entries[e].kind == RelationshipKind::File
        && catalog.entries[e].target_id == id_text(file_id.value)) {
        lemma_filter_keeps(catalog.entries, entries, e);
    }
    if 0 <= p < catalog.previews.len() && catalog.previews[p].file_id != file_id {
        lemma_filter_keeps(catalog.previews, previews, p);
    }
    if 0 <= e < after.entries.len() {
        lemma_filter_member(catalog.entries, entries, e);
    }
}

/// A purge changes nothing but the set of purged files.
pub proof fn law_purge_touches_only_the_purges(catalog: CatalogView, file_id: FileId)
    ensures
        catalog.with_purge(file_id) == (CatalogView {
            purged: catalog.with_purge(file_id).purged,
            ..catalog
        }),
        catalog.with_purge(file_id).purged.contains(file_id),
{
    if !catalog.purged.contains(file_id) {
        let after = catalog.purged.push(file_id);
        assert(after[after.len() - 1] == file_id);
    }
}

/// A file that is listed is shown with its path, and with the hash, number, size and time of its
/// latest version and the time of its first.
pub proof fn law_listing_shows_the_latest_version(
    catalog: CatalogView,
    row: FileRowView,
    length: nat,
    first: int,
    last: int,
)
    requires
        0 <= first < catalog.versions.len(),
        0 <= last < catalog.versions.len(),
        catalog.versions[first].file_id == row.id,
        catalog.versions[last].file_id == row.id,
        forall|j: int| 0 <= j < first ==> (#[trigger] catalog.versions[j]).file_id != row.id,
        forall|j: int|
            last < j < catalog.versions.len() ==> (#[trigger] catalog.versions[j]).file_id != row.id,
    ensures
        ({
            let info = info_of(row, catalog.versions_of(row.id), length);
            let latest = catalog.versions[last];
            &&& info.file_id == row.id && info.logical_path == row.logical_path && info.deleted
                == row.deleted
            &&& info.content_hash == latest.content_hash && info.version_number
                == latest.version_number && info.size == latest.size as u64
            &&& info.latest_change_at == latest.observed_at && info.first_recorded_at
                == catalog.versions[first].observed_at
            &&& info.short_id_length == length
        }),
{
    let p = |version: FileVersionView| version.file_id == row.id;
    lemma_filter_first(catalog.versions, first, p);
    lemma_filter_last(catalog.versions, last, p);
}

/// A listing shows the files that have a version, those that are tombstoned only where they are
/// asked for, and no others.
pub proof fn law_listing_shows_what_has_a_version(
    catalog: CatalogView,
    row: FileRowView,
    rule: DeletedRule,
)
    ensures
        catalog.is_listed(row, rule) == ((rule is Include || !row.deleted) && exists|j: int|
            0 <= j < catalog.versions.len() && (#[trigger] catalog.versions[j]).file_id == row.id),
{
    let p = |version: FileVersionView| version.file_id == row.id;
    if catalog.versions_of(row.id).len() > 0 {
        lemma_filter_member(catalog.versions, p, 0);
        let j = choose|j: int|
            0 <= j < catalog.versions.len() && catalog.versions[j] == catalog.versions.filter(p)[0];
        assert(catalog.versions[j].file_id == row.id);
    }
    if exists|j: int|
        0 <= j < catalog.versions.len() && (#[trigger] catalog.versions[j]).file_id == row.id {
        let j = choose|j: int|
            0 <= j < catalog.versions.len() && (#[trigger] catalog.versions[j]).file_id == row.id;
        lemma_filter_keeps(catalog.versions, p, j);
    }
}

/// The sizes of files add up: those of two lists to the sum of both, and that of one to itself.
pub proof fn law_sizes_add_up(a: Seq<i64>, b: Seq<i64>, size: i64)
    ensures
        sum_of(a + b) == sum_of(a) + sum_of(b),
        sum_of(seq![size]) == size,
        sum_of(Seq::<i64>::empty()) == 0,
    decreases b.len(),
{
    reveal_with_fuel(sum_of, 2);
    assert(seq![size].drop_last() =~= Seq::<i64>::empty());
    if b.len() > 0 {
        law_sizes_add_up(a, b.drop_last(), size);
        assert((a + b).drop_last() =~= a + b.drop_last());
    } else {
        assert(a + b =~= a);
    }
}

/// Sizes that are not negative and whose sum can be counted can be summed.
pub proof fn law_countable_sizes_are_summed(sizes: Seq<i64>)
    requires
        forall|k: int| 0 <= k < sizes.len() ==> #[trigger] sizes[k] >= 0,
        sum_of(sizes) <= i64::MAX,
    ensures
        sums_fit(sizes),
{
    assert forall|k: int| 0 <= k <= sizes.len() implies i64::MIN <= #[trigger] sum_of(sizes.take(k))
        <= i64::MAX by {
        let a = sizes.take(k);
        let b = sizes.skip(k);
        assert(a + b =~= sizes);
        law_sizes_add_up(a, b, 0);
        lemma_sum_is_positive(a);
        lemma_sum_is_positive(b);
    }
}

proof fn lemma_sum_is_positive(sizes: Seq<i64>)
    requires
        forall|k: int| 0 <= k < sizes.len() ==> #[trigger] sizes[k] >= 0,
    ensures
        sum_of(sizes) >= 0,
    decreases sizes.len(),
{
    if sizes.len() > 0 {
        assert forall|k: int| 0 <= k < sizes.drop_last().len() implies #[trigger] sizes.drop_last()[k]
            >= 0 by {
            assert(sizes.drop_last()[k] == sizes[k]);
        }
        lemma_sum_is_positive(sizes.drop_last());
        assert(sizes[sizes.len() - 1] >= 0);
    }
}

/// A file row of the older form keeps all that it says, and was never restored.
pub proof fn law_older_row_keeps_what_it_says(row: FileRowV1)
    ensures
        migrated(row).id == row.id,
        migrated(row).logical_path == row.logical_path@,
        migrated(row).logical_path_modified_at == row.logical_path_modified_at,
        migrated(row).deleted == row.deleted,
        migrated(row).deleted_at == row.deleted_at,
        migrated(row).restored_at == 0,
{
}

/// What the catalog says of a file, a tag or a relationship is what its row says.
pub proof fn law_lookups_give_the_row(catalog: CatalogView, i: int, t: int, e: int)
    requires
        catalog.wf(),
    ensures
        0 <= i < catalog.files.len() ==> catalog.has_file(catalog.files[i].id) && catalog.file(
            catalog.files[i].id,
        ) == catalog.files[i],
        0 <= t < catalog.tags.len() ==> catalog.has_tag(catalog.tags[t].id) && catalog.tag(
            catalog.tags[t].id,
        ) == catalog.tags[t],
        0 <= e < catalog.entries.len() ==> catalog.has_relationship(catalog.entries[e])
            && catalog.relationship(catalog.entries[e]) == catalog.entries[e],
{
    if 0 <= i < catalog.files.len() {
        lemma_file_row(catalog, i);
    }
    if 0 <= t < catalog.tags.len() {
        crate::store::tags::lemma_tag_row(catalog, t);
    }
    if 0 <= e < catalog.entries.len() {
        lemma_relationship_row(catalog, catalog.entries[e], e);
    }
}

/// Nothing is said of a file, a tag or a relationship that has no row.
pub proof fn law_nothing_is_said_without_a_row(
    catalog: CatalogView,
    file_id: FileId,
    tag_id: TagId,
    key: EntryView,
)
    ensures
        catalog.has_file(file_id) ==> exists|i: int|
            0 <= i < catalog.files.len() && (#[trigger] catalog.files[i]).id == file_id,
        catalog.has_tag(tag_id) ==> exists|i: int|
            0 <= i < catalog.tags.len() && (#[trigger] catalog.tags[i]).id == tag_id,
        catalog.has_relationship(key) ==> exists|e: int|
            0 <= e < catalog.entries.len() && (#[trigger] catalog.entries[e]).tag_id == key.tag_id
                && catalog.entries[e].target_id == key.target_id && catalog.entries[e].kind
                == key.kind,
{
    if catalog.has_relationship(key) {
        let e = choose|e: int|
            0 <= e < catalog.entries.len() && same_relationship(#[trigger] catalog.entries[e], key);
        assert(catalog.entries[e].tag_id == key.tag_id);
    }
}

/// The latest version of a file is the one that was recorded last; there is none where none was
/// recorded.
pub proof fn law_latest_version_was_recorded_last(catalog: CatalogView, file_id: FileId, n: int)
    requires
        (0 <= n < catalog.versions.len() && catalog.versions[n].file_id == file_id) || n
            == catalog.versions.len() as int && forall|j: int|
            0 <= j < catalog.versions.len() ==> (#[trigger] catalog.versions[j]).file_id != file_id,
        forall|j: int|
            n < j < catalog.versions.len() ==> (#[trigger] catalog.versions[j]).file_id != file_id,
    ensures
        catalog.latest_version(file_id) == if n < catalog.versions.len() {
            Some(catalog.versions[n])
        } else {
            None
        },
{
    let p = |version: FileVersionView| version.file_id == file_id;
    if n < catalog.versions.len() {
        lemma_filter_last(catalog.versions, n, p);
    } else {
        lemma_filter_none(catalog.versions, p);
    }
}

} // verus!
