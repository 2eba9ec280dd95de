//! What two devices agree on once each has taken in what the other announces.

use vstd::prelude::*;

use crate::ids::{FileId, TagId};
use crate::peer::plan::{knows_hash, wins_content, wins_delete, wins_restore};
use crate::state::EntryView;
use crate::store::entries::{lemma_relationship_row, merged_row};
use crate::store::files::{lemma_file_row, ManifestEntryView};
use crate::store::laws::{
    law_history_is_append_only, lemma_updated_file, tombstones_are_newest,
};
use crate::store::tags::{lemma_tag_row, lemma_updated_tag};
use crate::store::types::{
    entries_distinct, same_relationship, CatalogView, FileRowView, TagRowView,
};

verus! {

proof fn lemma_moved(catalog: CatalogView, file_id: FileId, path: Seq<char>, at: i64)
    requires
        catalog.wf(),
        catalog.has_file(file_id),
    ensures
        ({
            let before = catalog.file(file_id);
            let after = catalog.after_move(file_id, path, at).file(file_id);
            if before.logical_path_modified_at < at {
                after.logical_path == path && after.logical_path_modified_at == at
            } else {
                after == before
            }
        }),
{
    let change = |row: FileRowView|
        if row.logical_path_modified_at < at {
            FileRowView { logical_path: path, logical_path_modified_at: at, ..row }
        } else {
            row
        };
    lemma_updated_file(catalog, file_id, change, file_id);
}

/// Two devices that take in each other's path of a file agree on it, unless they changed it at
/// the very same time.
pub proof fn law_exchanged_paths_agree(ours: CatalogView, theirs: CatalogView, file_id: FileId)
    requires
        ours.wf(),
        theirs.wf(),
        ours.has_file(file_id),
        theirs.has_file(file_id),
        ours.file(file_id).logical_path_modified_at == theirs.file(
            file_id,
        ).logical_path_modified_at ==> ours.file(file_id).logical_path == theirs.file(
            file_id,
        ).logical_path,
    ensures
        ({
            let a = ours.file(file_id);
            let b = theirs.file(file_id);
            let ours_after = ours.after_move(file_id, b.logical_path, b.logical_path_modified_at);
            let theirs_after = theirs.after_move(
                file_id,
                a.logical_path,
                a.logical_path_modified_at,
            );
            &&& ours_after.file(file_id).logical_path == theirs_after.file(file_id).logical_path
            &&& ours_after.file(file_id).logical_path_modified_at == theirs_after.file(
                file_id,
            ).logical_path_modified_at
        }),
{
    let a = ours.file(file_id);
    let b = theirs.file(file_id);
    lemma_moved(ours, file_id, b.logical_path, b.logical_path_modified_at);
    lemma_moved(theirs, file_id, a.logical_path, a.logical_path_modified_at);
}

proof fn lemma_merged(catalog: CatalogView, incoming: EntryView)
    requires
        entries_distinct(catalog.entries),
    ensures
        entries_distinct(catalog.with_relationship(incoming).entries),
        catalog.with_relationship(incoming).has_relationship(incoming),
        catalog.with_relationship(incoming).relationship(incoming) == if catalog.has_relationship(
            incoming,
        ) {
            merged_row(catalog.relationship(incoming), incoming)
        } else {
            incoming
        },
{
    let after = catalog.with_relationship(incoming);
    if catalog.has_relationship(incoming) {
        let i = choose|i: int|
            0 <= i < catalog.entries.len() && same_relationship(
                #[trigger] catalog.entries[i],
                incoming,
            );
        lemma_relationship_row(catalog, incoming, i);
        assert forall|j: int, k: int|
            0 <= j < after.entries.len() && 0 <= k < after.entries.len() && j
                != k implies !same_relationship(
            #[trigger] after.entries[j],
            #[trigger] after.entries[k],
        ) by {
            assert(!same_relationship(catalog.entries[j], catalog.entries[k]));
        }
        assert(after.entries[i] == merged_row(catalog.entries[i], incoming));
        lemma_relationship_row(after, incoming, i);
    } else {
        let n = catalog.entries.len() as int;
        assert forall|j: int, k: int|
            0 <= j < after.entries.len() && 0 <= k < after.entries.len() && j
                != k implies !same_relationship(
            #[trigger] after.entries[j],
            #[trigger] after.entries[k],
        ) by {
            if j < n && k < n {
                assert(!same_relationship(catalog.entries[j], catalog.entries[k]));
            } else if j < n {
                assert(!same_relationship(catalog.entries[j], incoming));
            } else {
                assert(!same_relationship(catalog.entries[k], incoming));
            }
        }
        assert(after.entries[n] == incoming);
        lemma_relationship_row(after, incoming, n);
    }
}

/// Two devices that take in each other's state of a relationship agree on it, unless they
/// changed it at the very same time.
pub proof fn law_exchanged_relationships_agree(
    ours: CatalogView,
    theirs: CatalogView,
    key: EntryView,
)
    requires
        entries_distinct(ours.entries),
        entries_distinct(theirs.entries),
        ours.has_relationship(key),
        theirs.has_relationship(key),
        ours.relationship(key).modified_at == theirs.relationship(key).modified_at
            ==> ours.relationship(key).deleted == theirs.relationship(key).deleted,
    ensures
        ours.with_relationship(theirs.relationship(key)).relationship(key)
            == theirs.with_relationship(ours.relationship(key)).relationship(key),
{
    let a = ours.relationship(key);
    let b = theirs.relationship(key);
    lemma_same_key(ours, key);
    lemma_same_key(theirs, key);
    lemma_key_is_all(ours, key, b);
    lemma_key_is_all(theirs, key, a);
    lemma_merged(ours, b);
    lemma_merged(theirs, a);
    lemma_key_is_all(ours.with_relationship(b), b, key);
    lemma_key_is_all(theirs.with_relationship(a), a, key);
}

proof fn lemma_same_key(catalog: CatalogView, key: EntryView)
    requires
        catalog.has_relationship(key),
    ensures
        same_relationship(catalog.relationship(key), key),
{
}

/// A relationship is found by any state of it.
proof fn lemma_key_is_all(catalog: CatalogView, a: EntryView, b: EntryView)
    requires
        entries_distinct(catalog.entries),
        same_relationship(a, b),
        catalog.has_relationship(a),
    ensures
        catalog.has_relationship(b),
        catalog.relationship(a) == catalog.relationship(b),
{
    let i = choose|i: int|
        0 <= i < catalog.entries.len() && same_relationship(#[trigger] catalog.entries[i], a);
    lemma_relationship_row(catalog, a, i);
    lemma_relationship_row(catalog, b, i);
}

/// The catalog after another device's row of a tag was taken in: a tombstone is applied as a
/// delete, a live row as a definition.
pub open spec fn with_definition(catalog: CatalogView, row: TagRowView) -> CatalogView {
    if row.deleted {
        catalog.without_tag(row.id, row.modified_at)
    } else {
        catalog.with_tag(row.id, row.name, row.style, row.modified_at)
    }
}

proof fn lemma_defined(catalog: CatalogView, row: TagRowView)
    requires
        catalog.wf(),
        catalog.has_tag(row.id),
    ensures
        with_definition(catalog, row).tag(row.id) == if row.modified_at > catalog.tag(
            row.id,
        ).modified_at {
            if row.deleted {
                TagRowView {
                    deleted: true,
                    modified_at: row.modified_at,
                    ..catalog.tag(row.id)
                }
            } else {
                row
            }
        } else {
            catalog.tag(row.id)
        },
{
    let at = row.modified_at;
    let removing = |old_row: TagRowView| TagRowView { deleted: true, modified_at: at, ..old_row };
    let live = TagRowView { deleted: false, ..row };
    let defining = |old_row: TagRowView| live;
    lemma_updated_tag(catalog, row.id, at, removing);
    lemma_updated_tag(catalog, row.id, at, defining);
}

/// Two devices that take in each other's row of a tag, live or tombstoned, agree on whether it is
/// live and on its clock, and on the whole of it if it is live or if they agreed on its name and
/// style before; unless they changed it at the very same time. A tombstone carries no name or
/// style, so a tag that ends up tombstoned keeps on each device those that it had there.
pub proof fn law_exchanged_definitions_agree(ours: CatalogView, theirs: CatalogView, tag_id: TagId)
    requires
        ours.wf(),
        theirs.wf(),
        ours.has_tag(tag_id),
        theirs.has_tag(tag_id),
        ours.tag(tag_id).modified_at == theirs.tag(tag_id).modified_at ==> ours.tag(tag_id)
            == theirs.tag(tag_id),
    ensures
        ({
            let ours_after = with_definition(ours, theirs.tag(tag_id)).tag(tag_id);
            let theirs_after = with_definition(theirs, ours.tag(tag_id)).tag(tag_id);
            &&& ours_after.deleted == theirs_after.deleted
            &&& ours_after.modified_at == theirs_after.modified_at
            &&& !ours_after.deleted ==> ours_after == theirs_after
            &&& ours.tag(tag_id).name == theirs.tag(tag_id).name && ours.tag(tag_id).style
                == theirs.tag(tag_id).style ==> ours_after == theirs_after
        }),
{
    let i = choose|i: int|
        0 <= i < ours.tags.len() && (#[trigger] ours.tags[i]).id == tag_id;
    lemma_tag_row(ours, i);
    let j = choose|j: int|
        0 <= j < theirs.tags.len() && (#[trigger] theirs.tags[j]).id == tag_id;
    lemma_tag_row(theirs, j);
    lemma_defined(ours, theirs.tag(tag_id));
    lemma_defined(theirs, ours.tag(tag_id));
}

/// A device that does not know a tag has it just as another device does once it has taken in that
/// device's live row of it.
pub proof fn law_unknown_definition_is_taken_over(
    ours: CatalogView,
    theirs: CatalogView,
    tag_id: TagId,
)
    requires
        ours.wf(),
        theirs.wf(),
        !ours.has_tag(tag_id),
        theirs.has_tag(tag_id),
        !theirs.tag(tag_id).deleted,
    ensures
        with_definition(ours, theirs.tag(tag_id)).has_tag(tag_id),
        with_definition(ours, theirs.tag(tag_id)).tag(tag_id) == theirs.tag(tag_id),
{
    let j = choose|j: int|
        0 <= j < theirs.tags.len() && (#[trigger] theirs.tags[j]).id == tag_id;
    lemma_tag_row(theirs, j);
    let after = with_definition(ours, theirs.tag(tag_id));
    let n = ours.tags.len() as int;
    assert(after.tags[n] == theirs.tag(tag_id));
    assert forall|a: int, b: int|
        0 <= a < after.tags.len() && 0 <= b < after.tags.len() && a != b implies (
    #[trigger] after.tags[a]).id != (#[trigger] after.tags[b]).id by {
        if a < n {
            assert(after.tags[a] == ours.tags[a]);
        }
        if b < n {
            assert(after.tags[b] == ours.tags[b]);
        }
    }
    lemma_tag_row(after, n);
}

/// The catalog after the delete or the restore that an announced entry plans, if it plans one.
pub open spec fn with_tombstone(catalog: CatalogView, entry: ManifestEntryView) -> CatalogView {
    if wins_delete(catalog, entry) {
        catalog.after_remove_file(entry.file_id, entry.deleted_at)
    } else if wins_restore(catalog, entry) {
        catalog.after_apply_restore(entry.file_id, entry.restored_at)
    } else {
        catalog
    }
}

proof fn lemma_tombstone(catalog: CatalogView, entry: ManifestEntryView)
    requires
        catalog.wf(),
        catalog.has_file(entry.file_id),
    ensures
        with_tombstone(catalog, entry).has_file(entry.file_id),
        ({
            let before = catalog.file(entry.file_id);
            let after = with_tombstone(catalog, entry).file(entry.file_id);
            if wins_delete(catalog, entry) {
                after == (FileRowView { deleted: true, deleted_at: entry.deleted_at, ..before })
            } else if wins_restore(catalog, entry) {
                after == catalog.restored_row(before, entry.restored_at)
            } else {
                after == before
            }
        }),
{
    let file_id = entry.file_id;
    let deleted_at = entry.deleted_at;
    let removing = |row: FileRowView| FileRowView { deleted: true, deleted_at, ..row };
    lemma_updated_file(catalog, file_id, removing, file_id);
    let removed = catalog.update_file(file_id, removing);
    assert(removed.without_previews(file_id).files == removed.files);
    let restoring = |row: FileRowView| catalog.restored_row(row, entry.restored_at);
    lemma_updated_file(catalog, file_id, restoring, file_id);
}

/// Two devices that hold the same content of a file, and of which each carries out the delete or
/// the restore that the other's entry plans, agree on whether the file is live, and a tombstone
/// that one of them brought has the same time on both; unless a delete happened at the very same
/// time as the latest edit or the other's restore. Times are positive, 0 standing for a file that
/// was never restored, and each device keeps it that its tombstones are newest.
pub proof fn law_exchanged_tombstones_agree(
    ours: CatalogView,
    theirs: CatalogView,
    file_id: FileId,
)
    requires
        ours.wf(),
        theirs.wf(),
        ours.has_file(file_id),
        theirs.has_file(file_id),
        tombstones_are_newest(ours),
        tombstones_are_newest(theirs),
        ours.history_of(file_id).len() > 0,
        ours.history_of(file_id) == theirs.history_of(file_id),
        ours.latest_observed_at(file_id) == theirs.latest_observed_at(file_id),
        ours.file(file_id).restored_at >= 0,
        theirs.file(file_id).restored_at >= 0,
        ours.file(file_id).deleted ==> ours.file(file_id).deleted_at > 0
            && ours.file(file_id).deleted_at != ours.latest_observed_at(file_id)
            && ours.file(file_id).deleted_at != theirs.file(file_id).restored_at,
        theirs.file(file_id).deleted ==> theirs.file(file_id).deleted_at > 0
            && theirs.file(file_id).deleted_at != theirs.latest_observed_at(file_id)
            && theirs.file(file_id).deleted_at != ours.file(file_id).restored_at,
    ensures
        ({
            let a = ours.file(file_id);
            let b = theirs.file(file_id);
            let ours_after = with_tombstone(ours, theirs.manifest_entry(b)).file(file_id);
            let theirs_after = with_tombstone(theirs, ours.manifest_entry(a)).file(file_id);
            &&& ours_after.deleted == theirs_after.deleted
            &&& ours_after.deleted && a.deleted != b.deleted ==> ours_after.deleted_at
                == theirs_after.deleted_at
        }),
{
    let i = choose|i: int| 0 <= i < ours.files.len() && (#[trigger] ours.files[i]).id == file_id;
    lemma_file_row(ours, i);
    let j = choose|j: int|
        0 <= j < theirs.files.len() && (#[trigger] theirs.files[j]).id == file_id;
    lemma_file_row(theirs, j);
    let a = ours.file(file_id);
    let b = theirs.file(file_id);
    lemma_tombstone(ours, theirs.manifest_entry(b));
    lemma_tombstone(theirs, ours.manifest_entry(a));
    assert(ours.files[i] == a && theirs.files[j] == b);
}

/// Once a device has recorded the content it pulled from another, it has the other's latest
/// content, and neither of the two pulls from the other.
pub proof fn law_pulled_content_agrees(
    ours: CatalogView,
    theirs: CatalogView,
    file_id: FileId,
    origin: Seq<char>,
    size: i64,
    observed_at: i64,
)
    requires
        ours.wf(),
        theirs.wf(),
        ours.has_file(file_id),
        theirs.has_file(file_id),
        ours.next_version_number(file_id) <= i64::MAX,
        wins_content(ours, theirs.manifest_entry(theirs.file(file_id))),
    ensures
        ({
            let hash = theirs.history_of(file_id).last().1;
            let after = ours.with_version(file_id, hash, origin, size, observed_at);
            &&& after.history_of(file_id).last().1 == hash
            &&& !wins_content(after, theirs.manifest_entry(theirs.file(file_id)))
            &&& !wins_content(theirs, after.manifest_entry(after.file(file_id)))
        }),
{
    let k = choose|k: int|
        0 <= k < theirs.files.len() && (#[trigger] theirs.files[k]).id == file_id;
    lemma_file_row(theirs, k);
    let hash = theirs.history_of(file_id).last().1;
    law_history_is_append_only(ours, file_id, hash, origin, size, observed_at);
    let after = ours.with_version(file_id, hash, origin, size, observed_at);
    let i = choose|i: int| 0 <= i < ours.files.len() && (#[trigger] ours.files[i]).id == file_id;
    assert(after.files == ours.files);
    lemma_file_row(after, i);
    let mine = after.history_of(file_id);
    let other = theirs.history_of(file_id);
    assert(mine[mine.len() - 1].1 == hash);
    assert(knows_hash(mine, hash));
    assert(other[other.len() - 1].1 == hash);
    assert(knows_hash(other, hash));
}

} // verus!
