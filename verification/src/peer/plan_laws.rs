//! What holds of file reconciliation over several steps: applied plans settle, and two devices
//! do not both pull.

use vstd::prelude::*;

use crate::ids::FileId;
use crate::peer::plan::{
    file_sync_plan, is_tombstoned, knows_hash, wins_content, wins_delete, wins_move, wins_restore,
    SyncPlanView,
};
use crate::seqs::{lemma_filter_member, lemma_filter_none};
use crate::store::files::{lemma_file_row, ManifestEntryView};
use crate::store::laws::{law_history_is_append_only, law_newer_restore_revives, lemma_updated_file};
use crate::store::types::{CatalogView, FileRowView};

verus! {

/// A device that hears its own manifest has nothing to do.
pub proof fn law_own_manifest_plans_nothing(catalog: CatalogView)
    requires
        catalog.wf(),
    ensures
        file_sync_plan(catalog, catalog.manifest()) == SyncPlanView::nothing(),
{
    let entries = catalog.manifest();
    assert forall|i: int| 0 <= i < entries.len() implies !wins_content(
        catalog,
        #[trigger] entries[i],
    ) && !wins_delete(catalog, entries[i]) && !wins_restore(catalog, entries[i]) && !wins_move(
        catalog,
        entries[i],
    ) by {
        let p = |row: FileRowView| catalog.versions_of(row.id).len() > 0;
        lemma_filter_member(catalog.files, p, i);
        let row = catalog.files.filter(p)[i];
        let k = choose|k: int| 0 <= k < catalog.files.len() && catalog.files[k] == row;
        lemma_file_row(catalog, k);
        let history = catalog.history_of(row.id);
        assert(entries[i] == catalog.manifest_entry(row));
        assert(history[history.len() - 1].1 == history.last().1);
        assert(knows_hash(history, history.last().1));
    }
    lemma_filter_none(entries, |entry: ManifestEntryView| wins_content(catalog, entry));
    lemma_filter_none(entries, |entry: ManifestEntryView| wins_delete(catalog, entry));
    lemma_filter_none(entries, |entry: ManifestEntryView| wins_restore(catalog, entry));
    lemma_filter_none(entries, |entry: ManifestEntryView| wins_move(catalog, entry));
    assert(file_sync_plan(catalog, entries) =~= SyncPlanView::nothing());
}

/// An entry leads to its delete alone, to its restore alone, or to a move, a pull or both.
pub proof fn law_outcomes_exclude_one_another(catalog: CatalogView, entry: ManifestEntryView)
    ensures
        wins_delete(catalog, entry) ==> !wins_restore(catalog, entry) && !wins_move(
            catalog,
            entry,
        ) && !wins_content(catalog, entry),
        wins_restore(catalog, entry) ==> !wins_move(catalog, entry) && !wins_content(
            catalog,
            entry,
        ),
        entry.deleted ==> !wins_move(catalog, entry) && !wins_content(catalog, entry),
{
}

/// Once an announced delete of a known file is applied, it is not planned again.
pub proof fn law_applied_delete_settles(catalog: CatalogView, entry: ManifestEntryView)
    requires
        catalog.wf(),
        catalog.has_file(entry.file_id),
        wins_delete(catalog, entry),
    ensures
        is_tombstoned(catalog.after_remove_file(entry.file_id, entry.deleted_at), entry.file_id),
        !wins_delete(catalog.after_remove_file(entry.file_id, entry.deleted_at), entry),
{
    let file_id = entry.file_id;
    let deleted_at = entry.deleted_at;
    let change = |row: FileRowView| FileRowView { deleted: true, deleted_at, ..row };
    lemma_updated_file(catalog, file_id, change, file_id);
    let updated = catalog.update_file(file_id, change);
    let after = catalog.after_remove_file(file_id, deleted_at);
    assert(after == updated.without_previews(file_id));
    let i = choose|i: int| 0 <= i < updated.files.len() && (#[trigger] updated.files[i]).id
        == file_id;
    lemma_file_row(updated, i);
    assert(after.files[i].id == file_id);
    lemma_file_row(after, i);
}

/// Once an announced restore is applied, the file is live and the restore is not planned again.
pub proof fn law_applied_restore_settles(catalog: CatalogView, entry: ManifestEntryView)
    requires
        catalog.wf(),
        wins_restore(catalog, entry),
    ensures
        !is_tombstoned(
            catalog.after_apply_restore(entry.file_id, entry.restored_at),
            entry.file_id,
        ),
        !wins_restore(catalog.after_apply_restore(entry.file_id, entry.restored_at), entry),
{
    law_newer_restore_revives(catalog, entry.file_id, entry.restored_at);
}

/// Once an announced move is applied, the file has the announced path and the move is not
/// planned again.
pub proof fn law_applied_move_settles(catalog: CatalogView, entry: ManifestEntryView)
    requires
        catalog.wf(),
        wins_move(catalog, entry),
    ensures
        ({
            let after = catalog.after_move(
                entry.file_id,
                entry.logical_path,
                entry.logical_path_modified_at,
            );
            &&& after.file(entry.file_id).logical_path == entry.logical_path
            &&& !wins_move(after, entry)
        }),
{
    let modified_at = entry.logical_path_modified_at;
    let logical_path = entry.logical_path;
    let change = |row: FileRowView|
        if row.logical_path_modified_at < modified_at {
            FileRowView { logical_path, logical_path_modified_at: modified_at, ..row }
        } else {
            row
        };
    lemma_updated_file(catalog, entry.file_id, change, entry.file_id);
}

/// Once the announced content is recorded as a version, it is not pulled again, whoever
/// recorded it and whenever.
pub proof fn law_recorded_content_settles(
    catalog: CatalogView,
    entry: ManifestEntryView,
    origin: Seq<char>,
    size: i64,
    observed_at: i64,
)
    requires
        entry.history.len() > 0,
        catalog.next_version_number(entry.file_id) <= i64::MAX,
    ensures
        !wins_content(
            catalog.with_version(
                entry.file_id,
                entry.history.last().1,
                origin,
                size,
                observed_at,
            ),
            entry,
        ),
{
    let file_id = entry.file_id;
    let hash = entry.history.last().1;
    law_history_is_append_only(catalog, file_id, hash, origin, size, observed_at);
    let after = catalog.with_version(file_id, hash, origin, size, observed_at);
    let history = after.history_of(file_id);
    assert(history[history.len() - 1].1 == hash);
    assert(knows_hash(history, hash));
}

/// Of two devices that both hold versions of a file, at most one pulls the other's content.
pub proof fn law_at_most_one_side_pulls(ours: CatalogView, theirs: CatalogView, file_id: FileId)
    requires
        ours.wf(),
        theirs.wf(),
        ours.has_file(file_id),
        theirs.has_file(file_id),
        ours.versions_of(file_id).len() > 0,
        theirs.versions_of(file_id).len() > 0,
    ensures
        !(wins_content(ours, theirs.manifest_entry(theirs.file(file_id))) && wins_content(
            theirs,
            ours.manifest_entry(ours.file(file_id)),
        )),
{
    let a = choose|i: int| 0 <= i < ours.files.len() && (#[trigger] ours.files[i]).id == file_id;
    let b = choose|i: int|
        0 <= i < theirs.files.len() && (#[trigger] theirs.files[i]).id == file_id;
    lemma_file_row(ours, a);
    lemma_file_row(theirs, b);
}

} // verus!
