//! What a device does about an announced file, said of the rows that it holds: who is behind
//! pulls, the newest delete, restore and move win, and nothing else is planned.

use vstd::prelude::*;

use crate::ids::FileId;
use crate::peer::messages::PlacementView;
use crate::peer::plan::{
    deletion_of, file_sync_plan, knows_hash, move_of, pull_of, restore_of, wins_content,
    wins_delete, wins_move, wins_restore,
};
use crate::seqs::{
    lemma_filter_keeps, lemma_filter_last, lemma_filter_member, lemma_filter_none,
    lemma_filter_one,
};
use crate::store::files::{lemma_file_row, ManifestEntryView};
use crate::store::types::{CatalogView, FileRowView, FileVersionView};

verus! {

/// The history of a file holds the number, content and size of each of its versions, and of
/// nothing else.
pub proof fn law_history_holds_every_version(catalog: CatalogView, file_id: FileId, j: int, k: int)
    ensures
        0 <= j < catalog.versions.len() && catalog.versions[j].file_id == file_id ==> exists|m: int|
            0 <= m < catalog.history_of(file_id).len() && #[trigger] catalog.history_of(file_id)[m]
                == (
                catalog.versions[j].version_number,
                catalog.versions[j].content_hash,
                catalog.versions[j].size,
            ),
        0 <= k < catalog.history_of(file_id).len() ==> exists|m: int|
            0 <= m < catalog.versions.len() && (#[trigger] catalog.versions[m]).file_id == file_id
                && catalog.history_of(file_id)[k] == (
                catalog.versions[m].version_number,
                catalog.versions[m].content_hash,
                catalog.versions[m].size,
            ),
{
    let p = |version: FileVersionView| version.file_id == file_id;
    let f = |version: FileVersionView|
        (version.version_number, version.content_hash, version.size);
    let rows = catalog.versions;
    let history = catalog.history_of(file_id);
    if 0 <= j < rows.len() && rows[j].file_id == file_id {
        lemma_filter_keeps(rows, p, j);
        let m = choose|m: int| 0 <= m < rows.filter(p).len() && rows.filter(p)[m] == rows[j];
        assert(history[m] == f(rows[j]));
    }
    if 0 <= k < history.len() {
        lemma_filter_member(rows, p, k);
        let m = choose|m: int| 0 <= m < rows.len() && rows[m] == rows.filter(p)[k];
        assert(rows[m].file_id == file_id);
    }
}

/// The history of a file ends with the version that was recorded last, whose time is the latest
/// and whose number the next version follows.
pub proof fn law_history_ends_with_the_latest_version(catalog: CatalogView, n: int)
    requires
        0 <= n < catalog.versions.len(),
        forall|j: int|
            n < j < catalog.versions.len() ==> (#[trigger] catalog.versions[j]).file_id
                != catalog.versions[n].file_id,
    ensures
        ({
            let version = catalog.versions[n];
            &&& catalog.history_of(version.file_id).len() > 0
            &&& catalog.history_of(version.file_id).last() == (
                version.version_number,
                version.content_hash,
                version.size,
            )
            &&& catalog.latest_observed_at(version.file_id) == version.observed_at
            &&& catalog.next_version_number(version.file_id) == version.version_number + 1
        }),
{
    let file_id = catalog.versions[n].file_id;
    lemma_filter_last(catalog.versions, n, |version: FileVersionView| version.file_id == file_id);
}

/// A file of which no version was recorded has no history, and its first version is number 1.
pub proof fn law_file_without_versions_has_no_history(catalog: CatalogView, file_id: FileId)
    requires
        forall|j: int|
            0 <= j < catalog.versions.len() ==> (#[trigger] catalog.versions[j]).file_id != file_id,
    ensures
        catalog.history_of(file_id).len() == 0,
        catalog.latest_observed_at(file_id) == 0,
        catalog.next_version_number(file_id) == 1,
{
    lemma_filter_none(
        catalog.versions,
        |version: FileVersionView| version.file_id == file_id,
    );
}

/// A device announces each file that it has a version of, as its row has it, with all of its
/// history and the time of its latest version.
pub proof fn law_manifest_announces_what_is_held(catalog: CatalogView, i: int, j: int)
    requires
        0 <= i < catalog.files.len(),
        0 <= j < catalog.versions.len(),
        catalog.versions[j].file_id == catalog.files[i].id,
    ensures
        exists|k: int|
            0 <= k < catalog.manifest().len() && #[trigger] catalog.manifest()[k] == (
            ManifestEntryView {
                file_id: catalog.files[i].id,
                history: catalog.history_of(catalog.files[i].id),
                latest_observed_at: catalog.latest_observed_at(catalog.files[i].id),
                logical_path: catalog.files[i].logical_path,
                logical_path_modified_at: catalog.files[i].logical_path_modified_at,
                deleted: catalog.files[i].deleted,
                deleted_at: catalog.files[i].deleted_at,
                restored_at: catalog.files[i].restored_at,
            }),
{
    let p = |row: FileRowView| catalog.versions_of(row.id).len() > 0;
    let row = catalog.files[i];
    lemma_filter_keeps(catalog.versions, |version: FileVersionView| version.file_id == row.id, j);
    lemma_filter_keeps(catalog.files, p, i);
    let kept = catalog.files.filter(p);
    let k = choose|k: int| 0 <= k < kept.len() && kept[k] == row;
    assert(catalog.manifest()[k] == catalog.manifest_entry(row));
}

/// A device announces no file that it has no row or no version of.
pub proof fn law_manifest_announces_nothing_else(catalog: CatalogView, k: int)
    requires
        0 <= k < catalog.manifest().len(),
    ensures
        exists|i: int|
            0 <= i < catalog.files.len() && (#[trigger] catalog.files[i]).id
                == catalog.manifest()[k].file_id,
        exists|j: int|
            0 <= j < catalog.versions.len() && (#[trigger] catalog.versions[j]).file_id
                == catalog.manifest()[k].file_id,
{
    let p = |row: FileRowView| catalog.versions_of(row.id).len() > 0;
    lemma_filter_member(catalog.files, p, k);
    let row = catalog.files.filter(p)[k];
    let i = choose|i: int| 0 <= i < catalog.files.len() && catalog.files[i] == row;
    assert(catalog.files[i].id == catalog.manifest()[k].file_id);
    let q = |version: FileVersionView| version.file_id == row.id;
    lemma_filter_member(catalog.versions, q, 0);
    let j = choose|j: int|
        0 <= j < catalog.versions.len() && catalog.versions[j] == catalog.versions.filter(q)[0];
    assert(catalog.versions[j].file_id == row.id);
}

/// The content of a version that is held is known here, and no other.
proof fn lemma_known(catalog: CatalogView, file_id: FileId, hash: Seq<char>)
    ensures
        knows_hash(catalog.history_of(file_id), hash) <==> exists|j: int|
            0 <= j < catalog.versions.len() && (#[trigger] catalog.versions[j]).file_id == file_id
                && catalog.versions[j].content_hash == hash,
{
    let history = catalog.history_of(file_id);
    if knows_hash(history, hash) {
        let k = choose|k: int| 0 <= k < history.len() && (#[trigger] history[k]).1 == hash;
        law_history_holds_every_version(catalog, file_id, -1, k);
    }
    if exists|j: int|
        0 <= j < catalog.versions.len() && (#[trigger] catalog.versions[j]).file_id == file_id
            && catalog.versions[j].content_hash == hash {
        let j = choose|j: int|
            0 <= j < catalog.versions.len() && (#[trigger] catalog.versions[j]).file_id == file_id
                && catalog.versions[j].content_hash == hash;
        law_history_holds_every_version(catalog, file_id, j, -1);
        let k = choose|k: int| 0 <= k < history.len() && #[trigger] history[k] == (
            catalog.versions[j].version_number,
            catalog.versions[j].content_hash,
            catalog.versions[j].size,
        );
        assert(history[k].1 == hash);
    }
}

/// What a manifest of one entry plans.
proof fn lemma_plan_of_one(catalog: CatalogView, entry: ManifestEntryView)
    ensures
        ({
            let plan = file_sync_plan(catalog, seq![entry]);
            &&& plan.pulls == if wins_content(catalog, entry) {
                seq![pull_of(catalog, entry)]
            } else {
                Seq::empty()
            }
            &&& plan.deletions == if wins_delete(catalog, entry) {
                seq![deletion_of(entry)]
            } else {
                Seq::empty()
            }
            &&& plan.restores == if wins_restore(catalog, entry) {
                seq![restore_of(entry)]
            } else {
                Seq::empty()
            }
            &&& plan.moves == if wins_move(catalog, entry) {
                seq![move_of(entry)]
            } else {
                Seq::empty()
            }
        }),
{
    lemma_filter_one(entry, |entry: ManifestEntryView| wins_content(catalog, entry));
    lemma_filter_one(entry, |entry: ManifestEntryView| wins_delete(catalog, entry));
    lemma_filter_one(entry, |entry: ManifestEntryView| wins_restore(catalog, entry));
    lemma_filter_one(entry, |entry: ManifestEntryView| wins_move(catalog, entry));
    let plan = file_sync_plan(catalog, seq![entry]);
    assert(plan.pulls =~= if wins_content(catalog, entry) {
        seq![pull_of(catalog, entry)]
    } else {
        Seq::empty()
    });
    assert(plan.deletions =~= if wins_delete(catalog, entry) {
        seq![deletion_of(entry)]
    } else {
        Seq::empty()
    });
    assert(plan.restores =~= if wins_restore(catalog, entry) {
        seq![restore_of(entry)]
    } else {
        Seq::empty()
    });
    assert(plan.moves =~= if wins_move(catalog, entry) {
        seq![move_of(entry)]
    } else {
        Seq::empty()
    });
}

/// An entry whose content is wanted is pulled, whatever else the manifest announces.
proof fn lemma_pulled(catalog: CatalogView, entries: Seq<ManifestEntryView>, e: int)
    requires
        0 <= e < entries.len(),
        wins_content(catalog, entries[e]),
    ensures
        exists|p: int|
            0 <= p < file_sync_plan(catalog, entries).pulls.len() && (#[trigger] file_sync_plan(
                catalog,
                entries,
            ).pulls[p]) == pull_of(catalog, entries[e]),
{
    let wins = |entry: ManifestEntryView| wins_content(catalog, entry);
    lemma_filter_keeps(entries, wins, e);
    let kept = entries.filter(wins);
    let p = choose|p: int| 0 <= p < kept.len() && kept[p] == entries[e];
    assert(file_sync_plan(catalog, entries).pulls[p] == pull_of(catalog, entries[e]));
}

/// A device whose latest content of a file stands anywhere in an announced history, and that does
/// not know the content which that history ends with, is behind: it pulls that content, however
/// far behind it is.
pub proof fn law_device_behind_pulls(
    catalog: CatalogView,
    entries: Seq<ManifestEntryView>,
    e: int,
    n: int,
    k: int,
)
    requires
        catalog.wf(),
        0 <= e < entries.len(),
        !entries[e].deleted,
        forall|i: int|
            0 <= i < catalog.files.len() && (#[trigger] catalog.files[i]).id == entries[e].file_id
                ==> !catalog.files[i].deleted || entries[e].restored_at <= 0
                || entries[e].restored_at <= catalog.files[i].deleted_at,
        0 <= n < catalog.versions.len(),
        catalog.versions[n].file_id == entries[e].file_id,
        forall|j: int|
            n < j < catalog.versions.len() ==> (#[trigger] catalog.versions[j]).file_id
                != entries[e].file_id,
        0 <= k < entries[e].history.len(),
        entries[e].history[k].1 == catalog.versions[n].content_hash,
        forall|j: int|
            0 <= j < catalog.versions.len() && (#[trigger] catalog.versions[j]).file_id
                == entries[e].file_id ==> catalog.versions[j].content_hash
                != entries[e].history.last().1,
    ensures
        exists|p: int|
            0 <= p < file_sync_plan(catalog, entries).pulls.len() && (#[trigger] file_sync_plan(
                catalog,
                entries,
            ).pulls[p]).file_id == entries[e].file_id && file_sync_plan(
                catalog,
                entries,
            ).pulls[p].content_hash == entries[e].history.last().1 && file_sync_plan(
                catalog,
                entries,
            ).pulls[p].size == entries[e].history.last().2,
{
    let entry = entries[e];
    law_history_ends_with_the_latest_version(catalog, n);
    lemma_known(catalog, entry.file_id, entry.history.last().1);
    assert(entry.history[k].1 == catalog.history_of(entry.file_id).last().1);
    lemma_not_restored(catalog, entry);
    lemma_pulled(catalog, entries, e);
}

/// No restore is planned for a file that is live here, or tombstoned later than it was restored.
proof fn lemma_not_restored(catalog: CatalogView, entry: ManifestEntryView)
    requires
        forall|i: int|
            0 <= i < catalog.files.len() && (#[trigger] catalog.files[i]).id == entry.file_id
                ==> !catalog.files[i].deleted || entry.restored_at <= 0 || entry.restored_at
                <= catalog.files[i].deleted_at,
    ensures
        !wins_restore(catalog, entry),
{
    if catalog.has_file(entry.file_id) {
        let i = choose|i: int|
            0 <= i < catalog.files.len() && (#[trigger] catalog.files[i]).id == entry.file_id;
        assert(catalog.file(entry.file_id) == catalog.files[i]);
    }
}

/// Of two devices that hold a live file, of which one's history is a part of the other's from its
/// start and does not know the content which that ends with, the one with the shorter history
/// pulls when it hears what the other announces.
pub proof fn law_shorter_history_pulls(ours: CatalogView, theirs: CatalogView, a: int, b: int)
    requires
        ours.wf(),
        theirs.wf(),
        0 <= a < ours.files.len(),
        0 <= b < theirs.files.len(),
        ours.files[a].id == theirs.files[b].id,
        !ours.files[a].deleted,
        !theirs.files[b].deleted,
        0 < ours.history_of(ours.files[a].id).len() < theirs.history_of(ours.files[a].id).len(),
        ours.history_of(ours.files[a].id).is_prefix_of(theirs.history_of(ours.files[a].id)),
        forall|k: int|
            0 <= k < ours.history_of(ours.files[a].id).len() ==> (#[trigger] ours.history_of(
                ours.files[a].id,
            )[k]).1 != theirs.history_of(ours.files[a].id).last().1,
    ensures
        exists|p: int|
            0 <= p < file_sync_plan(ours, theirs.manifest()).pulls.len() && (
            #[trigger] file_sync_plan(ours, theirs.manifest()).pulls[p]).file_id
                == ours.files[a].id && file_sync_plan(ours, theirs.manifest()).pulls[p].content_hash
                == theirs.history_of(ours.files[a].id).last().1,
{
    let file_id = ours.files[a].id;
    let mine = ours.history_of(file_id);
    let other = theirs.history_of(file_id);
    law_history_holds_every_version(theirs, file_id, -1, 0);
    let j = choose|j: int|
        0 <= j < theirs.versions.len() && (#[trigger] theirs.versions[j]).file_id == file_id;
    law_manifest_announces_what_is_held(theirs, b, j);
    let entries = theirs.manifest();
    let e = choose|e: int|
        0 <= e < entries.len() && #[trigger] entries[e] == (ManifestEntryView {
            file_id,
            history: theirs.history_of(file_id),
            latest_observed_at: theirs.latest_observed_at(file_id),
            logical_path: theirs.files[b].logical_path,
            logical_path_modified_at: theirs.files[b].logical_path_modified_at,
            deleted: theirs.files[b].deleted,
            deleted_at: theirs.files[b].deleted_at,
            restored_at: theirs.files[b].restored_at,
        });
    assert(!knows_hash(mine, other.last().1));
    assert(other[mine.len() - 1] == mine.last());
    assert(knows_hash(other, mine.last().1));
    lemma_file_row(ours, a);
    lemma_not_restored(ours, entries[e]);
    lemma_pulled(ours, entries, e);
}

/// A device that holds the content which an announced history ends with does not pull it, nor
/// does one to which a history without versions is announced.
pub proof fn law_held_content_is_not_pulled(catalog: CatalogView, entry: ManifestEntryView, j: int)
    requires
        entry.history.len() == 0 || (0 <= j < catalog.versions.len() && catalog.versions[j].file_id
            == entry.file_id && catalog.versions[j].content_hash == entry.history.last().1),
    ensures
        file_sync_plan(catalog, seq![entry]).pulls.len() == 0,
{
    lemma_plan_of_one(catalog, entry);
    if entry.history.len() > 0 {
        lemma_known(catalog, entry.file_id, entry.history.last().1);
        law_history_holds_every_version(catalog, entry.file_id, j, -1);
    }
}

/// A device that has no version of a live file pulls what the announced history ends with.
pub proof fn law_content_of_an_unknown_file_is_pulled(
    catalog: CatalogView,
    entries: Seq<ManifestEntryView>,
    e: int,
)
    requires
        0 <= e < entries.len(),
        !entries[e].deleted,
        entries[e].history.len() > 0,
        forall|i: int|
            0 <= i < catalog.files.len() && (#[trigger] catalog.files[i]).id == entries[e].file_id
                ==> !catalog.files[i].deleted || entries[e].restored_at <= 0
                || entries[e].restored_at <= catalog.files[i].deleted_at,
        forall|j: int|
            0 <= j < catalog.versions.len() ==> (#[trigger] catalog.versions[j]).file_id
                != entries[e].file_id,
    ensures
        exists|p: int|
            0 <= p < file_sync_plan(catalog, entries).pulls.len() && (#[trigger] file_sync_plan(
                catalog,
                entries,
            ).pulls[p]).file_id == entries[e].file_id && file_sync_plan(
                catalog,
                entries,
            ).pulls[p].content_hash == entries[e].history.last().1 && file_sync_plan(
                catalog,
                entries,
            ).pulls[p].size == entries[e].history.last().2,
{
    law_file_without_versions_has_no_history(catalog, entries[e].file_id);
    lemma_not_restored(catalog, entries[e]);
    lemma_pulled(catalog, entries, e);
}

/// Where neither device knows the other's latest content, the content that was recorded later is
/// pulled, and content that was recorded earlier or at the same time is not.
pub proof fn law_later_side_of_a_fork_wins(catalog: CatalogView, entry: ManifestEntryView, n: int)
    requires
        !entry.deleted,
        entry.history.len() > 0,
        forall|i: int|
            0 <= i < catalog.files.len() && (#[trigger] catalog.files[i]).id == entry.file_id
                ==> !catalog.files[i].deleted || entry.restored_at <= 0 || entry.restored_at
                <= catalog.files[i].deleted_at,
        0 <= n < catalog.versions.len(),
        catalog.versions[n].file_id == entry.file_id,
        forall|j: int|
            n < j < catalog.versions.len() ==> (#[trigger] catalog.versions[j]).file_id
                != entry.file_id,
        forall|j: int|
            0 <= j < catalog.versions.len() && (#[trigger] catalog.versions[j]).file_id
                == entry.file_id ==> catalog.versions[j].content_hash != entry.history.last().1,
        forall|k: int|
            0 <= k < entry.history.len() ==> (#[trigger] entry.history[k]).1
                != catalog.versions[n].content_hash,
    ensures
        file_sync_plan(catalog, seq![entry]).pulls.len() == if entry.latest_observed_at
            > catalog.versions[n].observed_at {
            1nat
        } else {
            0nat
        },
{
    lemma_plan_of_one(catalog, entry);
    law_history_ends_with_the_latest_version(catalog, n);
    lemma_known(catalog, entry.file_id, entry.history.last().1);
    lemma_not_restored(catalog, entry);
}

/// What is pulled is the latest content of a live file that was announced, as it was announced. A
/// file that has a row here is changed; one that has none is created at the announced path,
/// without tags.
pub proof fn law_pull_is_what_was_announced(
    catalog: CatalogView,
    entries: Seq<ManifestEntryView>,
    p: int,
)
    requires
        0 <= p < file_sync_plan(catalog, entries).pulls.len(),
    ensures
        ({
            let pull = file_sync_plan(catalog, entries).pulls[p];
            let known = exists|i: int|
                0 <= i < catalog.files.len() && (#[trigger] catalog.files[i]).id == pull.file_id;
            exists|e: int|
                0 <= e < entries.len() && (#[trigger] entries[e]).file_id == pull.file_id
                    && !entries[e].deleted && entries[e].history.len() > 0 && pull.content_hash
                    == entries[e].history[entries[e].history.len() - 1].1 && pull.size
                    == entries[e].history[entries[e].history.len() - 1].2
                    && pull.logical_path_modified_at == entries[e].logical_path_modified_at
                    && pull.placement == if known {
                    PlacementView::Change
                } else {
                    PlacementView::Create {
                        logical_path: entries[e].logical_path,
                        tags: Seq::empty(),
                    }
                }
        }),
{
    let wins = |entry: ManifestEntryView| wins_content(catalog, entry);
    lemma_filter_member(entries, wins, p);
    let e = choose|e: int| 0 <= e < entries.len() && entries[e] == entries.filter(wins)[p];
    assert(file_sync_plan(catalog, entries).pulls[p] == pull_of(catalog, entries[e]));
}

/// An announced delete is planned exactly if no row here is tombstoned and the delete is later
/// than the last restore and than the latest version; where there is no row or no version, it is
/// later than 0. Its time is the announced one, and nothing else is planned for a deleted file.
pub proof fn law_delete_is_planned_if_it_is_newest(catalog: CatalogView, entry: ManifestEntryView)
    requires
        catalog.wf(),
        entry.deleted,
    ensures
        ({
            let plan = file_sync_plan(catalog, seq![entry]);
            let newer_than_rows = if exists|i: int|
                0 <= i < catalog.files.len() && (#[trigger] catalog.files[i]).id == entry.file_id {
                forall|i: int|
                    0 <= i < catalog.files.len() && (#[trigger] catalog.files[i]).id
                        == entry.file_id ==> !catalog.files[i].deleted
                        && catalog.files[i].restored_at < entry.deleted_at
            } else {
                entry.deleted_at > 0
            };
            let newer_than_versions = if exists|j: int|
                0 <= j < catalog.versions.len() && (#[trigger] catalog.versions[j]).file_id
                    == entry.file_id {
                forall|n: int|
                    0 <= n < catalog.versions.len() && (#[trigger] catalog.versions[n]).file_id
                        == entry.file_id && (forall|j: int|
                        n < j < catalog.versions.len() ==> (#[trigger] catalog.versions[j]).file_id
                            != entry.file_id) ==> catalog.versions[n].observed_at
                        < entry.deleted_at
            } else {
                entry.deleted_at > 0
            };
            &&& plan.deletions.len() == if newer_than_rows && newer_than_versions {
                1nat
            } else {
                0nat
            }
            &&& plan.deletions.len() == 1 ==> plan.deletions[0].file_id == entry.file_id
                && plan.deletions[0].deleted_at == entry.deleted_at
            &&& plan.pulls.len() == 0 && plan.restores.len() == 0 && plan.moves.len() == 0
        }),
{
    lemma_plan_of_one(catalog, entry);
    let file_id = entry.file_id;
    if catalog.has_file(file_id) {
        let i = choose|i: int|
            0 <= i < catalog.files.len() && (#[trigger] catalog.files[i]).id == file_id;
        lemma_file_row(catalog, i);
        assert forall|k: int|
            0 <= k < catalog.files.len() && (#[trigger] catalog.files[k]).id == file_id implies k
            == i by {}
    }
    if exists|j: int|
        0 <= j < catalog.versions.len() && (#[trigger] catalog.versions[j]).file_id == file_id {
        let n = lemma_has_latest(catalog, file_id);
        law_history_ends_with_the_latest_version(catalog, n);
        assert forall|m: int|
            0 <= m < catalog.versions.len() && (#[trigger] catalog.versions[m]).file_id == file_id
                && (forall|j: int|
                m < j < catalog.versions.len() ==> (#[trigger] catalog.versions[j]).file_id
                    != file_id) implies m == n by {
            if m < n {
                assert(catalog.versions[n].file_id != file_id);
            }
        }
    } else {
        law_file_without_versions_has_no_history(catalog, file_id);
    }
}

/// A file that has a version has a latest one.
proof fn lemma_has_latest(catalog: CatalogView, file_id: FileId) -> (n: int)
    requires
        exists|j: int|
            0 <= j < catalog.versions.len() && (#[trigger] catalog.versions[j]).file_id == file_id,
    ensures
        0 <= n < catalog.versions.len(),
        catalog.versions[n].file_id == file_id,
        forall|j: int|
            n < j < catalog.versions.len() ==> (#[trigger] catalog.versions[j]).file_id != file_id,
{
    let j = choose|j: int|
        0 <= j < catalog.versions.len() && (#[trigger] catalog.versions[j]).file_id == file_id;
    lemma_latest_from(catalog, file_id, j)
}

proof fn lemma_latest_from(catalog: CatalogView, file_id: FileId, j: int) -> (n: int)
    requires
        0 <= j < catalog.versions.len(),
        catalog.versions[j].file_id == file_id,
    ensures
        0 <= n < catalog.versions.len(),
        catalog.versions[n].file_id == file_id,
        forall|j: int|
            n < j < catalog.versions.len() ==> (#[trigger] catalog.versions[j]).file_id != file_id,
    decreases catalog.versions.len() - j,
{
    if exists|m: int|
        j < m < catalog.versions.len() && (#[trigger] catalog.versions[m]).file_id == file_id {
        let m = choose|m: int|
            j < m < catalog.versions.len() && (#[trigger] catalog.versions[m]).file_id == file_id;
        lemma_latest_from(catalog, file_id, m)
    } else {
        j
    }
}

/// An announced restore of a live entry is planned exactly if the file is tombstoned here and was
/// restored later than it was deleted here, provided it has a version to restore; it is then all
/// that is planned for the file, and restores what the announced history ends with.
pub proof fn law_restore_is_planned_if_it_is_newest(catalog: CatalogView, entry: ManifestEntryView)
    requires
        catalog.wf(),
        !entry.deleted,
    ensures
        ({
            let plan = file_sync_plan(catalog, seq![entry]);
            let newest = entry.restored_at > 0 && entry.history.len() > 0 && exists|i: int|
                0 <= i < catalog.files.len() && (#[trigger] catalog.files[i]).id == entry.file_id
                    && catalog.files[i].deleted && catalog.files[i].deleted_at < entry.restored_at;
            &&& plan.restores.len() == if newest {
                1nat
            } else {
                0nat
            }
            &&& newest ==> plan.restores[0].file_id == entry.file_id
                && plan.restores[0].restored_at == entry.restored_at
                && plan.restores[0].content_hash == entry.history[entry.history.len() - 1].1
                && plan.restores[0].size == entry.history[entry.history.len() - 1].2 as u64
                && plan.pulls.len() == 0 && plan.moves.len() == 0
            &&& plan.deletions.len() == 0
        }),
{
    lemma_plan_of_one(catalog, entry);
    if catalog.has_file(entry.file_id) {
        let i = choose|i: int|
            0 <= i < catalog.files.len() && (#[trigger] catalog.files[i]).id == entry.file_id;
        lemma_file_row(catalog, i);
        assert forall|k: int|
            0 <= k < catalog.files.len() && (#[trigger] catalog.files[k]).id
                == entry.file_id implies k == i by {}
    }
}

/// An announced path of a live entry is planned as a move exactly if the file has a row here, with
/// an older path, and no restore is planned; the move carries the announced path and its time.
pub proof fn law_move_is_planned_if_it_is_newest(catalog: CatalogView, entry: ManifestEntryView)
    requires
        catalog.wf(),
        !entry.deleted,
    ensures
        ({
            let plan = file_sync_plan(catalog, seq![entry]);
            let newer = exists|i: int|
                0 <= i < catalog.files.len() && (#[trigger] catalog.files[i]).id == entry.file_id
                    && catalog.files[i].logical_path_modified_at < entry.logical_path_modified_at;
            &&& plan.moves.len() == if newer && plan.restores.len() == 0 {
                1nat
            } else {
                0nat
            }
            &&& plan.moves.len() == 1 ==> plan.moves[0].file_id == entry.file_id
                && plan.moves[0].logical_path == entry.logical_path && plan.moves[0].modified_at
                == entry.logical_path_modified_at
        }),
{
    lemma_plan_of_one(catalog, entry);
    if catalog.has_file(entry.file_id) {
        let i = choose|i: int|
            0 <= i < catalog.files.len() && (#[trigger] catalog.files[i]).id == entry.file_id;
        lemma_file_row(catalog, i);
        assert forall|k: int|
            0 <= k < catalog.files.len() && (#[trigger] catalog.files[k]).id
                == entry.file_id implies k == i by {}
    }
}

} // verus!
