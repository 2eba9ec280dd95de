//! What holds of the catalog across operations.

use vstd::prelude::*;

use crate::ids::{id_text, lemma_id_round_trip, FileId, TagId};
use crate::seqs::{
    lemma_filter_keeps, lemma_filter_member, lemma_filter_pairs, lemma_filter_push,
};
use crate::state::{DeletedRule, EntryView, SubtagRule, TagStyle};
use crate::store::files::{later, lemma_file_row};
use crate::store::query::{file_passes, tag_passes, QueryTerm};
use crate::store::short_id::{is_short_length, normalized_prefix, separates};
use crate::store::tags::{id_prefix_matches, lemma_updated_tag};
use crate::store::types::{
    same_relationship, CatalogView, FileRowView, FileVersionView, TagRowView,
};

verus! {

/// Changing the row of a file changes what the catalog says of that file, and of no other.
pub proof fn lemma_updated_file(
    catalog: CatalogView,
    file_id: FileId,
    change: spec_fn(FileRowView) -> FileRowView,
    other: FileId,
)
    requires
        catalog.wf(),
        forall|row: FileRowView| (#[trigger] change(row)).id == row.id,
    ensures
        catalog.update_file(file_id, change).wf(),
        catalog.update_file(file_id, change).has_file(other) == catalog.has_file(other),
        catalog.has_file(other) ==> catalog.update_file(file_id, change).file(other) == if other
            == file_id {
            change(catalog.file(other))
        } else {
            catalog.file(other)
        },
{
    let after = catalog.update_file(file_id, change);
    crate::store::files::lemma_update_file_wf(catalog, file_id, change);
    if catalog.has_file(other) {
        let i = choose|i: int|
            0 <= i < catalog.files.len() && (#[trigger] catalog.files[i]).id == other;
        assert(after.files[i].id == other);
        lemma_file_row(catalog, i);
        lemma_file_row(after, i);
    }
    if after.has_file(other) {
        let i = choose|i: int|
            0 <= i < after.files.len() && (#[trigger] after.files[i]).id == other;
        assert(catalog.files[i].id == other);
    }
}

/// A listing shows each file once, as the catalog has it, so that what it says of a file is what is
/// said of the file alone.
pub proof fn law_listing_shows_each_file_once(
    catalog: CatalogView,
    rule: DeletedRule,
    file_id: FileId,
)
    requires
        catalog.wf(),
    ensures
        forall|k: int|
            0 <= k < catalog.listed(rule).len() ==> catalog.has_file(
                (#[trigger] catalog.listed(rule)[k]).id,
            ) && catalog.file(catalog.listed(rule)[k].id) == catalog.listed(rule)[k],
        forall|j: int, k: int|
            0 <= j < k < catalog.listed(rule).len() ==> (#[trigger] catalog.listed(rule)[j]).id != (
            #[trigger] catalog.listed(rule)[k]).id,
        (exists|k: int|
            0 <= k < catalog.listed(rule).len() && (#[trigger] catalog.listed(rule)[k]).id
                == file_id) <==> catalog.has_file(file_id) && catalog.is_listed(
            catalog.file(file_id),
            rule,
        ),
{
    let p = |row: FileRowView| catalog.is_listed(row, rule);
    let listed = catalog.listed(rule);
    assert forall|k: int| 0 <= k < listed.len() implies catalog.has_file((#[trigger] listed[k]).id)
        && catalog.file(listed[k].id) == listed[k] && catalog.is_listed(listed[k], rule) by {
        lemma_filter_member(catalog.files, p, k);
        let i = choose|i: int| 0 <= i < catalog.files.len() && catalog.files[i] == listed[k];
        lemma_file_row(catalog, i);
    }
    lemma_filter_pairs(catalog.files, p, |a: FileRowView, b: FileRowView| a.id != b.id);
    if catalog.has_file(file_id) && catalog.is_listed(catalog.file(file_id), rule) {
        let i = choose|i: int|
            0 <= i < catalog.files.len() && (#[trigger] catalog.files[i]).id == file_id;
        lemma_file_row(catalog, i);
        lemma_filter_keeps(catalog.files, p, i);
    }
}

/// Two moves of a file commute: whatever order they arrive in, the newer one stands.
pub proof fn law_moves_commute(
    catalog: CatalogView,
    file_id: FileId,
    path_a: Seq<char>,
    at_a: i64,
    path_b: Seq<char>,
    at_b: i64,
)
    requires
        at_a != at_b,
    ensures
        catalog.after_move(file_id, path_a, at_a).after_move(file_id, path_b, at_b)
            == catalog.after_move(file_id, path_b, at_b).after_move(file_id, path_a, at_a),
{
    let ab = catalog.after_move(file_id, path_a, at_a).after_move(file_id, path_b, at_b);
    let ba = catalog.after_move(file_id, path_b, at_b).after_move(file_id, path_a, at_a);
    assert(ab.files =~= ba.files);
}

/// Applying a move again changes nothing.
pub proof fn law_move_redelivery_changes_nothing(
    catalog: CatalogView,
    file_id: FileId,
    path: Seq<char>,
    at: i64,
)
    ensures
        catalog.after_move(file_id, path, at).after_move(file_id, path, at) == catalog.after_move(
            file_id,
            path,
            at,
        ),
{
    let once = catalog.after_move(file_id, path, at);
    assert(once.after_move(file_id, path, at).files =~= once.files);
}

/// A move never touches the tombstone, and a delete or restore never touches the path.
pub proof fn law_path_and_tombstone_are_independent(
    catalog: CatalogView,
    file_id: FileId,
    path: Seq<char>,
    at: i64,
    other: FileId,
)
    requires
        catalog.wf(),
        catalog.has_file(other),
    ensures
        ({
            let moved = catalog.after_move(file_id, path, at).file(other);
            let row = catalog.file(other);
            moved.deleted == row.deleted && moved.deleted_at == row.deleted_at
                && moved.restored_at == row.restored_at
        }),
        ({
            let removed = catalog.after_remove_file(file_id, at).file(other);
            let restored = catalog.after_apply_restore(file_id, at).file(other);
            let row = catalog.file(other);
            removed.logical_path == row.logical_path && restored.logical_path == row.logical_path
                && removed.logical_path_modified_at == row.logical_path_modified_at
                && restored.logical_path_modified_at == row.logical_path_modified_at
        }),
{
    let moving = |row: FileRowView|
        if row.logical_path_modified_at < at {
            FileRowView { logical_path: path, logical_path_modified_at: at, ..row }
        } else {
            row
        };
    lemma_updated_file(catalog, file_id, moving, other);
    let removing = |row: FileRowView| FileRowView { deleted: true, deleted_at: at, ..row };
    lemma_updated_file(catalog, file_id, removing, other);
    lemma_same_files(
        catalog.update_file(file_id, removing),
        catalog.update_file(file_id, removing).without_previews(file_id),
        other,
    );
    let restoring = |row: FileRowView| catalog.restored_row(row, at);
    lemma_updated_file(catalog, file_id, restoring, other);
}

proof fn lemma_same_files(a: CatalogView, b: CatalogView, file_id: FileId)
    requires
        a.files == b.files,
    ensures
        a.has_file(file_id) == b.has_file(file_id),
        a.file(file_id) == b.file(file_id),
{
}

/// A tombstone stands only while its delete is newer than the latest edit and the last restore.
pub open spec fn tombstones_are_newest(catalog: CatalogView) -> bool {
    forall|i: int|
        0 <= i < catalog.files.len() && (#[trigger] catalog.files[i]).deleted
            ==> catalog.files[i].deleted_at >= later(
            catalog.latest_observed_at(catalog.files[i].id),
            catalog.files[i].restored_at,
        )
}

proof fn lemma_remove_file_at(catalog: CatalogView, file_id: FileId, at: i64)
    requires
        catalog.wf(),
        tombstones_are_newest(catalog),
    ensures
        tombstones_are_newest(catalog.after_remove_file(file_id, at)),
{
    let after = catalog.after_remove_file(file_id, at);
    assert forall|i: int| 0 <= i < after.files.len() && (#[trigger] after.files[i]).deleted implies
        after.files[i].deleted_at >= later(
        after.latest_observed_at(after.files[i].id),
        after.files[i].restored_at,
    ) by {
        assert(after.versions == catalog.versions);
        assert(after.latest_observed_at(after.files[i].id) == catalog.latest_observed_at(
            catalog.files[i].id,
        ));
        if catalog.files[i].id == file_id {
            lemma_file_row(catalog, i);
        } else {
            assert(after.files[i] == catalog.files[i]);
        }
    }
}

/// Deletes, restores and moves keep it that a tombstone stands only while its delete is the
/// newest; so does a new version, once the tombstone it may supersede has been looked at.
pub proof fn law_tombstones_stay_newest(
    catalog: CatalogView,
    file_id: FileId,
    at: i64,
    path: Seq<char>,
    content_hash: Seq<char>,
    origin: Seq<char>,
    size: i64,
)
    requires
        catalog.wf(),
        tombstones_are_newest(catalog),
    ensures
        tombstones_are_newest(catalog.after_remove_file(file_id, at)),
        tombstones_are_newest(catalog.after_apply_restore(file_id, at)),
        tombstones_are_newest(catalog.after_move(file_id, path, at)),
        tombstones_are_newest(catalog.with_file(file_id, path, at)),
        tombstones_are_newest(
            catalog.with_version(file_id, content_hash, origin, size, at).after_restore_file(
                file_id,
            ),
        ),
{
    lemma_remove_file_at(catalog, file_id, at);
    let restored = catalog.after_apply_restore(file_id, at);
    assert forall|i: int|
        0 <= i < restored.files.len() && (#[trigger] restored.files[i]).deleted implies
        restored.files[i].deleted_at >= later(
        restored.latest_observed_at(restored.files[i].id),
        restored.files[i].restored_at,
    ) by {
        assert(restored.versions == catalog.versions);
        assert(restored.latest_observed_at(restored.files[i].id) == catalog.latest_observed_at(
            catalog.files[i].id,
        ));
        assert(catalog.files[i].deleted);
    }
    let moved = catalog.after_move(file_id, path, at);
    assert forall|i: int| 0 <= i < moved.files.len() && (#[trigger] moved.files[i]).deleted implies
        moved.files[i].deleted_at >= later(
        moved.latest_observed_at(moved.files[i].id),
        moved.files[i].restored_at,
    ) by {
        assert(moved.versions == catalog.versions);
        assert(moved.latest_observed_at(moved.files[i].id) == catalog.latest_observed_at(
            catalog.files[i].id,
        ));
        assert(catalog.files[i].deleted);
    }
    let added = catalog.with_file(file_id, path, at);
    assert forall|i: int| 0 <= i < added.files.len() && (#[trigger] added.files[i]).deleted implies
        added.files[i].deleted_at >= later(
        added.latest_observed_at(added.files[i].id),
        added.files[i].restored_at,
    ) by {
        assert(added.versions == catalog.versions);
        assert(added.files[i] == catalog.files[i]);
        assert(added.latest_observed_at(added.files[i].id) == catalog.latest_observed_at(
            catalog.files[i].id,
        ));
    }
    let recorded = catalog.with_version(file_id, content_hash, origin, size, at);
    let settled = recorded.after_restore_file(file_id);
    assert forall|i: int|
        0 <= i < settled.files.len() && (#[trigger] settled.files[i]).deleted implies
        settled.files[i].deleted_at >= later(
        settled.latest_observed_at(settled.files[i].id),
        settled.files[i].restored_at,
    ) by {
        assert(settled.versions == recorded.versions);
        assert(recorded.files[i] == catalog.files[i]);
        assert(catalog.files[i].deleted);
        let id = catalog.files[i].id;
        if id != file_id {
            law_version_touches_one_file(
                catalog,
                file_id,
                content_hash,
                origin,
                size,
                at,
                id,
            );
        }
        assert(settled.latest_observed_at(id) == recorded.latest_observed_at(id));
    }
}

/// A delete and a restore of a file, at different times, leave the same row in either order. Of a
/// file that ends up live the time of its last delete is set aside: where the restore came first,
/// the delete it beat was never recorded. The file is live to begin with, or its tombstone is no
/// newer than the delete.
pub proof fn law_delete_and_restore_commute(
    catalog: CatalogView,
    file_id: FileId,
    deleted_at: i64,
    restored_at: i64,
)
    requires
        catalog.wf(),
        catalog.has_file(file_id),
        catalog.file(file_id).deleted ==> catalog.file(file_id).deleted_at <= deleted_at,
        deleted_at != restored_at,
    ensures
        ({
            let deleted_first = catalog.after_remove_file(file_id, deleted_at).after_apply_restore(
                file_id,
                restored_at,
            ).file(file_id);
            let restored_first = catalog.after_apply_restore(
                file_id,
                restored_at,
            ).after_remove_file(file_id, deleted_at).file(file_id);
            if deleted_first.deleted {
                deleted_first == restored_first
            } else {
                deleted_first == (FileRowView {
                    deleted_at: deleted_first.deleted_at,
                    ..restored_first
                })
            }
        }),
{
    let removing = |row: FileRowView| FileRowView { deleted: true, deleted_at, ..row };
    let removed = catalog.after_remove_file(file_id, deleted_at);
    lemma_updated_file(catalog, file_id, removing, file_id);
    lemma_same_files(
        catalog.update_file(file_id, removing),
        catalog.update_file(file_id, removing).without_previews(file_id),
        file_id,
    );
    lemma_remove_file_wf(catalog, file_id, deleted_at);
    let restoring_removed = |row: FileRowView| removed.restored_row(row, restored_at);
    lemma_updated_file(removed, file_id, restoring_removed, file_id);
    assert(removed.latest_observed_at(file_id) == catalog.latest_observed_at(file_id)) by {
        assert(removed.versions == catalog.versions);
    }
    let restoring = |row: FileRowView| catalog.restored_row(row, restored_at);
    let restored = catalog.after_apply_restore(file_id, restored_at);
    lemma_updated_file(catalog, file_id, restoring, file_id);
    assert(restored.latest_observed_at(file_id) == catalog.latest_observed_at(file_id)) by {
        assert(restored.versions == catalog.versions);
    }
    lemma_updated_file(restored, file_id, removing, file_id);
    lemma_same_files(
        restored.update_file(file_id, removing),
        restored.update_file(file_id, removing).without_previews(file_id),
        file_id,
    );
}

proof fn lemma_remove_file_wf(catalog: CatalogView, file_id: FileId, deleted_at: i64)
    requires
        catalog.wf(),
    ensures
        catalog.after_remove_file(file_id, deleted_at).wf(),
{
    let removing = |row: FileRowView| FileRowView { deleted: true, deleted_at, ..row };
    crate::store::files::lemma_update_file_wf(catalog, file_id, removing);
    crate::store::previews::lemma_previews_filter_distinct(
        catalog.previews,
        |row: crate::store::types::PreviewRowView| row.file_id != file_id,
    );
}

/// A restore that is newer than the delete makes a tombstoned file live again.
pub proof fn law_newer_restore_revives(catalog: CatalogView, file_id: FileId, restored_at: i64)
    requires
        catalog.wf(),
        catalog.has_file(file_id),
        restored_at > catalog.file(file_id).deleted_at,
    ensures
        !catalog.after_apply_restore(file_id, restored_at).file(file_id).deleted,
{
    let restoring = |row: FileRowView| catalog.restored_row(row, restored_at);
    lemma_updated_file(catalog, file_id, restoring, file_id);
}

/// The restore clock never moves backward.
pub proof fn law_restore_clock_only_advances(
    catalog: CatalogView,
    file_id: FileId,
    restored_at: i64,
    other: FileId,
)
    requires
        catalog.wf(),
        catalog.has_file(other),
    ensures
        catalog.after_apply_restore(file_id, restored_at).file(other).restored_at >= catalog.file(
            other,
        ).restored_at,
{
    let restoring = |row: FileRowView| catalog.restored_row(row, restored_at);
    lemma_updated_file(catalog, file_id, restoring, other);
}

/// Recording a version appends it to the file's history: what stood there stays, the new
/// version is the latest, and a first version has number 1.
pub proof fn law_history_is_append_only(
    catalog: CatalogView,
    file_id: FileId,
    content_hash: Seq<char>,
    origin: Seq<char>,
    size: i64,
    observed_at: i64,
)
    requires
        catalog.next_version_number(file_id) <= i64::MAX,
    ensures
        ({
            let after = catalog.with_version(file_id, content_hash, origin, size, observed_at);
            &&& after.history_of(file_id) == catalog.history_of(file_id).push(
                (catalog.next_version_number(file_id) as i64, content_hash, size),
            )
            &&& after.latest_version(file_id) == Some(
                FileVersionView {
                    file_id,
                    content_hash,
                    observed_at,
                    version_number: catalog.next_version_number(file_id) as i64,
                    origin,
                    size,
                },
            )
            &&& catalog.latest_version(file_id) is None ==> after.latest_version(
                file_id,
            )->Some_0.version_number == 1
        }),
{
    let after = catalog.with_version(file_id, content_hash, origin, size, observed_at);
    let p = |version: FileVersionView| version.file_id == file_id;
    let version = FileVersionView {
        file_id,
        content_hash,
        observed_at,
        version_number: catalog.next_version_number(file_id) as i64,
        origin,
        size,
    };
    lemma_filter_push(catalog.versions, version, p);
    assert(after.history_of(file_id) =~= catalog.history_of(file_id).push(
        (catalog.next_version_number(file_id) as i64, content_hash, size),
    ));
}

/// Recording a version of one file leaves the versions of every other file.
pub proof fn law_version_touches_one_file(
    catalog: CatalogView,
    file_id: FileId,
    content_hash: Seq<char>,
    origin: Seq<char>,
    size: i64,
    observed_at: i64,
    other: FileId,
)
    requires
        other != file_id,
    ensures
        catalog.with_version(file_id, content_hash, origin, size, observed_at).versions_of(other)
            == catalog.versions_of(other),
{
    let p = |version: FileVersionView| version.file_id == other;
    let version = FileVersionView {
        file_id,
        content_hash,
        observed_at,
        version_number: catalog.next_version_number(file_id) as i64,
        origin,
        size,
    };
    lemma_filter_push(catalog.versions, version, p);
}

proof fn lemma_with_tag(
    catalog: CatalogView,
    tag_id: TagId,
    name: Seq<char>,
    style: TagStyle,
    at: i64,
)
    requires
        catalog.wf(),
    ensures
        catalog.with_tag(tag_id, name, style, at).has_tag(tag_id),
        forall|i: int|
            0 <= i < catalog.tags.len() && (#[trigger] catalog.tags[i]).id == tag_id
                ==> catalog.has_tag(tag_id),
{
    let after = catalog.with_tag(tag_id, name, style, at);
    if catalog.has_tag(tag_id) {
        let i = choose|i: int|
            0 <= i < catalog.tags.len() && (#[trigger] catalog.tags[i]).id == tag_id;
        assert(after.tags[i].id == tag_id);
    } else {
        assert(after.tags[catalog.tags.len() as int].id == tag_id);
    }
}

/// Two definitions of a tag commute: whatever order they arrive in, the newer one stands.
pub proof fn law_tag_definitions_commute(
    catalog: CatalogView,
    tag_id: TagId,
    name_a: Seq<char>,
    style_a: TagStyle,
    at_a: i64,
    name_b: Seq<char>,
    style_b: TagStyle,
    at_b: i64,
)
    requires
        catalog.wf(),
        at_a != at_b,
    ensures
        catalog.with_tag(tag_id, name_a, style_a, at_a).with_tag(tag_id, name_b, style_b, at_b)
            == catalog.with_tag(tag_id, name_b, style_b, at_b).with_tag(
            tag_id,
            name_a,
            style_a,
            at_a,
        ),
{
    let a = catalog.with_tag(tag_id, name_a, style_a, at_a);
    let b = catalog.with_tag(tag_id, name_b, style_b, at_b);
    lemma_with_tag(catalog, tag_id, name_a, style_a, at_a);
    lemma_with_tag(catalog, tag_id, name_b, style_b, at_b);
    let ab = a.with_tag(tag_id, name_b, style_b, at_b);
    let ba = b.with_tag(tag_id, name_a, style_a, at_a);
    assert forall|i: int| 0 <= i < ab.tags.len() implies ab.tags[i] == ba.tags[i] by {
        if i < catalog.tags.len() {
            let row = catalog.tags[i];
        }
    }
    assert(ab.tags =~= ba.tags);
}

/// A definition that is applied again changes nothing.
pub proof fn law_tag_redelivery_changes_nothing(
    catalog: CatalogView,
    tag_id: TagId,
    name: Seq<char>,
    style: TagStyle,
    at: i64,
)
    requires
        catalog.wf(),
    ensures
        catalog.with_tag(tag_id, name, style, at).with_tag(tag_id, name, style, at)
            == catalog.with_tag(tag_id, name, style, at),
{
    let once = catalog.with_tag(tag_id, name, style, at);
    lemma_with_tag(catalog, tag_id, name, style, at);
    let twice = once.with_tag(tag_id, name, style, at);
    assert(twice.tags =~= once.tags);
}

/// A delete and a definition of a known tag, at different times, commute: the newer decides
/// whether the tag is live and what its clock shows, and a live tag has one definition.
pub proof fn law_tag_delete_and_definition_commute(
    catalog: CatalogView,
    tag_id: TagId,
    name: Seq<char>,
    style: TagStyle,
    at: i64,
    deleted_at: i64,
)
    requires
        catalog.wf(),
        catalog.has_tag(tag_id),
        at != deleted_at,
    ensures
        ({
            let defined_first = catalog.with_tag(tag_id, name, style, at).without_tag(
                tag_id,
                deleted_at,
            ).tag(tag_id);
            let deleted_first = catalog.without_tag(tag_id, deleted_at).with_tag(
                tag_id,
                name,
                style,
                at,
            ).tag(tag_id);
            &&& defined_first.deleted == deleted_first.deleted
            &&& defined_first.modified_at == deleted_first.modified_at
            &&& !defined_first.deleted ==> defined_first == deleted_first
        }),
{
    let row = TagRowView { id: tag_id, name, modified_at: at, deleted: false, style };
    let defining = |old_row: TagRowView| row;
    let removing = |row: TagRowView| TagRowView { deleted: true, modified_at: deleted_at, ..row };
    lemma_updated_tag(catalog, tag_id, at, defining);
    lemma_updated_tag(catalog, tag_id, deleted_at, removing);
    lemma_updated_tag(catalog.with_tag(tag_id, name, style, at), tag_id, deleted_at, removing);
    lemma_updated_tag(catalog.without_tag(tag_id, deleted_at), tag_id, at, defining);
}

/// A rename or a restyling that is newer than what is known of a tag revives it, and changes
/// nothing of it but its name or its style.
pub proof fn law_newer_edit_revives_a_tag(
    catalog: CatalogView,
    tag_id: TagId,
    name: Seq<char>,
    style: TagStyle,
    at: i64,
)
    requires
        catalog.wf(),
        catalog.has_tag(tag_id),
        at > catalog.tag(tag_id).modified_at,
    ensures
        catalog.with_tag_name(tag_id, name, at).tag(tag_id) == (TagRowView {
            name,
            modified_at: at,
            deleted: false,
            ..catalog.tag(tag_id)
        }),
        catalog.with_tag_style(tag_id, style, at).tag(tag_id) == (TagRowView {
            style,
            modified_at: at,
            deleted: false,
            ..catalog.tag(tag_id)
        }),
{
    let renaming = |row: TagRowView| TagRowView { name, modified_at: at, deleted: false, ..row };
    let restyling = |row: TagRowView| TagRowView { style, modified_at: at, deleted: false, ..row };
    lemma_updated_tag(catalog, tag_id, at, renaming);
    lemma_updated_tag(catalog, tag_id, at, restyling);
}

/// A delete and a rename of a known tag, or a delete and a restyling, at different times, leave
/// it live or tombstoned the same way and with the same clock in either order.
pub proof fn law_tag_delete_and_edit_commute(
    catalog: CatalogView,
    tag_id: TagId,
    name: Seq<char>,
    style: TagStyle,
    at: i64,
    deleted_at: i64,
)
    requires
        catalog.wf(),
        catalog.has_tag(tag_id),
        at != deleted_at,
    ensures
        ({
            let renamed_first = catalog.with_tag_name(tag_id, name, at).without_tag(
                tag_id,
                deleted_at,
            ).tag(tag_id);
            let deleted_first = catalog.without_tag(tag_id, deleted_at).with_tag_name(
                tag_id,
                name,
                at,
            ).tag(tag_id);
            &&& renamed_first.deleted == deleted_first.deleted
            &&& renamed_first.modified_at == deleted_first.modified_at
            &&& !renamed_first.deleted ==> renamed_first == deleted_first
        }),
        ({
            let restyled_first = catalog.with_tag_style(tag_id, style, at).without_tag(
                tag_id,
                deleted_at,
            ).tag(tag_id);
            let deleted_first = catalog.without_tag(tag_id, deleted_at).with_tag_style(
                tag_id,
                style,
                at,
            ).tag(tag_id);
            &&& restyled_first.deleted == deleted_first.deleted
            &&& restyled_first.modified_at == deleted_first.modified_at
            &&& !restyled_first.deleted ==> restyled_first == deleted_first
        }),
{
    let renaming = |row: TagRowView| TagRowView { name, modified_at: at, deleted: false, ..row };
    let restyling = |row: TagRowView| TagRowView { style, modified_at: at, deleted: false, ..row };
    let removing = |row: TagRowView| TagRowView { deleted: true, modified_at: deleted_at, ..row };
    lemma_updated_tag(catalog, tag_id, at, renaming);
    lemma_updated_tag(catalog, tag_id, at, restyling);
    lemma_updated_tag(catalog, tag_id, deleted_at, removing);
    lemma_updated_tag(catalog.with_tag_name(tag_id, name, at), tag_id, deleted_at, removing);
    lemma_updated_tag(catalog.with_tag_style(tag_id, style, at), tag_id, deleted_at, removing);
    let removed = catalog.without_tag(tag_id, deleted_at);
    lemma_updated_tag(removed, tag_id, at, renaming);
    lemma_updated_tag(removed, tag_id, at, restyling);
}

/// Two states of one relationship commute: whatever order they arrive in, the newer stands.
pub proof fn law_relationships_commute(catalog: CatalogView, a: EntryView, b: EntryView)
    requires
        same_relationship(a, b),
        a.modified_at != b.modified_at,
    ensures
        catalog.with_relationship(a).with_relationship(b) == catalog.with_relationship(
            b,
        ).with_relationship(a),
{
    let first_a = catalog.with_relationship(a);
    let first_b = catalog.with_relationship(b);
    lemma_relationship_known(catalog, a, b);
    lemma_relationship_known(catalog, b, a);
    let ab = first_a.with_relationship(b);
    let ba = first_b.with_relationship(a);
    assert(ab.entries =~= ba.entries);
}

proof fn lemma_relationship_known(catalog: CatalogView, a: EntryView, b: EntryView)
    requires
        same_relationship(a, b),
    ensures
        catalog.with_relationship(a).has_relationship(b),
        catalog.has_relationship(a) == catalog.has_relationship(b),
{
    let after = catalog.with_relationship(a);
    if catalog.has_relationship(a) {
        let i = choose|i: int|
            0 <= i < catalog.entries.len() && same_relationship(#[trigger] catalog.entries[i], a);
        assert(same_relationship(catalog.entries[i], b));
        assert(same_relationship(after.entries[i], b));
    } else {
        assert(same_relationship(after.entries[catalog.entries.len() as int], b));
    }
    if catalog.has_relationship(b) {
        let i = choose|i: int|
            0 <= i < catalog.entries.len() && same_relationship(#[trigger] catalog.entries[i], b);
        assert(same_relationship(catalog.entries[i], a));
    }
}

/// Applying a relationship again, or a stale one, changes nothing.
pub proof fn law_stale_relationship_changes_nothing(
    catalog: CatalogView,
    newer: EntryView,
    older: EntryView,
)
    requires
        same_relationship(newer, older),
        older.modified_at <= newer.modified_at,
    ensures
        catalog.with_relationship(newer).with_relationship(older) == catalog.with_relationship(
            newer,
        ),
{
    let once = catalog.with_relationship(newer);
    lemma_relationship_known(catalog, newer, older);
    assert(once.with_relationship(older).entries =~= once.entries);
}

/// An untag at one time is the arrival of a tombstone at that time, for a relationship that
/// the catalog knows.
pub proof fn law_untag_is_a_tombstone(catalog: CatalogView, key: EntryView, modified_at: i64)
    requires
        catalog.has_relationship(key),
    ensures
        catalog.without_relationship(key, modified_at) == catalog.with_relationship(
            EntryView { deleted: true, modified_at, ..key },
        ),
{
    let incoming = EntryView { deleted: true, modified_at, ..key };
    lemma_relationship_known(catalog, key, incoming);
    assert(catalog.without_relationship(key, modified_at).entries
        =~= catalog.with_relationship(incoming).entries);
}

/// Untagging a relationship that was never recorded changes nothing.
pub proof fn law_untag_of_unknown_changes_nothing(
    catalog: CatalogView,
    key: EntryView,
    modified_at: i64,
)
    requires
        !catalog.has_relationship(key),
    ensures
        catalog.without_relationship(key, modified_at) == catalog,
{
    let after = catalog.without_relationship(key, modified_at);
    assert forall|i: int| 0 <= i < after.entries.len() implies after.entries[i]
        == catalog.entries[i] by {
        assert(!same_relationship(catalog.entries[i], key));
    }
    assert(after.entries =~= catalog.entries);
}

/// A query without terms selects exactly what the listing shows.
pub proof fn law_empty_query_selects_the_listing(
    catalog: CatalogView,
    subtag_rule: SubtagRule,
    deleted_rule: DeletedRule,
    id: u128,
)
    ensures
        catalog.selects_file(Seq::empty(), Seq::empty(), subtag_rule, deleted_rule, id)
            == catalog.listed_numbers(deleted_rule).contains(id),
        catalog.selects_tag(Seq::empty(), Seq::empty(), subtag_rule, deleted_rule, id)
            == catalog.listed_tag_numbers(deleted_rule).contains(id),
{
}

/// Terms combine conjunctively: of the listed files, those that two queries select are those
/// that the queries together select.
pub proof fn law_terms_combine_conjunctively(
    catalog: CatalogView,
    a: Seq<QueryTerm>,
    b: Seq<QueryTerm>,
    subtag_rule: SubtagRule,
    deleted_rule: DeletedRule,
    file: u128,
)
    requires
        catalog.listed_numbers(deleted_rule).contains(file),
    ensures
        catalog.selects_file(
            a + b,
            catalog.path_hits(a + b, deleted_rule),
            subtag_rule,
            deleted_rule,
            file,
        ) == (catalog.selects_file(
            a,
            catalog.path_hits(a, deleted_rule),
            subtag_rule,
            deleted_rule,
            file,
        ) && catalog.selects_file(
            b,
            catalog.path_hits(b, deleted_rule),
            subtag_rule,
            deleted_rule,
            file,
        )),
{
    let both = a + b;
    let hits = catalog.path_hits(both, deleted_rule);
    let hits_a = catalog.path_hits(a, deleted_rule);
    let hits_b = catalog.path_hits(b, deleted_rule);
    let ids = catalog.listed_numbers(deleted_rule);
    assert forall|t: int| 0 <= t < a.len() implies #[trigger] both[t] == a[t] && hits[t]
        == hits_a[t] by {}
    assert forall|t: int| 0 <= t < b.len() implies both[a.len() + t] == #[trigger] b[t]
        && hits[a.len() + t] == hits_b[t] by {}
    if catalog.selects_file(both, hits, subtag_rule, deleted_rule, file) {
        assert forall|t: int| 0 <= t < a.len() implies file_passes(
            #[trigger] a[t],
            catalog.file_member(a[t], subtag_rule, file),
            crate::store::query::verdict(ids, hits_a[t], file),
        ) by {
            assert(both[t] == a[t]);
        }
        assert forall|t: int| 0 <= t < b.len() implies file_passes(
            #[trigger] b[t],
            catalog.file_member(b[t], subtag_rule, file),
            crate::store::query::verdict(ids, hits_b[t], file),
        ) by {
            assert(both[a.len() + t] == b[t]);
        }
    }
    if catalog.selects_file(a, hits_a, subtag_rule, deleted_rule, file) && catalog.selects_file(
        b,
        hits_b,
        subtag_rule,
        deleted_rule,
        file,
    ) {
        assert forall|t: int| 0 <= t < both.len() implies file_passes(
            #[trigger] both[t],
            catalog.file_member(both[t], subtag_rule, file),
            crate::store::query::verdict(ids, hits[t], file),
        ) by {
            if t < a.len() {
                assert(both[t] == a[t]);
            } else {
                assert(both[t] == b[t - a.len()]);
            }
        }
    }
}

/// A term whose tag set is empty: asking for it matches nothing, excluding it excludes nothing.
pub proof fn law_empty_tag_set(
    catalog: CatalogView,
    tags: Vec<TagId>,
    subtag_rule: SubtagRule,
    id: u128,
    hit: Option<bool>,
)
    requires
        tags@.len() == 0,
    ensures
        !file_passes(
            QueryTerm::HasTag(tags),
            catalog.file_member(QueryTerm::HasTag(tags), subtag_rule, id),
            hit,
        ),
        file_passes(
            QueryTerm::NotTag(tags),
            catalog.file_member(QueryTerm::NotTag(tags), subtag_rule, id),
            hit,
        ),
        !tag_passes(
            QueryTerm::HasTag(tags),
            catalog.tag_member(QueryTerm::HasTag(tags), subtag_rule, id),
            hit,
        ),
        tag_passes(
            QueryTerm::NotTag(tags),
            catalog.tag_member(QueryTerm::NotTag(tags), subtag_rule, id),
            hit,
        ),
{
}

/// A query with a term that speaks of paths or file ids selects no tag.
pub proof fn law_file_terms_select_no_tag(
    catalog: CatalogView,
    terms: Seq<QueryTerm>,
    hits: Seq<Seq<bool>>,
    subtag_rule: SubtagRule,
    deleted_rule: DeletedRule,
    t: int,
    tag: u128,
)
    requires
        0 <= t < terms.len(),
        terms[t] is LogicalMatches || terms[t] is NotLogicalMatches || terms[t] is FileIdMatches
            || terms[t] is NotFileIdMatches,
    ensures
        !catalog.selects_tag(terms, hits, subtag_rule, deleted_rule, tag),
{
    let term = terms[t];
}

/// The tags of a bare token's set are found themselves, whatever their names are.
pub proof fn law_resolved_tag_surfaces_itself(
    catalog: CatalogView,
    term: QueryTerm,
    subtag_rule: SubtagRule,
    tag: TagId,
    hit: bool,
)
    requires
        term matches QueryTerm::AnyMatch(_, tags, _) && tags@.contains(tag),
    ensures
        tag_passes(term, catalog.tag_member(term, subtag_rule, tag.value), Some(hit)),
{
}

/// The short form of a tag's id resolves to that tag and to no other.
pub proof fn law_short_id_resolves(catalog: CatalogView, tag_id: TagId, length: nat, other: TagId)
    requires
        catalog.has_tag(tag_id),
        catalog.has_tag(other),
        is_short_length(catalog.tag_numbers(), tag_id.value, length),
    ensures
        id_prefix_matches(other.value, id_text(tag_id.value).take(length as int)) == (other
            == tag_id),
{
    let text = id_text(tag_id.value);
    let prefix = text.take(length as int);
    lemma_id_round_trip(tag_id.value);
    lemma_id_round_trip(other.value);
    crate::store::short_id::lemma_prefix_is_normal(tag_id.value, length);
    assert(normalized_prefix(prefix) == Some(prefix));
    let i = choose|i: int|
        0 <= i < catalog.tags.len() && (#[trigger] catalog.tags[i]).id == other;
    assert(catalog.tag_numbers()[i] == other.value);
    if other == tag_id {
        assert(prefix =~= text.subrange(0, prefix.len() as int));
    } else {
        assert(id_text(other.value).take(length as int) != prefix);
        assert(id_text(other.value).take(length as int) == id_text(other.value).subrange(
            0,
            prefix.len() as int,
        ));
    }
}

/// The short-id length of an id in a list is unique.
pub proof fn law_short_length_is_unique(ids: Seq<u128>, id: u128, a: nat, b: nat)
    requires
        is_short_length(ids, id, a),
        is_short_length(ids, id, b),
    ensures
        a == b,
{
    if a < b {
        assert(!separates(ids, id, a));
    }
    if b < a {
        assert(!separates(ids, id, b));
    }
}

} // verus!
