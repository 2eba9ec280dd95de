//! What a session does about the frames of a peer: every delete, restore and move that wins is
//! applied, all content that is wanted is recorded and pulled, the rest is placed anew, and
//! requests and replies go where they belong.

use vstd::prelude::*;

use crate::ids::{FileId, TagId};
use crate::peer::messages::{
    ChangeView, CommandView, FrameView, OriginView, PlacementView, PurposeView, SyncView,
};
use crate::peer::plan::{file_sync_plan, pull_of, wins_content, MissingContentView};
use crate::peer::plan_tags::{tag_response, tag_sync_plan, TagSyncStepView};
use crate::peer::session::{
    deletion_action, frame_actions, has_path, is_wanted, move_action, not_pulled, placement_action,
    pull_action, restore_action, ActionView, OnFailure,
};
use crate::seqs::{
    lemma_filter_first, lemma_filter_keeps, lemma_filter_member, lemma_filter_none,
    lemma_filter_one, lemma_filter_pairs,
};
use crate::state::{EntryView, PreviewView, TagManifestEntry};
use crate::store::files::{lemma_file_row, ManifestEntryView};
use crate::store::previews::{caches, decoded};
use crate::store::types::{CatalogView, PreviewRowView};

verus! {

/// The files that two wanted contents belong to differ if the announced files do.
proof fn lemma_pulls_differ(catalog: CatalogView, entries: Seq<ManifestEntryView>)
    requires
        forall|a: int, b: int|
            0 <= a < b < entries.len() ==> (#[trigger] entries[a]).file_id != (
            #[trigger] entries[b]).file_id,
    ensures
        ({
            let wanted = file_sync_plan(catalog, entries).pulls.filter(has_path(catalog));
            forall|a: int, b: int|
                0 <= a < b < wanted.len() ==> (#[trigger] wanted[a]).file_id != (
                #[trigger] wanted[b]).file_id
        }),
{
    let wins = |entry: ManifestEntryView| wins_content(catalog, entry);
    let pulls = file_sync_plan(catalog, entries).pulls;
    lemma_filter_pairs(
        entries,
        wins,
        |a: ManifestEntryView, b: ManifestEntryView| a.file_id != b.file_id,
    );
    let kept = entries.filter(wins);
    assert forall|a: int, b: int| 0 <= a < b < pulls.len() implies (#[trigger] pulls[a]).file_id
        != (#[trigger] pulls[b]).file_id by {
        assert(pulls[a] == pull_of(catalog, kept[a]) && pulls[b] == pull_of(catalog, kept[b]));
        assert(kept[a].file_id != kept[b].file_id);
    }
    lemma_filter_pairs(
        pulls,
        has_path(catalog),
        |a: MissingContentView, b: MissingContentView| a.file_id != b.file_id,
    );
}

/// The content of an announced file that is wanted is recorded and pulled if the file is new here
/// or live here: a new file at the announced path, a live one at the path that the catalog has. It
/// is pulled once if the file is announced once.
pub proof fn law_wanted_content_is_recorded_and_pulled_once(
    catalog: CatalogView,
    public_key: Seq<char>,
    entries: Seq<ManifestEntryView>,
    e: int,
    i: int,
)
    requires
        catalog.wf(),
        0 <= e < entries.len(),
        file_sync_plan(catalog, seq![entries[e]]).pulls.len() > 0,
        (0 <= i < catalog.files.len() && catalog.files[i].id == entries[e].file_id
            && !catalog.files[i].deleted) || (forall|k: int|
            0 <= k < catalog.files.len() ==> (#[trigger] catalog.files[k]).id
                != entries[e].file_id),
    ensures
        ({
            let entry = entries[e];
            let latest = entry.history[entry.history.len() - 1];
            let known = 0 <= i < catalog.files.len() && catalog.files[i].id == entry.file_id;
            let announced_once = forall|a: int, b: int|
                0 <= a < b < entries.len() ==> (#[trigger] entries[a]).file_id != (
                #[trigger] entries[b]).file_id;
            let actions = frame_actions(
                catalog,
                public_key,
                true,
                FrameView::Sync(SyncView::Manifest { entries }),
            ).0;
            exists|n: int|
                0 <= n < actions.len() && #[trigger] actions[n] == (ActionView::CatalogAndPull {
                    command: CommandView::CatalogFile {
                        file_id: entry.file_id,
                        logical_path: if known {
                            catalog.files[i].logical_path
                        } else {
                            entry.logical_path
                        },
                        logical_path_modified_at: entry.logical_path_modified_at,
                        content_hash: latest.1,
                        size: latest.2 as u64,
                        origin: OriginView::Peer { public_key },
                    },
                    expected_size: latest.2 as u64,
                    purpose: PurposeView {
                        file_id: entry.file_id,
                        content_hash: latest.1,
                        origin: OriginView::Peer { public_key },
                        placement: if known {
                            PlacementView::Change
                        } else {
                            PlacementView::Create {
                                logical_path: entry.logical_path,
                                tags: Seq::empty(),
                            }
                        },
                    },
                }) && (announced_once ==> forall|m: int|
                    0 <= m < actions.len() && m != n && (
                    #[trigger] actions[m]) is CatalogAndPull
                        ==> actions[m]->CatalogAndPull_purpose.file_id != entry.file_id)
        }),
{
    let entry = entries[e];
    let wins = |entry: ManifestEntryView| wins_content(catalog, entry);
    lemma_filter_one(entry, wins);
    assert(wins_content(catalog, entry));
    lemma_filter_keeps(entries, wins, e);
    let kept = entries.filter(wins);
    let k = choose|k: int| 0 <= k < kept.len() && kept[k] == entry;
    let plan = file_sync_plan(catalog, entries);
    let pull = pull_of(catalog, entry);
    assert(plan.pulls[k] == pull);
    if 0 <= i < catalog.files.len() && catalog.files[i].id == entry.file_id {
        lemma_file_row(catalog, i);
    }
    assert(has_path(catalog)(pull));
    lemma_filter_keeps(plan.pulls, has_path(catalog), k);
    let wanted = plan.pulls.filter(has_path(catalog));
    let w = choose|w: int| 0 <= w < wanted.len() && wanted[w] == pull;
    let actions = frame_actions(
        catalog,
        public_key,
        true,
        FrameView::Sync(SyncView::Manifest { entries }),
    ).0;
    let before = plan.deletions.len() + plan.restores.len() + plan.moves.len();
    let n = before + w;
    lemma_manifest_positions(catalog, public_key, entries);
    assert(actions[n] == pull_action(catalog, public_key)(pull));
    if forall|a: int, b: int|
        0 <= a < b < entries.len() ==> (#[trigger] entries[a]).file_id != (
        #[trigger] entries[b]).file_id {
        lemma_pulls_differ(catalog, entries);
        assert forall|m: int| 0 <= m < actions.len() && m != n && (
        #[trigger] actions[m]) is CatalogAndPull implies actions[m]->CatalogAndPull_purpose.file_id
            != entry.file_id by {
            assert(before <= m < before + wanted.len());
            assert(actions[m] == pull_action(catalog, public_key)(wanted[m - before]));
            if m - before < w {
                assert(wanted[m - before].file_id != wanted[w].file_id);
            } else {
                assert(wanted[w].file_id != wanted[m - before].file_id);
            }
        }
    }
}

/// Where the actions for a manifest stand.
proof fn lemma_manifest_positions(
    catalog: CatalogView,
    public_key: Seq<char>,
    entries: Seq<ManifestEntryView>,
)
    ensures
        ({
            let plan = file_sync_plan(catalog, entries);
            let wanted = plan.pulls.filter(has_path(catalog));
            let rest = entries.filter(not_pulled(plan.pulls));
            let d = plan.deletions.len();
            let r = d + plan.restores.len();
            let m = r + plan.moves.len();
            let p = m + wanted.len();
            let actions = frame_actions(
                catalog,
                public_key,
                true,
                FrameView::Sync(SyncView::Manifest { entries }),
            ).0;
            &&& actions.len() == p + rest.len()
            &&& forall|n: int|
                0 <= n < d ==> #[trigger] actions[n] == deletion_action(public_key)(
                    plan.deletions[n],
                )
            &&& forall|n: int|
                d <= n < r ==> #[trigger] actions[n] == restore_action(public_key)(
                    plan.restores[n - d],
                )
            &&& forall|n: int|
                r <= n < m ==> #[trigger] actions[n] == move_action(public_key)(plan.moves[n - r])
            &&& forall|n: int|
                m <= n < p ==> #[trigger] actions[n] == pull_action(catalog, public_key)(
                    wanted[n - m],
                )
            &&& forall|n: int|
                p <= n < actions.len() ==> #[trigger] actions[n] == placement_action()(rest[n - p])
        }),
{
}

/// The actions for a manifest come in this order: each planned delete, each planned restore and
/// each planned move is applied, as changes of the peer; then content is pulled; then files are
/// placed anew. Nothing else is done.
pub proof fn law_manifest_actions_follow_the_plan(
    catalog: CatalogView,
    public_key: Seq<char>,
    entries: Seq<ManifestEntryView>,
)
    ensures
        ({
            let plan = file_sync_plan(catalog, entries);
            let d = plan.deletions.len();
            let r = d + plan.restores.len();
            let m = r + plan.moves.len();
            let actions = frame_actions(
                catalog,
                public_key,
                true,
                FrameView::Sync(SyncView::Manifest { entries }),
            ).0;
            &&& actions.len() >= m
            &&& forall|n: int|
                0 <= n < d ==> #[trigger] actions[n] == ActionView::Command(
                    CommandView::Change(
                        ChangeView::FileDeleted {
                            file_id: plan.deletions[n].file_id,
                            deleted_at: plan.deletions[n].deleted_at,
                        },
                        OriginView::Peer { public_key },
                    ),
                )
            &&& forall|n: int|
                d <= n < r ==> #[trigger] actions[n] == ActionView::Command(
                    CommandView::Change(
                        ChangeView::FileRestored {
                            file_id: plan.restores[n - d].file_id,
                            content_hash: plan.restores[n - d].content_hash,
                            size: plan.restores[n - d].size,
                            restored_at: plan.restores[n - d].restored_at,
                        },
                        OriginView::Peer { public_key },
                    ),
                )
            &&& forall|n: int|
                r <= n < m ==> #[trigger] actions[n] == ActionView::Command(
                    CommandView::Change(
                        ChangeView::FileMoved {
                            file_id: plan.moves[n - r].file_id,
                            logical_path: plan.moves[n - r].logical_path,
                            modified_at: plan.moves[n - r].modified_at,
                        },
                        OriginView::Peer { public_key },
                    ),
                )
            &&& forall|n: int|
                m <= n < actions.len() ==> (#[trigger] actions[n] is CatalogAndPull) || (
                actions[n] matches ActionView::Command(CommandView::ReconcilePlacement { .. }))
            &&& forall|n: int, l: int|
                m <= n < l < actions.len() && (#[trigger] actions[l] is CatalogAndPull)
                    ==> #[trigger] actions[n] is CatalogAndPull
        }),
{
    lemma_manifest_positions(catalog, public_key, entries);
}

/// What is pulled is content that the plan wants, and the tombstoned files are left alone: a
/// recorded file that has a row here is live.
pub proof fn law_only_wanted_content_is_pulled(
    catalog: CatalogView,
    public_key: Seq<char>,
    entries: Seq<ManifestEntryView>,
    n: int,
)
    requires
        catalog.wf(),
        0 <= n < frame_actions(
            catalog,
            public_key,
            true,
            FrameView::Sync(SyncView::Manifest { entries }),
        ).0.len(),
        frame_actions(
            catalog,
            public_key,
            true,
            FrameView::Sync(SyncView::Manifest { entries }),
        ).0[n] is CatalogAndPull,
    ensures
        ({
            let plan = file_sync_plan(catalog, entries);
            let purpose = frame_actions(
                catalog,
                public_key,
                true,
                FrameView::Sync(SyncView::Manifest { entries }),
            ).0[n]->CatalogAndPull_purpose;
            &&& exists|k: int|
                0 <= k < plan.pulls.len() && (#[trigger] plan.pulls[k]).file_id == purpose.file_id
                    && plan.pulls[k].content_hash == purpose.content_hash
                    && plan.pulls[k].placement == purpose.placement
            &&& forall|i: int|
                0 <= i < catalog.files.len() && (#[trigger] catalog.files[i]).id == purpose.file_id
                    ==> !catalog.files[i].deleted
        }),
{
    lemma_manifest_positions(catalog, public_key, entries);
    let plan = file_sync_plan(catalog, entries);
    let wanted = plan.pulls.filter(has_path(catalog));
    let m = plan.deletions.len() + plan.restores.len() + plan.moves.len();
    let w = n - m;
    lemma_filter_member(plan.pulls, has_path(catalog), w);
    let k = choose|k: int| 0 <= k < plan.pulls.len() && plan.pulls[k] == wanted[w];
    assert(plan.pulls[k].file_id == wanted[w].file_id);
    let wins = |entry: ManifestEntryView| wins_content(catalog, entry);
    assert(plan.pulls[k] == pull_of(catalog, entries.filter(wins)[k]));
    assert forall|i: int|
        0 <= i < catalog.files.len() && (#[trigger] catalog.files[i]).id
            == wanted[w].file_id implies !catalog.files[i].deleted by {
        lemma_file_row(catalog, i);
        assert(catalog.has_file(wanted[w].file_id));
    }
}

/// An announced file is placed anew exactly if its content is not wanted.
pub proof fn law_what_is_not_pulled_is_placed_anew(
    catalog: CatalogView,
    public_key: Seq<char>,
    entries: Seq<ManifestEntryView>,
    file_id: FileId,
)
    ensures
        ({
            let actions = frame_actions(
                catalog,
                public_key,
                true,
                FrameView::Sync(SyncView::Manifest { entries }),
            ).0;
            let pulls = file_sync_plan(catalog, entries).pulls;
            (exists|n: int|
                0 <= n < actions.len() && #[trigger] actions[n] == ActionView::Command(
                    CommandView::ReconcilePlacement { file_id },
                )) <==> (exists|e: int|
                0 <= e < entries.len() && (#[trigger] entries[e]).file_id == file_id) && forall|
                k: int,
            |
                0 <= k < pulls.len() ==> (#[trigger] pulls[k]).file_id != file_id
        }),
{
    lemma_manifest_positions(catalog, public_key, entries);
    let plan = file_sync_plan(catalog, entries);
    let wanted = plan.pulls.filter(has_path(catalog));
    let rest = entries.filter(not_pulled(plan.pulls));
    let p = plan.deletions.len() + plan.restores.len() + plan.moves.len() + wanted.len();
    let actions = frame_actions(
        catalog,
        public_key,
        true,
        FrameView::Sync(SyncView::Manifest { entries }),
    ).0;
    let placed = ActionView::Command(CommandView::ReconcilePlacement { file_id });
    if exists|n: int| 0 <= n < actions.len() && #[trigger] actions[n] == placed {
        let n = choose|n: int| 0 <= n < actions.len() && #[trigger] actions[n] == placed;
        assert(p <= n);
        lemma_filter_member(entries, not_pulled(plan.pulls), n - p);
        let e = choose|e: int| 0 <= e < entries.len() && entries[e] == rest[n - p];
        assert(entries[e].file_id == file_id);
        assert(!is_wanted(plan.pulls, file_id));
    }
    if (exists|e: int| 0 <= e < entries.len() && (#[trigger] entries[e]).file_id == file_id)
        && forall|k: int|
        0 <= k < plan.pulls.len() ==> (#[trigger] plan.pulls[k]).file_id != file_id {
        let e = choose|e: int| 0 <= e < entries.len() && (#[trigger] entries[e]).file_id == file_id;
        assert(not_pulled(plan.pulls)(entries[e]));
        lemma_filter_keeps(entries, not_pulled(plan.pulls), e);
        let k = choose|k: int| 0 <= k < rest.len() && rest[k] == entries[e];
        assert(actions[p + k] == placed);
    }
}

/// Every step of a tag plan is carried out, in order: a change is applied as one of the peer, and
/// a question is put to the peer.
pub proof fn law_tag_actions_follow_the_plan(
    catalog: CatalogView,
    public_key: Seq<char>,
    definitions: Seq<TagManifestEntry>,
    relationships: Seq<EntryView>,
)
    ensures
        ({
            let plan = tag_sync_plan(catalog, definitions, relationships);
            let actions = frame_actions(
                catalog,
                public_key,
                true,
                FrameView::Sync(SyncView::TagManifest { definitions, relationships }),
            ).0;
            &&& actions.len() == plan.len()
            &&& forall|s: int|
                #![trigger plan[s]]
                #![trigger actions[s]]
                0 <= s < plan.len() ==> actions[s] == match plan[s] {
                    TagSyncStepView::Apply(change) => ActionView::Command(
                        CommandView::Change(change, OriginView::Peer { public_key }),
                    ),
                    TagSyncStepView::Ask(frame) => ActionView::Reply(frame),
                }
        }),
{
}

/// A change that a peer sends is applied as one of that peer, whoever is registered, and a session
/// that cannot do so ends.
pub proof fn law_change_of_a_peer_is_applied(
    catalog: CatalogView,
    public_key: Seq<char>,
    registered: bool,
    change: ChangeView,
)
    ensures
        frame_actions(catalog, public_key, registered, FrameView::Change(change)).0 == seq![
            ActionView::Command(CommandView::Change(change, OriginView::Peer { public_key })),
        ],
        frame_actions(catalog, public_key, registered, FrameView::Change(change)).1
            == OnFailure::EndSession,
{
}

/// Manifests and requests for definitions are answered on the link that is registered for the
/// peer, and lead to nothing where none is. A request for a definition is answered by one frame.
pub proof fn law_only_a_registered_peer_is_answered(
    catalog: CatalogView,
    public_key: Seq<char>,
    entries: Seq<ManifestEntryView>,
    definitions: Seq<TagManifestEntry>,
    relationships: Seq<EntryView>,
    tag_id: TagId,
)
    ensures
        frame_actions(
            catalog,
            public_key,
            false,
            FrameView::Sync(SyncView::Manifest { entries }),
        ).0.len() == 0,
        frame_actions(
            catalog,
            public_key,
            false,
            FrameView::Sync(SyncView::TagManifest { definitions, relationships }),
        ).0.len() == 0,
        frame_actions(
            catalog,
            public_key,
            false,
            FrameView::Sync(SyncView::TagRequest { tag_id }),
        ).0.len() == 0,
        frame_actions(
            catalog,
            public_key,
            true,
            FrameView::Sync(SyncView::TagRequest { tag_id }),
        ).0 == seq![ActionView::Reply(tag_response(catalog, tag_id))],
{
}

/// Requests for chunks, chunks, and that there is none, go to where chunks are dealt with, as they
/// came; and so do previews, and that there is none.
pub proof fn law_chunks_and_previews_are_passed_on(
    catalog: CatalogView,
    public_key: Seq<char>,
    registered: bool,
    file_id: FileId,
    content_hash: Seq<char>,
    offset: u64,
    bytes: Seq<u8>,
    preview: PreviewView,
    tag_id: TagId,
)
    ensures
        ({
            let done = |message: SyncView|
                frame_actions(catalog, public_key, registered, FrameView::Sync(message)).0;
            &&& done(SyncView::ChunkRequest { file_id, content_hash, offset }) == seq![
                ActionView::AnswerChunk { file_id, content_hash, offset },
            ]
            &&& done(SyncView::ChunkData { file_id, content_hash, offset, bytes }) == seq![
                ActionView::ChunkArrived { file_id, content_hash, offset, bytes },
            ]
            &&& done(SyncView::ChunkMiss { file_id, content_hash, offset }) == seq![
                ActionView::ChunkMissed { file_id, content_hash, offset },
            ]
            &&& done(SyncView::PreviewData { file_id, content_hash, preview }) == seq![
                ActionView::PreviewArrived { file_id, content_hash, preview },
            ]
            &&& done(SyncView::PreviewMiss { file_id, content_hash }) == seq![
                ActionView::PreviewMissed { file_id, content_hash },
            ]
            &&& done(SyncView::TagNotFound { tag_id }).len() == 0
        }),
{
}

/// A request for a preview that is cached for just that content is answered with it, also where
/// the finding is that there is none; where nothing is cached for that content, this device is
/// asked to generate it.
pub proof fn law_cached_preview_answers_a_request(
    catalog: CatalogView,
    public_key: Seq<char>,
    registered: bool,
    file_id: FileId,
    content_hash: Seq<char>,
    k: int,
)
    requires
        catalog.wf(),
        (0 <= k < catalog.previews.len() && catalog.previews[k].file_id == file_id
            && catalog.previews[k].content_hash == content_hash) || (forall|m: int|
            0 <= m < catalog.previews.len() ==> !((#[trigger] catalog.previews[m]).file_id
                == file_id && catalog.previews[m].content_hash == content_hash)),
    ensures
        frame_actions(
            catalog,
            public_key,
            registered,
            FrameView::Sync(SyncView::PreviewRequest { file_id, content_hash }),
        ).0 == if 0 <= k < catalog.previews.len() && catalog.previews[k].file_id == file_id
            && catalog.previews[k].content_hash == content_hash {
            seq![
                ActionView::Send(
                    FrameView::Sync(
                        SyncView::PreviewData {
                            file_id,
                            content_hash,
                            preview: decoded(catalog.previews[k]),
                        },
                    ),
                ),
            ]
        } else {
            seq![ActionView::GeneratePreview { file_id, content_hash }]
        },
{
    let p = |row: PreviewRowView| caches(row, file_id, content_hash);
    if 0 <= k < catalog.previews.len() && catalog.previews[k].file_id == file_id
        && catalog.previews[k].content_hash == content_hash {
        assert forall|m: int| 0 <= m < k implies !p(#[trigger] catalog.previews[m]) by {
            if p(catalog.previews[m]) {
                assert(crate::store::types::same_preview_key(
                    catalog.previews[m],
                    catalog.previews[k],
                ));
            }
        }
        lemma_filter_first(catalog.previews, k, p);
    } else {
        lemma_filter_none(catalog.previews, p);
    }
}

/// What it means that an action cannot be carried out: a session that cannot apply a change ends, the
/// rest of a tag manifest is left out, since its steps build on one another, and all else goes on.
pub proof fn law_failure_ends_no_more_than_it_must(
    catalog: CatalogView,
    public_key: Seq<char>,
    registered: bool,
    frame: FrameView,
)
    ensures
        frame_actions(catalog, public_key, registered, frame).1 == match frame {
            FrameView::Change(_) => OnFailure::EndSession,
            FrameView::Sync(SyncView::TagManifest { .. }) => OnFailure::SkipRest,
            _ => OnFailure::GoOn,
        },
{
}

} // verus!
