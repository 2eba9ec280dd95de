//! Reconciling a peer's file manifest with the local catalog.
//!
//! A manifest announces files one entry at a time. Each entry is decided on its own, from the
//! entry and the catalog alone, so a manifest may arrive in as many frames as it likes.

use vstd::prelude::*;

use crate::ids::FileId;
use crate::paths::LogicalPath;
use crate::peer::batch::{batch_views, batched, clamped, split_in_batches};
use crate::peer::messages::{entry_views, ManifestEntry, MaterializePlacement, PlacementView};
use crate::seqs::{lemma_filter_concat, lemma_filter_map_take, lemma_filter_none};
use crate::store::files::{later_of, manifest_row_view, ManifestEntryView, ManifestRow};
use crate::store::types::CatalogView;
use crate::store::versions::{history_view, VersionHistory};
use crate::store::CatalogStore;

verus! {

/// Content to pull from the peer, and how to place it.
#[derive(Debug)]
pub struct MissingContent {
    pub file_id: FileId,
    pub content_hash: String,
    pub size: i64,
    /// Seeds the clock of the path where the file is new here.
    pub logical_path_modified_at: i64,
    pub placement: MaterializePlacement,
}

/// A delete that the peer announces and that wins over the local state.
#[derive(Debug, Clone, Copy, PartialEq, Eq, Structural)]
pub struct PeerDeletion {
    pub file_id: FileId,
    pub deleted_at: i64,
}

/// A restore that the peer announces and that wins over the local tombstone.
#[derive(Debug)]
pub struct PeerRestore {
    pub file_id: FileId,
    pub restored_at: i64,
    pub content_hash: String,
    pub size: u64,
}

/// A move that the peer announces and that is newer than the local path.
#[derive(Debug)]
pub struct PeerMove {
    pub file_id: FileId,
    pub logical_path: LogicalPath,
    pub modified_at: i64,
}

/// What to do about a peer's manifest.
#[derive(Debug)]
pub struct SyncPlan {
    pub pulls: Vec<MissingContent>,
    pub deletions: Vec<PeerDeletion>,
    pub restores: Vec<PeerRestore>,
    pub moves: Vec<PeerMove>,
}

/// The model of content to pull.
pub struct MissingContentView {
    pub file_id: FileId,
    pub content_hash: Seq<char>,
    pub size: i64,
    pub logical_path_modified_at: i64,
    pub placement: PlacementView,
}

/// The model of an announced restore.
pub struct PeerRestoreView {
    pub file_id: FileId,
    pub restored_at: i64,
    pub content_hash: Seq<char>,
    pub size: u64,
}

/// The model of an announced move.
pub struct PeerMoveView {
    pub file_id: FileId,
    pub logical_path: Seq<char>,
    pub modified_at: i64,
}

/// The model of a plan.
#[verifier::ext_equal]
pub struct SyncPlanView {
    pub pulls: Seq<MissingContentView>,
    pub deletions: Seq<PeerDeletion>,
    pub restores: Seq<PeerRestoreView>,
    pub moves: Seq<PeerMoveView>,
}

impl View for MissingContent {
    type V = MissingContentView;

    open spec fn view(&self) -> MissingContentView {
        MissingContentView {
            file_id: self.file_id,
            content_hash: self.content_hash@,
            size: self.size,
            logical_path_modified_at: self.logical_path_modified_at,
            placement: self.placement@,
        }
    }
}

impl View for PeerRestore {
    type V = PeerRestoreView;

    open spec fn view(&self) -> PeerRestoreView {
        PeerRestoreView {
            file_id: self.file_id,
            restored_at: self.restored_at,
            content_hash: self.content_hash@,
            size: self.size,
        }
    }
}

impl View for PeerMove {
    type V = PeerMoveView;

    open spec fn view(&self) -> PeerMoveView {
        PeerMoveView {
            file_id: self.file_id,
            logical_path: self.logical_path@,
            modified_at: self.modified_at,
        }
    }
}

impl View for SyncPlan {
    type V = SyncPlanView;

    open spec fn view(&self) -> SyncPlanView {
        SyncPlanView {
            pulls: self.pulls@.map_values(|pull: MissingContent| pull@),
            deletions: self.deletions@,
            restores: self.restores@.map_values(|restore: PeerRestore| restore@),
            moves: self.moves@.map_values(|moved: PeerMove| moved@),
        }
    }
}

impl SyncPlanView {
    /// The plan that asks for nothing.
    pub open spec fn nothing() -> SyncPlanView {
        SyncPlanView {
            pulls: Seq::empty(),
            deletions: Seq::empty(),
            restores: Seq::empty(),
            moves: Seq::empty(),
        }
    }

    /// This plan, and then another.
    pub open spec fn followed_by(self, next: SyncPlanView) -> SyncPlanView {
        SyncPlanView {
            pulls: self.pulls + next.pulls,
            deletions: self.deletions + next.deletions,
            restores: self.restores + next.restores,
            moves: self.moves + next.moves,
        }
    }
}

/// A history holds a version with this content.
pub open spec fn knows_hash(history: Seq<(i64, Seq<char>, i64)>, hash: Seq<char>) -> bool {
    exists|k: int| 0 <= k < history.len() && (#[trigger] history[k]).1 == hash
}

/// What comparing two histories of a file says.
#[derive(Debug, Clone, Copy, PartialEq, Eq, Structural)]
pub enum ReconcileDecision {
    /// The peer has nothing newer.
    Nothing,
    /// The peer is ahead, or the file is unknown here.
    Request,
    /// Neither side knows the other's latest content; the peer's wins where `request` holds.
    Divergent { ours_observed_at: i64, request: bool },
}

/// What the local history and an announced entry say of the content of a file.
pub open spec fn decision(catalog: CatalogView, entry: ManifestEntryView) -> ReconcileDecision {
    let ours = catalog.history_of(entry.file_id);
    let theirs = entry.history;
    if ours.len() == 0 {
        ReconcileDecision::Request
    } else if theirs.len() == 0 || knows_hash(ours, theirs.last().1) {
        ReconcileDecision::Nothing
    } else if knows_hash(theirs, ours.last().1) {
        ReconcileDecision::Request
    } else {
        ReconcileDecision::Divergent {
            ours_observed_at: catalog.latest_observed_at(entry.file_id),
            request: entry.latest_observed_at > catalog.latest_observed_at(entry.file_id),
        }
    }
}

/// The file is tombstoned here.
pub open spec fn is_tombstoned(catalog: CatalogView, file_id: FileId) -> bool {
    catalog.has_file(file_id) && catalog.file(file_id).deleted
}

/// The entry announces a delete that this device has to apply: it is not tombstoned here yet,
/// and the delete is newer than the latest edit and the last restore.
pub open spec fn wins_delete(catalog: CatalogView, entry: ManifestEntryView) -> bool {
    entry.deleted && !is_tombstoned(catalog, entry.file_id) && catalog.delete_wins(
        entry.file_id,
        entry.deleted_at,
    )
}

/// The entry announces a restore that this device has to apply: it is tombstoned here, and the
/// restore is newer than the delete.
pub open spec fn wins_restore(catalog: CatalogView, entry: ManifestEntryView) -> bool {
    !entry.deleted && entry.restored_at > 0 && is_tombstoned(catalog, entry.file_id)
        && entry.restored_at > catalog.file(entry.file_id).deleted_at && entry.history.len() > 0
}

/// The entry announces a newer path of a file that is known here.
pub open spec fn wins_move(catalog: CatalogView, entry: ManifestEntryView) -> bool {
    !entry.deleted && !wins_restore(catalog, entry) && catalog.has_file(entry.file_id)
        && entry.logical_path_modified_at > catalog.file(entry.file_id).logical_path_modified_at
}

/// The entry announces content that this device has to pull.
pub open spec fn wins_content(catalog: CatalogView, entry: ManifestEntryView) -> bool {
    !entry.deleted && !wins_restore(catalog, entry) && entry.history.len() > 0 && match decision(
        catalog,
        entry,
    ) {
        ReconcileDecision::Nothing => false,
        ReconcileDecision::Request => true,
        ReconcileDecision::Divergent { request, .. } => request,
    }
}

/// The delete that an entry announces.
pub open spec fn deletion_of(entry: ManifestEntryView) -> PeerDeletion {
    PeerDeletion { file_id: entry.file_id, deleted_at: entry.deleted_at }
}

/// The restore that an entry announces.
pub open spec fn restore_of(entry: ManifestEntryView) -> PeerRestoreView {
    PeerRestoreView {
        file_id: entry.file_id,
        restored_at: entry.restored_at,
        content_hash: entry.history.last().1,
        size: entry.history.last().2 as u64,
    }
}

/// The move that an entry announces.
pub open spec fn move_of(entry: ManifestEntryView) -> PeerMoveView {
    PeerMoveView {
        file_id: entry.file_id,
        logical_path: entry.logical_path,
        modified_at: entry.logical_path_modified_at,
    }
}

/// The content that an entry announces: placed anew where the file is unknown here. Its tags
/// come by the tag manifest.
pub open spec fn pull_of(catalog: CatalogView, entry: ManifestEntryView) -> MissingContentView {
    MissingContentView {
        file_id: entry.file_id,
        content_hash: entry.history.last().1,
        size: entry.history.last().2,
        logical_path_modified_at: entry.logical_path_modified_at,
        placement: if catalog.has_file(entry.file_id) {
            PlacementView::Change
        } else {
            PlacementView::Create { logical_path: entry.logical_path, tags: Seq::empty() }
        },
    }
}

/// The plan for a manifest.
pub open spec fn file_sync_plan(
    catalog: CatalogView,
    entries: Seq<ManifestEntryView>,
) -> SyncPlanView {
    SyncPlanView {
        pulls: entries.filter(|entry: ManifestEntryView| wins_content(catalog, entry)).map_values(
            |entry: ManifestEntryView| pull_of(catalog, entry),
        ),
        deletions: entries.filter(
            |entry: ManifestEntryView| wins_delete(catalog, entry),
        ).map_values(|entry: ManifestEntryView| deletion_of(entry)),
        restores: entries.filter(
            |entry: ManifestEntryView| wins_restore(catalog, entry),
        ).map_values(|entry: ManifestEntryView| restore_of(entry)),
        moves: entries.filter(|entry: ManifestEntryView| wins_move(catalog, entry)).map_values(
            |entry: ManifestEntryView| move_of(entry),
        ),
    }
}

/// What this device announces of its files: every file that has a version.
pub fn build_local_manifest(database: &CatalogStore) -> (r: Result<Vec<ManifestEntry>, String>)
    ensures
        r matches Ok(entries) && entry_views(entries@) == database@.manifest(),
{
    let rows = match database.manifest_entries() {
        Ok(rows) => rows,
        Err(_) => return Err("manifest_entries".to_owned()),
    };
    let ghost all = rows@;
    let mut entries: Vec<ManifestEntry> = Vec::new();
    for row in it: rows.into_iter()
        invariant
            it.seq() == all,
            entries@.len() == it.index(),
            forall|k: int|
                0 <= k < entries@.len() ==> (#[trigger] entries@[k])@ == manifest_row_view(all[k]),
    {
        entries.push(
            ManifestEntry {
                file_id: row.0,
                history: row.1,
                latest_observed_at: row.2,
                logical_path: row.3,
                logical_path_modified_at: row.4,
                deleted: row.5,
                deleted_at: row.6,
                restored_at: row.7,
            },
        );
    }
    assert(entry_views(entries@) =~= all.map_values(|row: ManifestRow| manifest_row_view(row)));
    Ok(entries)
}

/// Splits a manifest into batches of at most `batch_size` entries, each for a frame of its own.
pub fn batch_manifest(entries: Vec<ManifestEntry>, batch_size: usize) -> (r: Vec<
    Vec<ManifestEntry>,
>)
    ensures
        batch_views(r@) == batched(entries@, clamped(batch_size)),
{
    split_in_batches(entries, batch_size)
}

/// Whether a history holds a version with this content.
fn holds_hash(history: &VersionHistory, hash: &String) -> (r: bool)
    ensures
        r == knows_hash(history_view(history@), hash@),
{
    let mut i: usize = 0;
    while i < history.len()
        invariant
            i <= history.len(),
            forall|k: int| 0 <= k < i ==> (#[trigger] history_view(history@)[k]).1 != hash@,
        decreases history.len() - i,
    {
        if history[i].1 == *hash {
            assert(history_view(history@)[i as int].1 == hash@);
            return true;
        }
        i = i + 1;
    }
    false
}

/// Compares an announced entry with the local history of its file.
pub fn decide_request(database: &CatalogStore, entry: &ManifestEntry) -> (r: ReconcileDecision)
    ensures
        r == decision(database@, entry@),
{
    let ours = match database.version_history(entry.file_id) {
        Ok(history) => history,
        Err(_) => return ReconcileDecision::Nothing,
    };
    let theirs = &entry.history;
    if ours.len() == 0 {
        return ReconcileDecision::Request;
    }
    if theirs.len() == 0 || holds_hash(&ours, &theirs[theirs.len() - 1].1) {
        return ReconcileDecision::Nothing;
    }
    if holds_hash(theirs, &ours[ours.len() - 1].1) {
        return ReconcileDecision::Request;
    }
    let ours_observed_at: i64 = match database.latest_version(entry.file_id) {
        Ok(Some(version)) => version.observed_at,
        _ => 0,
    };
    ReconcileDecision::Divergent {
        ours_observed_at,
        request: entry.latest_observed_at > ours_observed_at,
    }
}

/// Plans the deletion that an entry announces, if it wins.
fn plan_deletion(database: &CatalogStore, entry: &ManifestEntry) -> (r: Option<PeerDeletion>)
    requires
        database.wf(),
        entry.deleted,
    ensures
        r == if wins_delete(database@, entry@) {
            Some(deletion_of(entry@))
        } else {
            None
        },
{
    let state = match database.file_deletion_state(entry.file_id) {
        Ok(state) => state,
        Err(_) => None,
    };
    let mut restored_at: i64 = 0;
    if let Some(state) = state {
        if state.deleted {
            return None;
        }
        restored_at = state.restored_at;
    }
    let observed_at: i64 = match database.latest_version(entry.file_id) {
        Ok(Some(version)) => version.observed_at,
        _ => 0,
    };
    if entry.deleted_at > later_of(observed_at, restored_at) {
        Some(PeerDeletion { file_id: entry.file_id, deleted_at: entry.deleted_at })
    } else {
        None
    }
}

/// Plans the restore that an entry announces, if it wins.
fn plan_restore(database: &CatalogStore, entry: &ManifestEntry) -> (r: Option<PeerRestore>)
    requires
        database.wf(),
        !entry.deleted,
    ensures
        match r {
            Some(restore) => wins_restore(database@, entry@) && restore@ == restore_of(entry@),
            None => !wins_restore(database@, entry@),
        },
{
    if entry.restored_at <= 0 || entry.history.len() == 0 {
        return None;
    }
    match database.file_deletion_state(entry.file_id) {
        Ok(Some(state)) if state.deleted && entry.restored_at > state.deleted_at => {
            let latest = &entry.history[entry.history.len() - 1];
            Some(
                PeerRestore {
                    file_id: entry.file_id,
                    restored_at: entry.restored_at,
                    content_hash: latest.1.clone(),
                    size: latest.2 as u64,
                },
            )
        },
        _ => None,
    }
}

/// Plans the move that a live entry announces, if it wins and no restore does.
fn plan_move(database: &CatalogStore, entry: &ManifestEntry) -> (r: Option<PeerMove>)
    requires
        database.wf(),
        !entry.deleted,
        !wins_restore(database@, entry@),
    ensures
        match r {
            Some(moved) => wins_move(database@, entry@) && moved@ == move_of(entry@),
            None => !wins_move(database@, entry@),
        },
{
    match database.logical_path_modified_at(entry.file_id) {
        Ok(Some(ours)) if entry.logical_path_modified_at > ours => Some(
            PeerMove {
                file_id: entry.file_id,
                logical_path: entry.logical_path.clone(),
                modified_at: entry.logical_path_modified_at,
            },
        ),
        _ => None,
    }
}

/// Plans the pull of the content that a live entry announces, if it wins and no restore does.
fn plan_pull(database: &CatalogStore, entry: &ManifestEntry) -> (r: Option<MissingContent>)
    requires
        database.wf(),
        !entry.deleted,
        !wins_restore(database@, entry@),
    ensures
        match r {
            Some(pull) => wins_content(database@, entry@) && pull@ == pull_of(database@, entry@),
            None => !wins_content(database@, entry@),
        },
{
    let wanted = match decide_request(database, entry) {
        ReconcileDecision::Nothing => false,
        ReconcileDecision::Request => true,
        ReconcileDecision::Divergent { request, .. } => request,
    };
    if !wanted || entry.history.len() == 0 {
        return None;
    }
    let known = match database.file_exists(entry.file_id) {
        Ok(known) => known,
        Err(_) => false,
    };
    let latest = &entry.history[entry.history.len() - 1];
    let placement = if known {
        MaterializePlacement::Change
    } else {
        MaterializePlacement::Create {
            logical_path: entry.logical_path.clone(),
            tags: Vec::new(),
        }
    };
    assert(placement@ =~= pull_of(database@, entry@).placement);
    Some(
        MissingContent {
            file_id: entry.file_id,
            content_hash: latest.1.clone(),
            size: latest.2,
            logical_path_modified_at: entry.logical_path_modified_at,
            placement,
        },
    )
}

/// One entry more adds to the plan what that entry announces.
proof fn lemma_plan_step(catalog: CatalogView, entries: Seq<ManifestEntryView>, i: int)
    requires
        0 <= i < entries.len(),
    ensures
        ({
            let before = file_sync_plan(catalog, entries.take(i));
            let after = file_sync_plan(catalog, entries.take(i + 1));
            let entry = entries[i];
            &&& after.pulls == if wins_content(catalog, entry) {
                before.pulls.push(pull_of(catalog, entry))
            } else {
                before.pulls
            }
            &&& after.deletions == if wins_delete(catalog, entry) {
                before.deletions.push(deletion_of(entry))
            } else {
                before.deletions
            }
            &&& after.restores == if wins_restore(catalog, entry) {
                before.restores.push(restore_of(entry))
            } else {
                before.restores
            }
            &&& after.moves == if wins_move(catalog, entry) {
                before.moves.push(move_of(entry))
            } else {
                before.moves
            }
        }),
{
    lemma_filter_map_take(
        entries,
        i,
        |entry: ManifestEntryView| wins_content(catalog, entry),
        |entry: ManifestEntryView| pull_of(catalog, entry),
    );
    lemma_filter_map_take(
        entries,
        i,
        |entry: ManifestEntryView| wins_delete(catalog, entry),
        |entry: ManifestEntryView| deletion_of(entry),
    );
    lemma_filter_map_take(
        entries,
        i,
        |entry: ManifestEntryView| wins_restore(catalog, entry),
        |entry: ManifestEntryView| restore_of(entry),
    );
    lemma_filter_map_take(
        entries,
        i,
        |entry: ManifestEntryView| wins_move(catalog, entry),
        |entry: ManifestEntryView| move_of(entry),
    );
}

/// The plan for no entry asks for nothing.
proof fn lemma_empty_plan(catalog: CatalogView)
    ensures
        file_sync_plan(catalog, Seq::empty()) == SyncPlanView::nothing(),
{
    let none = Seq::<ManifestEntryView>::empty();
    lemma_filter_none(none, |entry: ManifestEntryView| wins_content(catalog, entry));
    lemma_filter_none(none, |entry: ManifestEntryView| wins_delete(catalog, entry));
    lemma_filter_none(none, |entry: ManifestEntryView| wins_restore(catalog, entry));
    lemma_filter_none(none, |entry: ManifestEntryView| wins_move(catalog, entry));
    assert(file_sync_plan(catalog, none) =~= SyncPlanView::nothing());
}

/// Adds to a plan what one entry announces.
fn plan_entry(database: &CatalogStore, entry: &ManifestEntry, plan: &mut SyncPlan)
    requires
        database.wf(),
    ensures
        final(plan)@.pulls == if wins_content(database@, entry@) {
            old(plan)@.pulls.push(pull_of(database@, entry@))
        } else {
            old(plan)@.pulls
        },
        final(plan)@.deletions == if wins_delete(database@, entry@) {
            old(plan)@.deletions.push(deletion_of(entry@))
        } else {
            old(plan)@.deletions
        },
        final(plan)@.restores == if wins_restore(database@, entry@) {
            old(plan)@.restores.push(restore_of(entry@))
        } else {
            old(plan)@.restores
        },
        final(plan)@.moves == if wins_move(database@, entry@) {
            old(plan)@.moves.push(move_of(entry@))
        } else {
            old(plan)@.moves
        },
{
    if entry.deleted {
        if let Some(deletion) = plan_deletion(database, entry) {
            plan.deletions.push(deletion);
        }
        return;
    }
    if let Some(restore) = plan_restore(database, entry) {
        plan.restores.push(restore);
        assert(plan@.restores =~= old(plan)@.restores.push(restore_of(entry@)));
        return;
    }
    if let Some(moved) = plan_move(database, entry) {
        plan.moves.push(moved);
        assert(plan@.moves =~= old(plan)@.moves.push(move_of(entry@)));
    }
    if let Some(pull) = plan_pull(database, entry) {
        plan.pulls.push(pull);
        assert(plan@.pulls =~= old(plan)@.pulls.push(pull_of(database@, entry@)));
    }
}

/// Compares a peer's manifest with the catalog and plans what to do about each entry: apply its
/// delete, its restore or its move, or pull its content.
pub fn plan_file_sync(
    _peer_name: &str,
    entries: Vec<ManifestEntry>,
    database: &CatalogStore,
) -> (plan: SyncPlan)
    requires
        database.wf(),
    ensures
        plan@ == file_sync_plan(database@, entry_views(entries@)),
{
    let mut plan = SyncPlan {
        pulls: Vec::new(),
        deletions: Vec::new(),
        restores: Vec::new(),
        moves: Vec::new(),
    };
    let ghost all = entry_views(entries@);
    proof {
        assert(all.take(0) =~= Seq::empty());
        lemma_empty_plan(database@);
        assert(plan@ =~= SyncPlanView::nothing());
    }
    let mut i: usize = 0;
    while i < entries.len()
        invariant
            i <= entries.len(),
            database.wf(),
            all == entry_views(entries@),
            plan@ == file_sync_plan(database@, all.take(i as int)),
        decreases entries.len() - i,
    {
        proof {
            lemma_plan_step(database@, all, i as int);
        }
        plan_entry(database, &entries[i], &mut plan);
        assert(plan@ =~= file_sync_plan(database@, all.take(i + 1)));
        i = i + 1;
    }
    assert(all.take(all.len() as int) =~= all);
    plan
}

/// Planning is additive: two frames planned one after the other give the plan of both at once.
pub proof fn law_plan_is_additive(
    catalog: CatalogView,
    first: Seq<ManifestEntryView>,
    second: Seq<ManifestEntryView>,
)
    ensures
        file_sync_plan(catalog, first + second) == file_sync_plan(catalog, first).followed_by(
            file_sync_plan(catalog, second),
        ),
{
    lemma_filter_concat(first, second, |entry: ManifestEntryView| wins_content(catalog, entry));
    lemma_filter_concat(first, second, |entry: ManifestEntryView| wins_delete(catalog, entry));
    lemma_filter_concat(first, second, |entry: ManifestEntryView| wins_restore(catalog, entry));
    lemma_filter_concat(first, second, |entry: ManifestEntryView| wins_move(catalog, entry));
    assert(file_sync_plan(catalog, first + second) =~= file_sync_plan(catalog, first).followed_by(
        file_sync_plan(catalog, second),
    ));
}

/// The plans of some frames, one after the other.
pub open spec fn plan_of_frames(
    catalog: CatalogView,
    frames: Seq<Seq<ManifestEntryView>>,
) -> SyncPlanView
    decreases frames.len(),
{
    if frames.len() == 0 {
        SyncPlanView::nothing()
    } else {
        file_sync_plan(catalog, frames.first()).followed_by(
            plan_of_frames(catalog, frames.drop_first()),
        )
    }
}

/// However a manifest is split into frames, the frames give the plan of the whole.
pub proof fn law_frames_plan_as_one(catalog: CatalogView, frames: Seq<Seq<ManifestEntryView>>)
    ensures
        plan_of_frames(catalog, frames) == file_sync_plan(catalog, frames.flatten()),
    decreases frames.len(),
{
    if frames.len() == 0 {
        lemma_empty_plan(catalog);
    } else {
        law_frames_plan_as_one(catalog, frames.drop_first());
        law_plan_is_additive(catalog, frames.first(), frames.drop_first().flatten());
    }
}

} // verus!
