//! The session with a connected peer: what it opens with, what it makes of every frame, and when
//! its link counts as dead.
//!
//! A session decides from the frame and the catalog. Whoever runs it carries out the actions.

use vstd::prelude::*;

use crate::ids::FileId;
use crate::paths::LogicalPath;
use crate::peer::batch::{batch_views, batched, clamped, lemma_batched_map};
use crate::peer::messages::{
    entry_views, relationship_views, CatalogCommand, Change, ChangeOrigin, ChangeView,
    CommandView, Frame, FrameView, ManifestEntry, MaterializePlacement, OriginView,
    PlacementView, PurposeView, ReceiverPurpose, SyncMessage, SyncView,
};
use crate::peer::plan::{
    batch_manifest, build_local_manifest, file_sync_plan, plan_file_sync, MissingContent,
    MissingContentView, PeerDeletion, PeerMove, PeerMoveView, PeerRestore, PeerRestoreView,
    SyncPlan,
};
use crate::peer::plan_tags::{
    batch_tag_manifest, build_local_tag_manifest, build_tag_request_response, definition_entry,
    plan_tag_sync, step_views, tag_frame_views, tag_frames, tag_response, tag_sync_plan,
    TagSyncStep, TagSyncStepView,
};
use crate::peer::transfer::serve::ChunkAnswer;
use crate::peer::transfer::ReceiveOutcome;
use crate::seqs::{lemma_filter_map_take, lemma_filter_none};
use crate::state::{EntryView, Preview, PreviewView, RelationshipManifestEntry, TagManifestEntry};
use crate::store::files::ManifestEntryView;
use crate::store::types::{CatalogView, TagRowView};
use crate::store::CatalogStore;

verus! {

/// One thing that a session wants done.
#[derive(Debug)]
pub enum SessionAction {
    /// Hand a command to the writer of the catalog.
    Command(CatalogCommand),
    /// Hand over the command that records a file; once it is handed over, pull the content.
    CatalogAndPull { command: CatalogCommand, expected_size: u64, purpose: ReceiverPurpose },
    /// Pull content from the peer.
    StartPull { expected_size: u64, purpose: ReceiverPurpose },
    /// Queue a frame on this session's link.
    Send(Frame),
    /// Queue a frame on the link that is registered for the peer.
    Reply(Frame),
    /// Answer a peer's request for a chunk from this device, or else relay it.
    AnswerChunk { file_id: FileId, content_hash: String, offset: u64 },
    /// Hand an arrived chunk to the relay.
    ChunkArrived { file_id: FileId, content_hash: String, offset: u64, bytes: Vec<u8> },
    /// Tell the relay that the peer has no such chunk.
    ChunkMissed { file_id: FileId, content_hash: String, offset: u64 },
    /// Generate a preview from local bytes if this device may and can, or else relay the request.
    GeneratePreview { file_id: FileId, content_hash: String },
    /// Hand an arrived preview to the relay.
    PreviewArrived { file_id: FileId, content_hash: String, preview: Preview },
    /// Tell the relay that the peer has no such preview.
    PreviewMissed { file_id: FileId, content_hash: String },
}

/// The model of an action.
#[verifier::ext_equal]
pub enum ActionView {
    Command(CommandView),
    CatalogAndPull { command: CommandView, expected_size: u64, purpose: PurposeView },
    StartPull { expected_size: u64, purpose: PurposeView },
    Send(FrameView),
    Reply(FrameView),
    AnswerChunk { file_id: FileId, content_hash: Seq<char>, offset: u64 },
    ChunkArrived { file_id: FileId, content_hash: Seq<char>, offset: u64, bytes: Seq<u8> },
    ChunkMissed { file_id: FileId, content_hash: Seq<char>, offset: u64 },
    GeneratePreview { file_id: FileId, content_hash: Seq<char> },
    PreviewArrived { file_id: FileId, content_hash: Seq<char>, preview: PreviewView },
    PreviewMissed { file_id: FileId, content_hash: Seq<char> },
}

impl View for SessionAction {
    type V = ActionView;

    open spec fn view(&self) -> ActionView {
        match *self {
            SessionAction::Command(command) => ActionView::Command(command@),
            SessionAction::CatalogAndPull { command, expected_size, purpose } => {
                ActionView::CatalogAndPull {
                    command: command@,
                    expected_size,
                    purpose: purpose@,
                }
            },
            SessionAction::StartPull { expected_size, purpose } => ActionView::StartPull {
                expected_size,
                purpose: purpose@,
            },
            SessionAction::Send(frame) => ActionView::Send(frame@),
            SessionAction::Reply(frame) => ActionView::Reply(frame@),
            SessionAction::AnswerChunk { file_id, content_hash, offset } => {
                ActionView::AnswerChunk { file_id, content_hash: content_hash@, offset }
            },
            SessionAction::ChunkArrived { file_id, content_hash, offset, bytes } => {
                ActionView::ChunkArrived {
                    file_id,
                    content_hash: content_hash@,
                    offset,
                    bytes: bytes@,
                }
            },
            SessionAction::ChunkMissed { file_id, content_hash, offset } => {
                ActionView::ChunkMissed { file_id, content_hash: content_hash@, offset }
            },
            SessionAction::GeneratePreview { file_id, content_hash } => {
                ActionView::GeneratePreview { file_id, content_hash: content_hash@ }
            },
            SessionAction::PreviewArrived { file_id, content_hash, preview } => {
                ActionView::PreviewArrived {
                    file_id,
                    content_hash: content_hash@,
                    preview: preview@,
                }
            },
            SessionAction::PreviewMissed { file_id, content_hash } => {
                ActionView::PreviewMissed { file_id, content_hash: content_hash@ }
            },
        }
    }
}

/// The models of some actions.
pub open spec fn action_views(actions: Seq<SessionAction>) -> Seq<ActionView> {
    actions.map_values(|action: SessionAction| action@)
}

/// What an action that cannot be carried out means for the session.
#[derive(Debug, Clone, Copy, PartialEq, Eq, Structural)]
pub enum OnFailure {
    /// The session ends.
    EndSession,
    /// The actions after it are left out.
    SkipRest,
    /// The actions after it are carried out all the same.
    GoOn,
}

/// The origin of what a peer announces.
pub open spec fn from_peer(public_key: Seq<char>) -> OriginView {
    OriginView::Peer { public_key }
}

/// Apply a change that the peer announced.
pub open spec fn apply(public_key: Seq<char>, change: ChangeView) -> ActionView {
    ActionView::Command(CommandView::Change(change, from_peer(public_key)))
}

/// The action for an announced delete.
pub open spec fn deletion_action(public_key: Seq<char>) -> spec_fn(PeerDeletion) -> ActionView {
    |deletion: PeerDeletion|
        apply(
            public_key,
            ChangeView::FileDeleted {
                file_id: deletion.file_id,
                deleted_at: deletion.deleted_at,
            },
        )
}

/// The action for an announced restore.
pub open spec fn restore_action(public_key: Seq<char>) -> spec_fn(PeerRestoreView) -> ActionView {
    |restore: PeerRestoreView|
        apply(
            public_key,
            ChangeView::FileRestored {
                file_id: restore.file_id,
                content_hash: restore.content_hash,
                size: restore.size,
                restored_at: restore.restored_at,
            },
        )
}

/// The action for an announced move.
pub open spec fn move_action(public_key: Seq<char>) -> spec_fn(PeerMoveView) -> ActionView {
    |moved: PeerMoveView|
        apply(
            public_key,
            ChangeView::FileMoved {
                file_id: moved.file_id,
                logical_path: moved.logical_path,
                modified_at: moved.modified_at,
            },
        )
}

/// The path that wanted content is recorded under: the announced one for a new file, the
/// catalog's own for a known file that is live.
pub open spec fn path_of_pull(catalog: CatalogView, pull: MissingContentView) -> Option<
    Seq<char>,
> {
    match pull.placement {
        PlacementView::Create { logical_path, .. } => Some(logical_path),
        PlacementView::Change => if catalog.has_file(pull.file_id) && !catalog.file(
            pull.file_id,
        ).deleted {
            Some(catalog.file(pull.file_id).logical_path)
        } else {
            None
        },
    }
}

/// The action for wanted content that has a path: the file is recorded, then pulled.
pub open spec fn pull_action(catalog: CatalogView, public_key: Seq<char>) -> spec_fn(
    MissingContentView,
) -> ActionView {
    |pull: MissingContentView|
        ActionView::CatalogAndPull {
            command: CommandView::CatalogFile {
                file_id: pull.file_id,
                logical_path: path_of_pull(catalog, pull)->Some_0,
                logical_path_modified_at: pull.logical_path_modified_at,
                content_hash: pull.content_hash,
                size: pull.size as u64,
                origin: from_peer(public_key),
            },
            expected_size: pull.size as u64,
            purpose: PurposeView {
                file_id: pull.file_id,
                content_hash: pull.content_hash,
                origin: from_peer(public_key),
                placement: pull.placement,
            },
        }
}

/// Wanted content that has a path.
pub open spec fn has_path(catalog: CatalogView) -> spec_fn(MissingContentView) -> bool {
    |pull: MissingContentView| path_of_pull(catalog, pull) is Some
}

/// A file is among those wanted.
pub open spec fn is_wanted(pulls: Seq<MissingContentView>, file_id: FileId) -> bool {
    exists|k: int| 0 <= k < pulls.len() && (#[trigger] pulls[k]).file_id == file_id
}

/// An announced file whose content is not pulled.
pub open spec fn not_pulled(pulls: Seq<MissingContentView>) -> spec_fn(ManifestEntryView) -> bool {
    |entry: ManifestEntryView| !is_wanted(pulls, entry.file_id)
}

/// The action for an announced file whose content is not pulled: it is placed anew.
pub open spec fn placement_action() -> spec_fn(ManifestEntryView) -> ActionView {
    |entry: ManifestEntryView|
        ActionView::Command(CommandView::ReconcilePlacement { file_id: entry.file_id })
}

/// The actions for a frame of a peer's file manifest: deletes, restores and moves first, then
/// pulls, then the placement of what is not pulled.
pub open spec fn manifest_actions(
    catalog: CatalogView,
    public_key: Seq<char>,
    entries: Seq<ManifestEntryView>,
) -> Seq<ActionView> {
    let plan = file_sync_plan(catalog, entries);
    plan.deletions.map_values(deletion_action(public_key)) + plan.restores.map_values(
        restore_action(public_key),
    ) + plan.moves.map_values(move_action(public_key)) + plan.pulls.filter(
        has_path(catalog),
    ).map_values(pull_action(catalog, public_key)) + entries.filter(
        not_pulled(plan.pulls),
    ).map_values(placement_action())
}

/// The action for a step of reconciling tags.
pub open spec fn tag_action(public_key: Seq<char>) -> spec_fn(TagSyncStepView) -> ActionView {
    |step: TagSyncStepView|
        match step {
            TagSyncStepView::Apply(change) => apply(public_key, change),
            TagSyncStepView::Ask(frame) => ActionView::Reply(frame),
        }
}

/// The origin of what a peer announces.
fn origin_of(public_key: &String) -> (r: ChangeOrigin)
    ensures
        r@ == from_peer(public_key@),
{
    ChangeOrigin::Peer { public_key: public_key.clone() }
}

/// Apply a change that the peer announced.
fn apply_change(public_key: &String, change: Change) -> (r: SessionAction)
    ensures
        r@ == apply(public_key@, change@),
{
    SessionAction::Command(CatalogCommand::Change(change, origin_of(public_key)))
}

/// Adds the actions for announced deletes.
fn add_deletions(
    public_key: &String,
    deletions: Vec<PeerDeletion>,
    actions: &mut Vec<SessionAction>,
)
    ensures
        action_views(final(actions)@) == action_views(old(actions)@) + deletions@.map_values(
            deletion_action(public_key@),
        ),
{
    let ghost start = action_views(actions@);
    let ghost f = deletion_action(public_key@);
    let mut i: usize = 0;
    assert(action_views(actions@) =~= start + deletions@.take(0).map_values(f));
    while i < deletions.len()
        invariant
            i <= deletions.len(),
            f == deletion_action(public_key@),
            action_views(actions@) == start + deletions@.take(i as int).map_values(f),
        decreases deletions.len() - i,
    {
        let deletion = deletions[i];
        let ghost before = action_views(actions@);
        actions.push(
            apply_change(
                public_key,
                Change::FileDeleted {
                    file_id: deletion.file_id,
                    deleted_at: deletion.deleted_at,
                },
            ),
        );
        proof {
            assert(action_views(actions@) =~= before.push(f(deletion)));
            assert(deletions@.take(i + 1) =~= deletions@.take(i as int).push(deletion));
            assert(action_views(actions@) =~= start + deletions@.take(i + 1).map_values(f));
        }
        i = i + 1;
    }
    assert(deletions@.take(i as int) =~= deletions@);
}

/// Adds the actions for announced restores.
fn add_restores(
    public_key: &String,
    restores: Vec<PeerRestore>,
    actions: &mut Vec<SessionAction>,
)
    ensures
        action_views(final(actions)@) == action_views(old(actions)@) + restores@.map_values(
            |restore: PeerRestore| restore@,
        ).map_values(restore_action(public_key@)),
{
    let ghost start = action_views(actions@);
    let ghost f = restore_action(public_key@);
    let ghost raw = restores@;
    let ghost all = restores@.map_values(|restore: PeerRestore| restore@);
    assert(action_views(actions@) =~= start + all.take(0).map_values(f));
    for restore in it: restores.into_iter()
        invariant
            it.seq() == raw,
            all == raw.map_values(|restore: PeerRestore| restore@),
            f == restore_action(public_key@),
            action_views(actions@) == start + all.take(it.index() as int).map_values(f),
    {
        let ghost i = it.index() as int;
        let ghost before = action_views(actions@);
        assert(restore@ == all[i]);
        let PeerRestore { file_id, restored_at, content_hash, size } = restore;
        actions.push(
            apply_change(
                public_key,
                Change::FileRestored { file_id, content_hash, size, restored_at },
            ),
        );
        proof {
            assert(action_views(actions@) =~= before.push(f(all[i])));
            assert(all.take(i + 1) =~= all.take(i).push(all[i]));
            assert(action_views(actions@) =~= start + all.take(i + 1).map_values(f));
        }
    }
    assert(all.take(all.len() as int) =~= all);
}

/// Adds the actions for announced moves.
fn add_moves(public_key: &String, moves: Vec<PeerMove>, actions: &mut Vec<SessionAction>)
    ensures
        action_views(final(actions)@) == action_views(old(actions)@) + moves@.map_values(
            |moved: PeerMove| moved@,
        ).map_values(move_action(public_key@)),
{
    let ghost start = action_views(actions@);
    let ghost f = move_action(public_key@);
    let ghost raw = moves@;
    let ghost all = moves@.map_values(|moved: PeerMove| moved@);
    assert(action_views(actions@) =~= start + all.take(0).map_values(f));
    for moved in it: moves.into_iter()
        invariant
            it.seq() == raw,
            all == raw.map_values(|moved: PeerMove| moved@),
            f == move_action(public_key@),
            action_views(actions@) == start + all.take(it.index() as int).map_values(f),
    {
        let ghost i = it.index() as int;
        let ghost before = action_views(actions@);
        assert(moved@ == all[i]);
        let PeerMove { file_id, logical_path, modified_at } = moved;
        actions.push(
            apply_change(public_key, Change::FileMoved { file_id, logical_path, modified_at }),
        );
        proof {
            assert(action_views(actions@) =~= before.push(f(all[i])));
            assert(all.take(i + 1) =~= all.take(i).push(all[i]));
            assert(action_views(actions@) =~= start + all.take(i + 1).map_values(f));
        }
    }
    assert(all.take(all.len() as int) =~= all);
}

/// The path that wanted content is recorded under.
fn pull_path(database: &CatalogStore, pull: &MissingContent) -> (r: Option<LogicalPath>)
    requires
        database.wf(),
    ensures
        match r {
            Some(path) => path_of_pull(database@, pull@) == Some(path@),
            None => path_of_pull(database@, pull@) is None,
        },
{
    match &pull.placement {
        MaterializePlacement::Create { logical_path, .. } => Some(logical_path.clone()),
        MaterializePlacement::Change => match database.logical_path_for_file_id(pull.file_id) {
            Ok(path) => Some(path),
            Err(_) => None,
        },
    }
}

/// Adds the actions for wanted content.
fn add_pulls(
    database: &CatalogStore,
    public_key: &String,
    pulls: Vec<MissingContent>,
    actions: &mut Vec<SessionAction>,
)
    requires
        database.wf(),
    ensures
        action_views(final(actions)@) == action_views(old(actions)@) + pulls@.map_values(
            |pull: MissingContent| pull@,
        ).filter(has_path(database@)).map_values(pull_action(database@, public_key@)),
{
    let ghost start = action_views(actions@);
    let ghost p = has_path(database@);
    let ghost f = pull_action(database@, public_key@);
    let ghost raw = pulls@;
    let ghost all = pulls@.map_values(|pull: MissingContent| pull@);
    proof {
        lemma_filter_none(all.take(0), p);
        assert(action_views(actions@) =~= start + all.take(0).filter(p).map_values(f));
    }
    for pull in it: pulls.into_iter()
        invariant
            it.seq() == raw,
            database.wf(),
            all == raw.map_values(|pull: MissingContent| pull@),
            p == has_path(database@),
            f == pull_action(database@, public_key@),
            action_views(actions@) == start + all.take(it.index() as int).filter(p).map_values(f),
    {
        let ghost i = it.index() as int;
        proof {
            lemma_filter_map_take(all, i, p, f);
            assert(pull@ == all[i]);
        }
        if let Some(logical_path) = pull_path(database, &pull) {
            let ghost before = action_views(actions@);
            let MissingContent {
                file_id,
                content_hash,
                size,
                logical_path_modified_at,
                placement,
            } = pull;
            let command = CatalogCommand::CatalogFile {
                file_id,
                logical_path,
                logical_path_modified_at,
                content_hash: content_hash.clone(),
                size: size as u64,
                origin: origin_of(public_key),
            };
            let purpose = ReceiverPurpose {
                file_id,
                content_hash,
                origin: origin_of(public_key),
                placement,
            };
            actions.push(
                SessionAction::CatalogAndPull { command, expected_size: size as u64, purpose },
            );
            proof {
                assert(action_views(actions@) =~= before.push(f(all[i])));
                assert(action_views(actions@) =~= start + all.take(i + 1).filter(p).map_values(f));
            }
        }
    }
    assert(all.take(all.len() as int) =~= all);
}

/// Adds the placement of the announced files whose content is not pulled.
fn add_placements(
    announced: &Vec<FileId>,
    pulled: &Vec<FileId>,
    Ghost(entries): Ghost<Seq<ManifestEntryView>>,
    Ghost(pulls): Ghost<Seq<MissingContentView>>,
    actions: &mut Vec<SessionAction>,
)
    requires
        announced@ == entries.map_values(|entry: ManifestEntryView| entry.file_id),
        pulled@ == pulls.map_values(|pull: MissingContentView| pull.file_id),
    ensures
        action_views(final(actions)@) == action_views(old(actions)@) + entries.filter(
            not_pulled(pulls),
        ).map_values(placement_action()),
{
    let ghost start = action_views(actions@);
    let ghost p = not_pulled(pulls);
    let ghost f = placement_action();
    let mut i: usize = 0;
    proof {
        lemma_filter_none(entries.take(0), p);
        assert(action_views(actions@) =~= start + entries.take(0).filter(p).map_values(f));
    }
    while i < announced.len()
        invariant
            i <= announced.len(),
            announced@ == entries.map_values(|entry: ManifestEntryView| entry.file_id),
            pulled@ == pulls.map_values(|pull: MissingContentView| pull.file_id),
            p == not_pulled(pulls),
            f == placement_action(),
            action_views(actions@) == start + entries.take(i as int).filter(p).map_values(f),
        decreases announced.len() - i,
    {
        proof {
            lemma_filter_map_take(entries, i as int, p, f);
            assert(announced@[i as int] == entries[i as int].file_id);
        }
        if !lists_file(pulled, announced[i], Ghost(pulls)) {
            let ghost before = action_views(actions@);
            actions.push(
                SessionAction::Command(
                    CatalogCommand::ReconcilePlacement { file_id: announced[i] },
                ),
            );
            proof {
                assert(action_views(actions@) =~= before.push(f(entries[i as int])));
                assert(action_views(actions@) =~= start + entries.take(i + 1).filter(
                    p,
                ).map_values(f));
            }
        }
        i = i + 1;
    }
    assert(entries.take(i as int) =~= entries);
}

/// Whether a file is among those pulled.
fn lists_file(
    pulled: &Vec<FileId>,
    file_id: FileId,
    Ghost(pulls): Ghost<Seq<MissingContentView>>,
) -> (r: bool)
    requires
        pulled@ == pulls.map_values(|pull: MissingContentView| pull.file_id),
    ensures
        r == is_wanted(pulls, file_id),
{
    let mut i: usize = 0;
    while i < pulled.len()
        invariant
            i <= pulled.len(),
            pulled@ == pulls.map_values(|pull: MissingContentView| pull.file_id),
            forall|k: int| 0 <= k < i ==> (#[trigger] pulls[k]).file_id != file_id,
        decreases pulled.len() - i,
    {
        assert(pulled@[i as int] == pulls[i as int].file_id);
        if pulled[i] == file_id {
            assert(pulls[i as int].file_id == file_id);
            return true;
        }
        i = i + 1;
    }
    false
}

/// The ids of some announced files.
fn announced_ids(entries: &Vec<ManifestEntry>) -> (r: Vec<FileId>)
    ensures
        r@ == entry_views(entries@).map_values(|entry: ManifestEntryView| entry.file_id),
{
    let mut ids: Vec<FileId> = Vec::new();
    let mut i: usize = 0;
    while i < entries.len()
        invariant
            i <= entries.len(),
            ids@.len() == i,
            forall|k: int| 0 <= k < i ==> ids@[k] == entry_views(entries@)[k].file_id,
        decreases entries.len() - i,
    {
        ids.push(entries[i].file_id);
        i = i + 1;
    }
    assert(ids@ =~= entry_views(entries@).map_values(|entry: ManifestEntryView| entry.file_id));
    ids
}

/// The ids of some wanted files.
fn wanted_ids(pulls: &Vec<MissingContent>) -> (r: Vec<FileId>)
    ensures
        r@ == pulls@.map_values(|pull: MissingContent| pull@).map_values(
            |pull: MissingContentView| pull.file_id,
        ),
{
    let ghost all = pulls@.map_values(|pull: MissingContent| pull@);
    let mut ids: Vec<FileId> = Vec::new();
    let mut i: usize = 0;
    while i < pulls.len()
        invariant
            i <= pulls.len(),
            all == pulls@.map_values(|pull: MissingContent| pull@),
            ids@.len() == i,
            forall|k: int| 0 <= k < i ==> ids@[k] == all[k].file_id,
        decreases pulls.len() - i,
    {
        ids.push(pulls[i].file_id);
        i = i + 1;
    }
    assert(ids@ =~= all.map_values(|pull: MissingContentView| pull.file_id));
    ids
}

/// What to do about a frame of a peer's file manifest.
pub fn on_manifest(
    peer_name: &str,
    peer_public_key: &String,
    entries: Vec<ManifestEntry>,
    database: &CatalogStore,
) -> (r: Vec<SessionAction>)
    requires
        database.wf(),
    ensures
        action_views(r@) == manifest_actions(
            database@,
            peer_public_key@,
            entry_views(entries@),
        ),
{
    let ghost all = entry_views(entries@);
    let announced = announced_ids(&entries);
    let plan = plan_file_sync(peer_name, entries, database);
    let ghost view = plan@;
    let SyncPlan { pulls, deletions, restores, moves } = plan;
    let pulled = wanted_ids(&pulls);
    let mut actions: Vec<SessionAction> = Vec::new();
    add_deletions(peer_public_key, deletions, &mut actions);
    add_restores(peer_public_key, restores, &mut actions);
    add_moves(peer_public_key, moves, &mut actions);
    add_pulls(database, peer_public_key, pulls, &mut actions);
    add_placements(&announced, &pulled, Ghost(all), Ghost(view.pulls), &mut actions);
    assert(action_views(actions@) =~= manifest_actions(database@, peer_public_key@, all));
    actions
}

/// What to do about a frame of a peer's tag manifest.
pub fn on_tag_manifest(
    peer_name: &str,
    peer_public_key: &String,
    definitions: Vec<TagManifestEntry>,
    relationships: Vec<RelationshipManifestEntry>,
    database: &CatalogStore,
) -> (r: Vec<SessionAction>)
    requires
        database.wf(),
    ensures
        action_views(r@) == tag_sync_plan(
            database@,
            definitions@,
            relationship_views(relationships@),
        ).map_values(tag_action(peer_public_key@)),
{
    let ghost all = tag_sync_plan(database@, definitions@, relationship_views(relationships@));
    let ghost f = tag_action(peer_public_key@);
    let steps = plan_tag_sync(peer_name, definitions, relationships, database);
    let ghost raw = steps@;
    let mut actions: Vec<SessionAction> = Vec::new();
    assert(action_views(actions@) =~= all.take(0).map_values(f));
    for step in it: steps.into_iter()
        invariant
            it.seq() == raw,
            all == step_views(raw),
            f == tag_action(peer_public_key@),
            action_views(actions@) == all.take(it.index() as int).map_values(f),
    {
        let ghost i = it.index() as int;
        let ghost before = action_views(actions@);
        assert(step@ == all[i]);
        let action = match step {
            TagSyncStep::Apply(change) => apply_change(peer_public_key, change),
            TagSyncStep::Ask(frame) => SessionAction::Reply(frame),
        };
        assert(action@ == f(all[i]));
        actions.push(action);
        proof {
            assert(action_views(actions@) =~= before.push(f(all[i])));
            assert(all.take(i + 1) =~= all.take(i).push(all[i]));
            assert(action_views(actions@) =~= all.take(i + 1).map_values(f));
        }
    }
    assert(all.take(all.len() as int) =~= all);
    actions
}

/// What to do about a frame, and what it means if some of it cannot be done. `registered` says
/// whether a link is registered for the peer.
pub open spec fn frame_actions(
    catalog: CatalogView,
    public_key: Seq<char>,
    registered: bool,
    frame: FrameView,
) -> (Seq<ActionView>, OnFailure) {
    match frame {
        FrameView::Change(change) => (seq![apply(public_key, change)], OnFailure::EndSession),
        FrameView::Sync(SyncView::Manifest { entries }) => (
            if registered {
                manifest_actions(catalog, public_key, entries)
            } else {
                Seq::empty()
            },
            OnFailure::GoOn,
        ),
        FrameView::Sync(SyncView::TagManifest { definitions, relationships }) => (
            if registered {
                tag_sync_plan(catalog, definitions, relationships).map_values(
                    tag_action(public_key),
                )
            } else {
                Seq::empty()
            },
            OnFailure::SkipRest,
        ),
        FrameView::Sync(SyncView::TagRequest { tag_id }) => (
            if registered {
                seq![ActionView::Reply(tag_response(catalog, tag_id))]
            } else {
                Seq::empty()
            },
            OnFailure::GoOn,
        ),
        FrameView::Sync(SyncView::TagNotFound { .. }) => (Seq::empty(), OnFailure::GoOn),
        FrameView::Sync(SyncView::ChunkRequest { file_id, content_hash, offset }) => (
            seq![ActionView::AnswerChunk { file_id, content_hash, offset }],
            OnFailure::GoOn,
        ),
        FrameView::Sync(SyncView::ChunkData { file_id, content_hash, offset, bytes }) => (
            seq![ActionView::ChunkArrived { file_id, content_hash, offset, bytes }],
            OnFailure::GoOn,
        ),
        FrameView::Sync(SyncView::ChunkMiss { file_id, content_hash, offset }) => (
            seq![ActionView::ChunkMissed { file_id, content_hash, offset }],
            OnFailure::GoOn,
        ),
        FrameView::Sync(SyncView::PreviewRequest { file_id, content_hash }) => (
            match catalog.cached_preview(file_id, content_hash) {
                Some(preview) => seq![
                    ActionView::Send(
                        FrameView::Sync(
                            SyncView::PreviewData { file_id, content_hash, preview },
                        ),
                    ),
                ],
                None => seq![ActionView::GeneratePreview { file_id, content_hash }],
            },
            OnFailure::GoOn,
        ),
        FrameView::Sync(SyncView::PreviewData { file_id, content_hash, preview }) => (
            seq![ActionView::PreviewArrived { file_id, content_hash, preview }],
            OnFailure::GoOn,
        ),
        FrameView::Sync(SyncView::PreviewMiss { file_id, content_hash }) => (
            seq![ActionView::PreviewMissed { file_id, content_hash }],
            OnFailure::GoOn,
        ),
    }
}

/// A list of one action.
fn only(action: SessionAction) -> (r: Vec<SessionAction>)
    ensures
        action_views(r@) == seq![action@],
{
    let mut actions: Vec<SessionAction> = Vec::new();
    let ghost view = action@;
    actions.push(action);
    assert(action_views(actions@) =~= seq![view]);
    actions
}

/// A list of no action.
fn nothing() -> (r: Vec<SessionAction>)
    ensures
        action_views(r@) == Seq::<ActionView>::empty(),
{
    let actions: Vec<SessionAction> = Vec::new();
    assert(action_views(actions@) =~= Seq::empty());
    actions
}

/// Decides what to do about a frame that a peer sent. A frame stands on its own: nothing is
/// assumed of the frames before or after it.
pub fn on_frame(
    peer_name: &str,
    peer_public_key: &String,
    registered: bool,
    frame: Frame,
    database: &CatalogStore,
) -> (r: (Vec<SessionAction>, OnFailure))
    requires
        database.wf(),
    ensures
        action_views(r.0@) == frame_actions(
            database@,
            peer_public_key@,
            registered,
            frame@,
        ).0,
        r.1 == frame_actions(database@, peer_public_key@, registered, frame@).1,
{
    let message = match frame {
        Frame::Change(change) => {
            return (only(apply_change(peer_public_key, change)), OnFailure::EndSession);
        },
        Frame::Sync(message) => message,
    };
    match message {
        SyncMessage::Manifest { entries } => {
            let actions = if registered {
                on_manifest(peer_name, peer_public_key, entries, database)
            } else {
                nothing()
            };
            (actions, OnFailure::GoOn)
        },
        SyncMessage::TagManifest { definitions, relationships } => {
            let actions = if registered {
                on_tag_manifest(peer_name, peer_public_key, definitions, relationships, database)
            } else {
                nothing()
            };
            (actions, OnFailure::SkipRest)
        },
        SyncMessage::TagRequest { tag_id } => {
            let actions = if registered {
                only(
                    SessionAction::Reply(
                        build_tag_request_response(peer_name, tag_id, database),
                    ),
                )
            } else {
                nothing()
            };
            (actions, OnFailure::GoOn)
        },
        SyncMessage::TagNotFound { .. } => (nothing(), OnFailure::GoOn),
        SyncMessage::ChunkRequest { file_id, content_hash, offset } => (
            only(SessionAction::AnswerChunk { file_id, content_hash, offset }),
            OnFailure::GoOn,
        ),
        SyncMessage::ChunkData { file_id, content_hash, offset, bytes } => (
            only(SessionAction::ChunkArrived { file_id, content_hash, offset, bytes }),
            OnFailure::GoOn,
        ),
        SyncMessage::ChunkMiss { file_id, content_hash, offset } => (
            only(SessionAction::ChunkMissed { file_id, content_hash, offset }),
            OnFailure::GoOn,
        ),
        SyncMessage::PreviewRequest { file_id, content_hash } => {
            let action = match database.preview_for(file_id, content_hash.as_str()) {
                Ok(Some(preview)) => SessionAction::Send(
                    Frame::Sync(SyncMessage::PreviewData { file_id, content_hash, preview }),
                ),
                _ => SessionAction::GeneratePreview { file_id, content_hash },
            };
            (only(action), OnFailure::GoOn)
        },
        SyncMessage::PreviewData { file_id, content_hash, preview } => (
            only(SessionAction::PreviewArrived { file_id, content_hash, preview }),
            OnFailure::GoOn,
        ),
        SyncMessage::PreviewMiss { file_id, content_hash } => (
            only(SessionAction::PreviewMissed { file_id, content_hash }),
            OnFailure::GoOn,
        ),
    }
}

/// What comes of a peer's request for a chunk once this device was asked for it.
#[derive(Debug)]
pub enum ChunkRoute {
    /// This device holds the chunk: send it.
    Send(Frame),
    /// It does not, or holds other content: relay the request.
    Relay,
}

/// Routes a peer's request for a chunk, given this device's own answer; `None` where no local
/// source holds the file.
pub fn route_chunk_request(
    answer: Option<ChunkAnswer>,
    file_id: FileId,
    content_hash: String,
    offset: u64,
) -> (r: ChunkRoute)
    ensures
        match (answer, r) {
            (Some(ChunkAnswer::Data(bytes)), ChunkRoute::Send(frame)) => frame@
                == FrameView::Sync(
                SyncView::ChunkData {
                    file_id,
                    content_hash: content_hash@,
                    offset,
                    bytes: bytes@,
                },
            ),
            (Some(ChunkAnswer::Miss), ChunkRoute::Relay) => true,
            (None, ChunkRoute::Relay) => true,
            _ => false,
        },
{
    match answer {
        Some(ChunkAnswer::Data(bytes)) => ChunkRoute::Send(
            Frame::Sync(SyncMessage::ChunkData { file_id, content_hash, offset, bytes }),
        ),
        _ => ChunkRoute::Relay,
    }
}

/// What comes of a peer's request for a preview that is not cached, once this device was asked to
/// generate it.
#[derive(Debug)]
pub enum PreviewRoute {
    /// This device has decided the preview: send it.
    Send(Frame),
    /// It may not generate previews, or does not hold the content: relay the request.
    Relay,
}

/// Routes a peer's request for a preview, given what this device generated; `None` where it may
/// not generate or could not read the content. That the content has no preview is an answer too.
pub fn route_preview_request(
    generated: Option<Preview>,
    file_id: FileId,
    content_hash: String,
) -> (r: PreviewRoute)
    ensures
        match (generated, r) {
            (Some(preview), PreviewRoute::Send(frame)) => frame@ == FrameView::Sync(
                SyncView::PreviewData {
                    file_id,
                    content_hash: content_hash@,
                    preview: preview@,
                },
            ),
            (None, PreviewRoute::Relay) => true,
            _ => false,
        },
{
    match generated {
        Some(preview) => PreviewRoute::Send(
            Frame::Sync(SyncMessage::PreviewData { file_id, content_hash, preview }),
        ),
        None => PreviewRoute::Relay,
    }
}

/// What to do when the catalog's writer wants the bytes of a change that this peer announced:
/// pull them from the peer.
pub fn on_start_receive(
    peer_public_key: &String,
    file_id: FileId,
    content_hash: String,
    expected_size: u64,
    placement: MaterializePlacement,
) -> (r: SessionAction)
    ensures
        r@ == (ActionView::StartPull {
            expected_size,
            purpose: PurposeView {
                file_id,
                content_hash: content_hash@,
                origin: from_peer(peer_public_key@),
                placement: placement@,
            },
        }),
{
    SessionAction::StartPull {
        expected_size,
        purpose: ReceiverPurpose {
            file_id,
            content_hash,
            origin: origin_of(peer_public_key),
            placement,
        },
    }
}

/// What to do when a receive has ended: the content that arrived is placed as it was meant to
/// be. A failed receive asks for nothing; the next connection recovers it.
pub fn on_received(purpose: ReceiverPurpose, outcome: ReceiveOutcome) -> (r: Option<CatalogCommand>)
    ensures
        r == match outcome {
            ReceiveOutcome::Complete(content) => Some(
                (CatalogCommand::Materialize { content, purpose }),
            ),
            ReceiveOutcome::Failed(_) => None,
        },
{
    match outcome {
        ReceiveOutcome::Complete(content) => Some(
            CatalogCommand::Materialize { content, purpose },
        ),
        ReceiveOutcome::Failed(_) => None,
    }
}

/// What is registered for a peer when a session with it begins.
#[derive(Debug, Clone, Copy, PartialEq, Eq, Structural)]
pub enum OutboundSlot {
    /// The peer is not configured.
    Missing,
    /// Nothing is registered.
    Free,
    /// The link of a session that is over.
    Closed,
    /// The link of another session that runs.
    Live,
}

/// The part that a session plays.
#[derive(Debug, Clone, Copy, PartialEq, Eq, Structural)]
pub enum SessionRole {
    /// The session does not run.
    Refused,
    /// The session registers its link.
    Owner,
    /// The session only takes in, beside another that runs.
    InboundOnly,
}

/// Decides the part of a session by what is registered for its peer: a free slot is taken and a
/// dead link replaced, but a live link is left alone.
pub fn claim_outbound(slot: OutboundSlot) -> (r: SessionRole)
    ensures
        r == match slot {
            OutboundSlot::Missing => SessionRole::Refused,
            OutboundSlot::Free => SessionRole::Owner,
            OutboundSlot::Closed => SessionRole::Owner,
            OutboundSlot::Live => SessionRole::InboundOnly,
        },
{
    match slot {
        OutboundSlot::Missing => SessionRole::Refused,
        OutboundSlot::Free => SessionRole::Owner,
        OutboundSlot::Closed => SessionRole::Owner,
        OutboundSlot::Live => SessionRole::InboundOnly,
    }
}

/// Whether a session that ends clears the registered link: it registered its own, and no other
/// session has replaced it.
pub fn clear_outbound_if_owned(role: SessionRole, slot_holds_our_link: bool) -> (r: bool)
    ensures
        r == (role == SessionRole::Owner && slot_holds_our_link),
{
    role == SessionRole::Owner && slot_holds_our_link
}

/// How long, in milliseconds, a link may carry nothing before it is pinged.
pub const PING_INTERVAL: u64 = 15000;

/// How long, in milliseconds, a peer may be silent before its link counts as dead.
pub const LIVENESS_TIMEOUT: u64 = 45000;

/// How often, in milliseconds, the writer looks at its link.
pub const TICK: u64 = 5000;

/// What the writer of a link does at a tick, in this order.
#[derive(Debug, Clone, Copy, PartialEq, Eq, Structural)]
pub struct TickActions {
    /// Answer the peer's ping.
    pub pong: bool,
    /// Give the link up.
    pub close: bool,
    /// Ping the peer.
    pub ping: bool,
}

/// How long ago something was.
pub open spec fn elapsed(now: u64, since: u64) -> int {
    if since > now {
        0
    } else {
        now - since
    }
}

/// What to do at a tick: a ping of the peer is answered first; a peer that was silent for too
/// long is given up; and a link that carried nothing of ours for a while is pinged.
pub open spec fn tick_actions(
    now: u64,
    last_activity: u64,
    last_write: u64,
    pong_requested: bool,
) -> TickActions {
    let close = elapsed(now, last_activity) >= LIVENESS_TIMEOUT;
    TickActions {
        pong: pong_requested,
        close,
        ping: !close && !pong_requested && elapsed(now, last_write) >= PING_INTERVAL,
    }
}

/// Decides what the writer of a link does at a tick. Times are in milliseconds since the session
/// began: of the last frame of the peer, and of the last write to it.
pub fn on_tick(now: u64, last_activity: u64, last_write: u64, pong_requested: bool) -> (r:
    TickActions)
    ensures
        r == tick_actions(now, last_activity, last_write, pong_requested),
{
    let close = now.saturating_sub(last_activity) >= LIVENESS_TIMEOUT;
    let ping = !close && !pong_requested && now.saturating_sub(last_write) >= PING_INTERVAL;
    TickActions { pong: pong_requested, close, ping }
}

/// A link is given up exactly when the peer was silent for the liveness timeout, and a busy link
/// is not pinged.
pub proof fn law_only_silence_closes_a_link(
    now: u64,
    last_activity: u64,
    last_write: u64,
    pong_requested: bool,
)
    requires
        last_activity <= now,
        last_write <= now,
    ensures
        ({
            let actions = tick_actions(now, last_activity, last_write, pong_requested);
            &&& actions.close <==> now - last_activity >= LIVENESS_TIMEOUT
            &&& now - last_write < PING_INTERVAL ==> !actions.ping
            &&& actions.pong == pong_requested
        }),
{
}

/// Send a frame of definitions.
pub open spec fn definitions_action() -> spec_fn(Seq<TagManifestEntry>) -> ActionView {
    |batch: Seq<TagManifestEntry>|
        ActionView::Send(
            FrameView::Sync(
                SyncView::TagManifest { definitions: batch, relationships: Seq::empty() },
            ),
        )
}

/// Send a frame of relationships.
pub open spec fn relationships_action() -> spec_fn(Seq<EntryView>) -> ActionView {
    |batch: Seq<EntryView>|
        ActionView::Send(
            FrameView::Sync(
                SyncView::TagManifest { definitions: Seq::empty(), relationships: batch },
            ),
        )
}

/// Send a frame of files.
pub open spec fn files_action() -> spec_fn(Seq<ManifestEntryView>) -> ActionView {
    |batch: Seq<ManifestEntryView>|
        ActionView::Send(FrameView::Sync(SyncView::Manifest { entries: batch }))
}

/// What a session opens with: all definitions, all relationships and then all files, in frames
/// of bounded size, and last the recovery of missing content. Tags come first, so that a file
/// finds its tags in place when its bytes arrive.
pub open spec fn opening(
    catalog: CatalogView,
    tag_batch_size: nat,
    batch_size: nat,
) -> Seq<ActionView> {
    batched(
        catalog.tags.map_values(|row: TagRowView| definition_entry(row)),
        tag_batch_size,
    ).map_values(definitions_action()) + batched(catalog.entries, tag_batch_size).map_values(
        relationships_action(),
    ) + batched(catalog.manifest(), batch_size).map_values(files_action()) + seq![
        ActionView::Command(CommandView::SweepMissingContent),
    ]
}

/// Adds the frames of the local tag manifest.
fn add_tag_frames(
    definitions: Vec<TagManifestEntry>,
    relationships: Vec<RelationshipManifestEntry>,
    batch_size: usize,
    actions: &mut Vec<SessionAction>,
)
    ensures
        action_views(final(actions)@) == action_views(old(actions)@) + batched(
            definitions@,
            clamped(batch_size),
        ).map_values(definitions_action()) + batched(
            relationship_views(relationships@),
            clamped(batch_size),
        ).map_values(relationships_action()),
{
    let ghost size = clamped(batch_size);
    let ghost first = batched(definitions@, size);
    let ghost second = batched(relationships@, size);
    let ghost views = batched(relationship_views(relationships@), size);
    let ghost start = action_views(actions@);
    let ghost target = first.map_values(definitions_action()) + views.map_values(
        relationships_action(),
    );
    proof {
        lemma_batched_map(
            relationships@,
            |entry: RelationshipManifestEntry| entry@,
            size,
        );
        assert(views.len() == second.len());
        assert forall|k: int| 0 <= k < second.len() implies views[k] == relationship_views(
            #[trigger] second[k],
        ) by {
            assert(views[k] == second[k].map_values(|entry: RelationshipManifestEntry| entry@));
        }
    }
    let frames = batch_tag_manifest(definitions, relationships, batch_size);
    let ghost raw = frames@;
    assert(action_views(actions@) =~= start + target.take(0));
    for frame in it: frames.into_iter()
        invariant
            it.seq() == raw,
            tag_frame_views(raw) == tag_frames(definitions@, relationships@, size),
            tag_frame_views(raw).len() == first.len() + second.len(),
            size > 0,
            first == batched(definitions@, size),
            second == batched(relationships@, size),
            views.len() == second.len(),
            forall|k: int|
                0 <= k < second.len() ==> views[k] == relationship_views(#[trigger] second[k]),
            target == first.map_values(definitions_action()) + views.map_values(
                relationships_action(),
            ),
            action_views(actions@) == start + target.take(it.index() as int),
    {
        let ghost i = it.index() as int;
        let ghost before = action_views(actions@);
        let ghost n = first.len() as int;
        let (definitions, relationships) = frame;
        proof {
            let frames = tag_frame_views(raw);
            assert(frames.len() == raw.len());
            assert(raw.len() == n + second.len());
            assert(frames[i] == (definitions@, relationships@));
            if i < n {
                assert(definitions@ == first[i]);
                assert(relationship_views(relationships@) =~= Seq::empty());
            } else {
                assert(definitions@ =~= Seq::empty());
                assert(relationships@ == second[i - n]);
                assert(relationship_views(relationships@) == views[i - n]);
            }
        }
        actions.push(
            SessionAction::Send(
                Frame::Sync(SyncMessage::TagManifest { definitions, relationships }),
            ),
        );
        proof {
            assert(action_views(actions@) =~= before.push(target[i]));
            assert(target.take(i + 1) =~= target.take(i).push(target[i]));
            assert(action_views(actions@) =~= start + target.take(i + 1));
        }
    }
    proof {
        assert(tag_frame_views(raw).len() == raw.len());
        assert(raw.len() == target.len());
        assert(target.take(target.len() as int) =~= target);
        assert(action_views(actions@) =~= start + first.map_values(definitions_action())
            + views.map_values(relationships_action()));
    }
}

/// Adds the frames of the local file manifest.
fn add_file_frames(
    entries: Vec<ManifestEntry>,
    batch_size: usize,
    actions: &mut Vec<SessionAction>,
)
    ensures
        action_views(final(actions)@) == action_views(old(actions)@) + batched(
            entry_views(entries@),
            clamped(batch_size),
        ).map_values(files_action()),
{
    let ghost size = clamped(batch_size);
    let ghost plain = batched(entries@, size);
    let ghost views = batched(entry_views(entries@), size);
    let ghost start = action_views(actions@);
    let ghost target = views.map_values(files_action());
    proof {
        lemma_batched_map(entries@, |entry: ManifestEntry| entry@, size);
        assert(views.len() == plain.len());
        assert forall|k: int| 0 <= k < plain.len() implies views[k] == entry_views(
            #[trigger] plain[k],
        ) by {
            assert(views[k] == plain[k].map_values(|entry: ManifestEntry| entry@));
        }
    }
    let batches = batch_manifest(entries, batch_size);
    let ghost raw = batches@;
    assert(action_views(actions@) =~= start + target.take(0));
    for batch in it: batches.into_iter()
        invariant
            it.seq() == raw,
            batch_views(raw) == plain,
            views.len() == plain.len(),
            forall|k: int|
                0 <= k < plain.len() ==> views[k] == entry_views(#[trigger] plain[k]),
            target == views.map_values(files_action()),
            action_views(actions@) == start + target.take(it.index() as int),
    {
        let ghost i = it.index() as int;
        let ghost before = action_views(actions@);
        proof {
            assert(batch_views(raw)[i] == batch@);
            assert(entry_views(batch@) == views[i]);
        }
        actions.push(SessionAction::Send(Frame::Sync(SyncMessage::Manifest { entries: batch })));
        proof {
            assert(action_views(actions@) =~= before.push(target[i]));
            assert(target.take(i + 1) =~= target.take(i).push(target[i]));
            assert(action_views(actions@) =~= start + target.take(i + 1));
        }
    }
    assert(batch_views(raw).len() == target.len());
    assert(target.take(target.len() as int) =~= target);
}

/// What a session opens with.
pub fn open_session(
    database: &CatalogStore,
    tag_batch_size: usize,
    batch_size: usize,
) -> (r: Vec<SessionAction>)
    ensures
        action_views(r@) == opening(database@, clamped(tag_batch_size), clamped(batch_size)),
{
    let mut actions: Vec<SessionAction> = Vec::new();
    assert(action_views(actions@) =~= Seq::empty());
    if let Ok((definitions, relationships)) = build_local_tag_manifest(database) {
        add_tag_frames(definitions, relationships, tag_batch_size, &mut actions);
    }
    if let Ok(entries) = build_local_manifest(database) {
        add_file_frames(entries, batch_size, &mut actions);
    }
    let ghost before = action_views(actions@);
    actions.push(SessionAction::Command(CatalogCommand::SweepMissingContent));
    assert(action_views(actions@) =~= before.push(
        ActionView::Command(CommandView::SweepMissingContent),
    ));
    assert(action_views(actions@) =~= opening(
        database@,
        clamped(tag_batch_size),
        clamped(batch_size),
    ));
    actions
}

/// The action sends a frame of a tag manifest.
pub open spec fn announces_tags(action: ActionView) -> bool {
    action matches ActionView::Send(FrameView::Sync(SyncView::TagManifest { .. }))
}

/// The action sends a frame of a file manifest.
pub open spec fn announces_files(action: ActionView) -> bool {
    action matches ActionView::Send(FrameView::Sync(SyncView::Manifest { .. }))
}

/// A session announces all its tags before any file.
pub proof fn law_tags_are_announced_before_files(
    catalog: CatalogView,
    tag_batch_size: nat,
    batch_size: nat,
    i: int,
    j: int,
)
    requires
        0 <= i < j < opening(catalog, tag_batch_size, batch_size).len(),
        announces_files(opening(catalog, tag_batch_size, batch_size)[i]),
    ensures
        !announces_tags(opening(catalog, tag_batch_size, batch_size)[j]),
{
    let definitions = batched(
        catalog.tags.map_values(|row: TagRowView| definition_entry(row)),
        tag_batch_size,
    ).map_values(definitions_action());
    let relationships = batched(catalog.entries, tag_batch_size).map_values(
        relationships_action(),
    );
    let files = batched(catalog.manifest(), batch_size).map_values(files_action());
    let all = opening(catalog, tag_batch_size, batch_size);
    let n = definitions.len() as int;
    let m = n + relationships.len();
    if i < n {
        assert(all[i] == definitions[i]);
    } else if i < m {
        assert(all[i] == relationships[i - n]);
    }
    if j < m + files.len() {
        assert(all[j] == files[j - m]);
    }
}

} // verus!
