//! What the operations give back, said of a call of each: of what goes in and what comes out.

use vstd::prelude::*;
use vstd::utf8::{decode_utf8, valid_utf8};

use crate::clock::stamp_of;
use crate::file_bytes::FileBytes;
use crate::ids::{id_text, parsed_id, FileId, TagId};
use crate::paths::{LogicalPath, PhysicalPath};
use crate::peer::fetch::{
    fetch_result, is_available, pull_from_origin, read_local_if_hash_matches, FetchError,
};
use crate::peer::handshake::{Identity, IdentityError};
use crate::peer::messages::{
    CatalogCommand, ChangeOrigin, ChangeView, CommandView, Frame, FrameView, ManifestEntry,
    MaterializePlacement, OriginView, ReceiverPurpose, SyncMessage, SyncView,
};
use crate::peer::plan::{plan_file_sync, SyncPlan};
use crate::peer::plan_purge::plan_purge_sync;
use crate::peer::plan_tags::{plan_tag_sync, step_views, TagSyncStep, TagSyncStepView};
use crate::peer::reconcile_laws::law_device_behind_pulls;
use crate::peer::session::{
    action_views, claim_outbound, clear_outbound_if_owned, on_frame, on_received, on_start_receive,
    route_chunk_request, route_preview_request, ActionView, ChunkRoute, OnFailure, OutboundSlot,
    PreviewRoute, SessionAction, SessionRole,
};
use crate::peer::session_laws::law_wanted_content_is_recorded_and_pulled_once;
use crate::peer::tag_laws::law_unknown_or_newer_relationship_is_applied;
use crate::peer::transfer::receive::{
    judge_digest, receive_outcome, LivenessWindow, ReceiveStep,
};
use crate::peer::transfer::{ChunkAnswer, ChunkReply, ReceiveOutcome, TransferError};
use crate::preview::laws::law_plain_text_is_shown_as_it_is;
use crate::preview::raster::{image_size, may_render, orientation_to_apply, preview_of_rendering};
use crate::preview::{generate, needs_of, read_leading, FileKind, Needs};
use crate::seqs::{lemma_filter_all, lemma_filter_keeps, lemma_filter_member};
use crate::state::{
    DeletedRule, EntryView, FileInfo, Preview, PreviewView, RelationshipKind,
    RelationshipManifestEntry, SubtagRule, Tag, TagManifestEntry, TagStyle,
};
use crate::store::directory_index::{DirectoryFileView, DirectoryIndex, SyncDirectoryFile};
use crate::store::files::sum_of;
use crate::store::pattern::TextPattern;
use crate::store::query::QueryTerm;
use crate::store::query_laws::{
    law_negated_term_finds_the_other_files, law_term_finds_the_files_it_asks_for,
};
use crate::store::short_id::normalized_prefix;
use crate::store::types::{
    DatabaseError, DeletionState, FileRowView, FileVersion, FileVersionView, TagRowView,
};
use crate::store::CatalogStore;
use crate::text::{ascii_lower, is_hex_digit};
use crate::text_laws::{
    law_content_is_found_by_the_start_of_its_hash, law_open_pattern_matches_what_begins_with_it,
};

verus! {

/// A device that hears of a live file whose announced history holds, anywhere, the content it has
/// itself last, and ends with content that it has not, pulls that content.
pub proof fn law_planning_pulls_what_a_device_lacks(
    name: &str,
    entries: Vec<ManifestEntry>,
    database: &CatalogStore,
    plan: SyncPlan,
    e: int,
    n: int,
    k: int,
)
    requires
        database.wf(),
        call_ensures(plan_file_sync, (name, entries, database), plan),
        0 <= e < entries@.len(),
        !entries@[e].deleted,
        forall|i: int|
            0 <= i < database@.files.len() && (#[trigger] database@.files[i]).id
                == entries@[e].file_id ==> !database@.files[i].deleted,
        0 <= n < database@.versions.len(),
        database@.versions[n].file_id == entries@[e].file_id,
        forall|j: int|
            n < j < database@.versions.len() ==> (#[trigger] database@.versions[j]).file_id
                != entries@[e].file_id,
        0 <= k < entries@[e].history@.len(),
        entries@[e].history@[k].1@ == database@.versions[n].content_hash,
        forall|j: int|
            0 <= j < database@.versions.len() && (#[trigger] database@.versions[j]).file_id
                == entries@[e].file_id ==> database@.versions[j].content_hash
                != entries@[e].history@[entries@[e].history@.len() - 1].1@,
    ensures
        exists|p: int|
            0 <= p < plan.pulls@.len() && (#[trigger] plan.pulls@[p]).file_id == entries@[e].file_id
                && plan.pulls@[p].content_hash@ == entries@[e].history@[entries@[e].history@.len()
                - 1].1@ && plan.pulls@[p].size == entries@[e].history@[entries@[e].history@.len()
                - 1].2,
{
    let views = crate::peer::messages::entry_views(entries@);
    let entry = views[e];
    assert(entry.history.len() == entries@[e].history@.len());
    assert(entry.history.last() == entry.history[entry.history.len() - 1]);
    law_device_behind_pulls(database@, views, e, n, k);
    let pulls = plan@.pulls;
    let p = choose|p: int|
        0 <= p < pulls.len() && (#[trigger] pulls[p]).file_id == entry.file_id
            && pulls[p].content_hash == entry.history.last().1 && pulls[p].size
            == entry.history.last().2;
    assert(pulls[p] == plan.pulls@[p]@);
}

/// A search for a text, a tag or an id, and the search for all but those, part the live files that
/// have a version between them: one of the two finds a file, and the other does not. A file whose
/// path the text matches is found by the first.
pub proof fn law_search_and_its_negation_part_the_files(
    store: &CatalogStore,
    pattern: TextPattern,
    tags: Vec<TagId>,
    ids: Vec<FileId>,
    terms: &Vec<QueryTerm>,
    negated: &Vec<QueryTerm>,
    subtag_rule: SubtagRule,
    deleted_rule: DeletedRule,
    found: Result<Vec<FileId>, DatabaseError>,
    rest: Result<Vec<FileId>, DatabaseError>,
    i: int,
    j: int,
)
    requires
        store.wf(),
        terms@ == seq![QueryTerm::AnyMatch(pattern, tags, ids)],
        negated@ == seq![QueryTerm::NotAnyMatch(pattern, tags, ids)],
        call_ensures(
            CatalogStore::file_ids_for_query,
            (store, terms, subtag_rule, deleted_rule),
            found,
        ),
        call_ensures(
            CatalogStore::file_ids_for_query,
            (store, negated, subtag_rule, deleted_rule),
            rest,
        ),
        0 <= i < store@.files.len(),
        deleted_rule is Include || !store@.files[i].deleted,
        0 <= j < store@.versions.len(),
        store@.versions[j].file_id == store@.files[i].id,
    ensures
        found is Ok && rest is Ok,
        found->Ok_0@.contains(store@.files[i].id) != rest->Ok_0@.contains(store@.files[i].id),
        crate::store::pattern::pattern_matches(pattern, store@.files[i].logical_path)
            ==> found->Ok_0@.contains(store@.files[i].id),
{
    law_negated_term_finds_the_other_files(
        store@,
        pattern,
        tags,
        ids,
        subtag_rule,
        deleted_rule,
        i,
        j,
    );
    law_term_finds_the_files_it_asks_for(
        store@,
        pattern,
        tags,
        ids,
        subtag_rule,
        deleted_rule,
        i,
        j,
    );
}

/// A device that hears of a tagging or an untagging of which it has no row takes it in as it was
/// announced.
pub proof fn law_planning_takes_in_unknown_relationships(
    name: &str,
    definitions: Vec<TagManifestEntry>,
    relationships: Vec<RelationshipManifestEntry>,
    database: &CatalogStore,
    steps: Vec<TagSyncStep>,
    r: int,
    target: u128,
)
    requires
        database.wf(),
        call_ensures(plan_tag_sync, (name, definitions, relationships, database), steps),
        0 <= r < relationships@.len(),
        parsed_id(relationships@[r].target_id@) == Some(target),
        relationships@[r].kind == RelationshipKind::File,
        forall|e: int|
            0 <= e < database@.entries.len() ==> !((#[trigger] database@.entries[e]).tag_id
                == relationships@[r].tag_id && database@.entries[e].target_id
                == relationships@[r].target_id@ && database@.entries[e].kind
                == relationships@[r].kind),
    ensures
        exists|s: int|
            0 <= s < steps@.len() && (#[trigger] steps@[s])@ == TagSyncStepView::Apply(
                if relationships@[r].deleted {
                    ChangeView::FileUntagged {
                        file_id: FileId { value: target },
                        tag_id: relationships@[r].tag_id,
                        modified_at: relationships@[r].modified_at,
                    }
                } else {
                    ChangeView::FileTagged {
                        file_id: FileId { value: target },
                        tag_id: relationships@[r].tag_id,
                        metadata: None,
                        modified_at: relationships@[r].modified_at,
                    }
                },
            ),
{
    let views = crate::peer::messages::relationship_views(relationships@);
    assert(views[r] == relationships@[r]@);
    law_unknown_or_newer_relationship_is_applied(database@, definitions@, views, r, target);
    let plan = step_views(steps@);
    let s = choose|s: int|
        0 <= s < plan.len() && #[trigger] plan[s] == TagSyncStepView::Apply(
            if relationships@[r].deleted {
                ChangeView::FileUntagged {
                    file_id: FileId { value: target },
                    tag_id: relationships@[r].tag_id,
                    modified_at: relationships@[r].modified_at,
                }
            } else {
                ChangeView::FileTagged {
                    file_id: FileId { value: target },
                    tag_id: relationships@[r].tag_id,
                    metadata: None,
                    modified_at: relationships@[r].modified_at,
                }
            },
        );
    assert(steps@[s]@ == plan[s]);
}

/// A session that hears of content it lacks of a file that is live here records it under the path
/// that the catalog has, and pulls it.
pub proof fn law_session_pulls_what_a_device_lacks(
    name: &str,
    public_key: &String,
    entries: Vec<ManifestEntry>,
    database: &CatalogStore,
    decided: (Vec<SessionAction>, OnFailure),
    e: int,
    i: int,
)
    requires
        database.wf(),
        call_ensures(
            on_frame,
            (name, public_key, true, Frame::Sync(SyncMessage::Manifest { entries }), database),
            decided,
        ),
        0 <= e < entries@.len(),
        crate::peer::plan::file_sync_plan(database@, seq![entries@[e]@]).pulls.len() > 0,
        0 <= i < database@.files.len(),
        database@.files[i].id == entries@[e].file_id,
        !database@.files[i].deleted,
    ensures
        exists|n: int|
            0 <= n < decided.0@.len() && ((#[trigger] decided.0@[n])@ matches ActionView::CatalogAndPull {
                command: CommandView::CatalogFile { file_id, logical_path, content_hash, .. },
                purpose,
                ..
            } && file_id == entries@[e].file_id && logical_path == database@.files[i].logical_path
                && content_hash == entries@[e].history@[entries@[e].history@.len() - 1].1@
                && purpose.file_id == file_id && purpose.content_hash == content_hash),
{
    let views = crate::peer::messages::entry_views(entries@);
    assert(views[e] == entries@[e]@);
    let entry = views[e];
    assert(entry.history.len() == entries@[e].history@.len());
    crate::seqs::lemma_filter_one(
        entry,
        |entry: crate::store::files::ManifestEntryView|
            crate::peer::plan::wins_content(database@, entry),
    );
    assert(entry.history.len() > 0);
    assert(entry.history[entry.history.len() - 1].1 == entries@[e].history@[entries@[e].history@.len()
        - 1].1@);
    law_wanted_content_is_recorded_and_pulled_once(database@, public_key@, views, e, i);
    let actions = crate::peer::session::frame_actions(
        database@,
        public_key@,
        true,
        FrameView::Sync(SyncView::Manifest { entries: views }),
    ).0;
    assert(actions == action_views(decided.0@));
    let n = choose|n: int|
        0 <= n < actions.len() && ((#[trigger] actions[n]) matches ActionView::CatalogAndPull {
            command: CommandView::CatalogFile { file_id, logical_path, content_hash, .. },
            purpose,
            ..
        } && file_id == entries@[e].file_id && logical_path == database@.files[i].logical_path
            && content_hash == entry.history[entry.history.len() - 1].1 && purpose.file_id
            == file_id && purpose.content_hash == content_hash);
    assert(decided.0@[n]@ == actions[n]);
}

/// A text file whose content is text that fits in a preview, without control characters but line
/// breaks and tabs, previews as its text, in whatever script it is written.
pub proof fn law_text_file_previews_as_its_text(
    kind: FileKind,
    bytes: &Vec<u8>,
    rendering: Option<Preview>,
    preview: Option<Preview>,
)
    requires
        call_ensures(generate, (kind, Some(bytes), rendering), preview),
        kind == FileKind::Text || kind == FileKind::Markdown,
        valid_utf8(bytes@),
        bytes@.len() <= 2048,
        forall|i: int|
            0 <= i < decode_utf8(bytes@).len() ==> {
                let code = (#[trigger] decode_utf8(bytes@)[i]) as u32;
                code == 0x09 || code == 0x0a || code == 0x0d || 0x20 <= code <= 0x7e || 0xa0
                    <= code
            },
    ensures
        preview is Some,
        preview->Some_0@ == PreviewView::Text(decode_utf8(bytes@)),
{
    law_plain_text_is_shown_as_it_is(bytes@);
}

/// As much is read of a file as its preview may show, and as may be decoded of an image: nothing of
/// a file of no special kind.
pub proof fn law_as_much_is_read_as_is_needed(kind: FileKind, needs: Needs)
    requires
        call_ensures(needs_of, (kind,), needs),
    ensures
        kind == FileKind::Text || kind == FileKind::Markdown ==> needs == (Needs::Bytes {
            limit: 2048,
        }),
        kind == FileKind::Image ==> needs == (Needs::Bytes { limit: 33554432 }),
        kind == FileKind::Svg || kind == FileKind::Pdf ==> needs == (Needs::BytesAndRendering {
            limit: 33554432,
        }),
        kind == FileKind::Video ==> needs is SourceRendering,
        kind == FileKind::Other ==> needs is Nothing,
{
}

/// The first bytes of content are its first bytes, all of them if they are few.
pub proof fn law_leading_bytes_are_the_first(bytes: &Vec<u8>, max_len: usize, read: Vec<u8>, i: int)
    requires
        call_ensures(read_leading, (bytes, max_len), read),
    ensures
        read@.len() == if bytes@.len() <= max_len {
            bytes@.len()
        } else {
            max_len as nat
        },
        0 <= i < read@.len() ==> read@[i] == bytes@[i],
{
}

/// A chunk or a preview that this device can give is sent to the peer that asked, and a request that
/// it cannot answer is relayed.
pub proof fn law_request_is_answered_or_relayed(
    answer: Option<ChunkAnswer>,
    generated: Option<Preview>,
    file_id: FileId,
    content_hash: String,
    offset: u64,
    chunk_route: ChunkRoute,
    preview_route: PreviewRoute,
)
    requires
        call_ensures(route_chunk_request, (answer, file_id, content_hash, offset), chunk_route),
        call_ensures(route_preview_request, (generated, file_id, content_hash), preview_route),
    ensures
        answer is Some && answer->Some_0 is Data ==> chunk_route is Send && chunk_route->Send_0@
            == FrameView::Sync(
            SyncView::ChunkData {
                file_id,
                content_hash: content_hash@,
                offset,
                bytes: answer->Some_0->Data_0@,
            },
        ),
        answer is None || answer->Some_0 is Miss ==> chunk_route is Relay,
        generated is Some ==> preview_route is Send && preview_route->Send_0@ == FrameView::Sync(
            SyncView::PreviewData {
                file_id,
                content_hash: content_hash@,
                preview: generated->Some_0@,
            },
        ),
        generated is None ==> preview_route is Relay,
{
}

/// Content that arrived is placed as it was meant to be, and a failed receive asks for nothing. A
/// fetch gives the content that arrived, and else says that there is none.
pub proof fn law_received_content_is_placed(
    purpose: ReceiverPurpose,
    outcome: ReceiveOutcome,
    command: Option<CatalogCommand>,
    fetched: Result<FileBytes, FetchError>,
)
    requires
        call_ensures(on_received, (purpose, outcome), command),
        call_ensures(fetch_result, (Some(outcome),), fetched),
    ensures
        outcome is Complete ==> command is Some && command->Some_0
            == (CatalogCommand::Materialize { content: outcome->Complete_0, purpose }),
        outcome is Failed ==> command is None,
        outcome is Complete ==> fetched is Ok && fetched->Ok_0 == outcome->Complete_0,
        outcome is Failed ==> fetched is Err,
{
}

/// A receive that ends well gives the file it wrote, to be moved, and one that does not gives its
/// error. It ends well exactly if the digest of what arrived is the expected one, and else names
/// both.
pub proof fn law_receive_gives_the_file_it_wrote(
    expected: &String,
    actual: String,
    judged: Result<(), TransferError>,
    path: String,
    outcome: ReceiveOutcome,
)
    requires
        call_ensures(judge_digest, (expected, actual), judged),
        call_ensures(receive_outcome, (judged, path), outcome),
    ensures
        judged is Ok <==> expected@ == actual@,
        judged is Ok ==> outcome == ReceiveOutcome::Complete(FileBytes::FileToMove(path)),
        judged is Err ==> outcome is Failed,
{
}

/// Local bytes are used only if they have the expected hash; the bytes of a change are pulled from
/// the peer that announced it, and from nobody if it was made here; and data in reply to a request
/// for the first chunk, and nothing else, shows that somebody has the content.
pub proof fn law_bytes_come_from_who_has_them(
    read: Option<(FileBytes, String)>,
    expected: &str,
    used: Option<FileBytes>,
    origin: &ChangeOrigin,
    from: Option<String>,
    reply: &Option<ChunkReply>,
    available: bool,
)
    requires
        call_ensures(read_local_if_hash_matches, (read, expected), used),
        call_ensures(pull_from_origin, (origin,), from),
        call_ensures(is_available, (reply,), available),
    ensures
        used is Some <==> read is Some && read->Some_0.1@ == expected@,
        used is Some ==> used->Some_0 == read->Some_0.0,
        from is Some <==> origin@ is Peer,
        from is Some ==> from->Some_0@ == origin@->Peer_public_key,
        available <==> *reply is Some && reply->Some_0 is Data,
{
}

/// One session at a time owns the link to a configured peer: a session takes a link that is free or
/// dead, leaves one that lives to the session that has it, and does not run for a peer that is not
/// configured; only the owner clears the link, and only its own.
pub proof fn law_one_session_owns_a_link(
    slot: OutboundSlot,
    role: SessionRole,
    ours: bool,
    cleared: bool,
)
    requires
        call_ensures(claim_outbound, (slot,), role),
        call_ensures(clear_outbound_if_owned, (role, ours), cleared),
    ensures
        role == SessionRole::Owner <==> slot == OutboundSlot::Free || slot == OutboundSlot::Closed,
        role == SessionRole::InboundOnly <==> slot == OutboundSlot::Live,
        role == SessionRole::Refused <==> slot == OutboundSlot::Missing,
        cleared <==> ours && (slot == OutboundSlot::Free || slot == OutboundSlot::Closed),
{
}

/// A live file is found by its path, and a path that no live file has is found to have none. A file
/// says its path while it is live.
pub proof fn law_live_file_is_found_by_its_path(
    store: &CatalogStore,
    path: &LogicalPath,
    found: Result<FileId, DatabaseError>,
    i: int,
    said: Result<LogicalPath, DatabaseError>,
)
    requires
        store.wf(),
        call_ensures(CatalogStore::file_id_from_logical_path, (store, path), found),
        0 <= i < store@.files.len(),
        call_ensures(CatalogStore::logical_path_for_file_id, (store, store@.files[i].id), said),
    ensures
        found is Ok <==> exists|k: int|
            0 <= k < store@.files.len() && !(#[trigger] store@.files[k]).deleted
                && store@.files[k].logical_path == path@,
        found is Ok ==> exists|k: int|
            0 <= k < store@.files.len() && !(#[trigger] store@.files[k]).deleted
                && store@.files[k].logical_path == path@ && store@.files[k].id == found->Ok_0,
        !store@.files[i].deleted ==> said is Ok && said->Ok_0@ == store@.files[i].logical_path,
        store@.files[i].deleted ==> said is Err,
{
    let p = |row: FileRowView| !row.deleted && row.logical_path == path@;
    let kept = store@.files.filter(p);
    if found is Ok {
        lemma_filter_member(store@.files, p, 0);
        let k = choose|k: int| 0 <= k < store@.files.len() && store@.files[k] == kept[0];
        assert(p(store@.files[k]) && store@.files[k].id == found->Ok_0);
    }
    if exists|k: int|
        0 <= k < store@.files.len() && !(#[trigger] store@.files[k]).deleted
            && store@.files[k].logical_path == path@ {
        let k = choose|k: int|
            0 <= k < store@.files.len() && !(#[trigger] store@.files[k]).deleted
                && store@.files[k].logical_path == path@;
        lemma_filter_keeps(store@.files, p, k);
    }
    crate::store::files::lemma_file_row(store@, i);
}

/// A live tag is found by its name, and a name that no live tag has is found to have none.
pub proof fn law_live_tag_is_found_by_its_name(
    store: &CatalogStore,
    name: &str,
    found: Result<TagId, DatabaseError>,
)
    requires
        call_ensures(CatalogStore::tag_id_from_name, (store, name), found),
    ensures
        found is Ok <==> exists|k: int|
            0 <= k < store@.tags.len() && !(#[trigger] store@.tags[k]).deleted
                && store@.tags[k].name == name@,
        found is Ok ==> exists|k: int|
            0 <= k < store@.tags.len() && !(#[trigger] store@.tags[k]).deleted
                && store@.tags[k].name == name@ && store@.tags[k].id == found->Ok_0,
{
    let p = |row: TagRowView| !row.deleted && row.name == name@;
    let kept = store@.tags.filter(p);
    if found is Ok {
        lemma_filter_member(store@.tags, p, 0);
        let k = choose|k: int| 0 <= k < store@.tags.len() && store@.tags[k] == kept[0];
        assert(p(store@.tags[k]) && store@.tags[k].id == found->Ok_0);
    }
    if exists|k: int|
        0 <= k < store@.tags.len() && !(#[trigger] store@.tags[k]).deleted && store@.tags[k].name
            == name@ {
        let k = choose|k: int|
            0 <= k < store@.tags.len() && !(#[trigger] store@.tags[k]).deleted
                && store@.tags[k].name == name@;
        lemma_filter_keeps(store@.tags, p, k);
    }
}

/// The file at a physical path is found by it, the files at or under a path of plain characters are
/// found by it in either case, and a path is in use by others exactly if another file has it.
pub proof fn law_indexed_file_is_found_by_its_place(
    index: &DirectoryIndex,
    path: &PhysicalPath,
    found: Result<FileId, DatabaseError>,
    under: Result<Vec<SyncDirectoryFile>, DatabaseError>,
    file_id: FileId,
    in_use: Result<bool, DatabaseError>,
    i: int,
)
    requires
        call_ensures(DirectoryIndex::get_file_id, (index, path), found),
        call_ensures(DirectoryIndex::get_all_files_at, (index, path), under),
        call_ensures(DirectoryIndex::physical_path_in_use_by_other, (index, path, file_id), in_use),
        forall|k: int| 0 <= k < path@.len() ==> #[trigger] path@[k] != '%' && path@[k] != '_',
        0 <= i < index@.len(),
    ensures
        found is Ok <==> exists|k: int|
            0 <= k < index@.len() && (#[trigger] index@[k]).physical_path == path@,
        found is Ok ==> exists|k: int|
            0 <= k < index@.len() && (#[trigger] index@[k]).physical_path == path@
                && index@[k].file_id == found->Ok_0,
        under is Ok,
        (exists|k: int|
            0 <= k < under->Ok_0@.len() && (#[trigger] under->Ok_0@[k])@ == index@[i]) <==> (
        path@.len() <= index@[i].physical_path.len() && forall|k: int|
            0 <= k < path@.len() ==> ascii_lower(#[trigger] path@[k])
                == ascii_lower(index@[i].physical_path[k])),
        in_use is Ok,
        in_use->Ok_0 <==> exists|k: int|
            0 <= k < index@.len() && (#[trigger] index@[k]).physical_path == path@
                && index@[k].file_id != file_id,
{
    let p = |row: DirectoryFileView| row.physical_path == path@;
    if found is Ok {
        lemma_filter_member(index@, p, 0);
        let k = choose|k: int| 0 <= k < index@.len() && index@[k] == index@.filter(p)[0];
        assert(index@[k].physical_path == path@);
    }
    if exists|k: int| 0 <= k < index@.len() && (#[trigger] index@[k]).physical_path == path@ {
        let k = choose|k: int|
            0 <= k < index@.len() && (#[trigger] index@[k]).physical_path == path@;
        lemma_filter_keeps(index@, p, k);
    }
    let q = |row: DirectoryFileView|
        crate::text::like(path@.push('%'), row.physical_path);
    let kept = index@.filter(q);
    let files = under->Ok_0@;
    law_open_pattern_matches_what_begins_with_it(path@, index@[i].physical_path);
    assert(files.map_values(|file: SyncDirectoryFile| file@) == kept);
    assert(files.len() == kept.len());
    assert forall|k: int| 0 <= k < files.len() implies (#[trigger] files[k])@ == kept[k] by {
        assert(files.map_values(|file: SyncDirectoryFile| file@)[k] == files[k]@);
    }
    if exists|k: int| 0 <= k < files.len() && (#[trigger] files[k])@ == index@[i] {
        let k = choose|k: int| 0 <= k < files.len() && (#[trigger] files[k])@ == index@[i];
        lemma_filter_member(index@, q, k);
    }
    if q(index@[i]) {
        lemma_filter_keeps(index@, q, i);
        let k = choose|k: int| 0 <= k < kept.len() && kept[k] == index@[i];
        assert(files[k]@ == index@[i]);
    }
}

/// What a peer has purged and this device has not is to be purged, and nothing else.
pub proof fn law_planning_purges_what_is_not_purged(
    name: &str,
    entries: Vec<FileId>,
    database: &CatalogStore,
    to_purge: Vec<FileId>,
    file_id: FileId,
)
    requires
        call_ensures(plan_purge_sync, (name, entries, database), to_purge),
    ensures
        to_purge@.contains(file_id) <==> entries@.contains(file_id) && !database@.purged.contains(
            file_id,
        ),
{
    let p = |file_id: FileId| !database@.is_purged(file_id);
    if to_purge@.contains(file_id) {
        let k = to_purge@.index_of(file_id);
        lemma_filter_member(entries@, p, k);
        let i = choose|i: int| 0 <= i < entries@.len() && entries@[i] == to_purge@[k];
        assert(entries@.contains(file_id));
    }
    if entries@.contains(file_id) && !database@.purged.contains(file_id) {
        let i = entries@.index_of(file_id);
        lemma_filter_keeps(entries@, p, i);
        let k = choose|k: int| 0 <= k < to_purge@.len() && to_purge@[k] == entries@[i];
        assert(to_purge@.contains(file_id));
    }
}

/// What is asked of one file, tag or relationship is answered by its row, live or not, and nothing
/// is said of one without a row.
pub proof fn law_rows_answer_for_themselves(
    store: &CatalogStore,
    i: int,
    t: int,
    e: int,
    state: Result<Option<DeletionState>, DatabaseError>,
    moved_at: Result<Option<i64>, DatabaseError>,
    tag_at: Result<Option<i64>, DatabaseError>,
    definition: Result<Option<(String, TagStyle, i64)>, DatabaseError>,
    target_id: &str,
    related_at: Result<Option<i64>, DatabaseError>,
)
    requires
        store.wf(),
        0 <= i < store@.files.len(),
        0 <= t < store@.tags.len(),
        0 <= e < store@.entries.len(),
        target_id@ == store@.entries[e].target_id,
        call_ensures(CatalogStore::file_deletion_state, (store, store@.files[i].id), state),
        call_ensures(CatalogStore::logical_path_modified_at, (store, store@.files[i].id), moved_at),
        call_ensures(CatalogStore::tag_modified_at, (store, store@.tags[t].id), tag_at),
        call_ensures(CatalogStore::tag_definition, (store, store@.tags[t].id), definition),
        call_ensures(
            CatalogStore::relationship_modified_at,
            (store, store@.entries[e].tag_id, target_id, store@.entries[e].kind),
            related_at,
        ),
    ensures
        state is Ok && state->Ok_0 is Some,
        state->Ok_0->Some_0.deleted == store@.files[i].deleted,
        state->Ok_0->Some_0.deleted_at == store@.files[i].deleted_at,
        state->Ok_0->Some_0.restored_at == store@.files[i].restored_at,
        moved_at == Ok::<Option<i64>, DatabaseError>(
            Some(store@.files[i].logical_path_modified_at),
        ),
        tag_at == Ok::<Option<i64>, DatabaseError>(Some(store@.tags[t].modified_at)),
        definition is Ok && definition->Ok_0 is Some,
        definition->Ok_0->Some_0.0@ == store@.tags[t].name,
        definition->Ok_0->Some_0.1 == store@.tags[t].style,
        definition->Ok_0->Some_0.2 == store@.tags[t].modified_at,
        related_at == Ok::<Option<i64>, DatabaseError>(Some(store@.entries[e].modified_at)),
{
    crate::store::files::lemma_file_row(store@, i);
    crate::store::tags::lemma_tag_row(store@, t);
    let key = EntryView {
        tag_id: store@.entries[e].tag_id,
        target_id: target_id@,
        kind: store@.entries[e].kind,
        modified_at: 0,
        deleted: false,
    };
    crate::store::entries::lemma_relationship_row(store@, key, e);
}

/// A file or a tag exists exactly if it has a row, and a file is purged exactly if it was purged.
pub proof fn law_what_has_a_row_exists(
    store: &CatalogStore,
    file_id: FileId,
    tag_id: TagId,
    file: Result<bool, DatabaseError>,
    tag: Result<bool, DatabaseError>,
    purged: Result<bool, DatabaseError>,
    all_purged: Result<Vec<FileId>, DatabaseError>,
)
    requires
        call_ensures(CatalogStore::file_exists, (store, file_id), file),
        call_ensures(CatalogStore::tag_exists, (store, tag_id), tag),
        call_ensures(CatalogStore::is_purged, (store, file_id), purged),
        call_ensures(CatalogStore::purged_ids, (store,), all_purged),
    ensures
        file is Ok && tag is Ok && purged is Ok && all_purged is Ok,
        file->Ok_0 <==> exists|i: int|
            0 <= i < store@.files.len() && (#[trigger] store@.files[i]).id == file_id,
        tag->Ok_0 <==> exists|i: int|
            0 <= i < store@.tags.len() && (#[trigger] store@.tags[i]).id == tag_id,
        purged->Ok_0 <==> store@.purged.contains(file_id),
        all_purged->Ok_0@ == store@.purged,
{
}

/// A tag is shown as its row has it, and one that is deleted only where those are asked for.
pub proof fn law_tag_is_shown_as_its_row_has_it(
    store: &CatalogStore,
    t: int,
    rule: DeletedRule,
    shown: Result<Tag, DatabaseError>,
)
    requires
        store.wf(),
        0 <= t < store@.tags.len(),
        call_ensures(CatalogStore::tag_from_id, (store, store@.tags[t].id, rule), shown),
    ensures
        shown is Ok <==> rule is Include || !store@.tags[t].deleted,
        shown is Ok ==> shown->Ok_0.id == store@.tags[t].id && shown->Ok_0.name@
            == store@.tags[t].name && shown->Ok_0.deleted == store@.tags[t].deleted
            && shown->Ok_0.style == store@.tags[t].style,
{
    crate::store::tags::lemma_tag_row(store@, t);
}

/// A file is shown with its path, what it held first and what it holds last, and one that is deleted
/// only where those are asked for; one without a version is not shown at all.
pub proof fn law_file_is_shown_with_its_latest_version(
    store: &CatalogStore,
    i: int,
    rule: DeletedRule,
    first: int,
    last: int,
    shown: Result<FileInfo, DatabaseError>,
)
    requires
        store.wf(),
        0 <= i < store@.files.len(),
        call_ensures(CatalogStore::file_info_from_id, (store, store@.files[i].id, rule), shown),
        0 <= first <= last < store@.versions.len(),
        store@.versions[first].file_id == store@.files[i].id,
        store@.versions[last].file_id == store@.files[i].id,
        forall|j: int|
            0 <= j < first || last < j < store@.versions.len() ==> (
            #[trigger] store@.versions[j]).file_id != store@.files[i].id,
    ensures
        shown is Ok <==> rule is Include || !store@.files[i].deleted,
        shown is Ok ==> shown->Ok_0@.file_id == store@.files[i].id && shown->Ok_0@.logical_path
            == store@.files[i].logical_path && shown->Ok_0@.deleted == store@.files[i].deleted
            && shown->Ok_0@.content_hash == store@.versions[last].content_hash
            && shown->Ok_0@.version_number == store@.versions[last].version_number
            && shown->Ok_0@.size == store@.versions[last].size as u64
            && shown->Ok_0@.first_recorded_at == store@.versions[first].observed_at
            && shown->Ok_0@.latest_change_at == store@.versions[last].observed_at,
{
    crate::store::files::lemma_file_row(store@, i);
    lemma_filter_keeps(
        store@.versions,
        |version: FileVersionView| version.file_id == store@.files[i].id,
        last,
    );
    crate::store::row_laws::law_listing_shows_the_latest_version(
        store@,
        store@.files[i],
        shown->Ok_0.short_id_length as nat,
        first,
        last,
    );
}

/// A window for the next bytes is as long as a hop may take, opens anew whenever bytes are written,
/// and is else left to run out.
pub proof fn law_liveness_window_opens_anew_with_progress(
    now: u64,
    opened: LivenessWindow,
    step: &ReceiveStep,
    later: u64,
    after: LivenessWindow,
    remaining: u64,
)
    requires
        call_ensures(LivenessWindow::open, (now,), opened),
        call_ensures(LivenessWindow::after_step, (&opened, step, later), after),
        call_ensures(LivenessWindow::remaining, (&after, later), remaining),
        now <= later <= u64::MAX - 8000,
    ensures
        step.writes@.len() > 0 ==> remaining == 8000,
        step.writes@.len() == 0 && later - now < 8000 ==> remaining == 8000 - (later - now),
        step.writes@.len() == 0 && later - now >= 8000 ==> remaining == 0,
{
}

/// A rendering is a preview if the renderer succeeded and gave an image, with that image's size.
pub proof fn law_rendering_is_a_preview_if_it_is_an_image(
    success: bool,
    output: Vec<u8>,
    preview: Option<Preview>,
    size: usize,
    rendered: bool,
)
    requires
        call_ensures(preview_of_rendering, (success, output), preview),
        call_ensures(may_render, (size,), rendered),
    ensures
        preview is Some <==> success && output@.len() > 0 && image_size(output@) is Some,
        preview is Some ==> preview == Some(
            (Preview::Image {
                bytes: output,
                width: image_size(output@)->Some_0.0,
                height: image_size(output@)->Some_0.1,
            }),
        ),
        rendered <==> size <= 33554432,
{
}

/// Thirty-two bytes, and no other number of them, are an identity.
pub proof fn law_identity_has_thirty_two_bytes(
    bytes: &Vec<u8>,
    identity: Result<Identity, IdentityError>,
)
    requires
        call_ensures(Identity::from_bytes, (bytes,), identity),
    ensures
        identity is Ok <==> bytes@.len() == 32,
        identity is Ok ==> identity->Ok_0@ == bytes@,
{
}

/// A receive that starts is meant for the peer that was asked, and for the file and content asked
/// for.
pub proof fn law_started_receive_is_for_what_was_asked(
    public_key: &String,
    file_id: FileId,
    content_hash: String,
    expected_size: u64,
    placement: MaterializePlacement,
    action: SessionAction,
)
    requires
        call_ensures(
            on_start_receive,
            (public_key, file_id, content_hash, expected_size, placement),
            action,
        ),
    ensures
        action@ is StartPull,
        action@->StartPull_expected_size == expected_size,
        action@->StartPull_purpose.file_id == file_id,
        action@->StartPull_purpose.content_hash == content_hash@,
        action@->StartPull_purpose.origin == (OriginView::Peer { public_key: public_key@ }),
        action@->StartPull_purpose.placement == placement@,
{
}

/// What a file held last, and what is kept as its preview, are told as their rows have them.
pub proof fn law_last_version_and_preview_are_told(
    store: &CatalogStore,
    n: int,
    k: int,
    content_hash: &str,
    latest: Result<Option<FileVersion>, DatabaseError>,
    preview: Result<Option<Preview>, DatabaseError>,
)
    requires
        store.wf(),
        0 <= n < store@.versions.len(),
        forall|j: int|
            n < j < store@.versions.len() ==> (#[trigger] store@.versions[j]).file_id
                != store@.versions[n].file_id,
        call_ensures(CatalogStore::latest_version, (store, store@.versions[n].file_id), latest),
        0 <= k < store@.previews.len(),
        content_hash@ == store@.previews[k].content_hash,
        call_ensures(
            CatalogStore::preview_for,
            (store, store@.previews[k].file_id, content_hash),
            preview,
        ),
    ensures
        latest is Ok && latest->Ok_0 is Some && latest->Ok_0->Some_0@ == store@.versions[n],
        preview is Ok && preview->Ok_0 is Some,
        store@.previews[k].kind != 0 && store@.previews[k].kind != 1
            ==> preview->Ok_0->Some_0@ is Absent,
        store@.previews[k].kind == 1 && (store@.previews[k].data is None || !valid_utf8(
            store@.previews[k].data->Some_0,
        )) ==> preview->Ok_0->Some_0@ == PreviewView::Text(Seq::empty()),
        store@.previews[k].kind == 1 && store@.previews[k].data is Some && valid_utf8(
            store@.previews[k].data->Some_0,
        ) ==> preview->Ok_0->Some_0@ == PreviewView::Text(
            decode_utf8(store@.previews[k].data->Some_0),
        ),
        store@.previews[k].kind == 0 && store@.previews[k].data is Some
            && store@.previews[k].width is Some && store@.previews[k].height is Some
            ==> preview->Ok_0->Some_0@ == (PreviewView::Image {
            bytes: store@.previews[k].data->Some_0,
            width: store@.previews[k].width->Some_0 as u32,
            height: store@.previews[k].height->Some_0 as u32,
        }),
{
    crate::store::row_laws::law_latest_version_was_recorded_last(
        store@,
        store@.versions[n].file_id,
        n,
    );
    crate::store::row_laws::law_cached_preview_is_found(store@, k);
}

/// A file is found by the first digits of the hash of what it holds, in either case, and a deleted
/// one only where those are asked for.
pub proof fn law_file_is_found_by_its_hash(
    store: &CatalogStore,
    text: &str,
    rule: DeletedRule,
    found: Result<Vec<FileId>, DatabaseError>,
    i: int,
    n: int,
)
    requires
        store.wf(),
        call_ensures(
            CatalogStore::file_ids_matching_content_hash_prefix,
            (store, text, rule),
            found,
        ),
        0 <= i < store@.files.len(),
        0 <= n < store@.versions.len(),
        store@.versions[n].file_id == store@.files[i].id,
        forall|j: int|
            n < j < store@.versions.len() ==> (#[trigger] store@.versions[j]).file_id
                != store@.files[i].id,
        text@.len() > 0,
        forall|k: int| 0 <= k < text@.len() ==> is_hex_digit(#[trigger] text@[k]),
    ensures
        found is Ok,
        found->Ok_0@.contains(store@.files[i].id) <==> (rule is Include || !store@.files[i].deleted)
            && text@.len() <= store@.versions[n].content_hash.len() && forall|k: int|
            0 <= k < text@.len() ==> ascii_lower(#[trigger] text@[k]) == ascii_lower(
                store@.versions[n].content_hash[k],
            ),
{
    let file_id = store@.files[i].id;
    let p = |row: FileRowView|
        crate::store::types::rule_admits(rule, row.deleted) && store@.hash_prefix_matches(
            row.id,
            text@,
        );
    let kept = store@.files.filter(p);
    let ids = kept.map_values(|row: FileRowView| row.id);
    assert(found->Ok_0@ == ids);
    crate::store::row_laws::law_latest_version_was_recorded_last(store@, file_id, n);
    law_content_is_found_by_the_start_of_its_hash(store@, file_id, text@);
    if ids.contains(file_id) {
        let k = ids.index_of(file_id);
        lemma_filter_member(store@.files, p, k);
        let m = choose|m: int| 0 <= m < store@.files.len() && store@.files[m] == kept[k];
        assert(m == i);
    }
    if p(store@.files[i]) {
        lemma_filter_keeps(store@.files, p, i);
        let k = choose|k: int| 0 <= k < kept.len() && kept[k] == store@.files[i];
        assert(ids[k] == file_id);
    }
}

/// A tag is found by an expression that its name matches, and by what its id starts with, and a
/// deleted one only where those are asked for.
pub proof fn law_tag_is_found_by_expression_and_id(
    store: &CatalogStore,
    pattern: &TextPattern,
    text: &str,
    rule: DeletedRule,
    named: Result<Vec<TagId>, DatabaseError>,
    numbered: Result<Vec<TagId>, DatabaseError>,
    t: int,
)
    requires
        store.wf(),
        *pattern is Regex,
        call_ensures(CatalogStore::tag_ids_matching_pattern, (store, pattern, rule), named),
        call_ensures(CatalogStore::tag_ids_matching_id_prefix, (store, text, rule), numbered),
        0 <= t < store@.tags.len(),
    ensures
        named is Ok && numbered is Ok,
        named->Ok_0@.contains(store@.tags[t].id) <==> (rule is Include || !store@.tags[t].deleted)
            && crate::store::pattern::pattern_matches(*pattern, store@.tags[t].name),
        numbered->Ok_0@.contains(store@.tags[t].id) <==> (rule is Include
            || !store@.tags[t].deleted) && normalized_prefix(text@) is Some && normalized_prefix(
            text@,
        )->Some_0.is_prefix_of(id_text(store@.tags[t].id.value)),
{
    let tag_id = store@.tags[t].id;
    let p = |row: TagRowView| crate::store::types::rule_admits(rule, row.deleted);
    let q = |row: TagRowView| crate::store::pattern::pattern_matches(*pattern, row.name);
    let listed = store@.tags.filter(p);
    let kept = listed.filter(q);
    let ids = kept.map_values(|row: TagRowView| row.id);
    assert(named->Ok_0@ == ids);
    if ids.contains(tag_id) {
        let k = ids.index_of(tag_id);
        lemma_filter_member(listed, q, k);
        let l = choose|l: int| 0 <= l < listed.len() && listed[l] == kept[k];
        lemma_filter_member(store@.tags, p, l);
        let m = choose|m: int| 0 <= m < store@.tags.len() && store@.tags[m] == listed[l];
        assert(m == t);
    }
    if p(store@.tags[t]) && q(store@.tags[t]) {
        lemma_filter_keeps(store@.tags, p, t);
        let l = choose|l: int| 0 <= l < listed.len() && listed[l] == store@.tags[t];
        lemma_filter_keeps(listed, q, l);
        let k = choose|k: int| 0 <= k < kept.len() && kept[k] == listed[l];
        assert(ids[k] == tag_id);
    }
    let s = |row: TagRowView|
        crate::store::types::rule_admits(rule, row.deleted) && crate::store::tags::id_prefix_matches(
            row.id.value,
            text@,
        );
    let starts = store@.tags.filter(s);
    let others = starts.map_values(|row: TagRowView| row.id);
    assert(numbered->Ok_0@ == others);
    if others.contains(tag_id) {
        let k = others.index_of(tag_id);
        lemma_filter_member(store@.tags, s, k);
        let m = choose|m: int| 0 <= m < store@.tags.len() && store@.tags[m] == starts[k];
        assert(m == t);
    }
    if s(store@.tags[t]) {
        lemma_filter_keeps(store@.tags, s, t);
        let k = choose|k: int| 0 <= k < starts.len() && starts[k] == store@.tags[t];
        assert(others[k] == tag_id);
    }
}

/// A time is recorded in milliseconds as the clock reads, and as 0 before the epoch; an image is
/// turned as it says, and else not at all.
pub proof fn law_readings_are_taken_as_they_are(
    reading: Option<u128>,
    recorded: i64,
    orientation: Option<u8>,
    turn: u8,
)
    requires
        call_ensures(stamp_of, (reading,), recorded),
        call_ensures(orientation_to_apply, (orientation,), turn),
    ensures
        reading is None ==> recorded == 0,
        reading is Some && reading->Some_0 <= i64::MAX ==> recorded == reading->Some_0,
        orientation is None ==> turn == 1,
        orientation is Some ==> turn == orientation->Some_0,
{
}

/// The size of the catalog is the number of the files that it lists and the sum of what they hold
/// last, and so is the size of some files, of those among them.
pub proof fn law_sizes_are_counted_and_summed(
    store: &CatalogStore,
    rule: DeletedRule,
    ids: &[FileId],
    total: Result<(u64, u64), DatabaseError>,
    some: Result<(u64, u64), DatabaseError>,
)
    requires
        call_ensures(CatalogStore::total_catalog_size, (store, rule), total),
        call_ensures(CatalogStore::size_of_files, (store, ids, rule), some),
    ensures
        ({
            let rows = store@.listed(rule);
            let sizes = rows.map_values(
                |row: FileRowView| store@.latest_version(row.id)->Some_0.size,
            );
            let chosen = rows.filter(|row: FileRowView| ids@.contains(row.id));
            &&& total is Ok ==> total->Ok_0.1 == rows.len() && total->Ok_0.0 == sum_of(
                sizes,
            ) as i64 as u64
            &&& some is Ok ==> some->Ok_0.1 == chosen.len()
            &&& (forall|k: int| 0 <= k < rows.len() ==> ids@.contains((#[trigger] rows[k]).id))
                && total is Ok ==> some == total
        }),
{
    let rows = store@.listed(rule);
    let p = |row: FileRowView| ids@.contains(row.id);
    let sizes = rows.map_values(|row: FileRowView| store@.latest_version(row.id)->Some_0.size);
    assert forall|k: int| 0 <= k < rows.len() implies store@.latest_sizes(rows)[k] == sizes[k] by {
        lemma_filter_member(store@.files, |row: FileRowView| store@.is_listed(row, rule), k);
    }
    assert(store@.latest_sizes(rows) =~= sizes);
    if forall|k: int| 0 <= k < rows.len() ==> ids@.contains((#[trigger] rows[k]).id) {
        lemma_filter_all(rows, p);
    }
}

} // verus!
