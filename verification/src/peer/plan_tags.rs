//! Reconciling a peer's tag manifest, its definitions and its relationships, with the local
//! catalog.

use vstd::prelude::*;

use crate::ids::{parsed_id, FileId, TagId};
use crate::peer::batch::{batch_views, batched, clamped, split_in_batches};
use crate::peer::messages::{
    relationship_views, Change, ChangeView, Frame, FrameView, SyncMessage, SyncView,
};
use crate::seqs::{lemma_filter_concat, lemma_filter_map_take, lemma_filter_none};
use crate::state::{EntryView, RelationshipKind, RelationshipManifestEntry, TagManifestEntry};
use crate::store::entries::lemma_relationship_row;
use crate::store::tags::lemma_tag_row;
use crate::store::types::{same_relationship, CatalogView, TagRowView};
use crate::store::CatalogStore;

verus! {

/// One step of reconciling tags.
#[derive(Debug)]
pub enum TagSyncStep {
    /// Apply a change that the peer's manifest carries whole.
    Apply(Change),
    /// Ask the peer for a definition.
    Ask(Frame),
}

/// The model of a step.
pub enum TagSyncStepView {
    Apply(ChangeView),
    Ask(FrameView),
}

impl View for TagSyncStep {
    type V = TagSyncStepView;

    open spec fn view(&self) -> TagSyncStepView {
        match self {
            TagSyncStep::Apply(change) => TagSyncStepView::Apply(change@),
            TagSyncStep::Ask(frame) => TagSyncStepView::Ask(frame@),
        }
    }
}

/// The models of some steps.
pub open spec fn step_views(steps: Seq<TagSyncStep>) -> Seq<TagSyncStepView> {
    steps.map_values(|step: TagSyncStep| step@)
}

/// What a tag's row is announced as.
pub open spec fn definition_entry(row: TagRowView) -> TagManifestEntry {
    TagManifestEntry { tag_id: row.id, modified_at: row.modified_at, deleted: row.deleted }
}

/// The announced definition is unknown here, or newer than the local one.
pub open spec fn definition_wins(catalog: CatalogView, definition: TagManifestEntry) -> bool {
    !catalog.has_tag(definition.tag_id) || definition.modified_at > catalog.tag(
        definition.tag_id,
    ).modified_at
}

/// What to do about an announced definition that wins: a tombstone is applied, a live one is
/// asked for.
pub open spec fn definition_step(definition: TagManifestEntry) -> TagSyncStepView {
    if definition.deleted {
        TagSyncStepView::Apply(
            ChangeView::TagRemoved {
                tag_id: definition.tag_id,
                modified_at: definition.modified_at,
            },
        )
    } else {
        TagSyncStepView::Ask(
            FrameView::Sync(SyncView::TagRequest { tag_id: definition.tag_id }),
        )
    }
}

/// The announced relationship is unknown here or newer than the local one, and its target is
/// an id.
pub open spec fn relationship_wins(catalog: CatalogView, entry: EntryView) -> bool {
    (!catalog.has_relationship(entry) || entry.modified_at > catalog.relationship(
        entry,
    ).modified_at) && parsed_id(entry.target_id) is Some
}

/// The change that a relationship stands for.
pub open spec fn relationship_change(entry: EntryView) -> ChangeView
    recommends
        parsed_id(entry.target_id) is Some,
{
    let target = parsed_id(entry.target_id)->Some_0;
    match (entry.kind, entry.deleted) {
        (RelationshipKind::File, false) => ChangeView::FileTagged {
            file_id: FileId { value: target },
            tag_id: entry.tag_id,
            metadata: None,
            modified_at: entry.modified_at,
        },
        (RelationshipKind::File, true) => ChangeView::FileUntagged {
            file_id: FileId { value: target },
            tag_id: entry.tag_id,
            modified_at: entry.modified_at,
        },
        (RelationshipKind::Tag, false) => ChangeView::TagTagged {
            taggee_id: TagId { value: target },
            tag_id: entry.tag_id,
            metadata: None,
            modified_at: entry.modified_at,
        },
        (RelationshipKind::Tag, true) => ChangeView::TagUntagged {
            taggee_id: TagId { value: target },
            tag_id: entry.tag_id,
            modified_at: entry.modified_at,
        },
    }
}

/// The steps for some announced definitions.
pub open spec fn definition_steps(
    catalog: CatalogView,
    definitions: Seq<TagManifestEntry>,
) -> Seq<TagSyncStepView> {
    definitions.filter(
        |definition: TagManifestEntry| definition_wins(catalog, definition),
    ).map_values(|definition: TagManifestEntry| definition_step(definition))
}

/// The steps for some announced relationships.
pub open spec fn relationship_steps(
    catalog: CatalogView,
    relationships: Seq<EntryView>,
) -> Seq<TagSyncStepView> {
    relationships.filter(|entry: EntryView| relationship_wins(catalog, entry)).map_values(
        |entry: EntryView| TagSyncStepView::Apply(relationship_change(entry)),
    )
}

/// The steps for a tag manifest: definitions first.
pub open spec fn tag_sync_plan(
    catalog: CatalogView,
    definitions: Seq<TagManifestEntry>,
    relationships: Seq<EntryView>,
) -> Seq<TagSyncStepView> {
    definition_steps(catalog, definitions) + relationship_steps(catalog, relationships)
}

/// What this device announces of its tags: every definition, and every relationship with its
/// tombstone state.
pub fn build_local_tag_manifest(database: &CatalogStore) -> (r: Result<
    (Vec<TagManifestEntry>, Vec<RelationshipManifestEntry>),
    String,
>)
    ensures
        r matches Ok((definitions, relationships)) && definitions@ == database@.tags.map_values(
            |row: TagRowView| definition_entry(row),
        ) && relationship_views(relationships@) == database@.entries,
{
    let definitions = match database.tag_manifest_entries() {
        Ok(definitions) => definitions,
        Err(_) => return Err("tag_manifest_entries".to_owned()),
    };
    assert(definitions@ =~= database@.tags.map_values(|row: TagRowView| definition_entry(row)));
    let relationships = match database.relationship_manifest_entries() {
        Ok(relationships) => relationships,
        Err(_) => return Err("relationship_manifest_entries".to_owned()),
    };
    assert(relationship_views(relationships@) =~= database@.entries);
    Ok((definitions, relationships))
}

/// The frames of a tag manifest: the definitions in batches, then the relationships in batches.
pub open spec fn tag_frames(
    definitions: Seq<TagManifestEntry>,
    relationships: Seq<RelationshipManifestEntry>,
    size: nat,
) -> Seq<(Seq<TagManifestEntry>, Seq<RelationshipManifestEntry>)> {
    batched(definitions, size).map_values(
        |batch: Seq<TagManifestEntry>| (batch, Seq::<RelationshipManifestEntry>::empty()),
    ) + batched(relationships, size).map_values(
        |batch: Seq<RelationshipManifestEntry>| (Seq::<TagManifestEntry>::empty(), batch),
    )
}

/// The models of the frames of a tag manifest.
pub open spec fn tag_frame_views(
    frames: Seq<(Vec<TagManifestEntry>, Vec<RelationshipManifestEntry>)>,
) -> Seq<(Seq<TagManifestEntry>, Seq<RelationshipManifestEntry>)> {
    frames.map_values(
        |frame: (Vec<TagManifestEntry>, Vec<RelationshipManifestEntry>)| (frame.0@, frame.1@),
    )
}

/// Splits a tag manifest into frames of at most `batch_size` definitions or relationships.
pub fn batch_tag_manifest(
    definitions: Vec<TagManifestEntry>,
    relationships: Vec<RelationshipManifestEntry>,
    batch_size: usize,
) -> (r: Vec<(Vec<TagManifestEntry>, Vec<RelationshipManifestEntry>)>)
    ensures
        tag_frame_views(r@) == tag_frames(definitions@, relationships@, clamped(batch_size)),
{
    let ghost first = batched(definitions@, clamped(batch_size));
    let ghost second = batched(relationships@, clamped(batch_size));
    let mut frames: Vec<(Vec<TagManifestEntry>, Vec<RelationshipManifestEntry>)> = Vec::new();
    let definition_batches = split_in_batches(definitions, batch_size);
    let ghost all = definition_batches@;
    for batch in it: definition_batches.into_iter()
        invariant
            it.seq() == all,
            batch_views(all) == first,
            frames@.len() == it.index(),
            forall|k: int|
                0 <= k < frames@.len() ==> (#[trigger] tag_frame_views(frames@)[k]) == (
                    first[k],
                    Seq::<RelationshipManifestEntry>::empty(),
                ),
    {
        assert(batch@ == batch_views(all)[it.index()]);
        let ghost before = tag_frame_views(frames@);
        let none: Vec<RelationshipManifestEntry> = Vec::new();
        assert(none@ =~= Seq::empty());
        frames.push((batch, none));
        assert(tag_frame_views(frames@) =~= before.push(
            (first[it.index()], Seq::<RelationshipManifestEntry>::empty()),
        ));
    }
    let ghost n = first.len();
    let relationship_batches = split_in_batches(relationships, batch_size);
    let ghost all = relationship_batches@;
    for batch in it: relationship_batches.into_iter()
        invariant
            it.seq() == all,
            batch_views(all) == second,
            n == first.len(),
            frames@.len() == n + it.index(),
            forall|k: int|
                0 <= k < n ==> (#[trigger] tag_frame_views(frames@)[k]) == (
                    first[k],
                    Seq::<RelationshipManifestEntry>::empty(),
                ),
            forall|k: int|
                n <= k < frames@.len() ==> (#[trigger] tag_frame_views(frames@)[k]) == (
                    Seq::<TagManifestEntry>::empty(),
                    second[k - n],
                ),
    {
        assert(batch@ == batch_views(all)[it.index()]);
        let ghost before = tag_frame_views(frames@);
        let none: Vec<TagManifestEntry> = Vec::new();
        assert(none@ =~= Seq::empty());
        frames.push((none, batch));
        assert(tag_frame_views(frames@) =~= before.push(
            (Seq::<TagManifestEntry>::empty(), second[it.index()]),
        ));
    }
    assert(tag_frame_views(frames@) =~= tag_frames(
        definitions@,
        relationships@,
        clamped(batch_size),
    ));
    frames
}

/// The change that a relationship stands for; `None` if its target is no id.
pub fn relationship_to_change(entry: &RelationshipManifestEntry) -> (r: Option<Change>)
    ensures
        match r {
            Some(change) => parsed_id(entry@.target_id) is Some && change@ == relationship_change(
                entry@,
            ),
            None => parsed_id(entry@.target_id) is None,
        },
{
    match entry.kind {
        RelationshipKind::File => {
            let file_id = match FileId::from_string(entry.target_id.as_str()) {
                Some(file_id) => file_id,
                None => return None,
            };
            if entry.deleted {
                Some(
                    Change::FileUntagged {
                        file_id,
                        tag_id: entry.tag_id,
                        modified_at: entry.modified_at,
                    },
                )
            } else {
                Some(
                    Change::FileTagged {
                        file_id,
                        tag_id: entry.tag_id,
                        metadata: None,
                        modified_at: entry.modified_at,
                    },
                )
            }
        },
        RelationshipKind::Tag => {
            let taggee_id = match TagId::from_string(entry.target_id.as_str()) {
                Some(taggee_id) => taggee_id,
                None => return None,
            };
            if entry.deleted {
                Some(
                    Change::TagUntagged {
                        taggee_id,
                        tag_id: entry.tag_id,
                        modified_at: entry.modified_at,
                    },
                )
            } else {
                Some(
                    Change::TagTagged {
                        taggee_id,
                        tag_id: entry.tag_id,
                        metadata: None,
                        modified_at: entry.modified_at,
                    },
                )
            }
        },
    }
}

/// Whether an announced definition is unknown here or newer.
fn wants_definition(database: &CatalogStore, definition: &TagManifestEntry) -> (r: bool)
    requires
        database.wf(),
    ensures
        r == definition_wins(database@, *definition),
{
    match database.tag_modified_at(definition.tag_id) {
        Ok(Some(ours)) => definition.modified_at > ours,
        Ok(None) => true,
        Err(_) => false,
    }
}

/// Two keys of one relationship find the same row.
proof fn lemma_same_row(catalog: CatalogView, a: EntryView, b: EntryView)
    requires
        catalog.wf(),
        same_relationship(a, b),
    ensures
        catalog.has_relationship(a) == catalog.has_relationship(b),
        catalog.has_relationship(a) ==> catalog.relationship(a) == catalog.relationship(b),
{
    if catalog.has_relationship(a) {
        let i = choose|i: int|
            0 <= i < catalog.entries.len() && same_relationship(#[trigger] catalog.entries[i], a);
        assert(same_relationship(catalog.entries[i], b));
        lemma_relationship_row(catalog, a, i);
        lemma_relationship_row(catalog, b, i);
    }
    if catalog.has_relationship(b) {
        let i = choose|i: int|
            0 <= i < catalog.entries.len() && same_relationship(#[trigger] catalog.entries[i], b);
        assert(same_relationship(catalog.entries[i], a));
    }
}

/// The change to apply for an announced relationship, if it wins.
fn wanted_relationship(database: &CatalogStore, entry: &RelationshipManifestEntry) -> (r: Option<
    Change,
>)
    requires
        database.wf(),
    ensures
        match r {
            Some(change) => relationship_wins(database@, entry@) && change@
                == relationship_change(entry@),
            None => !relationship_wins(database@, entry@),
        },
{
    proof {
        let key = EntryView { modified_at: 0, deleted: false, ..entry@ };
        lemma_same_row(database@, key, entry@);
    }
    match database.relationship_modified_at(entry.tag_id, entry.target_id.as_str(), entry.kind) {
        Ok(Some(ours)) if entry.modified_at <= ours => None,
        Ok(_) => relationship_to_change(entry),
        Err(_) => None,
    }
}

/// Plans the definitions of a tag manifest.
fn plan_definitions(database: &CatalogStore, definitions: &Vec<TagManifestEntry>) -> (r: Vec<
    TagSyncStep,
>)
    requires
        database.wf(),
    ensures
        step_views(r@) == definition_steps(database@, definitions@),
{
    let ghost p = |definition: TagManifestEntry| definition_wins(database@, definition);
    let ghost f = |definition: TagManifestEntry| definition_step(definition);
    let mut steps: Vec<TagSyncStep> = Vec::new();
    let mut i: usize = 0;
    proof {
        lemma_filter_none(definitions@.take(0), p);
        assert(step_views(steps@) =~= definitions@.take(0).filter(p).map_values(f));
    }
    while i < definitions.len()
        invariant
            i <= definitions.len(),
            database.wf(),
            p == (|definition: TagManifestEntry| definition_wins(database@, definition)),
            f == (|definition: TagManifestEntry| definition_step(definition)),
            step_views(steps@) == definitions@.take(i as int).filter(p).map_values(f),
        decreases definitions.len() - i,
    {
        proof {
            lemma_filter_map_take(definitions@, i as int, p, f);
        }
        let definition = definitions[i];
        if wants_definition(database, &definition) {
            let ghost before = step_views(steps@);
            let step = if definition.deleted {
                TagSyncStep::Apply(
                    Change::TagRemoved {
                        tag_id: definition.tag_id,
                        modified_at: definition.modified_at,
                    },
                )
            } else {
                TagSyncStep::Ask(
                    Frame::Sync(SyncMessage::TagRequest { tag_id: definition.tag_id }),
                )
            };
            assert(step@ == definition_step(definition));
            steps.push(step);
            assert(step_views(steps@) =~= before.push(definition_step(definition)));
        }
        i = i + 1;
    }
    assert(definitions@.take(i as int) =~= definitions@);
    steps
}

/// Compares a peer's tag manifest with the catalog. A definition that is newer is asked for, or
/// applied where it is a tombstone; a relationship that is newer is applied. The steps are to be
/// carried out in order.
pub fn plan_tag_sync(
    _peer_name: &str,
    definitions: Vec<TagManifestEntry>,
    relationships: Vec<RelationshipManifestEntry>,
    database: &CatalogStore,
) -> (r: Vec<TagSyncStep>)
    requires
        database.wf(),
    ensures
        step_views(r@) == tag_sync_plan(
            database@,
            definitions@,
            relationship_views(relationships@),
        ),
{
    let mut steps = plan_definitions(database, &definitions);
    let ghost first = step_views(steps@);
    let ghost all = relationship_views(relationships@);
    let ghost p = |entry: EntryView| relationship_wins(database@, entry);
    let ghost f = |entry: EntryView| TagSyncStepView::Apply(relationship_change(entry));
    let mut i: usize = 0;
    proof {
        lemma_filter_none(all.take(0), p);
        assert(step_views(steps@) =~= first + all.take(0).filter(p).map_values(f));
    }
    while i < relationships.len()
        invariant
            i <= relationships.len(),
            database.wf(),
            all == relationship_views(relationships@),
            p == (|entry: EntryView| relationship_wins(database@, entry)),
            f == (|entry: EntryView| TagSyncStepView::Apply(relationship_change(entry))),
            step_views(steps@) == first + all.take(i as int).filter(p).map_values(f),
        decreases relationships.len() - i,
    {
        proof {
            lemma_filter_map_take(all, i as int, p, f);
        }
        if let Some(change) = wanted_relationship(database, &relationships[i]) {
            let ghost before = step_views(steps@);
            let ghost step = TagSyncStepView::Apply(change@);
            steps.push(TagSyncStep::Apply(change));
            assert(step_views(steps@) =~= before.push(step));
            assert(step_views(steps@) =~= first + all.take(i + 1).filter(p).map_values(f));
        }
        i = i + 1;
    }
    assert(all.take(i as int) =~= all);
    steps
}

/// The answer to a request for a tag's definition: the definition, or that it is not held.
pub open spec fn tag_response(catalog: CatalogView, tag_id: TagId) -> FrameView {
    if catalog.has_tag(tag_id) {
        FrameView::Change(
            ChangeView::TagAdded {
                tag_id,
                tag_name: catalog.tag(tag_id).name,
                style: catalog.tag(tag_id).style,
                metadata: None,
                modified_at: catalog.tag(tag_id).modified_at,
            },
        )
    } else {
        FrameView::Sync(SyncView::TagNotFound { tag_id })
    }
}

/// Answers a peer's request for a tag's definition.
pub fn build_tag_request_response(
    _peer_name: &str,
    tag_id: TagId,
    database: &CatalogStore,
) -> (frame: Frame)
    requires
        database.wf(),
    ensures
        frame@ == tag_response(database@, tag_id),
{
    match database.tag_definition(tag_id) {
        Ok(Some((name, style, modified_at))) => Frame::Change(
            Change::TagAdded { tag_id, tag_name: name, style, metadata: None, modified_at },
        ),
        _ => Frame::Sync(SyncMessage::TagNotFound { tag_id }),
    }
}

/// A device that hears its own tag manifest has nothing to do.
pub proof fn law_own_tag_manifest_plans_nothing(catalog: CatalogView)
    requires
        catalog.wf(),
    ensures
        tag_sync_plan(
            catalog,
            catalog.tags.map_values(|row: TagRowView| definition_entry(row)),
            catalog.entries,
        ) == Seq::<TagSyncStepView>::empty(),
{
    let definitions = catalog.tags.map_values(|row: TagRowView| definition_entry(row));
    assert forall|i: int| 0 <= i < definitions.len() implies !definition_wins(
        catalog,
        #[trigger] definitions[i],
    ) by {
        lemma_tag_row(catalog, i);
    }
    assert forall|i: int| 0 <= i < catalog.entries.len() implies !relationship_wins(
        catalog,
        #[trigger] catalog.entries[i],
    ) by {
        lemma_relationship_row(catalog, catalog.entries[i], i);
    }
    lemma_filter_none(
        definitions,
        |definition: TagManifestEntry| definition_wins(catalog, definition),
    );
    lemma_filter_none(catalog.entries, |entry: EntryView| relationship_wins(catalog, entry));
    assert(tag_sync_plan(catalog, definitions, catalog.entries) =~= Seq::empty());
}

/// Planning tags is additive: the steps of two frames are those of both at once, kind by kind.
pub proof fn law_tag_plan_is_additive(
    catalog: CatalogView,
    definitions: Seq<TagManifestEntry>,
    more_definitions: Seq<TagManifestEntry>,
    relationships: Seq<EntryView>,
    more_relationships: Seq<EntryView>,
)
    ensures
        definition_steps(catalog, definitions + more_definitions) == definition_steps(
            catalog,
            definitions,
        ) + definition_steps(catalog, more_definitions),
        relationship_steps(catalog, relationships + more_relationships) == relationship_steps(
            catalog,
            relationships,
        ) + relationship_steps(catalog, more_relationships),
{
    lemma_filter_concat(
        definitions,
        more_definitions,
        |definition: TagManifestEntry| definition_wins(catalog, definition),
    );
    lemma_filter_concat(
        relationships,
        more_relationships,
        |entry: EntryView| relationship_wins(catalog, entry),
    );
    assert(definition_steps(catalog, definitions + more_definitions) =~= definition_steps(
        catalog,
        definitions,
    ) + definition_steps(catalog, more_definitions));
    assert(relationship_steps(catalog, relationships + more_relationships) =~= relationship_steps(
        catalog,
        relationships,
    ) + relationship_steps(catalog, more_relationships));
}

/// Once a requested definition has been answered and applied, it is not asked for again.
pub proof fn law_answered_definition_settles(ours: CatalogView, theirs: CatalogView, tag_id: TagId)
    requires
        ours.wf(),
        theirs.wf(),
        theirs.has_tag(tag_id),
    ensures
        ({
            let row = theirs.tag(tag_id);
            !definition_wins(
                ours.with_tag(tag_id, row.name, row.style, row.modified_at),
                definition_entry(row),
            )
        }),
{
    let row = theirs.tag(tag_id);
    let j = choose|j: int| 0 <= j < theirs.tags.len() && (#[trigger] theirs.tags[j]).id == tag_id;
    lemma_tag_row(theirs, j);
    let after = ours.with_tag(tag_id, row.name, row.style, row.modified_at);
    if ours.has_tag(tag_id) {
        let i = choose|i: int| 0 <= i < ours.tags.len() && (#[trigger] ours.tags[i]).id == tag_id;
        assert(after.tags[i].id == tag_id);
        let k = choose|k: int|
            0 <= k < after.tags.len() && (#[trigger] after.tags[k]).id == tag_id;
        assert(ours.tags[k].id == tag_id);
    } else {
        assert(after.tags[ours.tags.len() as int].id == tag_id);
        let k = choose|k: int|
            0 <= k < after.tags.len() && (#[trigger] after.tags[k]).id == tag_id;
        if k < ours.tags.len() {
            assert(ours.tags[k].id == tag_id);
        }
    }
}

/// Once an announced relationship has been applied, it is not applied again.
pub proof fn law_applied_relationship_settles(catalog: CatalogView, entry: EntryView)
    requires
        catalog.wf(),
    ensures
        !relationship_wins(catalog.with_relationship(entry), entry),
{
    let after = catalog.with_relationship(entry);
    if catalog.has_relationship(entry) {
        let i = choose|i: int|
            0 <= i < catalog.entries.len() && same_relationship(
                #[trigger] catalog.entries[i],
                entry,
            );
        assert(same_relationship(after.entries[i], entry));
    } else {
        assert(same_relationship(after.entries[catalog.entries.len() as int], entry));
    }
    let k = choose|k: int|
        0 <= k < after.entries.len() && same_relationship(#[trigger] after.entries[k], entry);
    if k < catalog.entries.len() {
        assert(same_relationship(catalog.entries[k], entry));
    }
}

} // verus!
