//! What a device does about an announced tag or relationship, said of the rows that it holds:
//! what is unknown or newer is taken in, and nothing else.

use vstd::prelude::*;

use crate::ids::{id_text, lemma_id_round_trip, parsed_id, FileId, TagId};
use crate::peer::batch::{batched, law_batches_are_bounded, law_batches_join_to_the_whole};
use crate::peer::messages::{ChangeView, FrameView, SyncView};
use crate::peer::plan_tags::{
    definition_entry, definition_step, definition_steps, definition_wins, relationship_change,
    relationship_steps, relationship_wins, tag_frames, tag_response, tag_sync_plan,
    TagSyncStepView,
};
use crate::seqs::{lemma_filter_keeps, lemma_filter_none, lemma_filter_one};
use crate::state::{EntryView, RelationshipKind, RelationshipManifestEntry, TagManifestEntry};
use crate::store::entries::lemma_relationship_row;
use crate::store::tags::lemma_tag_row;
use crate::store::types::{entries_distinct, same_relationship, CatalogView, TagRowView};

verus! {

/// A relationship is known here at least as new as at some time.
pub open spec fn knows_relationship(catalog: CatalogView, entry: EntryView, at: i64) -> bool {
    exists|e: int|
        0 <= e < catalog.entries.len() && (#[trigger] catalog.entries[e]).tag_id == entry.tag_id
            && catalog.entries[e].target_id == entry.target_id && catalog.entries[e].kind
            == entry.kind && catalog.entries[e].modified_at >= at
}

proof fn lemma_wins(catalog: CatalogView, entry: EntryView)
    requires
        entries_distinct(catalog.entries),
        parsed_id(entry.target_id) is Some,
    ensures
        relationship_wins(catalog, entry) == !knows_relationship(catalog, entry, entry.modified_at),
{
    if catalog.has_relationship(entry) {
        let i = choose|i: int|
            0 <= i < catalog.entries.len() && same_relationship(#[trigger] catalog.entries[i], entry);
        lemma_relationship_row(catalog, entry, i);
        if knows_relationship(catalog, entry, entry.modified_at) {
            let e = choose|e: int|
                0 <= e < catalog.entries.len() && (#[trigger] catalog.entries[e]).tag_id
                    == entry.tag_id && catalog.entries[e].target_id == entry.target_id
                    && catalog.entries[e].kind == entry.kind && catalog.entries[e].modified_at
                    >= entry.modified_at;
            lemma_relationship_row(catalog, entry, e);
        } else {
            assert(catalog.entries[i].tag_id == entry.tag_id);
        }
    } else if knows_relationship(catalog, entry, entry.modified_at) {
        let e = choose|e: int|
            0 <= e < catalog.entries.len() && (#[trigger] catalog.entries[e]).tag_id
                == entry.tag_id && catalog.entries[e].target_id == entry.target_id
                && catalog.entries[e].kind == entry.kind && catalog.entries[e].modified_at
                >= entry.modified_at;
        assert(same_relationship(catalog.entries[e], entry));
    }
}

/// An announced relationship that has no row here, or an older one, is applied as it was
/// announced, whatever else is announced: a live one as a tagging, a tombstone as an untagging.
pub proof fn law_unknown_or_newer_relationship_is_applied(
    catalog: CatalogView,
    definitions: Seq<TagManifestEntry>,
    relationships: Seq<EntryView>,
    r: int,
    target: u128,
)
    requires
        catalog.wf(),
        0 <= r < relationships.len(),
        parsed_id(relationships[r].target_id) == Some(target),
        forall|e: int|
            0 <= e < catalog.entries.len() && (#[trigger] catalog.entries[e]).tag_id
                == relationships[r].tag_id && catalog.entries[e].target_id
                == relationships[r].target_id && catalog.entries[e].kind == relationships[r].kind
                ==> catalog.entries[e].modified_at < relationships[r].modified_at,
    ensures
        exists|s: int|
            0 <= s < tag_sync_plan(catalog, definitions, relationships).len()
                && #[trigger] tag_sync_plan(catalog, definitions, relationships)[s]
                == TagSyncStepView::Apply(
                if relationships[r].kind == RelationshipKind::File {
                    if relationships[r].deleted {
                        ChangeView::FileUntagged {
                            file_id: FileId { value: target },
                            tag_id: relationships[r].tag_id,
                            modified_at: relationships[r].modified_at,
                        }
                    } else {
                        ChangeView::FileTagged {
                            file_id: FileId { value: target },
                            tag_id: relationships[r].tag_id,
                            metadata: None,
                            modified_at: relationships[r].modified_at,
                        }
                    }
                } else {
                    if relationships[r].deleted {
                        ChangeView::TagUntagged {
                            taggee_id: TagId { value: target },
                            tag_id: relationships[r].tag_id,
                            modified_at: relationships[r].modified_at,
                        }
                    } else {
                        ChangeView::TagTagged {
                            taggee_id: TagId { value: target },
                            tag_id: relationships[r].tag_id,
                            metadata: None,
                            modified_at: relationships[r].modified_at,
                        }
                    }
                },
            ),
{
    let entry = relationships[r];
    lemma_wins(catalog, entry);
    let wins = |entry: EntryView| relationship_wins(catalog, entry);
    lemma_filter_keeps(relationships, wins, r);
    let kept = relationships.filter(wins);
    let k = choose|k: int| 0 <= k < kept.len() && kept[k] == entry;
    let first = definition_steps(catalog, definitions);
    let steps = relationship_steps(catalog, relationships);
    assert(steps[k] == TagSyncStepView::Apply(relationship_change(entry)));
    assert(tag_sync_plan(catalog, definitions, relationships)[first.len() + k] == steps[k]);
}

/// An announced relationship that is known here at least as new, or whose target is no id, leads
/// to nothing.
pub proof fn law_known_relationship_is_left_alone(catalog: CatalogView, entry: EntryView, e: int)
    requires
        catalog.wf(),
        parsed_id(entry.target_id) is None || (0 <= e < catalog.entries.len()
            && catalog.entries[e].tag_id == entry.tag_id && catalog.entries[e].target_id
            == entry.target_id && catalog.entries[e].kind == entry.kind
            && catalog.entries[e].modified_at >= entry.modified_at),
    ensures
        tag_sync_plan(catalog, Seq::empty(), seq![entry]).len() == 0,
{
    if parsed_id(entry.target_id) is Some {
        assert(knows_relationship(catalog, entry, entry.modified_at));
        lemma_wins(catalog, entry);
    }
    lemma_filter_one(entry, |entry: EntryView| relationship_wins(catalog, entry));
    lemma_filter_none(
        Seq::<TagManifestEntry>::empty(),
        |definition: TagManifestEntry| definition_wins(catalog, definition),
    );
}

/// An announced definition that has no row here, or an older one, is asked for, or the tag removed
/// where it is a tombstone; one that is known here at least as new leads to nothing.
pub proof fn law_unknown_or_newer_definition_is_taken_in(
    catalog: CatalogView,
    definition: TagManifestEntry,
)
    requires
        catalog.wf(),
    ensures
        tag_sync_plan(catalog, seq![definition], Seq::empty()) == if exists|i: int|
            0 <= i < catalog.tags.len() && (#[trigger] catalog.tags[i]).id == definition.tag_id
                && catalog.tags[i].modified_at >= definition.modified_at {
            Seq::<TagSyncStepView>::empty()
        } else if definition.deleted {
            seq![
                TagSyncStepView::Apply(
                    ChangeView::TagRemoved {
                        tag_id: definition.tag_id,
                        modified_at: definition.modified_at,
                    },
                ),
            ]
        } else {
            seq![
                TagSyncStepView::Ask(
                    FrameView::Sync(SyncView::TagRequest { tag_id: definition.tag_id }),
                ),
            ]
        },
{
    let wins = |definition: TagManifestEntry| definition_wins(catalog, definition);
    lemma_filter_one(definition, wins);
    lemma_filter_none(
        Seq::<EntryView>::empty(),
        |entry: EntryView| relationship_wins(catalog, entry),
    );
    if catalog.has_tag(definition.tag_id) {
        let i = choose|i: int|
            0 <= i < catalog.tags.len() && (#[trigger] catalog.tags[i]).id == definition.tag_id;
        lemma_tag_row(catalog, i);
        assert forall|k: int|
            0 <= k < catalog.tags.len() && (#[trigger] catalog.tags[k]).id
                == definition.tag_id implies k == i by {}
    }
    let plan = tag_sync_plan(catalog, seq![definition], Seq::empty());
    assert(plan =~= if definition_wins(catalog, definition) {
        seq![definition_step(definition)]
    } else {
        Seq::empty()
    });
}

/// The steps for definitions come before those for relationships, and neither depends on the
/// other.
pub proof fn law_definitions_are_planned_before_relationships(
    catalog: CatalogView,
    definitions: Seq<TagManifestEntry>,
    relationships: Seq<EntryView>,
)
    ensures
        tag_sync_plan(catalog, definitions, relationships) == tag_sync_plan(
            catalog,
            definitions,
            Seq::empty(),
        ) + tag_sync_plan(catalog, Seq::empty(), relationships),
{
    lemma_filter_none(
        Seq::<TagManifestEntry>::empty(),
        |definition: TagManifestEntry| definition_wins(catalog, definition),
    );
    lemma_filter_none(
        Seq::<EntryView>::empty(),
        |entry: EntryView| relationship_wins(catalog, entry),
    );
    assert(tag_sync_plan(catalog, definitions, relationships) =~= tag_sync_plan(
        catalog,
        definitions,
        Seq::empty(),
    ) + tag_sync_plan(catalog, Seq::empty(), relationships));
}

/// The catalog after the relationship that a step applies was merged in; other steps leave the
/// relationships alone.
pub open spec fn with_step(catalog: CatalogView, step: TagSyncStepView) -> CatalogView {
    match step {
        TagSyncStepView::Apply(ChangeView::FileTagged { file_id, tag_id, modified_at, .. }) => {
            catalog.with_relationship(
                EntryView {
                    tag_id,
                    target_id: id_text(file_id.value),
                    kind: RelationshipKind::File,
                    modified_at,
                    deleted: false,
                },
            )
        },
        TagSyncStepView::Apply(ChangeView::FileUntagged { file_id, tag_id, modified_at }) => {
            catalog.with_relationship(
                EntryView {
                    tag_id,
                    target_id: id_text(file_id.value),
                    kind: RelationshipKind::File,
                    modified_at,
                    deleted: true,
                },
            )
        },
        TagSyncStepView::Apply(ChangeView::TagTagged { taggee_id, tag_id, modified_at, .. }) => {
            catalog.with_relationship(
                EntryView {
                    tag_id,
                    target_id: id_text(taggee_id.value),
                    kind: RelationshipKind::Tag,
                    modified_at,
                    deleted: false,
                },
            )
        },
        TagSyncStepView::Apply(ChangeView::TagUntagged { taggee_id, tag_id, modified_at }) => {
            catalog.with_relationship(
                EntryView {
                    tag_id,
                    target_id: id_text(taggee_id.value),
                    kind: RelationshipKind::Tag,
                    modified_at,
                    deleted: true,
                },
            )
        },
        _ => catalog,
    }
}

/// The catalog after some steps, one after the other.
pub open spec fn with_steps(catalog: CatalogView, steps: Seq<TagSyncStepView>) -> CatalogView
    decreases steps.len(),
{
    if steps.len() == 0 {
        catalog
    } else {
        with_step(with_steps(catalog, steps.drop_last()), steps.last())
    }
}

proof fn lemma_merging_forgets_nothing(
    catalog: CatalogView,
    incoming: EntryView,
    entry: EntryView,
    at: i64,
)
    ensures
        knows_relationship(catalog, entry, at) ==> knows_relationship(
            catalog.with_relationship(incoming),
            entry,
            at,
        ),
        knows_relationship(catalog.with_relationship(incoming), incoming, incoming.modified_at),
{
    let after = catalog.with_relationship(incoming);
    if knows_relationship(catalog, entry, at) {
        let e = choose|e: int|
            0 <= e < catalog.entries.len() && (#[trigger] catalog.entries[e]).tag_id
                == entry.tag_id && catalog.entries[e].target_id == entry.target_id
                && catalog.entries[e].kind == entry.kind && catalog.entries[e].modified_at >= at;
        assert(after.entries[e].tag_id == entry.tag_id);
    }
    if catalog.has_relationship(incoming) {
        let e = choose|e: int|
            0 <= e < catalog.entries.len() && same_relationship(
                #[trigger] catalog.entries[e],
                incoming,
            );
        assert(after.entries[e].tag_id == incoming.tag_id);
    } else {
        assert(after.entries[catalog.entries.len() as int].tag_id == incoming.tag_id);
    }
}

proof fn lemma_steps_forget_nothing(
    catalog: CatalogView,
    steps: Seq<TagSyncStepView>,
    entry: EntryView,
    at: i64,
    n: int,
)
    requires
        0 <= n <= steps.len(),
        knows_relationship(with_steps(catalog, steps.take(n)), entry, at),
    ensures
        knows_relationship(with_steps(catalog, steps), entry, at),
    decreases steps.len(),
{
    if n < steps.len() {
        let shorter = steps.drop_last();
        assert(shorter.take(n) =~= steps.take(n));
        lemma_steps_forget_nothing(catalog, shorter, entry, at, n);
        let before = with_steps(catalog, shorter);
        match steps.last() {
            TagSyncStepView::Apply(ChangeView::FileTagged { file_id, tag_id, modified_at, .. }) => {
                let incoming = EntryView {
                    tag_id,
                    target_id: id_text(file_id.value),
                    kind: RelationshipKind::File,
                    modified_at,
                    deleted: false,
                };
                lemma_merging_forgets_nothing(before, incoming, entry, at);
            },
            TagSyncStepView::Apply(ChangeView::FileUntagged { file_id, tag_id, modified_at }) => {
                let incoming = EntryView {
                    tag_id,
                    target_id: id_text(file_id.value),
                    kind: RelationshipKind::File,
                    modified_at,
                    deleted: true,
                };
                lemma_merging_forgets_nothing(before, incoming, entry, at);
            },
            TagSyncStepView::Apply(
                ChangeView::TagTagged { taggee_id, tag_id, modified_at, .. },
            ) => {
                let incoming = EntryView {
                    tag_id,
                    target_id: id_text(taggee_id.value),
                    kind: RelationshipKind::Tag,
                    modified_at,
                    deleted: false,
                };
                lemma_merging_forgets_nothing(before, incoming, entry, at);
            },
            TagSyncStepView::Apply(ChangeView::TagUntagged { taggee_id, tag_id, modified_at }) => {
                let incoming = EntryView {
                    tag_id,
                    target_id: id_text(taggee_id.value),
                    kind: RelationshipKind::Tag,
                    modified_at,
                    deleted: true,
                };
                lemma_merging_forgets_nothing(before, incoming, entry, at);
            },
            _ => {},
        }
    } else {
        assert(steps.take(n) =~= steps);
    }
}

/// With the steps for all that another device announces of its tags applied, every relationship of
/// that device, taggings and untaggings alike, is known here at least as new as there. Targets are
/// written as ids are.
pub proof fn law_tag_manifest_brings_in_every_relationship(
    ours: CatalogView,
    theirs: CatalogView,
    r: int,
    target: u128,
)
    requires
        ours.wf(),
        0 <= r < theirs.entries.len(),
        theirs.entries[r].target_id == id_text(target),
    ensures
        ({
            let definitions = theirs.tags.map_values(|row: TagRowView| definition_entry(row));
            let after = with_steps(ours, tag_sync_plan(ours, definitions, theirs.entries));
            exists|e: int|
                0 <= e < after.entries.len() && (#[trigger] after.entries[e]).tag_id
                    == theirs.entries[r].tag_id && after.entries[e].target_id
                    == theirs.entries[r].target_id && after.entries[e].kind
                    == theirs.entries[r].kind && after.entries[e].modified_at
                    >= theirs.entries[r].modified_at
        }),
{
    let entry = theirs.entries[r];
    let at = entry.modified_at;
    let definitions = theirs.tags.map_values(|row: TagRowView| definition_entry(row));
    let plan = tag_sync_plan(ours, definitions, theirs.entries);
    lemma_id_round_trip(target);
    lemma_wins(ours, entry);
    if knows_relationship(ours, entry, at) {
        assert(plan.take(0) =~= Seq::empty());
        lemma_steps_forget_nothing(ours, plan, entry, at, 0);
    } else {
        assert forall|e: int|
            0 <= e < ours.entries.len() && (#[trigger] ours.entries[e]).tag_id == entry.tag_id
                && ours.entries[e].target_id == entry.target_id && ours.entries[e].kind
                == entry.kind implies ours.entries[e].modified_at < entry.modified_at by {}
        law_unknown_or_newer_relationship_is_applied(ours, definitions, theirs.entries, r, target);
        let change = relationship_change(entry);
        let s = choose|s: int|
            0 <= s < plan.len() && #[trigger] plan[s] == TagSyncStepView::Apply(change);
        let before = with_steps(ours, plan.take(s));
        assert(plan.take(s + 1).drop_last() =~= plan.take(s));
        assert(plan.take(s + 1).last() == plan[s]);
        lemma_merging_forgets_nothing(before, entry, entry, at);
        assert(with_steps(ours, plan.take(s + 1)) == before.with_relationship(entry));
        lemma_steps_forget_nothing(ours, plan, entry, at, s + 1);
    }
}

/// A device answers a request for a tag's definition with the row it has of the tag, live or
/// tombstoned, and says that it has none where it has none.
pub proof fn law_definition_is_answered_as_it_is_held(catalog: CatalogView, tag_id: TagId, i: int)
    requires
        catalog.wf(),
    ensures
        0 <= i < catalog.tags.len() && catalog.tags[i].id == tag_id ==> tag_response(catalog, tag_id)
            == FrameView::Change(
            ChangeView::TagAdded {
                tag_id,
                tag_name: catalog.tags[i].name,
                style: catalog.tags[i].style,
                metadata: None,
                modified_at: catalog.tags[i].modified_at,
            },
        ),
        (forall|k: int|
            0 <= k < catalog.tags.len() ==> (#[trigger] catalog.tags[k]).id != tag_id)
            ==> tag_response(catalog, tag_id) == FrameView::Sync(SyncView::TagNotFound { tag_id }),
{
    if 0 <= i < catalog.tags.len() && catalog.tags[i].id == tag_id {
        lemma_tag_row(catalog, i);
    }
}

/// A tag is announced with its id, its clock and whether it is tombstoned.
pub proof fn law_definition_is_announced_as_it_is_held(row: TagRowView)
    ensures
        definition_entry(row).tag_id == row.id,
        definition_entry(row).modified_at == row.modified_at,
        definition_entry(row).deleted == row.deleted,
{
}

proof fn lemma_flattened_empties<A>(s: Seq<Seq<A>>)
    requires
        forall|i: int| 0 <= i < s.len() ==> (#[trigger] s[i]).len() == 0,
    ensures
        s.flatten() == Seq::<A>::empty(),
    decreases s.len(),
{
    if s.len() > 0 {
        assert forall|i: int| 0 <= i < s.drop_first().len() implies (
        #[trigger] s.drop_first()[i]).len() == 0 by {
            assert(s.drop_first()[i] == s[i + 1]);
        }
        lemma_flattened_empties(s.drop_first());
        assert(s.first() == s[0]);
        assert(s.flatten() =~= Seq::<A>::empty());
    }
}

/// The frames of a tag manifest together hold each definition and each relationship once, in order,
/// with every definition before any relationship, and none holds more than a batch.
pub proof fn law_tag_frames_hold_the_whole_manifest(
    definitions: Seq<TagManifestEntry>,
    relationships: Seq<RelationshipManifestEntry>,
    size: nat,
)
    requires
        size > 0,
    ensures
        ({
            let frames = tag_frames(definitions, relationships, size);
            &&& frames.map_values(
                |frame: (Seq<TagManifestEntry>, Seq<RelationshipManifestEntry>)| frame.0,
            ).flatten() == definitions
            &&& frames.map_values(
                |frame: (Seq<TagManifestEntry>, Seq<RelationshipManifestEntry>)| frame.1,
            ).flatten() == relationships
            &&& forall|i: int|
                0 <= i < frames.len() ==> 0 < (#[trigger] frames[i]).0.len() + frames[i].1.len()
                    <= size
            &&& forall|i: int, j: int|
                0 <= i < j < frames.len() && (#[trigger] frames[i]).1.len() > 0 ==> (
                #[trigger] frames[j]).0.len() == 0
        }),
{
    let frames = tag_frames(definitions, relationships, size);
    let a = batched(definitions, size);
    let b = batched(relationships, size);
    let no_definitions = Seq::new(b.len(), |i: int| Seq::<TagManifestEntry>::empty());
    let no_relationships = Seq::new(a.len(), |i: int| Seq::<RelationshipManifestEntry>::empty());
    assert(frames.map_values(
        |frame: (Seq<TagManifestEntry>, Seq<RelationshipManifestEntry>)| frame.0,
    ) =~= a + no_definitions);
    assert(frames.map_values(
        |frame: (Seq<TagManifestEntry>, Seq<RelationshipManifestEntry>)| frame.1,
    ) =~= no_relationships + b);
    law_batches_join_to_the_whole(definitions, size);
    law_batches_join_to_the_whole(relationships, size);
    law_batches_are_bounded(definitions, size);
    law_batches_are_bounded(relationships, size);
    lemma_flattened_empties(no_definitions);
    lemma_flattened_empties(no_relationships);
    vstd::seq_lib::lemma_flatten_concat(a, no_definitions);
    vstd::seq_lib::lemma_flatten_concat(no_relationships, b);
    assert forall|i: int| 0 <= i < frames.len() implies 0 < (#[trigger] frames[i]).0.len()
        + frames[i].1.len() <= size by {
        if i < a.len() {
            assert(frames[i].0 == a[i]);
        } else {
            assert(frames[i].1 == b[i - a.len()]);
        }
    }
    assert forall|i: int, j: int|
        0 <= i < j < frames.len() && (#[trigger] frames[i]).1.len() > 0 implies (
    #[trigger] frames[j]).0.len() == 0 by {
        assert(i >= a.len());
    }
}

} // verus!
