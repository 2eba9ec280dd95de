//! Laws of the tag graph: what a tag surfaces, through however many tags, and what tagging and
//! untagging do to it.

use vstd::prelude::*;

use crate::ids::{id_text, lemma_id_round_trip, parsed_id, FileId, TagId};
use crate::state::{DeletedRule, EntryView, RelationshipKind, SubtagRule};
use crate::store::entries::{
    gives_child, gives_file, gives_parent, gives_tag, lemma_relationship_row, merged_row,
};
use crate::store::graph::{is_walk, leads_to, lemma_reaches_self, lemma_reaches_step, reaches};
use crate::store::query::QueryTerm;
use crate::store::types::{entries_distinct, same_relationship, CatalogView};

verus! {

/// Two walks make one.
proof fn lemma_reaches_on(
    edge: spec_fn(u128, u128) -> bool,
    from: u128,
    middle: u128,
    to: u128,
)
    requires
        reaches(edge, from, middle),
        reaches(edge, middle, to),
    ensures
        reaches(edge, from, to),
{
    let path = choose|path: Seq<u128>| #[trigger]
        is_walk(edge, path) && path[0] == middle && path.last() == to;
    lemma_reaches_along(edge, from, path, path.len() - 1);
}

proof fn lemma_reaches_along(
    edge: spec_fn(u128, u128) -> bool,
    from: u128,
    path: Seq<u128>,
    n: int,
)
    requires
        is_walk(edge, path),
        0 <= n < path.len(),
        reaches(edge, from, path[0]),
    ensures
        reaches(edge, from, path[n]),
    decreases n,
{
    if n > 0 {
        lemma_reaches_along(edge, from, path, n - 1);
        assert(edge(path[n - 1], path[n - 1 + 1]));
        lemma_reaches_step(edge, from, path[n - 1], path[n]);
    }
}

/// A file that carries the last tag of a chain is surfaced by every tag of the chain.
pub proof fn law_any_tag_of_a_chain_surfaces_the_file(
    catalog: CatalogView,
    chain: Seq<u128>,
    i: int,
    file: u128,
)
    requires
        is_walk(catalog.child_edge(), chain),
        0 <= i < chain.len(),
        catalog.tags_file(chain.last(), file),
    ensures
        catalog.carries(chain[i], SubtagRule::Include, file),
{
    let edge = catalog.child_edge();
    let rest = chain.skip(i);
    assert forall|k: int| 0 <= k < rest.len() - 1 implies edge(#[trigger] rest[k], rest[k + 1]) by {
        assert(edge(chain[i + k], chain[i + k + 1]));
    }
    assert(is_walk(edge, rest));
    assert(rest[0] == chain[i] && rest.last() == chain.last());
    assert(reaches(edge, chain[i], chain.last()));
}

/// A search for a tag finds every file that carries a tag under it, whether the file is listed
/// or not.
pub proof fn law_tag_search_finds_what_the_tag_surfaces(
    catalog: CatalogView,
    tags: Vec<TagId>,
    hits: Seq<Seq<bool>>,
    rule: SubtagRule,
    deleted_rule: DeletedRule,
    file: u128,
)
    ensures
        catalog.selects_file(seq![QueryTerm::HasTag(tags)], hits, rule, deleted_rule, file) <==> (
        exists|i: int|
            0 <= i < tags@.len() && catalog.carries((#[trigger] tags@[i]).value, rule, file)),
{
    let terms = seq![QueryTerm::HasTag(tags)];
    assert(terms[0] == QueryTerm::HasTag(tags));
}

/// A tag that is put on another surfaces all that the other surfaces.
pub proof fn law_parent_surfaces_what_its_child_does(
    catalog: CatalogView,
    parent: u128,
    child: u128,
    file: u128,
)
    requires
        catalog.child_edge()(parent, child),
        catalog.carries(child, SubtagRule::Include, file),
    ensures
        catalog.carries(parent, SubtagRule::Include, file),
{
    let edge = catalog.child_edge();
    let subtag = choose|subtag: u128| #[trigger]
        reaches(edge, child, subtag) && catalog.tags_file(subtag, file);
    lemma_reaches_self(edge, parent);
    lemma_reaches_step(edge, parent, parent, child);
    lemma_reaches_on(edge, parent, child, subtag);
}

/// Tags that stand in a cycle surface the same files.
pub proof fn law_tags_of_a_cycle_surface_the_same(
    catalog: CatalogView,
    a: u128,
    b: u128,
    file: u128,
)
    requires
        reaches(catalog.child_edge(), a, b),
        reaches(catalog.child_edge(), b, a),
    ensures
        catalog.carries(a, SubtagRule::Include, file) == catalog.carries(
            b,
            SubtagRule::Include,
            file,
        ),
{
    let edge = catalog.child_edge();
    if catalog.carries(a, SubtagRule::Include, file) {
        let subtag = choose|subtag: u128| #[trigger]
            reaches(edge, a, subtag) && catalog.tags_file(subtag, file);
        lemma_reaches_on(edge, b, a, subtag);
    }
    if catalog.carries(b, SubtagRule::Include, file) {
        let subtag = choose|subtag: u128| #[trigger]
            reaches(edge, b, subtag) && catalog.tags_file(subtag, file);
        lemma_reaches_on(edge, a, b, subtag);
    }
}

/// Walking the graph adds to what stands on an entity directly and takes nothing away.
pub proof fn law_walking_the_graph_only_adds(catalog: CatalogView, tag: u128, other: u128)
    ensures
        catalog.carries(tag, SubtagRule::Exclude, other) ==> catalog.carries(
            tag,
            SubtagRule::Include,
            other,
        ),
        catalog.is_subtag(tag, SubtagRule::Exclude, other) ==> catalog.is_subtag(
            tag,
            SubtagRule::Include,
            other,
        ),
        catalog.is_supertag(tag, SubtagRule::Exclude, other) ==> catalog.is_supertag(
            tag,
            SubtagRule::Include,
            other,
        ),
        catalog.shows_tag(tag, SubtagRule::Exclude, other) ==> catalog.shows_tag(
            tag,
            SubtagRule::Include,
            other,
        ),
{
    lemma_reaches_self(catalog.child_edge(), tag);
    lemma_reaches_self(catalog.live_child_edge(), tag);
    lemma_reaches_self(catalog.live_parent_edge(), tag);
}

/// The relationship of a tag and a file, as it is recorded when the file is tagged.
pub open spec fn tagging(tag: TagId, file: FileId, modified_at: i64) -> EntryView {
    EntryView {
        tag_id: tag,
        target_id: id_text(file.value),
        kind: RelationshipKind::File,
        modified_at,
        deleted: false,
    }
}

/// A file that was tagged is found under the tag and, unless the tag is tombstoned, shows it,
/// provided no newer change of the relationship was recorded before.
pub proof fn law_tagged_file_is_found(
    catalog: CatalogView,
    tag: TagId,
    file: FileId,
    modified_at: i64,
)
    requires
        entries_distinct(catalog.entries),
        !catalog.has_relationship(tagging(tag, file, modified_at)) || catalog.relationship(
            tagging(tag, file, modified_at),
        ).modified_at < modified_at,
    ensures
        ({
            let after = catalog.with_relationship(tagging(tag, file, modified_at));
            &&& after.carries(tag.value, SubtagRule::Exclude, file.value)
            &&& !after.tag_tombstoned(tag.value) ==> after.shows_tag(
                file.value,
                SubtagRule::Exclude,
                tag.value,
            )
        }),
{
    let entry = tagging(tag, file, modified_at);
    let after = catalog.with_relationship(entry);
    lemma_id_round_trip(file.value);
    if catalog.has_relationship(entry) {
        let i = choose|i: int|
            0 <= i < catalog.entries.len() && same_relationship(#[trigger] catalog.entries[i], entry);
        lemma_relationship_row(catalog, entry, i);
        assert(after.entries[i] == merged_row(catalog.entries[i], entry));
        assert(gives_file(after.entries[i], tag.value, file.value));
        assert(gives_tag(after.entries[i], file.value, tag.value));
    } else {
        let i = catalog.entries.len() as int;
        assert(after.entries[i] == entry);
        assert(gives_file(after.entries[i], tag.value, file.value));
        assert(gives_tag(after.entries[i], file.value, tag.value));
    }
}

/// A file that was untagged no longer shows the tag directly, provided no newer change of the
/// relationship was recorded before.
pub proof fn law_untagged_file_does_not_show_the_tag(
    catalog: CatalogView,
    tag: TagId,
    file: FileId,
    modified_at: i64,
)
    requires
        entries_distinct(catalog.entries),
        catalog.has_relationship(tagging(tag, file, modified_at)) ==> catalog.relationship(
            tagging(tag, file, modified_at),
        ).modified_at < modified_at,
    ensures
        !catalog.without_relationship(tagging(tag, file, modified_at), modified_at).direct_tag(
            file.value,
            tag.value,
        ),
{
    let key = tagging(tag, file, modified_at);
    let after = catalog.without_relationship(key, modified_at);
    assert forall|i: int| 0 <= i < after.entries.len() implies !gives_tag(
        #[trigger] after.entries[i],
        file.value,
        tag.value,
    ) by {
        if same_relationship(catalog.entries[i], key) {
            lemma_relationship_row(catalog, key, i);
        }
    }
}

/// A tag is right under another while the relationship of the two is live and the tag itself is
/// not tombstoned, and right above while the other is not.
pub proof fn law_neighbours_are_live_relationships(catalog: CatalogView, tag: u128, subtag: u128)
    ensures
        catalog.is_subtag(tag, SubtagRule::Exclude, subtag) == ((exists|e: int|
            0 <= e < catalog.entries.len() && (#[trigger] catalog.entries[e]).tag_id.value == tag
                && !catalog.entries[e].deleted && catalog.entries[e].kind == RelationshipKind::Tag
                && parsed_id(catalog.entries[e].target_id) == Some(subtag)) && forall|i: int|
            0 <= i < catalog.tags.len() && (#[trigger] catalog.tags[i]).id.value == subtag
                ==> !catalog.tags[i].deleted),
        catalog.is_supertag(subtag, SubtagRule::Exclude, tag) == ((exists|e: int|
            0 <= e < catalog.entries.len() && (#[trigger] catalog.entries[e]).tag_id.value == tag
                && !catalog.entries[e].deleted && catalog.entries[e].kind == RelationshipKind::Tag
                && catalog.entries[e].target_id == id_text(subtag)) && forall|i: int|
            0 <= i < catalog.tags.len() && (#[trigger] catalog.tags[i]).id.value == tag
                ==> !catalog.tags[i].deleted),
{
    if catalog.is_subtag(tag, SubtagRule::Exclude, subtag) {
        let e = choose|e: int|
            0 <= e < catalog.entries.len() && gives_child(
                #[trigger] catalog.entries[e],
                tag,
                subtag,
            );
        assert(catalog.entries[e].tag_id.value == tag);
    } else if exists|e: int|
        0 <= e < catalog.entries.len() && (#[trigger] catalog.entries[e]).tag_id.value == tag
            && !catalog.entries[e].deleted && catalog.entries[e].kind == RelationshipKind::Tag
            && parsed_id(catalog.entries[e].target_id) == Some(subtag) {
        let e = choose|e: int|
            0 <= e < catalog.entries.len() && (#[trigger] catalog.entries[e]).tag_id.value == tag
                && !catalog.entries[e].deleted && catalog.entries[e].kind == RelationshipKind::Tag
                && parsed_id(catalog.entries[e].target_id) == Some(subtag);
        assert(gives_child(catalog.entries[e], tag, subtag));
        assert(catalog.child_edge()(tag, subtag));
        assert(catalog.tag_tombstoned(subtag));
    }
    if catalog.is_supertag(subtag, SubtagRule::Exclude, tag) {
        let e = choose|e: int|
            0 <= e < catalog.entries.len() && gives_parent(
                #[trigger] catalog.entries[e],
                subtag,
                tag,
            );
        assert(catalog.entries[e].tag_id.value == tag);
    } else if exists|e: int|
        0 <= e < catalog.entries.len() && (#[trigger] catalog.entries[e]).tag_id.value == tag
            && !catalog.entries[e].deleted && catalog.entries[e].kind == RelationshipKind::Tag
            && catalog.entries[e].target_id == id_text(subtag) {
        let e = choose|e: int|
            0 <= e < catalog.entries.len() && (#[trigger] catalog.entries[e]).tag_id.value == tag
                && !catalog.entries[e].deleted && catalog.entries[e].kind == RelationshipKind::Tag
                && catalog.entries[e].target_id == id_text(subtag);
        assert(gives_parent(catalog.entries[e], subtag, tag));
        assert(catalog.tag_tombstoned(tag));
    }
}

proof fn lemma_leads_on(edge: spec_fn(u128, u128) -> bool, from: u128, to: u128)
    ensures
        leads_to(edge, from, to) == (edge(from, to) || exists|next: u128| #[trigger]
            edge(from, next) && leads_to(edge, next, to)),
{
    if leads_to(edge, from, to) {
        let last = choose|last: u128| #[trigger] reaches(edge, from, last) && edge(last, to);
        let path = choose|path: Seq<u128>| #[trigger]
            is_walk(edge, path) && path[0] == from && path.last() == last;
        if path.len() > 1 {
            let next = path[1];
            let first: int = 0;
            assert(edge(path[first], path[first + 1]));
            let rest = path.skip(1);
            assert forall|k: int| 0 <= k < rest.len() - 1 implies edge(
                #[trigger] rest[k],
                rest[k + 1],
            ) by {
                assert(edge(path[k + 1], path[k + 1 + 1]));
            }
            assert(is_walk(edge, rest) && rest[0] == next && rest.last() == last);
            assert(reaches(edge, next, last));
            assert(leads_to(edge, next, to));
        }
    }
    lemma_reaches_self(edge, from);
    if exists|next: u128| #[trigger] edge(from, next) && leads_to(edge, next, to) {
        let next = choose|next: u128| #[trigger] edge(from, next) && leads_to(edge, next, to);
        let last = choose|last: u128| #[trigger] reaches(edge, next, last) && edge(last, to);
        lemma_reaches_step(edge, from, from, next);
        lemma_reaches_on(edge, from, next, last);
    }
}

/// The tags under a tag, where the graph is walked, are those right under it and those under one
/// right under it; and likewise for the tags above.
pub proof fn law_walks_go_from_neighbour_to_neighbour(catalog: CatalogView, tag: u128, other: u128)
    ensures
        catalog.is_subtag(tag, SubtagRule::Include, other) == (catalog.is_subtag(
            tag,
            SubtagRule::Exclude,
            other,
        ) || exists|next: u128| #[trigger]
            catalog.is_subtag(tag, SubtagRule::Exclude, next) && catalog.is_subtag(
                next,
                SubtagRule::Include,
                other,
            )),
        catalog.is_supertag(tag, SubtagRule::Include, other) == (catalog.is_supertag(
            tag,
            SubtagRule::Exclude,
            other,
        ) || exists|next: u128| #[trigger]
            catalog.is_supertag(tag, SubtagRule::Exclude, next) && catalog.is_supertag(
                next,
                SubtagRule::Include,
                other,
            )),
{
    let down = catalog.live_child_edge();
    let up = catalog.live_parent_edge();
    lemma_leads_on(down, tag, other);
    lemma_leads_on(up, tag, other);
    if exists|next: u128| #[trigger] down(tag, next) && leads_to(down, next, other) {
        let next = choose|next: u128| #[trigger] down(tag, next) && leads_to(down, next, other);
        assert(catalog.is_subtag(tag, SubtagRule::Exclude, next));
        assert(catalog.is_subtag(next, SubtagRule::Include, other));
    }
    if exists|next: u128| #[trigger] up(tag, next) && leads_to(up, next, other) {
        let next = choose|next: u128| #[trigger] up(tag, next) && leads_to(up, next, other);
        assert(catalog.is_supertag(tag, SubtagRule::Exclude, next));
        assert(catalog.is_supertag(next, SubtagRule::Include, other));
    }
    if exists|next: u128| #[trigger]
        catalog.is_subtag(tag, SubtagRule::Exclude, next) && catalog.is_subtag(
            next,
            SubtagRule::Include,
            other,
        ) {
        let next = choose|next: u128| #[trigger]
            catalog.is_subtag(tag, SubtagRule::Exclude, next) && catalog.is_subtag(
                next,
                SubtagRule::Include,
                other,
            );
        assert(down(tag, next) && leads_to(down, next, other));
    }
    if exists|next: u128| #[trigger]
        catalog.is_supertag(tag, SubtagRule::Exclude, next) && catalog.is_supertag(
            next,
            SubtagRule::Include,
            other,
        ) {
        let next = choose|next: u128| #[trigger]
            catalog.is_supertag(tag, SubtagRule::Exclude, next) && catalog.is_supertag(
                next,
                SubtagRule::Include,
                other,
            );
        assert(up(tag, next) && leads_to(up, next, other));
    }
}

/// A file shows the live tags that it carries directly, and, where the graph is walked, also the
/// tags above them, and no others.
pub proof fn law_file_shows_its_tags_and_those_above(catalog: CatalogView, file: u128, tag: u128)
    ensures
        catalog.shows_tag(file, SubtagRule::Exclude, tag) == ((exists|e: int|
            0 <= e < catalog.entries.len() && (#[trigger] catalog.entries[e]).tag_id.value == tag
                && !catalog.entries[e].deleted && catalog.entries[e].kind == RelationshipKind::File
                && catalog.entries[e].target_id == id_text(file)) && forall|i: int|
            0 <= i < catalog.tags.len() && (#[trigger] catalog.tags[i]).id.value == tag
                ==> !catalog.tags[i].deleted),
        catalog.shows_tag(file, SubtagRule::Include, tag) == (catalog.shows_tag(
            file,
            SubtagRule::Exclude,
            tag,
        ) || exists|direct: u128| #[trigger]
            catalog.shows_tag(file, SubtagRule::Exclude, direct) && catalog.is_supertag(
                direct,
                SubtagRule::Include,
                tag,
            )),
{
    if catalog.shows_tag(file, SubtagRule::Exclude, tag) {
        let e = choose|e: int|
            0 <= e < catalog.entries.len() && gives_tag(#[trigger] catalog.entries[e], file, tag);
        assert(catalog.entries[e].tag_id.value == tag);
    } else if exists|e: int|
        0 <= e < catalog.entries.len() && (#[trigger] catalog.entries[e]).tag_id.value == tag
            && !catalog.entries[e].deleted && catalog.entries[e].kind == RelationshipKind::File
            && catalog.entries[e].target_id == id_text(file) {
        let e = choose|e: int|
            0 <= e < catalog.entries.len() && (#[trigger] catalog.entries[e]).tag_id.value == tag
                && !catalog.entries[e].deleted && catalog.entries[e].kind == RelationshipKind::File
                && catalog.entries[e].target_id == id_text(file);
        assert(gives_tag(catalog.entries[e], file, tag));
        assert(catalog.tag_tombstoned(tag));
    }
    if exists|direct: u128| #[trigger]
        catalog.direct_tag(file, direct) && leads_to(catalog.live_parent_edge(), direct, tag) {
        let direct = choose|direct: u128| #[trigger]
            catalog.direct_tag(file, direct) && leads_to(catalog.live_parent_edge(), direct, tag);
        assert(catalog.shows_tag(file, SubtagRule::Exclude, direct));
    }
    if exists|direct: u128| #[trigger]
        catalog.shows_tag(file, SubtagRule::Exclude, direct) && catalog.is_supertag(
            direct,
            SubtagRule::Include,
            tag,
        ) {
        let direct = choose|direct: u128| #[trigger]
            catalog.shows_tag(file, SubtagRule::Exclude, direct) && catalog.is_supertag(
                direct,
                SubtagRule::Include,
                tag,
            );
        assert(catalog.direct_tag(file, direct));
    }
}

} // verus!
