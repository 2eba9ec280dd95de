//! What a search finds, said of the rows of the catalog: what each term asks for, that a negated
//! term finds the rest, and that a text is found anywhere in a path or name.

use vstd::prelude::*;

use crate::ids::{parsed_id, FileId, TagId};
use crate::seqs::{lemma_filter_keeps, lemma_filter_member, lemma_filter_pairs};
use crate::state::{DeletedRule, RelationshipKind, SubtagRule};
use crate::store::entries::{gives_child, gives_file};
use crate::store::graph::{is_walk, lemma_reaches_self, reaches};
use crate::store::graph_laws::law_parent_surfaces_what_its_child_does;
use crate::store::pattern::{built_regex, pattern_matches, regex_accepts, TextPattern};
use crate::store::query::{file_passes, tag_passes, text_hit, verdict, QueryTerm};
use crate::store::tags::id_prefix_matches;
use crate::store::types::{rule_admits, CatalogView, FileRowView, FileVersionView, TagRowView};
use crate::text::{is_substring, lowercase, occurs_at};

verus! {

impl CatalogView {
    /// A search with these terms finds a file.
    pub open spec fn finds_file(
        self,
        terms: Seq<QueryTerm>,
        subtag_rule: SubtagRule,
        deleted_rule: DeletedRule,
        file: u128,
    ) -> bool {
        self.selects_file(
            terms,
            self.path_hits(terms, deleted_rule),
            subtag_rule,
            deleted_rule,
            file,
        )
    }

    /// A search with these terms finds a tag.
    pub open spec fn finds_tag(
        self,
        terms: Seq<QueryTerm>,
        subtag_rule: SubtagRule,
        deleted_rule: DeletedRule,
        tag: u128,
    ) -> bool {
        self.selects_tag(terms, self.name_hits(terms, deleted_rule), subtag_rule, deleted_rule, tag)
    }
}

/// A file that a search may look at has one verdict, on its own path.
proof fn lemma_listed_file(
    catalog: CatalogView,
    term: QueryTerm,
    deleted_rule: DeletedRule,
    i: int,
    j: int,
)
    requires
        catalog.wf(),
        0 <= i < catalog.files.len(),
        deleted_rule is Include || !catalog.files[i].deleted,
        0 <= j < catalog.versions.len(),
        catalog.versions[j].file_id == catalog.files[i].id,
    ensures
        catalog.listed_numbers(deleted_rule).contains(catalog.files[i].id.value),
        verdict(
            catalog.listed_numbers(deleted_rule),
            catalog.path_hits(seq![term], deleted_rule)[0],
            catalog.files[i].id.value,
        ) == Some(text_hit(term, catalog.files[i].logical_path)),
{
    let row = catalog.files[i];
    let p = |row: FileRowView| catalog.is_listed(row, deleted_rule);
    lemma_filter_keeps(catalog.versions, |version: FileVersionView| version.file_id == row.id, j);
    lemma_filter_keeps(catalog.files, p, i);
    let listed = catalog.listed(deleted_rule);
    let k = choose|k: int| 0 <= k < listed.len() && listed[k] == row;
    let numbers = catalog.listed_numbers(deleted_rule);
    assert(numbers[k] == row.id.value);
    lemma_filter_pairs(catalog.files, p, |a: FileRowView, b: FileRowView| a.id != b.id);
    let m = numbers.index_of(row.id.value);
    assert(numbers[m] == row.id.value);
    assert(m == k) by {
        if m < k {
            assert(listed[m].id != listed[k].id);
        }
        if k < m {
            assert(listed[k].id != listed[m].id);
        }
    }
}

/// What a search of one term finds among the files it may look at.
proof fn lemma_one_file_term(
    catalog: CatalogView,
    term: QueryTerm,
    subtag_rule: SubtagRule,
    deleted_rule: DeletedRule,
    i: int,
    j: int,
)
    requires
        catalog.wf(),
        0 <= i < catalog.files.len(),
        deleted_rule is Include || !catalog.files[i].deleted,
        0 <= j < catalog.versions.len(),
        catalog.versions[j].file_id == catalog.files[i].id,
    ensures
        catalog.finds_file(seq![term], subtag_rule, deleted_rule, catalog.files[i].id.value)
            == file_passes(
            term,
            catalog.file_member(term, subtag_rule, catalog.files[i].id.value),
            Some(text_hit(term, catalog.files[i].logical_path)),
        ),
{
    lemma_listed_file(catalog, term, deleted_rule, i, j);
    let terms = seq![term];
    assert(terms[0] == term);
}

/// A negated term finds, among the live files that have a version, or among all that have one
/// where tombstoned files are asked for, exactly those that the term does not find.
pub proof fn law_negated_term_finds_the_other_files(
    catalog: CatalogView,
    pattern: TextPattern,
    tags: Vec<TagId>,
    ids: Vec<FileId>,
    subtag_rule: SubtagRule,
    deleted_rule: DeletedRule,
    i: int,
    j: int,
)
    requires
        catalog.wf(),
        0 <= i < catalog.files.len(),
        deleted_rule is Include || !catalog.files[i].deleted,
        0 <= j < catalog.versions.len(),
        catalog.versions[j].file_id == catalog.files[i].id,
    ensures
        ({
            let found = |term: QueryTerm|
                catalog.finds_file(
                    seq![term],
                    subtag_rule,
                    deleted_rule,
                    catalog.files[i].id.value,
                );
            &&& found(QueryTerm::NotAnyMatch(pattern, tags, ids)) == !found(
                QueryTerm::AnyMatch(pattern, tags, ids),
            )
            &&& found(QueryTerm::NotTag(tags)) == !found(QueryTerm::HasTag(tags))
            &&& found(QueryTerm::NotNameMatches(pattern)) == !found(
                QueryTerm::NameMatches(pattern),
            )
            &&& found(QueryTerm::NotLogicalMatches(pattern)) == !found(
                QueryTerm::LogicalMatches(pattern),
            )
            &&& found(QueryTerm::NotFileIdMatches(ids)) == !found(QueryTerm::FileIdMatches(ids))
        }),
{
    let any = QueryTerm::AnyMatch(pattern, tags, ids);
    let not_any = QueryTerm::NotAnyMatch(pattern, tags, ids);
    lemma_one_file_term(catalog, any, subtag_rule, deleted_rule, i, j);
    lemma_one_file_term(catalog, not_any, subtag_rule, deleted_rule, i, j);
    lemma_one_file_term(catalog, QueryTerm::HasTag(tags), subtag_rule, deleted_rule, i, j);
    lemma_one_file_term(catalog, QueryTerm::NotTag(tags), subtag_rule, deleted_rule, i, j);
    lemma_one_file_term(catalog, QueryTerm::NameMatches(pattern), subtag_rule, deleted_rule, i, j);
    lemma_one_file_term(
        catalog,
        QueryTerm::NotNameMatches(pattern),
        subtag_rule,
        deleted_rule,
        i,
        j,
    );
    lemma_one_file_term(
        catalog,
        QueryTerm::LogicalMatches(pattern),
        subtag_rule,
        deleted_rule,
        i,
        j,
    );
    lemma_one_file_term(
        catalog,
        QueryTerm::NotLogicalMatches(pattern),
        subtag_rule,
        deleted_rule,
        i,
        j,
    );
    lemma_one_file_term(catalog, QueryTerm::FileIdMatches(ids), subtag_rule, deleted_rule, i, j);
    lemma_one_file_term(catalog, QueryTerm::NotFileIdMatches(ids), subtag_rule, deleted_rule, i, j);
}

/// A bare token finds a file that its text finds, or a tag of its set, or an id of its set. A text
/// term finds a file whose path the text matches, and an id term one whose id is in the set.
pub proof fn law_term_finds_the_files_it_asks_for(
    catalog: CatalogView,
    pattern: TextPattern,
    tags: Vec<TagId>,
    ids: Vec<FileId>,
    subtag_rule: SubtagRule,
    deleted_rule: DeletedRule,
    i: int,
    j: int,
)
    requires
        catalog.wf(),
        0 <= i < catalog.files.len(),
        deleted_rule is Include || !catalog.files[i].deleted,
        0 <= j < catalog.versions.len(),
        catalog.versions[j].file_id == catalog.files[i].id,
    ensures
        ({
            let found = |term: QueryTerm|
                catalog.finds_file(
                    seq![term],
                    subtag_rule,
                    deleted_rule,
                    catalog.files[i].id.value,
                );
            &&& found(QueryTerm::AnyMatch(pattern, tags, ids)) == (found(
                QueryTerm::NameMatches(pattern),
            ) || found(QueryTerm::HasTag(tags)) || found(QueryTerm::FileIdMatches(ids)))
            &&& found(QueryTerm::NameMatches(pattern)) == pattern_matches(
                pattern,
                catalog.files[i].logical_path,
            )
            &&& found(QueryTerm::LogicalMatches(pattern)) == pattern_matches(
                pattern,
                catalog.files[i].logical_path,
            )
            &&& found(QueryTerm::FileIdMatches(ids)) == exists|k: int|
                0 <= k < ids@.len() && #[trigger] ids@[k] == catalog.files[i].id
        }),
{
    let any = QueryTerm::AnyMatch(pattern, tags, ids);
    lemma_one_file_term(catalog, any, subtag_rule, deleted_rule, i, j);
    lemma_one_file_term(catalog, QueryTerm::HasTag(tags), subtag_rule, deleted_rule, i, j);
    lemma_one_file_term(catalog, QueryTerm::NameMatches(pattern), subtag_rule, deleted_rule, i, j);
    lemma_one_file_term(
        catalog,
        QueryTerm::LogicalMatches(pattern),
        subtag_rule,
        deleted_rule,
        i,
        j,
    );
    lemma_one_file_term(catalog, QueryTerm::FileIdMatches(ids), subtag_rule, deleted_rule, i, j);
    let file_id = catalog.files[i].id;
    assert(ids@.contains(file_id) == exists|k: int|
        0 <= k < ids@.len() && #[trigger] ids@[k] == file_id);
    assert(FileId { value: file_id.value } == file_id);
}

/// A file that carries a tag directly is found by it, listed or not, and one that carries none of
/// a set is not, where tags under a tag are left out: the relationship of the two is live.
pub proof fn law_tag_term_finds_the_tagged_files(
    catalog: CatalogView,
    tags: Vec<TagId>,
    deleted_rule: DeletedRule,
    file: u128,
)
    ensures
        catalog.finds_file(
            seq![QueryTerm::HasTag(tags)],
            SubtagRule::Exclude,
            deleted_rule,
            file,
        ) == exists|k: int, e: int|
            0 <= k < tags@.len() && 0 <= e < catalog.entries.len() && (
            #[trigger] catalog.entries[e]).tag_id == (#[trigger] tags@[k])
                && !catalog.entries[e].deleted && catalog.entries[e].kind == RelationshipKind::File
                && parsed_id(catalog.entries[e].target_id) == Some(file),
{
    let terms = seq![QueryTerm::HasTag(tags)];
    assert(terms[0] == QueryTerm::HasTag(tags));
    if catalog.finds_file(terms, SubtagRule::Exclude, deleted_rule, file) {
        assert(file_passes(
            terms[0],
            catalog.file_member(terms[0], SubtagRule::Exclude, file),
            verdict(
                catalog.listed_numbers(deleted_rule),
                catalog.path_hits(terms, deleted_rule)[0],
                file,
            ),
        ));
        let k = choose|k: int|
            0 <= k < tags@.len() && catalog.carries(
                (#[trigger] tags@[k]).value,
                SubtagRule::Exclude,
                file,
            );
        let e = choose|e: int|
            0 <= e < catalog.entries.len() && gives_file(
                #[trigger] catalog.entries[e],
                tags@[k].value,
                file,
            );
        assert(catalog.entries[e].tag_id == tags@[k]);
    }
    if exists|k: int, e: int|
        0 <= k < tags@.len() && 0 <= e < catalog.entries.len() && (
        #[trigger] catalog.entries[e]).tag_id == (#[trigger] tags@[k])
            && !catalog.entries[e].deleted && catalog.entries[e].kind == RelationshipKind::File
            && parsed_id(catalog.entries[e].target_id) == Some(file) {
        let (k, e) = choose|k: int, e: int|
            0 <= k < tags@.len() && 0 <= e < catalog.entries.len() && (
            #[trigger] catalog.entries[e]).tag_id == (#[trigger] tags@[k])
                && !catalog.entries[e].deleted && catalog.entries[e].kind == RelationshipKind::File
                && parsed_id(catalog.entries[e].target_id) == Some(file);
        assert(gives_file(catalog.entries[e], tags@[k].value, file));
        assert(catalog.carries(tags@[k].value, SubtagRule::Exclude, file));
        assert(catalog.carries_any(tags@, SubtagRule::Exclude, file));
        assert(catalog.file_member(terms[0], SubtagRule::Exclude, file));
    }
}

/// Where the tags under a tag are taken along, a tag surfaces the files that it is put on and those
/// that a tag right under it surfaces, and no others. A tag is right under another while the
/// relationship of the two is live.
pub proof fn law_tag_surfaces_its_own_and_its_subtags_files(
    catalog: CatalogView,
    tag: u128,
    file: u128,
)
    ensures
        catalog.carries(tag, SubtagRule::Include, file) == ((exists|e: int|
            0 <= e < catalog.entries.len() && (#[trigger] catalog.entries[e]).tag_id.value == tag
                && !catalog.entries[e].deleted && catalog.entries[e].kind == RelationshipKind::File
                && parsed_id(catalog.entries[e].target_id) == Some(file)) || (exists|
            e: int,
            child: u128,
        |
            0 <= e < catalog.entries.len() && (#[trigger] catalog.entries[e]).tag_id.value == tag
                && !catalog.entries[e].deleted && catalog.entries[e].kind == RelationshipKind::Tag
                && parsed_id(catalog.entries[e].target_id) == Some(child)
                && #[trigger] catalog.carries(child, SubtagRule::Include, file))),
{
    let edge = catalog.child_edge();
    if catalog.carries(tag, SubtagRule::Include, file) {
        let subtag = choose|subtag: u128| #[trigger]
            reaches(edge, tag, subtag) && catalog.tags_file(subtag, file);
        let path = choose|path: Seq<u128>| #[trigger]
            is_walk(edge, path) && path[0] == tag && path.last() == subtag;
        if path.len() == 1 {
            let e = choose|e: int|
                0 <= e < catalog.entries.len() && gives_file(
                    #[trigger] catalog.entries[e],
                    tag,
                    file,
                );
            assert(catalog.entries[e].tag_id.value == tag);
        } else {
            let child = path[1];
            let first: int = 0;
            assert(edge(path[first], path[first + 1]));
            let e = choose|e: int|
                0 <= e < catalog.entries.len() && gives_child(
                    #[trigger] catalog.entries[e],
                    tag,
                    child,
                );
            let rest = path.skip(1);
            assert forall|k: int| 0 <= k < rest.len() - 1 implies edge(
                #[trigger] rest[k],
                rest[k + 1],
            ) by {
                assert(edge(path[k + 1], path[k + 1 + 1]));
            }
            assert(is_walk(edge, rest) && rest[0] == child && rest.last() == subtag);
            assert(reaches(edge, child, subtag));
            assert(catalog.carries(child, SubtagRule::Include, file));
            assert(catalog.entries[e].tag_id.value == tag);
        }
    }
    if exists|e: int|
        0 <= e < catalog.entries.len() && (#[trigger] catalog.entries[e]).tag_id.value == tag
            && !catalog.entries[e].deleted && catalog.entries[e].kind == RelationshipKind::File
            && parsed_id(catalog.entries[e].target_id) == Some(file) {
        let e = choose|e: int|
            0 <= e < catalog.entries.len() && (#[trigger] catalog.entries[e]).tag_id.value == tag
                && !catalog.entries[e].deleted && catalog.entries[e].kind == RelationshipKind::File
                && parsed_id(catalog.entries[e].target_id) == Some(file);
        assert(gives_file(catalog.entries[e], tag, file));
        lemma_reaches_self(edge, tag);
        assert(catalog.tags_file(tag, file));
    }
    if exists|e: int, child: u128|
        0 <= e < catalog.entries.len() && (#[trigger] catalog.entries[e]).tag_id.value == tag
            && !catalog.entries[e].deleted && catalog.entries[e].kind == RelationshipKind::Tag
            && parsed_id(catalog.entries[e].target_id) == Some(child) && #[trigger] catalog.carries(
            child,
            SubtagRule::Include,
            file,
        ) {
        let (e, child) = choose|e: int, child: u128|
            0 <= e < catalog.entries.len() && (#[trigger] catalog.entries[e]).tag_id.value == tag
                && !catalog.entries[e].deleted && catalog.entries[e].kind == RelationshipKind::Tag
                && parsed_id(catalog.entries[e].target_id) == Some(child)
                && #[trigger] catalog.carries(child, SubtagRule::Include, file);
        assert(gives_child(catalog.entries[e], tag, child));
        assert(edge(tag, child));
        law_parent_surfaces_what_its_child_does(catalog, tag, child, file);
    }
}

/// A search that asks for no tag finds no file that has no row or no version, nor a tombstoned one
/// unless those are asked for.
pub proof fn law_search_without_tags_finds_only_what_is_listed(
    catalog: CatalogView,
    terms: Seq<QueryTerm>,
    subtag_rule: SubtagRule,
    deleted_rule: DeletedRule,
    file: u128,
)
    requires
        forall|t: int| 0 <= t < terms.len() ==> !(#[trigger] terms[t] is HasTag),
        catalog.finds_file(terms, subtag_rule, deleted_rule, file),
    ensures
        exists|i: int|
            0 <= i < catalog.files.len() && (#[trigger] catalog.files[i]).id.value == file && (
            deleted_rule is Include || !catalog.files[i].deleted),
        exists|j: int|
            0 <= j < catalog.versions.len() && (#[trigger] catalog.versions[j]).file_id.value
                == file,
{
    let numbers = catalog.listed_numbers(deleted_rule);
    assert(numbers.contains(file));
    let k = numbers.index_of(file);
    let p = |row: FileRowView| catalog.is_listed(row, deleted_rule);
    lemma_filter_member(catalog.files, p, k);
    let row = catalog.listed(deleted_rule)[k];
    let i = choose|i: int| 0 <= i < catalog.files.len() && catalog.files[i] == row;
    assert(catalog.files[i].id.value == file);
    let q = |version: FileVersionView| version.file_id == row.id;
    lemma_filter_member(catalog.versions, q, 0);
    let j = choose|j: int|
        0 <= j < catalog.versions.len() && catalog.versions[j] == catalog.versions.filter(q)[0];
    assert(catalog.versions[j].file_id.value == file);
}

/// A tag that a search may look at has one verdict, on its own name.
proof fn lemma_one_tag_term(
    catalog: CatalogView,
    term: QueryTerm,
    subtag_rule: SubtagRule,
    deleted_rule: DeletedRule,
    i: int,
)
    requires
        catalog.wf(),
        0 <= i < catalog.tags.len(),
        deleted_rule is Include || !catalog.tags[i].deleted,
    ensures
        catalog.finds_tag(seq![term], subtag_rule, deleted_rule, catalog.tags[i].id.value)
            == tag_passes(
            term,
            catalog.tag_member(term, subtag_rule, catalog.tags[i].id.value),
            Some(text_hit(term, catalog.tags[i].name)),
        ),
{
    let row = catalog.tags[i];
    let p = |row: TagRowView| rule_admits(deleted_rule, row.deleted);
    lemma_filter_keeps(catalog.tags, p, i);
    let listed = catalog.listed_tags(deleted_rule);
    let k = choose|k: int| 0 <= k < listed.len() && listed[k] == row;
    let numbers = catalog.listed_tag_numbers(deleted_rule);
    assert(numbers[k] == row.id.value);
    lemma_filter_pairs(catalog.tags, p, |a: TagRowView, b: TagRowView| a.id != b.id);
    let m = numbers.index_of(row.id.value);
    assert(numbers[m] == row.id.value);
    assert(m == k) by {
        if m < k {
            assert(listed[m].id != listed[k].id);
        }
        if k < m {
            assert(listed[k].id != listed[m].id);
        }
    }
    let terms = seq![term];
    assert(terms[0] == term);
}

/// A negated term finds, among the live tags, or among all where tombstoned tags are asked for,
/// exactly those that the term does not find; but the terms that speak of paths or file ids, plain
/// or negated, find no tag.
pub proof fn law_negated_term_finds_the_other_tags(
    catalog: CatalogView,
    pattern: TextPattern,
    tags: Vec<TagId>,
    ids: Vec<FileId>,
    subtag_rule: SubtagRule,
    deleted_rule: DeletedRule,
    i: int,
)
    requires
        catalog.wf(),
        0 <= i < catalog.tags.len(),
        deleted_rule is Include || !catalog.tags[i].deleted,
    ensures
        ({
            let found = |term: QueryTerm|
                catalog.finds_tag(seq![term], subtag_rule, deleted_rule, catalog.tags[i].id.value);
            &&& found(QueryTerm::NotAnyMatch(pattern, tags, ids)) == !found(
                QueryTerm::AnyMatch(pattern, tags, ids),
            )
            &&& found(QueryTerm::NotTag(tags)) == !found(QueryTerm::HasTag(tags))
            &&& found(QueryTerm::NotNameMatches(pattern)) == !found(
                QueryTerm::NameMatches(pattern),
            )
            &&& !found(QueryTerm::LogicalMatches(pattern)) && !found(
                QueryTerm::NotLogicalMatches(pattern),
            )
            &&& !found(QueryTerm::FileIdMatches(ids)) && !found(QueryTerm::NotFileIdMatches(ids))
        }),
{
    let any = QueryTerm::AnyMatch(pattern, tags, ids);
    let not_any = QueryTerm::NotAnyMatch(pattern, tags, ids);
    lemma_one_tag_term(catalog, any, subtag_rule, deleted_rule, i);
    lemma_one_tag_term(catalog, not_any, subtag_rule, deleted_rule, i);
    lemma_one_tag_term(catalog, QueryTerm::HasTag(tags), subtag_rule, deleted_rule, i);
    lemma_one_tag_term(catalog, QueryTerm::NotTag(tags), subtag_rule, deleted_rule, i);
    lemma_one_tag_term(catalog, QueryTerm::NameMatches(pattern), subtag_rule, deleted_rule, i);
    lemma_one_tag_term(catalog, QueryTerm::NotNameMatches(pattern), subtag_rule, deleted_rule, i);
    lemma_one_tag_term(catalog, QueryTerm::LogicalMatches(pattern), subtag_rule, deleted_rule, i);
    lemma_one_tag_term(catalog, QueryTerm::NotLogicalMatches(pattern), subtag_rule, deleted_rule, i);
    lemma_one_tag_term(catalog, QueryTerm::FileIdMatches(ids), subtag_rule, deleted_rule, i);
    lemma_one_tag_term(catalog, QueryTerm::NotFileIdMatches(ids), subtag_rule, deleted_rule, i);
}

/// A bare token finds a tag whose name its text matches, a tag of its set, and a tag under one of
/// them. A text term finds a tag whose name the text matches.
pub proof fn law_term_finds_the_tags_it_asks_for(
    catalog: CatalogView,
    pattern: TextPattern,
    tags: Vec<TagId>,
    ids: Vec<FileId>,
    subtag_rule: SubtagRule,
    deleted_rule: DeletedRule,
    i: int,
)
    requires
        catalog.wf(),
        0 <= i < catalog.tags.len(),
        deleted_rule is Include || !catalog.tags[i].deleted,
    ensures
        ({
            let found = |term: QueryTerm|
                catalog.finds_tag(seq![term], subtag_rule, deleted_rule, catalog.tags[i].id.value);
            &&& found(QueryTerm::AnyMatch(pattern, tags, ids)) == (found(
                QueryTerm::NameMatches(pattern),
            ) || found(QueryTerm::HasTag(tags)) || exists|k: int|
                0 <= k < tags@.len() && #[trigger] tags@[k] == catalog.tags[i].id)
            &&& found(QueryTerm::NameMatches(pattern)) == pattern_matches(
                pattern,
                catalog.tags[i].name,
            )
            &&& found(QueryTerm::HasTag(tags)) == exists|k: int|
                0 <= k < tags@.len() && catalog.is_subtag(
                    (#[trigger] tags@[k]).value,
                    subtag_rule,
                    catalog.tags[i].id.value,
                )
        }),
{
    let any = QueryTerm::AnyMatch(pattern, tags, ids);
    lemma_one_tag_term(catalog, any, subtag_rule, deleted_rule, i);
    lemma_one_tag_term(catalog, QueryTerm::HasTag(tags), subtag_rule, deleted_rule, i);
    lemma_one_tag_term(catalog, QueryTerm::NameMatches(pattern), subtag_rule, deleted_rule, i);
    let tag_id = catalog.tags[i].id;
    assert(tags@.contains(tag_id) == exists|k: int|
        0 <= k < tags@.len() && #[trigger] tags@[k] == tag_id);
    assert(TagId { value: tag_id.value } == tag_id);
}

/// A text is found wherever it stands in a path or name, in whatever case, and is not found where
/// it does not stand.
pub proof fn law_text_is_found_anywhere_in_any_case(
    needle: String,
    text: Seq<char>,
    before: Seq<char>,
    after: Seq<char>,
)
    ensures
        lowercase(text) == before + lowercase(needle@) + after ==> pattern_matches(
            TextPattern::Substring(needle),
            text,
        ),
        pattern_matches(TextPattern::Substring(needle), text) ==> exists|a: Seq<char>, b: Seq<char>|
            lowercase(text) == #[trigger] (a + lowercase(needle@) + b),
{
    let haystack = lowercase(text);
    let wanted = lowercase(needle@);
    if haystack == before + wanted + after {
        assert(occurs_at(haystack, wanted, before.len() as int));
    }
    if pattern_matches(TextPattern::Substring(needle), text) {
        let k = choose|k: int| occurs_at(haystack, wanted, k);
        let a = haystack.take(k);
        let b = haystack.skip(k + wanted.len());
        assert(haystack =~= a + wanted + b);
    }
}

/// A regular expression that can be built matches what it accepts, and one that cannot matches
/// nothing.
pub proof fn law_regex_decides_by_itself(source: String, text: Seq<char>)
    ensures
        pattern_matches(TextPattern::Regex(source), text) <==> (built_regex(source@) is Some
            && regex_accepts(built_regex(source@)->Some_0, text)),
{
}

/// The texts of a token resolve to the tags, tombstoned ones only where they are asked for, whose
/// name holds the text in any case or whose id begins with it.
pub proof fn law_token_resolves_by_name_or_id(
    catalog: CatalogView,
    deleted_rule: DeletedRule,
    text: Seq<char>,
    i: int,
)
    requires
        catalog.wf(),
        0 <= i < catalog.tags.len(),
    ensures
        catalog.tag_resolves(deleted_rule, text, catalog.tags[i].id.value) == ((
        deleted_rule is Include || !catalog.tags[i].deleted) && ((exists|
            a: Seq<char>,
            b: Seq<char>,
        |
            lowercase(catalog.tags[i].name) == #[trigger] (a + lowercase(text) + b))
            || id_prefix_matches(catalog.tags[i].id.value, text))),
{
    let row = catalog.tags[i];
    let haystack = lowercase(row.name);
    let wanted = lowercase(text);
    if is_substring(haystack, wanted) {
        let k = choose|k: int| occurs_at(haystack, wanted, k);
        let a = haystack.take(k);
        let b = haystack.skip(k + wanted.len());
        assert(haystack =~= a + wanted + b);
    }
    if exists|a: Seq<char>, b: Seq<char>| haystack == #[trigger] (a + wanted + b) {
        let (a, b) = choose|a: Seq<char>, b: Seq<char>| haystack == #[trigger] (a + wanted + b);
        assert(occurs_at(haystack, wanted, a.len() as int));
    }
    if catalog.tag_resolves(deleted_rule, text, row.id.value) {
        let k = choose|k: int|
            0 <= k < catalog.tags.len() && crate::store::tags::resolves(
                #[trigger] catalog.tags[k],
                deleted_rule,
                text,
                row.id.value,
            );
        assert(catalog.tags[k].id == row.id);
        assert(k == i);
    } else {
        assert(!crate::store::tags::resolves(catalog.tags[i], deleted_rule, text, row.id.value));
    }
}

/// Every term of a search holds of every file that it finds, listed or not: a text term matches
/// the path of a row of the file, or a negated one does not, a tag term has the file under one of
/// its tags, or a negated one under none, and an id term names it, or a negated one does not.
pub proof fn law_every_term_holds_of_a_found_file(
    catalog: CatalogView,
    terms: Seq<QueryTerm>,
    subtag_rule: SubtagRule,
    deleted_rule: DeletedRule,
    file: u128,
    t: int,
)
    requires
        catalog.finds_file(terms, subtag_rule, deleted_rule, file),
        0 <= t < terms.len(),
    ensures
        match terms[t] {
            QueryTerm::NameMatches(pattern) | QueryTerm::LogicalMatches(pattern) => exists|i: int|
                0 <= i < catalog.files.len() && (#[trigger] catalog.files[i]).id.value == file
                    && pattern_matches(pattern, catalog.files[i].logical_path),
            QueryTerm::NotNameMatches(pattern) | QueryTerm::NotLogicalMatches(pattern) => exists|
                i: int,
            |
                0 <= i < catalog.files.len() && (#[trigger] catalog.files[i]).id.value == file
                    && !pattern_matches(pattern, catalog.files[i].logical_path),
            QueryTerm::HasTag(tags) => exists|k: int|
                0 <= k < tags@.len() && catalog.carries(
                    (#[trigger] tags@[k]).value,
                    subtag_rule,
                    file,
                ),
            QueryTerm::NotTag(tags) => forall|k: int|
                0 <= k < tags@.len() ==> !catalog.carries(
                    (#[trigger] tags@[k]).value,
                    subtag_rule,
                    file,
                ),
            QueryTerm::FileIdMatches(ids) => exists|k: int|
                0 <= k < ids@.len() && (#[trigger] ids@[k]).value == file,
            QueryTerm::NotFileIdMatches(ids) => forall|k: int|
                0 <= k < ids@.len() ==> (#[trigger] ids@[k]).value != file,
            QueryTerm::AnyMatch(pattern, tags, ids) => {
                ||| exists|i: int|
                    0 <= i < catalog.files.len() && (#[trigger] catalog.files[i]).id.value == file
                        && pattern_matches(pattern, catalog.files[i].logical_path)
                ||| exists|k: int|
                    0 <= k < tags@.len() && catalog.carries(
                        (#[trigger] tags@[k]).value,
                        subtag_rule,
                        file,
                    )
                ||| exists|k: int| 0 <= k < ids@.len() && (#[trigger] ids@[k]).value == file
            },
            QueryTerm::NotAnyMatch(pattern, tags, ids) => {
                &&& exists|i: int|
                    0 <= i < catalog.files.len() && (#[trigger] catalog.files[i]).id.value == file
                        && !pattern_matches(pattern, catalog.files[i].logical_path)
                &&& forall|k: int|
                    0 <= k < tags@.len() ==> !catalog.carries(
                        (#[trigger] tags@[k]).value,
                        subtag_rule,
                        file,
                    )
                &&& forall|k: int| 0 <= k < ids@.len() ==> (#[trigger] ids@[k]).value != file
            },
        },
{
    let term = terms[t];
    let numbers = catalog.listed_numbers(deleted_rule);
    let hits = catalog.path_hits(terms, deleted_rule);
    let member = catalog.file_member(term, subtag_rule, file);
    let hit = verdict(numbers, hits[t], file);
    assert(file_passes(terms[t], member, hit));
    if numbers.contains(file) {
        let k = numbers.index_of(file);
        let p = |row: FileRowView| catalog.is_listed(row, deleted_rule);
        lemma_filter_member(catalog.files, p, k);
        let row = catalog.listed(deleted_rule)[k];
        let i = choose|i: int| 0 <= i < catalog.files.len() && catalog.files[i] == row;
        assert(catalog.files[i].id.value == file);
        assert(hit == Some(text_hit(term, catalog.files[i].logical_path)));
    }
    match term {
        QueryTerm::FileIdMatches(ids) => {
            let k = ids@.index_of(FileId { value: file });
            assert(ids@[k].value == file);
        },
        QueryTerm::AnyMatch(_, _, ids) => {
            if ids@.contains(FileId { value: file }) {
                let k = ids@.index_of(FileId { value: file });
                assert(ids@[k].value == file);
            }
        },
        QueryTerm::NotFileIdMatches(ids) | QueryTerm::NotAnyMatch(_, _, ids) => {
            assert forall|k: int| 0 <= k < ids@.len() implies (#[trigger] ids@[k]).value != file by {
                if ids@[k].value == file {
                    assert(ids@[k] == FileId { value: file });
                    assert(ids@.contains(FileId { value: file }));
                }
            }
        },
        _ => {},
    }
}

/// Terms combine conjunctively: of the tags that a listing shows, those that two searches find are
/// those that the searches together find.
pub proof fn law_tag_terms_combine_conjunctively(
    catalog: CatalogView,
    a: Seq<QueryTerm>,
    b: Seq<QueryTerm>,
    subtag_rule: SubtagRule,
    deleted_rule: DeletedRule,
    tag: u128,
)
    requires
        catalog.listed_tag_numbers(deleted_rule).contains(tag),
    ensures
        catalog.finds_tag(a + b, subtag_rule, deleted_rule, tag) == (catalog.finds_tag(
            a,
            subtag_rule,
            deleted_rule,
            tag,
        ) && catalog.finds_tag(b, subtag_rule, deleted_rule, tag)),
{
    let both = a + b;
    let hits = catalog.name_hits(both, deleted_rule);
    let hits_a = catalog.name_hits(a, deleted_rule);
    let hits_b = catalog.name_hits(b, deleted_rule);
    let ids = catalog.listed_tag_numbers(deleted_rule);
    if catalog.finds_tag(both, subtag_rule, deleted_rule, tag) {
        assert forall|t: int| 0 <= t < a.len() implies tag_passes(
            #[trigger] a[t],
            catalog.tag_member(a[t], subtag_rule, tag),
            verdict(ids, hits_a[t], tag),
        ) by {
            assert(both[t] == a[t] && hits[t] == hits_a[t]);
        }
        assert forall|t: int| 0 <= t < b.len() implies tag_passes(
            #[trigger] b[t],
            catalog.tag_member(b[t], subtag_rule, tag),
            verdict(ids, hits_b[t], tag),
        ) by {
            assert(both[a.len() + t] == b[t] && hits[a.len() + t] == hits_b[t]);
        }
    }
    if catalog.finds_tag(a, subtag_rule, deleted_rule, tag) && catalog.finds_tag(
        b,
        subtag_rule,
        deleted_rule,
        tag,
    ) {
        assert forall|t: int| 0 <= t < both.len() implies tag_passes(
            #[trigger] both[t],
            catalog.tag_member(both[t], subtag_rule, tag),
            verdict(ids, hits[t], tag),
        ) by {
            if t < a.len() {
                assert(both[t] == a[t] && hits[t] == hits_a[t]);
            } else {
                assert(both[t] == b[t - a.len()] && hits[t] == hits_b[t - a.len()]);
            }
        }
    }
}

/// A search that asks for no tag finds no tag that has no row, nor a tombstoned one unless those
/// are asked for.
pub proof fn law_search_without_tags_finds_only_listed_tags(
    catalog: CatalogView,
    terms: Seq<QueryTerm>,
    subtag_rule: SubtagRule,
    deleted_rule: DeletedRule,
    tag: u128,
)
    requires
        forall|t: int| 0 <= t < terms.len() ==> !(#[trigger] terms[t] is HasTag),
        catalog.finds_tag(terms, subtag_rule, deleted_rule, tag),
    ensures
        exists|i: int|
            0 <= i < catalog.tags.len() && (#[trigger] catalog.tags[i]).id.value == tag && (
            deleted_rule is Include || !catalog.tags[i].deleted),
{
    let numbers = catalog.listed_tag_numbers(deleted_rule);
    assert(numbers.contains(tag));
    let k = numbers.index_of(tag);
    lemma_filter_member(catalog.tags, |row: TagRowView| rule_admits(deleted_rule, row.deleted), k);
    let row = catalog.listed_tags(deleted_rule)[k];
    let i = choose|i: int| 0 <= i < catalog.tags.len() && catalog.tags[i] == row;
    assert(catalog.tags[i].id.value == tag);
}

/// A term that looks at a text finds no file that has no row or no version, nor a tombstoned one
/// unless those are asked for, whatever other terms are there; and no such tag.
pub proof fn law_text_term_finds_only_what_is_listed(
    catalog: CatalogView,
    terms: Seq<QueryTerm>,
    subtag_rule: SubtagRule,
    deleted_rule: DeletedRule,
    id: u128,
    t: int,
)
    requires
        0 <= t < terms.len(),
        terms[t] is NameMatches || terms[t] is NotNameMatches || terms[t] is AnyMatch
            || terms[t] is NotAnyMatch || terms[t] is LogicalMatches
            || terms[t] is NotLogicalMatches,
    ensures
        catalog.finds_file(terms, subtag_rule, deleted_rule, id) ==> exists|i: int|
            0 <= i < catalog.files.len() && (#[trigger] catalog.files[i]).id.value == id && (
            deleted_rule is Include || !catalog.files[i].deleted),
        catalog.finds_file(terms, subtag_rule, deleted_rule, id) ==> exists|j: int|
            0 <= j < catalog.versions.len() && (#[trigger] catalog.versions[j]).file_id.value
                == id,
        catalog.finds_tag(terms, subtag_rule, deleted_rule, id) ==> exists|i: int|
            0 <= i < catalog.tags.len() && (#[trigger] catalog.tags[i]).id.value == id && (
            deleted_rule is Include || !catalog.tags[i].deleted),
{
    if catalog.finds_file(terms, subtag_rule, deleted_rule, id) {
        let numbers = catalog.listed_numbers(deleted_rule);
        assert(file_passes(
            terms[t],
            catalog.file_member(terms[t], subtag_rule, id),
            verdict(numbers, catalog.path_hits(terms, deleted_rule)[t], id),
        ));
        assert(numbers.contains(id));
        let none = Seq::<QueryTerm>::empty();
        law_search_without_tags_finds_only_what_is_listed(
            catalog,
            none,
            subtag_rule,
            deleted_rule,
            id,
        );
    }
    if catalog.finds_tag(terms, subtag_rule, deleted_rule, id) {
        let numbers = catalog.listed_tag_numbers(deleted_rule);
        assert(tag_passes(
            terms[t],
            catalog.tag_member(terms[t], subtag_rule, id),
            verdict(numbers, catalog.name_hits(terms, deleted_rule)[t], id),
        ));
        assert(numbers.contains(id));
        let none = Seq::<QueryTerm>::empty();
        law_search_without_tags_finds_only_listed_tags(
            catalog,
            none,
            subtag_rule,
            deleted_rule,
            id,
        );
    }
}

/// A live file that has a version, and a live tag, are found by terms together exactly if each of
/// the terms finds them alone.
pub proof fn law_terms_find_together_what_each_finds(
    catalog: CatalogView,
    terms: Seq<QueryTerm>,
    subtag_rule: SubtagRule,
    deleted_rule: DeletedRule,
    i: int,
    j: int,
    k: int,
)
    requires
        catalog.wf(),
        0 <= i < catalog.files.len(),
        deleted_rule is Include || !catalog.files[i].deleted,
        0 <= j < catalog.versions.len(),
        catalog.versions[j].file_id == catalog.files[i].id,
        0 <= k < catalog.tags.len(),
        deleted_rule is Include || !catalog.tags[k].deleted,
    ensures
        catalog.finds_file(terms, subtag_rule, deleted_rule, catalog.files[i].id.value)
            <==> forall|t: int|
            0 <= t < terms.len() ==> catalog.finds_file(
                seq![#[trigger] terms[t]],
                subtag_rule,
                deleted_rule,
                catalog.files[i].id.value,
            ),
        catalog.finds_tag(terms, subtag_rule, deleted_rule, catalog.tags[k].id.value)
            <==> forall|t: int|
            0 <= t < terms.len() ==> catalog.finds_tag(
                seq![#[trigger] terms[t]],
                subtag_rule,
                deleted_rule,
                catalog.tags[k].id.value,
            ),
{
    let file = catalog.files[i].id.value;
    let tag = catalog.tags[k].id.value;
    let p = |row: TagRowView| rule_admits(deleted_rule, row.deleted);
    lemma_filter_keeps(catalog.tags, p, k);
    let m = choose|m: int|
        0 <= m < catalog.tags.filter(p).len() && catalog.tags.filter(p)[m] == catalog.tags[k];
    assert(catalog.listed_tag_numbers(deleted_rule)[m] == tag);
    assert forall|t: int| 0 <= t < terms.len() implies {
        &&& catalog.finds_file(seq![#[trigger] terms[t]], subtag_rule, deleted_rule, file)
            == file_passes(
            terms[t],
            catalog.file_member(terms[t], subtag_rule, file),
            verdict(
                catalog.listed_numbers(deleted_rule),
                catalog.path_hits(terms, deleted_rule)[t],
                file,
            ),
        )
        &&& catalog.finds_tag(seq![terms[t]], subtag_rule, deleted_rule, tag) == tag_passes(
            terms[t],
            catalog.tag_member(terms[t], subtag_rule, tag),
            verdict(
                catalog.listed_tag_numbers(deleted_rule),
                catalog.name_hits(terms, deleted_rule)[t],
                tag,
            ),
        )
    } by {
        let one = seq![terms[t]];
        assert(one[0] == terms[t]);
        lemma_listed_file(catalog, terms[t], deleted_rule, i, j);
        assert(catalog.path_hits(one, deleted_rule)[0] == catalog.path_hits(terms, deleted_rule)[t]);
        assert(catalog.name_hits(one, deleted_rule)[0] == catalog.name_hits(terms, deleted_rule)[t]);
    }
    let any_term = if terms.len() == 0 {
        QueryTerm::NameMatches(arbitrary())
    } else {
        terms[0]
    };
    lemma_listed_file(catalog, any_term, deleted_rule, i, j);
}

} // verus!
