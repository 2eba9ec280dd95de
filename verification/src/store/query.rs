//! Search: the terms of a query and the two functions that evaluate it.
//!
//! Terms combine conjunctively. Evaluation composes the reads of the tables; the verdicts of
//! the text patterns are taken first, and the selection is made from them.

use vstd::prelude::*;

use crate::ids::{FileId, TagId};
use crate::seqs::{lemma_filter_none, lemma_filter_pairs, lemma_filter_take};
use crate::state::{DeletedRule, SubtagRule};
use crate::store::entries::{listed_file_ids, listed_tag_ids, lists_files, lists_tags};
use crate::store::graph::{ascending, holds, insert_sorted};
use crate::store::pattern::{pattern_matches, TextPattern};
use crate::store::types::{
    admits, rule_admits, CatalogView, DatabaseError, FileRowView, TagRowView,
};
use crate::store::CatalogStore;
use crate::text::{lowercase, to_lowercase};

verus! {

/// A single clause of a search.
///
/// A tag token resolves to a set of tags, so the tag-bearing terms carry sets of ids. An empty
/// set matches no tag: `HasTag` of it matches nothing, and `NotTag` of it excludes nothing.
#[derive(Debug, Clone, PartialEq, Eq)]
pub enum QueryTerm {
    /// Must carry at least one tag of the set.
    HasTag(Vec<TagId>),
    /// Must carry none of the tags of the set.
    NotTag(Vec<TagId>),
    /// The path of the file or the name of the tag must match.
    NameMatches(TextPattern),
    /// The path of the file or the name of the tag must not match.
    NotNameMatches(TextPattern),
    /// The path of the file must match; no tag does.
    LogicalMatches(TextPattern),
    /// The path of the file must not match; no tag does.
    NotLogicalMatches(TextPattern),
    /// The file's id must be in the set; no tag matches.
    FileIdMatches(Vec<FileId>),
    /// The file's id must not be in the set; no tag matches.
    NotFileIdMatches(Vec<FileId>),
    /// Must match the text, or a tag of the set, or an id of the set.
    AnyMatch(TextPattern, Vec<TagId>, Vec<FileId>),
    /// Must match neither the text, nor a tag of the set, nor an id of the set.
    NotAnyMatch(TextPattern, Vec<TagId>, Vec<FileId>),
}

/// The text pattern of a term, if it has one.
pub open spec fn pattern_of(term: QueryTerm) -> Option<TextPattern> {
    match term {
        QueryTerm::NameMatches(pattern) => Some(pattern),
        QueryTerm::NotNameMatches(pattern) => Some(pattern),
        QueryTerm::LogicalMatches(pattern) => Some(pattern),
        QueryTerm::NotLogicalMatches(pattern) => Some(pattern),
        QueryTerm::AnyMatch(pattern, _, _) => Some(pattern),
        QueryTerm::NotAnyMatch(pattern, _, _) => Some(pattern),
        _ => None,
    }
}

/// What the text of a term says of a path or name; `false` where it has none.
pub open spec fn text_hit(term: QueryTerm, text: Seq<char>) -> bool {
    match pattern_of(term) {
        Some(pattern) => pattern_matches(pattern, text),
        None => false,
    }
}

/// Whether a term lets a file through, given whether the file is a member of the term's sets
/// and what the text says of its path; `hit` is `None` for a file that the listing lacks.
pub open spec fn file_passes(term: QueryTerm, member: bool, hit: Option<bool>) -> bool {
    match term {
        QueryTerm::HasTag(_) => member,
        QueryTerm::NotTag(_) => !member,
        QueryTerm::FileIdMatches(_) => member,
        QueryTerm::NotFileIdMatches(_) => !member,
        QueryTerm::NameMatches(_) | QueryTerm::LogicalMatches(_) => hit == Some(true),
        QueryTerm::NotNameMatches(_) | QueryTerm::NotLogicalMatches(_) => hit == Some(false),
        QueryTerm::AnyMatch(_, _, _) => hit is Some && (hit->Some_0 || member),
        QueryTerm::NotAnyMatch(_, _, _) => hit is Some && !(hit->Some_0 || member),
    }
}

/// Whether a term lets a tag through. The terms that speak of paths or file ids let none.
pub open spec fn tag_passes(term: QueryTerm, member: bool, hit: Option<bool>) -> bool {
    match term {
        QueryTerm::HasTag(_) => member,
        QueryTerm::NotTag(_) => !member,
        QueryTerm::FileIdMatches(_) | QueryTerm::NotFileIdMatches(_) => false,
        QueryTerm::LogicalMatches(_) | QueryTerm::NotLogicalMatches(_) => false,
        QueryTerm::NameMatches(_) => hit == Some(true),
        QueryTerm::NotNameMatches(_) => hit == Some(false),
        QueryTerm::AnyMatch(_, _, _) => hit is Some && (hit->Some_0 || member),
        QueryTerm::NotAnyMatch(_, _, _) => hit is Some && !(hit->Some_0 || member),
    }
}

/// Whether a term lets a file through.
pub fn admits_file(term: &QueryTerm, member: bool, hit: Option<bool>) -> (r: bool)
    ensures
        r == file_passes(*term, member, hit),
{
    match term {
        QueryTerm::HasTag(_) => member,
        QueryTerm::NotTag(_) => !member,
        QueryTerm::FileIdMatches(_) => member,
        QueryTerm::NotFileIdMatches(_) => !member,
        QueryTerm::NameMatches(_) | QueryTerm::LogicalMatches(_) => match hit {
            Some(hit) => hit,
            None => false,
        },
        QueryTerm::NotNameMatches(_) | QueryTerm::NotLogicalMatches(_) => match hit {
            Some(hit) => !hit,
            None => false,
        },
        QueryTerm::AnyMatch(_, _, _) => match hit {
            Some(hit) => hit || member,
            None => false,
        },
        QueryTerm::NotAnyMatch(_, _, _) => match hit {
            Some(hit) => !(hit || member),
            None => false,
        },
    }
}

/// Whether a term lets a tag through.
pub fn admits_tag(term: &QueryTerm, member: bool, hit: Option<bool>) -> (r: bool)
    ensures
        r == tag_passes(*term, member, hit),
{
    match term {
        QueryTerm::HasTag(_) => member,
        QueryTerm::NotTag(_) => !member,
        QueryTerm::FileIdMatches(_) | QueryTerm::NotFileIdMatches(_) => false,
        QueryTerm::LogicalMatches(_) | QueryTerm::NotLogicalMatches(_) => false,
        QueryTerm::NameMatches(_) => match hit {
            Some(hit) => hit,
            None => false,
        },
        QueryTerm::NotNameMatches(_) => match hit {
            Some(hit) => !hit,
            None => false,
        },
        QueryTerm::AnyMatch(_, _, _) => match hit {
            Some(hit) => hit || member,
            None => false,
        },
        QueryTerm::NotAnyMatch(_, _, _) => match hit {
            Some(hit) => !(hit || member),
            None => false,
        },
    }
}

/// The verdict of a term's text on a listed id, where `ids` and `hits` run alike; `None` where
/// the id is not listed.
pub open spec fn verdict(ids: Seq<u128>, hits: Seq<bool>, id: u128) -> Option<bool> {
    if ids.contains(id) {
        Some(hits[ids.index_of(id)])
    } else {
        None
    }
}

/// Some term asks for a tag.
pub open spec fn asks_for_tag(terms: Seq<QueryTerm>) -> bool {
    exists|t: int| 0 <= t < terms.len() && #[trigger] terms[t] is HasTag
}

impl CatalogView {
    /// The numbers of the files that a listing shows.
    pub open spec fn listed_numbers(self, rule: DeletedRule) -> Seq<u128> {
        self.listed(rule).map_values(|row: FileRowView| row.id.value)
    }

    /// The numbers of the tags that a listing shows.
    pub open spec fn listed_tag_numbers(self, rule: DeletedRule) -> Seq<u128> {
        self.listed_tags(rule).map_values(|row: TagRowView| row.id.value)
    }

    /// A file carries one of some tags.
    pub open spec fn carries_any(self, tags: Seq<TagId>, rule: SubtagRule, file: u128) -> bool {
        exists|i: int| 0 <= i < tags.len() && self.carries((#[trigger] tags[i]).value, rule, file)
    }

    /// A tag stands under one of some tags.
    pub open spec fn under_any(self, tags: Seq<TagId>, rule: SubtagRule, tag: u128) -> bool {
        exists|i: int| 0 <= i < tags.len() && self.is_subtag((#[trigger] tags[i]).value, rule, tag)
    }

    /// A file is a member of a term's sets.
    pub open spec fn file_member(self, term: QueryTerm, rule: SubtagRule, file: u128) -> bool {
        match term {
            QueryTerm::HasTag(tags) => self.carries_any(tags@, rule, file),
            QueryTerm::NotTag(tags) => self.carries_any(tags@, rule, file),
            QueryTerm::FileIdMatches(ids) => ids@.contains(FileId { value: file }),
            QueryTerm::NotFileIdMatches(ids) => ids@.contains(FileId { value: file }),
            QueryTerm::AnyMatch(_, tags, ids) => self.carries_any(tags@, rule, file)
                || ids@.contains(FileId { value: file }),
            QueryTerm::NotAnyMatch(_, tags, ids) => self.carries_any(tags@, rule, file)
                || ids@.contains(FileId { value: file }),
            _ => false,
        }
    }

    /// A tag is a member of a term's sets. For a bare token the tags of its set are members
    /// themselves, not only the tags under them; its file ids name no tag.
    pub open spec fn tag_member(self, term: QueryTerm, rule: SubtagRule, tag: u128) -> bool {
        match term {
            QueryTerm::HasTag(tags) => self.under_any(tags@, rule, tag),
            QueryTerm::NotTag(tags) => self.under_any(tags@, rule, tag),
            QueryTerm::AnyMatch(_, tags, _) => self.under_any(tags@, rule, tag) || tags@.contains(
                TagId { value: tag },
            ),
            QueryTerm::NotAnyMatch(_, tags, _) => self.under_any(tags@, rule, tag)
                || tags@.contains(TagId { value: tag }),
            _ => false,
        }
    }

    /// A file is selected, given the verdicts of every term's text on every listed file.
    ///
    /// Every term must let it through. Where no term asks for a tag the file must be listed;
    /// where one does, a tagged file is selected whether it is listed or not.
    pub open spec fn selects_file(
        self,
        terms: Seq<QueryTerm>,
        hits: Seq<Seq<bool>>,
        subtag_rule: SubtagRule,
        deleted_rule: DeletedRule,
        file: u128,
    ) -> bool {
        &&& asks_for_tag(terms) || self.listed_numbers(deleted_rule).contains(file)
        &&& forall|t: int|
            0 <= t < terms.len() ==> file_passes(
                #[trigger] terms[t],
                self.file_member(terms[t], subtag_rule, file),
                verdict(self.listed_numbers(deleted_rule), hits[t], file),
            )
    }

    /// A tag is selected, given the verdicts of every term's text on every listed tag.
    pub open spec fn selects_tag(
        self,
        terms: Seq<QueryTerm>,
        hits: Seq<Seq<bool>>,
        subtag_rule: SubtagRule,
        deleted_rule: DeletedRule,
        tag: u128,
    ) -> bool {
        &&& asks_for_tag(terms) || self.listed_tag_numbers(deleted_rule).contains(tag)
        &&& forall|t: int|
            0 <= t < terms.len() ==> tag_passes(
                #[trigger] terms[t],
                self.tag_member(terms[t], subtag_rule, tag),
                verdict(self.listed_tag_numbers(deleted_rule), hits[t], tag),
            )
    }

    /// The verdicts of every term's text on the paths of the listed files.
    pub open spec fn path_hits(self, terms: Seq<QueryTerm>, rule: DeletedRule) -> Seq<Seq<bool>> {
        terms.map_values(
            |term: QueryTerm|
                self.listed(rule).map_values(
                    |row: FileRowView| text_hit(term, row.logical_path),
                ),
        )
    }

    /// The verdicts of every term's text on the names of the listed tags.
    pub open spec fn name_hits(self, terms: Seq<QueryTerm>, rule: DeletedRule) -> Seq<Seq<bool>> {
        terms.map_values(
            |term: QueryTerm|
                self.listed_tags(rule).map_values(|row: TagRowView| text_hit(term, row.name)),
        )
    }
}

/// The model of a table of verdicts.
pub open spec fn hits_view(hits: Seq<Vec<bool>>) -> Seq<Seq<bool>> {
    hits.map_values(|row: Vec<bool>| row@)
}

/// The place of an id in a list.
fn place_of(ids: &Vec<u128>, id: u128) -> (r: Option<usize>)
    requires
        ids@.no_duplicates(),
    ensures
        match r {
            Some(i) => i < ids@.len() && ids@.contains(id) && ids@.index_of(id) == i,
            None => !ids@.contains(id),
        },
{
    let mut i: usize = 0;
    while i < ids.len()
        invariant
            i <= ids.len(),
            ids@.no_duplicates(),
            forall|j: int| 0 <= j < i ==> ids@[j] != id,
        decreases ids.len() - i,
    {
        if ids[i] == id {
            assert(ids@[i as int] == id);
            assert(ids@[ids@.index_of(id)] == id);
            return Some(i);
        }
        i = i + 1;
    }
    None
}

/// The verdicts of one pattern on some texts.
fn verdicts(pattern: Option<&TextPattern>, texts: &Vec<String>) -> (r: Vec<bool>)
    ensures
        r@.len() == texts@.len(),
        forall|k: int|
            0 <= k < r@.len() ==> r@[k] == match pattern {
                Some(pattern) => pattern_matches(*pattern, (#[trigger] texts@[k])@),
                None => false,
            },
{
    let mut hits: Vec<bool> = Vec::new();
    match pattern {
        Some(pattern) => {
            let compiled = pattern.compile();
            let mut k: usize = 0;
            while k < texts.len()
                invariant
                    k <= texts.len(),
                    hits@.len() == k,
                    forall|text: Seq<char>| #[trigger]
                        compiled.accepts(text, lowercase(text)) == pattern_matches(*pattern, text),
                    forall|m: int|
                        0 <= m < k ==> hits@[m] == pattern_matches(
                            *pattern,
                            (#[trigger] texts@[m])@,
                        ),
                decreases texts.len() - k,
            {
                let lowercased = to_lowercase(texts[k].as_str());
                hits.push(compiled.is_match(texts[k].as_str(), lowercased.as_str()));
                k = k + 1;
            }
        },
        None => {
            let mut k: usize = 0;
            while k < texts.len()
                invariant
                    k <= texts.len(),
                    hits@.len() == k,
                    forall|m: int| 0 <= m < k ==> !hits@[m],
                decreases texts.len() - k,
            {
                hits.push(false);
                k = k + 1;
            }
        },
    }
    hits
}

/// The text pattern of a term, if it has one.
fn term_pattern(term: &QueryTerm) -> (r: Option<&TextPattern>)
    ensures
        match r {
            Some(pattern) => pattern_of(*term) == Some(*pattern),
            None => pattern_of(*term) is None,
        },
{
    match term {
        QueryTerm::NameMatches(pattern) => Some(pattern),
        QueryTerm::NotNameMatches(pattern) => Some(pattern),
        QueryTerm::LogicalMatches(pattern) => Some(pattern),
        QueryTerm::NotLogicalMatches(pattern) => Some(pattern),
        QueryTerm::AnyMatch(pattern, _, _) => Some(pattern),
        QueryTerm::NotAnyMatch(pattern, _, _) => Some(pattern),
        _ => None,
    }
}

/// The verdicts of every term's text on some texts.
fn all_verdicts(terms: &Vec<QueryTerm>, texts: &Vec<String>) -> (r: Vec<Vec<bool>>)
    ensures
        r@.len() == terms@.len(),
        forall|t: int| 0 <= t < terms@.len() ==> (#[trigger] r@[t])@.len() == texts@.len(),
        forall|t: int, k: int|
            0 <= t < terms@.len() && 0 <= k < texts@.len() ==> #[trigger] r@[t]@[k] == text_hit(
                terms@[t],
                texts@[k]@,
            ),
{
    let mut hits: Vec<Vec<bool>> = Vec::new();
    let mut t: usize = 0;
    while t < terms.len()
        invariant
            t <= terms.len(),
            hits@.len() == t,
            forall|u: int| 0 <= u < t ==> (#[trigger] hits@[u])@.len() == texts@.len(),
            forall|u: int, k: int|
                0 <= u < t && 0 <= k < texts@.len() ==> #[trigger] hits@[u]@[k] == text_hit(
                    terms@[u],
                    texts@[k]@,
                ),
        decreases terms.len() - t,
    {
        let row = verdicts(term_pattern(&terms[t]), texts);
        assert forall|k: int| 0 <= k < texts@.len() implies row@[k] == text_hit(
            terms@[t as int],
            texts@[k]@,
        ) by {
            let text = texts@[k];
        }
        hits.push(row);
        t = t + 1;
    }
    hits
}

/// Whether some term asks for a tag, and the place of the first that does.
fn first_tag_term(terms: &Vec<QueryTerm>) -> (r: Option<usize>)
    ensures
        match r {
            Some(t) => t < terms@.len() && terms@[t as int] is HasTag && asks_for_tag(terms@),
            None => !asks_for_tag(terms@),
        },
{
    let mut t: usize = 0;
    while t < terms.len()
        invariant
            t <= terms.len(),
            forall|u: int| 0 <= u < t ==> !(#[trigger] terms@[u] is HasTag),
        decreases terms.len() - t,
    {
        if let QueryTerm::HasTag(_) = &terms[t] {
            assert(terms@[t as int] is HasTag);
            return Some(t);
        }
        t = t + 1;
    }
    None
}

proof fn lemma_listed_distinct(catalog: CatalogView, rule: DeletedRule)
    requires
        catalog.wf(),
    ensures
        catalog.listed_numbers(rule).no_duplicates(),
        catalog.listed_tag_numbers(rule).no_duplicates(),
{
    let p = |row: FileRowView| catalog.is_listed(row, rule);
    lemma_filter_pairs(catalog.files, p, |a: FileRowView, b: FileRowView| a.id != b.id);
    let q = |row: TagRowView| rule_admits(rule, row.deleted);
    lemma_filter_pairs(catalog.tags, q, |a: TagRowView, b: TagRowView| a.id != b.id);
    let files = catalog.files.filter(p);
    assert forall|i: int, j: int|
        0 <= i < files.len() && 0 <= j < files.len() && i != j implies files[i].id != files[j].id by {
        if i < j {
            assert(files[i].id != files[j].id);
        } else {
            assert(files[j].id != files[i].id);
        }
    }
    let tags = catalog.tags.filter(q);
    assert forall|i: int, j: int|
        0 <= i < tags.len() && 0 <= j < tags.len() && i != j implies tags[i].id != tags[j].id by {
        if i < j {
            assert(tags[i].id != tags[j].id);
        } else {
            assert(tags[j].id != tags[i].id);
        }
    }
}

/// The members of an ascending list of which a test holds, still ascending.
fn ascending_of(ids: &Vec<u128>) -> (r: Vec<u128>)
    ensures
        ascending(r@),
        forall|n: u128| #[trigger] r@.contains(n) <==> ids@.contains(n),
{
    let mut r: Vec<u128> = Vec::new();
    let mut i: usize = 0;
    while i < ids.len()
        invariant
            i <= ids.len(),
            ascending(r@),
            forall|n: u128| #[trigger]
                r@.contains(n) <==> exists|k: int| 0 <= k < i && #[trigger] ids@[k] == n,
        decreases ids.len() - i,
    {
        let ghost before = r@;
        insert_sorted(&mut r, ids[i]);
        assert forall|n: u128| #[trigger]
            r@.contains(n) <==> exists|k: int| 0 <= k < i + 1 && #[trigger] ids@[k] == n by {
            if r@.contains(n) && !before.contains(n) {
                assert(ids@[i as int] == n);
            }
        }
        i = i + 1;
    }
    r
}

/// Adds every number of one list to an ascending list.
fn merge_into(into: &mut Vec<u128>, more: &Vec<u128>)
    requires
        ascending(old(into)@),
    ensures
        ascending(final(into)@),
        forall|n: u128| #[trigger]
            final(into)@.contains(n) <==> old(into)@.contains(n) || more@.contains(n),
{
    let ghost start = into@;
    let mut i: usize = 0;
    while i < more.len()
        invariant
            i <= more.len(),
            ascending(into@),
            forall|n: u128| #[trigger]
                into@.contains(n) <==> start.contains(n) || exists|k: int|
                    0 <= k < i && #[trigger] more@[k] == n,
        decreases more.len() - i,
    {
        let ghost before = into@;
        insert_sorted(into, more[i]);
        assert forall|n: u128| #[trigger]
            into@.contains(n) <==> start.contains(n) || exists|k: int|
                0 <= k < i + 1 && #[trigger] more@[k] == n by {
            if into@.contains(n) && !before.contains(n) {
                assert(more@[i as int] == n);
            }
        }
        i = i + 1;
    }
}

impl CatalogStore {
    /// The files that carry one of some tags.
    fn files_of_any(&self, tags: &Vec<TagId>, subtag_rule: SubtagRule) -> (r: Vec<u128>)
        ensures
            ascending(r@),
            forall|file: u128| #[trigger]
                r@.contains(file) <==> self@.carries_any(tags@, subtag_rule, file),
    {
        let mut union: Vec<u128> = Vec::new();
        let mut i: usize = 0;
        while i < tags.len()
            invariant
                i <= tags.len(),
                ascending(union@),
                forall|file: u128| #[trigger]
                    union@.contains(file) <==> exists|k: int|
                        0 <= k < i && self@.carries((#[trigger] tags@[k]).value, subtag_rule, file),
            decreases tags.len() - i,
        {
            let files = self.file_numbers_for_tag(tags[i].value, subtag_rule);
            let ghost before = union@;
            merge_into(&mut union, &files);
            assert forall|file: u128| #[trigger]
                union@.contains(file) <==> exists|k: int|
                    0 <= k < i + 1 && self@.carries((#[trigger] tags@[k]).value, subtag_rule, file) by {
                if union@.contains(file) && !before.contains(file) {
                    assert(files@.contains(file));
                    assert(self@.carries(tags@[i as int].value, subtag_rule, file));
                }
                if self@.carries(tags@[i as int].value, subtag_rule, file) {
                    assert(files@.contains(file));
                }
            }
            i = i + 1;
        }
        union
    }

    /// The tags that stand under one of some tags.
    fn subtags_of_any(&self, tags: &Vec<TagId>, subtag_rule: SubtagRule) -> (r: Vec<u128>)
        ensures
            ascending(r@),
            forall|tag: u128| #[trigger]
                r@.contains(tag) <==> self@.under_any(tags@, subtag_rule, tag),
    {
        let mut union: Vec<u128> = Vec::new();
        let mut i: usize = 0;
        while i < tags.len()
            invariant
                i <= tags.len(),
                ascending(union@),
                forall|tag: u128| #[trigger]
                    union@.contains(tag) <==> exists|k: int|
                        0 <= k < i && self@.is_subtag((#[trigger] tags@[k]).value, subtag_rule, tag),
            decreases tags.len() - i,
        {
            let subtags = self.subtag_numbers(tags[i].value, subtag_rule);
            let ghost before = union@;
            merge_into(&mut union, &subtags);
            assert forall|tag: u128| #[trigger]
                union@.contains(tag) <==> exists|k: int|
                    0 <= k < i + 1 && self@.is_subtag((#[trigger] tags@[k]).value, subtag_rule, tag) by {
                if union@.contains(tag) && !before.contains(tag) {
                    assert(subtags@.contains(tag));
                    assert(self@.is_subtag(tags@[i as int].value, subtag_rule, tag));
                }
                if self@.is_subtag(tags@[i as int].value, subtag_rule, tag) {
                    assert(subtags@.contains(tag));
                }
            }
            i = i + 1;
        }
        union
    }

    /// The numbers of some file ids, merged into an ascending list.
    fn merge_file_ids(into: &mut Vec<u128>, ids: &Vec<FileId>)
        requires
            ascending(old(into)@),
        ensures
            ascending(final(into)@),
            forall|n: u128| #[trigger]
                final(into)@.contains(n) <==> old(into)@.contains(n) || ids@.contains(
                    FileId { value: n },
                ),
    {
        let ghost start = into@;
        let mut i: usize = 0;
        while i < ids.len()
            invariant
                i <= ids.len(),
                ascending(into@),
                forall|n: u128| #[trigger]
                    into@.contains(n) <==> start.contains(n) || exists|k: int|
                        0 <= k < i && (#[trigger] ids@[k]).value == n,
            decreases ids.len() - i,
        {
            let ghost before = into@;
            insert_sorted(into, ids[i].value);
            assert forall|n: u128| #[trigger]
                into@.contains(n) <==> start.contains(n) || exists|k: int|
                    0 <= k < i + 1 && (#[trigger] ids@[k]).value == n by {
                if into@.contains(n) && !before.contains(n) {
                    assert(ids@[i as int].value == n);
                }
            }
            i = i + 1;
        }
        assert forall|n: u128| #[trigger]
            into@.contains(n) <==> start.contains(n) || ids@.contains(FileId { value: n }) by {
            if exists|k: int| 0 <= k < i && (#[trigger] ids@[k]).value == n {
                let k = choose|k: int| 0 <= k < i && (#[trigger] ids@[k]).value == n;
                assert(ids@[k] == FileId { value: n });
            }
        }
    }

    /// The numbers of some tag ids, merged into an ascending list.
    fn merge_tag_ids(into: &mut Vec<u128>, ids: &Vec<TagId>)
        requires
            ascending(old(into)@),
        ensures
            ascending(final(into)@),
            forall|n: u128| #[trigger]
                final(into)@.contains(n) <==> old(into)@.contains(n) || ids@.contains(
                    TagId { value: n },
                ),
    {
        let ghost start = into@;
        let mut i: usize = 0;
        while i < ids.len()
            invariant
                i <= ids.len(),
                ascending(into@),
                forall|n: u128| #[trigger]
                    into@.contains(n) <==> start.contains(n) || exists|k: int|
                        0 <= k < i && (#[trigger] ids@[k]).value == n,
            decreases ids.len() - i,
        {
            let ghost before = into@;
            insert_sorted(into, ids[i].value);
            assert forall|n: u128| #[trigger]
                into@.contains(n) <==> start.contains(n) || exists|k: int|
                    0 <= k < i + 1 && (#[trigger] ids@[k]).value == n by {
                if into@.contains(n) && !before.contains(n) {
                    assert(ids@[i as int].value == n);
                }
            }
            i = i + 1;
        }
        assert forall|n: u128| #[trigger]
            into@.contains(n) <==> start.contains(n) || ids@.contains(TagId { value: n }) by {
            if exists|k: int| 0 <= k < i && (#[trigger] ids@[k]).value == n {
                let k = choose|k: int| 0 <= k < i && (#[trigger] ids@[k]).value == n;
                assert(ids@[k] == TagId { value: n });
            }
        }
    }

    /// The file members of a term's sets.
    fn file_members(&self, term: &QueryTerm, subtag_rule: SubtagRule) -> (r: Vec<u128>)
        ensures
            ascending(r@),
            forall|file: u128| #[trigger]
                r@.contains(file) <==> self@.file_member(*term, subtag_rule, file),
    {
        match term {
            QueryTerm::HasTag(tags) | QueryTerm::NotTag(tags) => self.files_of_any(
                tags,
                subtag_rule,
            ),
            QueryTerm::FileIdMatches(ids) | QueryTerm::NotFileIdMatches(ids) => {
                let mut members: Vec<u128> = Vec::new();
                Self::merge_file_ids(&mut members, ids);
                members
            },
            QueryTerm::AnyMatch(_, tags, ids) | QueryTerm::NotAnyMatch(_, tags, ids) => {
                let mut members = self.files_of_any(tags, subtag_rule);
                Self::merge_file_ids(&mut members, ids);
                members
            },
            _ => Vec::new(),
        }
    }

    /// The tag members of a term's sets.
    fn tag_members(&self, term: &QueryTerm, subtag_rule: SubtagRule) -> (r: Vec<u128>)
        ensures
            ascending(r@),
            forall|tag: u128| #[trigger]
                r@.contains(tag) <==> self@.tag_member(*term, subtag_rule, tag),
    {
        match term {
            QueryTerm::HasTag(tags) | QueryTerm::NotTag(tags) => self.subtags_of_any(
                tags,
                subtag_rule,
            ),
            QueryTerm::AnyMatch(_, tags, _) | QueryTerm::NotAnyMatch(_, tags, _) => {
                let mut members = self.subtags_of_any(tags, subtag_rule);
                Self::merge_tag_ids(&mut members, tags);
                members
            },
            _ => Vec::new(),
        }
    }

    /// The numbers and paths of the files that a listing shows.
    fn listed_paths(&self, deleted_rule: DeletedRule) -> (r: (Vec<u128>, Vec<String>))
        ensures
            r.0@ == self@.listed_numbers(deleted_rule),
            r.1@.len() == r.0@.len(),
            forall|k: int|
                0 <= k < r.1@.len() ==> (#[trigger] r.1@[k])@ == self@.listed(
                    deleted_rule,
                )[k].logical_path,
    {
        let ghost p = |row: FileRowView| self@.is_listed(row, deleted_rule);
        let mut ids: Vec<u128> = Vec::new();
        let mut paths: Vec<String> = Vec::new();
        let mut i: usize = 0;
        proof {
            lemma_filter_none(self@.files.take(0), p);
        }
        while i < self.rows.files.len()
            invariant
                i <= self.rows.files.len(),
                p == (|row: FileRowView| self@.is_listed(row, deleted_rule)),
                ids@.len() == self@.files.take(i as int).filter(p).len(),
                paths@.len() == ids@.len(),
                forall|k: int|
                    0 <= k < ids@.len() ==> ids@[k] == self@.files.take(i as int).filter(
                        p,
                    )[k].id.value,
                forall|k: int|
                    0 <= k < paths@.len() ==> (#[trigger] paths@[k])@ == self@.files.take(
                        i as int,
                    ).filter(p)[k].logical_path,
            decreases self.rows.files.len() - i,
        {
            let row = &self.rows.files[i];
            proof {
                assert(self@.files[i as int] == row@);
                lemma_filter_take(self@.files, i as int, p);
            }
            if admits(deleted_rule, row.deleted) && self.latest_index(row.id).is_some() {
                ids.push(row.id.value);
                paths.push(row.logical_path.text.clone());
            }
            i = i + 1;
        }
        assert(self@.files.take(i as int) =~= self@.files);
        assert(ids@ =~= self@.listed_numbers(deleted_rule));
        (ids, paths)
    }

    /// The numbers and names of the tags that a listing shows.
    fn listed_names(&self, deleted_rule: DeletedRule) -> (r: (Vec<u128>, Vec<String>))
        ensures
            r.0@ == self@.listed_tag_numbers(deleted_rule),
            r.1@.len() == r.0@.len(),
            forall|k: int|
                0 <= k < r.1@.len() ==> (#[trigger] r.1@[k])@ == self@.listed_tags(
                    deleted_rule,
                )[k].name,
    {
        let ghost p = |row: TagRowView| rule_admits(deleted_rule, row.deleted);
        let mut ids: Vec<u128> = Vec::new();
        let mut names: Vec<String> = Vec::new();
        let mut i: usize = 0;
        proof {
            lemma_filter_none(self@.tags.take(0), p);
        }
        while i < self.rows.tags.len()
            invariant
                i <= self.rows.tags.len(),
                p == (|row: TagRowView| rule_admits(deleted_rule, row.deleted)),
                ids@.len() == self@.tags.take(i as int).filter(p).len(),
                names@.len() == ids@.len(),
                forall|k: int|
                    0 <= k < ids@.len() ==> ids@[k] == self@.tags.take(i as int).filter(
                        p,
                    )[k].id.value,
                forall|k: int|
                    0 <= k < names@.len() ==> (#[trigger] names@[k])@ == self@.tags.take(
                        i as int,
                    ).filter(p)[k].name,
            decreases self.rows.tags.len() - i,
        {
            let row = &self.rows.tags[i];
            proof {
                assert(self@.tags[i as int] == row@);
                lemma_filter_take(self@.tags, i as int, p);
            }
            if admits(deleted_rule, row.deleted) {
                ids.push(row.id.value);
                names.push(row.name.clone());
            }
            i = i + 1;
        }
        assert(self@.tags.take(i as int) =~= self@.tags);
        assert(ids@ =~= self@.listed_tag_numbers(deleted_rule));
        (ids, names)
    }

    /// The files that a query selects, given the verdicts of every term's text on every listed
    /// file, in ascending order of id.
    pub fn select_files(
        &self,
        terms: &Vec<QueryTerm>,
        hits: &Vec<Vec<bool>>,
        subtag_rule: SubtagRule,
        deleted_rule: DeletedRule,
    ) -> (r: Vec<FileId>)
        requires
            self.wf(),
            hits@.len() == terms@.len(),
            forall|t: int|
                0 <= t < terms@.len() ==> (#[trigger] hits@[t])@.len() == self@.listed(
                    deleted_rule,
                ).len(),
        ensures
            lists_files(
                r@,
                |file: u128|
                    self@.selects_file(
                        terms@,
                        hits_view(hits@),
                        subtag_rule,
                        deleted_rule,
                        file,
                    ),
            ),
    {
        let (ids, _paths) = self.listed_paths(deleted_rule);
        proof {
            lemma_listed_distinct(self@, deleted_rule);
        }
        let mut members: Vec<Vec<u128>> = Vec::new();
        let mut t: usize = 0;
        while t < terms.len()
            invariant
                t <= terms.len(),
                members@.len() == t,
                forall|u: int, file: u128|
                    0 <= u < t ==> (#[trigger] members@[u]@.contains(file) <==> self@.file_member(
                        terms@[u],
                        subtag_rule,
                        file,
                    )),
            decreases terms.len() - t,
        {
            members.push(self.file_members(&terms[t], subtag_rule));
            t = t + 1;
        }
        let first = first_tag_term(terms);
        let candidates = match first {
            Some(t) => self.file_members(&terms[t], subtag_rule),
            None => ascending_of(&ids),
        };
        assert forall|k: int| 0 <= k < candidates@.len() implies asks_for_tag(terms@)
            || ids@.contains(#[trigger] candidates@[k]) by {
            assert(candidates@.contains(candidates@[k]));
        }
        let ghost selected = |file: u128|
            self@.selects_file(terms@, hits_view(hits@), subtag_rule, deleted_rule, file);
        let mut kept: Vec<u128> = Vec::new();
        let mut i: usize = 0;
        while i < candidates.len()
            invariant
                i <= candidates.len(),
                ids@ == self@.listed_numbers(deleted_rule),
                ids@.no_duplicates(),
                hits@.len() == terms@.len(),
                members@.len() == terms@.len(),
                forall|t: int|
                    0 <= t < terms@.len() ==> (#[trigger] hits@[t])@.len() == ids@.len(),
                forall|u: int, file: u128|
                    0 <= u < terms@.len() ==> (#[trigger] members@[u]@.contains(file)
                        <==> self@.file_member(terms@[u], subtag_rule, file)),
                forall|k: int|
                    0 <= k < candidates@.len() ==> asks_for_tag(terms@) || ids@.contains(
                        #[trigger] candidates@[k],
                    ),
                selected == (|file: u128|
                    self@.selects_file(
                        terms@,
                        hits_view(hits@),
                        subtag_rule,
                        deleted_rule,
                        file,
                    )),
                ascending(candidates@),
                ascending(kept@),
                forall|k: int| 0 <= k < kept@.len() ==> selected(#[trigger] kept@[k]),
                forall|k: int|
                    0 <= k < i && selected(#[trigger] candidates@[k]) ==> kept@.contains(
                        candidates@[k],
                    ),
            decreases candidates.len() - i,
        {
            let file: u128 = candidates[i];
            let place = place_of(&ids, file);
            let mut passes = true;
            let mut t: usize = 0;
            while t < terms.len()
                invariant
                    t <= terms.len(),
                    ids@ == self@.listed_numbers(deleted_rule),
                    hits@.len() == terms@.len(),
                    members@.len() == terms@.len(),
                    forall|t: int|
                        0 <= t < terms@.len() ==> (#[trigger] hits@[t])@.len() == ids@.len(),
                    forall|u: int, file: u128|
                        0 <= u < terms@.len() ==> (#[trigger] members@[u]@.contains(file)
                            <==> self@.file_member(terms@[u], subtag_rule, file)),
                    match place {
                        Some(i) => i < ids@.len() && ids@.contains(file) && ids@.index_of(file)
                            == i,
                        None => !ids@.contains(file),
                    },
                    passes == forall|u: int|
                        0 <= u < t ==> file_passes(
                            #[trigger] terms@[u],
                            self@.file_member(terms@[u], subtag_rule, file),
                            verdict(ids@, hits_view(hits@)[u], file),
                        ),
                decreases terms.len() - t,
            {
                let hit: Option<bool> = match place {
                    Some(k) => Some(hits[t][k]),
                    None => None,
                };
                let member = holds(&members[t], file);
                assert(hit == verdict(ids@, hits_view(hits@)[t as int], file));
                if !admits_file(&terms[t], member, hit) {
                    assert(!file_passes(
                        terms@[t as int],
                        self@.file_member(terms@[t as int], subtag_rule, file),
                        verdict(ids@, hits_view(hits@)[t as int], file),
                    ));
                    passes = false;
                }
                t = t + 1;
            }
            let ghost before = kept@;
            if passes {
                assert(selected(file));
                insert_sorted(&mut kept, file);
            }
            proof {
                assert forall|k: int| 0 <= k < kept@.len() implies selected(
                    #[trigger] kept@[k],
                ) by {
                    assert(kept@.contains(kept@[k]));
                    if before.contains(kept@[k]) {
                        let m = choose|m: int| 0 <= m < before.len() && before[m] == kept@[k];
                        assert(selected(before[m]));
                    }
                }
                assert forall|k: int| 0 <= k < i + 1 && selected(#[trigger] candidates@[k]) implies
                    kept@.contains(candidates@[k]) by {
                    if k < i {
                        assert(before.contains(candidates@[k]));
                        assert(kept@.contains(candidates@[k]));
                    } else {
                        assert(passes);
                    }
                }
            }
            i = i + 1;
        }
        proof {
            assert forall|file: u128| #[trigger] kept@.contains(file) <==> selected(file) by {
                if kept@.contains(file) {
                    let k = choose|k: int| 0 <= k < kept@.len() && kept@[k] == file;
                    assert(selected(kept@[k]));
                }
                if selected(file) {
                    match first {
                        Some(t) => {
                            assert(file_passes(
                                terms@[t as int],
                                self@.file_member(terms@[t as int], subtag_rule, file),
                                verdict(
                                    self@.listed_numbers(deleted_rule),
                                    hits_view(hits@)[t as int],
                                    file,
                                ),
                            ));
                            assert(candidates@.contains(file));
                        },
                        None => {
                            assert(ids@.contains(file));
                            assert(candidates@.contains(file));
                        },
                    }
                    let k = choose|k: int| 0 <= k < candidates@.len() && candidates@[k] == file;
                    assert(kept@.contains(candidates@[k]));
                }
            }
        }
        listed_file_ids(&kept, Ghost(selected))
    }

    /// The tags that a query selects, given the verdicts of every term's text on every listed
    /// tag, in ascending order of id.
    pub fn select_tags(
        &self,
        terms: &Vec<QueryTerm>,
        hits: &Vec<Vec<bool>>,
        subtag_rule: SubtagRule,
        deleted_rule: DeletedRule,
    ) -> (r: Vec<TagId>)
        requires
            self.wf(),
            hits@.len() == terms@.len(),
            forall|t: int|
                0 <= t < terms@.len() ==> (#[trigger] hits@[t])@.len() == self@.listed_tags(
                    deleted_rule,
                ).len(),
        ensures
            lists_tags(
                r@,
                |tag: u128|
                    self@.selects_tag(terms@, hits_view(hits@), subtag_rule, deleted_rule, tag),
            ),
    {
        let (ids, _names) = self.listed_names(deleted_rule);
        proof {
            lemma_listed_distinct(self@, deleted_rule);
        }
        let mut members: Vec<Vec<u128>> = Vec::new();
        let mut t: usize = 0;
        while t < terms.len()
            invariant
                t <= terms.len(),
                members@.len() == t,
                forall|u: int, tag: u128|
                    0 <= u < t ==> (#[trigger] members@[u]@.contains(tag) <==> self@.tag_member(
                        terms@[u],
                        subtag_rule,
                        tag,
                    )),
            decreases terms.len() - t,
        {
            members.push(self.tag_members(&terms[t], subtag_rule));
            t = t + 1;
        }
        let first = first_tag_term(terms);
        let candidates = match first {
            Some(t) => self.tag_members(&terms[t], subtag_rule),
            None => ascending_of(&ids),
        };
        assert forall|k: int| 0 <= k < candidates@.len() implies asks_for_tag(terms@)
            || ids@.contains(#[trigger] candidates@[k]) by {
            assert(candidates@.contains(candidates@[k]));
        }
        let ghost selected = |tag: u128|
            self@.selects_tag(terms@, hits_view(hits@), subtag_rule, deleted_rule, tag);
        let mut kept: Vec<u128> = Vec::new();
        let mut i: usize = 0;
        while i < candidates.len()
            invariant
                i <= candidates.len(),
                ids@ == self@.listed_tag_numbers(deleted_rule),
                ids@.no_duplicates(),
                hits@.len() == terms@.len(),
                members@.len() == terms@.len(),
                forall|t: int|
                    0 <= t < terms@.len() ==> (#[trigger] hits@[t])@.len() == ids@.len(),
                forall|u: int, tag: u128|
                    0 <= u < terms@.len() ==> (#[trigger] members@[u]@.contains(tag)
                        <==> self@.tag_member(terms@[u], subtag_rule, tag)),
                forall|k: int|
                    0 <= k < candidates@.len() ==> asks_for_tag(terms@) || ids@.contains(
                        #[trigger] candidates@[k],
                    ),
                selected == (|tag: u128|
                    self@.selects_tag(terms@, hits_view(hits@), subtag_rule, deleted_rule, tag)),
                ascending(candidates@),
                ascending(kept@),
                forall|k: int| 0 <= k < kept@.len() ==> selected(#[trigger] kept@[k]),
                forall|k: int|
                    0 <= k < i && selected(#[trigger] candidates@[k]) ==> kept@.contains(
                        candidates@[k],
                    ),
            decreases candidates.len() - i,
        {
            let tag: u128 = candidates[i];
            let place = place_of(&ids, tag);
            let mut passes = true;
            let mut t: usize = 0;
            while t < terms.len()
                invariant
                    t <= terms.len(),
                    ids@ == self@.listed_tag_numbers(deleted_rule),
                    hits@.len() == terms@.len(),
                    members@.len() == terms@.len(),
                    forall|t: int|
                        0 <= t < terms@.len() ==> (#[trigger] hits@[t])@.len() == ids@.len(),
                    forall|u: int, tag: u128|
                        0 <= u < terms@.len() ==> (#[trigger] members@[u]@.contains(tag)
                            <==> self@.tag_member(terms@[u], subtag_rule, tag)),
                    match place {
                        Some(i) => i < ids@.len() && ids@.contains(tag) && ids@.index_of(tag) == i,
                        None => !ids@.contains(tag),
                    },
                    passes == forall|u: int|
                        0 <= u < t ==> tag_passes(
                            #[trigger] terms@[u],
                            self@.tag_member(terms@[u], subtag_rule, tag),
                            verdict(ids@, hits_view(hits@)[u], tag),
                        ),
                decreases terms.len() - t,
            {
                let hit: Option<bool> = match place {
                    Some(k) => Some(hits[t][k]),
                    None => None,
                };
                let member = holds(&members[t], tag);
                assert(hit == verdict(ids@, hits_view(hits@)[t as int], tag));
                if !admits_tag(&terms[t], member, hit) {
                    assert(!tag_passes(
                        terms@[t as int],
                        self@.tag_member(terms@[t as int], subtag_rule, tag),
                        verdict(ids@, hits_view(hits@)[t as int], tag),
                    ));
                    passes = false;
                }
                t = t + 1;
            }
            let ghost before = kept@;
            if passes {
                assert(selected(tag));
                insert_sorted(&mut kept, tag);
            }
            proof {
                assert forall|k: int| 0 <= k < kept@.len() implies selected(
                    #[trigger] kept@[k],
                ) by {
                    assert(kept@.contains(kept@[k]));
                    if before.contains(kept@[k]) {
                        let m = choose|m: int| 0 <= m < before.len() && before[m] == kept@[k];
                        assert(selected(before[m]));
                    }
                }
                assert forall|k: int| 0 <= k < i + 1 && selected(#[trigger] candidates@[k]) implies
                    kept@.contains(candidates@[k]) by {
                    if k < i {
                        assert(before.contains(candidates@[k]));
                        assert(kept@.contains(candidates@[k]));
                    } else {
                        assert(passes);
                    }
                }
            }
            i = i + 1;
        }
        proof {
            assert forall|tag: u128| #[trigger] kept@.contains(tag) <==> selected(tag) by {
                if kept@.contains(tag) {
                    let k = choose|k: int| 0 <= k < kept@.len() && kept@[k] == tag;
                    assert(selected(kept@[k]));
                }
                if selected(tag) {
                    match first {
                        Some(t) => {
                            assert(tag_passes(
                                terms@[t as int],
                                self@.tag_member(terms@[t as int], subtag_rule, tag),
                                verdict(
                                    self@.listed_tag_numbers(deleted_rule),
                                    hits_view(hits@)[t as int],
                                    tag,
                                ),
                            ));
                            assert(candidates@.contains(tag));
                        },
                        None => {
                            assert(ids@.contains(tag));
                            assert(candidates@.contains(tag));
                        },
                    }
                    let k = choose|k: int| 0 <= k < candidates@.len() && candidates@[k] == tag;
                    assert(kept@.contains(candidates@[k]));
                }
            }
        }
        listed_tag_ids(&kept, Ghost(selected))
    }

    /// Searches files by a conjunction of terms, in ascending order of id.
    ///
    /// Without a term that asks for a tag, the files that a listing under `deleted_rule` shows
    /// are searched; with one, every file that carries a matching tag, listed or not. A term
    /// with a text matches listed files only. An empty list of terms matches every listed file.
    pub fn file_ids_for_query(
        &self,
        terms: &Vec<QueryTerm>,
        subtag_rule: SubtagRule,
        deleted_rule: DeletedRule,
    ) -> (r: Result<Vec<FileId>, DatabaseError>)
        requires
            self.wf(),
        ensures
            r matches Ok(ids) && lists_files(
                ids@,
                |file: u128|
                    self@.selects_file(
                        terms@,
                        self@.path_hits(terms@, deleted_rule),
                        subtag_rule,
                        deleted_rule,
                        file,
                    ),
            ),
    {
        let (_ids, paths) = self.listed_paths(deleted_rule);
        let hits = all_verdicts(terms, &paths);
        proof {
            let model = self@.path_hits(terms@, deleted_rule);
            assert forall|t: int| 0 <= t < terms@.len() implies hits_view(hits@)[t]
                =~= #[trigger] model[t] by {
                assert forall|k: int| 0 <= k < paths@.len() implies hits@[t]@[k]
                    == model[t][k] by {
                    assert(paths@[k]@ == self@.listed(deleted_rule)[k].logical_path);
                    assert(hits@[t]@[k] == text_hit(terms@[t], paths@[k]@));
                }
            }
            assert(hits_view(hits@) =~= model);
        }
        Ok(self.select_files(terms, &hits, subtag_rule, deleted_rule))
    }

    /// Searches tags by the same terms, in ascending order of id.
    ///
    /// A tag "carries" the tags that it stands under. Terms that speak of paths or file ids
    /// match no tag. An empty list of terms matches every listed tag.
    pub fn tag_ids_for_query(
        &self,
        terms: &Vec<QueryTerm>,
        subtag_rule: SubtagRule,
        deleted_rule: DeletedRule,
    ) -> (r: Result<Vec<TagId>, DatabaseError>)
        requires
            self.wf(),
        ensures
            r matches Ok(ids) && lists_tags(
                ids@,
                |tag: u128|
                    self@.selects_tag(
                        terms@,
                        self@.name_hits(terms@, deleted_rule),
                        subtag_rule,
                        deleted_rule,
                        tag,
                    ),
            ),
    {
        let (_ids, names) = self.listed_names(deleted_rule);
        let hits = all_verdicts(terms, &names);
        proof {
            let model = self@.name_hits(terms@, deleted_rule);
            assert forall|t: int| 0 <= t < terms@.len() implies hits_view(hits@)[t]
                =~= #[trigger] model[t] by {
                assert forall|k: int| 0 <= k < names@.len() implies hits@[t]@[k]
                    == model[t][k] by {
                    assert(names@[k]@ == self@.listed_tags(deleted_rule)[k].name);
                    assert(hits@[t]@[k] == text_hit(terms@[t], names@[k]@));
                }
            }
            assert(hits_view(hits@) =~= model);
        }
        Ok(self.select_tags(terms, &hits, subtag_rule, deleted_rule))
    }
}

} // verus!
