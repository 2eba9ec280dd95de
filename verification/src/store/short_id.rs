//! Short ids: the shortest unique prefix of an id, shown in listings so that a user knows the
//! fewest characters that identify a file or tag at that moment.

use vstd::prelude::*;

use crate::ids::{id_text, lemma_id_round_trip, lemma_id_text_injective, FileId, TagId};
use crate::store::types::{CatalogView, DatabaseError, FileRowView, TagRowView};
use crate::store::CatalogStore;
use crate::text::{
    all_hex, all_hex_chars, ascii_lower_chars, ascii_lowercase, chars_of, string_of,
};

verus! {

broadcast use vstd::string::group_string_axioms;

/// Number of leading characters that two texts share.
pub open spec fn common_prefix(a: Seq<char>, b: Seq<char>) -> nat
    decreases a.len(),
{
    if a.len() > 0 && b.len() > 0 && a[0] == b[0] {
        1 + common_prefix(a.drop_first(), b.drop_first())
    } else {
        0
    }
}

/// The first `length` characters of an id are shared by no other id of the list.
pub open spec fn separates(ids: Seq<u128>, id: u128, length: nat) -> bool {
    forall|k: int|
        0 <= k < ids.len() && #[trigger] ids[k] != id ==> id_text(ids[k]).take(length as int)
            != id_text(id).take(length as int)
}

/// `length` is the least number of leading characters, at least one, that separates `id`
/// from every other id of the list.
pub open spec fn is_short_length(ids: Seq<u128>, id: u128, length: nat) -> bool {
    &&& 1 <= length <= 32
    &&& separates(ids, id, length)
    &&& forall|shorter: nat| 1 <= shorter < length ==> !#[trigger] separates(ids, id, shorter)
}

/// Two texts agree on a prefix exactly up to the number of characters that they share.
pub proof fn lemma_common_prefix(a: Seq<char>, b: Seq<char>, length: nat)
    requires
        length <= a.len(),
        length <= b.len(),
    ensures
        common_prefix(a, b) <= a.len(),
        common_prefix(a, b) <= b.len(),
        (a.take(length as int) == b.take(length as int)) == (length <= common_prefix(a, b)),
    decreases a.len(),
{
    if a.len() > 0 && b.len() > 0 && a[0] == b[0] {
        if length == 0 {
            lemma_common_prefix(a.drop_first(), b.drop_first(), 0);
            assert(a.take(0) =~= b.take(0));
        } else {
            let n = (length - 1) as nat;
            lemma_common_prefix(a.drop_first(), b.drop_first(), n);
            let x = a.take(length as int);
            let y = b.take(length as int);
            assert(x.drop_first() =~= a.drop_first().take(n as int));
            assert(y.drop_first() =~= b.drop_first().take(n as int));
            if a.drop_first().take(n as int) == b.drop_first().take(n as int) {
                assert forall|i: int| 0 <= i < length implies x[i] == y[i] by {
                    if i > 0 {
                        assert(x.drop_first()[i - 1] == y.drop_first()[i - 1]);
                    }
                }
                assert(x =~= y);
            } else if x == y {
                assert(x.drop_first() == y.drop_first());
            }
        }
    } else {
        if length > 0 {
            if a.take(length as int) == b.take(length as int) {
                assert(a.take(length as int)[0] == a[0]);
                assert(b.take(length as int)[0] == b[0]);
            }
        } else {
            assert(a.take(0) =~= b.take(0));
        }
    }
}

/// Two different ids share fewer characters than they have.
pub proof fn lemma_ids_part(a: u128, b: u128)
    requires
        a != b,
    ensures
        common_prefix(id_text(a), id_text(b)) < 32,
{
    lemma_id_round_trip(a);
    lemma_id_round_trip(b);
    lemma_common_prefix(id_text(a), id_text(b), 32);
    assert(id_text(a).take(32) =~= id_text(a));
    assert(id_text(b).take(32) =~= id_text(b));
    if common_prefix(id_text(a), id_text(b)) >= 32 {
        lemma_id_text_injective(a, b);
    }
}

/// Number of leading characters that two texts share.
pub fn common_prefix_length(a: &str, b: &str) -> (r: usize)
    ensures
        r == common_prefix(a@, b@),
{
    let x = chars_of(a);
    let y = chars_of(b);
    let mut i: usize = 0;
    assert(x@.skip(0) =~= x@);
    assert(y@.skip(0) =~= y@);
    while i < x.len() && i < y.len() && x[i] == y[i]
        invariant
            i <= x.len(),
            i <= y.len(),
            common_prefix(a@, b@) == i + common_prefix(x@.skip(i as int), y@.skip(i as int)),
        decreases x.len() - i,
    {
        assert(x@.skip(i as int).drop_first() =~= x@.skip(i + 1));
        assert(y@.skip(i as int).drop_first() =~= y@.skip(i + 1));
        i = i + 1;
    }
    i
}

/// The length of the shortest prefix of an id that separates it from the rest of a list.
pub(crate) fn shortest_unique_prefix_length(ids: &Vec<u128>, texts: &Vec<String>, id: u128) -> (r:
    usize)
    requires
        texts@.len() == ids@.len(),
        forall|k: int| 0 <= k < ids@.len() ==> (#[trigger] texts@[k])@ == id_text(ids@[k]),
    ensures
        is_short_length(ids@, id, r as nat),
{
    let text = TagId { value: id }.to_string();
    let mut required: usize = 1;
    let ghost mut witness: int = -1;
    let mut i: usize = 0;
    while i < ids.len()
        invariant
            i <= ids.len(),
            texts@.len() == ids@.len(),
            text@ == id_text(id),
            forall|k: int| 0 <= k < ids@.len() ==> (#[trigger] texts@[k])@ == id_text(ids@[k]),
            1 <= required <= 32,
            forall|k: int|
                0 <= k < i && #[trigger] ids@[k] != id ==> common_prefix(
                    id_text(id),
                    id_text(ids@[k]),
                ) < required,
            witness == -1 ==> required == 1,
            witness != -1 ==> 0 <= witness < ids@.len() && ids@[witness] != id && common_prefix(
                id_text(id),
                id_text(ids@[witness]),
            ) + 1 == required,
        decreases ids.len() - i,
    {
        if ids[i] != id {
            let shared: usize = common_prefix_length(text.as_str(), texts[i].as_str());
            proof {
                lemma_ids_part(id, ids@[i as int]);
            }
            if shared + 1 > required {
                required = shared + 1;
                proof {
                    witness = i as int;
                }
            }
        }
        i = i + 1;
    }
    proof {
        lemma_id_round_trip(id);
        assert forall|k: int| 0 <= k < ids@.len() && #[trigger] ids@[k] != id implies id_text(
            ids@[k],
        ).take(required as int) != id_text(id).take(required as int) by {
            lemma_id_round_trip(ids@[k]);
            lemma_common_prefix(id_text(id), id_text(ids@[k]), required as nat);
        }
        assert forall|shorter: nat| 1 <= shorter < required implies !#[trigger] separates(
            ids@,
            id,
            shorter,
        ) by {
            lemma_id_round_trip(ids@[witness]);
            lemma_common_prefix(id_text(id), id_text(ids@[witness]), shorter);
            assert(id_text(ids@[witness]).take(shorter as int) == id_text(id).take(shorter as int));
        }
    }
    required
}

/// A text without its hyphens.
pub open spec fn without_hyphens(text: Seq<char>) -> Seq<char> {
    text.filter(|c: char| c != '-')
}

/// What [`normalize_id_prefix`] makes of an input.
pub open spec fn normalized_prefix(input: Seq<char>) -> Option<Seq<char>> {
    let cleaned = without_hyphens(input);
    if cleaned.len() == 0 || !all_hex(cleaned) {
        None
    } else {
        Some(ascii_lowercase(cleaned))
    }
}

/// Normalizes an id or a prefix of one into lowercase hex digits without hyphens; `None` where
/// nothing is left or something else than a hex digit stands in it.
pub fn normalize_id_prefix(input: &str) -> (r: Option<String>)
    ensures
        match r {
            Some(prefix) => normalized_prefix(input@) == Some(prefix@),
            None => normalized_prefix(input@) is None,
        },
{
    let chars = chars_of(input);
    let ghost p = |c: char| c != '-';
    let mut cleaned: Vec<char> = Vec::new();
    let mut i: usize = 0;
    assert(chars@.take(0).filter(p) =~= cleaned@) by {
        crate::seqs::lemma_filter_none(chars@.take(0), p);
    }
    while i < chars.len()
        invariant
            i <= chars.len(),
            p == (|c: char| c != '-'),
            cleaned@ == chars@.take(i as int).filter(p),
        decreases chars.len() - i,
    {
        proof {
            crate::seqs::lemma_filter_take(chars@, i as int, p);
        }
        if chars[i] != '-' {
            cleaned.push(chars[i]);
        }
        i = i + 1;
    }
    assert(chars@.take(i as int) =~= chars@);
    if cleaned.len() == 0 || !all_hex_chars(&cleaned) {
        return None;
    }
    Some(string_of(&ascii_lower_chars(&cleaned)))
}

proof fn lemma_lower_hex(text: Seq<char>)
    requires
        all_hex(text),
    ensures
        all_hex(ascii_lowercase(text)),
        ascii_lowercase(ascii_lowercase(text)) == ascii_lowercase(text),
        without_hyphens(ascii_lowercase(text)) == ascii_lowercase(text),
{
    let lower = ascii_lowercase(text);
    assert forall|i: int| 0 <= i < lower.len() implies crate::text::is_hex_digit(
        #[trigger] lower[i],
    ) && lower[i] != '-' && crate::text::ascii_lower(lower[i]) == lower[i] by {
        assert(crate::text::is_hex_digit(text[i]));
    }
    assert(ascii_lowercase(lower) =~= lower);
    crate::seqs::lemma_filter_all(lower, |c: char| c != '-');
}

/// Normalizing a normalized prefix changes nothing.
pub proof fn law_normalize_is_idempotent(input: Seq<char>)
    requires
        normalized_prefix(input) is Some,
    ensures
        normalized_prefix(normalized_prefix(input)->Some_0) == normalized_prefix(input),
{
    lemma_lower_hex(without_hyphens(input));
}

/// A written id normalizes to itself.
pub proof fn law_written_id_is_normal(value: u128)
    ensures
        normalized_prefix(id_text(value)) == Some(id_text(value)),
{
    crate::ids::lemma_hex_text_shape(value as nat, 32);
    let text = id_text(value);
    crate::seqs::lemma_filter_all(text, |c: char| c != '-');
    lemma_hex_text_lower(value as nat, 32);
}

/// A prefix of a written id normalizes to itself.
pub proof fn lemma_prefix_is_normal(value: u128, length: nat)
    requires
        1 <= length <= 32,
    ensures
        normalized_prefix(id_text(value).take(length as int)) == Some(
            id_text(value).take(length as int),
        ),
{
    let text = id_text(value);
    let prefix = text.take(length as int);
    crate::ids::lemma_hex_text_shape(value as nat, 32);
    lemma_hex_text_lower(value as nat, 32);
    assert forall|i: int| 0 <= i < prefix.len() implies crate::text::is_hex_digit(
        #[trigger] prefix[i],
    ) && prefix[i] != '-' && crate::text::ascii_lower(prefix[i]) == prefix[i] by {
        assert(prefix[i] == text[i]);
        assert(ascii_lowercase(text)[i] == text[i]);
    }
    crate::seqs::lemma_filter_all(prefix, |c: char| c != '-');
    assert(ascii_lowercase(prefix) =~= prefix);
}

proof fn lemma_hex_text_lower(value: nat, width: nat)
    ensures
        ascii_lowercase(crate::ids::hex_text(value, width)) == crate::ids::hex_text(value, width),
    decreases width,
{
    let text = crate::ids::hex_text(value, width);
    if width > 0 {
        lemma_hex_text_lower(value / 16, (width - 1) as nat);
        let shorter = crate::ids::hex_text(value / 16, (width - 1) as nat);
        crate::ids::lemma_hex_text_shape(value / 16, (width - 1) as nat);
        assert forall|i: int| 0 <= i < text.len() implies crate::text::ascii_lower(text[i])
            == text[i] by {
            if i < width - 1 {
                assert(text[i] == shorter[i]);
                assert(ascii_lowercase(shorter)[i] == shorter[i]);
            }
        }
    }
    assert(ascii_lowercase(text) =~= text);
}

impl CatalogView {
    /// The ids of every file in the catalog, as numbers.
    pub open spec fn file_numbers(self) -> Seq<u128> {
        self.files.map_values(|row: FileRowView| row.id.value)
    }

    /// The ids of every tag in the catalog, as numbers.
    pub open spec fn tag_numbers(self) -> Seq<u128> {
        self.tags.map_values(|row: TagRowView| row.id.value)
    }
}

impl CatalogStore {
    /// The length of the shortest prefix of a file's id that no other file's id shares.
    pub fn shorten_file_id(&self, file_id: FileId) -> (r: Result<usize, DatabaseError>)
        requires
            self.wf(),
        ensures
            match r {
                Ok(length) => self@.has_file(file_id) && is_short_length(
                    self@.file_numbers(),
                    file_id.value,
                    length as nat,
                ),
                Err(error) => !self@.has_file(file_id) && error is MissingFile,
            },
    {
        if self.file_index(file_id).is_none() {
            return Err(DatabaseError::MissingFile);
        }
        let (ids, texts) = self.written_file_ids();
        Ok(shortest_unique_prefix_length(&ids, &texts, file_id.value))
    }

    /// The ids of every file, as numbers and as they are written.
    pub(super) fn written_file_ids(&self) -> (r: (Vec<u128>, Vec<String>))
        ensures
            r.0@ == self@.file_numbers(),
            r.1@.len() == r.0@.len(),
            forall|k: int| 0 <= k < r.0@.len() ==> (#[trigger] r.1@[k])@ == id_text(r.0@[k]),
    {
        let mut ids: Vec<u128> = Vec::new();
        let mut texts: Vec<String> = Vec::new();
        let mut i: usize = 0;
        while i < self.rows.files.len()
            invariant
                i <= self.rows.files.len(),
                ids@.len() == i,
                texts@.len() == i,
                forall|k: int| 0 <= k < i ==> ids@[k] == self@.files[k].id.value,
                forall|k: int| 0 <= k < i ==> (#[trigger] texts@[k])@ == id_text(ids@[k]),
            decreases self.rows.files.len() - i,
        {
            let id = self.rows.files[i].id;
            assert(self@.files[i as int].id == id);
            ids.push(id.value);
            texts.push(id.to_string());
            i = i + 1;
        }
        assert(ids@ =~= self@.file_numbers());
        (ids, texts)
    }
}

} // verus!
