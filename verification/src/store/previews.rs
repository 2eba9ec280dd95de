//! The preview cache: rendered previews keyed by file and content hash.
//!
//! A new version's hash matches no cached row, so a stale preview is never served for fresh
//! content; dropping the rows of a file bounds the table.

use vstd::prelude::*;

use crate::clock::now_millis;
use crate::ids::FileId;
use crate::seqs::{
    lemma_filter_all, lemma_filter_member, lemma_filter_none,
    lemma_filter_pairs, lemma_filter_remove,
};
use crate::state::{copy_bytes, Preview, PreviewView};
use crate::store::types::{
    previews_distinct, same_preview_key, CatalogView, DatabaseError, PreviewRow, PreviewRowView,
};
use crate::store::CatalogStore;

verus! {

/// The cached previews of every file but one.
pub open spec fn previews_without(rows: Seq<PreviewRowView>, file_id: FileId) -> Seq<
    PreviewRowView,
> {
    rows.filter(|row: PreviewRowView| row.file_id != file_id)
}

/// `std`'s `String::from_utf8`: the text that some bytes encode, or `None` where they are not
/// valid UTF-8.
#[verifier::external_body]
pub(crate) fn text_from_utf8(bytes: Vec<u8>) -> (r: Option<String>)
    ensures
        match r {
            Some(text) => vstd::utf8::valid_utf8(bytes@) && text@ == vstd::utf8::decode_utf8(
                bytes@,
            ),
            None => !vstd::utf8::valid_utf8(bytes@),
        },
{
    String::from_utf8(bytes).ok()
}

/// The preview that stored columns stand for: of the kinds, 0 is an image, 1 a text, every other
/// kind the absence of a preview. What a column lacks reads as empty or zero.
pub open spec fn decoded(row: PreviewRowView) -> PreviewView {
    if row.kind == 0 {
        PreviewView::Image {
            bytes: match row.data {
                Some(bytes) => bytes,
                None => Seq::empty(),
            },
            width: match row.width {
                Some(width) => width as u32,
                None => 0,
            },
            height: match row.height {
                Some(height) => height as u32,
                None => 0,
            },
        }
    } else if row.kind == 1 {
        PreviewView::Text(
            match row.data {
                Some(bytes) => if vstd::utf8::valid_utf8(bytes) {
                    vstd::utf8::decode_utf8(bytes)
                } else {
                    Seq::empty()
                },
                None => Seq::empty(),
            },
        )
    } else {
        PreviewView::Absent
    }
}

/// The columns in which a preview of some content of a file is stored.
pub open spec fn encoded(
    file_id: FileId,
    content_hash: Seq<char>,
    preview: PreviewView,
    generated_at: i64,
) -> PreviewRowView {
    match preview {
        PreviewView::Image { bytes, width, height } => PreviewRowView {
            file_id,
            content_hash,
            kind: 0,
            data: Some(bytes),
            width: Some(width as i64),
            height: Some(height as i64),
            generated_at,
        },
        PreviewView::Text(text) => PreviewRowView {
            file_id,
            content_hash,
            kind: 1,
            data: Some(vstd::utf8::encode_utf8(text)),
            width: None,
            height: None,
            generated_at,
        },
        PreviewView::Absent => PreviewRowView {
            file_id,
            content_hash,
            kind: 2,
            data: None,
            width: None,
            height: None,
            generated_at,
        },
    }
}

/// Reading a stored preview gives back what was stored.
pub proof fn law_preview_columns_round_trip(
    file_id: FileId,
    content_hash: Seq<char>,
    preview: PreviewView,
    generated_at: i64,
)
    ensures
        decoded(encoded(file_id, content_hash, preview, generated_at)) == preview,
{
    match preview {
        PreviewView::Image { bytes, width, height } => {
            assert((width as i64) as u32 == width);
            assert((height as i64) as u32 == height);
        },
        PreviewView::Text(text) => {
            vstd::utf8::encode_utf8_valid_utf8(text);
            vstd::utf8::encode_utf8_decode_utf8(text);
        },
        PreviewView::Absent => {},
    }
}

/// A row caches a preview of this content of this file.
pub open spec fn caches(row: PreviewRowView, file_id: FileId, content_hash: Seq<char>) -> bool {
    row.file_id == file_id && row.content_hash == content_hash
}

impl CatalogView {
    /// The cached preview of some content of a file, a cached absence among them.
    pub open spec fn cached_preview(self, file_id: FileId, content_hash: Seq<char>) -> Option<
        PreviewView,
    > {
        let rows = self.previews.filter(
            |row: PreviewRowView| caches(row, file_id, content_hash),
        );
        if rows.len() == 0 {
            None
        } else {
            Some(decoded(rows[0]))
        }
    }

    /// The catalog with a preview cached; it replaces an earlier one of the same content.
    pub open spec fn with_preview(
        self,
        file_id: FileId,
        content_hash: Seq<char>,
        preview: PreviewView,
        generated_at: i64,
    ) -> CatalogView {
        CatalogView {
            previews: self.previews.filter(
                |row: PreviewRowView| !caches(row, file_id, content_hash),
            ).push(encoded(file_id, content_hash, preview, generated_at)),
            ..self
        }
    }

    /// The catalog with a file's cached previews dropped.
    pub open spec fn without_previews(self, file_id: FileId) -> CatalogView {
        CatalogView { previews: previews_without(self.previews, file_id), ..self }
    }
}

/// Dropping rows keeps the keys of the preview table.
pub proof fn lemma_previews_filter_distinct(
    rows: Seq<PreviewRowView>,
    p: spec_fn(PreviewRowView) -> bool,
)
    requires
        previews_distinct(rows),
    ensures
        previews_distinct(rows.filter(p)),
{
    let apart = |a: PreviewRowView, b: PreviewRowView| !same_preview_key(a, b);
    lemma_filter_pairs(rows, p, apart);
    let kept = rows.filter(p);
    assert forall|i: int, j: int|
        0 <= i < kept.len() && 0 <= j < kept.len() && i != j implies !same_preview_key(
        #[trigger] kept[i],
        #[trigger] kept[j],
    ) by {
        if i < j {
            assert(apart(kept[i], kept[j]));
        } else {
            assert(apart(kept[j], kept[i]));
        }
    }
}

/// The columns in which a preview of some content of a file is stored.
fn encode_columns(
    file_id: FileId,
    content_hash: String,
    preview: &Preview,
    generated_at: i64,
) -> (r: PreviewRow)
    ensures
        r@ == encoded(file_id, content_hash@, preview@, generated_at),
{
    match preview {
        Preview::Image { bytes, width, height } => PreviewRow {
            file_id,
            content_hash,
            kind: 0,
            data: Some(copy_bytes(bytes)),
            width: Some(*width as i64),
            height: Some(*height as i64),
            generated_at,
        },
        Preview::Text(text) => {
            let mut data: Vec<u8> = Vec::new();
            data.extend_from_slice(text.as_str().as_bytes());
            assert(data@ =~= vstd::utf8::encode_utf8(text@));
            PreviewRow {
                file_id,
                content_hash,
                kind: 1,
                data: Some(data),
                width: None,
                height: None,
                generated_at,
            }
        },
        Preview::Absent => PreviewRow {
            file_id,
            content_hash,
            kind: 2,
            data: None,
            width: None,
            height: None,
            generated_at,
        },
    }
}

impl CatalogStore {
    /// Drops every cached preview of a file, whatever its content hash.
    pub(crate) fn delete_previews_for(&mut self, file_id: FileId)
        requires
            old(self).wf(),
        ensures
            final(self).wf(),
            final(self)@ == old(self)@.without_previews(file_id),
    {
        let ghost keep = |row: PreviewRowView| row.file_id != file_id;
        let mut i: usize = 0;
        while i < self.rows.previews.len()
            invariant
                i <= self.rows.previews.len(),
                keep == (|row: PreviewRowView| row.file_id != file_id),
                self@ == (CatalogView { previews: self@.previews, ..old(self)@ }),
                self@.previews.filter(keep) == old(self)@.previews.filter(keep),
                forall|j: int| 0 <= j < i ==> keep(#[trigger] self@.previews[j]),
            decreases self.rows.previews.len() - i,
        {
            if self.rows.previews[i].file_id == file_id {
                let ghost before = self@.previews;
                self.rows.previews.remove(i);
                proof {
                    assert(self@.previews =~= before.remove(i as int));
                    assert(!keep(before[i as int]));
                    lemma_filter_remove(before, i as int, keep);
                }
            } else {
                i = i + 1;
            }
        }
        proof {
            lemma_filter_all(self@.previews, keep);
            lemma_previews_filter_distinct(old(self)@.previews, keep);
        }
    }

    /// The place of the cached preview of some content of a file.
    fn preview_index(&self, file_id: FileId, content_hash: &String) -> (r: Option<usize>)
        requires
            self.wf(),
        ensures
            match r {
                Some(i) => i < self.rows.previews@.len() && i < self@.previews.len()
                    && self@.previews[i as int] == self.rows.previews@[i as int]@ && caches(
                    self@.previews[i as int],
                    file_id,
                    content_hash@,
                ) && self@.cached_preview(file_id, content_hash@) == Some(
                    decoded(self@.previews[i as int]),
                ),
                None => self@.cached_preview(file_id, content_hash@) is None && forall|j: int|
                    0 <= j < self@.previews.len() ==> !caches(
                        #[trigger] self@.previews[j],
                        file_id,
                        content_hash@,
                    ),
            },
    {
        let ghost p = |row: PreviewRowView| caches(row, file_id, content_hash@);
        let mut i: usize = 0;
        while i < self.rows.previews.len()
            invariant
                i <= self.rows.previews.len(),
                p == (|row: PreviewRowView| caches(row, file_id, content_hash@)),
                forall|j: int| 0 <= j < i ==> !p(#[trigger] self@.previews[j]),
            decreases self.rows.previews.len() - i,
        {
            assert(self@.previews[i as int] == self.rows.previews@[i as int]@);
            if self.rows.previews[i].file_id == file_id && self.rows.previews[i].content_hash
                == *content_hash {
                proof {
                    crate::seqs::lemma_filter_first(self@.previews, i as int, p);
                }
                return Some(i);
            }
            i = i + 1;
        }
        proof {
            lemma_filter_none(self@.previews, p);
        }
        None
    }

    /// The cached preview of some content of a file. A cached absence is a hit too; `None`
    /// means that nothing is cached.
    pub fn preview_for(&self, file_id: FileId, content_hash: &str) -> (r: Result<
        Option<Preview>,
        DatabaseError,
    >)
        requires
            self.wf(),
        ensures
            r matches Ok(preview) && match preview {
                Some(preview) => self@.cached_preview(file_id, content_hash@) == Some(preview@),
                None => self@.cached_preview(file_id, content_hash@) is None,
            },
    {
        let hash = content_hash.to_owned();
        match self.preview_index(file_id, &hash) {
            Some(i) => {
                let row = &self.rows.previews[i];
                let data = match &row.data {
                    Some(bytes) => Some(copy_bytes(bytes)),
                    None => None,
                };
                if row.kind == 0 {
                    let bytes = match data {
                        Some(bytes) => bytes,
                        None => Vec::new(),
                    };
                    let width: u32 = match row.width {
                        Some(width) => #[verifier::truncate] (width as u32),
                        None => 0,
                    };
                    let height: u32 = match row.height {
                        Some(height) => #[verifier::truncate] (height as u32),
                        None => 0,
                    };
                    assert(row.data is None ==> bytes@ =~= Seq::<u8>::empty());
                    Ok(Some(Preview::Image { bytes, width, height }))
                } else if row.kind == 1 {
                    let text = match data {
                        Some(bytes) => match text_from_utf8(bytes) {
                            Some(text) => text,
                            None => String::new(),
                        },
                        None => String::new(),
                    };
                    Ok(Some(Preview::Text(text)))
                } else {
                    Ok(Some(Preview::Absent))
                }
            },
            None => Ok(None),
        }
    }

    /// Caches a preview generated at a given time; it replaces an earlier one of the same
    /// content.
    pub fn record_preview_at(
        &mut self,
        file_id: FileId,
        content_hash: &str,
        preview: &Preview,
        generated_at: i64,
    ) -> (r: Result<(), DatabaseError>)
        requires
            old(self).wf(),
        ensures
            final(self).wf(),
            r is Ok,
            final(self)@ == old(self)@.with_preview(
                file_id,
                content_hash@,
                preview@,
                generated_at,
            ),
    {
        let hash = content_hash.to_owned();
        self.drop_preview(file_id, &hash);
        let ghost keep = |row: PreviewRowView| !caches(row, file_id, content_hash@);
        let ghost kept = self@.previews;
        let row = encode_columns(file_id, hash, preview, generated_at);
        let ghost added = row@;
        self.rows.previews.push(row);
        proof {
            assert(self@.previews =~= kept.push(added));
            assert forall|i: int, j: int|
                0 <= i < self@.previews.len() && 0 <= j < self@.previews.len() && i != j implies
                !same_preview_key(#[trigger] self@.previews[i], #[trigger] self@.previews[j]) by {
                if i < kept.len() {
                    lemma_filter_member(old(self)@.previews, keep, i);
                }
                if j < kept.len() {
                    lemma_filter_member(old(self)@.previews, keep, j);
                }
            }
        }
        Ok(())
    }

    /// Drops the cached preview of some content of a file.
    fn drop_preview(&mut self, file_id: FileId, content_hash: &String)
        requires
            old(self).wf(),
        ensures
            final(self).wf(),
            final(self)@ == (CatalogView {
                previews: old(self)@.previews.filter(
                    |row: PreviewRowView| !caches(row, file_id, content_hash@),
                ),
                ..old(self)@
            }),
    {
        let ghost keep = |row: PreviewRowView| !caches(row, file_id, content_hash@);
        let ghost before = self@.previews;
        match self.preview_index(file_id, content_hash) {
            Some(i) => {
                self.rows.previews.remove(i);
                proof {
                    assert(self@.previews =~= before.remove(i as int));
                    lemma_filter_remove(before, i as int, keep);
                    assert forall|j: int| 0 <= j < self@.previews.len() implies keep(
                        #[trigger] self@.previews[j],
                    ) by {
                        let k = if j < i {
                            j
                        } else {
                            j + 1
                        };
                        assert(self@.previews[j] == before[k]);
                        assert(!same_preview_key(before[k], before[i as int]));
                    }
                }
            },
            None => {},
        }
        proof {
            lemma_filter_all(self@.previews, keep);
            lemma_previews_filter_distinct(before, keep);
        }
    }

    /// Caches a preview generated now. See [`CatalogStore::record_preview_at`].
    pub fn record_preview(&mut self, file_id: FileId, content_hash: &str, preview: &Preview) -> (r:
        Result<(), DatabaseError>)
        requires
            old(self).wf(),
        ensures
            final(self).wf(),
            r is Ok,
            exists|generated_at: i64|
                final(self)@ == #[trigger] old(self)@.with_preview(
                    file_id,
                    content_hash@,
                    preview@,
                    generated_at,
                ),
    {
        let generated_at: i64 = now_millis();
        self.record_preview_at(file_id, content_hash, preview, generated_at)
    }

    /// Drops every cached preview of a file, whatever its content hash.
    pub fn invalidate_previews(&mut self, file_id: FileId) -> (r: Result<(), DatabaseError>)
        requires
            old(self).wf(),
        ensures
            final(self).wf(),
            r is Ok,
            final(self)@ == old(self)@.without_previews(file_id),
    {
        self.delete_previews_for(file_id);
        Ok(())
    }

    /// Drops every cached preview and returns how many there were.
    pub fn purge_previews(&mut self) -> (r: Result<usize, DatabaseError>)
        requires
            old(self).wf(),
        ensures
            final(self).wf(),
            r == Ok::<usize, DatabaseError>(old(self)@.previews.len() as usize),
            r->Ok_0 == old(self)@.previews.len(),
            final(self)@ == (CatalogView { previews: Seq::empty(), ..old(self)@ }),
    {
        let count: usize = self.rows.previews.len();
        self.rows.previews.clear();
        assert(self@.previews =~= Seq::empty());
        Ok(count)
    }
}

/// A preview that was just cached is what a lookup of that content gives back.
pub proof fn law_cached_preview_is_served(
    catalog: CatalogView,
    file_id: FileId,
    content_hash: Seq<char>,
    preview: PreviewView,
    generated_at: i64,
)
    requires
        catalog.wf(),
    ensures
        catalog.with_preview(file_id, content_hash, preview, generated_at).cached_preview(
            file_id,
            content_hash,
        ) == Some(preview),
{
    law_preview_columns_round_trip(file_id, content_hash, preview, generated_at);
    let keep = |row: PreviewRowView| !caches(row, file_id, content_hash);
    let hit = |row: PreviewRowView| caches(row, file_id, content_hash);
    let kept = catalog.previews.filter(keep);
    let row = encoded(file_id, content_hash, preview, generated_at);
    assert forall|i: int| 0 <= i < kept.len() implies !hit(#[trigger] kept[i]) by {
        lemma_filter_member(catalog.previews, keep, i);
    }
    lemma_filter_none(kept, hit);
    crate::seqs::lemma_filter_push(kept, row, hit);
}

/// Caching a preview leaves the previews of all other content as they were.
pub proof fn law_caching_touches_one_content(
    catalog: CatalogView,
    file_id: FileId,
    content_hash: Seq<char>,
    preview: PreviewView,
    generated_at: i64,
    other_file: FileId,
    other_hash: Seq<char>,
)
    requires
        (file_id, content_hash) != (other_file, other_hash),
    ensures
        catalog.with_preview(file_id, content_hash, preview, generated_at).cached_preview(
            other_file,
            other_hash,
        ) == catalog.cached_preview(other_file, other_hash),
{
    let keep = |row: PreviewRowView| !caches(row, file_id, content_hash);
    let hit = |row: PreviewRowView| caches(row, other_file, other_hash);
    let row = encoded(file_id, content_hash, preview, generated_at);
    crate::seqs::lemma_filter_push(catalog.previews.filter(keep), row, hit);
    crate::seqs::lemma_filter_filter(catalog.previews, keep, hit);
    crate::seqs::lemma_filter_agree(
        catalog.previews,
        |row: PreviewRowView| keep(row) && hit(row),
        hit,
    );
}

/// After a file's previews are dropped no content of it is cached.
pub proof fn law_dropped_previews_are_gone(
    catalog: CatalogView,
    file_id: FileId,
    content_hash: Seq<char>,
)
    ensures
        catalog.without_previews(file_id).cached_preview(file_id, content_hash) is None,
{
    let keep = |row: PreviewRowView| row.file_id != file_id;
    let hit = |row: PreviewRowView| caches(row, file_id, content_hash);
    let kept = catalog.previews.filter(keep);
    assert forall|i: int| 0 <= i < kept.len() implies !hit(#[trigger] kept[i]) by {
        lemma_filter_member(catalog.previews, keep, i);
    }
    lemma_filter_none(kept, hit);
}

} // verus!
