//! Where servable bytes come from.

use vstd::prelude::*;

verus! {

/// What a read gives: the bytes and whether they reach the end of the content, or a failure.
pub type ReadView = Option<(Seq<u8>, bool)>;

/// The model of the result of a read.
pub open spec fn read_view(result: Result<(Vec<u8>, bool), String>) -> ReadView {
    match result {
        Ok((bytes, last)) => Some((bytes@, last)),
        Err(_) => None,
    }
}

/// A source of content that a holder reads chunks from.
pub trait ChunkSource {
    /// A read at `offset` of at most `max_len` bytes may give `read`. Content on disk may change
    /// between two reads, so one read may be open to several results. A source that says nothing
    /// more may give anything.
    open spec fn may_give(&self, offset: u64, max_len: usize, read: ReadView) -> bool {
        true
    }

    /// Reads up to `max_len` bytes at `offset`, and says whether they reach the end of the
    /// content. Content is at most `u64::MAX` bytes long.
    fn read_chunk_at(&self, offset: u64, max_len: usize) -> (r: Result<(Vec<u8>, bool), String>)
        ensures
            self.may_give(offset, max_len, read_view(r)),
            r matches Ok((bytes, _)) ==> bytes@.len() <= max_len && offset + bytes@.len()
                <= u64::MAX,
    ;
}

/// One read of a source: what was asked for, and what came back.
pub struct ReadRecord {
    pub offset: u64,
    pub max_len: usize,
    pub given: ReadView,
}

/// A source together with a record of every read that was made of it. The source is read through
/// here alone, so the record is complete.
pub struct SourceReader<'a, S: ChunkSource> {
    source: &'a S,
    record: Ghost<Seq<ReadRecord>>,
}

impl<'a, S: ChunkSource> SourceReader<'a, S> {
    /// The source that is read.
    pub closed spec fn source(&self) -> S {
        *self.source
    }

    /// The reads that were made, in order.
    pub closed spec fn reads(&self) -> Seq<ReadRecord> {
        self.record@
    }

    /// A source that was not read yet.
    pub fn new(source: &'a S) -> (r: SourceReader<'a, S>)
        ensures
            r.source() == *source,
            r.reads() == Seq::<ReadRecord>::empty(),
    {
        SourceReader { source, record: Ghost(Seq::empty()) }
    }

    /// Reads up to `max_len` bytes at `offset`, once.
    pub fn read(&mut self, offset: u64, max_len: usize) -> (r: Result<(Vec<u8>, bool), String>)
        ensures
            final(self).source() == old(self).source(),
            final(self).reads() == old(self).reads().push(
                (ReadRecord { offset, max_len, given: read_view(r) }),
            ),
            old(self).source().may_give(offset, max_len, read_view(r)),
            r matches Ok((bytes, _)) ==> bytes@.len() <= max_len && offset + bytes@.len()
                <= u64::MAX,
    {
        let result = self.source.read_chunk_at(offset, max_len);
        proof {
            self.record@ = self.record@.push(
                ReadRecord { offset, max_len, given: read_view(result) },
            );
        }
        result
    }
}

/// Each of these reads is one that the source may give.
pub open spec fn may_give_all<S: ChunkSource>(source: S, reads: Seq<ReadRecord>) -> bool {
    forall|i: int|
        0 <= i < reads.len() ==> source.may_give(
            (#[trigger] reads[i]).offset,
            reads[i].max_len,
            reads[i].given,
        )
}

/// The reads that were made between two states of a record.
pub open spec fn reads_since(before: Seq<ReadRecord>, after: Seq<ReadRecord>) -> Seq<ReadRecord> {
    after.skip(before.len() as int)
}

/// The bytes of `content` in the window of `max_len` at `offset`.
pub open spec fn window_of(content: Seq<u8>, offset: int, max_len: int) -> Seq<u8> {
    if offset >= content.len() {
        Seq::empty()
    } else if content.len() - offset <= max_len {
        content.skip(offset)
    } else {
        content.subrange(offset, offset + max_len)
    }
}

/// What a read of content that does not change gives.
pub open spec fn read_of(content: Seq<u8>, offset: int, max_len: int) -> (Seq<u8>, bool) {
    (window_of(content, offset, max_len), offset + max_len >= content.len())
}

/// Bytes in memory are a source of themselves.
impl ChunkSource for Vec<u8> {
    open spec fn may_give(&self, offset: u64, max_len: usize, read: ReadView) -> bool {
        read == Some(read_of(self@, offset as int, max_len as int))
    }

    fn read_chunk_at(&self, offset: u64, max_len: usize) -> (r: Result<(Vec<u8>, bool), String>) {
        let mut bytes: Vec<u8> = Vec::new();
        if offset >= self.len() as u64 {
            assert(bytes@ =~= window_of(self@, offset as int, max_len as int));
            return Ok((bytes, true));
        }
        let start: usize = offset as usize;
        let last = self.len() - start <= max_len;
        let end: usize = if last {
            self.len()
        } else {
            start + max_len
        };
        bytes.extend_from_slice(vstd::slice::slice_subrange(self.as_slice(), start, end));
        assert(bytes@ =~= window_of(self@, offset as int, max_len as int));
        Ok((bytes, last))
    }
}

} // verus!
