//! The holder's side: answering one chunk request from a source, once the source is known to
//! hold the requested content.

use vstd::hash_map::StringHashMap;
use vstd::prelude::*;

use crate::peer::transfer::hash::{
    content_digest, digest_text, hasher_input, new_hasher, take_in,
};
use crate::peer::transfer::source::{
    may_give_all, read_of, read_view, reads_since, window_of, ChunkSource, ReadRecord,
    SourceReader,
};
use crate::peer::transfer::CHUNK_SIZE;

verus! {

/// What was known of a file on disk when its content was hashed. The time is in nanoseconds
/// from the Unix epoch, where the file system tells it.
#[derive(Debug)]
pub struct VerifiedEntry {
    pub mtime: Option<i128>,
    pub size: u64,
    pub hash: String,
}

/// The hashes of files on disk, each good for as long as the file's time and size stay.
pub struct VerifiedHashCache {
    entries: StringHashMap<VerifiedEntry>,
}

/// The model of a cached hash.
pub struct VerifiedView {
    pub mtime: Option<i128>,
    pub size: u64,
    pub hash: Seq<char>,
}

impl View for VerifiedEntry {
    type V = VerifiedView;

    open spec fn view(&self) -> VerifiedView {
        VerifiedView { mtime: self.mtime, size: self.size, hash: self.hash@ }
    }
}

impl View for VerifiedHashCache {
    type V = Map<Seq<char>, VerifiedView>;

    closed spec fn view(&self) -> Map<Seq<char>, VerifiedView> {
        self.entries@.map_values(|entry: VerifiedEntry| entry@)
    }
}

/// The hash cached for a path, if the file still has the time and size it was hashed at.
pub open spec fn cached_hash(
    cache: Map<Seq<char>, VerifiedView>,
    path: Seq<char>,
    mtime: Option<i128>,
    size: u64,
) -> Option<Seq<char>> {
    if cache.dom().contains(path) && cache[path].mtime == mtime && cache[path].size == size {
        Some(cache[path].hash)
    } else {
        None
    }
}

impl VerifiedHashCache {
    /// A cache that knows no file.
    pub fn new() -> (r: VerifiedHashCache)
        ensures
            r@ == Map::<Seq<char>, VerifiedView>::empty(),
    {
        let r = VerifiedHashCache { entries: StringHashMap::new() };
        assert(r@ =~= Map::empty());
        r
    }

    /// The hash cached for a path, if the file still has the time and size it was hashed at.
    pub fn get(&self, path: &str, mtime: Option<i128>, size: u64) -> (r: Option<String>)
        ensures
            match r {
                Some(hash) => cached_hash(self@, path@, mtime, size) == Some(hash@),
                None => cached_hash(self@, path@, mtime, size) is None,
            },
    {
        match self.entries.get(path) {
            Some(entry) => {
                assert(self@[path@] == entry@);
                let same_time = match (entry.mtime, mtime) {
                    (Some(a), Some(b)) => a == b,
                    (None, None) => true,
                    _ => false,
                };
                if same_time && entry.size == size {
                    Some(entry.hash.clone())
                } else {
                    None
                }
            },
            None => None,
        }
    }

    /// Remembers the hash of a file, in place of what was known of its path.
    pub fn put(&mut self, path: String, mtime: Option<i128>, size: u64, hash: String)
        ensures
            final(self)@ == old(self)@.insert(
                path@,
                (VerifiedView { mtime, size, hash: hash@ }),
            ),
    {
        let entry = VerifiedEntry { mtime, size, hash };
        self.entries.insert(path, entry);
        assert(self@ =~= old(self)@.insert(path@, VerifiedView { mtime, size, hash: hash@ }));
    }
}

/// A file on disk that backs a source, and its time and size now; no `stat` if it cannot be
/// asked for them.
#[derive(Debug)]
pub struct SourceFile {
    pub path: String,
    pub stat: Option<(Option<i128>, u64)>,
}

/// The answer to a chunk request.
#[derive(Debug)]
pub enum ChunkAnswer {
    /// The bytes at the requested offset.
    Data(Vec<u8>),
    /// This holder cannot serve the content.
    Miss,
}

/// The model of an answer: the bytes, or `None` for a miss.
pub open spec fn answer_view(answer: ChunkAnswer) -> Option<Seq<u8>> {
    match answer {
        ChunkAnswer::Data(bytes) => Some(bytes@),
        ChunkAnswer::Miss => None,
    }
}

/// The bytes that some reads gave, joined.
pub open spec fn joined(reads: Seq<Seq<u8>>) -> Seq<u8>
    decreases reads.len(),
{
    if reads.len() == 0 {
        Seq::empty()
    } else {
        joined(reads.drop_last()) + reads.last()
    }
}

/// The bytes that one read gave; none if it failed.
pub open spec fn bytes_given(read: ReadRecord) -> Seq<u8> {
    match read.given {
        Some((bytes, _)) => bytes,
        None => Seq::empty(),
    }
}

/// The bytes that some reads gave, joined.
pub open spec fn bytes_read(reads: Seq<ReadRecord>) -> Seq<u8> {
    joined(reads.map_values(|read: ReadRecord| bytes_given(read)))
}

/// The read ends the reading of a source: it fails, is empty or reaches the end of the content.
pub open spec fn ends_reading(read: ReadRecord) -> bool {
    match read.given {
        Some((bytes, last)) => last || bytes.len() == 0,
        None => true,
    }
}

/// The reads go through a source from its start, chunk after chunk, each from where the one
/// before it ended, and none of them ends the reading.
pub open spec fn goes_through(reads: Seq<ReadRecord>) -> bool {
    forall|i: int|
        0 <= i < reads.len() ==> (#[trigger] reads[i]).offset == bytes_read(reads.take(i)).len()
            && reads[i].max_len == CHUNK_SIZE && !ends_reading(reads[i])
}

/// The reads go through a source from its start to its end, or to the first that fails.
pub open spec fn is_whole_reading(reads: Seq<ReadRecord>) -> bool {
    &&& reads.len() > 0
    &&& goes_through(reads.drop_last())
    &&& reads.last().offset == bytes_read(reads.drop_last()).len()
    &&& reads.last().max_len == CHUNK_SIZE
    &&& ends_reading(reads.last())
}

/// What hashing ends with, given the reads that were made for it.
pub open spec fn digest_of_reading(reads: Seq<ReadRecord>) -> Option<Seq<char>> {
    match reads.last().given {
        Some(_) => Some(content_digest(bytes_read(reads))),
        None => None,
    }
}

proof fn lemma_bytes_read_push(reads: Seq<ReadRecord>, read: ReadRecord)
    ensures
        bytes_read(reads.push(read)) == bytes_read(reads) + bytes_given(read),
{
    let f = |read: ReadRecord| bytes_given(read);
    assert(reads.push(read).map_values(f).drop_last() =~= reads.map_values(f));
    assert(reads.push(read).map_values(f).last() == bytes_given(read));
}

/// Hashes a source by reading it to its end, once; `None` if a read fails.
pub fn hash_source<S: ChunkSource>(reader: &mut SourceReader<S>) -> (r: Option<String>)
    ensures
        final(reader).source() == old(reader).source(),
        ({
            let reads = reads_since(old(reader).reads(), final(reader).reads());
            &&& final(reader).reads() == old(reader).reads() + reads
            &&& may_give_all(old(reader).source(), reads)
            &&& is_whole_reading(reads)
            &&& optional_digest(r) == digest_of_reading(reads)
        }),
{
    let mut hasher = new_hasher();
    let mut offset: u64 = 0;
    let ghost before = reader.reads();
    let ghost mut reads: Seq<ReadRecord> = Seq::empty();
    assert(before + reads =~= before);
    loop
        invariant
            before == old(reader).reads(),
            reader.source() == old(reader).source(),
            reader.reads() == before + reads,
            may_give_all(old(reader).source(), reads),
            goes_through(reads),
            bytes_read(reads) == hasher_input(hasher),
            bytes_read(reads).len() == offset,
        decreases u64::MAX - offset,
    {
        let ghost earlier = reads;
        let result = reader.read(offset, CHUNK_SIZE);
        let ghost read = ReadRecord { offset, max_len: CHUNK_SIZE, given: read_view(result) };
        proof {
            reads = earlier.push(read);
            assert(reader.reads() =~= before + reads);
            assert(reads_since(before, reader.reads()) =~= reads);
            assert(reads.drop_last() =~= earlier);
            lemma_bytes_read_push(earlier, read);
        }
        let (bytes, last) = match result {
            Ok(read) => read,
            Err(_) => {
                return None;
            },
        };
        take_in(&mut hasher, bytes.as_slice());
        if last || bytes.len() == 0 {
            return Some(digest_text(&hasher));
        }
        offset = offset + bytes.len() as u64;
        assert forall|i: int| 0 <= i < reads.len() implies (#[trigger] reads[i]).offset
            == bytes_read(reads.take(i)).len() && reads[i].max_len == CHUNK_SIZE && !ends_reading(
            reads[i],
        ) by {
            if i < earlier.len() {
                assert(reads[i] == earlier[i]);
                assert(reads.take(i) =~= earlier.take(i));
            } else {
                assert(reads.take(i) =~= earlier);
            }
        }
    }
}

/// What is known of a source before it is read.
pub enum Known {
    /// Its content had this hash when it was last read, and the file has not changed since.
    Hash(Seq<char>),
    /// Nothing: it has to be read.
    Nothing,
    /// The file that backs it cannot be asked for its time and size.
    Unreachable,
}

/// What is known of a source that `file` backs where it is on disk.
pub open spec fn known_of(
    file: Option<&SourceFile>,
    cache: Map<Seq<char>, VerifiedView>,
) -> Known {
    match file {
        Some(file) => match file.stat {
            Some((mtime, size)) => match cached_hash(cache, file.path@, mtime, size) {
                Some(hash) => Known::Hash(hash),
                None => Known::Nothing,
            },
            None => Known::Unreachable,
        },
        None => Known::Nothing,
    }
}

/// The cache after a source was hashed: the digest of a file is remembered with its time and
/// size.
pub open spec fn cache_after(
    file: Option<&SourceFile>,
    cache: Map<Seq<char>, VerifiedView>,
    digest: Option<Seq<char>>,
) -> Map<Seq<char>, VerifiedView> {
    match (file, digest) {
        (Some(file), Some(hash)) => match file.stat {
            Some((mtime, size)) => cache.insert(
                file.path@,
                VerifiedView { mtime, size, hash },
            ),
            None => cache,
        },
        _ => cache,
    }
}

/// What verifying a source against a hash comes to, given the reads that were made for it:
/// whether it matches, and the cache after it. Only a source of which nothing is known is read,
/// and it is read whole and once.
pub open spec fn is_verification(
    file: Option<&SourceFile>,
    cache: Map<Seq<char>, VerifiedView>,
    content_hash: Seq<char>,
    reads: Seq<ReadRecord>,
    verified: bool,
    after: Map<Seq<char>, VerifiedView>,
) -> bool {
    match known_of(file, cache) {
        Known::Hash(hash) => reads.len() == 0 && verified == (hash == content_hash) && after
            == cache,
        Known::Unreachable => reads.len() == 0 && !verified && after == cache,
        Known::Nothing => is_whole_reading(reads) && verified == (digest_of_reading(reads)
            == Some(content_hash)) && after == cache_after(file, cache, digest_of_reading(reads)),
    }
}

/// Verifies that a source holds content with this hash.
fn verify_source<S: ChunkSource>(
    reader: &mut SourceReader<S>,
    file: Option<&SourceFile>,
    cache: &mut VerifiedHashCache,
    content_hash: &String,
) -> (verified: bool)
    ensures
        final(reader).source() == old(reader).source(),
        ({
            let reads = reads_since(old(reader).reads(), final(reader).reads());
            &&& final(reader).reads() == old(reader).reads() + reads
            &&& may_give_all(old(reader).source(), reads)
            &&& is_verification(
                file,
                old(cache)@,
                content_hash@,
                reads,
                verified,
                final(cache)@,
            )
        }),
{
    proof {
        let before = reader.reads();
        assert(reads_since(before, before) =~= Seq::empty());
        assert(before + reads_since(before, before) =~= before);
    }
    match file {
        Some(file) => {
            let (mtime, size) = match file.stat {
                Some(stat) => stat,
                None => return false,
            };
            if let Some(cached) = cache.get(file.path.as_str(), mtime, size) {
                return cached == *content_hash;
            }
            let digest = hash_source(reader);
            settle_digest(digest, Some((file.path.as_str(), mtime, size)), cache, content_hash)
        },
        None => {
            let digest = hash_source(reader);
            settle_digest(digest, None, cache, content_hash)
        },
    }
}

/// The model of an optional digest.
pub open spec fn optional_digest(digest: Option<String>) -> Option<Seq<char>> {
    match digest {
        Some(digest) => Some(digest@),
        None => None,
    }
}

/// Settles what hashing a source came to: the digest of a file is cached, and the source is
/// verified if its digest is the requested one.
pub fn settle_digest(
    digest: Option<String>,
    file: Option<(&str, Option<i128>, u64)>,
    cache: &mut VerifiedHashCache,
    content_hash: &String,
) -> (verified: bool)
    ensures
        verified == (optional_digest(digest) == Some(content_hash@)),
        final(cache)@ == match (optional_digest(digest), file) {
            (Some(hash), Some((path, mtime, size))) => old(cache)@.insert(
                path@,
                VerifiedView { mtime, size, hash },
            ),
            _ => old(cache)@,
        },
{
    match digest {
        Some(hash) => {
            let verified = hash == *content_hash;
            if let Some((path, mtime, size)) = file {
                cache.put(path.to_owned(), mtime, size, hash);
            }
            verified
        },
        None => false,
    }
}

/// The reads are one read of the chunk at `offset`, and the answer is what it gave; a failed read
/// is a miss.
pub open spec fn is_chunk_read(
    reads: Seq<ReadRecord>,
    offset: u64,
    answer: Option<Seq<u8>>,
) -> bool {
    &&& reads.len() == 1
    &&& reads[0].offset == offset
    &&& reads[0].max_len == CHUNK_SIZE
    &&& answer == match reads[0].given {
        Some((bytes, _)) => Some(bytes),
        None => None,
    }
}

/// What answering a request comes to, given the reads that were made for it: the answer, and the
/// cache after it. A request off a chunk boundary is a miss, and nothing is read. Of a source
/// that was verified before, the chunk is read and nothing else. Any other is verified first, and
/// the chunk is read only if it matches.
pub open spec fn is_answer(
    file: Option<&SourceFile>,
    cache: Map<Seq<char>, VerifiedView>,
    content_hash: Seq<char>,
    offset: u64,
    pre_verified: bool,
    reads: Seq<ReadRecord>,
    answer: Option<Seq<u8>>,
    after: Map<Seq<char>, VerifiedView>,
) -> bool {
    if offset % (CHUNK_SIZE as u64) != 0 {
        reads.len() == 0 && answer is None && after == cache
    } else if pre_verified {
        is_chunk_read(reads, offset, answer) && after == cache
    } else {
        exists|n: int, verified: bool|
            0 <= n <= reads.len() && #[trigger] is_verification(
                file,
                cache,
                content_hash,
                reads.take(n),
                verified,
                after,
            ) && if verified {
                is_chunk_read(reads.skip(n), offset, answer)
            } else {
                n == reads.len() && answer is None
            }
    }
}

/// A request was answered from a source: the source is the same, its record has grown by reads
/// that it may give, and the answer is what they come to.
pub open spec fn is_served<S: ChunkSource>(
    before: SourceReader<S>,
    after: SourceReader<S>,
    file: Option<&SourceFile>,
    cache: Map<Seq<char>, VerifiedView>,
    content_hash: Seq<char>,
    offset: u64,
    pre_verified: bool,
    answer: Option<Seq<u8>>,
    cache_after: Map<Seq<char>, VerifiedView>,
) -> bool {
    let reads = reads_since(before.reads(), after.reads());
    &&& after.source() == before.source()
    &&& after.reads() == before.reads() + reads
    &&& may_give_all(before.source(), reads)
    &&& is_answer(
        file,
        cache,
        content_hash,
        offset,
        pre_verified,
        reads,
        answer,
        cache_after,
    )
}

/// Answers one chunk request from a source, which `file` backs where it is on disk. A request
/// off a chunk boundary is a miss. Unless the caller has verified the source already, it is
/// verified against the hash first, and is a miss where it does not match.
pub fn answer_chunk_request<S: ChunkSource>(
    reader: &mut SourceReader<S>,
    file: Option<&SourceFile>,
    cache: &mut VerifiedHashCache,
    content_hash: &str,
    offset: u64,
    pre_verified: bool,
) -> (r: ChunkAnswer)
    ensures
        is_served(
            *old(reader),
            *final(reader),
            file,
            old(cache)@,
            content_hash@,
            offset,
            pre_verified,
            answer_view(r),
            final(cache)@,
        ),
{
    let ghost before = reader.reads();
    proof {
        assert(reads_since(before, before) =~= Seq::empty());
        assert(before + reads_since(before, before) =~= before);
    }
    if offset % (CHUNK_SIZE as u64) != 0 {
        return ChunkAnswer::Miss;
    }
    if !pre_verified {
        let expected = content_hash.to_owned();
        let verified = verify_source(reader, file, cache, &expected);
        if !verified {
            proof {
                let reads = reads_since(before, reader.reads());
                assert(reads.take(reads.len() as int) =~= reads);
            }
            return ChunkAnswer::Miss;
        }
    }
    let ghost verifying = reads_since(before, reader.reads());
    let result = reader.read(offset, CHUNK_SIZE);
    let ghost read = ReadRecord { offset, max_len: CHUNK_SIZE, given: read_view(result) };
    let answer = match result {
        Ok((bytes, _)) => ChunkAnswer::Data(bytes),
        Err(_) => ChunkAnswer::Miss,
    };
    proof {
        let reads = reads_since(before, reader.reads());
        let n = verifying.len() as int;
        assert(reads =~= verifying.push(read));
        assert(reads.take(n) =~= verifying);
        assert(reads.skip(n) =~= seq![read]);
        assert(reader.reads() =~= before + reads);
        assert(is_chunk_read(reads.skip(n), offset, answer_view(answer)));
        if pre_verified {
            assert(reads.skip(0) =~= reads);
        }
    }
    answer
}

/// Reads of bytes in memory that go through them give a prefix of them.
proof fn lemma_reads_are_a_prefix(source: Vec<u8>, reads: Seq<ReadRecord>)
    requires
        may_give_all(source, reads),
        goes_through(reads),
    ensures
        bytes_read(reads).len() <= source@.len(),
        bytes_read(reads) == source@.take(bytes_read(reads).len() as int),
    decreases reads.len(),
{
    if reads.len() > 0 {
        let earlier = reads.drop_last();
        assert forall|i: int| 0 <= i < earlier.len() implies (#[trigger] earlier[i]).offset
            == bytes_read(earlier.take(i)).len() && earlier[i].max_len == CHUNK_SIZE
            && !ends_reading(earlier[i]) && source.may_give(
            earlier[i].offset,
            earlier[i].max_len,
            earlier[i].given,
        ) by {
            assert(earlier[i] == reads[i]);
            assert(earlier.take(i) =~= reads.take(i));
        }
        lemma_reads_are_a_prefix(source, earlier);
        let read = reads[reads.len() - 1];
        assert(reads.take(reads.len() - 1) =~= earlier);
        assert(reads =~= earlier.push(read));
        lemma_bytes_read_push(earlier, read);
        let n = bytes_read(earlier).len();
        assert(bytes_given(read) == window_of(source@, n as int, CHUNK_SIZE as int));
        assert(bytes_read(reads) =~= source@.take(bytes_read(reads).len() as int));
    } else {
        assert(bytes_read(reads) =~= source@.take(0));
    }
}

/// Hashing bytes in memory gives their digest, and never fails.
pub proof fn law_memory_is_hashed_whole(source: Vec<u8>, reads: Seq<ReadRecord>)
    requires
        is_whole_reading(reads),
        may_give_all(source, reads),
    ensures
        digest_of_reading(reads) == Some(content_digest(source@)),
{
    let earlier = reads.drop_last();
    assert forall|i: int| 0 <= i < earlier.len() implies source.may_give(
        (#[trigger] earlier[i]).offset,
        earlier[i].max_len,
        earlier[i].given,
    ) by {
        assert(earlier[i] == reads[i]);
    }
    lemma_reads_are_a_prefix(source, earlier);
    let read = reads[reads.len() - 1];
    let n = bytes_read(earlier).len();
    assert(read.given == Some(read_of(source@, n as int, CHUNK_SIZE as int)));
    assert(reads =~= earlier.push(read));
    lemma_bytes_read_push(earlier, read);
    assert(bytes_read(reads) =~= source@);
}

/// A holder with the content in memory serves, at every chunk boundary, the canonical chunk of
/// that content if its digest is the requested hash, and nothing if it is not. One that was
/// verified before serves it whatever the hash.
pub proof fn law_memory_serves_its_content(
    source: Vec<u8>,
    cache: Map<Seq<char>, VerifiedView>,
    content_hash: Seq<char>,
    offset: u64,
    pre_verified: bool,
    reads: Seq<ReadRecord>,
    answer: Option<Seq<u8>>,
    after: Map<Seq<char>, VerifiedView>,
)
    requires
        offset % (CHUNK_SIZE as u64) == 0,
        may_give_all(source, reads),
        is_answer(None, cache, content_hash, offset, pre_verified, reads, answer, after),
    ensures
        after == cache,
        answer == if pre_verified || content_digest(source@) == content_hash {
            Some(window_of(source@, offset as int, CHUNK_SIZE as int))
        } else {
            None
        },
{
    if pre_verified {
        assert(source.may_give(reads[0].offset, reads[0].max_len, reads[0].given));
    } else {
        let (n, verified) = choose|n: int, verified: bool|
            0 <= n <= reads.len() && #[trigger] is_verification(
                None,
                cache,
                content_hash,
                reads.take(n),
                verified,
                after,
            ) && if verified {
                is_chunk_read(reads.skip(n), offset, answer)
            } else {
                n == reads.len() && answer is None
            };
        let hashing = reads.take(n);
        assert forall|i: int| 0 <= i < hashing.len() implies source.may_give(
            (#[trigger] hashing[i]).offset,
            hashing[i].max_len,
            hashing[i].given,
        ) by {
            assert(hashing[i] == reads[i]);
        }
        law_memory_is_hashed_whole(source, hashing);
        if verified {
            assert(reads.skip(n)[0] == reads[n]);
            assert(source.may_give(reads[n].offset, reads[n].max_len, reads[n].given));
        }
    }
}

/// A source that was verified before is read once for each chunk that is served of it, at that
/// chunk, and not at all for a request off a chunk boundary. So a source that is released once its
/// last chunk was read is not released before.
pub proof fn law_verified_source_is_read_chunk_by_chunk(
    file: Option<&SourceFile>,
    cache: Map<Seq<char>, VerifiedView>,
    content_hash: Seq<char>,
    offset: u64,
    reads: Seq<ReadRecord>,
    answer: Option<Seq<u8>>,
    after: Map<Seq<char>, VerifiedView>,
)
    requires
        is_answer(file, cache, content_hash, offset, true, reads, answer, after),
    ensures
        after == cache,
        reads.map_values(|read: ReadRecord| (read.offset, read.max_len)) == if offset % (
        CHUNK_SIZE as u64) == 0 {
            seq![(offset, CHUNK_SIZE)]
        } else {
            Seq::empty()
        },
{
}

/// A file is hashed once for as long as its time and size stay: once its hash is known, a request
/// for that content reads the chunk and nothing else, and a request for other content reads
/// nothing.
pub proof fn law_known_file_is_not_hashed_again(
    file: &SourceFile,
    cache: Map<Seq<char>, VerifiedView>,
    content_hash: Seq<char>,
    offset: u64,
    reads: Seq<ReadRecord>,
    answer: Option<Seq<u8>>,
    after: Map<Seq<char>, VerifiedView>,
)
    requires
        offset % (CHUNK_SIZE as u64) == 0,
        known_of(Some(file), cache) is Hash,
        is_answer(Some(file), cache, content_hash, offset, false, reads, answer, after),
    ensures
        after == cache,
        if known_of(Some(file), cache) == Known::Hash(content_hash) {
            is_chunk_read(reads, offset, answer)
        } else {
            reads.len() == 0 && answer is None
        },
{
    let (n, verified) = choose|n: int, verified: bool|
        0 <= n <= reads.len() && #[trigger] is_verification(
            Some(file),
            cache,
            content_hash,
            reads.take(n),
            verified,
            after,
        ) && if verified {
            is_chunk_read(reads.skip(n), offset, answer)
        } else {
            n == reads.len() && answer is None
        };
    assert(n == 0);
    assert(reads.skip(0) =~= reads);
}

/// A hash is taken from the cache only for the path, time and size it was put there with, so a
/// file whose time or size has changed is hashed again.
pub proof fn law_cache_forgets_changed_files(
    cache: Map<Seq<char>, VerifiedView>,
    path: Seq<char>,
    entry: VerifiedView,
    other: Seq<char>,
    mtime: Option<i128>,
    size: u64,
)
    ensures
        cached_hash(cache.insert(path, entry), path, entry.mtime, entry.size) == Some(entry.hash),
        mtime != entry.mtime || size != entry.size ==> cached_hash(
            cache.insert(path, entry),
            path,
            mtime,
            size,
        ) is None,
        other != path ==> cached_hash(cache.insert(path, entry), other, mtime, size)
            == cached_hash(cache, other, mtime, size),
{
}

} // verus!
