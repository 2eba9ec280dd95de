//! What a receiver asks for and what a holder says, said of offsets and of what the holder knows.

use vstd::prelude::*;

use crate::peer::transfer::hash::content_digest;
use crate::peer::transfer::receive::{waits_at, EndView, ReceiverView};
use crate::peer::transfer::receive_laws::law_requests_fill_the_window;
use crate::peer::transfer::serve::{
    is_answer, is_chunk_read, is_verification, law_memory_is_hashed_whole, SourceFile, VerifiedView,
};
use crate::peer::transfer::source::{may_give_all, read_of, window_of, ReadRecord};
use crate::peer::transfer::{ChunkReplyView, CHUNK_SIZE, WINDOW};

verus! {

/// A receiver starts by asking for the chunks of the content from its beginning, a window of them or
/// all there are; for content of no bytes it asks for the one chunk there is.
pub proof fn law_receive_starts_from_the_beginning(content_hash: Seq<char>, expected_size: u64)
    ensures
        ({
            let fresh = ReceiverView::fresh(content_hash, expected_size);
            let start = fresh.refilled();
            let requests = fresh.refill_requests();
            &&& requests.len() > 0
            &&& forall|k: int|
                0 <= k < requests.len() ==> #[trigger] requests[k] == k * CHUNK_SIZE && (requests[k]
                    < expected_size || k == 0)
            &&& requests.len() == WINDOW || requests.len() * CHUNK_SIZE >= expected_size
            &&& requests.len() <= WINDOW
            &&& start.in_flight == requests.len()
            &&& start.next_request == requests.len() * CHUNK_SIZE
            &&& start.written.len() == 0 && start.pending.len() == 0
            &&& start.content_hash == content_hash && start.expected_size == expected_size
        }),
{
    let fresh = ReceiverView::fresh(content_hash, expected_size);
    law_requests_fill_the_window(0, 0, fresh.ceiling());
    let requests = fresh.refill_requests();
    if requests.len() == 0 {
        assert(0int + requests.len() * CHUNK_SIZE >= fresh.ceiling());
    }
    assert forall|k: int| 0 <= k < requests.len() implies #[trigger] requests[k] == k * CHUNK_SIZE
        && (requests[k] < expected_size || k == 0) by {
        assert(requests[k] == 0 + k * CHUNK_SIZE);
    }
}

/// A chunk that was still wanted and does not make the content whole leads to the next chunks being
/// asked for, one after the other from where the last request was, until a window of requests is out
/// or all has been asked for.
pub proof fn law_wanted_chunk_leads_to_the_next(view: ReceiverView, offset: u64, bytes: Seq<u8>)
    requires
        view.wf(),
        offset >= view.written.len(),
        view.on_reply(ChunkReplyView::Data { offset, bytes }).0.written.len() < view.expected_size,
    ensures
        ({
            let (after, requests, end) = view.on_reply(ChunkReplyView::Data { offset, bytes });
            &&& end is Going
            &&& forall|k: int|
                0 <= k < requests.len() ==> #[trigger] requests[k] == view.next_request + k
                    * CHUNK_SIZE
            &&& after.next_request == view.next_request + requests.len() * CHUNK_SIZE
            &&& after.in_flight == WINDOW || after.next_request >= view.expected_size
            &&& after.in_flight <= WINDOW
            &&& view.in_flight > 0 ==> after.in_flight == view.in_flight - 1 + requests.len()
            &&& after.content_hash == view.content_hash && after.expected_size
                == view.expected_size
        }),
{
    let taken = view.with_data(offset, bytes);
    law_requests_fill_the_window(taken.next_request, taken.in_flight, taken.ceiling());
}

/// A chunk that is still wanted and that nobody has ends the receive, and so does content that is
/// whole: with success if its digest is the expected one, else with both.
pub proof fn law_receive_ends_with_a_miss_or_the_whole(view: ReceiverView, offset: u64, bytes: Seq<u8>)
    requires
        offset >= view.written.len(),
    ensures
        view.on_reply(ChunkReplyView::Miss { offset }).2 == (EndView::ChunkUnavailable { offset }),
        view.on_reply(ChunkReplyView::Miss { offset }).0 == view,
        ({
            let (after, requests, end) = view.on_reply(ChunkReplyView::Data { offset, bytes });
            after.written.len() >= view.expected_size ==> requests.len() == 0 && end
                == if content_digest(after.written) == view.content_hash {
                EndView::Complete
            } else {
                EndView::HashMismatch {
                    expected: view.content_hash,
                    actual: content_digest(after.written),
                }
            }
        }),
{
}

/// A request off a chunk boundary is missed, whatever is known, without a read.
pub proof fn law_request_off_a_boundary_is_missed(
    file: Option<&SourceFile>,
    cache: Map<Seq<char>, VerifiedView>,
    content_hash: Seq<char>,
    offset: u64,
    pre_verified: bool,
    reads: Seq<ReadRecord>,
    answer: Option<Seq<u8>>,
    after: Map<Seq<char>, VerifiedView>,
)
    requires
        is_answer(file, cache, content_hash, offset, pre_verified, reads, answer, after),
        offset % 262144 != 0,
    ensures
        answer is None,
        reads.len() == 0,
        after == cache,
{
}

/// A file whose hash was remembered at its time and size is not hashed again: the chunk is read and
/// served if the hash is the requested one, and nothing is read if it is not. A file that cannot be
/// asked for its time and size is missed without a read.
pub proof fn law_remembered_file_is_not_hashed_again(
    file: &SourceFile,
    cache: Map<Seq<char>, VerifiedView>,
    content_hash: Seq<char>,
    offset: u64,
    reads: Seq<ReadRecord>,
    answer: Option<Seq<u8>>,
    after: Map<Seq<char>, VerifiedView>,
)
    requires
        offset % 262144 == 0,
        is_answer(Some(file), cache, content_hash, offset, false, reads, answer, after),
        match file.stat {
            Some((mtime, size)) => cache.dom().contains(file.path@) && cache[file.path@].mtime
                == mtime && cache[file.path@].size == size,
            None => true,
        },
    ensures
        after == cache,
        file.stat is Some && cache[file.path@].hash == content_hash ==> reads.len() == 1
            && reads[0].offset == offset && reads[0].max_len == 262144 && answer == (
        match reads[0].given {
            Some((bytes, _)) => Some(bytes),
            None => None,
        }),
        file.stat is None || cache[file.path@].hash != content_hash ==> reads.len() == 0
            && answer is None,
{
    let (n, verified) = choose|n: int, verified: bool|
        0 <= n <= reads.len() && #[trigger] is_verification(
            Some(file),
            cache,
            content_hash,
            reads.take(n),
            verified,
            after,
        ) && if verified {
            is_chunk_read(reads.skip(n), offset, answer)
        } else {
            n == reads.len() && answer is None
        };
    assert(reads.take(n).len() == n);
    assert(n == 0);
    assert(reads.skip(n) =~= reads);
}

/// A file that is not remembered at its time and size is hashed, and remembered at them with the hash
/// it has, whether or not that is the requested one; the chunk is served if it is. Said of a file
/// whose content stays while it is read.
pub proof fn law_hashed_file_is_remembered(
    source: Vec<u8>,
    file: &SourceFile,
    mtime: Option<i128>,
    size: u64,
    cache: Map<Seq<char>, VerifiedView>,
    content_hash: Seq<char>,
    offset: u64,
    reads: Seq<ReadRecord>,
    answer: Option<Seq<u8>>,
    after: Map<Seq<char>, VerifiedView>,
)
    requires
        offset % 262144 == 0,
        may_give_all(source, reads),
        is_answer(Some(file), cache, content_hash, offset, false, reads, answer, after),
        file.stat == Some((mtime, size)),
        !cache.dom().contains(file.path@) || cache[file.path@].mtime != mtime
            || cache[file.path@].size != size,
    ensures
        after == cache.insert(
            file.path@,
            VerifiedView { mtime, size, hash: content_digest(source@) },
        ),
        answer == if content_digest(source@) == content_hash {
            Some(window_of(source@, offset as int, 262144))
        } else {
            None
        },
{
    let (n, verified) = choose|n: int, verified: bool|
        0 <= n <= reads.len() && #[trigger] is_verification(
            Some(file),
            cache,
            content_hash,
            reads.take(n),
            verified,
            after,
        ) && if verified {
            is_chunk_read(reads.skip(n), offset, answer)
        } else {
            n == reads.len() && answer is None
        };
    let hashing = reads.take(n);
    assert forall|i: int| 0 <= i < hashing.len() implies crate::peer::transfer::source::ChunkSource::may_give(
        &source,
        (#[trigger] hashing[i]).offset,
        hashing[i].max_len,
        hashing[i].given,
    ) by {
        assert(hashing[i] == reads[i]);
    }
    law_memory_is_hashed_whole(source, hashing);
    if verified {
        assert(reads.skip(n)[0] == reads[n]);
    }
}

/// The chunk of content at an offset is its bytes from there, as many as a chunk has or as are left,
/// and it is the last if none are left after it.
pub proof fn law_chunk_is_the_bytes_at_its_offset(content: Seq<u8>, offset: int, i: int)
    requires
        0 <= offset,
    ensures
        ({
            let chunk = window_of(content, offset, CHUNK_SIZE as int);
            &&& offset >= content.len() ==> chunk.len() == 0
            &&& offset < content.len() <= offset + 262144 ==> chunk.len() == content.len() - offset
            &&& offset + 262144 < content.len() ==> chunk.len() == 262144
            &&& 0 <= i < chunk.len() ==> chunk[i] == content[offset + i]
            &&& read_of(content, offset, CHUNK_SIZE as int).0 == chunk
            &&& read_of(content, offset, CHUNK_SIZE as int).1 <==> offset + chunk.len()
                >= content.len()
        }),
{
}

/// An answer to what was already written changes nothing but that a repeated chunk makes room for
/// another request.
pub proof fn law_late_answer_only_makes_room(view: ReceiverView, offset: u64, bytes: Seq<u8>)
    requires
        offset < view.written.len(),
        view.in_flight >= 0,
    ensures
        ({
            let (after, requests, end) = view.on_reply(ChunkReplyView::Data { offset, bytes });
            &&& requests.len() == 0 && end is Going
            &&& after.in_flight == if view.in_flight > 0 {
                view.in_flight - 1
            } else {
                0
            }
            &&& after.written == view.written && after.pending == view.pending
            &&& after.next_request == view.next_request && after.expected_size
                == view.expected_size && after.content_hash == view.content_hash
        }),
        ({
            let (after, requests, end) = view.on_reply(ChunkReplyView::Miss { offset });
            after == view && requests.len() == 0 && end is Going
        }),
{
}

/// A chunk that comes before its turn waits as it came first: one that comes for the same place
/// after it is dropped.
pub proof fn law_first_chunk_to_wait_stays(
    view: ReceiverView,
    offset: u64,
    first: Seq<u8>,
    second: Seq<u8>,
)
    requires
        offset > view.written.len(),
        forall|i: int|
            0 <= i < view.pending.len() ==> (#[trigger] view.pending[i]).0 != view.written.len()
                && view.pending[i].0 != offset,
    ensures
        ({
            let once = view.with_data(offset, first);
            let twice = once.with_data(offset, second);
            &&& once.written == view.written && once.pending == view.pending.push((offset, first))
            &&& twice.written == once.written && twice.pending == once.pending
        }),
{
    let once = view.with_data(offset, first);
    let pending = view.pending.push((offset, first));
    assert(!waits_at(view.pending, offset as int));
    assert(!waits_at(pending, view.written.len() as int));
    assert(pending[view.pending.len() as int].0 == offset);
    assert(once.pending == pending);
    assert(waits_at(once.pending, offset as int));
}

} // verus!
