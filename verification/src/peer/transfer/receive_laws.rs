//! What holds of a receive over its whole run.

use vstd::prelude::*;

use crate::peer::transfer::hash::content_digest;
use crate::peer::transfer::receive::{
    due_chunks, flushed, lemma_waiting_remove, offsets_distinct, place_of, refill, waiting_bytes,
    waits_at, with_chunk, EndView, ReceiverView,
};
use crate::peer::transfer::source::window_of;
use crate::peer::transfer::{ChunkReplyView, CHUNK_SIZE, WINDOW};

verus! {

/// A receive completes only with the expected number of bytes at least, and only with the expected
/// hash.
pub proof fn law_complete_content_is_verified(view: ReceiverView, reply: ChunkReplyView)
    requires
        view.on_reply(reply).2 is Complete,
    ensures
        view.on_reply(reply).0.written.len() >= view.expected_size,
        content_digest(view.on_reply(reply).0.written) == view.content_hash,
{
}

/// The window is kept: requests fall on chunk boundaries below the ceiling, each is asked for
/// once and in order, no more than a window of them is out, and the window is left short only
/// when everything has been requested.
pub proof fn law_requests_fill_the_window(next: int, in_flight: int, ceiling: int)
    requires
        0 <= next,
        next % CHUNK_SIZE as int == 0,
        0 <= in_flight <= WINDOW,
    ensures
        ({
            let requests = refill(next, in_flight, ceiling);
            &&& in_flight + requests.len() <= WINDOW
            &&& forall|k: int|
                0 <= k < requests.len() ==> #[trigger] requests[k] == next + k * CHUNK_SIZE
                    && requests[k] % CHUNK_SIZE as int == 0 && requests[k] < ceiling
            &&& in_flight + requests.len() == WINDOW || next + requests.len() * CHUNK_SIZE
                >= ceiling
        }),
    decreases WINDOW - in_flight,
{
    let requests = refill(next, in_flight, ceiling);
    if in_flight < WINDOW && next < ceiling {
        law_requests_fill_the_window(next + CHUNK_SIZE, in_flight + 1, ceiling);
        let rest = refill(next + CHUNK_SIZE, in_flight + 1, ceiling);
        assert(requests == seq![next] + rest);
        assert forall|k: int| 0 <= k < requests.len() implies #[trigger] requests[k] == next + k
            * CHUNK_SIZE && requests[k] % CHUNK_SIZE as int == 0 && requests[k] < ceiling by {
            if k > 0 {
                assert(requests[k] == rest[k - 1]);
            }
        }
    }
}

/// A duplicate of a written chunk, or a late miss for one, changes nothing but the count of
/// requests that are out.
pub proof fn law_late_replies_change_nothing(view: ReceiverView, reply: ChunkReplyView)
    requires
        match reply {
            ChunkReplyView::Data { offset, .. } => offset < view.written.len(),
            ChunkReplyView::Miss { offset } => offset < view.written.len(),
        },
    ensures
        view.on_reply(reply).0 == (ReceiverView {
            in_flight: view.on_reply(reply).0.in_flight,
            ..view
        }),
        view.on_reply(reply).1 == Seq::<int>::empty(),
        view.on_reply(reply).2 is Going,
{
}

/// A reply leads to a chunk being written, and so opens the liveness window anew, only if it is
/// the chunk whose turn it is. A repeat, a chunk before its turn and a miss do not.
pub proof fn law_only_the_next_chunk_is_progress(view: ReceiverView, reply: ChunkReplyView)
    requires
        view.wf(),
    ensures
        view.writes_of(reply).len() > 0 <==> (reply matches ChunkReplyView::Data { offset, .. }
            && offset == view.written.len()),
{
    match reply {
        ChunkReplyView::Data { offset, bytes } => {
            let n = view.written.len() as int;
            let pending = with_chunk(view.pending, offset, bytes);
            if offset == n {
                assert(pending[view.pending.len() as int].0 == offset);
                assert(waits_at(pending, n));
                assert(due_chunks(view.written, pending).len() > 0);
            } else if offset > n && waits_at(pending, n) {
                let i = place_of(pending, n);
                assert(view.pending[i].0 == n);
                assert(false);
            }
        },
        ChunkReplyView::Miss { .. } => {},
    }
}

/// The receive has a prefix of `content`, whole chunks or all of it, and only chunks of it wait.
pub open spec fn is_faithful(
    written: Seq<u8>,
    pending: Seq<(u64, Seq<u8>)>,
    content: Seq<u8>,
) -> bool {
    &&& written.len() <= content.len()
    &&& written == content.take(written.len() as int)
    &&& written.len() % CHUNK_SIZE as nat == 0 || written.len() == content.len()
    &&& forall|i: int|
        0 <= i < pending.len() ==> (#[trigger] pending[i]).1 == window_of(
            content,
            pending[i].0 as int,
            CHUNK_SIZE as int,
        )
}

/// Putting chunks in place keeps the receive faithful, loses nothing, and leaves no chunk whose
/// turn has come.
proof fn lemma_flush_is_faithful(
    written: Seq<u8>,
    pending: Seq<(u64, Seq<u8>)>,
    content: Seq<u8>,
)
    requires
        is_faithful(written, pending, content),
    ensures
        is_faithful(flushed(written, pending).0, flushed(written, pending).1, content),
        flushed(written, pending).0.len() >= written.len(),
        !waits_at(flushed(written, pending).1, flushed(written, pending).0.len() as int),
        forall|offset: int|
            #[trigger] waits_at(pending, offset) ==> offset < flushed(written, pending).0.len()
                || waits_at(flushed(written, pending).1, offset) || offset >= content.len(),
    decreases pending.len(),
{
    let n = written.len() as int;
    if waits_at(pending, n) {
        let i = place_of(pending, n);
        let chunk = pending[i].1;
        let next = written + chunk;
        let rest = pending.remove(i);
        assert(chunk == window_of(content, n, CHUNK_SIZE as int));
        assert(next =~= content.take(next.len() as int));
        assert forall|j: int| 0 <= j < rest.len() implies (#[trigger] rest[j]).1 == window_of(
            content,
            rest[j].0 as int,
            CHUNK_SIZE as int,
        ) by {
            if j < i {
                assert(rest[j] == pending[j]);
            } else {
                assert(rest[j] == pending[j + 1]);
            }
        }
        lemma_flush_is_faithful(next, rest, content);
        assert forall|offset: int| #[trigger] waits_at(pending, offset) implies offset < flushed(
            written,
            pending,
        ).0.len() || waits_at(flushed(written, pending).1, offset) || offset >= content.len() by {
            if offset != n {
                let k = place_of(pending, offset);
                if k < i {
                    assert(rest[k] == pending[k]);
                } else {
                    assert(k != i);
                    assert(rest[k - 1] == pending[k]);
                }
                assert(waits_at(rest, offset));
            }
        }
    }
}

/// The offset has been taken in: its chunk is written or waits.
pub open spec fn is_taken_in(view: ReceiverView, offset: int) -> bool {
    offset < view.written.len() || waits_at(view.pending, offset)
}

/// The receive after the chunks of `content` at these offsets arrived, one after the other.
pub open spec fn after_chunks(
    view: ReceiverView,
    content: Seq<u8>,
    offsets: Seq<u64>,
) -> ReceiverView
    decreases offsets.len(),
{
    if offsets.len() == 0 {
        view
    } else {
        let before = after_chunks(view, content, offsets.drop_last());
        let offset = offsets.last();
        let bytes = window_of(content, offset as int, CHUNK_SIZE as int);
        before.on_reply(ChunkReplyView::Data { offset, bytes }).0
    }
}

/// One chunk of the content keeps the receive faithful and is taken in, and what was taken in
/// before stays so.
proof fn lemma_chunk_is_taken_in(view: ReceiverView, content: Seq<u8>, offset: u64)
    requires
        is_faithful(view.written, view.pending, content),
    ensures
        ({
            let bytes = window_of(content, offset as int, CHUNK_SIZE as int);
            let after = view.on_reply(ChunkReplyView::Data { offset, bytes }).0;
            &&& is_faithful(after.written, after.pending, content)
            &&& !waits_at(view.pending, view.written.len() as int) ==> !waits_at(
                after.pending,
                after.written.len() as int,
            )
            &&& offset < content.len() ==> is_taken_in(after, offset as int)
            &&& forall|other: int|
                0 <= other < content.len() && #[trigger] is_taken_in(view, other) ==> is_taken_in(
                    after,
                    other,
                )
        }),
{
    let bytes = window_of(content, offset as int, CHUNK_SIZE as int);
    let after = view.on_reply(ChunkReplyView::Data { offset, bytes }).0;
    if offset >= view.written.len() {
        let pending = with_chunk(view.pending, offset, bytes);
        assert(is_faithful(view.written, pending, content));
        lemma_flush_is_faithful(view.written, pending, content);
        assert(after.written == flushed(view.written, pending).0);
        assert(after.pending == flushed(view.written, pending).1);
        assert(waits_at(pending, offset as int)) by {
            if !waits_at(view.pending, offset as int) {
                assert(pending[view.pending.len() as int].0 == offset);
            }
        }
        assert forall|other: int|
            0 <= other < content.len() && #[trigger] is_taken_in(view, other) implies is_taken_in(
            after,
            other,
        ) by {
            if waits_at(view.pending, other) {
                let k = place_of(view.pending, other);
                assert(pending[k].0 == other);
                assert(waits_at(pending, other));
            }
        }
    }
}

/// Content arrives whatever the order of its chunks, and however often some of them come: once
/// every chunk has arrived at least once, exactly the content has been written, and its digest
/// decides the receive.
pub proof fn law_chunks_arrive_in_any_order(
    content_hash: Seq<char>,
    content: Seq<u8>,
    offsets: Seq<u64>,
)
    requires
        content.len() <= u64::MAX,
        forall|offset: u64|
            offset % (CHUNK_SIZE as u64) == 0 && offset < content.len() ==> #[trigger]
            offsets.contains(offset),
    ensures
        ({
            let fresh = ReceiverView::fresh(content_hash, content.len() as u64).refilled();
            let after = after_chunks(fresh, content, offsets);
            &&& after.written == content
            &&& after.is_whole()
            &&& after.verdict() == if content_digest(content) == content_hash {
                EndView::Complete
            } else {
                EndView::HashMismatch { expected: content_hash, actual: content_digest(content) }
            }
        }),
{
    let fresh = ReceiverView::fresh(content_hash, content.len() as u64).refilled();
    let after = after_chunks(fresh, content, offsets);
    lemma_all_taken_in(fresh, content, offsets);
    let n = after.written.len();
    if n < content.len() {
        assert(offsets.contains(n as u64));
        let k = offsets.index_of(n as u64);
        assert(is_taken_in(after, offsets[k] as int));
        assert(false);
    }
    assert(after.written =~= content);
}

proof fn lemma_all_taken_in(fresh: ReceiverView, content: Seq<u8>, offsets: Seq<u64>)
    requires
        fresh.written.len() == 0,
        fresh.pending.len() == 0,
    ensures
        ({
            let after = after_chunks(fresh, content, offsets);
            &&& after.expected_size == fresh.expected_size
            &&& after.content_hash == fresh.content_hash
            &&& is_faithful(after.written, after.pending, content)
            &&& !waits_at(after.pending, after.written.len() as int)
            &&& forall|k: int|
                0 <= k < offsets.len() && #[trigger] offsets[k] < content.len() ==> is_taken_in(
                    after,
                    offsets[k] as int,
                )
        }),
    decreases offsets.len(),
{
    if offsets.len() == 0 {
        assert(fresh.written =~= content.take(0));
    } else {
        let shorter = offsets.drop_last();
        lemma_all_taken_in(fresh, content, shorter);
        let before = after_chunks(fresh, content, shorter);
        lemma_chunk_is_taken_in(before, content, offsets.last());
        let after = after_chunks(fresh, content, offsets);
        assert forall|k: int|
            0 <= k < offsets.len() && #[trigger] offsets[k] < content.len() implies is_taken_in(
            after,
            offsets[k] as int,
        ) by {
            if k < shorter.len() {
                assert(shorter[k] == offsets[k]);
                assert(is_taken_in(before, offsets[k] as int));
            }
        }
    }
}

/// Waiting chunks have offsets of their own, each a chunk boundary at or past the end of what is
/// written.
pub open spec fn is_in_step(written: Seq<u8>, pending: Seq<(u64, Seq<u8>)>) -> bool {
    &&& offsets_distinct(pending)
    &&& forall|i: int|
        0 <= i < pending.len() ==> (#[trigger] pending[i]).0 >= written.len() && pending[i].0
            % (CHUNK_SIZE as u64) == 0
}

/// Taking a chunk out of those that wait keeps the rest as they were.
proof fn lemma_remove_in_step(pending: Seq<(u64, Seq<u8>)>, k: int)
    requires
        offsets_distinct(pending),
        0 <= k < pending.len(),
    ensures
        offsets_distinct(pending.remove(k)),
        forall|j: int|
            0 <= j < pending.remove(k).len() ==> (#[trigger] pending.remove(k)[j]).0
                != pending[k].0 && pending.contains(pending.remove(k)[j]),
{
    let rest = pending.remove(k);
    assert forall|j: int| 0 <= j < rest.len() implies (#[trigger] rest[j]).0 != pending[k].0
        && pending.contains(rest[j]) by {
        if j < k {
            assert(rest[j] == pending[j]);
        } else {
            assert(rest[j] == pending[j + 1]);
        }
    }
    assert forall|a: int, b: int|
        0 <= a < rest.len() && 0 <= b < rest.len() && a != b implies (#[trigger] rest[a]).0 != (
    #[trigger] rest[b]).0 by {
        let x = if a < k { a } else { a + 1 };
        let y = if b < k { b } else { b + 1 };
        assert(rest[a] == pending[x] && rest[b] == pending[y]);
    }
}

/// Chunks of `content` from `low` on, each waiting once, hold no more bytes than `content` has
/// from there.
proof fn lemma_waiting_is_bounded(pending: Seq<(u64, Seq<u8>)>, content: Seq<u8>, low: int)
    requires
        0 <= low,
        low % CHUNK_SIZE as int == 0 || low >= content.len(),
        offsets_distinct(pending),
        forall|i: int|
            0 <= i < pending.len() ==> (#[trigger] pending[i]).0 >= low && pending[i].0
                % (CHUNK_SIZE as u64) == 0 && pending[i].1 == window_of(
                content,
                pending[i].0 as int,
                CHUNK_SIZE as int,
            ),
    ensures
        waiting_bytes(pending) <= if low < content.len() {
            content.len() - low
        } else {
            0
        },
    decreases
            if low < content.len() {
                content.len() - low
            } else {
                0
            },
            pending.len(),
{
    if low >= content.len() {
        if pending.len() > 0 {
            assert(pending.last() == pending[pending.len() - 1]);
            let rest = pending.drop_last();
            assert forall|i: int| 0 <= i < rest.len() implies (#[trigger] rest[i]) == pending[i] by {}
            lemma_waiting_is_bounded(rest, content, low);
        }
    } else if waits_at(pending, low) {
        let k = place_of(pending, low);
        let rest = pending.remove(k);
        lemma_waiting_remove(pending, k);
        lemma_remove_in_step(pending, k);
        assert forall|j: int| 0 <= j < rest.len() implies (#[trigger] rest[j]).0 >= low
            + CHUNK_SIZE && rest[j].0 % (CHUNK_SIZE as u64) == 0 && rest[j].1 == window_of(
            content,
            rest[j].0 as int,
            CHUNK_SIZE as int,
        ) by {
            let i = pending.index_of(rest[j]);
            assert(pending[i] == rest[j]);
        }
        lemma_waiting_is_bounded(rest, content, low + CHUNK_SIZE);
    } else {
        assert forall|i: int| 0 <= i < pending.len() implies (#[trigger] pending[i]).0 >= low
            + CHUNK_SIZE by {
            assert(pending[i].0 != low);
        }
        lemma_waiting_is_bounded(pending, content, low + CHUNK_SIZE);
    }
}

/// Putting chunks of `content` in place keeps those that still wait in step.
proof fn lemma_flush_in_step(written: Seq<u8>, pending: Seq<(u64, Seq<u8>)>, content: Seq<u8>)
    requires
        is_faithful(written, pending, content),
        is_in_step(written, pending),
    ensures
        is_in_step(flushed(written, pending).0, flushed(written, pending).1),
    decreases pending.len(),
{
    let n = written.len() as int;
    if waits_at(pending, n) {
        let k = place_of(pending, n);
        let chunk = pending[k].1;
        let next = written + chunk;
        let rest = pending.remove(k);
        lemma_remove_in_step(pending, k);
        assert(next =~= content.take(next.len() as int));
        assert forall|j: int| 0 <= j < rest.len() implies (#[trigger] rest[j]).0 >= next.len()
            && rest[j].0 % (CHUNK_SIZE as u64) == 0 && rest[j].1 == window_of(
            content,
            rest[j].0 as int,
            CHUNK_SIZE as int,
        ) by {
            let i = pending.index_of(rest[j]);
            assert(pending[i] == rest[j]);
        }
        lemma_flush_in_step(next, rest, content);
    }
}

/// Chunks of the content, at chunk boundaries and from a fresh receive on, keep what waits in
/// step.
proof fn lemma_chunks_in_step(fresh: ReceiverView, content: Seq<u8>, offsets: Seq<u64>)
    requires
        fresh.written.len() == 0,
        fresh.pending.len() == 0,
        forall|k: int|
            0 <= k < offsets.len() ==> #[trigger] offsets[k] % (CHUNK_SIZE as u64) == 0,
    ensures
        ({
            let after = after_chunks(fresh, content, offsets);
            is_in_step(after.written, after.pending)
        }),
    decreases offsets.len(),
{
    if offsets.len() > 0 {
        let shorter = offsets.drop_last();
        assert forall|k: int| 0 <= k < shorter.len() implies #[trigger] shorter[k]
            % (CHUNK_SIZE as u64) == 0 by {
            assert(shorter[k] == offsets[k]);
        }
        lemma_chunks_in_step(fresh, content, shorter);
        lemma_all_taken_in(fresh, content, shorter);
        let before = after_chunks(fresh, content, shorter);
        let offset = offsets.last();
        assert(offset == offsets[offsets.len() - 1]);
        let bytes = window_of(content, offset as int, CHUNK_SIZE as int);
        if offset >= before.written.len() {
            let pending = with_chunk(before.pending, offset, bytes);
            assert(is_faithful(before.written, pending, content));
            assert(is_in_step(before.written, pending));
            lemma_flush_in_step(before.written, pending, content);
        }
    }
}

/// Whatever chunks of the content have arrived, in whatever order and however often, there is
/// room for every other chunk of it: a receive is never refused one.
pub proof fn law_content_always_has_room(
    content_hash: Seq<char>,
    content: Seq<u8>,
    offsets: Seq<u64>,
    offset: u64,
)
    requires
        content.len() <= u64::MAX - CHUNK_SIZE,
        forall|k: int|
            0 <= k < offsets.len() ==> #[trigger] offsets[k] % (CHUNK_SIZE as u64) == 0,
    ensures
        ({
            let fresh = ReceiverView::fresh(content_hash, content.len() as u64).refilled();
            let bytes = window_of(content, offset as int, CHUNK_SIZE as int);
            after_chunks(fresh, content, offsets).has_room(ChunkReplyView::Data { offset, bytes })
        }),
{
    let fresh = ReceiverView::fresh(content_hash, content.len() as u64).refilled();
    let after = after_chunks(fresh, content, offsets);
    lemma_all_taken_in(fresh, content, offsets);
    lemma_chunks_in_step(fresh, content, offsets);
    lemma_waiting_is_bounded(after.pending, content, after.written.len() as int);
}

/// How the receive stands once the chunk at place `k` of `offsets` was taken in after those
/// before it.
pub open spec fn end_at(
    view: ReceiverView,
    content: Seq<u8>,
    offsets: Seq<u64>,
    k: int,
) -> EndView {
    let offset = offsets[k];
    let bytes = window_of(content, offset as int, CHUNK_SIZE as int);
    after_chunks(view, content, offsets.take(k)).on_reply(ChunkReplyView::Data { offset, bytes }).2
}

/// Of the places up to `n` after which everything is written, there is a first.
proof fn lemma_first_whole(view: ReceiverView, content: Seq<u8>, offsets: Seq<u64>, n: int) -> (k:
    int)
    requires
        0 < n <= offsets.len(),
        after_chunks(view, content, offsets.take(n)).is_whole(),
    ensures
        0 <= k < n,
        after_chunks(view, content, offsets.take(k + 1)).is_whole(),
        forall|j: int|
            0 < j <= k ==> !(#[trigger] after_chunks(view, content, offsets.take(j))).is_whole(),
    decreases n,
{
    if exists|j: int|
        0 < j < n && (#[trigger] after_chunks(view, content, offsets.take(j))).is_whole() {
        let j = choose|j: int|
            0 < j < n && (#[trigger] after_chunks(view, content, offsets.take(j))).is_whole();
        lemma_first_whole(view, content, offsets, j)
    } else {
        n - 1
    }
}

/// Content that arrives chunk by chunk, in any order and with any repeats, is received: the
/// receive goes on until some chunk makes it whole, there is room for each chunk up to it, and
/// then exactly the content is written and its digest decides.
pub proof fn law_content_is_received_in_any_order(
    content_hash: Seq<char>,
    content: Seq<u8>,
    offsets: Seq<u64>,
) -> (last: int)
    requires
        content.len() <= u64::MAX - CHUNK_SIZE,
        offsets.len() > 0,
        forall|k: int|
            0 <= k < offsets.len() ==> #[trigger] offsets[k] % (CHUNK_SIZE as u64) == 0,
        forall|offset: u64|
            offset % (CHUNK_SIZE as u64) == 0 && offset < content.len() ==> #[trigger]
            offsets.contains(offset),
    ensures
        0 <= last < offsets.len(),
        ({
            let fresh = ReceiverView::fresh(content_hash, content.len() as u64).refilled();
            &&& forall|k: int|
                0 <= k <= last ==> (#[trigger] after_chunks(
                    fresh,
                    content,
                    offsets.take(k),
                )).has_room(
                    ChunkReplyView::Data {
                        offset: offsets[k],
                        bytes: window_of(content, offsets[k] as int, CHUNK_SIZE as int),
                    },
                )
            &&& forall|k: int|
                0 <= k < last ==> (#[trigger] end_at(fresh, content, offsets, k)) is Going
            &&& end_at(fresh, content, offsets, last) == if content_digest(content)
                == content_hash {
                EndView::Complete
            } else {
                EndView::HashMismatch { expected: content_hash, actual: content_digest(content) }
            }
            &&& after_chunks(fresh, content, offsets.take(last + 1)).written == content
        }),
{
    let fresh = ReceiverView::fresh(content_hash, content.len() as u64).refilled();
    law_chunks_arrive_in_any_order(content_hash, content, offsets);
    assert(offsets.take(offsets.len() as int) =~= offsets);
    let last = lemma_first_whole(fresh, content, offsets, offsets.len() as int);
    assert forall|k: int| 0 <= k <= last implies (#[trigger] after_chunks(
        fresh,
        content,
        offsets.take(k),
    )).has_room(
        ChunkReplyView::Data {
            offset: offsets[k],
            bytes: window_of(content, offsets[k] as int, CHUNK_SIZE as int),
        },
    ) by {
        law_content_always_has_room(content_hash, content, offsets.take(k), offsets[k]);
    }
    assert forall|k: int| 0 <= k <= last implies (#[trigger] end_at(fresh, content, offsets, k))
        == {
        let after = after_chunks(fresh, content, offsets.take(k + 1));
        if after.is_whole() {
            after.verdict()
        } else {
            EndView::Going
        }
    } by {
        let before = after_chunks(fresh, content, offsets.take(k));
        assert(offsets.take(k + 1).drop_last() =~= offsets.take(k));
        assert(offsets.take(k + 1).last() == offsets[k]);
        lemma_all_taken_in(fresh, content, offsets.take(k));
        assert(content.len() > 0 && k > 0 ==> !before.is_whole());
    }
    let after = after_chunks(fresh, content, offsets.take(last + 1));
    lemma_all_taken_in(fresh, content, offsets.take(last + 1));
    assert(after.written =~= content);
    last
}

} // verus!
