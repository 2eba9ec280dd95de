//! The receiver's side: a window of requests in flight, chunks put in order as they arrive, and
//! the hash of the whole checked at the end.
//!
//! The receiver only decides. Whoever drives it sends the requests it asks for, writes the
//! chunks it hands over to the end of the file, and tells it what came back.

use vstd::prelude::*;

use crate::file_bytes::FileBytes;
use crate::peer::transfer::hash::{
    content_digest, digest_text, hasher_input, new_hasher, take_in,
};
use crate::peer::transfer::serve::joined;
use crate::peer::transfer::{
    ChunkReply, ChunkReplyView, ChunkRequest, ReceiveOutcome, TransferError, CHUNK_SIZE,
    HOP_TIMEOUT, WINDOW,
};

verus! {

/// A receive in progress.
pub struct Receiver {
    content_hash: String,
    expected_size: u64,
    next_request_offset: u64,
    in_flight: u64,
    write_offset: u64,
    held: u64,
    pending: Vec<(u64, Vec<u8>)>,
    hasher: blake3::Hasher,
}

/// The model of a receive in progress.
#[verifier::ext_equal]
pub struct ReceiverView {
    pub content_hash: Seq<char>,
    pub expected_size: u64,
    /// Where the next request starts.
    pub next_request: int,
    /// How many requests are out.
    pub in_flight: int,
    /// The content so far, in order.
    pub written: Seq<u8>,
    /// Chunks that arrived before their turn, with their offsets.
    pub pending: Seq<(u64, Seq<u8>)>,
}

/// What a receiver learns.
#[derive(Debug)]
pub enum ReceiveEvent {
    /// A reply arrived.
    Reply(ChunkReply),
    /// No reply will arrive any more.
    Closed,
    /// No chunk was written within the liveness window.
    Silent,
}

/// What a receiver asks for in return.
#[derive(Debug)]
pub struct ReceiveStep {
    /// Chunks to write to the end of the file, in order.
    pub writes: Vec<Vec<u8>>,
    /// Requests to send.
    pub requests: Vec<ChunkRequest>,
    /// How the receive ended, if it did.
    pub end: Option<Result<(), TransferError>>,
}

/// The model of how a receive stands.
pub enum EndView {
    Going,
    Complete,
    ChunkUnavailable { offset: u64 },
    HashMismatch { expected: Seq<char>, actual: Seq<char> },
    LivenessTimeout,
    ChannelClosed,
}

/// The model of the end of a step. A receiver itself writes nothing, so it never reports a
/// failed write.
pub open spec fn is_end(end: Option<Result<(), TransferError>>, view: EndView) -> bool {
    match (end, view) {
        (None, EndView::Going) => true,
        (Some(Ok(())), EndView::Complete) => true,
        (
            Some(Err(TransferError::ChunkUnavailable { offset: a })),
            EndView::ChunkUnavailable { offset: b },
        ) => a == b,
        (
            Some(Err(TransferError::HashMismatch { expected: a, actual: b })),
            EndView::HashMismatch { expected: c, actual: d },
        ) => a@ == c && b@ == d,
        (Some(Err(TransferError::LivenessTimeout)), EndView::LivenessTimeout) => true,
        (Some(Err(TransferError::ChannelClosed)), EndView::ChannelClosed) => true,
        _ => false,
    }
}

/// The models of some chunks.
pub open spec fn chunk_views(chunks: Seq<Vec<u8>>) -> Seq<Seq<u8>> {
    chunks.map_values(|chunk: Vec<u8>| chunk@)
}

/// The models of some waiting chunks.
pub open spec fn pending_views(pending: Seq<(u64, Vec<u8>)>) -> Seq<(u64, Seq<u8>)> {
    pending.map_values(|chunk: (u64, Vec<u8>)| (chunk.0, chunk.1@))
}

/// The offsets of some requests.
pub open spec fn request_offsets(requests: Seq<ChunkRequest>) -> Seq<int> {
    requests.map_values(|request: ChunkRequest| request.offset as int)
}

/// A chunk at this offset is waiting.
pub open spec fn waits_at(pending: Seq<(u64, Seq<u8>)>, offset: int) -> bool {
    exists|i: int| 0 <= i < pending.len() && (#[trigger] pending[i]).0 == offset
}

/// Where the chunk at this offset waits.
pub open spec fn place_of(pending: Seq<(u64, Seq<u8>)>, offset: int) -> int
    recommends
        waits_at(pending, offset),
{
    choose|i: int| 0 <= i < pending.len() && (#[trigger] pending[i]).0 == offset
}

/// No two waiting chunks have one offset.
pub open spec fn offsets_distinct(pending: Seq<(u64, Seq<u8>)>) -> bool {
    forall|i: int, j: int|
        0 <= i < pending.len() && 0 <= j < pending.len() && i != j ==> (#[trigger] pending[i]).0
            != (#[trigger] pending[j]).0
}

/// How many bytes wait.
pub open spec fn waiting_bytes(pending: Seq<(u64, Seq<u8>)>) -> int
    decreases pending.len(),
{
    if pending.len() == 0 {
        0
    } else {
        waiting_bytes(pending.drop_last()) + pending.last().1.len()
    }
}

/// The chunks that wait after one more arrived; the first to arrive at an offset stays.
pub open spec fn with_chunk(
    pending: Seq<(u64, Seq<u8>)>,
    offset: u64,
    bytes: Seq<u8>,
) -> Seq<(u64, Seq<u8>)> {
    if waits_at(pending, offset as int) {
        pending
    } else {
        pending.push((offset, bytes))
    }
}

/// The content and the waiting chunks once every chunk whose turn has come is in place.
pub open spec fn flushed(written: Seq<u8>, pending: Seq<(u64, Seq<u8>)>) -> (
    Seq<u8>,
    Seq<(u64, Seq<u8>)>,
)
    decreases pending.len(),
{
    if waits_at(pending, written.len() as int) {
        let i = place_of(pending, written.len() as int);
        flushed(written + pending[i].1, pending.remove(i))
    } else {
        (written, pending)
    }
}

/// The chunks whose turn has come, in order.
pub open spec fn due_chunks(written: Seq<u8>, pending: Seq<(u64, Seq<u8>)>) -> Seq<Seq<u8>>
    decreases pending.len(),
{
    if waits_at(pending, written.len() as int) {
        let i = place_of(pending, written.len() as int);
        seq![pending[i].1] + due_chunks(written + pending[i].1, pending.remove(i))
    } else {
        Seq::empty()
    }
}

/// The offsets to request from `next` on, with `in_flight` requests out: as many as fit in the
/// window, none at or past `ceiling`.
pub open spec fn refill(next: int, in_flight: int, ceiling: int) -> Seq<int>
    decreases WINDOW - in_flight,
{
    if in_flight < WINDOW && next < ceiling {
        seq![next] + refill(next + CHUNK_SIZE, in_flight + 1, ceiling)
    } else {
        Seq::empty()
    }
}

impl ReceiverView {
    /// No offset at or past this is requested: the size, but empty content takes one request.
    pub open spec fn ceiling(self) -> int {
        if self.expected_size == 0 {
            1
        } else {
            self.expected_size as int
        }
    }

    /// The whole content has been written.
    pub open spec fn is_whole(self) -> bool {
        self.written.len() >= self.expected_size
    }

    /// The requests that fill the window.
    pub open spec fn refill_requests(self) -> Seq<int> {
        refill(self.next_request, self.in_flight, self.ceiling())
    }

    /// The receive after its window was filled.
    pub open spec fn refilled(self) -> ReceiverView {
        let requests = self.refill_requests();
        ReceiverView {
            next_request: self.next_request + CHUNK_SIZE * requests.len(),
            in_flight: self.in_flight + requests.len(),
            ..self
        }
    }

    /// The receive before anything was requested.
    pub open spec fn fresh(content_hash: Seq<char>, expected_size: u64) -> ReceiverView {
        ReceiverView {
            content_hash,
            expected_size,
            next_request: 0,
            in_flight: 0,
            written: Seq::empty(),
            pending: Seq::empty(),
        }
    }

    /// The receive after a chunk arrived and every chunk whose turn had come was put in place.
    /// A chunk that is written already is dropped.
    pub open spec fn with_data(self, offset: u64, bytes: Seq<u8>) -> ReceiverView {
        let in_flight = if self.in_flight > 0 {
            self.in_flight - 1
        } else {
            0
        };
        if offset < self.written.len() {
            ReceiverView { in_flight, ..self }
        } else {
            let (written, pending) = flushed(
                self.written,
                with_chunk(self.pending, offset, bytes),
            );
            ReceiverView { in_flight, written, pending, ..self }
        }
    }

    /// The chunks that a reply leads to being written: those whose turn has come once it is taken
    /// in.
    pub open spec fn writes_of(self, reply: ChunkReplyView) -> Seq<Seq<u8>> {
        match reply {
            ChunkReplyView::Data { offset, bytes } => if offset < self.written.len() {
                Seq::empty()
            } else {
                due_chunks(self.written, with_chunk(self.pending, offset, bytes))
            },
            ChunkReplyView::Miss { .. } => Seq::empty(),
        }
    }

    /// How a receive with the whole content ends: its hash decides.
    pub open spec fn verdict(self) -> EndView {
        let actual = content_digest(self.written);
        if actual == self.content_hash {
            EndView::Complete
        } else {
            EndView::HashMismatch { expected: self.content_hash, actual }
        }
    }

    /// What a reply leads to: the receive after it, the offsets to request, and how it stands.
    pub open spec fn on_reply(self, reply: ChunkReplyView) -> (ReceiverView, Seq<int>, EndView) {
        match reply {
            ChunkReplyView::Data { offset, bytes } => {
                let after = self.with_data(offset, bytes);
                if offset < self.written.len() {
                    (after, Seq::empty(), EndView::Going)
                } else if after.is_whole() {
                    (after, Seq::empty(), after.verdict())
                } else {
                    (after.refilled(), after.refill_requests(), EndView::Going)
                }
            },
            ChunkReplyView::Miss { offset } => {
                if offset < self.written.len() {
                    (self, Seq::empty(), EndView::Going)
                } else {
                    (self, Seq::empty(), EndView::ChunkUnavailable { offset })
                }
            },
        }
    }

    /// The receive is sound, and no chunk waits whose turn has come.
    pub open spec fn wf(self) -> bool {
        &&& self.is_sound()
        &&& !waits_at(self.pending, self.written.len() as int)
    }

    /// Sizes stay within 64 bits, waiting chunks have offsets of their own, and the window is
    /// kept.
    pub open spec fn is_sound(self) -> bool {
        &&& self.expected_size <= u64::MAX - CHUNK_SIZE
        &&& 0 <= self.next_request
        &&& self.next_request % CHUNK_SIZE as int == 0
        &&& self.next_request < self.ceiling() + CHUNK_SIZE
        &&& 0 <= self.in_flight <= WINDOW
        &&& offsets_distinct(self.pending)
        &&& self.written.len() + waiting_bytes(self.pending) <= u64::MAX
    }

    /// One more chunk of this many bytes still fits in 64 bits beside what is held.
    pub open spec fn has_room(self, reply: ChunkReplyView) -> bool {
        match reply {
            ChunkReplyView::Data { bytes, .. } => self.written.len() + waiting_bytes(self.pending)
                + bytes.len() <= u64::MAX,
            ChunkReplyView::Miss { .. } => true,
        }
    }
}

proof fn lemma_waiting_nonnegative(pending: Seq<(u64, Seq<u8>)>)
    ensures
        waiting_bytes(pending) >= 0,
    decreases pending.len(),
{
    if pending.len() > 0 {
        lemma_waiting_nonnegative(pending.drop_last());
    }
}

/// Taking a waiting chunk out takes its bytes off the sum.
pub proof fn lemma_waiting_remove(pending: Seq<(u64, Seq<u8>)>, i: int)
    requires
        0 <= i < pending.len(),
    ensures
        waiting_bytes(pending.remove(i)) == waiting_bytes(pending) - pending[i].1.len(),
    decreases pending.len(),
{
    if i == pending.len() - 1 {
        assert(pending.remove(i) =~= pending.drop_last());
    } else {
        lemma_waiting_remove(pending.drop_last(), i);
        assert(pending.remove(i).drop_last() =~= pending.drop_last().remove(i));
        assert(pending.remove(i).last() == pending.last());
    }
}

proof fn lemma_waiting_push(pending: Seq<(u64, Seq<u8>)>, chunk: (u64, Seq<u8>))
    ensures
        waiting_bytes(pending.push(chunk)) == waiting_bytes(pending) + chunk.1.len(),
{
    assert(pending.push(chunk).drop_last() =~= pending);
}

proof fn lemma_joined_push(chunks: Seq<Seq<u8>>, chunk: Seq<u8>)
    ensures
        joined(chunks.push(chunk)) == joined(chunks) + chunk,
{
    assert(chunks.push(chunk).drop_last() =~= chunks);
}

impl View for Receiver {
    type V = ReceiverView;

    closed spec fn view(&self) -> ReceiverView {
        ReceiverView {
            content_hash: self.content_hash@,
            expected_size: self.expected_size,
            next_request: self.next_request_offset as int,
            in_flight: self.in_flight as int,
            written: hasher_input(self.hasher),
            pending: pending_views(self.pending@),
        }
    }
}

impl Receiver {
    /// The receive is valid.
    pub closed spec fn wf(&self) -> bool {
        self@.wf() && self.is_sound()
    }

    closed spec fn is_sound(&self) -> bool {
        &&& self@.is_sound()
        &&& self.write_offset == self@.written.len()
        &&& self.held == self@.written.len() + waiting_bytes(self@.pending)
    }

    /// Starts a receive of content with this hash and size, and asks for its first window of
    /// requests.
    pub fn start(content_hash: &str, expected_size: u64) -> (r: (Receiver, Vec<ChunkRequest>))
        requires
            expected_size <= u64::MAX - CHUNK_SIZE,
        ensures
            r.0.wf(),
            r.0@ == ReceiverView::fresh(content_hash@, expected_size).refilled(),
            request_offsets(r.1@) == ReceiverView::fresh(
                content_hash@,
                expected_size,
            ).refill_requests(),
    {
        let mut receiver = Receiver {
            content_hash: content_hash.to_owned(),
            expected_size,
            next_request_offset: 0,
            in_flight: 0,
            write_offset: 0,
            held: 0,
            pending: Vec::new(),
            hasher: new_hasher(),
        };
        assert(receiver@ =~= ReceiverView::fresh(content_hash@, expected_size));
        let requests = receiver.fill_window();
        (receiver, requests)
    }

    /// Whether a chunk of this size still fits beside what is held.
    pub fn has_room(&self, reply: &ChunkReply) -> (r: bool)
        requires
            self.wf(),
        ensures
            r == self@.has_room(reply@),
    {
        match reply {
            ChunkReply::Data { bytes, .. } => bytes.len() as u64 <= u64::MAX - self.held,
            ChunkReply::Miss { .. } => true,
        }
    }

    /// Fills the window.
    fn fill_window(&mut self) -> (requests: Vec<ChunkRequest>)
        requires
            old(self).wf(),
        ensures
            final(self).wf(),
            final(self)@ == old(self)@.refilled(),
            request_offsets(requests@) == old(self)@.refill_requests(),
    {
        let ghost before = self@;
        let ceiling: u64 = if self.expected_size == 0 {
            1
        } else {
            self.expected_size
        };
        let mut requests: Vec<ChunkRequest> = Vec::new();
        assert(request_offsets(requests@) + self@.refill_requests() =~= before.refill_requests());
        while self.in_flight < WINDOW && self.next_request_offset < ceiling
            invariant
                self.wf(),
                ceiling == self@.ceiling(),
                request_offsets(requests@) + self@.refill_requests()
                    == before.refill_requests(),
                self@.next_request == before.next_request + CHUNK_SIZE * requests@.len(),
                self@.in_flight == before.in_flight + requests@.len(),
                self@ == (ReceiverView {
                    next_request: self@.next_request,
                    in_flight: self@.in_flight,
                    ..before
                }),
            decreases WINDOW - self.in_flight,
        {
            let ghost asked = request_offsets(requests@);
            let ghost rest = self@.refill_requests();
            let ghost next = self@.next_request;
            requests.push(ChunkRequest { offset: self.next_request_offset });
            self.next_request_offset = self.next_request_offset + CHUNK_SIZE as u64;
            self.in_flight = self.in_flight + 1;
            proof {
                assert(request_offsets(requests@) =~= asked.push(next));
                assert(rest == seq![next] + self@.refill_requests());
                assert(request_offsets(requests@) + self@.refill_requests() =~= asked + rest);
                assert(self@.next_request % CHUNK_SIZE as int == 0);
            }
        }
        assert(self@.refill_requests() =~= Seq::<int>::empty());
        assert(request_offsets(requests@) =~= before.refill_requests());
        assert(self@ =~= before.refilled());
        requests
    }

    /// Where the chunk at the end of the written content waits, if it does.
    fn next_chunk(&self) -> (r: Option<usize>)
        requires
            self.is_sound(),
        ensures
            match r {
                Some(i) => i < self.pending@.len() && waits_at(
                    self@.pending,
                    self@.written.len() as int,
                ) && i == place_of(self@.pending, self@.written.len() as int),
                None => !waits_at(self@.pending, self@.written.len() as int),
            },
    {
        let mut i: usize = 0;
        while i < self.pending.len()
            invariant
                i <= self.pending.len(),
                self.is_sound(),
                forall|j: int|
                    0 <= j < i ==> (#[trigger] self@.pending[j]).0 != self@.written.len(),
            decreases self.pending.len() - i,
        {
            if self.pending[i].0 == self.write_offset {
                proof {
                    assert(self@.pending[i as int].0 == self@.written.len());
                    let k = place_of(self@.pending, self@.written.len() as int);
                    assert(k == i);
                }
                return Some(i);
            }
            i = i + 1;
        }
        None
    }

    /// Puts every chunk whose turn has come in place, and hands them over in order.
    fn flush(&mut self) -> (writes: Vec<Vec<u8>>)
        requires
            old(self).is_sound(),
        ensures
            final(self).wf(),
            final(self)@ == (ReceiverView {
                written: flushed(old(self)@.written, old(self)@.pending).0,
                pending: flushed(old(self)@.written, old(self)@.pending).1,
                ..old(self)@
            }),
            chunk_views(writes@) == due_chunks(old(self)@.written, old(self)@.pending),
            final(self)@.written == old(self)@.written + joined(chunk_views(writes@)),
    {
        let ghost before = self@;
        let mut writes: Vec<Vec<u8>> = Vec::new();
        assert(self@.written =~= before.written + joined(chunk_views(writes@)));
        assert(chunk_views(writes@) + due_chunks(self@.written, self@.pending) =~= due_chunks(
            before.written,
            before.pending,
        ));
        loop
            invariant
                self.is_sound(),
                before == old(self)@,
                self@ == (ReceiverView {
                    written: self@.written,
                    pending: self@.pending,
                    ..before
                }),
                flushed(self@.written, self@.pending) == flushed(before.written, before.pending),
                chunk_views(writes@) + due_chunks(self@.written, self@.pending) == due_chunks(
                    before.written,
                    before.pending,
                ),
                self@.written == before.written + joined(chunk_views(writes@)),
            decreases self.pending@.len(),
        {
            match self.next_chunk() {
                Some(i) => {
                    let ghost old_pending = self@.pending;
                    let ghost old_written = self@.written;
                    let ghost old_writes = chunk_views(writes@);
                    proof {
                        lemma_waiting_remove(old_pending, i as int);
                        lemma_waiting_nonnegative(old_pending.remove(i as int));
                    }
                    let (_, chunk) = self.pending.remove(i);
                    take_in(&mut self.hasher, chunk.as_slice());
                    self.write_offset = self.write_offset + chunk.len() as u64;
                    let ghost bytes = chunk@;
                    writes.push(chunk);
                    proof {
                        assert(self@.pending =~= old_pending.remove(i as int));
                        assert(self@.written == old_written + bytes);
                        assert(chunk_views(writes@) =~= old_writes.push(bytes));
                        let due = due_chunks(self@.written, self@.pending);
                        assert(due_chunks(old_written, old_pending) == seq![bytes] + due);
                        assert(chunk_views(writes@) + due =~= old_writes + due_chunks(
                            old_written,
                            old_pending,
                        ));
                        lemma_joined_push(old_writes, bytes);
                        assert(self@.written =~= before.written + joined(chunk_views(writes@)));
                    }
                },
                None => {
                    assert(chunk_views(writes@) =~= due_chunks(before.written, before.pending));
                    return writes;
                },
            }
        }
    }

    /// Whether a chunk at this offset waits.
    fn waits(&self, offset: u64) -> (r: bool)
        ensures
            r == waits_at(self@.pending, offset as int),
    {
        let mut i: usize = 0;
        while i < self.pending.len()
            invariant
                i <= self.pending.len(),
                forall|j: int| 0 <= j < i ==> (#[trigger] self@.pending[j]).0 != offset,
            decreases self.pending.len() - i,
        {
            if self.pending[i].0 == offset {
                assert(self@.pending[i as int].0 == offset);
                return true;
            }
            i = i + 1;
        }
        false
    }

    /// Takes a chunk in, unless one waits at its offset.
    fn hold(&mut self, offset: u64, bytes: Vec<u8>)
        requires
            old(self).wf(),
            old(self)@.has_room((ChunkReplyView::Data { offset, bytes: bytes@ })),
        ensures
            final(self).is_sound(),
            final(self)@ == (ReceiverView {
                pending: with_chunk(old(self)@.pending, offset, bytes@),
                ..old(self)@
            }),
    {
        if self.waits(offset) {
            assert(self@ =~= (ReceiverView {
                pending: with_chunk(self@.pending, offset, bytes@),
                ..self@
            }));
            return;
        }
        let ghost before = self@;
        proof {
            lemma_waiting_push(before.pending, (offset, bytes@));
            lemma_waiting_nonnegative(before.pending);
        }
        self.held = self.held + bytes.len() as u64;
        self.pending.push((offset, bytes));
        assert(self@.pending =~= before.pending.push((offset, bytes@)));
        assert(self@ =~= (ReceiverView {
            pending: with_chunk(before.pending, offset, bytes@),
            ..before
        }));
    }

    /// How a receive with the whole content ends.
    fn verdict(&self) -> (r: Result<(), TransferError>)
        ensures
            is_end(Some(r), self@.verdict()),
    {
        judge_digest(&self.content_hash, digest_text(&self.hasher))
    }

    /// Takes a chunk in.
    fn on_data(&mut self, offset: u64, bytes: Vec<u8>) -> (step: ReceiveStep)
        requires
            old(self).wf(),
            old(self)@.has_room((ChunkReplyView::Data { offset, bytes: bytes@ })),
        ensures
            final(self).wf(),
            ({
                let (after, requests, end) = old(self)@.on_reply(
                    ChunkReplyView::Data { offset, bytes: bytes@ },
                );
                &&& final(self)@ == after
                &&& request_offsets(step.requests@) == requests
                &&& is_end(step.end, end)
            }),
            chunk_views(step.writes@) == old(self)@.writes_of(
                ChunkReplyView::Data { offset, bytes: bytes@ },
            ),
            final(self)@.written == old(self)@.written + joined(chunk_views(step.writes@)),
    {
        let ghost before = self@;
        if self.in_flight > 0 {
            self.in_flight = self.in_flight - 1;
        }
        if offset < self.write_offset {
            let step = ReceiveStep { writes: Vec::new(), requests: Vec::new(), end: None };
            assert(request_offsets(step.requests@) =~= Seq::<int>::empty());
            assert(self@ =~= before.with_data(offset, bytes@));
            assert(chunk_views(step.writes@) =~= Seq::<Seq<u8>>::empty());
            assert(self@.written =~= before.written + joined(chunk_views(step.writes@)));
            return step;
        }
        self.hold(offset, bytes);
        let writes = self.flush();
        let ghost after = self@;
        assert(after =~= before.with_data(offset, bytes@));
        if self.write_offset >= self.expected_size {
            let step = ReceiveStep { writes, requests: Vec::new(), end: Some(self.verdict()) };
            assert(request_offsets(step.requests@) =~= Seq::<int>::empty());
            return step;
        }
        let requests = self.fill_window();
        ReceiveStep { writes, requests, end: None }
    }

    /// Takes one event in, and says what to write, what to request and whether the receive
    /// has ended.
    pub fn step(&mut self, event: ReceiveEvent) -> (step: ReceiveStep)
        requires
            old(self).wf(),
            event matches ReceiveEvent::Reply(reply) ==> old(self)@.has_room(reply@),
        ensures
            final(self).wf(),
            match event {
                ReceiveEvent::Reply(reply) => {
                    let (after, requests, end) = old(self)@.on_reply(reply@);
                    &&& final(self)@ == after
                    &&& request_offsets(step.requests@) == requests
                    &&& is_end(step.end, end)
                    &&& chunk_views(step.writes@) == old(self)@.writes_of(reply@)
                },
                ReceiveEvent::Closed => final(self)@ == old(self)@ && step.requests@.len() == 0
                    && step.writes@.len() == 0 && is_end(step.end, EndView::ChannelClosed),
                ReceiveEvent::Silent => final(self)@ == old(self)@ && step.requests@.len() == 0
                    && step.writes@.len() == 0 && is_end(step.end, EndView::LivenessTimeout),
            },
            final(self)@.written == old(self)@.written + joined(chunk_views(step.writes@)),
    {
        let ghost before = self@;
        let end = match event {
            ReceiveEvent::Reply(ChunkReply::Data { offset, bytes }) => {
                return self.on_data(offset, bytes);
            },
            ReceiveEvent::Reply(ChunkReply::Miss { offset }) => {
                if offset < self.write_offset {
                    None
                } else {
                    Some(Err(TransferError::ChunkUnavailable { offset }))
                }
            },
            ReceiveEvent::Closed => Some(Err(TransferError::ChannelClosed)),
            ReceiveEvent::Silent => Some(Err(TransferError::LivenessTimeout)),
        };
        let step = ReceiveStep { writes: Vec::new(), requests: Vec::new(), end };
        assert(request_offsets(step.requests@) =~= Seq::<int>::empty());
        assert(chunk_views(step.writes@) =~= Seq::<Seq<u8>>::empty());
        assert(self@.written =~= before.written + joined(chunk_views(step.writes@)));
        step
    }
}

/// The liveness window of a receive: until when the next chunk has to be written, on a clock in
/// milliseconds that only advances.
#[derive(Debug, Clone, Copy, PartialEq, Eq, Structural)]
pub struct LivenessWindow {
    pub deadline: u64,
}

impl LivenessWindow {
    /// The window that opens now.
    pub fn open(now: u64) -> (r: LivenessWindow)
        requires
            now <= u64::MAX - HOP_TIMEOUT,
        ensures
            r.deadline == now + HOP_TIMEOUT,
    {
        LivenessWindow { deadline: now + HOP_TIMEOUT }
    }

    /// How long there still is to wait. Once there is no time left, the receive is `Silent`.
    pub fn remaining(&self, now: u64) -> (r: u64)
        ensures
            r == if now < self.deadline {
                self.deadline - now
            } else {
                0
            },
    {
        if now < self.deadline {
            self.deadline - now
        } else {
            0
        }
    }

    /// The window after the chunks of a step were written. Only a written chunk opens it anew: a
    /// reply that leads to none leaves it as it was.
    pub fn after_step(&self, step: &ReceiveStep, now: u64) -> (r: LivenessWindow)
        requires
            now <= u64::MAX - HOP_TIMEOUT,
        ensures
            r.deadline == if step.writes@.len() > 0 {
                now + HOP_TIMEOUT
            } else {
                self.deadline as int
            },
    {
        if step.writes.len() > 0 {
            LivenessWindow::open(now)
        } else {
            *self
        }
    }
}

/// How a receive with the whole content ends, given the digest of that content.
pub fn judge_digest(expected: &String, actual: String) -> (r: Result<(), TransferError>)
    ensures
        is_end(
            Some(r),
            if actual@ == expected@ {
                EndView::Complete
            } else {
                EndView::HashMismatch { expected: expected@, actual: actual@ }
            },
        ),
{
    if actual == *expected {
        Ok(())
    } else {
        Err(TransferError::HashMismatch { expected: expected.clone(), actual })
    }
}

/// The outcome of a receive into the file at `temp_path`: the file holds the content, to be
/// moved into place, or the receive failed.
pub fn receive_outcome(result: Result<(), TransferError>, temp_path: String) -> (r: ReceiveOutcome)
    ensures
        r == match result {
            Ok(()) => ReceiveOutcome::Complete(FileBytes::FileToMove(temp_path)),
            Err(error) => ReceiveOutcome::Failed(error),
        },
{
    match result {
        Ok(()) => ReceiveOutcome::Complete(FileBytes::FileToMove(temp_path)),
        Err(error) => ReceiveOutcome::Failed(error),
    }
}

} // verus!
