//! The relay of chunks. A chunk is named by its file, its content hash and its offset.

use vstd::prelude::*;

use crate::ids::FileId;
use crate::peer::messages::{Frame, FrameView, SyncMessage, SyncView};
use crate::peer::relay::{
    can_reach, delivery_views, entry_of, exhausts, failing, fanned, in_flight, is_reachable,
    lemma_nothing_to_remove, others, sent_for_request, sent_to, surviving, table_after_request,
    text_views, waiter_views, with_miss, without_key, Delivery, DeliveryView, PeerDirectory,
    RelayKey, Waiter, WaiterEntryView, WaiterTable, WaiterView,
};
use crate::peer::transfer::serve::ChunkAnswer;
use crate::peer::transfer::{ChunkReply, ChunkReplyView, HOP_TIMEOUT};
use crate::seqs::{lemma_filter_map_take, lemma_filter_none};
use crate::state::copy_bytes;

verus! {

/// What names a chunk.
#[derive(Debug)]
pub struct ChunkKey {
    pub file_id: FileId,
    pub content_hash: String,
    pub offset: u64,
}

/// The model of a chunk's name.
pub struct ChunkKeyView {
    pub file_id: FileId,
    pub content_hash: Seq<char>,
    pub offset: u64,
}

impl View for ChunkKey {
    type V = ChunkKeyView;

    open spec fn view(&self) -> ChunkKeyView {
        ChunkKeyView {
            file_id: self.file_id,
            content_hash: self.content_hash@,
            offset: self.offset,
        }
    }
}

impl RelayKey for ChunkKey {
    fn same(&self, other: &ChunkKey) -> (r: bool) {
        self.file_id == other.file_id && self.offset == other.offset && self.content_hash
            == other.content_hash
    }
}

impl ChunkKeyView {
    /// The frame that asks for the chunk.
    pub open spec fn request_frame(self) -> FrameView {
        FrameView::Sync(
            SyncView::ChunkRequest {
                file_id: self.file_id,
                content_hash: self.content_hash,
                offset: self.offset,
            },
        )
    }

    /// The frame that carries the chunk.
    pub open spec fn data_frame(self, bytes: Seq<u8>) -> FrameView {
        FrameView::Sync(
            SyncView::ChunkData {
                file_id: self.file_id,
                content_hash: self.content_hash,
                offset: self.offset,
                bytes,
            },
        )
    }

    /// The frame that says the chunk is missing.
    pub open spec fn miss_frame(self) -> FrameView {
        FrameView::Sync(
            SyncView::ChunkMiss {
                file_id: self.file_id,
                content_hash: self.content_hash,
                offset: self.offset,
            },
        )
    }

    /// How a waiter is given the chunk.
    pub open spec fn data_reply(self, bytes: Seq<u8>) -> spec_fn(WaiterView) -> DeliveryView<
        ChunkReplyView,
    > {
        |waiter: WaiterView|
            match waiter {
                WaiterView::Peer(public_key) => DeliveryView::ToPeer {
                    public_key,
                    frame: self.data_frame(bytes),
                },
                WaiterView::Local(requester) => DeliveryView::ToLocal {
                    requester,
                    reply: ChunkReplyView::Data { offset: self.offset, bytes },
                },
            }
    }

    /// How a waiter is told that the chunk is missing.
    pub open spec fn miss_reply(self) -> spec_fn(WaiterView) -> DeliveryView<ChunkReplyView> {
        |waiter: WaiterView|
            match waiter {
                WaiterView::Peer(public_key) => DeliveryView::ToPeer {
                    public_key,
                    frame: self.miss_frame(),
                },
                WaiterView::Local(requester) => DeliveryView::ToLocal {
                    requester,
                    reply: ChunkReplyView::Miss { offset: self.offset },
                },
            }
    }
}

/// The misses for some keys, one key after the other.
pub open spec fn all_misses(
    connected: Seq<Seq<char>>,
    entries: Seq<WaiterEntryView<ChunkKeyView>>,
) -> Seq<DeliveryView<ChunkReplyView>>
    decreases entries.len(),
{
    if entries.len() == 0 {
        Seq::empty()
    } else {
        all_misses(connected, entries.drop_last()) + fanned(
            connected,
            entries.last().downstream,
            entries.last().key.miss_reply(),
        )
    }
}

/// Where a local request is directed: the preferred peer if it is connected, else everyone.
pub open spec fn directed(connected: Seq<Seq<char>>, toward: Option<Seq<char>>) -> Seq<Seq<char>> {
    match toward {
        Some(public_key) => if connected.contains(public_key) {
            seq![public_key]
        } else {
            connected
        },
        None => connected,
    }
}

/// The text of an optional reference.
pub open spec fn text_of(text: Option<&str>) -> Option<Seq<char>> {
    match text {
        Some(text) => Some(text@),
        None => None,
    }
}

fn request_frame(key: &ChunkKey) -> (r: Frame)
    ensures
        r@ == key@.request_frame(),
{
    Frame::Sync(
        SyncMessage::ChunkRequest {
            file_id: key.file_id,
            content_hash: key.content_hash.clone(),
            offset: key.offset,
        },
    )
}

fn data_frame(key: &ChunkKey, bytes: &Vec<u8>) -> (r: Frame)
    ensures
        r@ == key@.data_frame(bytes@),
{
    Frame::Sync(
        SyncMessage::ChunkData {
            file_id: key.file_id,
            content_hash: key.content_hash.clone(),
            offset: key.offset,
            bytes: copy_bytes(bytes),
        },
    )
}

fn miss_frame(key: &ChunkKey) -> (r: Frame)
    ensures
        r@ == key@.miss_frame(),
{
    Frame::Sync(
        SyncMessage::ChunkMiss {
            file_id: key.file_id,
            content_hash: key.content_hash.clone(),
            offset: key.offset,
        },
    )
}

/// The request for a key to every target.
fn forward(key: &ChunkKey, targets: &Vec<String>) -> (r: Vec<Delivery<ChunkReply>>)
    ensures
        delivery_views(r@) == sent_to::<ChunkReplyView>(
            text_views(targets@),
            key@.request_frame(),
        ),
{
    let mut deliveries: Vec<Delivery<ChunkReply>> = Vec::new();
    let mut i: usize = 0;
    while i < targets.len()
        invariant
            i <= targets.len(),
            deliveries@.len() == i,
            forall|k: int|
                0 <= k < i ==> (#[trigger] deliveries@[k])@ == (DeliveryView::<
                    ChunkReplyView,
                >::ToPeer { public_key: targets@[k]@, frame: key@.request_frame() }),
        decreases targets.len() - i,
    {
        deliveries.push(
            Delivery::ToPeer { public_key: targets[i].clone(), frame: request_frame(key) },
        );
        i = i + 1;
    }
    assert(delivery_views(deliveries@) =~= sent_to::<ChunkReplyView>(
        text_views(targets@),
        key@.request_frame(),
    ));
    deliveries
}

/// Answers everyone who waits with the chunk.
fn fan_data(
    peers: &PeerDirectory,
    key: &ChunkKey,
    bytes: &Vec<u8>,
    waiters: Vec<Waiter>,
) -> (r: Vec<Delivery<ChunkReply>>)
    ensures
        delivery_views(r@) == fanned(peers@, waiter_views(waiters@), key@.data_reply(bytes@)),
{
    let ghost all = waiter_views(waiters@);
    let ghost raw = waiters@;
    let ghost p = |waiter: WaiterView| can_reach(peers@, waiter);
    let ghost f = key@.data_reply(bytes@);
    let mut deliveries: Vec<Delivery<ChunkReply>> = Vec::new();
    proof {
        lemma_filter_none(all.take(0), p);
        assert(delivery_views(deliveries@) =~= all.take(0).filter(p).map_values(f));
    }
    for waiter in it: waiters.into_iter()
        invariant
            it.seq() == raw,
            all == waiter_views(raw),
            p == (|waiter: WaiterView| can_reach(peers@, waiter)),
            f == key@.data_reply(bytes@),
            delivery_views(deliveries@) == all.take(it.index() as int).filter(p).map_values(f),
    {
        proof {
            lemma_filter_map_take(all, it.index() as int, p, f);
            assert(waiter@ == all[it.index() as int]);
        }
        if is_reachable(peers, &waiter) {
            let ghost before = delivery_views(deliveries@);
            let ghost view = waiter@;
            let delivery = match waiter {
                Waiter::Peer(public_key) => Delivery::ToPeer {
                    public_key,
                    frame: data_frame(key, bytes),
                },
                Waiter::Local(requester) => Delivery::ToLocal {
                    requester,
                    reply: ChunkReply::Data { offset: key.offset, bytes: copy_bytes(bytes) },
                },
            };
            assert(delivery@ == f(view));
            deliveries.push(delivery);
            assert(delivery_views(deliveries@) =~= before.push(f(view)));
        }
    }
    assert(all.take(all.len() as int) =~= all);
    deliveries
}

/// Tells everyone who waits, after some deliveries, that the chunk is missing.
fn fan_miss(
    peers: &PeerDirectory,
    key: &ChunkKey,
    waiters: Vec<Waiter>,
    deliveries: &mut Vec<Delivery<ChunkReply>>,
)
    ensures
        delivery_views(final(deliveries)@) == delivery_views(old(deliveries)@) + fanned(
            peers@,
            waiter_views(waiters@),
            key@.miss_reply(),
        ),
{
    let ghost all = waiter_views(waiters@);
    let ghost raw = waiters@;
    let ghost start = delivery_views(deliveries@);
    let ghost p = |waiter: WaiterView| can_reach(peers@, waiter);
    let ghost f = key@.miss_reply();
    proof {
        lemma_filter_none(all.take(0), p);
        assert(delivery_views(deliveries@) =~= start + all.take(0).filter(p).map_values(f));
    }
    for waiter in it: waiters.into_iter()
        invariant
            it.seq() == raw,
            all == waiter_views(raw),
            p == (|waiter: WaiterView| can_reach(peers@, waiter)),
            f == key@.miss_reply(),
            delivery_views(deliveries@) == start + all.take(it.index() as int).filter(
                p,
            ).map_values(f),
    {
        proof {
            lemma_filter_map_take(all, it.index() as int, p, f);
            assert(waiter@ == all[it.index() as int]);
        }
        if is_reachable(peers, &waiter) {
            let ghost before = delivery_views(deliveries@);
            let ghost view = waiter@;
            let delivery = match waiter {
                Waiter::Peer(public_key) => Delivery::ToPeer {
                    public_key,
                    frame: miss_frame(key),
                },
                Waiter::Local(requester) => Delivery::ToLocal {
                    requester,
                    reply: ChunkReply::Miss { offset: key.offset },
                },
            };
            assert(delivery@ == f(view));
            deliveries.push(delivery);
            assert(delivery_views(deliveries@) =~= before.push(f(view)));
            assert(delivery_views(deliveries@) =~= start + all.take(it.index() + 1).filter(
                p,
            ).map_values(f));
        }
    }
    assert(all.take(all.len() as int) =~= all);
}

/// The relay of chunks.
pub struct ChunkRelay {
    table: WaiterTable<ChunkKey>,
}

impl View for ChunkRelay {
    type V = Seq<WaiterEntryView<ChunkKeyView>>;

    closed spec fn view(&self) -> Seq<WaiterEntryView<ChunkKeyView>> {
        self.table@
    }
}

impl ChunkRelay {
    /// No chunk is in flight twice.
    pub closed spec fn wf(&self) -> bool {
        self.table.wf()
    }

    /// A relay with nothing in flight.
    pub fn new() -> (r: ChunkRelay)
        ensures
            r.wf(),
            r@ == Seq::<WaiterEntryView<ChunkKeyView>>::empty(),
    {
        ChunkRelay { table: WaiterTable::new() }
    }

    /// Whether nothing is in flight.
    pub fn is_empty(&self) -> (r: bool)
        ensures
            r == (self@.len() == 0),
    {
        self.table.is_empty()
    }

    /// Registers a waiter and forwards the request if the key is new.
    fn ask(&mut self, key: ChunkKey, waiter: Waiter, targets: Vec<String>, now: u64) -> (r: Vec<
        Delivery<ChunkReply>,
    >)
        requires
            old(self).wf(),
            now <= u64::MAX - HOP_TIMEOUT,
        ensures
            final(self).wf(),
            final(self)@ == table_after_request(
                old(self)@,
                key@,
                waiter@,
                text_views(targets@),
                now,
            ),
            delivery_views(r@) == sent_for_request::<_, ChunkReplyView>(
                old(self)@,
                key@,
                text_views(targets@),
                key@.request_frame(),
            ),
    {
        let deliveries = forward(&key, &targets);
        if self.table.enqueue(key, waiter, targets, now) {
            deliveries
        } else {
            let none: Vec<Delivery<ChunkReply>> = Vec::new();
            assert(delivery_views(none@) =~= Seq::empty());
            none
        }
    }

    /// Routes a request of a local receiver to peers only: to the preferred peer if it is
    /// connected, else to everyone. With nobody to ask, the receiver is told at once that the
    /// chunk is missing.
    pub fn request_chunk_from_peers(
        &mut self,
        file_id: FileId,
        content_hash: String,
        offset: u64,
        toward: Option<&str>,
        requester: u64,
        peers: &PeerDirectory,
        now: u64,
    ) -> (r: Vec<Delivery<ChunkReply>>)
        requires
            old(self).wf(),
            now <= u64::MAX - HOP_TIMEOUT,
        ensures
            final(self).wf(),
            ({
                let key = ChunkKeyView { file_id, content_hash: content_hash@, offset };
                let targets = directed(peers@, text_of(toward));
                if targets.len() == 0 {
                    final(self)@ == old(self)@ && delivery_views(r@) == seq![
                        DeliveryView::ToLocal { requester, reply: ChunkReplyView::Miss { offset } },
                    ]
                } else {
                    final(self)@ == table_after_request(
                        old(self)@,
                        key,
                        WaiterView::Local(requester),
                        targets,
                        now,
                    ) && delivery_views(r@) == sent_for_request::<_, ChunkReplyView>(
                        old(self)@,
                        key,
                        targets,
                        key.request_frame(),
                    )
                }
            }),
    {
        let key = ChunkKey { file_id, content_hash, offset };
        let targets = match toward {
            Some(public_key) if peers.is_connected(public_key) => {
                let mut one: Vec<String> = Vec::new();
                one.push(public_key.to_owned());
                assert(text_views(one@) =~= directed(peers@, text_of(toward)));
                one
            },
            _ => peers.connected_peers(None),
        };
        assert(text_views(targets@) == directed(peers@, text_of(toward)));
        if targets.len() == 0 {
            assert(text_views(targets@).len() == 0);
            let mut deliveries: Vec<Delivery<ChunkReply>> = Vec::new();
            deliveries.push(
                Delivery::ToLocal { requester, reply: ChunkReply::Miss { offset } },
            );
            assert(delivery_views(deliveries@) =~= seq![
                DeliveryView::ToLocal { requester, reply: ChunkReplyView::Miss { offset } },
            ]);
            return deliveries;
        }
        assert(text_views(targets@).len() > 0);
        self.ask(key, Waiter::Local(requester), targets, now)
    }

    /// Routes a request of a local receiver. This device's own outbox is the nearest holder:
    /// where it gave data, that answers the receiver, and no peer is asked.
    pub fn request_chunk_local(
        &mut self,
        file_id: FileId,
        content_hash: String,
        offset: u64,
        toward: Option<&str>,
        requester: u64,
        outbox: Option<ChunkAnswer>,
        peers: &PeerDirectory,
        now: u64,
    ) -> (r: Vec<Delivery<ChunkReply>>)
        requires
            old(self).wf(),
            now <= u64::MAX - HOP_TIMEOUT,
        ensures
            final(self).wf(),
            match outbox {
                Some(ChunkAnswer::Data(bytes)) => final(self)@ == old(self)@ && delivery_views(r@)
                    == seq![
                    DeliveryView::ToLocal {
                        requester,
                        reply: ChunkReplyView::Data { offset, bytes: bytes@ },
                    },
                ],
                _ => {
                    let key = ChunkKeyView { file_id, content_hash: content_hash@, offset };
                    let targets = directed(peers@, text_of(toward));
                    if targets.len() == 0 {
                        final(self)@ == old(self)@ && delivery_views(r@) == seq![
                            DeliveryView::ToLocal {
                                requester,
                                reply: ChunkReplyView::Miss { offset },
                            },
                        ]
                    } else {
                        final(self)@ == table_after_request(
                            old(self)@,
                            key,
                            WaiterView::Local(requester),
                            targets,
                            now,
                        ) && delivery_views(r@) == sent_for_request::<_, ChunkReplyView>(
                        old(self)@,
                        key,
                        targets,
                        key.request_frame(),
                    )
                    }
                },
            },
    {
        if let Some(ChunkAnswer::Data(bytes)) = outbox {
            let ghost view = bytes@;
            let mut deliveries: Vec<Delivery<ChunkReply>> = Vec::new();
            deliveries.push(
                Delivery::ToLocal { requester, reply: ChunkReply::Data { offset, bytes } },
            );
            assert(delivery_views(deliveries@) =~= seq![
                DeliveryView::ToLocal {
                    requester,
                    reply: ChunkReplyView::Data { offset, bytes: view },
                },
            ]);
            return deliveries;
        }
        self.request_chunk_from_peers(file_id, content_hash, offset, toward, requester, peers, now)
    }

    /// Relays a neighbour's request to every other neighbour. With no other neighbour, the
    /// chunk is missing, and the asker is told so.
    pub fn relay_chunk_request(
        &mut self,
        from_public_key: &str,
        file_id: FileId,
        content_hash: String,
        offset: u64,
        peers: &PeerDirectory,
        now: u64,
    ) -> (r: Vec<Delivery<ChunkReply>>)
        requires
            old(self).wf(),
            now <= u64::MAX - HOP_TIMEOUT,
        ensures
            final(self).wf(),
            ({
                let key = ChunkKeyView { file_id, content_hash: content_hash@, offset };
                let targets = others(peers@, from_public_key@);
                if targets.len() == 0 {
                    final(self)@ == old(self)@ && delivery_views(r@) == fanned(
                        peers@,
                        seq![WaiterView::Peer(from_public_key@)],
                        key.miss_reply(),
                    )
                } else {
                    final(self)@ == table_after_request(
                        old(self)@,
                        key,
                        WaiterView::Peer(from_public_key@),
                        targets,
                        now,
                    ) && delivery_views(r@) == sent_for_request::<_, ChunkReplyView>(
                        old(self)@,
                        key,
                        targets,
                        key.request_frame(),
                    )
                }
            }),
    {
        let key = ChunkKey { file_id, content_hash, offset };
        let targets = peers.connected_peers(Some(from_public_key));
        if targets.len() == 0 {
            assert(text_views(targets@).len() == 0);
            let mut asker: Vec<Waiter> = Vec::new();
            asker.push(Waiter::Peer(from_public_key.to_owned()));
            assert(waiter_views(asker@) =~= seq![WaiterView::Peer(from_public_key@)]);
            let mut deliveries: Vec<Delivery<ChunkReply>> = Vec::new();
            fan_miss(peers, &key, asker, &mut deliveries);
            assert(delivery_views(deliveries@) =~= fanned(
                peers@,
                seq![WaiterView::Peer(from_public_key@)],
                key@.miss_reply(),
            ));
            return deliveries;
        }
        assert(text_views(targets@).len() > 0);
        self.ask(key, Waiter::Peer(from_public_key.to_owned()), targets, now)
    }

    /// Answers everyone who waits for a chunk that has come. A chunk that nobody waits for, as
    /// a late duplicate, goes nowhere.
    pub fn handle_chunk_data(
        &mut self,
        file_id: FileId,
        content_hash: String,
        offset: u64,
        bytes: Vec<u8>,
        peers: &PeerDirectory,
    ) -> (r: Vec<Delivery<ChunkReply>>)
        requires
            old(self).wf(),
        ensures
            final(self).wf(),
            ({
                let key = ChunkKeyView { file_id, content_hash: content_hash@, offset };
                &&& final(self)@ == without_key(old(self)@, key)
                &&& delivery_views(r@) == if in_flight(old(self)@, key) {
                    fanned(peers@, entry_of(old(self)@, key).downstream, key.data_reply(bytes@))
                } else {
                    Seq::empty()
                }
            }),
    {
        let key = ChunkKey { file_id, content_hash, offset };
        match self.table.handle_data(&key) {
            Some(waiters) => fan_data(peers, &key, &bytes, waiters),
            None => {
                proof {
                    lemma_nothing_to_remove(old(self)@, key@);
                }
                let none: Vec<Delivery<ChunkReply>> = Vec::new();
                assert(delivery_views(none@) =~= Seq::empty());
                none
            },
        }
    }

    /// Notes that a neighbour has no such chunk. Once every neighbour that was asked has said
    /// so, everyone who waits is told.
    pub fn handle_chunk_miss(
        &mut self,
        from_public_key: &str,
        file_id: FileId,
        content_hash: String,
        offset: u64,
        peers: &PeerDirectory,
    ) -> (r: Vec<Delivery<ChunkReply>>)
        requires
            old(self).wf(),
        ensures
            final(self).wf(),
            ({
                let key = ChunkKeyView { file_id, content_hash: content_hash@, offset };
                if exhausts(old(self)@, key, from_public_key@) {
                    final(self)@ == without_key(old(self)@, key) && delivery_views(r@) == fanned(
                        peers@,
                        entry_of(old(self)@, key).downstream,
                        key.miss_reply(),
                    )
                } else {
                    final(self)@ == with_miss(old(self)@, key, from_public_key@)
                        && delivery_views(r@) == Seq::<DeliveryView<ChunkReplyView>>::empty()
                }
            }),
    {
        let key = ChunkKey { file_id, content_hash, offset };
        let mut deliveries: Vec<Delivery<ChunkReply>> = Vec::new();
        assert(delivery_views(deliveries@) =~= Seq::empty());
        if let Some(waiters) = self.table.handle_miss(from_public_key, &key) {
            fan_miss(peers, &key, waiters, &mut deliveries);
            assert(delivery_views(deliveries@) =~= fanned(
                peers@,
                entry_of(old(self)@, key@).downstream,
                key@.miss_reply(),
            ));
        }
        deliveries
    }

    /// Gives a chunk up once its deadline has passed, and tells everyone who waits.
    pub fn expire_chunk(&mut self, key: &ChunkKey, peers: &PeerDirectory, now: u64) -> (r: Vec<
        Delivery<ChunkReply>,
    >)
        requires
            old(self).wf(),
        ensures
            final(self).wf(),
            if in_flight(old(self)@, key@) && entry_of(old(self)@, key@).deadline <= now {
                final(self)@ == without_key(old(self)@, key@) && delivery_views(r@) == fanned(
                    peers@,
                    entry_of(old(self)@, key@).downstream,
                    key@.miss_reply(),
                )
            } else {
                final(self)@ == old(self)@ && delivery_views(r@) == Seq::<
                    DeliveryView<ChunkReplyView>,
                >::empty()
            },
    {
        let mut deliveries: Vec<Delivery<ChunkReply>> = Vec::new();
        assert(delivery_views(deliveries@) =~= Seq::empty());
        if let Some(waiters) = self.table.expire(key, now) {
            fan_miss(peers, key, waiters, &mut deliveries);
            assert(delivery_views(deliveries@) =~= fanned(
                peers@,
                entry_of(old(self)@, key@).downstream,
                key@.miss_reply(),
            ));
        }
        deliveries
    }

    /// Takes a dropped link, and the local receivers that have gone, out of every chunk in
    /// flight, and tells those who waited for a chunk that can no longer come.
    pub fn prune_link(
        &mut self,
        public_key: &str,
        gone: &Vec<u64>,
        peers: &PeerDirectory,
    ) -> (r: Vec<Delivery<ChunkReply>>)
        requires
            old(self).wf(),
        ensures
            final(self).wf(),
            final(self)@ == surviving(old(self)@, public_key@, gone@),
            delivery_views(r@) == all_misses(peers@, failing(old(self)@, public_key@, gone@)),
    {
        let ghost failed = failing(self@, public_key@, gone@);
        let exhausted = self.table.prune_link(public_key, gone);
        let ghost raw = exhausted@;
        let mut deliveries: Vec<Delivery<ChunkReply>> = Vec::new();
        assert(failed.take(0) =~= Seq::empty());
        assert(delivery_views(deliveries@) =~= all_misses(peers@, failed.take(0)));
        for pair in it: exhausted.into_iter()
            invariant
                it.seq() == raw,
                raw.len() == failed.len(),
                forall|k: int|
                    0 <= k < raw.len() ==> (#[trigger] raw[k]).0@ == failed[k].key
                        && waiter_views(raw[k].1@) == failed[k].downstream,
                delivery_views(deliveries@) == all_misses(peers@, failed.take(it.index() as int)),
        {
            let ghost i = it.index() as int;
            let (key, waiters) = pair;
            proof {
                assert(raw[i].0@ == failed[i].key);
                assert(failed.take(i + 1).drop_last() =~= failed.take(i));
                assert(failed.take(i + 1).last() == failed[i]);
            }
            fan_miss(peers, &key, waiters, &mut deliveries);
        }
        assert(failed.take(failed.len() as int) =~= failed);
        deliveries
    }
}

} // verus!
