//! The relay of previews. A preview is named by its file and its content hash.

use vstd::prelude::*;

use crate::ids::FileId;
use crate::peer::messages::{Frame, FrameView, SyncMessage, SyncView};
use crate::peer::relay::{
    can_reach, delivery_views, entry_of, exhausts, failing, fanned, in_flight, is_reachable,
    lemma_nothing_to_remove, others, sent_for_request, sent_to, surviving, table_after_request,
    text_views, waiter_views, with_miss, without_key, Delivery, DeliveryView, PeerDirectory,
    RelayKey, Waiter, WaiterEntryView, WaiterTable, WaiterView,
};
use crate::peer::transfer::HOP_TIMEOUT;
use crate::seqs::{lemma_filter_map_take, lemma_filter_none};
use crate::state::{Preview, PreviewView};

verus! {

/// What a local request for a preview comes to.
#[derive(Debug)]
pub enum PreviewReply {
    /// A peer gave a preview of the content.
    Data(Preview),
    /// No reachable peer could give one.
    Miss,
}

/// The model of a reply.
pub enum PreviewReplyView {
    Data(PreviewView),
    Miss,
}

impl View for PreviewReply {
    type V = PreviewReplyView;

    open spec fn view(&self) -> PreviewReplyView {
        match self {
            PreviewReply::Data(preview) => PreviewReplyView::Data(preview@),
            PreviewReply::Miss => PreviewReplyView::Miss,
        }
    }
}

/// What names a preview.
#[derive(Debug)]
pub struct PreviewKey {
    pub file_id: FileId,
    pub content_hash: String,
}

/// The model of a preview's name.
pub struct PreviewKeyView {
    pub file_id: FileId,
    pub content_hash: Seq<char>,
}

impl View for PreviewKey {
    type V = PreviewKeyView;

    open spec fn view(&self) -> PreviewKeyView {
        PreviewKeyView {
            file_id: self.file_id,
            content_hash: self.content_hash@,
        }
    }
}

impl RelayKey for PreviewKey {
    fn same(&self, other: &PreviewKey) -> (r: bool) {
        self.file_id == other.file_id && self.content_hash
            == other.content_hash
    }
}

impl PreviewKeyView {
    /// The frame that asks for the preview.
    pub open spec fn request_frame(self) -> FrameView {
        FrameView::Sync(
            SyncView::PreviewRequest {
                file_id: self.file_id,
                content_hash: self.content_hash,
            },
        )
    }

    /// The frame that carries the preview.
    pub open spec fn data_frame(self, preview: PreviewView) -> FrameView {
        FrameView::Sync(
            SyncView::PreviewData {
                file_id: self.file_id,
                content_hash: self.content_hash,
                preview,
            },
        )
    }

    /// The frame that says the preview is missing.
    pub open spec fn miss_frame(self) -> FrameView {
        FrameView::Sync(
            SyncView::PreviewMiss {
                file_id: self.file_id,
                content_hash: self.content_hash,
            },
        )
    }

    /// How a waiter is given the preview.
    pub open spec fn data_reply(self, preview: PreviewView) -> spec_fn(WaiterView) -> DeliveryView<
        PreviewReplyView,
    > {
        |waiter: WaiterView|
            match waiter {
                WaiterView::Peer(public_key) => DeliveryView::ToPeer {
                    public_key,
                    frame: self.data_frame(preview),
                },
                WaiterView::Local(requester) => DeliveryView::ToLocal {
                    requester,
                    reply: PreviewReplyView::Data(preview),
                },
            }
    }

    /// How a waiter is told that the preview is missing.
    pub open spec fn miss_reply(self) -> spec_fn(WaiterView) -> DeliveryView<PreviewReplyView> {
        |waiter: WaiterView|
            match waiter {
                WaiterView::Peer(public_key) => DeliveryView::ToPeer {
                    public_key,
                    frame: self.miss_frame(),
                },
                WaiterView::Local(requester) => DeliveryView::ToLocal {
                    requester,
                    reply: PreviewReplyView::Miss,
                },
            }
    }
}

/// The misses for some keys, one key after the other.
pub open spec fn all_misses(
    connected: Seq<Seq<char>>,
    entries: Seq<WaiterEntryView<PreviewKeyView>>,
) -> Seq<DeliveryView<PreviewReplyView>>
    decreases entries.len(),
{
    if entries.len() == 0 {
        Seq::empty()
    } else {
        all_misses(connected, entries.drop_last()) + fanned(
            connected,
            entries.last().downstream,
            entries.last().key.miss_reply(),
        )
    }
}

fn request_frame(key: &PreviewKey) -> (r: Frame)
    ensures
        r@ == key@.request_frame(),
{
    Frame::Sync(
        SyncMessage::PreviewRequest {
            file_id: key.file_id,
            content_hash: key.content_hash.clone(),
        },
    )
}

fn data_frame(key: &PreviewKey, preview: &Preview) -> (r: Frame)
    ensures
        r@ == key@.data_frame(preview@),
{
    Frame::Sync(
        SyncMessage::PreviewData {
            file_id: key.file_id,
            content_hash: key.content_hash.clone(),
            preview: preview.clone(),
        },
    )
}

fn miss_frame(key: &PreviewKey) -> (r: Frame)
    ensures
        r@ == key@.miss_frame(),
{
    Frame::Sync(
        SyncMessage::PreviewMiss {
            file_id: key.file_id,
            content_hash: key.content_hash.clone(),
        },
    )
}

/// The request for a key to every target.
fn forward(key: &PreviewKey, targets: &Vec<String>) -> (r: Vec<Delivery<PreviewReply>>)
    ensures
        delivery_views(r@) == sent_to::<PreviewReplyView>(
            text_views(targets@),
            key@.request_frame(),
        ),
{
    let mut deliveries: Vec<Delivery<PreviewReply>> = Vec::new();
    let mut i: usize = 0;
    while i < targets.len()
        invariant
            i <= targets.len(),
            deliveries@.len() == i,
            forall|k: int|
                0 <= k < i ==> (#[trigger] deliveries@[k])@ == (DeliveryView::<
                    PreviewReplyView,
                >::ToPeer { public_key: targets@[k]@, frame: key@.request_frame() }),
        decreases targets.len() - i,
    {
        deliveries.push(
            Delivery::ToPeer { public_key: targets[i].clone(), frame: request_frame(key) },
        );
        i = i + 1;
    }
    assert(delivery_views(deliveries@) =~= sent_to::<PreviewReplyView>(
        text_views(targets@),
        key@.request_frame(),
    ));
    deliveries
}

/// Answers everyone who waits with the preview.
fn fan_data(
    peers: &PeerDirectory,
    key: &PreviewKey,
    preview: &Preview,
    waiters: Vec<Waiter>,
) -> (r: Vec<Delivery<PreviewReply>>)
    ensures
        delivery_views(r@) == fanned(peers@, waiter_views(waiters@), key@.data_reply(preview@)),
{
    let ghost all = waiter_views(waiters@);
    let ghost raw = waiters@;
    let ghost p = |waiter: WaiterView| can_reach(peers@, waiter);
    let ghost f = key@.data_reply(preview@);
    let mut deliveries: Vec<Delivery<PreviewReply>> = Vec::new();
    proof {
        lemma_filter_none(all.take(0), p);
        assert(delivery_views(deliveries@) =~= all.take(0).filter(p).map_values(f));
    }
    for waiter in it: waiters.into_iter()
        invariant
            it.seq() == raw,
            all == waiter_views(raw),
            p == (|waiter: WaiterView| can_reach(peers@, waiter)),
            f == key@.data_reply(preview@),
            delivery_views(deliveries@) == all.take(it.index() as int).filter(p).map_values(f),
    {
        proof {
            lemma_filter_map_take(all, it.index() as int, p, f);
            assert(waiter@ == all[it.index() as int]);
        }
        if is_reachable(peers, &waiter) {
            let ghost before = delivery_views(deliveries@);
            let ghost view = waiter@;
            let delivery = match waiter {
                Waiter::Peer(public_key) => Delivery::ToPeer {
                    public_key,
                    frame: data_frame(key, preview),
                },
                Waiter::Local(requester) => Delivery::ToLocal {
                    requester,
                    reply: PreviewReply::Data(preview.clone()),
                },
            };
            assert(delivery@ == f(view));
            deliveries.push(delivery);
            assert(delivery_views(deliveries@) =~= before.push(f(view)));
        }
    }
    assert(all.take(all.len() as int) =~= all);
    deliveries
}

/// Tells everyone who waits, after some deliveries, that the preview is missing.
fn fan_miss(
    peers: &PeerDirectory,
    key: &PreviewKey,
    waiters: Vec<Waiter>,
    deliveries: &mut Vec<Delivery<PreviewReply>>,
)
    ensures
        delivery_views(final(deliveries)@) == delivery_views(old(deliveries)@) + fanned(
            peers@,
            waiter_views(waiters@),
            key@.miss_reply(),
        ),
{
    let ghost all = waiter_views(waiters@);
    let ghost raw = waiters@;
    let ghost start = delivery_views(deliveries@);
    let ghost p = |waiter: WaiterView| can_reach(peers@, waiter);
    let ghost f = key@.miss_reply();
    proof {
        lemma_filter_none(all.take(0), p);
        assert(delivery_views(deliveries@) =~= start + all.take(0).filter(p).map_values(f));
    }
    for waiter in it: waiters.into_iter()
        invariant
            it.seq() == raw,
            all == waiter_views(raw),
            p == (|waiter: WaiterView| can_reach(peers@, waiter)),
            f == key@.miss_reply(),
            delivery_views(deliveries@) == start + all.take(it.index() as int).filter(
                p,
            ).map_values(f),
    {
        proof {
            lemma_filter_map_take(all, it.index() as int, p, f);
            assert(waiter@ == all[it.index() as int]);
        }
        if is_reachable(peers, &waiter) {
            let ghost before = delivery_views(deliveries@);
            let ghost view = waiter@;
            let delivery = match waiter {
                Waiter::Peer(public_key) => Delivery::ToPeer {
                    public_key,
                    frame: miss_frame(key),
                },
                Waiter::Local(requester) => Delivery::ToLocal {
                    requester,
                    reply: PreviewReply::Miss,
                },
            };
            assert(delivery@ == f(view));
            deliveries.push(delivery);
            assert(delivery_views(deliveries@) =~= before.push(f(view)));
            assert(delivery_views(deliveries@) =~= start + all.take(it.index() + 1).filter(
                p,
            ).map_values(f));
        }
    }
    assert(all.take(all.len() as int) =~= all);
}

/// The relay of previews.
pub struct PreviewRelay {
    table: WaiterTable<PreviewKey>,
}

impl View for PreviewRelay {
    type V = Seq<WaiterEntryView<PreviewKeyView>>;

    closed spec fn view(&self) -> Seq<WaiterEntryView<PreviewKeyView>> {
        self.table@
    }
}

impl PreviewRelay {
    /// No preview is in flight twice.
    pub closed spec fn wf(&self) -> bool {
        self.table.wf()
    }

    /// A relay with nothing in flight.
    pub fn new() -> (r: PreviewRelay)
        ensures
            r.wf(),
            r@ == Seq::<WaiterEntryView<PreviewKeyView>>::empty(),
    {
        PreviewRelay { table: WaiterTable::new() }
    }

    /// Whether nothing is in flight.
    pub fn is_empty(&self) -> (r: bool)
        ensures
            r == (self@.len() == 0),
    {
        self.table.is_empty()
    }

    /// Registers a waiter and forwards the request if the key is new.
    fn ask(&mut self, key: PreviewKey, waiter: Waiter, targets: Vec<String>, now: u64) -> (r: Vec<
        Delivery<PreviewReply>,
    >)
        requires
            old(self).wf(),
            now <= u64::MAX - HOP_TIMEOUT,
        ensures
            final(self).wf(),
            final(self)@ == table_after_request(
                old(self)@,
                key@,
                waiter@,
                text_views(targets@),
                now,
            ),
            delivery_views(r@) == sent_for_request::<_, PreviewReplyView>(
                old(self)@,
                key@,
                text_views(targets@),
                key@.request_frame(),
            ),
    {
        let deliveries = forward(&key, &targets);
        if self.table.enqueue(key, waiter, targets, now) {
            deliveries
        } else {
            let none: Vec<Delivery<PreviewReply>> = Vec::new();
            assert(delivery_views(none@) =~= Seq::empty());
            none
        }
    }

    /// Routes a local request to every connected peer. With nobody to ask, the requester is
    /// told at once that there is no preview.
    pub fn request_preview_local(
        &mut self,
        file_id: FileId,
        content_hash: String,
        requester: u64,
        peers: &PeerDirectory,
        now: u64,
    ) -> (r: Vec<Delivery<PreviewReply>>)
        requires
            old(self).wf(),
            now <= u64::MAX - HOP_TIMEOUT,
        ensures
            final(self).wf(),
            ({
                let key = PreviewKeyView { file_id, content_hash: content_hash@ };
                if peers@.len() == 0 {
                    final(self)@ == old(self)@ && delivery_views(r@) == seq![
                        DeliveryView::ToLocal { requester, reply: PreviewReplyView::Miss },
                    ]
                } else {
                    final(self)@ == table_after_request(
                        old(self)@,
                        key,
                        WaiterView::Local(requester),
                        peers@,
                        now,
                    ) && delivery_views(r@) == sent_for_request::<_, PreviewReplyView>(
                        old(self)@,
                        key,
                        peers@,
                        key.request_frame(),
                    )
                }
            }),
    {
        let key = PreviewKey { file_id, content_hash };
        let targets = peers.connected_peers(None);
        if targets.len() == 0 {
            assert(text_views(targets@).len() == 0);
            let mut deliveries: Vec<Delivery<PreviewReply>> = Vec::new();
            deliveries.push(Delivery::ToLocal { requester, reply: PreviewReply::Miss });
            assert(delivery_views(deliveries@) =~= seq![
                DeliveryView::ToLocal { requester, reply: PreviewReplyView::Miss },
            ]);
            return deliveries;
        }
        assert(text_views(targets@).len() > 0);
        self.ask(key, Waiter::Local(requester), targets, now)
    }

    /// Relays a neighbour's request to every other neighbour. With no other neighbour, the
    /// chunk is missing, and the asker is told so.
    pub fn relay_preview_request(
        &mut self,
        from_public_key: &str,
        file_id: FileId,
        content_hash: String,
        peers: &PeerDirectory,
        now: u64,
    ) -> (r: Vec<Delivery<PreviewReply>>)
        requires
            old(self).wf(),
            now <= u64::MAX - HOP_TIMEOUT,
        ensures
            final(self).wf(),
            ({
                let key = PreviewKeyView { file_id, content_hash: content_hash@ };
                let targets = others(peers@, from_public_key@);
                if targets.len() == 0 {
                    final(self)@ == old(self)@ && delivery_views(r@) == fanned(
                        peers@,
                        seq![WaiterView::Peer(from_public_key@)],
                        key.miss_reply(),
                    )
                } else {
                    final(self)@ == table_after_request(
                        old(self)@,
                        key,
                        WaiterView::Peer(from_public_key@),
                        targets,
                        now,
                    ) && delivery_views(r@) == sent_for_request::<_, PreviewReplyView>(
                        old(self)@,
                        key,
                        targets,
                        key.request_frame(),
                    )
                }
            }),
    {
        let key = PreviewKey { file_id, content_hash };
        let targets = peers.connected_peers(Some(from_public_key));
        if targets.len() == 0 {
            assert(text_views(targets@).len() == 0);
            let mut asker: Vec<Waiter> = Vec::new();
            asker.push(Waiter::Peer(from_public_key.to_owned()));
            assert(waiter_views(asker@) =~= seq![WaiterView::Peer(from_public_key@)]);
            let mut deliveries: Vec<Delivery<PreviewReply>> = Vec::new();
            fan_miss(peers, &key, asker, &mut deliveries);
            assert(delivery_views(deliveries@) =~= fanned(
                peers@,
                seq![WaiterView::Peer(from_public_key@)],
                key@.miss_reply(),
            ));
            return deliveries;
        }
        assert(text_views(targets@).len() > 0);
        self.ask(key, Waiter::Peer(from_public_key.to_owned()), targets, now)
    }

    /// Answers everyone who waits for a preview that has come. A preview that nobody waits for, as
    /// a late duplicate, goes nowhere.
    pub fn handle_preview_data(
        &mut self,
        file_id: FileId,
        content_hash: String,
        preview: Preview,
        peers: &PeerDirectory,
    ) -> (r: Vec<Delivery<PreviewReply>>)
        requires
            old(self).wf(),
        ensures
            final(self).wf(),
            ({
                let key = PreviewKeyView { file_id, content_hash: content_hash@ };
                &&& final(self)@ == without_key(old(self)@, key)
                &&& delivery_views(r@) == if in_flight(old(self)@, key) {
                    fanned(peers@, entry_of(old(self)@, key).downstream, key.data_reply(preview@))
                } else {
                    Seq::empty()
                }
            }),
    {
        let key = PreviewKey { file_id, content_hash };
        match self.table.handle_data(&key) {
            Some(waiters) => fan_data(peers, &key, &preview, waiters),
            None => {
                proof {
                    lemma_nothing_to_remove(old(self)@, key@);
                }
                let none: Vec<Delivery<PreviewReply>> = Vec::new();
                assert(delivery_views(none@) =~= Seq::empty());
                none
            },
        }
    }

    /// Notes that a neighbour has no such preview. Once every neighbour that was asked has said
    /// so, everyone who waits is told.
    pub fn handle_preview_miss(
        &mut self,
        from_public_key: &str,
        file_id: FileId,
        content_hash: String,
        peers: &PeerDirectory,
    ) -> (r: Vec<Delivery<PreviewReply>>)
        requires
            old(self).wf(),
        ensures
            final(self).wf(),
            ({
                let key = PreviewKeyView { file_id, content_hash: content_hash@ };
                if exhausts(old(self)@, key, from_public_key@) {
                    final(self)@ == without_key(old(self)@, key) && delivery_views(r@) == fanned(
                        peers@,
                        entry_of(old(self)@, key).downstream,
                        key.miss_reply(),
                    )
                } else {
                    final(self)@ == with_miss(old(self)@, key, from_public_key@)
                        && delivery_views(r@) == Seq::<DeliveryView<PreviewReplyView>>::empty()
                }
            }),
    {
        let key = PreviewKey { file_id, content_hash };
        let mut deliveries: Vec<Delivery<PreviewReply>> = Vec::new();
        assert(delivery_views(deliveries@) =~= Seq::empty());
        if let Some(waiters) = self.table.handle_miss(from_public_key, &key) {
            fan_miss(peers, &key, waiters, &mut deliveries);
            assert(delivery_views(deliveries@) =~= fanned(
                peers@,
                entry_of(old(self)@, key@).downstream,
                key@.miss_reply(),
            ));
        }
        deliveries
    }

    /// Gives a preview up once its deadline has passed, and tells everyone who waits.
    pub fn expire_preview(&mut self, key: &PreviewKey, peers: &PeerDirectory, now: u64) -> (r: Vec<
        Delivery<PreviewReply>,
    >)
        requires
            old(self).wf(),
        ensures
            final(self).wf(),
            if in_flight(old(self)@, key@) && entry_of(old(self)@, key@).deadline <= now {
                final(self)@ == without_key(old(self)@, key@) && delivery_views(r@) == fanned(
                    peers@,
                    entry_of(old(self)@, key@).downstream,
                    key@.miss_reply(),
                )
            } else {
                final(self)@ == old(self)@ && delivery_views(r@) == Seq::<
                    DeliveryView<PreviewReplyView>,
                >::empty()
            },
    {
        let mut deliveries: Vec<Delivery<PreviewReply>> = Vec::new();
        assert(delivery_views(deliveries@) =~= Seq::empty());
        if let Some(waiters) = self.table.expire(key, now) {
            fan_miss(peers, key, waiters, &mut deliveries);
            assert(delivery_views(deliveries@) =~= fanned(
                peers@,
                entry_of(old(self)@, key@).downstream,
                key@.miss_reply(),
            ));
        }
        deliveries
    }

    /// Takes a dropped link, and the local receivers that have gone, out of every preview in
    /// flight, and tells those who waited for a preview that can no longer come.
    pub fn prune_link(
        &mut self,
        public_key: &str,
        gone: &Vec<u64>,
        peers: &PeerDirectory,
    ) -> (r: Vec<Delivery<PreviewReply>>)
        requires
            old(self).wf(),
        ensures
            final(self).wf(),
            final(self)@ == surviving(old(self)@, public_key@, gone@),
            delivery_views(r@) == all_misses(peers@, failing(old(self)@, public_key@, gone@)),
    {
        let ghost failed = failing(self@, public_key@, gone@);
        let exhausted = self.table.prune_link(public_key, gone);
        let ghost raw = exhausted@;
        let mut deliveries: Vec<Delivery<PreviewReply>> = Vec::new();
        assert(failed.take(0) =~= Seq::empty());
        assert(delivery_views(deliveries@) =~= all_misses(peers@, failed.take(0)));
        for pair in it: exhausted.into_iter()
            invariant
                it.seq() == raw,
                raw.len() == failed.len(),
                forall|k: int|
                    0 <= k < raw.len() ==> (#[trigger] raw[k]).0@ == failed[k].key
                        && waiter_views(raw[k].1@) == failed[k].downstream,
                delivery_views(deliveries@) == all_misses(peers@, failed.take(it.index() as int)),
        {
            let ghost i = it.index() as int;
            let (key, waiters) = pair;
            proof {
                assert(raw[i].0@ == failed[i].key);
                assert(failed.take(i + 1).drop_last() =~= failed.take(i));
                assert(failed.take(i + 1).last() == failed[i]);
            }
            fan_miss(peers, &key, waiters, &mut deliveries);
        }
        assert(failed.take(failed.len() as int) =~= failed);
        deliveries
    }
}

} // verus!
