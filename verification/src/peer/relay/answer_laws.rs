//! Who is asked and who is told, said of the peers that are connected and of those who wait.

use vstd::prelude::*;

use crate::ids::FileId;
use crate::peer::messages::{FrameView, SyncView};
use crate::peer::relay::chunks::{all_misses as all_chunk_misses, directed, ChunkKeyView};
use crate::peer::relay::previews::{
    all_misses as all_preview_misses, PreviewKeyView, PreviewReplyView,
};
use crate::peer::relay::{
    any_but, can_reach, failing, fanned, is_alive, others, pruned, pruned_all, sent_for_request,
    surviving, survives, table_after_request, DeliveryView, WaiterEntryView, WaiterView,
};
use crate::peer::transfer::ChunkReplyView;
use crate::seqs::{lemma_filter_keeps, lemma_filter_member};
use crate::state::PreviewView;

verus! {

/// A request for something that nobody has asked for yet goes to each of those it is for, and is
/// remembered: for whom it is, whom it went to, and until when an answer may come, which is eight
/// seconds from now. What was remembered before stays.
pub proof fn law_new_request_is_sent_and_remembered<V, R>(
    entries: Seq<WaiterEntryView<V>>,
    key: V,
    waiter: WaiterView,
    targets: Seq<Seq<char>>,
    frame: FrameView,
    now: u64,
)
    requires
        forall|i: int| 0 <= i < entries.len() ==> (#[trigger] entries[i]).key != key,
        now + 8000 <= u64::MAX,
    ensures
        ({
            let sent = sent_for_request::<V, R>(entries, key, targets, frame);
            let after = table_after_request(entries, key, waiter, targets, now);
            let entry = after[after.len() - 1];
            &&& sent.len() == targets.len()
            &&& forall|k: int|
                0 <= k < targets.len() ==> #[trigger] sent[k] == (DeliveryView::<R>::ToPeer {
                    public_key: targets[k],
                    frame,
                })
            &&& after.len() == entries.len() + 1
            &&& after.drop_last() == entries
            &&& entry.key == key && entry.downstream == seq![waiter] && entry.upstream == targets
                && entry.deadline == now + 8000
        }),
{
    let after = table_after_request(entries, key, waiter, targets, now);
    assert(after.drop_last() =~= entries);
}

/// A relayed request is for every connected peer but the one it came from.
pub proof fn law_relayed_request_is_for_all_others(
    connected: Seq<Seq<char>>,
    from: Seq<char>,
    peer: Seq<char>,
)
    ensures
        others(connected, from).contains(peer) <==> connected.contains(peer) && peer != from,
{
    let p = any_but(from);
    let kept = others(connected, from);
    if kept.contains(peer) {
        let k = kept.index_of(peer);
        lemma_filter_member(connected, p, k);
        let i = choose|i: int| 0 <= i < connected.len() && connected[i] == kept[k];
        assert(connected.contains(peer));
    }
    if connected.contains(peer) && peer != from {
        let i = connected.index_of(peer);
        lemma_filter_keeps(connected, p, i);
        let k = choose|k: int| 0 <= k < kept.len() && kept[k] == connected[i];
        assert(kept.contains(peer));
    }
}

/// A request that is meant for one peer is for that peer alone if it is connected, and for all who
/// are if it is not, or if the request is meant for nobody in particular.
pub proof fn law_request_is_directed_if_it_can_be(connected: Seq<Seq<char>>, peer: Seq<char>)
    ensures
        connected.contains(peer) ==> directed(connected, Some(peer)) == seq![peer],
        !connected.contains(peer) ==> directed(connected, Some(peer)) == connected,
        directed(connected, None) == connected,
{
}

/// Whoever waits on this device is told, and so is every peer that waits and is connected.
pub proof fn law_reachable_waiter_is_told<R>(
    connected: Seq<Seq<char>>,
    waiters: Seq<WaiterView>,
    reply: spec_fn(WaiterView) -> DeliveryView<R>,
    i: int,
)
    requires
        0 <= i < waiters.len(),
        waiters[i] is Local || connected.contains(waiters[i]->Peer_0),
    ensures
        exists|k: int|
            0 <= k < fanned(connected, waiters, reply).len() && #[trigger] fanned(
                connected,
                waiters,
                reply,
            )[k] == reply(waiters[i]),
{
    let p = |waiter: WaiterView| can_reach(connected, waiter);
    lemma_filter_keeps(waiters, p, i);
    let kept = waiters.filter(p);
    let k = choose|k: int| 0 <= k < kept.len() && kept[k] == waiters[i];
    assert(fanned(connected, waiters, reply)[k] == reply(waiters[i]));
}

/// Nobody is told who does not wait, nor a peer that is not connected.
pub proof fn law_only_reachable_waiters_are_told<R>(
    connected: Seq<Seq<char>>,
    waiters: Seq<WaiterView>,
    reply: spec_fn(WaiterView) -> DeliveryView<R>,
    k: int,
)
    requires
        0 <= k < fanned(connected, waiters, reply).len(),
    ensures
        exists|i: int|
            0 <= i < waiters.len() && fanned(connected, waiters, reply)[k] == reply(
                #[trigger] waiters[i],
            ) && (waiters[i] is Local || connected.contains(waiters[i]->Peer_0)),
{
    let p = |waiter: WaiterView| can_reach(connected, waiter);
    lemma_filter_member(waiters, p, k);
    let kept = waiters.filter(p);
    let i = choose|i: int| 0 <= i < waiters.len() && waiters[i] == kept[k];
    assert(fanned(connected, waiters, reply)[k] == reply(waiters[i]));
}

/// Requests for chunks and the replies to them name the file, the content and the offset; a reply
/// to one who waits on this device names the offset. Data carries the bytes.
pub proof fn law_chunk_replies_carry_what_was_asked_for(
    file_id: FileId,
    content_hash: Seq<char>,
    offset: u64,
    bytes: Seq<u8>,
    peer: Seq<char>,
    requester: u64,
)
    ensures
        ({
            let key = ChunkKeyView { file_id, content_hash, offset };
            &&& key.request_frame() == FrameView::Sync(
                SyncView::ChunkRequest { file_id, content_hash, offset },
            )
            &&& key.data_reply(bytes)(WaiterView::Peer(peer)) == (DeliveryView::<ChunkReplyView>::ToPeer {
                public_key: peer,
                frame: FrameView::Sync(
                    SyncView::ChunkData { file_id, content_hash, offset, bytes },
                ),
            })
            &&& key.data_reply(bytes)(WaiterView::Local(requester)) == (DeliveryView::<ChunkReplyView>::ToLocal {
                requester,
                reply: ChunkReplyView::Data { offset, bytes },
            })
            &&& key.miss_reply()(WaiterView::Peer(peer)) == (DeliveryView::<ChunkReplyView>::ToPeer {
                public_key: peer,
                frame: FrameView::Sync(SyncView::ChunkMiss { file_id, content_hash, offset }),
            })
            &&& key.miss_reply()(WaiterView::Local(requester)) == (DeliveryView::<ChunkReplyView>::ToLocal {
                requester,
                reply: ChunkReplyView::Miss { offset },
            })
        }),
{
}

/// Requests for previews and the replies to them name the file and the content; data carries the
/// preview.
pub proof fn law_preview_replies_carry_what_was_asked_for(
    file_id: FileId,
    content_hash: Seq<char>,
    preview: PreviewView,
    peer: Seq<char>,
    requester: u64,
)
    ensures
        ({
            let key = PreviewKeyView { file_id, content_hash };
            &&& key.request_frame() == FrameView::Sync(
                SyncView::PreviewRequest { file_id, content_hash },
            )
            &&& key.data_reply(preview)(WaiterView::Peer(peer)) == (DeliveryView::<PreviewReplyView>::ToPeer {
                public_key: peer,
                frame: FrameView::Sync(
                    SyncView::PreviewData { file_id, content_hash, preview },
                ),
            })
            &&& key.data_reply(preview)(WaiterView::Local(requester)) == (DeliveryView::<PreviewReplyView>::ToLocal {
                requester,
                reply: PreviewReplyView::Data(preview),
            })
            &&& key.miss_reply()(WaiterView::Peer(peer)) == (DeliveryView::<PreviewReplyView>::ToPeer {
                public_key: peer,
                frame: FrameView::Sync(SyncView::PreviewMiss { file_id, content_hash }),
            })
            &&& key.miss_reply()(WaiterView::Local(requester)) == (DeliveryView::<PreviewReplyView>::ToLocal {
                requester,
                reply: PreviewReplyView::Miss,
            })
        }),
{
}

/// When a link drops, a request that somebody else waits for, and that somebody else was asked, goes
/// on: for all who are still there, asked of all who still are, until the same time.
pub proof fn law_request_outlives_a_link<V>(
    entries: Seq<WaiterEntryView<V>>,
    link: Seq<char>,
    gone: Seq<u64>,
    i: int,
    w: int,
    u: int,
)
    requires
        0 <= i < entries.len(),
        0 <= w < entries[i].downstream.len(),
        match entries[i].downstream[w] {
            WaiterView::Peer(peer) => peer != link,
            WaiterView::Local(requester) => !gone.contains(requester),
        },
        0 <= u < entries[i].upstream.len(),
        entries[i].upstream[u] != link,
    ensures
        exists|k: int|
            0 <= k < surviving(entries, link, gone).len() && (#[trigger] surviving(
                entries,
                link,
                gone,
            )[k]).key == entries[i].key && surviving(entries, link, gone)[k].deadline
                == entries[i].deadline && surviving(entries, link, gone)[k].downstream.contains(
                entries[i].downstream[w],
            ) && surviving(entries, link, gone)[k].upstream.contains(entries[i].upstream[u]),
{
    let entry = pruned(entries[i], link, gone);
    let down = |waiter: WaiterView| survives(waiter, link, gone);
    lemma_filter_keeps(entries[i].downstream, down, w);
    let a = choose|a: int|
        0 <= a < entry.downstream.len() && entry.downstream[a] == entries[i].downstream[w];
    assert(entry.downstream.contains(entries[i].downstream[w]));
    law_relayed_request_is_for_all_others(entries[i].upstream, link, entries[i].upstream[u]);
    let b = entry.upstream.index_of(entries[i].upstream[u]);
    assert(entry.upstream.len() > 0);
    let all = pruned_all(entries, link, gone);
    assert(all[i] == entry);
    let alive = |entry: WaiterEntryView<V>| is_alive(entry);
    lemma_filter_keeps(all, alive, i);
    let k = choose|k: int|
        0 <= k < surviving(entries, link, gone).len() && surviving(entries, link, gone)[k]
            == all[i];
    assert(surviving(entries, link, gone)[k].key == entries[i].key);
}

/// When a link drops, a request that had been asked of nobody else fails, and one who is still there
/// is among those who are to be told.
pub proof fn law_request_fails_with_its_last_link<V>(
    entries: Seq<WaiterEntryView<V>>,
    link: Seq<char>,
    gone: Seq<u64>,
    i: int,
    w: int,
)
    requires
        0 <= i < entries.len(),
        0 <= w < entries[i].downstream.len(),
        match entries[i].downstream[w] {
            WaiterView::Peer(peer) => peer != link,
            WaiterView::Local(requester) => !gone.contains(requester),
        },
        forall|u: int| 0 <= u < entries[i].upstream.len() ==> #[trigger] entries[i].upstream[u] == link,
    ensures
        exists|k: int|
            0 <= k < failing(entries, link, gone).len() && (#[trigger] failing(
                entries,
                link,
                gone,
            )[k]).key == entries[i].key && failing(entries, link, gone)[k].downstream.contains(
                entries[i].downstream[w],
            ),
{
    let entry = pruned(entries[i], link, gone);
    let down = |waiter: WaiterView| survives(waiter, link, gone);
    lemma_filter_keeps(entries[i].downstream, down, w);
    let a = choose|a: int|
        0 <= a < entry.downstream.len() && entry.downstream[a] == entries[i].downstream[w];
    assert(entry.downstream.contains(entries[i].downstream[w]));
    assert(entry.upstream.len() == 0) by {
        if entry.upstream.len() > 0 {
            let peer = entry.upstream[0];
            assert(entry.upstream.contains(peer));
            law_relayed_request_is_for_all_others(entries[i].upstream, link, peer);
            let u = entries[i].upstream.index_of(peer);
            assert(entries[i].upstream[u] == link);
        }
    }
    let all = pruned_all(entries, link, gone);
    assert(all[i] == entry);
    let dead = |entry: WaiterEntryView<V>| !is_alive(entry);
    lemma_filter_keeps(all, dead, i);
    let k = choose|k: int|
        0 <= k < failing(entries, link, gone).len() && failing(entries, link, gone)[k] == all[i];
    assert(failing(entries, link, gone)[k].key == entries[i].key);
}

/// Everyone who waits for a chunk whose request has failed, and can be reached, is told that there is
/// none.
pub proof fn law_failed_chunk_is_told(
    connected: Seq<Seq<char>>,
    entries: Seq<WaiterEntryView<ChunkKeyView>>,
    i: int,
    w: int,
)
    requires
        0 <= i < entries.len(),
        0 <= w < entries[i].downstream.len(),
        entries[i].downstream[w] is Local || connected.contains(entries[i].downstream[w]->Peer_0),
    ensures
        all_chunk_misses(connected, entries).contains(
            entries[i].key.miss_reply()(entries[i].downstream[w]),
        ),
    decreases entries.len(),
{
    let told = entries[i].key.miss_reply()(entries[i].downstream[w]);
    let all = all_chunk_misses(connected, entries);
    let earlier = all_chunk_misses(connected, entries.drop_last());
    let last = entries.last();
    if i < entries.len() - 1 {
        assert(entries.drop_last()[i] == entries[i]);
        law_failed_chunk_is_told(connected, entries.drop_last(), i, w);
        let k = earlier.index_of(told);
        assert(all[k] == told);
    } else {
        law_reachable_waiter_is_told(connected, last.downstream, last.key.miss_reply(), w);
        let fan = fanned(connected, last.downstream, last.key.miss_reply());
        let k = choose|k: int| 0 <= k < fan.len() && #[trigger] fan[k] == told;
        assert(all[earlier.len() + k] == told);
    }
}

/// Everyone who waits for a preview whose request has failed, and can be reached, is told that there
/// is none.
pub proof fn law_failed_preview_is_told(
    connected: Seq<Seq<char>>,
    entries: Seq<WaiterEntryView<PreviewKeyView>>,
    i: int,
    w: int,
)
    requires
        0 <= i < entries.len(),
        0 <= w < entries[i].downstream.len(),
        entries[i].downstream[w] is Local || connected.contains(entries[i].downstream[w]->Peer_0),
    ensures
        all_preview_misses(connected, entries).contains(
            entries[i].key.miss_reply()(entries[i].downstream[w]),
        ),
    decreases entries.len(),
{
    let told = entries[i].key.miss_reply()(entries[i].downstream[w]);
    let all = all_preview_misses(connected, entries);
    let earlier = all_preview_misses(connected, entries.drop_last());
    let last = entries.last();
    if i < entries.len() - 1 {
        assert(entries.drop_last()[i] == entries[i]);
        law_failed_preview_is_told(connected, entries.drop_last(), i, w);
        let k = earlier.index_of(told);
        assert(all[k] == told);
    } else {
        law_reachable_waiter_is_told(connected, last.downstream, last.key.miss_reply(), w);
        let fan = fanned(connected, last.downstream, last.key.miss_reply());
        let k = choose|k: int| 0 <= k < fan.len() && #[trigger] fan[k] == told;
        assert(all[earlier.len() + k] == told);
    }
}

} // verus!
