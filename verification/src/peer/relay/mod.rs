//! Content-keyed relays across the live peer tree.
//!
//! A relay keeps, for every key in flight, who waits for it and whom it was asked of. Requests
//! for one key are joined into one upstream request; the first data answers everyone who waits;
//! a miss answers them once every direction has missed. It holds no payload.

use vstd::prelude::*;

use crate::peer::messages::{Frame, FrameView};
use crate::peer::transfer::HOP_TIMEOUT;
use crate::seqs::{lemma_filter_all, lemma_filter_none, lemma_filter_take};

pub mod answer_laws;
pub mod chunks;
pub mod laws;
pub mod previews;

pub use chunks::ChunkRelay;
pub use previews::{PreviewRelay, PreviewReply};

verus! {

/// What names one payload across all peers.
pub trait RelayKey: View + Sized {
    /// Whether two keys name the same payload.
    fn same(&self, other: &Self) -> (r: bool)
        ensures
            r == (self@ == other@),
    ;
}

/// Who waits for a payload.
#[derive(Debug)]
pub enum Waiter {
    /// A neighbour, by its public key: the reply goes back to it as a frame.
    Peer(String),
    /// A requester on this device, by its number.
    Local(u64),
}

/// The model of a waiter.
pub enum WaiterView {
    Peer(Seq<char>),
    Local(u64),
}

impl View for Waiter {
    type V = WaiterView;

    open spec fn view(&self) -> WaiterView {
        match self {
            Waiter::Peer(public_key) => WaiterView::Peer(public_key@),
            Waiter::Local(requester) => WaiterView::Local(*requester),
        }
    }
}

/// The models of some waiters.
pub open spec fn waiter_views(waiters: Seq<Waiter>) -> Seq<WaiterView> {
    waiters.map_values(|waiter: Waiter| waiter@)
}

/// The models of some texts.
pub open spec fn text_views(texts: Seq<String>) -> Seq<Seq<char>> {
    texts.map_values(|text: String| text@)
}

/// A reply or request on its way out of a relay.
#[derive(Debug)]
pub enum Delivery<R> {
    /// A frame to send to a neighbour.
    ToPeer { public_key: String, frame: Frame },
    /// A reply to hand to a requester on this device.
    ToLocal { requester: u64, reply: R },
}

/// The model of a delivery.
pub enum DeliveryView<V> {
    ToPeer { public_key: Seq<char>, frame: FrameView },
    ToLocal { requester: u64, reply: V },
}

impl<R: View> View for Delivery<R> {
    type V = DeliveryView<R::V>;

    open spec fn view(&self) -> DeliveryView<R::V> {
        match self {
            Delivery::ToPeer { public_key, frame } => DeliveryView::ToPeer {
                public_key: public_key@,
                frame: frame@,
            },
            Delivery::ToLocal { requester, reply } => DeliveryView::ToLocal {
                requester: *requester,
                reply: reply@,
            },
        }
    }
}

/// The models of some deliveries.
pub open spec fn delivery_views<R: View>(deliveries: Seq<Delivery<R>>) -> Seq<
    DeliveryView<R::V>,
> {
    deliveries.map_values(|delivery: Delivery<R>| delivery@)
}

/// The public keys of the peers that are connected, each once.
#[derive(Debug)]
pub struct PeerDirectory {
    pub connected: Vec<String>,
}

impl View for PeerDirectory {
    type V = Seq<Seq<char>>;

    open spec fn view(&self) -> Seq<Seq<char>> {
        text_views(self.connected@)
    }
}

/// Any text but one.
pub open spec fn any_but(exclude: Seq<char>) -> spec_fn(Seq<char>) -> bool {
    |text: Seq<char>| text != exclude
}

/// The connected peers but one.
pub open spec fn others(connected: Seq<Seq<char>>, exclude: Seq<char>) -> Seq<Seq<char>> {
    connected.filter(any_but(exclude))
}

/// Every other peer but one, and no more.
pub proof fn lemma_others(connected: Seq<Seq<char>>, exclude: Seq<char>)
    ensures
        forall|peer: Seq<char>|
            #![trigger others(connected, exclude).contains(peer)]
            others(connected, exclude).contains(peer) <==> connected.contains(peer) && peer
                != exclude,
{
    let p = any_but(exclude);
    let rest = others(connected, exclude);
    assert forall|peer: Seq<char>| #![trigger rest.contains(peer)] rest.contains(peer)
        <==> connected.contains(peer) && peer != exclude by {
        if rest.contains(peer) {
            let k = rest.index_of(peer);
            crate::seqs::lemma_filter_member(connected, p, k);
            let j = choose|j: int| 0 <= j < connected.len() && connected[j] == rest[k];
            assert(connected.contains(peer));
        }
        if connected.contains(peer) && peer != exclude {
            let j = connected.index_of(peer);
            crate::seqs::lemma_filter_keeps(connected, p, j);
            let k = choose|k: int| 0 <= k < rest.len() && rest[k] == connected[j];
            assert(rest.contains(peer));
        }
    }
}

impl PeerDirectory {
    /// The connected peers, but for the one that a request came from.
    pub fn connected_peers(&self, exclude: Option<&str>) -> (r: Vec<String>)
        ensures
            text_views(r@) == match exclude {
                Some(exclude) => others(self@, exclude@),
                None => self@,
            },
    {
        let ghost p = |public_key: Seq<char>|
            match exclude {
                Some(exclude) => public_key != exclude@,
                None => true,
            };
        let mut peers: Vec<String> = Vec::new();
        let mut i: usize = 0;
        proof {
            lemma_filter_none(self@.take(0), p);
            assert(text_views(peers@) =~= self@.take(0).filter(p));
        }
        while i < self.connected.len()
            invariant
                i <= self.connected.len(),
                p == (|public_key: Seq<char>|
                    match exclude {
                        Some(exclude) => public_key != exclude@,
                        None => true,
                    }),
                text_views(peers@) == self@.take(i as int).filter(p),
            decreases self.connected.len() - i,
        {
            proof {
                lemma_filter_take(self@, i as int, p);
            }
            let kept = match exclude {
                Some(exclude) => {
                    let excluded = exclude.to_owned();
                    self.connected[i] != excluded
                },
                None => true,
            };
            if kept {
                let ghost before = text_views(peers@);
                peers.push(self.connected[i].clone());
                assert(text_views(peers@) =~= before.push(self@[i as int]));
            }
            i = i + 1;
        }
        assert(self@.take(i as int) =~= self@);
        proof {
            match exclude {
                Some(exclude) => {
                    crate::seqs::lemma_filter_agree(self@, p, any_but(exclude@));
                },
                None => {
                    lemma_filter_all(self@, p);
                },
            }
        }
        peers
    }

    /// Whether a peer is connected.
    pub fn is_connected(&self, public_key: &str) -> (r: bool)
        ensures
            r == self@.contains(public_key@),
    {
        let wanted = public_key.to_owned();
        let mut i: usize = 0;
        while i < self.connected.len()
            invariant
                i <= self.connected.len(),
                wanted@ == public_key@,
                forall|j: int| 0 <= j < i ==> self@[j] != public_key@,
            decreases self.connected.len() - i,
        {
            if self.connected[i] == wanted {
                assert(self@[i as int] == public_key@);
                return true;
            }
            i = i + 1;
        }
        assert forall|j: int| 0 <= j < self@.len() implies self@[j] != public_key@ by {}
        false
    }
}

/// A reply to this waiter has somewhere to go: a peer has to be connected.
pub open spec fn can_reach(connected: Seq<Seq<char>>, waiter: WaiterView) -> bool {
    match waiter {
        WaiterView::Peer(public_key) => connected.contains(public_key),
        WaiterView::Local(_) => true,
    }
}

/// The replies to some waiters, in order. Peers that are no longer connected get none.
pub open spec fn fanned<V>(
    connected: Seq<Seq<char>>,
    waiters: Seq<WaiterView>,
    reply: spec_fn(WaiterView) -> DeliveryView<V>,
) -> Seq<DeliveryView<V>> {
    waiters.filter(|waiter: WaiterView| can_reach(connected, waiter)).map_values(reply)
}

/// The same frame to some peers, in order.
pub open spec fn sent_to<V>(targets: Seq<Seq<char>>, frame: FrameView) -> Seq<DeliveryView<V>> {
    targets.map_values(
        |public_key: Seq<char>| DeliveryView::<V>::ToPeer { public_key, frame },
    )
}

/// Whether a reply to this waiter has somewhere to go.
pub fn is_reachable(peers: &PeerDirectory, waiter: &Waiter) -> (r: bool)
    ensures
        r == can_reach(peers@, waiter@),
{
    match waiter {
        Waiter::Peer(public_key) => peers.is_connected(public_key.as_str()),
        Waiter::Local(_) => true,
    }
}

/// One key in flight.
#[derive(Debug)]
pub struct WaiterEntry<K> {
    pub key: K,
    pub downstream: Vec<Waiter>,
    pub upstream_outstanding: Vec<String>,
    pub deadline: u64,
}

/// The model of a key in flight.
pub struct WaiterEntryView<V> {
    pub key: V,
    /// Who waits, in the order they asked.
    pub downstream: Seq<WaiterView>,
    /// Whom the key was asked of and who has not answered yet.
    pub upstream: Seq<Seq<char>>,
    /// When the key is given up.
    pub deadline: u64,
}

impl<K: View> View for WaiterEntry<K> {
    type V = WaiterEntryView<K::V>;

    open spec fn view(&self) -> WaiterEntryView<K::V> {
        WaiterEntryView {
            key: self.key@,
            downstream: waiter_views(self.downstream@),
            upstream: text_views(self.upstream_outstanding@),
            deadline: self.deadline,
        }
    }
}

/// The key is in flight.
pub open spec fn in_flight<V>(entries: Seq<WaiterEntryView<V>>, key: V) -> bool {
    exists|i: int| 0 <= i < entries.len() && (#[trigger] entries[i]).key == key
}

/// What is known of a key in flight.
pub open spec fn entry_of<V>(entries: Seq<WaiterEntryView<V>>, key: V) -> WaiterEntryView<V>
    recommends
        in_flight(entries, key),
{
    entries[choose|i: int| 0 <= i < entries.len() && (#[trigger] entries[i]).key == key]
}

/// No key is in flight twice.
pub open spec fn keys_distinct<V>(entries: Seq<WaiterEntryView<V>>) -> bool {
    forall|i: int, j: int|
        0 <= i < entries.len() && 0 <= j < entries.len() && i != j ==> (
        #[trigger] entries[i]).key != (#[trigger] entries[j]).key
}

/// The table after one more waiter joined a key in flight. Its deadline stays.
pub open spec fn with_waiter<V>(
    entries: Seq<WaiterEntryView<V>>,
    key: V,
    waiter: WaiterView,
) -> Seq<WaiterEntryView<V>> {
    entries.map_values(
        |entry: WaiterEntryView<V>|
            if entry.key == key {
                WaiterEntryView { downstream: entry.downstream.push(waiter), ..entry }
            } else {
                entry
            },
    )
}

/// The table after a waiter asked for a key that is to be forwarded to `targets`.
pub open spec fn table_after_request<V>(
    entries: Seq<WaiterEntryView<V>>,
    key: V,
    waiter: WaiterView,
    targets: Seq<Seq<char>>,
    now: u64,
) -> Seq<WaiterEntryView<V>> {
    if in_flight(entries, key) {
        with_waiter(entries, key, waiter)
    } else {
        entries.push(
            WaiterEntryView {
                key,
                downstream: seq![waiter],
                upstream: targets,
                deadline: (now + HOP_TIMEOUT) as u64,
            },
        )
    }
}

/// What goes out when a key is asked for: the request to every target, and nothing where the
/// key is in flight already.
pub open spec fn sent_for_request<V, R>(
    entries: Seq<WaiterEntryView<V>>,
    key: V,
    targets: Seq<Seq<char>>,
    frame: FrameView,
) -> Seq<DeliveryView<R>> {
    if in_flight(entries, key) {
        Seq::empty()
    } else {
        sent_to(targets, frame)
    }
}

/// The table without a key.
pub open spec fn without_key<V>(entries: Seq<WaiterEntryView<V>>, key: V) -> Seq<
    WaiterEntryView<V>,
> {
    entries.filter(|entry: WaiterEntryView<V>| entry.key != key)
}

/// The table after one direction has missed a key.
pub open spec fn with_miss<V>(
    entries: Seq<WaiterEntryView<V>>,
    key: V,
    from: Seq<char>,
) -> Seq<WaiterEntryView<V>> {
    entries.map_values(
        |entry: WaiterEntryView<V>|
            if entry.key == key {
                WaiterEntryView { upstream: others(entry.upstream, from), ..entry }
            } else {
                entry
            },
    )
}

/// The miss of this direction is the last one that the key was waiting for.
pub open spec fn exhausts<V>(
    entries: Seq<WaiterEntryView<V>>,
    key: V,
    from: Seq<char>,
) -> bool {
    in_flight(entries, key) && others(entry_of(entries, key).upstream, from).len() == 0
}

/// The waiter is still there once a link has dropped and some local requesters have gone.
pub open spec fn survives(waiter: WaiterView, link: Seq<char>, gone: Seq<u64>) -> bool {
    match waiter {
        WaiterView::Peer(public_key) => public_key != link,
        WaiterView::Local(requester) => !gone.contains(requester),
    }
}

/// A key in flight after a link dropped: nobody waits on it and nothing comes from it.
pub open spec fn pruned<V>(
    entry: WaiterEntryView<V>,
    link: Seq<char>,
    gone: Seq<u64>,
) -> WaiterEntryView<V> {
    WaiterEntryView {
        downstream: entry.downstream.filter(|waiter: WaiterView| survives(waiter, link, gone)),
        upstream: others(entry.upstream, link),
        ..entry
    }
}

/// Somebody waits for the key, and somebody may still answer.
pub open spec fn is_alive<V>(entry: WaiterEntryView<V>) -> bool {
    entry.downstream.len() > 0 && entry.upstream.len() > 0
}

/// Every key in flight after a link dropped.
pub open spec fn pruned_all<V>(
    entries: Seq<WaiterEntryView<V>>,
    link: Seq<char>,
    gone: Seq<u64>,
) -> Seq<WaiterEntryView<V>> {
    entries.map_values(|entry: WaiterEntryView<V>| pruned(entry, link, gone))
}

/// The keys that stay in flight after a link dropped.
pub open spec fn surviving<V>(
    entries: Seq<WaiterEntryView<V>>,
    link: Seq<char>,
    gone: Seq<u64>,
) -> Seq<WaiterEntryView<V>> {
    pruned_all(entries, link, gone).filter(|entry: WaiterEntryView<V>| is_alive(entry))
}

/// The keys that are given up after a link dropped, with who still waits for them.
pub open spec fn failing<V>(
    entries: Seq<WaiterEntryView<V>>,
    link: Seq<char>,
    gone: Seq<u64>,
) -> Seq<WaiterEntryView<V>> {
    pruned_all(entries, link, gone).filter(|entry: WaiterEntryView<V>| !is_alive(entry))
}

/// The table of keys in flight.
pub struct WaiterTable<K> {
    entries: Vec<WaiterEntry<K>>,
}

impl<K: View> View for WaiterTable<K> {
    type V = Seq<WaiterEntryView<K::V>>;

    closed spec fn view(&self) -> Seq<WaiterEntryView<K::V>> {
        self.entries@.map_values(|entry: WaiterEntry<K>| entry@)
    }
}

/// Drops every copy of a text from a list.
fn drop_text(texts: &mut Vec<String>, text: &String)
    ensures
        text_views(final(texts)@) == others(text_views(old(texts)@), text@),
{
    let ghost all = text_views(texts@);
    let ghost p = any_but(text@);
    let mut kept: Vec<String> = Vec::new();
    let mut i: usize = 0;
    proof {
        lemma_filter_none(all.take(0), p);
        assert(text_views(kept@) =~= all.take(0).filter(p));
    }
    while i < texts.len()
        invariant
            i <= texts.len(),
            all == text_views(texts@),
            all == text_views(old(texts)@),
            p == any_but(text@),
            text_views(kept@) == all.take(i as int).filter(p),
        decreases texts.len() - i,
    {
        proof {
            lemma_filter_take(all, i as int, p);
        }
        if texts[i] != *text {
            let ghost before = text_views(kept@);
            kept.push(texts[i].clone());
            assert(text_views(kept@) =~= before.push(all[i as int]));
        }
        i = i + 1;
    }
    assert(all.take(i as int) =~= all);
    *texts = kept;
}

/// Whether a requester is among some.
fn lists_requester(requesters: &Vec<u64>, requester: u64) -> (r: bool)
    ensures
        r == requesters@.contains(requester),
{
    let mut i: usize = 0;
    while i < requesters.len()
        invariant
            i <= requesters.len(),
            forall|j: int| 0 <= j < i ==> requesters@[j] != requester,
        decreases requesters.len() - i,
    {
        if requesters[i] == requester {
            assert(requesters@[i as int] == requester);
            return true;
        }
        i = i + 1;
    }
    false
}

/// The waiters that are still there once a link has dropped.
fn surviving_waiters(waiters: Vec<Waiter>, link: &String, gone: &Vec<u64>) -> (r: Vec<Waiter>)
    ensures
        waiter_views(r@) == waiter_views(waiters@).filter(
            |waiter: WaiterView| survives(waiter, link@, gone@),
        ),
{
    let ghost all = waiter_views(waiters@);
    let ghost p = |waiter: WaiterView| survives(waiter, link@, gone@);
    let ghost raw = waiters@;
    let mut kept: Vec<Waiter> = Vec::new();
    proof {
        lemma_filter_none(all.take(0), p);
        assert(waiter_views(kept@) =~= all.take(0).filter(p));
    }
    for waiter in it: waiters.into_iter()
        invariant
            it.seq() == raw,
            all == waiter_views(raw),
            p == (|waiter: WaiterView| survives(waiter, link@, gone@)),
            waiter_views(kept@) == all.take(it.index() as int).filter(p),
    {
        proof {
            lemma_filter_take(all, it.index() as int, p);
        }
        let stays = match &waiter {
            Waiter::Peer(public_key) => *public_key != *link,
            Waiter::Local(requester) => !lists_requester(gone, *requester),
        };
        if stays {
            let ghost before = waiter_views(kept@);
            kept.push(waiter);
            assert(waiter_views(kept@) =~= before.push(all[it.index() as int]));
        }
    }
    assert(all.take(all.len() as int) =~= all);
    kept
}

impl<K: RelayKey> WaiterTable<K> {
    /// No key is in flight twice.
    pub open spec fn wf(&self) -> bool {
        keys_distinct(self@)
    }

    /// A table with nothing in flight.
    pub fn new() -> (r: WaiterTable<K>)
        ensures
            r.wf(),
            r@ == Seq::<WaiterEntryView<K::V>>::empty(),
    {
        let r: WaiterTable<K> = WaiterTable { entries: Vec::new() };
        assert(r@ =~= Seq::empty());
        r
    }

    /// Whether nothing is in flight.
    pub fn is_empty(&self) -> (r: bool)
        ensures
            r == (self@.len() == 0),
    {
        self.entries.len() == 0
    }

    /// Where a key stands, if it is in flight.
    fn index_of(&self, key: &K) -> (r: Option<usize>)
        requires
            self.wf(),
        ensures
            match r {
                Some(i) => i < self.entries@.len() && i < self@.len() && in_flight(self@, key@)
                    && self@[i as int].key == key@ && entry_of(self@, key@) == self@[i as int],
                None => !in_flight(self@, key@),
            },
    {
        let mut i: usize = 0;
        while i < self.entries.len()
            invariant
                i <= self.entries.len(),
                self.wf(),
                forall|j: int| 0 <= j < i ==> (#[trigger] self@[j]).key != key@,
            decreases self.entries.len() - i,
        {
            if self.entries[i].key.same(key) {
                assert(self@[i as int].key == key@);
                return Some(i);
            }
            i = i + 1;
        }
        None
    }

    /// Registers a waiter. A key in flight is joined; a new key is put in flight toward
    /// `targets`, to be given up after the hop timeout. Says whether the key is new.
    pub fn enqueue(&mut self, key: K, waiter: Waiter, targets: Vec<String>, now: u64) -> (r: bool)
        requires
            old(self).wf(),
            now <= u64::MAX - HOP_TIMEOUT,
        ensures
            final(self).wf(),
            r == !in_flight(old(self)@, key@),
            final(self)@ == table_after_request(
                old(self)@,
                key@,
                waiter@,
                text_views(targets@),
                now,
            ),
    {
        match self.index_of(&key) {
            Some(i) => {
                let ghost before = self@;
                let ghost added = waiter@;
                self.entries[i].downstream.push(waiter);
                proof {
                    assert(self@[i as int].downstream =~= before[i as int].downstream.push(added));
                    assert forall|j: int| 0 <= j < before.len() implies self@[j] == with_waiter(
                        before,
                        key@,
                        added,
                    )[j] by {
                        if j != i {
                            assert(before[j].key != before[i as int].key);
                        }
                    }
                    assert(self@ =~= with_waiter(before, key@, added));
                }
                false
            },
            None => {
                let ghost before = self@;
                let ghost entry = WaiterEntryView {
                    key: key@,
                    downstream: seq![waiter@],
                    upstream: text_views(targets@),
                    deadline: (now + HOP_TIMEOUT) as u64,
                };
                let mut downstream: Vec<Waiter> = Vec::new();
                downstream.push(waiter);
                assert(waiter_views(downstream@) =~= entry.downstream);
                self.entries.push(
                    WaiterEntry {
                        key,
                        downstream,
                        upstream_outstanding: targets,
                        deadline: now + HOP_TIMEOUT,
                    },
                );
                assert(self@ =~= before.push(entry));
                true
            },
        }
    }

    /// Takes a key out of flight.
    fn remove_at(&mut self, i: usize) -> (r: Vec<Waiter>)
        requires
            old(self).wf(),
            i < old(self)@.len(),
        ensures
            final(self).wf(),
            waiter_views(r@) == old(self)@[i as int].downstream,
            final(self)@ == without_key(old(self)@, old(self)@[i as int].key),
    {
        let ghost before = self@;
        proof {
            lemma_remove_key(before, i as int);
        }
        let entry = self.entries.remove(i);
        assert(self@ =~= before.remove(i as int));
        entry.downstream
    }

    /// Takes a key out of flight because data has come: everyone who waits is to be answered.
    /// `None` if the key is not in flight, as for a late duplicate.
    pub fn handle_data(&mut self, key: &K) -> (r: Option<Vec<Waiter>>)
        requires
            old(self).wf(),
        ensures
            final(self).wf(),
            match r {
                Some(waiters) => in_flight(old(self)@, key@) && waiter_views(waiters@)
                    == entry_of(old(self)@, key@).downstream && final(self)@ == without_key(
                    old(self)@,
                    key@,
                ),
                None => !in_flight(old(self)@, key@) && final(self)@ == old(self)@,
            },
    {
        match self.index_of(key) {
            Some(i) => Some(self.remove_at(i)),
            None => None,
        }
    }

    /// Notes that one direction has missed a key. Where it was the last, the key is taken out
    /// of flight and everyone who waits is to be told.
    pub fn handle_miss(&mut self, from_public_key: &str, key: &K) -> (r: Option<Vec<Waiter>>)
        requires
            old(self).wf(),
        ensures
            final(self).wf(),
            match r {
                Some(waiters) => exhausts(old(self)@, key@, from_public_key@) && waiter_views(
                    waiters@,
                ) == entry_of(old(self)@, key@).downstream && final(self)@ == without_key(
                    old(self)@,
                    key@,
                ),
                None => !exhausts(old(self)@, key@, from_public_key@) && final(self)@
                    == with_miss(old(self)@, key@, from_public_key@),
            },
    {
        let ghost before = self@;
        match self.index_of(key) {
            Some(i) => {
                let from = from_public_key.to_owned();
                let mut upstream = self.entries[i].upstream_outstanding.clone();
                assert(text_views(upstream@) =~= before[i as int].upstream);
                drop_text(&mut upstream, &from);
                if upstream.len() == 0 {
                    assert(text_views(upstream@).len() == 0);
                    return Some(self.remove_at(i));
                }
                assert(text_views(upstream@).len() > 0);
                self.entries[i].upstream_outstanding = upstream;
                proof {
                    assert forall|j: int| 0 <= j < before.len() implies self@[j] == with_miss(
                        before,
                        key@,
                        from_public_key@,
                    )[j] by {
                        if j != i {
                            assert(before[j].key != before[i as int].key);
                        }
                    }
                    assert(self@ =~= with_miss(before, key@, from_public_key@));
                }
                None
            },
            None => {
                assert forall|j: int| 0 <= j < before.len() implies before[j] == with_miss(
                    before,
                    key@,
                    from_public_key@,
                )[j] by {
                    assert(before[j].key != key@);
                }
                assert(self@ =~= with_miss(before, key@, from_public_key@));
                None
            },
        }
    }

    /// Gives a key up if its deadline has passed, and says who is to be told.
    pub fn expire(&mut self, key: &K, now: u64) -> (r: Option<Vec<Waiter>>)
        requires
            old(self).wf(),
        ensures
            final(self).wf(),
            match r {
                Some(waiters) => in_flight(old(self)@, key@) && entry_of(
                    old(self)@,
                    key@,
                ).deadline <= now && waiter_views(waiters@) == entry_of(
                    old(self)@,
                    key@,
                ).downstream && final(self)@ == without_key(old(self)@, key@),
                None => (in_flight(old(self)@, key@) ==> entry_of(old(self)@, key@).deadline
                    > now) && final(self)@ == old(self)@,
            },
    {
        match self.index_of(key) {
            Some(i) => {
                if self.entries[i].deadline <= now {
                    Some(self.remove_at(i))
                } else {
                    None
                }
            },
            None => None,
        }
    }

    /// Takes a dropped link, and the local requesters that have gone, out of every key. A key
    /// that nobody waits for or that nobody can answer any more is given up; those who still
    /// wait for it are to be told.
    pub fn prune_link(&mut self, public_key: &str, gone: &Vec<u64>) -> (r: Vec<(K, Vec<Waiter>)>)
        requires
            old(self).wf(),
        ensures
            final(self).wf(),
            final(self)@ == surviving(old(self)@, public_key@, gone@),
            r@.len() == failing(old(self)@, public_key@, gone@).len(),
            forall|k: int|
                0 <= k < r@.len() ==> (#[trigger] r@[k]).0@ == failing(
                    old(self)@,
                    public_key@,
                    gone@,
                )[k].key && waiter_views(r@[k].1@) == failing(
                    old(self)@,
                    public_key@,
                    gone@,
                )[k].downstream,
    {
        let link = public_key.to_owned();
        let ghost before = self@;
        let ghost all = pruned_all(before, public_key@, gone@);
        let ghost alive = |entry: WaiterEntryView<K::V>| is_alive(entry);
        let ghost dead = |entry: WaiterEntryView<K::V>| !is_alive(entry);
        let mut entries: Vec<WaiterEntry<K>> = Vec::new();
        std::mem::swap(&mut entries, &mut self.entries);
        let ghost raw = entries@;
        let mut kept: Vec<WaiterEntry<K>> = Vec::new();
        let mut failed: Vec<(K, Vec<Waiter>)> = Vec::new();
        let ghost mut failed_views: Seq<WaiterEntryView<K::V>> = Seq::empty();
        proof {
            lemma_filter_none(all.take(0), alive);
            lemma_filter_none(all.take(0), dead);
            assert(kept@.map_values(|entry: WaiterEntry<K>| entry@) =~= all.take(0).filter(alive));
            assert(raw.map_values(|entry: WaiterEntry<K>| entry@) =~= before);
        }
        for entry in it: entries.into_iter()
            invariant
                it.seq() == raw,
                link@ == public_key@,
                before == raw.map_values(|entry: WaiterEntry<K>| entry@),
                all == pruned_all(before, public_key@, gone@),
                alive == (|entry: WaiterEntryView<K::V>| is_alive(entry)),
                dead == (|entry: WaiterEntryView<K::V>| !is_alive(entry)),
                kept@.map_values(|entry: WaiterEntry<K>| entry@) == all.take(
                    it.index() as int,
                ).filter(alive),
                failed_views == all.take(it.index() as int).filter(dead),
                failed@.len() == failed_views.len(),
                forall|k: int|
                    0 <= k < failed@.len() ==> (#[trigger] failed@[k]).0@ == failed_views[k].key
                        && waiter_views(failed@[k].1@) == failed_views[k].downstream,
        {
            let ghost i = it.index() as int;
            proof {
                lemma_filter_take(all, i, alive);
                lemma_filter_take(all, i, dead);
                assert(entry@ == before[i]);
            }
            let WaiterEntry { key, downstream, upstream_outstanding, deadline } = entry;
            let downstream = surviving_waiters(downstream, &link, gone);
            let mut upstream_outstanding = upstream_outstanding;
            drop_text(&mut upstream_outstanding, &link);
            let ghost view = WaiterEntryView {
                key: key@,
                downstream: waiter_views(downstream@),
                upstream: text_views(upstream_outstanding@),
                deadline,
            };
            assert(view == all[i]);
            if downstream.len() == 0 || upstream_outstanding.len() == 0 {
                assert(!is_alive(view));
                failed.push((key, downstream));
                proof {
                    failed_views = failed_views.push(view);
                }
            } else {
                assert(waiter_views(downstream@).len() > 0);
                assert(text_views(upstream_outstanding@).len() > 0);
                assert(is_alive(view));
                let ghost kept_views = kept@.map_values(|entry: WaiterEntry<K>| entry@);
                kept.push(WaiterEntry { key, downstream, upstream_outstanding, deadline });
                assert(kept@.map_values(|entry: WaiterEntry<K>| entry@) =~= kept_views.push(view));
            }
        }
        self.entries = kept;
        proof {
            assert(all.take(all.len() as int) =~= all);
            assert(self@ =~= surviving(before, public_key@, gone@));
            lemma_survivors_distinct(before, public_key@, gone@);
        }
        failed
    }
}

/// Removing a key is taking out the one place where it stands.
proof fn lemma_remove_key<V>(entries: Seq<WaiterEntryView<V>>, i: int)
    requires
        keys_distinct(entries),
        0 <= i < entries.len(),
    ensures
        entries.remove(i) == without_key(entries, entries[i].key),
        keys_distinct(entries.remove(i)),
{
    let key = entries[i].key;
    let p = |entry: WaiterEntryView<V>| entry.key != key;
    let rest = entries.remove(i);
    crate::seqs::lemma_filter_remove(entries, i, p);
    assert forall|j: int| 0 <= j < rest.len() implies p(#[trigger] rest[j]) by {
        if j < i {
            assert(rest[j] == entries[j]);
        } else {
            assert(rest[j] == entries[j + 1]);
        }
    }
    lemma_filter_all(rest, p);
}

/// A key that is not in flight is not there to be removed.
pub proof fn lemma_nothing_to_remove<V>(entries: Seq<WaiterEntryView<V>>, key: V)
    requires
        !in_flight(entries, key),
    ensures
        without_key(entries, key) == entries,
{
    let p = |entry: WaiterEntryView<V>| entry.key != key;
    assert forall|i: int| 0 <= i < entries.len() implies p(#[trigger] entries[i]) by {}
    lemma_filter_all(entries, p);
}

/// Pruning keeps the keys of the table.
proof fn lemma_survivors_distinct<V>(
    entries: Seq<WaiterEntryView<V>>,
    link: Seq<char>,
    gone: Seq<u64>,
)
    requires
        keys_distinct(entries),
    ensures
        keys_distinct(surviving(entries, link, gone)),
{
    let all = pruned_all(entries, link, gone);
    let p = |entry: WaiterEntryView<V>| is_alive(entry);
    let r = |a: WaiterEntryView<V>, b: WaiterEntryView<V>| a.key != b.key;
    assert forall|i: int, j: int| 0 <= i < j < all.len() implies r(
        #[trigger] all[i],
        #[trigger] all[j],
    ) by {
        assert(entries[i].key != entries[j].key);
    }
    crate::seqs::lemma_filter_pairs(all, p, r);
    let kept = surviving(entries, link, gone);
    assert forall|i: int, j: int|
        0 <= i < kept.len() && 0 <= j < kept.len() && i != j implies (#[trigger] kept[i]).key != (
    #[trigger] kept[j]).key by {
        if i < j {
            assert(r(kept[i], kept[j]));
        } else {
            assert(r(kept[j], kept[i]));
        }
    }
}

} // verus!
