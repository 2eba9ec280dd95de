//! What holds of a relay, whatever it relays.

use vstd::prelude::*;

use crate::peer::messages::FrameView;
use crate::peer::relay::{
    any_but, can_reach, entry_of, exhausts, failing, fanned, in_flight, is_alive, keys_distinct,
    lemma_others, others, pruned, pruned_all, sent_for_request, sent_to, surviving, survives,
    table_after_request, with_miss, with_waiter, without_key, DeliveryView, WaiterEntryView,
    WaiterView,
};
use crate::seqs::{lemma_filter_keeps, lemma_filter_member, lemma_filter_none};

verus! {

/// A key in flight is the one that stands in its place.
proof fn lemma_entry_at<V>(entries: Seq<WaiterEntryView<V>>, i: int)
    requires
        keys_distinct(entries),
        0 <= i < entries.len(),
    ensures
        in_flight(entries, entries[i].key),
        entry_of(entries, entries[i].key) == entries[i],
{
    let key = entries[i].key;
    let k = choose|k: int| 0 <= k < entries.len() && (#[trigger] entries[k]).key == key;
    assert(entries[i].key == key);
    assert(k == i);
}

/// A table that keeps every key in its place keeps keys distinct.
proof fn lemma_same_keys<V>(before: Seq<WaiterEntryView<V>>, after: Seq<WaiterEntryView<V>>)
    requires
        keys_distinct(before),
        after.len() == before.len(),
        forall|i: int| 0 <= i < before.len() ==> (#[trigger] after[i]).key == before[i].key,
    ensures
        keys_distinct(after),
{
    assert forall|i: int, j: int|
        0 <= i < after.len() && 0 <= j < after.len() && i != j implies (#[trigger] after[i]).key
        != (#[trigger] after[j]).key by {
        assert(before[i].key != before[j].key);
    }
}

/// Data that comes again, after its key was answered, finds nobody waiting.
pub proof fn law_answered_key_is_forgotten<V>(entries: Seq<WaiterEntryView<V>>, key: V)
    ensures
        !in_flight(without_key(entries, key), key),
{
    let p = |entry: WaiterEntryView<V>| entry.key != key;
    let rest = without_key(entries, key);
    if in_flight(rest, key) {
        let i = choose|i: int| 0 <= i < rest.len() && (#[trigger] rest[i]).key == key;
        lemma_filter_member(entries, p, i);
        assert(p(rest[i]));
    }
}

/// A request for a key in flight is joined to it: nothing is sent, its deadline and whom it was
/// asked of stay, and the new waiter comes after those before it.
pub proof fn law_requests_for_one_key_are_joined<V, R>(
    entries: Seq<WaiterEntryView<V>>,
    key: V,
    waiter: WaiterView,
    targets: Seq<Seq<char>>,
    frame: FrameView,
    now: u64,
)
    requires
        keys_distinct(entries),
        in_flight(entries, key),
    ensures
        sent_for_request::<V, R>(entries, key, targets, frame) == Seq::<DeliveryView<R>>::empty(),
        entry_of(table_after_request(entries, key, waiter, targets, now), key) == (
        WaiterEntryView {
            downstream: entry_of(entries, key).downstream.push(waiter),
            ..entry_of(entries, key)
        }),
{
    let after = with_waiter(entries, key, waiter);
    let i = choose|i: int| 0 <= i < entries.len() && (#[trigger] entries[i]).key == key;
    lemma_entry_at(entries, i);
    lemma_same_keys(entries, after);
    assert(after[i].key == key);
    lemma_entry_at(after, i);
}

/// A relayed request never goes back to where it came from.
pub proof fn law_request_is_never_echoed<R>(
    connected: Seq<Seq<char>>,
    from: Seq<char>,
    frame: FrameView,
    k: int,
)
    requires
        0 <= k < sent_to::<R>(others(connected, from), frame).len(),
    ensures
        sent_to::<R>(others(connected, from), frame)[k] matches DeliveryView::ToPeer {
            public_key,
            ..
        } && public_key != from && connected.contains(public_key),
{
    lemma_others(connected, from);
    assert(others(connected, from).contains(others(connected, from)[k]));
}

/// Everyone who waits and can be reached is answered.
pub proof fn law_every_waiter_is_answered<R>(
    connected: Seq<Seq<char>>,
    waiters: Seq<WaiterView>,
    reply: spec_fn(WaiterView) -> DeliveryView<R>,
    i: int,
)
    requires
        0 <= i < waiters.len(),
        can_reach(connected, waiters[i]),
    ensures
        fanned(connected, waiters, reply).contains(reply(waiters[i])),
        fanned(connected, waiters, reply).len() <= waiters.len(),
{
    let p = |waiter: WaiterView| can_reach(connected, waiter);
    let kept = waiters.filter(p);
    lemma_filter_keeps(waiters, p, i);
    let k = choose|k: int| 0 <= k < kept.len() && kept[k] == waiters[i];
    assert(fanned(connected, waiters, reply)[k] == reply(waiters[i]));
    lemma_filter_is_shorter(waiters, p);
}

proof fn lemma_filter_is_shorter<A>(s: Seq<A>, p: spec_fn(A) -> bool)
    ensures
        s.filter(p).len() <= s.len(),
    decreases s.len(),
{
    reveal(Seq::filter);
    if s.len() > 0 {
        lemma_filter_is_shorter(s.drop_last(), p);
    }
}

/// What is done for one key leaves every other key as it was.
pub proof fn law_keys_do_not_interfere<V>(
    entries: Seq<WaiterEntryView<V>>,
    key: V,
    other: V,
    waiter: WaiterView,
    from: Seq<char>,
)
    requires
        keys_distinct(entries),
        other != key,
        in_flight(entries, other),
    ensures
        in_flight(with_waiter(entries, key, waiter), other),
        entry_of(with_waiter(entries, key, waiter), other) == entry_of(entries, other),
        in_flight(with_miss(entries, key, from), other),
        entry_of(with_miss(entries, key, from), other) == entry_of(entries, other),
        in_flight(without_key(entries, key), other),
        entry_of(without_key(entries, key), other) == entry_of(entries, other),
{
    let i = choose|i: int| 0 <= i < entries.len() && (#[trigger] entries[i]).key == other;
    lemma_entry_at(entries, i);
    let joined = with_waiter(entries, key, waiter);
    lemma_same_keys(entries, joined);
    assert(joined[i].key == other);
    lemma_entry_at(joined, i);
    let missed = with_miss(entries, key, from);
    lemma_same_keys(entries, missed);
    assert(missed[i].key == other);
    lemma_entry_at(missed, i);
    let p = |entry: WaiterEntryView<V>| entry.key != key;
    let rest = without_key(entries, key);
    lemma_filter_keeps(entries, p, i);
    let k = choose|k: int| 0 <= k < rest.len() && rest[k] == entries[i];
    assert(rest[k].key == other);
    let m = choose|m: int| 0 <= m < rest.len() && (#[trigger] rest[m]).key == other;
    lemma_filter_member(entries, p, m);
    let j = choose|j: int| 0 <= j < entries.len() && entries[j] == rest[m];
    assert(j == i);
}

/// The table after some directions have missed a key, one after the other.
pub open spec fn after_misses<V>(
    entries: Seq<WaiterEntryView<V>>,
    key: V,
    from: Seq<Seq<char>>,
) -> Seq<WaiterEntryView<V>>
    decreases from.len(),
{
    if from.len() == 0 {
        entries
    } else {
        with_miss(after_misses(entries, key, from.drop_last()), key, from.last())
    }
}

proof fn lemma_after_misses<V>(entries: Seq<WaiterEntryView<V>>, key: V, from: Seq<Seq<char>>)
    requires
        keys_distinct(entries),
        in_flight(entries, key),
    ensures
        keys_distinct(after_misses(entries, key, from)),
        in_flight(after_misses(entries, key, from), key),
        entry_of(after_misses(entries, key, from), key).downstream == entry_of(
            entries,
            key,
        ).downstream,
        forall|peer: Seq<char>|
            #![trigger entry_of(after_misses(entries, key, from), key).upstream.contains(peer)]
            entry_of(after_misses(entries, key, from), key).upstream.contains(peer) <==> entry_of(
                entries,
                key,
            ).upstream.contains(peer) && !from.contains(peer),
    decreases from.len(),
{
    if from.len() > 0 {
        let shorter = from.drop_last();
        let last = from.last();
        lemma_after_misses(entries, key, shorter);
        let before = after_misses(entries, key, shorter);
        let after = after_misses(entries, key, from);
        let i = choose|i: int| 0 <= i < before.len() && (#[trigger] before[i]).key == key;
        lemma_entry_at(before, i);
        lemma_same_keys(before, after);
        assert(after[i].key == key);
        lemma_entry_at(after, i);
        let upstream = entry_of(before, key).upstream;
        let rest = entry_of(after, key).upstream;
        assert(rest == others(upstream, last));
        lemma_others(upstream, last);
        assert(from =~= shorter.push(last));
        assert forall|peer: Seq<char>| #![trigger rest.contains(peer)] rest.contains(peer)
            <==> entry_of(entries, key).upstream.contains(peer) && !from.contains(peer) by {
            assert(from.contains(peer) <==> shorter.contains(peer) || peer == last) by {
                if shorter.contains(peer) {
                    let m = shorter.index_of(peer);
                    assert(from[m] == peer);
                }
                if from.contains(peer) && peer != last {
                    let m = from.index_of(peer);
                    assert(shorter[m] == peer);
                }
                assert(from[from.len() - 1] == last);
            }
            assert(upstream.contains(peer) <==> entry_of(entries, key).upstream.contains(peer)
                && !shorter.contains(peer));
        }
    }
}

/// A miss is passed on exactly when the last direction that was asked has missed: not while one
/// of them may still answer.
pub proof fn law_misses_exhaust_a_key<V>(
    entries: Seq<WaiterEntryView<V>>,
    key: V,
    from: Seq<Seq<char>>,
    last: Seq<char>,
)
    requires
        keys_distinct(entries),
        in_flight(entries, key),
    ensures
        exhausts(after_misses(entries, key, from), key, last) <==> (forall|peer: Seq<char>|
            #[trigger] entry_of(entries, key).upstream.contains(peer) ==> from.contains(peer)
                || peer == last),
{
    lemma_after_misses(entries, key, from.push(last));
    lemma_after_misses(entries, key, from);
    assert(from.push(last).drop_last() =~= from);
    let before = after_misses(entries, key, from);
    let after = after_misses(entries, key, from.push(last));
    let i = choose|i: int| 0 <= i < before.len() && (#[trigger] before[i]).key == key;
    lemma_entry_at(before, i);
    assert(after == with_miss(before, key, last));
    assert(after[i].key == key);
    lemma_entry_at(after, i);
    let rest = entry_of(after, key).upstream;
    assert(rest == others(entry_of(before, key).upstream, last));
    let upstream = entry_of(entries, key).upstream;
    assert forall|peer: Seq<char>| from.push(last).contains(peer) <==> from.contains(peer) || peer
        == last by {
        if from.contains(peer) {
            let m = from.index_of(peer);
            assert(from.push(last)[m] == peer);
        }
        assert(from.push(last)[from.len() as int] == last);
    }
    if rest.len() == 0 {
        assert forall|peer: Seq<char>| #[trigger] upstream.contains(peer) implies from.contains(
            peer,
        ) || peer == last by {
            if !(from.contains(peer) || peer == last) {
                assert(rest.contains(peer));
            }
        }
    } else {
        let peer = rest[0];
        assert(rest.contains(peer));
        assert(upstream.contains(peer));
    }
}

/// After a link has dropped, nobody waits on it and nothing is expected from it.
pub proof fn law_dropped_link_is_forgotten<V>(
    entries: Seq<WaiterEntryView<V>>,
    link: Seq<char>,
    gone: Seq<u64>,
    k: int,
)
    requires
        0 <= k < surviving(entries, link, gone).len(),
    ensures
        is_alive(surviving(entries, link, gone)[k]),
        !surviving(entries, link, gone)[k].upstream.contains(link),
        !surviving(entries, link, gone)[k].downstream.contains(WaiterView::Peer(link)),
{
    let all = pruned_all(entries, link, gone);
    let p = |entry: WaiterEntryView<V>| is_alive(entry);
    lemma_filter_member(all, p, k);
    let entry = surviving(entries, link, gone)[k];
    let i = choose|i: int| 0 <= i < all.len() && all[i] == entry;
    assert(entry == pruned(entries[i], link, gone));
    let up = any_but(link);
    if entry.upstream.contains(link) {
        let m = entry.upstream.index_of(link);
        lemma_filter_member(entries[i].upstream, up, m);
        assert(up(entry.upstream[m]));
    }
    let down = |waiter: WaiterView| survives(waiter, link, gone);
    if entry.downstream.contains(WaiterView::Peer(link)) {
        let m = entry.downstream.index_of(WaiterView::Peer(link));
        lemma_filter_member(entries[i].downstream, down, m);
        assert(down(entry.downstream[m]));
    }
}

/// No waiter is lost when a link drops: one that is still there goes on waiting, or is told.
pub proof fn law_no_waiter_is_lost<V>(
    entries: Seq<WaiterEntryView<V>>,
    link: Seq<char>,
    gone: Seq<u64>,
    i: int,
    w: int,
)
    requires
        0 <= i < entries.len(),
        0 <= w < entries[i].downstream.len(),
        survives(entries[i].downstream[w], link, gone),
    ensures
        ({
            let waits_in = |entry: WaiterEntryView<V>|
                entry.key == entries[i].key && entry.downstream.contains(
                    entries[i].downstream[w],
                );
            (exists|k: int|
                0 <= k < surviving(entries, link, gone).len() && waits_in(
                    #[trigger] surviving(entries, link, gone)[k],
                )) || (exists|k: int|
                0 <= k < failing(entries, link, gone).len() && waits_in(
                    #[trigger] failing(entries, link, gone)[k],
                ))
        }),
{
    let waiter = entries[i].downstream[w];
    let waits_in = |entry: WaiterEntryView<V>|
        entry.key == entries[i].key && entry.downstream.contains(entries[i].downstream[w]);
    let all = pruned_all(entries, link, gone);
    let down = |waiter: WaiterView| survives(waiter, link, gone);
    lemma_filter_keeps(entries[i].downstream, down, w);
    let m = choose|m: int|
        0 <= m < entries[i].downstream.filter(down).len() && entries[i].downstream.filter(down)[m]
            == waiter;
    assert(all[i].downstream[m] == waiter);
    assert(waits_in(all[i]));
    let alive = |entry: WaiterEntryView<V>| is_alive(entry);
    let dead = |entry: WaiterEntryView<V>| !is_alive(entry);
    if is_alive(all[i]) {
        lemma_filter_keeps(all, alive, i);
        let k = choose|k: int| 0 <= k < all.filter(alive).len() && all.filter(alive)[k] == all[i];
        assert(waits_in(surviving(entries, link, gone)[k]));
    } else {
        lemma_filter_keeps(all, dead, i);
        let k = choose|k: int| 0 <= k < all.filter(dead).len() && all.filter(dead)[k] == all[i];
        assert(waits_in(failing(entries, link, gone)[k]));
    }
}

/// A request that goes on after a link dropped is one from before, with its deadline. Somebody waits
/// for it and somebody is waited for, and they all are still there.
pub proof fn law_only_those_still_there_wait_on<V>(
    entries: Seq<WaiterEntryView<V>>,
    link: Seq<char>,
    gone: Seq<u64>,
    k: int,
)
    requires
        0 <= k < surviving(entries, link, gone).len(),
    ensures
        ({
            let entry = surviving(entries, link, gone)[k];
            &&& entry.downstream.len() > 0 && entry.upstream.len() > 0
            &&& forall|w: int|
                0 <= w < entry.downstream.len() ==> (#[trigger] entry.downstream[w]
                    != WaiterView::Peer(link)) && (entry.downstream[w] is Local ==> !gone.contains(
                    entry.downstream[w]->Local_0,
                ))
            &&& forall|u: int| 0 <= u < entry.upstream.len() ==> #[trigger] entry.upstream[u] != link
            &&& exists|i: int|
                0 <= i < entries.len() && (#[trigger] entries[i]).key == entry.key
                    && entries[i].deadline == entry.deadline
        }),
{
    let all = pruned_all(entries, link, gone);
    let alive = |entry: WaiterEntryView<V>| is_alive(entry);
    lemma_filter_member(all, alive, k);
    let entry = surviving(entries, link, gone)[k];
    let i = choose|i: int| 0 <= i < all.len() && all[i] == entry;
    assert(entry == pruned(entries[i], link, gone));
    let down = |waiter: WaiterView| survives(waiter, link, gone);
    assert forall|w: int| 0 <= w < entry.downstream.len() implies (#[trigger] entry.downstream[w]
        != WaiterView::Peer(link)) && (entry.downstream[w] is Local ==> !gone.contains(
        entry.downstream[w]->Local_0,
    )) by {
        lemma_filter_member(entries[i].downstream, down, w);
        assert(down(entry.downstream[w]));
    }
    assert forall|u: int| 0 <= u < entry.upstream.len() implies #[trigger] entry.upstream[u]
        != link by {
        lemma_filter_member(entries[i].upstream, any_but(link), u);
        assert(any_but(link)(entry.upstream[u]));
    }
    assert(entries[i].key == entry.key);
}

/// A request that somebody still there waits for, and that somebody still there may answer, goes on
/// with both when a link drops, with the deadline it had; if nobody is left to answer it, it fails
/// and its waiter is told.
pub proof fn law_request_goes_on_between_those_still_there<V>(
    entries: Seq<WaiterEntryView<V>>,
    link: Seq<char>,
    gone: Seq<u64>,
    i: int,
    w: int,
    u: int,
)
    requires
        0 <= i < entries.len(),
        0 <= w < entries[i].downstream.len(),
        entries[i].downstream[w] != WaiterView::Peer(link),
        entries[i].downstream[w] is Local ==> !gone.contains(entries[i].downstream[w]->Local_0),
        0 <= u < entries[i].upstream.len(),
    ensures
        entries[i].upstream[u] != link ==> exists|k: int|
            0 <= k < surviving(entries, link, gone).len() && (#[trigger] surviving(
                entries,
                link,
                gone,
            )[k]).key == entries[i].key && surviving(entries, link, gone)[k].deadline
                == entries[i].deadline && surviving(entries, link, gone)[k].downstream.contains(
                entries[i].downstream[w],
            ) && surviving(entries, link, gone)[k].upstream.contains(entries[i].upstream[u]),
        (forall|v: int|
            0 <= v < entries[i].upstream.len() ==> #[trigger] entries[i].upstream[v] == link)
            ==> exists|k: int|
            0 <= k < failing(entries, link, gone).len() && (#[trigger] failing(
                entries,
                link,
                gone,
            )[k]).key == entries[i].key && failing(entries, link, gone)[k].downstream.contains(
                entries[i].downstream[w],
            ),
{
    let waiter = entries[i].downstream[w];
    let all = pruned_all(entries, link, gone);
    let down = |waiter: WaiterView| survives(waiter, link, gone);
    let alive = |entry: WaiterEntryView<V>| is_alive(entry);
    let dead = |entry: WaiterEntryView<V>| !is_alive(entry);
    assert(down(waiter));
    lemma_filter_keeps(entries[i].downstream, down, w);
    let m = choose|m: int|
        0 <= m < entries[i].downstream.filter(down).len() && entries[i].downstream.filter(down)[m]
            == waiter;
    assert(all[i] == pruned(entries[i], link, gone));
    assert(all[i].downstream[m] == waiter);
    if entries[i].upstream[u] != link {
        lemma_filter_keeps(entries[i].upstream, any_but(link), u);
        let t = choose|t: int|
            0 <= t < entries[i].upstream.filter(any_but(link)).len() && entries[i].upstream.filter(
                any_but(link),
            )[t] == entries[i].upstream[u];
        assert(all[i].upstream[t] == entries[i].upstream[u]);
        lemma_filter_keeps(all, alive, i);
        let k = choose|k: int| 0 <= k < all.filter(alive).len() && all.filter(alive)[k] == all[i];
        assert(surviving(entries, link, gone)[k] == all[i]);
    }
    if forall|v: int|
        0 <= v < entries[i].upstream.len() ==> #[trigger] entries[i].upstream[v] == link {
        lemma_filter_none(entries[i].upstream, any_but(link));
        lemma_filter_keeps(all, dead, i);
        let k = choose|k: int| 0 <= k < all.filter(dead).len() && all.filter(dead)[k] == all[i];
        assert(failing(entries, link, gone)[k] == all[i]);
    }
}

} // verus!
