//! What holds of a connection from its first word to its last: who is let in, how dialling goes on,
//! what a session opens with, when a link is pinged, and which pulls run.

use vstd::prelude::*;

use crate::peer::batch::{batched, clamped};
use crate::peer::dial::{
    admits, dial_state_after, is_action_for, is_expected, is_handshake_for, DialAction, DialEvent,
    DialState,
};
use crate::peer::handshake::{
    base64_bytes, base64_text, ed25519_public_key, ed25519_signature, ed25519_verifies,
    is_ed25519_key, verdict_on, HandshakeMessage, HandshakeView, Verdict,
};
use crate::peer::messages::{CommandView, FrameView, SyncView};
use crate::peer::plan_tags::definition_entry;
use crate::peer::pull_scheduler::{PullKeyView, SchedulerView};
use crate::peer::session::{
    definitions_action, files_action, opening, relationships_action, tick_actions, ActionView,
};
use crate::state::TagManifestEntry;
use crate::store::types::{CatalogView, TagRowView};

verus! {

/// A handshake is accepted exactly if the key it announces is a key, its signature is one of that
/// key over ours, and its version is 1. Where it is not, the first thing that is wrong is named:
/// with the key, then with the signature, then with the version.
pub proof fn law_handshake_is_judged_by_key_signature_and_version(
    our_public_key: Seq<u8>,
    message: HandshakeView,
)
    ensures
        ({
            let verdict = verdict_on(our_public_key, message);
            let key = base64_bytes(message.public_key);
            let signature = base64_bytes(message.signature);
            let good_key = key is Some && key->Some_0.len() == 32 && is_ed25519_key(key->Some_0);
            let good_signature = signature is Some && signature->Some_0.len() == 64
                && ed25519_verifies(key->Some_0, our_public_key, signature->Some_0);
            &&& verdict is Accepted <==> good_key && good_signature && message.protocol_version == 1
            &&& key is None <==> verdict is InvalidPublicKeyEncoding
            &&& key is Some && key->Some_0.len() != 32 <==> verdict is WrongPublicKeyLength
            &&& key is Some && key->Some_0.len() == 32 && !is_ed25519_key(key->Some_0)
                <==> verdict is InvalidPublicKey
            &&& good_key && signature is None <==> verdict is InvalidSignatureEncoding
            &&& good_key && signature is Some && signature->Some_0.len() != 64
                <==> verdict is WrongSignatureLength
            &&& good_key && signature is Some && signature->Some_0.len() == 64 && !good_signature
                <==> verdict is SignatureVerificationFailed
            &&& good_key && good_signature && message.protocol_version != 1
                <==> verdict is IncompatibleProtocol
            &&& verdict is IncompatibleProtocol ==> verdict == (Verdict::IncompatibleProtocol {
                theirs: message.protocol_version,
            })
        }),
{
}

/// A peer that connects is let in exactly if its key is among those that are known and its handshake
/// is accepted; one that is dialled, if it answers with the key it was dialled by and its handshake
/// is accepted.
pub proof fn law_only_a_known_peer_is_let_in(
    known: Seq<Seq<char>>,
    our_public_key: Seq<u8>,
    dialled: Seq<char>,
    message: HandshakeView,
)
    ensures
        admits(known, our_public_key, message) <==> (exists|k: int|
            0 <= k < known.len() && #[trigger] known[k] == message.public_key) && verdict_on(
            our_public_key,
            message,
        ) is Accepted,
        is_expected(our_public_key, dialled, message) <==> message.public_key == dialled
            && verdict_on(our_public_key, message) is Accepted,
{
}

/// A handshake for a peer announces our key, is signed by it over the peer's key, and is one that
/// the peer accepts.
pub proof fn law_handshake_for_a_peer_is_accepted_there(
    message: HandshakeView,
    seed: Seq<u8>,
    peer_public_key: Seq<char>,
)
    requires
        is_handshake_for(message, seed, peer_public_key),
    ensures
        base64_bytes(peer_public_key) is Some,
        verdict_on(base64_bytes(peer_public_key)->Some_0, message) is Accepted,
        message.public_key == base64_text(ed25519_public_key(seed)),
        message.signature == base64_text(
            ed25519_signature(seed, base64_bytes(peer_public_key)->Some_0),
        ),
        message.protocol_version == 1,
{
}

/// A dial that goes well leads to a session: once connected a handshake for the peer is sent, once
/// that is sent the answer is read, and with an answer that is expected the session is run.
pub proof fn law_good_dial_leads_to_a_session(
    seed: Seq<u8>,
    peer_public_key: Seq<char>,
    response: HandshakeMessage,
    first: DialAction,
    second: DialAction,
    third: DialAction,
)
    requires
        base64_bytes(peer_public_key) is Some,
        response@.public_key == peer_public_key,
        verdict_on(ed25519_public_key(seed), response@) is Accepted,
        is_action_for(
            first,
            seed,
            peer_public_key,
            DialState::Connecting,
            dial_state_after(seed, peer_public_key, DialState::Connecting, DialEvent::Connected),
        ),
        is_action_for(
            second,
            seed,
            peer_public_key,
            DialState::SendingHandshake,
            dial_state_after(
                seed,
                peer_public_key,
                DialState::SendingHandshake,
                DialEvent::HandshakeSent,
            ),
        ),
        is_action_for(
            third,
            seed,
            peer_public_key,
            DialState::AwaitingResponse,
            dial_state_after(
                seed,
                peer_public_key,
                DialState::AwaitingResponse,
                DialEvent::Response(response),
            ),
        ),
    ensures
        dial_state_after(seed, peer_public_key, DialState::Connecting, DialEvent::Connected)
            == DialState::SendingHandshake,
        first matches DialAction::SendHandshake(message) && is_handshake_for(
            message@,
            seed,
            peer_public_key,
        ),
        dial_state_after(
            seed,
            peer_public_key,
            DialState::SendingHandshake,
            DialEvent::HandshakeSent,
        ) == DialState::AwaitingResponse,
        second is ReadResponse,
        dial_state_after(
            seed,
            peer_public_key,
            DialState::AwaitingResponse,
            DialEvent::Response(response),
        ) == DialState::InSession,
        third is RunSession,
{
}

/// Dialling goes on: whatever step fails, when an answer is not the expected one, and when a session
/// ends, the peer is waited for, and then connected to again.
pub proof fn law_dialling_goes_on(
    seed: Seq<u8>,
    peer_public_key: Seq<char>,
    state: DialState,
    response: HandshakeMessage,
    action: DialAction,
)
    requires
        is_action_for(
            action,
            seed,
            peer_public_key,
            DialState::Waiting,
            dial_state_after(seed, peer_public_key, DialState::Waiting, DialEvent::Waited),
        ),
    ensures
        state == DialState::Connecting || state == DialState::SendingHandshake || state
            == DialState::AwaitingResponse ==> dial_state_after(
            seed,
            peer_public_key,
            state,
            DialEvent::Failed,
        ) == DialState::Waiting,
        !is_expected(ed25519_public_key(seed), peer_public_key, response@) ==> dial_state_after(
            seed,
            peer_public_key,
            DialState::AwaitingResponse,
            DialEvent::Response(response),
        ) == DialState::Waiting,
        base64_bytes(peer_public_key) is None ==> dial_state_after(
            seed,
            peer_public_key,
            DialState::Connecting,
            DialEvent::Connected,
        ) == DialState::Waiting,
        dial_state_after(seed, peer_public_key, DialState::InSession, DialEvent::SessionEnded)
            == DialState::Waiting,
        dial_state_after(seed, peer_public_key, DialState::Waiting, DialEvent::Waited)
            == DialState::Connecting,
        action is Connect,
{
}

/// What is done follows from where a dial has got to: a step that leads on does the work of the new
/// state, and one that does not lead on does nothing.
pub proof fn law_dial_acts_on_a_new_state_only(
    action: DialAction,
    seed: Seq<u8>,
    peer_public_key: Seq<char>,
    before: DialState,
    after: DialState,
)
    requires
        is_action_for(action, seed, peer_public_key, before, after),
    ensures
        after == DialState::Stopped ==> action is Stop,
        after == before && after != DialState::Stopped ==> action is Nothing,
        after != before && after == DialState::Waiting ==> action is Wait,
        after != before && after == DialState::Connecting ==> action is Connect,
        after != before && after == DialState::InSession ==> action is RunSession,
{
}

/// A dial that is stopped stays so, and an event that does not belong to a state changes nothing.
pub proof fn law_stray_events_change_nothing(
    seed: Seq<u8>,
    peer_public_key: Seq<char>,
    event: DialEvent,
)
    ensures
        dial_state_after(seed, peer_public_key, DialState::Stopped, event) == DialState::Stopped,
        !(event is SessionEnded) && !(event is Shutdown) ==> dial_state_after(
            seed,
            peer_public_key,
            DialState::InSession,
            event,
        ) == DialState::InSession,
        !(event is Waited) && !(event is Shutdown) ==> dial_state_after(
            seed,
            peer_public_key,
            DialState::Waiting,
            event,
        ) == DialState::Waiting,
        !(event is Connected) && !(event is Failed) && !(event is Shutdown) ==> dial_state_after(
            seed,
            peer_public_key,
            DialState::Connecting,
            event,
        ) == DialState::Connecting,
{
}

/// A link is pinged exactly if it carried nothing of ours for fifteen seconds, is not given up and
/// does not answer a ping just now; it is given up after forty-five seconds of silence.
pub proof fn law_idle_link_is_pinged(
    now: u64,
    last_activity: u64,
    last_write: u64,
    pong_requested: bool,
)
    ensures
        ({
            let actions = tick_actions(now, last_activity, last_write, pong_requested);
            &&& actions.close <==> now >= last_activity + 45000
            &&& actions.ping <==> now >= last_write + 15000 && !actions.close && !pong_requested
            &&& actions.pong == pong_requested
        }),
{
}

/// A batch size is taken as it is, but for 0, which counts as 1.
pub proof fn law_batch_size_is_taken_as_it_is(batch_size: usize)
    ensures
        clamped(batch_size) >= 1,
        batch_size >= 1 ==> clamped(batch_size) == batch_size,
        batch_size == 0 ==> clamped(batch_size) == 1,
{
}

/// Every item is in a batch.
proof fn lemma_in_a_batch<T>(items: Seq<T>, size: nat, i: int) -> (place: (int, int))
    requires
        size > 0,
        0 <= i < items.len(),
    ensures
        0 <= place.0 < batched(items, size).len(),
        0 <= place.1 < batched(items, size)[place.0].len(),
        batched(items, size)[place.0][place.1] == items[i],
    decreases items.len(),
{
    if items.len() <= size {
        (0, i)
    } else if i < size {
        let head = items.take(size as int);
        assert(batched(items, size)[0] == head);
        (0, i)
    } else {
        let tail = items.skip(size as int);
        let place = lemma_in_a_batch(tail, size, i - size);
        assert(batched(items, size)[place.0 + 1] == batched(tail, size)[place.0]);
        (place.0 + 1, place.1)
    }
}

/// A session announces each tag that the catalog has a row of, with its clock and whether it is
/// tombstoned.
pub proof fn law_every_tag_is_announced(
    catalog: CatalogView,
    tag_batch_size: nat,
    batch_size: nat,
    i: int,
) -> (n: int)
    requires
        tag_batch_size > 0,
        0 <= i < catalog.tags.len(),
    ensures
        0 <= n < opening(catalog, tag_batch_size, batch_size).len(),
        opening(catalog, tag_batch_size, batch_size)[n] matches ActionView::Send(
            FrameView::Sync(SyncView::TagManifest { definitions, .. }),
        ) && definitions.contains(
            TagManifestEntry {
                tag_id: catalog.tags[i].id,
                modified_at: catalog.tags[i].modified_at,
                deleted: catalog.tags[i].deleted,
            },
        ),
{
    let items = catalog.tags.map_values(|row: TagRowView| definition_entry(row));
    let place = lemma_in_a_batch(items, tag_batch_size, i);
    let batch = batched(items, tag_batch_size)[place.0];
    assert(batch[place.1] == definition_entry(catalog.tags[i]));
    assert(opening(catalog, tag_batch_size, batch_size)[place.0] == definitions_action()(batch));
    place.0
}

/// A session announces each relationship that the catalog has a row of, as the row has it.
pub proof fn law_every_relationship_is_announced(
    catalog: CatalogView,
    tag_batch_size: nat,
    batch_size: nat,
    e: int,
) -> (n: int)
    requires
        tag_batch_size > 0,
        0 <= e < catalog.entries.len(),
    ensures
        0 <= n < opening(catalog, tag_batch_size, batch_size).len(),
        opening(catalog, tag_batch_size, batch_size)[n] matches ActionView::Send(
            FrameView::Sync(SyncView::TagManifest { relationships, .. }),
        ) && relationships.contains(catalog.entries[e]),
{
    let definitions = batched(
        catalog.tags.map_values(|row: TagRowView| definition_entry(row)),
        tag_batch_size,
    );
    let place = lemma_in_a_batch(catalog.entries, tag_batch_size, e);
    let batch = batched(catalog.entries, tag_batch_size)[place.0];
    assert(batch[place.1] == catalog.entries[e]);
    let n = definitions.len() + place.0;
    assert(opening(catalog, tag_batch_size, batch_size)[n] == relationships_action()(batch));
    n
}

/// A session announces each entry of the file manifest, and ends its opening by looking for content
/// that is missing.
pub proof fn law_every_file_is_announced(
    catalog: CatalogView,
    tag_batch_size: nat,
    batch_size: nat,
    k: int,
) -> (n: int)
    requires
        batch_size > 0,
        tag_batch_size > 0,
        0 <= k < catalog.manifest().len(),
    ensures
        0 <= n < opening(catalog, tag_batch_size, batch_size).len(),
        opening(catalog, tag_batch_size, batch_size)[n] matches ActionView::Send(
            FrameView::Sync(SyncView::Manifest { entries }),
        ) && entries.contains(catalog.manifest()[k]),
        opening(catalog, tag_batch_size, batch_size).last() == ActionView::Command(
            CommandView::SweepMissingContent,
        ),
{
    let definitions = batched(
        catalog.tags.map_values(|row: TagRowView| definition_entry(row)),
        tag_batch_size,
    );
    let relationships = batched(catalog.entries, tag_batch_size);
    let place = lemma_in_a_batch(catalog.manifest(), batch_size, k);
    let batch = batched(catalog.manifest(), batch_size)[place.0];
    assert(batch[place.1] == catalog.manifest()[k]);
    let n = definitions.len() + relationships.len() + place.0;
    assert(opening(catalog, tag_batch_size, batch_size)[n] == files_action()(batch));
    n
}

/// A pull of some content of some file is dropped exactly if a pull of just that content of that
/// file runs or waits; else it starts if a slot is free and waits if none is. What is in flight goes
/// on as it was.
pub proof fn law_pull_is_dropped_only_if_it_is_in_flight(
    scheduler: SchedulerView,
    pull: PullKeyView,
)
    ensures
        ({
            let known = (exists|k: int|
                0 <= k < scheduler.running.len() && #[trigger] scheduler.running[k] == pull) || (
            exists|k: int|
                0 <= k < scheduler.queued.len() && #[trigger] scheduler.queued[k] == pull);
            let after = scheduler.submitted(pull);
            &&& scheduler.admission(pull) is Dropped <==> known
            &&& scheduler.admission(pull) is Started <==> !known && scheduler.running.len()
                < scheduler.capacity
            &&& known ==> after == scheduler
            &&& !known && scheduler.running.len() < scheduler.capacity ==> after.running
                == scheduler.running.push(pull) && after.queued == scheduler.queued
            &&& !known && scheduler.running.len() >= scheduler.capacity ==> after.queued
                == scheduler.queued.push(pull) && after.running == scheduler.running
            &&& after.capacity == scheduler.capacity
        }),
{
    assert(scheduler.running.contains(pull) == exists|k: int|
        0 <= k < scheduler.running.len() && #[trigger] scheduler.running[k] == pull);
    assert(scheduler.queued.contains(pull) == exists|k: int|
        0 <= k < scheduler.queued.len() && #[trigger] scheduler.queued[k] == pull);
}

/// When a pull that runs ends, it runs no more, every other pull that ran goes on, and the first that
/// waited runs; the others go on waiting.
pub proof fn law_ended_pull_makes_room(
    scheduler: SchedulerView,
    pull: PullKeyView,
    other: PullKeyView,
)
    requires
        scheduler.wf(),
        scheduler.running.contains(pull),
    ensures
        ({
            let after = scheduler.completed(pull);
            &&& !after.running.contains(pull)
            &&& other != pull && scheduler.running.contains(other) ==> after.running.contains(other)
            &&& scheduler.queued.len() > 0 ==> after.running.contains(scheduler.queued[0])
                && after.queued == scheduler.queued.skip(1)
            &&& scheduler.queued.len() == 0 ==> after.queued.len() == 0 && after.running.len()
                == scheduler.running.len() - 1
            &&& after.capacity == scheduler.capacity
        }),
{
    let i = scheduler.running.index_of(pull);
    let rest = scheduler.running.remove(i);
    let after = scheduler.completed(pull);
    assert(!rest.contains(pull)) by {
        if rest.contains(pull) {
            let k = rest.index_of(pull);
            if k < i {
                assert(scheduler.running[k] == pull);
            } else {
                assert(scheduler.running[k + 1] == pull);
            }
        }
    }
    if other != pull && scheduler.running.contains(other) {
        let k = scheduler.running.index_of(other);
        if k < i {
            assert(rest[k] == other);
            assert(after.running[k] == other);
        } else {
            assert(rest[k - 1] == other);
            assert(after.running[k - 1] == other);
        }
    }
    if scheduler.queued.len() > 0 {
        assert(after.running[rest.len() as int] == scheduler.queued[0]);
        assert(scheduler.queued.contains(scheduler.queued[0]));
        if after.running.contains(pull) {
            let k = after.running.index_of(pull);
            if k < rest.len() {
                assert(rest[k] == pull);
            } else {
                assert(scheduler.queued[0] == pull);
            }
        }
    }
}

} // verus!
