//! Establishing a peer link: what is made of the handshake of a peer that dials in, and how a
//! peer is dialled again and again.

use vstd::prelude::*;

use crate::peer::handshake::{
    base64_bytes, base64_text, ed25519_public_key, ed25519_signature, verdict_on,
    HandshakeMessage, HandshakeView, Identity, PROTOCOL_VERSION,
};
use crate::peer::relay::text_views;

verus! {

/// How long, in milliseconds, to wait before a peer is dialled again.
pub const RETRY_INTERVAL: u64 = 5000;

/// What is made of the handshake of a peer that dials in.
#[derive(Debug)]
pub enum HandshakeResult {
    /// The peer is who it says, by its public key.
    Accepted(String),
    Rejected,
}

/// The handshake is from one of the known peers and is accepted.
pub open spec fn admits(
    known: Seq<Seq<char>>,
    our_public_key: Seq<u8>,
    message: HandshakeView,
) -> bool {
    known.contains(message.public_key) && verdict_on(our_public_key, message) is Accepted
}

/// Whether a text is among some.
fn lists_text(texts: &Vec<String>, text: &String) -> (r: bool)
    ensures
        r == text_views(texts@).contains(text@),
{
    let mut i: usize = 0;
    while i < texts.len()
        invariant
            i <= texts.len(),
            forall|j: int| 0 <= j < i ==> text_views(texts@)[j] != text@,
        decreases texts.len() - i,
    {
        if texts[i] == *text {
            assert(text_views(texts@)[i as int] == text@);
            return true;
        }
        i = i + 1;
    }
    false
}

/// Decides on the handshake of a peer that dials in: its public key has to be configured here,
/// and its signature has to prove it. `message` is `None` where no handshake could be read.
pub fn read_handshake(
    message: Option<HandshakeMessage>,
    known: &Vec<String>,
    identity: &Identity,
) -> (r: HandshakeResult)
    ensures
        match (message, r) {
            (Some(message), HandshakeResult::Accepted(public_key)) => admits(
                text_views(known@),
                ed25519_public_key(identity@),
                message@,
            ) && public_key@ == message@.public_key,
            (Some(message), HandshakeResult::Rejected) => !admits(
                text_views(known@),
                ed25519_public_key(identity@),
                message@,
            ),
            (None, HandshakeResult::Rejected) => true,
            (None, HandshakeResult::Accepted(_)) => false,
        },
{
    let message = match message {
        Some(message) => message,
        None => return HandshakeResult::Rejected,
    };
    if !lists_text(known, &message.public_key) {
        return HandshakeResult::Rejected;
    }
    match identity.verify_handshake(&message) {
        Ok(public_key) => HandshakeResult::Accepted(public_key),
        Err(_) => HandshakeResult::Rejected,
    }
}

/// What to do with a connection that came in.
#[derive(Debug)]
pub enum InboundDecision {
    /// Close it.
    Close,
    /// Send the answer, then run a session with this peer.
    Answer { peer_public_key: String, response: HandshakeMessage },
}

/// The handshake that this device sends to the holder of a public key.
pub open spec fn is_handshake_for(
    message: HandshakeView,
    seed: Seq<u8>,
    peer_public_key: Seq<char>,
) -> bool {
    &&& base64_bytes(peer_public_key) matches Some(key) && message.signature == base64_text(
        ed25519_signature(seed, key),
    ) && verdict_on(key, message) is Accepted
    &&& message.public_key == base64_text(ed25519_public_key(seed))
    &&& message.protocol_version == PROTOCOL_VERSION
}

/// Decides on a connection that came in, by the handshake it opened with: a known peer that
/// proves itself is answered in kind.
pub fn answer_connection(
    message: Option<HandshakeMessage>,
    known: &Vec<String>,
    identity: &Identity,
) -> (r: InboundDecision)
    ensures
        match r {
            InboundDecision::Answer { peer_public_key, response } => message matches Some(message)
                && admits(text_views(known@), ed25519_public_key(identity@), message@)
                && peer_public_key@ == message@.public_key && is_handshake_for(
                response@,
                identity@,
                message@.public_key,
            ),
            InboundDecision::Close => message matches Some(message) ==> !admits(
                text_views(known@),
                ed25519_public_key(identity@),
                message@,
            ),
        },
{
    match read_handshake(message, known, identity) {
        HandshakeResult::Accepted(peer_public_key) => {
            match identity.sign_handshake(peer_public_key.as_str()) {
                Ok(response) => InboundDecision::Answer { peer_public_key, response },
                Err(_) => InboundDecision::Close,
            }
        },
        HandshakeResult::Rejected => InboundDecision::Close,
    }
}

/// Where the dialling of a peer stands.
#[derive(Debug, Clone, Copy, PartialEq, Eq, Structural)]
pub enum DialState {
    Connecting,
    SendingHandshake,
    AwaitingResponse,
    InSession,
    Waiting,
    Stopped,
}

/// What happens while a peer is dialled.
#[derive(Debug)]
pub enum DialEvent {
    /// The connection stands.
    Connected,
    /// The handshake went out.
    HandshakeSent,
    /// The peer answered with a handshake.
    Response(HandshakeMessage),
    /// The step under way failed: no connection, a failed send or read, or an answer that is no
    /// handshake.
    Failed,
    /// The session is over.
    SessionEnded,
    /// The retry interval has passed.
    Waited,
    /// The device shuts down.
    Shutdown,
}

/// What to do next about a peer.
#[derive(Debug)]
pub enum DialAction {
    Connect,
    SendHandshake(HandshakeMessage),
    ReadResponse,
    RunSession,
    /// Wait for the retry interval.
    Wait,
    /// Nothing: the event does not belong to the state.
    Nothing,
    Stop,
}

/// The peer answered with the handshake expected of it: it announces the public key that it is
/// configured with, and proves it.
pub open spec fn is_expected(
    our_public_key: Seq<u8>,
    peer_public_key: Seq<char>,
    response: HandshakeView,
) -> bool {
    response.public_key == peer_public_key && verdict_on(our_public_key, response) is Accepted
}

/// Where the dialling of a peer goes from `state` on an event. Whatever fails on the way, the
/// peer is dialled again after a wait, and so it is once a session is over.
pub open spec fn dial_state_after(
    seed: Seq<u8>,
    peer_public_key: Seq<char>,
    state: DialState,
    event: DialEvent,
) -> DialState {
    match (state, event) {
        (DialState::Stopped, _) => DialState::Stopped,
        (_, DialEvent::Shutdown) => DialState::Stopped,
        (DialState::Connecting, DialEvent::Connected) => if base64_bytes(
            peer_public_key,
        ) is Some {
            DialState::SendingHandshake
        } else {
            DialState::Waiting
        },
        (DialState::SendingHandshake, DialEvent::HandshakeSent) => DialState::AwaitingResponse,
        (DialState::AwaitingResponse, DialEvent::Response(response)) => if is_expected(
            ed25519_public_key(seed),
            peer_public_key,
            response@,
        ) {
            DialState::InSession
        } else {
            DialState::Waiting
        },
        (DialState::InSession, DialEvent::SessionEnded) => DialState::Waiting,
        (DialState::Waiting, DialEvent::Waited) => DialState::Connecting,
        (
            DialState::Connecting | DialState::SendingHandshake | DialState::AwaitingResponse,
            DialEvent::Failed,
        ) => DialState::Waiting,
        _ => state,
    }
}

/// The action that entering a state asks for; none where the event left the state as it was.
pub open spec fn is_action_for(
    action: DialAction,
    seed: Seq<u8>,
    peer_public_key: Seq<char>,
    before: DialState,
    after: DialState,
) -> bool {
    if after == DialState::Stopped {
        action is Stop
    } else if after == before {
        action is Nothing
    } else {
        match after {
            DialState::Connecting => action is Connect,
            DialState::SendingHandshake => action matches DialAction::SendHandshake(message)
                && is_handshake_for(message@, seed, peer_public_key),
            DialState::AwaitingResponse => action is ReadResponse,
            DialState::InSession => action is RunSession,
            DialState::Waiting => action is Wait,
            DialState::Stopped => false,
        }
    }
}

/// Takes the dialling of a peer one step further.
pub fn dial_step(
    identity: &Identity,
    peer_public_key: &String,
    state: DialState,
    event: DialEvent,
) -> (r: (DialState, DialAction))
    ensures
        r.0 == dial_state_after(identity@, peer_public_key@, state, event),
        is_action_for(r.1, identity@, peer_public_key@, state, r.0),
{
    if state == DialState::Stopped {
        return (DialState::Stopped, DialAction::Stop);
    }
    match event {
        DialEvent::Shutdown => (DialState::Stopped, DialAction::Stop),
        DialEvent::Connected => {
            if state == DialState::Connecting {
                match identity.sign_handshake(peer_public_key.as_str()) {
                    Ok(message) => (
                        DialState::SendingHandshake,
                        DialAction::SendHandshake(message),
                    ),
                    Err(_) => (DialState::Waiting, DialAction::Wait),
                }
            } else {
                (state, DialAction::Nothing)
            }
        },
        DialEvent::HandshakeSent => {
            if state == DialState::SendingHandshake {
                (DialState::AwaitingResponse, DialAction::ReadResponse)
            } else {
                (state, DialAction::Nothing)
            }
        },
        DialEvent::Response(response) => {
            if state == DialState::AwaitingResponse {
                if response.public_key == *peer_public_key && identity.verify_handshake(
                    &response,
                ).is_ok() {
                    (DialState::InSession, DialAction::RunSession)
                } else {
                    (DialState::Waiting, DialAction::Wait)
                }
            } else {
                (state, DialAction::Nothing)
            }
        },
        DialEvent::Failed => {
            if state == DialState::Connecting || state == DialState::SendingHandshake || state
                == DialState::AwaitingResponse {
                (DialState::Waiting, DialAction::Wait)
            } else {
                (state, DialAction::Nothing)
            }
        },
        DialEvent::SessionEnded => {
            if state == DialState::InSession {
                (DialState::Waiting, DialAction::Wait)
            } else {
                (state, DialAction::Nothing)
            }
        },
        DialEvent::Waited => {
            if state == DialState::Waiting {
                (DialState::Connecting, DialAction::Connect)
            } else {
                (state, DialAction::Nothing)
            }
        },
    }
}

/// A session is run only with a peer that proved the public key it is configured with.
pub proof fn law_session_only_with_the_expected_peer(
    seed: Seq<u8>,
    peer_public_key: Seq<char>,
    state: DialState,
    event: DialEvent,
)
    requires
        state != DialState::InSession,
        dial_state_after(seed, peer_public_key, state, event) == DialState::InSession,
    ensures
        event matches DialEvent::Response(response) && is_expected(
            ed25519_public_key(seed),
            peer_public_key,
            response@,
        ),
{
}

/// Dialling stops at shutdown and for no other reason.
pub proof fn law_dialling_stops_only_at_shutdown(
    seed: Seq<u8>,
    peer_public_key: Seq<char>,
    state: DialState,
    event: DialEvent,
)
    requires
        state != DialState::Stopped,
    ensures
        dial_state_after(seed, peer_public_key, state, event) == DialState::Stopped <==> event
            is Shutdown,
{
}

} // verus!
