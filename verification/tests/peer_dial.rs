use tagsyd::peer::dial::{
    answer_connection, dial_step, read_handshake, DialAction, DialEvent, DialState,
    HandshakeResult, InboundDecision,
};
use tagsyd::peer::handshake::{
    judge_handshake, HandshakeError, HandshakeMessage, Identity, IdentityError, Verdict,
    PROTOCOL_VERSION,
};

const ALICE_SEED: &str = "nWGxne/9WmC6hEr0kuwsxERJxWl7MmkZcDusAxyuf2A=";
const ALICE_KEY: &str = "11qYAYKxCrfVS/7TyWQHOg7hcvPapiMlrwIaaPcHURo=";

fn alice() -> Identity {
    Identity::from_text(ALICE_SEED).expect("a seed")
}

#[test]
fn known_seed_has_its_known_key() {
    assert_eq!(alice().public_key(), ALICE_KEY);
}

#[test]
fn identity_survives_being_written() {
    let identity = Identity::generate();
    let text = identity.to_text();
    let back = Identity::from_text(&format!("  {text}\n")).unwrap();
    assert_eq!(back.public_key(), identity.public_key());
    assert_eq!(back.to_text(), text);
    assert_eq!(alice().to_text(), ALICE_SEED);
}

#[test]
fn two_identities_differ() {
    assert_ne!(Identity::generate().to_text(), Identity::generate().to_text());
}

#[test]
fn malformed_identity_is_refused() {
    assert!(matches!(
        Identity::from_text("not base64!"),
        Err(IdentityError::NotBase64(_))
    ));
    assert!(matches!(
        Identity::from_text("AAAA"),
        Err(IdentityError::WrongLength { found: 3 })
    ));
    assert!(matches!(
        Identity::from_bytes(&vec![0; 33]),
        Err(IdentityError::WrongLength { found: 33 })
    ));
    assert!(Identity::from_bytes(&vec![0; 32]).is_ok());
}

#[test]
fn key_that_is_no_point_is_refused() {
    let bob = Identity::generate();
    let mut message = alice().sign_handshake(&bob.public_key()).unwrap();
    message.public_key = "AgAAAAAAAAAAAAAAAAAAAAAAAAAAAAAAAAAAAAAAAAA=".to_owned();
    assert!(matches!(
        bob.verify_handshake(&message),
        Err(HandshakeError::InvalidPublicKey(_))
    ));
}

#[test]
fn handshake_toward_no_key_cannot_be_signed() {
    assert!(matches!(
        alice().sign_handshake("???"),
        Err(HandshakeError::InvalidPublicKeyEncoding(_))
    ));
}

#[test]
fn verdicts_come_in_order() {
    let key = vec![1u8; 32];
    let signature = vec![2u8; 64];
    let short = vec![0u8; 5];
    let judge = judge_handshake;
    assert_eq!(judge(None, false, None, false, 9), Verdict::InvalidPublicKeyEncoding);
    assert_eq!(
        judge(Some(&key), true, Some(&signature), true, PROTOCOL_VERSION),
        Verdict::Accepted
    );
    assert_eq!(
        judge(Some(&key), true, Some(&signature), true, PROTOCOL_VERSION + 1),
        Verdict::IncompatibleProtocol { theirs: PROTOCOL_VERSION + 1 }
    );
    assert_eq!(
        judge(Some(&key), true, Some(&signature), false, PROTOCOL_VERSION + 1),
        Verdict::SignatureVerificationFailed
    );
    assert_eq!(
        judge(Some(&short), true, Some(&signature), true, PROTOCOL_VERSION),
        Verdict::WrongPublicKeyLength { found: 5 }
    );
    assert_eq!(
        judge(Some(&key), true, Some(&short), true, PROTOCOL_VERSION),
        Verdict::WrongSignatureLength { found: 5 }
    );
    assert_eq!(
        judge(Some(&key), true, None, true, PROTOCOL_VERSION),
        Verdict::InvalidSignatureEncoding
    );
    assert_eq!(
        judge(Some(&key), false, Some(&signature), true, PROTOCOL_VERSION),
        Verdict::InvalidPublicKey
    );
}

#[test]
fn only_known_peers_are_let_in() {
    let bob = Identity::generate();
    let message = || alice().sign_handshake(&bob.public_key()).ok();
    let known = vec![ALICE_KEY.to_owned()];
    assert!(matches!(
        read_handshake(message(), &known, &bob),
        HandshakeResult::Accepted(key) if key == ALICE_KEY
    ));
    assert!(matches!(
        read_handshake(message(), &Vec::new(), &bob),
        HandshakeResult::Rejected
    ));
    assert!(matches!(
        read_handshake(None, &known, &bob),
        HandshakeResult::Rejected
    ));

    match answer_connection(message(), &known, &bob) {
        InboundDecision::Answer {
            peer_public_key,
            response,
        } => {
            assert_eq!(peer_public_key, ALICE_KEY);
            assert_eq!(alice().verify_handshake(&response).unwrap(), bob.public_key());
        }
        other => panic!("expected an answer, got {other:?}"),
    }
    assert!(matches!(
        answer_connection(None, &known, &bob),
        InboundDecision::Close
    ));
}

#[test]
fn dialling_runs_a_session_with_the_expected_peer() {
    let bob = Identity::generate();
    let bob_key = bob.public_key();
    let me = alice();
    let (state, action) = dial_step(&me, &bob_key, DialState::Connecting, DialEvent::Connected);
    assert_eq!(state, DialState::SendingHandshake);
    let sent = match action {
        DialAction::SendHandshake(message) => message,
        other => panic!("expected a handshake, got {other:?}"),
    };
    assert_eq!(bob.verify_handshake(&sent).unwrap(), ALICE_KEY);
    let (state, action) = dial_step(&me, &bob_key, state, DialEvent::HandshakeSent);
    assert_eq!(state, DialState::AwaitingResponse);
    assert!(matches!(action, DialAction::ReadResponse));
    let response = bob.sign_handshake(ALICE_KEY).unwrap();
    let (state, action) = dial_step(&me, &bob_key, state, DialEvent::Response(response));
    assert_eq!(state, DialState::InSession);
    assert!(matches!(action, DialAction::RunSession));
    let (state, action) = dial_step(&me, &bob_key, state, DialEvent::SessionEnded);
    assert_eq!(state, DialState::Waiting);
    assert!(matches!(action, DialAction::Wait));
    let (state, action) = dial_step(&me, &bob_key, state, DialEvent::Waited);
    assert_eq!(state, DialState::Connecting);
    assert!(matches!(action, DialAction::Connect));
}

#[test]
fn another_peer_is_not_talked_to() {
    let bob = Identity::generate();
    let carol = Identity::generate();
    let (state, _) = dial_step(
        &alice(),
        &bob.public_key(),
        DialState::AwaitingResponse,
        DialEvent::Response(carol.sign_handshake(ALICE_KEY).unwrap()),
    );
    assert_eq!(state, DialState::Waiting);
    let mut outdated = bob.sign_handshake(ALICE_KEY).unwrap();
    outdated.protocol_version = PROTOCOL_VERSION + 1;
    let (state, _) = dial_step(
        &alice(),
        &bob.public_key(),
        DialState::AwaitingResponse,
        DialEvent::Response(outdated),
    );
    assert_eq!(state, DialState::Waiting);
}

#[test]
fn only_shutdown_stops_dialling() {
    let key = Identity::generate().public_key();
    let states = [
        DialState::Connecting,
        DialState::SendingHandshake,
        DialState::AwaitingResponse,
        DialState::InSession,
        DialState::Waiting,
    ];
    for state in states {
        let (after, _) = dial_step(&alice(), &key, state, DialEvent::Failed);
        assert_ne!(after, DialState::Stopped);
        let (after, action) = dial_step(&alice(), &key, state, DialEvent::Shutdown);
        assert_eq!(after, DialState::Stopped);
        assert!(matches!(action, DialAction::Stop));
    }
    let (after, _) = dial_step(&alice(), &key, DialState::Stopped, DialEvent::Waited);
    assert_eq!(after, DialState::Stopped);
    let message = HandshakeMessage::new("k".to_owned(), "s".to_owned());
    assert_eq!(message.protocol_version, PROTOCOL_VERSION);
}
