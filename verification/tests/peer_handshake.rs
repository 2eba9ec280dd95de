use base64::engine::general_purpose::STANDARD as BASE64;
use base64::Engine;
use tagsyd::peer::handshake::{HandshakeError, Identity, PROTOCOL_VERSION};

#[test]
fn sign_verify_round_trip() {
    let alice = Identity::generate();
    let bob = Identity::generate();

    let message = alice.sign_handshake(&bob.public_key()).unwrap();
    assert_eq!(message.public_key, alice.public_key());

    let verified = bob.verify_handshake(&message).unwrap();
    assert_eq!(verified, alice.public_key());
}

#[test]
fn wrong_peer_key_rejected() {
    let alice = Identity::generate();
    let bob = Identity::generate();
    let carol = Identity::generate();

    let message = alice.sign_handshake(&carol.public_key()).unwrap();
    assert!(matches!(
        bob.verify_handshake(&message),
        Err(HandshakeError::SignatureVerificationFailed)
    ));
}

#[test]
fn malformed_public_key_base64_rejected() {
    let alice = Identity::generate();
    let bob = Identity::generate();

    let mut message = alice.sign_handshake(&bob.public_key()).unwrap();
    message.public_key = "not valid base64!!!".to_owned();
    assert!(matches!(
        bob.verify_handshake(&message),
        Err(HandshakeError::InvalidPublicKeyEncoding(_))
    ));
}

#[test]
fn malformed_signature_base64_rejected() {
    let alice = Identity::generate();
    let bob = Identity::generate();

    let mut message = alice.sign_handshake(&bob.public_key()).unwrap();
    message.signature = "@@@not base64@@@".to_owned();
    assert!(matches!(
        bob.verify_handshake(&message),
        Err(HandshakeError::InvalidSignatureEncoding(_))
    ));
}

#[test]
fn wrong_public_key_length_rejected() {
    let alice = Identity::generate();
    let bob = Identity::generate();

    let mut message = alice.sign_handshake(&bob.public_key()).unwrap();
    message.public_key = BASE64.encode([0u8; 16]);
    match bob.verify_handshake(&message) {
        Err(HandshakeError::WrongPublicKeyLength { expected, found }) => {
            assert_eq!(expected, 32);
            assert_eq!(found, 16);
        }
        other => panic!("expected WrongPublicKeyLength, got {other:?}"),
    }
}

#[test]
fn wrong_signature_length_rejected() {
    let alice = Identity::generate();
    let bob = Identity::generate();

    let mut message = alice.sign_handshake(&bob.public_key()).unwrap();
    message.signature = BASE64.encode([0u8; 10]);
    match bob.verify_handshake(&message) {
        Err(HandshakeError::WrongSignatureLength { expected, found }) => {
            assert_eq!(expected, 64);
            assert_eq!(found, 10);
        }
        other => panic!("expected WrongSignatureLength, got {other:?}"),
    }
}

#[test]
fn version_mismatch_rejected() {
    let alice = Identity::generate();
    let bob = Identity::generate();

    let mut message = alice.sign_handshake(&bob.public_key()).unwrap();
    message.protocol_version = PROTOCOL_VERSION + 1;
    match bob.verify_handshake(&message) {
        Err(HandshakeError::IncompatibleProtocol { ours, theirs }) => {
            assert_eq!(ours, PROTOCOL_VERSION);
            assert_eq!(theirs, PROTOCOL_VERSION + 1);
        }
        other => panic!("expected IncompatibleProtocol, got {other:?}"),
    }
}

#[test]
fn signature_verified_before_version_gate() {
    let alice = Identity::generate();
    let bob = Identity::generate();
    let carol = Identity::generate();

    let mut message = alice.sign_handshake(&carol.public_key()).unwrap();
    message.protocol_version = PROTOCOL_VERSION + 1;
    assert!(matches!(
        bob.verify_handshake(&message),
        Err(HandshakeError::SignatureVerificationFailed)
    ));
}
