//! Proving to a peer who one is: an ed25519 signature over the other's public key.

use base64::Engine;
use ed25519_dalek::{Signer, Verifier};
use rand::RngCore;
use vstd::prelude::*;

use crate::text::{is_white_space, lemma_nothing_to_trim, trim, trimmed};

verus! {

/// The version of the wire protocol. Peers of another version are turned away.
pub const PROTOCOL_VERSION: u32 = 1;

/// Why some text is no base64: `base64::DecodeError`.
#[verifier::external_type_specification]
#[verifier::external_body]
pub struct ExDecodeError(base64::DecodeError);

/// Why some bytes are no ed25519 public key: `ed25519_dalek::SignatureError`.
#[verifier::external_type_specification]
#[verifier::external_body]
pub struct ExSignatureError(ed25519_dalek::SignatureError);

/// The bytes that some text stands for in base64, if it is base64.
pub uninterp spec fn base64_bytes(text: Seq<char>) -> Option<Seq<u8>>;

/// Some bytes written in base64.
pub uninterp spec fn base64_text(bytes: Seq<u8>) -> Seq<char>;

/// The ed25519 public key of a seed.
pub uninterp spec fn ed25519_public_key(seed: Seq<u8>) -> Seq<u8>;

/// Some bytes are an ed25519 public key.
pub uninterp spec fn is_ed25519_key(bytes: Seq<u8>) -> bool;

/// The ed25519 signature of a message under a seed.
pub uninterp spec fn ed25519_signature(seed: Seq<u8>, message: Seq<u8>) -> Seq<u8>;

/// An ed25519 signature of a message is good under a public key.
pub uninterp spec fn ed25519_verifies(
    public_key: Seq<u8>,
    message: Seq<u8>,
    signature: Seq<u8>,
) -> bool;

/// Calls `decode` of `base64::engine::general_purpose::STANDARD`: the bytes that the text
/// stands for, or an error if it is no padded base64 over the standard alphabet.
#[verifier::external_body]
fn decode_base64(text: &str) -> (r: Result<Vec<u8>, base64::DecodeError>)
    ensures
        match r {
            Ok(bytes) => base64_bytes(text@) == Some(bytes@),
            Err(_) => base64_bytes(text@) is None,
        },
{
    base64::engine::general_purpose::STANDARD.decode(text)
}

/// Calls `encode` of `base64::engine::general_purpose::STANDARD`: decoding the result gives the
/// bytes back, and no character of it is white space.
#[verifier::external_body]
fn encode_base64(bytes: &[u8]) -> (r: String)
    requires
        bytes@.len() <= 64,
    ensures
        r@ == base64_text(bytes@),
        base64_bytes(r@) == Some(bytes@),
        forall|i: int| 0 <= i < r@.len() ==> !is_white_space(#[trigger] r@[i]),
{
    base64::engine::general_purpose::STANDARD.encode(bytes)
}

/// Calls `fill_bytes` of `rand::rng`: 32 random bytes.
#[verifier::external_body]
fn random_seed() -> (r: [u8; 32]) {
    let mut seed = [0u8; 32];
    rand::rng().fill_bytes(&mut seed);
    seed
}

/// Calls `ed25519_dalek::SigningKey::from_bytes` and `verifying_key`: the public key of a seed,
/// which is a public key that `ed25519_dalek::VerifyingKey::from_bytes` takes.
#[verifier::external_body]
fn public_key_of(seed: &[u8; 32]) -> (r: [u8; 32])
    ensures
        r@ == ed25519_public_key(seed@),
        is_ed25519_key(r@),
{
    ed25519_dalek::SigningKey::from_bytes(seed).verifying_key().to_bytes()
}

/// Calls `sign` of `ed25519_dalek::SigningKey`: a signature of the message, good under the
/// public key of the seed.
#[verifier::external_body]
fn sign_with(seed: &[u8; 32], message: &[u8]) -> (r: [u8; 64])
    ensures
        r@ == ed25519_signature(seed@, message@),
        ed25519_verifies(ed25519_public_key(seed@), message@, r@),
{
    ed25519_dalek::SigningKey::from_bytes(seed).sign(message).to_bytes()
}

/// Calls `ed25519_dalek::VerifyingKey::from_bytes`: whether the bytes are a public key.
#[verifier::external_body]
fn check_key(bytes: &[u8; 32]) -> (r: Result<(), ed25519_dalek::SignatureError>)
    ensures
        r is Ok == is_ed25519_key(bytes@),
{
    ed25519_dalek::VerifyingKey::from_bytes(bytes).map(|_| ())
}

/// Calls `verify` of `ed25519_dalek::VerifyingKey`: whether the signature of the message is good
/// under the public key. Bytes that are no public key verify nothing.
#[verifier::external_body]
fn verify_with(public_key: &[u8; 32], message: &[u8], signature: &[u8; 64]) -> (r: bool)
    requires
        is_ed25519_key(public_key@),
    ensures
        r == ed25519_verifies(public_key@, message@, signature@),
{
    match ed25519_dalek::VerifyingKey::from_bytes(public_key) {
        Ok(key) => key.verify(message, &ed25519_dalek::Signature::from_bytes(signature)).is_ok(),
        Err(_) => false,
    }
}

/// What a peer sends to prove that it holds the private key behind its public key. The
/// signature is over the other peer's public key, so it is of no use toward a third.
#[derive(Debug)]
pub struct HandshakeMessage {
    pub public_key: String,
    pub signature: String,
    /// Checked after the signature, which does not cover it.
    pub protocol_version: u32,
}

/// The model of a handshake.
pub struct HandshakeView {
    pub public_key: Seq<char>,
    pub signature: Seq<char>,
    pub protocol_version: u32,
}

impl View for HandshakeMessage {
    type V = HandshakeView;

    open spec fn view(&self) -> HandshakeView {
        HandshakeView {
            public_key: self.public_key@,
            signature: self.signature@,
            protocol_version: self.protocol_version,
        }
    }
}

impl HandshakeMessage {
    /// A handshake in this device's version of the protocol.
    pub fn new(public_key: String, signature: String) -> (r: HandshakeMessage)
        ensures
            r@ == (HandshakeView {
                public_key: public_key@,
                signature: signature@,
                protocol_version: PROTOCOL_VERSION,
            }),
    {
        HandshakeMessage { public_key, signature, protocol_version: PROTOCOL_VERSION }
    }
}

/// Why a handshake could not be built or was turned away.
#[derive(Debug)]
pub enum HandshakeError {
    InvalidPublicKeyEncoding(base64::DecodeError),
    InvalidSignatureEncoding(base64::DecodeError),
    WrongPublicKeyLength { expected: usize, found: usize },
    WrongSignatureLength { expected: usize, found: usize },
    InvalidPublicKey(ed25519_dalek::SignatureError),
    SignatureVerificationFailed,
    IncompatibleProtocol { ours: u32, theirs: u32 },
}

/// What is made of a handshake.
#[derive(Debug, Clone, Copy, PartialEq, Eq, Structural)]
pub enum Verdict {
    Accepted,
    InvalidPublicKeyEncoding,
    InvalidSignatureEncoding,
    WrongPublicKeyLength { found: usize },
    WrongSignatureLength { found: usize },
    InvalidPublicKey,
    SignatureVerificationFailed,
    IncompatibleProtocol { theirs: u32 },
}

/// The verdict on a handshake, from what its public key and its signature decode to, whether
/// the one is a key and the other good under it, and its version. The public key comes first,
/// then the signature, and last the version.
pub open spec fn verdict_of(
    key: Option<Seq<u8>>,
    is_key: bool,
    signature: Option<Seq<u8>>,
    verifies: bool,
    protocol_version: u32,
) -> Verdict {
    match key {
        None => Verdict::InvalidPublicKeyEncoding,
        Some(key) => if key.len() != 32 {
            Verdict::WrongPublicKeyLength { found: key.len() as usize }
        } else if !is_key {
            Verdict::InvalidPublicKey
        } else {
            match signature {
                None => Verdict::InvalidSignatureEncoding,
                Some(signature) => if signature.len() != 64 {
                    Verdict::WrongSignatureLength { found: signature.len() as usize }
                } else if !verifies {
                    Verdict::SignatureVerificationFailed
                } else if protocol_version != PROTOCOL_VERSION {
                    Verdict::IncompatibleProtocol { theirs: protocol_version }
                } else {
                    Verdict::Accepted
                },
            }
        },
    }
}

/// The verdict of a holder of `our_public_key` on a handshake.
pub open spec fn verdict_on(our_public_key: Seq<u8>, message: HandshakeView) -> Verdict {
    let key = base64_bytes(message.public_key);
    let signature = base64_bytes(message.signature);
    verdict_of(
        key,
        key is Some && is_ed25519_key(key->Some_0),
        signature,
        key is Some && signature is Some && ed25519_verifies(
            key->Some_0,
            our_public_key,
            signature->Some_0,
        ),
        message.protocol_version,
    )
}

/// The model of optional bytes.
pub open spec fn optional_bytes(bytes: Option<&Vec<u8>>) -> Option<Seq<u8>> {
    match bytes {
        Some(bytes) => Some(bytes@),
        None => None,
    }
}

/// Judges a handshake by what its public key and its signature decode to, whether the one is a
/// key and the other good under it, and its version.
pub fn judge_handshake(
    key: Option<&Vec<u8>>,
    is_key: bool,
    signature: Option<&Vec<u8>>,
    verifies: bool,
    protocol_version: u32,
) -> (r: Verdict)
    ensures
        r == verdict_of(
            optional_bytes(key),
            is_key,
            optional_bytes(signature),
            verifies,
            protocol_version,
        ),
{
    let key = match key {
        Some(key) => key,
        None => return Verdict::InvalidPublicKeyEncoding,
    };
    if key.len() != 32 {
        return Verdict::WrongPublicKeyLength { found: key.len() };
    }
    if !is_key {
        return Verdict::InvalidPublicKey;
    }
    let signature = match signature {
        Some(signature) => signature,
        None => return Verdict::InvalidSignatureEncoding,
    };
    if signature.len() != 64 {
        return Verdict::WrongSignatureLength { found: signature.len() };
    }
    if !verifies {
        return Verdict::SignatureVerificationFailed;
    }
    if protocol_version != PROTOCOL_VERSION {
        return Verdict::IncompatibleProtocol { theirs: protocol_version };
    }
    Verdict::Accepted
}

/// An error says this verdict.
pub open spec fn is_verdict(error: HandshakeError, verdict: Verdict) -> bool {
    match (error, verdict) {
        (HandshakeError::InvalidPublicKeyEncoding(_), Verdict::InvalidPublicKeyEncoding) => {
            true
        },
        (HandshakeError::InvalidSignatureEncoding(_), Verdict::InvalidSignatureEncoding) => {
            true
        },
        (
            HandshakeError::WrongPublicKeyLength { expected, found: a },
            Verdict::WrongPublicKeyLength { found: b },
        ) => expected == 32 && a == b,
        (
            HandshakeError::WrongSignatureLength { expected, found: a },
            Verdict::WrongSignatureLength { found: b },
        ) => expected == 64 && a == b,
        (HandshakeError::InvalidPublicKey(_), Verdict::InvalidPublicKey) => true,
        (
            HandshakeError::SignatureVerificationFailed,
            Verdict::SignatureVerificationFailed,
        ) => true,
        (
            HandshakeError::IncompatibleProtocol { ours, theirs: a },
            Verdict::IncompatibleProtocol { theirs: b },
        ) => ours == PROTOCOL_VERSION && a == b,
        _ => false,
    }
}

/// Why a stored identity could not be read.
#[derive(Debug)]
pub enum IdentityError {
    /// The text is no base64.
    NotBase64(base64::DecodeError),
    /// The text stands for a number of bytes other than 32.
    WrongLength { found: usize },
}

/// This device's long-lived identity: the seed of an ed25519 key pair.
pub struct Identity {
    seed: [u8; 32],
}

/// The model of an identity is its seed.
impl View for Identity {
    type V = Seq<u8>;

    closed spec fn view(&self) -> Seq<u8> {
        self.seed@
    }
}

/// The first 32 bytes of some.
fn key_array(bytes: &Vec<u8>) -> (r: [u8; 32])
    requires
        bytes@.len() == 32,
    ensures
        r@ == bytes@,
{
    let mut array = [0u8; 32];
    let mut i: usize = 0;
    while i < 32
        invariant
            i <= 32,
            bytes@.len() == 32,
            forall|j: int| 0 <= j < i ==> array@[j] == bytes@[j],
        decreases 32 - i,
    {
        array[i] = bytes[i];
        i = i + 1;
    }
    assert(array@ =~= bytes@);
    array
}

/// The first 64 bytes of some.
fn signature_array(bytes: &Vec<u8>) -> (r: [u8; 64])
    requires
        bytes@.len() == 64,
    ensures
        r@ == bytes@,
{
    let mut array = [0u8; 64];
    let mut i: usize = 0;
    while i < 64
        invariant
            i <= 64,
            bytes@.len() == 64,
            forall|j: int| 0 <= j < i ==> array@[j] == bytes@[j],
        decreases 64 - i,
    {
        array[i] = bytes[i];
        i = i + 1;
    }
    assert(array@ =~= bytes@);
    array
}

impl Identity {
    /// A fresh random identity. It is not stored anywhere.
    pub fn generate() -> (r: Identity)
        ensures
            r@.len() == 32,
    {
        Identity { seed: random_seed() }
    }

    /// Reads an identity that `to_text` wrote: its seed in base64, white space around it aside.
    pub fn from_text(contents: &str) -> (r: Result<Identity, IdentityError>)
        ensures
            match (base64_bytes(trimmed(contents@)), r) {
                (Some(bytes), Ok(identity)) => bytes.len() == 32 && identity@ == bytes,
                (Some(bytes), Err(IdentityError::WrongLength { found })) => bytes.len() != 32
                    && found == bytes.len(),
                (None, Err(IdentityError::NotBase64(_))) => true,
                _ => false,
            },
    {
        let text = trim(contents);
        match decode_base64(text.as_str()) {
            Ok(bytes) => Identity::from_bytes(&bytes),
            Err(error) => Err(IdentityError::NotBase64(error)),
        }
    }

    /// The identity with these 32 bytes as its seed.
    pub fn from_bytes(bytes: &Vec<u8>) -> (r: Result<Identity, IdentityError>)
        ensures
            match r {
                Ok(identity) => bytes@.len() == 32 && identity@ == bytes@,
                Err(IdentityError::WrongLength { found }) => bytes@.len() != 32 && found
                    == bytes@.len(),
                Err(_) => false,
            },
    {
        if bytes.len() != 32 {
            return Err(IdentityError::WrongLength { found: bytes.len() });
        }
        Ok(Identity { seed: key_array(bytes) })
    }

    /// This identity as text to store. Reading it gives the identity back.
    pub fn to_text(&self) -> (r: String)
        ensures
            r@ == base64_text(self@),
            base64_bytes(trimmed(r@)) == Some(self@),
            self@.len() == 32,
    {
        let text = encode_base64(self.seed.as_slice());
        proof {
            lemma_nothing_to_trim(text@);
        }
        text
    }

    /// The public key that peers know this device by, in base64. Decoding it gives the key back.
    pub fn public_key(&self) -> (r: String)
        ensures
            r@ == base64_text(ed25519_public_key(self@)),
            base64_bytes(r@) == Some(ed25519_public_key(self@)),
            ed25519_public_key(self@).len() == 32,
            is_ed25519_key(ed25519_public_key(self@)),
    {
        let key = public_key_of(&self.seed);
        encode_base64(key.as_slice())
    }

    /// Builds this device's half of the handshake toward a peer. Whoever holds that peer's
    /// public key accepts it.
    pub fn sign_handshake(&self, peer_public_key: &str) -> (r: Result<
        HandshakeMessage,
        HandshakeError,
    >)
        ensures
            match (base64_bytes(peer_public_key@), r) {
                (Some(key), Ok(message)) => message@.public_key == base64_text(
                    ed25519_public_key(self@),
                ) && message@.signature == base64_text(ed25519_signature(self@, key))
                    && message@.protocol_version == PROTOCOL_VERSION && verdict_on(key, message@)
                    is Accepted,
                (None, Err(HandshakeError::InvalidPublicKeyEncoding(_))) => true,
                _ => false,
            },
    {
        let peer_key = match decode_base64(peer_public_key) {
            Ok(bytes) => bytes,
            Err(error) => return Err(HandshakeError::InvalidPublicKeyEncoding(error)),
        };
        let signature = sign_with(&self.seed, peer_key.as_slice());
        let text = encode_base64(signature.as_slice());
        Ok(HandshakeMessage::new(self.public_key(), text))
    }

    /// Verifies a handshake: the peer has signed this device's public key with the private key
    /// behind its own, and speaks the same version of the protocol. Gives the peer's public key.
    pub fn verify_handshake(&self, message: &HandshakeMessage) -> (r: Result<
        String,
        HandshakeError,
    >)
        ensures
            ({
                let verdict = verdict_on(ed25519_public_key(self@), message@);
                match r {
                    Ok(public_key) => verdict is Accepted && public_key@ == message@.public_key,
                    Err(error) => is_verdict(error, verdict),
                }
            }),
    {
        let key_bytes = match decode_base64(message.public_key.as_str()) {
            Ok(bytes) => bytes,
            Err(error) => return Err(HandshakeError::InvalidPublicKeyEncoding(error)),
        };
        if key_bytes.len() == 32 {
            let key = key_array(&key_bytes);
            if let Err(error) = check_key(&key) {
                return Err(HandshakeError::InvalidPublicKey(error));
            }
            let signature_bytes = match decode_base64(message.signature.as_str()) {
                Ok(bytes) => bytes,
                Err(error) => return Err(HandshakeError::InvalidSignatureEncoding(error)),
            };
            let verifies = signature_bytes.len() == 64 && {
                let ours = public_key_of(&self.seed);
                verify_with(&key, ours.as_slice(), &signature_array(&signature_bytes))
            };
            let verdict = judge_handshake(
                Some(&key_bytes),
                true,
                Some(&signature_bytes),
                verifies,
                message.protocol_version,
            );
            accepted_key(verdict, message)
        } else {
            let verdict = judge_handshake(
                Some(&key_bytes),
                false,
                None,
                false,
                message.protocol_version,
            );
            accepted_key(verdict, message)
        }
    }
}

/// The public key of an accepted handshake, or why it was turned away.
fn accepted_key(verdict: Verdict, message: &HandshakeMessage) -> (r: Result<
    String,
    HandshakeError,
>)
    requires
        !(verdict is InvalidPublicKeyEncoding),
        !(verdict is InvalidSignatureEncoding),
        !(verdict is InvalidPublicKey),
    ensures
        match r {
            Ok(public_key) => verdict is Accepted && public_key@ == message@.public_key,
            Err(error) => is_verdict(error, verdict),
        },
{
    match verdict {
        Verdict::WrongPublicKeyLength { found } => Err(
            HandshakeError::WrongPublicKeyLength { expected: 32, found },
        ),
        Verdict::WrongSignatureLength { found } => Err(
            HandshakeError::WrongSignatureLength { expected: 64, found },
        ),
        Verdict::IncompatibleProtocol { theirs } => Err(
            HandshakeError::IncompatibleProtocol { ours: PROTOCOL_VERSION, theirs },
        ),
        Verdict::Accepted => Ok(message.public_key.clone()),
        _ => Err(HandshakeError::SignatureVerificationFailed),
    }
}

/// The version is looked at only once the signature is proved: a handshake that is not accepted
/// for another reason than its version is turned away for that reason, whatever its version.
pub proof fn law_signature_comes_before_version(
    our_public_key: Seq<u8>,
    message: HandshakeView,
    version: u32,
)
    ensures
        ({
            let verdict = verdict_on(our_public_key, message);
            let other = verdict_on(
                our_public_key,
                HandshakeView { protocol_version: version, ..message },
            );
            &&& !(verdict is Accepted) && !(verdict is IncompatibleProtocol) ==> other == verdict
            &&& verdict is IncompatibleProtocol && version == PROTOCOL_VERSION ==> other
                is Accepted
        }),
{
}

/// A handshake is accepted only with a signature over the verifier's own public key, by the key
/// that it announces.
pub proof fn law_accepted_handshake_is_signed_for_us(
    our_public_key: Seq<u8>,
    message: HandshakeView,
)
    requires
        verdict_on(our_public_key, message) is Accepted,
    ensures
        base64_bytes(message.public_key) is Some,
        base64_bytes(message.signature) is Some,
        ed25519_verifies(
            base64_bytes(message.public_key)->Some_0,
            our_public_key,
            base64_bytes(message.signature)->Some_0,
        ),
        message.protocol_version == PROTOCOL_VERSION,
{
}

} // verus!
