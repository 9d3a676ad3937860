//! Digests, signatures and the owner key pair.

use ed25519_dalek::Signer;
use sha2::Digest;
use vstd::prelude::*;

use crate::hexcodec::{hex_encode, hex_text};

verus! {

/// Why key material was not accepted.
#[derive(Debug)]
pub enum CryptoError {
    InvalidKeyMaterial { reason: String },
}

impl CryptoError {
    /// The reason that the error carries.
    pub open spec fn reason(&self) -> Seq<char> {
        match self {
            CryptoError::InvalidKeyMaterial { reason } => reason@,
        }
    }
}

/// The SHA-256 digest of a message.
pub uninterp spec fn sha256(message: Seq<u8>) -> Seq<u8>;

/// The Ed25519 public key of a secret key.
pub uninterp spec fn ed25519_public_key(secret: Seq<u8>) -> Seq<u8>;

/// Whether 32 bytes are the encoding of a curve point.
pub uninterp spec fn ed25519_key_valid(key: Seq<u8>) -> bool;

/// The deterministic Ed25519 signature of a message under a secret key.
pub uninterp spec fn ed25519_signature(secret: Seq<u8>, message: Seq<u8>) -> Seq<u8>;

/// Whether strict Ed25519 verification accepts a signature.
pub uninterp spec fn ed25519_accepts(key: Seq<u8>, message: Seq<u8>, signature: Seq<u8>) -> bool;

/// The first half of the signature encodes the neutral point of the curve. No
/// strict verifier accepts such a signature, and a signer makes one only if a
/// 512-bit hash is a multiple of the group order.
pub open spec fn neutral_nonce(signature: Seq<u8>) -> bool {
    &&& signature.len() == 64
    &&& signature[0] == 1
    &&& forall|i: int| 1 <= i < 32 ==> signature[i] == 0
}

/// `sha2::Sha256::digest` hashes the whole message at once.
#[verifier::external_body]
pub(crate) fn sha256_digest(message: &[u8]) -> (digest: [u8; 32])
    ensures
        digest@ == sha256(message@),
{
    sha2::Sha256::digest(message).into()
}

/// `ed25519_dalek::SigningKey::verifying_key` of the key made from `secret`. A
/// public key is the encoding of a curve point.
#[verifier::external_body]
pub(crate) fn ed25519_derive(secret: &[u8; 32]) -> (key: [u8; 32])
    ensures
        key@ == ed25519_public_key(secret@),
        ed25519_key_valid(key@),
{
    ed25519_dalek::SigningKey::from_bytes(secret).verifying_key().to_bytes()
}

/// `ed25519_dalek::VerifyingKey::from_bytes` fails on bytes that encode no
/// curve point.
#[verifier::external_body]
pub(crate) fn ed25519_check_key(key: &[u8; 32]) -> (valid: bool)
    ensures
        valid == ed25519_key_valid(key@),
{
    ed25519_dalek::VerifyingKey::from_bytes(key).is_ok()
}

/// `ed25519_dalek::SigningKey::sign` is deterministic. Strict verification
/// under the public key of the same secret accepts the signature, except in the
/// case in which the nonce point is neutral.
#[verifier::external_body]
pub(crate) fn ed25519_sign(secret: &[u8; 32], message: &[u8]) -> (signature: [u8; 64])
    ensures
        signature@ == ed25519_signature(secret@, message@),
        !neutral_nonce(signature@) ==> ed25519_accepts(
            ed25519_public_key(secret@),
            message@,
            signature@,
        ),
{
    ed25519_dalek::SigningKey::from_bytes(secret).sign(message).to_bytes()
}

/// `ed25519_dalek::VerifyingKey::verify_strict` on a key that decodes.
#[verifier::external_body]
pub(crate) fn ed25519_verify_strict(key: &[u8; 32], message: &[u8], signature: &[u8; 64]) -> (
    accepted: bool)
    requires
        ed25519_key_valid(key@),
    ensures
        accepted == ed25519_accepts(key@, message@, signature@),
{
    let signature = ed25519_dalek::Signature::from_bytes(signature);
    match ed25519_dalek::VerifyingKey::from_bytes(key) {
        Ok(key) => key.verify_strict(message, &signature).is_ok(),
        Err(_) => false,
    }
}

/// The owner id of a public key: the hexadecimal SHA-256 digest of its bytes.
pub open spec fn owner_id_of(key: Seq<u8>) -> Seq<char> {
    hex_text(sha256(key))
}

/// The owner id that belongs to a public key.
pub fn owner_id_from_verifying_key(key: &[u8; 32]) -> (id: String)
    ensures
        id@ == owner_id_of(key@),
{
    let digest = sha256_digest(key.as_slice());
    hex_encode(digest.as_slice())
}

/// The key pair with which an owner signs.
pub struct OwnerKeypair {
    secret: [u8; 32],
}

impl OwnerKeypair {
    /// The secret key.
    pub closed spec fn secret(&self) -> Seq<u8> {
        self.secret@
    }

    /// The key pair of a secret key.
    pub fn from_bytes(secret: [u8; 32]) -> (owner: OwnerKeypair)
        ensures
            owner.secret() == secret@,
    {
        OwnerKeypair { secret }
    }

    /// The bytes of the public key.
    pub fn verifying_key(&self) -> (key: [u8; 32])
        ensures
            key@ == ed25519_public_key(self.secret()),
            ed25519_key_valid(key@),
    {
        ed25519_derive(&self.secret)
    }

    /// The owner id of the public key.
    pub fn owner_id(&self) -> (id: String)
        ensures
            id@ == owner_id_of(ed25519_public_key(self.secret())),
    {
        let key = self.verifying_key();
        owner_id_from_verifying_key(&key)
    }

    /// Signs a message.
    pub fn sign(&self, message: &[u8]) -> (signature: [u8; 64])
        ensures
            signature@ == ed25519_signature(self.secret(), message@),
            !neutral_nonce(signature@) ==> ed25519_accepts(
                ed25519_public_key(self.secret()),
                message@,
                signature@,
            ),
    {
        ed25519_sign(&self.secret, message)
    }
}

} // verus!
