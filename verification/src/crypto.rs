//! Sealing of record payloads: ephemeral X25519 key agreement followed
//! by AES-256-GCM with a zero nonce.  The sealed layout is the 32-byte
//! ephemeral public key, the ciphertext, and the 16-byte tag.  A fresh
//! ephemeral key is drawn per call, which is why the fixed nonce is
//! safe and why nothing beyond the layout can be promised of a result.

use vstd::prelude::*;
use aes_gcm::aead::Aead;
use aes_gcm::KeyInit;
use pkcs8::der::asn1::BitString;
use pkcs8::der::Any;
use pkcs8::{Document, SubjectPublicKeyInfo};

verus! {

/// Why a PEM-encoded public key was rejected.
#[derive(Clone, Copy, PartialEq, Eq, Structural, Debug)]
pub enum KeyParseError {
    ParsePem,
    ExtractKey,
    InvalidKeyLength,
}

/// The authenticated encryption itself failed.
#[derive(Clone, Copy, PartialEq, Eq, Structural, Debug)]
pub struct EncryptError;

/// Length of an X25519 public key, in bytes.
pub const PUBLIC_KEY_SIZE: usize = 32;

/// Length of an AES-256-GCM authentication tag, in bytes.
pub const TAG_SIZE: usize = 16;

/// A recipient's static X25519 public key.
#[derive(Clone, Debug)]
pub struct PublicKey {
    bytes: Vec<u8>,
}

impl PublicKey {
    pub closed spec fn wf(self) -> bool {
        self.bytes@.len() == 32
    }

    /// The raw key bytes.
    pub fn as_bytes(&self) -> (r: &Vec<u8>)
        ensures
            r@.len() == 32 <==> self.wf(),
    {
        &self.bytes
    }

    /// A key from its raw bytes; exactly 32 of them are accepted.
    pub fn from_bytes(bytes: Vec<u8>) -> (r: Result<PublicKey, KeyParseError>)
        ensures
            match r {
                Ok(k) => bytes@.len() == 32 && k.wf(),
                Err(e) => bytes@.len() != 32 && e == KeyParseError::InvalidKeyLength,
            },
    {
        if bytes.len() == 32 {
            Ok(PublicKey { bytes })
        } else {
            Err(KeyParseError::InvalidKeyLength)
        }
    }

    /// Parse the public key from the content of a PEM file.
    pub fn from_pem(src: &str) -> (r: Result<PublicKey, KeyParseError>)
        ensures
            r matches Ok(k) ==> k.wf(),
    {
        match pem_public_key_bytes(src) {
            Ok(bytes) => PublicKey::from_bytes(bytes),
            Err(e) => Err(e),
        }
    }
}

/// Relies on pkcs8: `der::Document::from_pem` parses the PEM armor and
/// `spki::SubjectPublicKeyInfo` decodes the DER inside; the raw bits of
/// the subject public key come back.  Which inputs parse is the outside
/// library's decision, so nothing is promised of the outcome.
#[verifier::external_body]
fn pem_public_key_bytes(src: &str) -> (r: Result<Vec<u8>, KeyParseError>) {
    let doc = match Document::from_pem(src) {
        Ok((_, doc)) => doc,
        Err(_) => return Err(KeyParseError::ParsePem),
    };
    let info = match SubjectPublicKeyInfo::<Any, BitString>::try_from(doc.as_bytes()) {
        Ok(info) => info,
        Err(_) => return Err(KeyParseError::ExtractKey),
    };
    Ok(info.subject_public_key.raw_bytes().to_vec())
}

/// Relies on x25519_dalek (`EphemeralSecret::random`, `PublicKey::from`,
/// `diffie_hellman`) and on aes_gcm's `Aes256Gcm` through the `Aead`
/// trait, whose `encrypt` appends the 16-byte tag to the ciphertext.
/// A fresh ephemeral secret is drawn inside, so two calls on the same
/// input differ; only the lengths hold of every outcome.
#[verifier::external_body]
fn seal(recipient: &Vec<u8>, plaintext: &[u8]) -> (r: Option<(Vec<u8>, Vec<u8>)>)
    requires
        recipient@.len() == 32,
        plaintext@.len() + 16 <= usize::MAX,
    ensures
        r matches Some(p) ==> p.0@.len() == 32 && p.1@.len() == plaintext@.len() + 16,
{
    let key_bytes: [u8; 32] = match recipient.as_slice().try_into() {
        Ok(b) => b,
        Err(_) => return None,
    };
    let ephemeral_secret = x25519_dalek::EphemeralSecret::random();
    let ephemeral_public = x25519_dalek::PublicKey::from(&ephemeral_secret);
    let shared = ephemeral_secret.diffie_hellman(&x25519_dalek::PublicKey::from(key_bytes));
    let cipher = aes_gcm::Aes256Gcm::new(shared.as_bytes().into());
    let sealed = match cipher.encrypt(&Default::default(), plaintext) {
        Ok(c) => c,
        Err(_) => return None,
    };
    Some((ephemeral_public.as_bytes().to_vec(), sealed))
}

/// Encrypt `plaintext` to the holder of `static_public_key`'s secret.
/// The result is the ephemeral public key followed by the tagged
/// ciphertext: 48 bytes longer than the plaintext.
pub fn encrypt(static_public_key: &PublicKey, plaintext: &[u8]) -> (r: Result<
    Vec<u8>,
    EncryptError,
>)
    requires
        static_public_key.wf(),
    ensures
        r matches Ok(c) ==> c@.len() == plaintext@.len() + 48,
{
    if plaintext.len() > usize::MAX - 48 {
        // The sealed form would not fit in an allocation.
        return Err(EncryptError);
    }
    match seal(&static_public_key.bytes, plaintext) {
        Some((mut ephemeral_public, mut sealed)) => {
            let mut out = ephemeral_public;
            out.append(&mut sealed);
            Ok(out)
        },
        None => Err(EncryptError),
    }
}

/// Check a PEM-encoded encryption key handed over by the host.
pub fn validate_encryption_key(pem_str: String) -> (r: Result<PublicKey, KeyParseError>)
    ensures
        r matches Ok(k) ==> k.wf(),
{
    PublicKey::from_pem(pem_str.as_str())
}

} // verus!
