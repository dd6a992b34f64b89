//! Sealed-payload round trips with the real cipher, and key parsing
//! from a PEM document.

use aes_gcm::aead::Aead;
use aes_gcm::KeyInit;
use ouinet_metrics::crypto::{encrypt, validate_encryption_key, KeyParseError, PublicKey};
use rand::distr::{Alphanumeric, SampleString};
use rand::rngs::StdRng;
use rand::{RngExt, SeedableRng};

struct SecretKey(x25519_dalek::StaticSecret);

impl SecretKey {
    fn random<R: RngExt>(rng: &mut R) -> Self {
        let bytes: [u8; 32] = rng.random();
        Self(x25519_dalek::StaticSecret::from(bytes))
    }

    fn public_key(&self) -> PublicKey {
        let pk = x25519_dalek::PublicKey::from(&self.0);
        PublicKey::from_bytes(pk.as_bytes().to_vec()).unwrap()
    }
}

#[derive(Debug)]
struct DecryptError;

fn decrypt(static_secret_key: &SecretKey, ciphertext: &[u8]) -> Result<Vec<u8>, DecryptError> {
    let ephemeral_public_key: [u8; 32] = ciphertext[..32].try_into().map_err(|_| DecryptError)?;
    let ephemeral_public_key = x25519_dalek::PublicKey::from(ephemeral_public_key);

    let shared_secret = static_secret_key.0.diffie_hellman(&ephemeral_public_key);
    let cipher = aes_gcm::Aes256Gcm::new(shared_secret.as_bytes().into());

    cipher.decrypt(&Default::default(), &ciphertext[32..]).map_err(|_| DecryptError)
}

#[test]
fn roundtrip() {
    let mut rng = StdRng::seed_from_u64(0);
    let n: usize = 32;

    for _ in 0..n {
        let static_secret_key = SecretKey::random(&mut rng);
        let static_public_key = static_secret_key.public_key();

        let plaintext_len: usize = rng.random_range(1..=1024);
        let plaintext = Alphanumeric.sample_string(&mut rng, plaintext_len);

        let ciphertext = encrypt(&static_public_key, plaintext.as_bytes()).unwrap();
        assert_eq!(ciphertext.len(), plaintext.len() + 48);

        let roundtrip = decrypt(&static_secret_key, &ciphertext).unwrap();
        let roundtrip = String::from_utf8(roundtrip).unwrap();

        assert_eq!(plaintext, roundtrip);
    }
}

#[test]
fn two_seals_of_one_payload_differ() {
    let mut rng = StdRng::seed_from_u64(1);
    let key = SecretKey::random(&mut rng).public_key();
    let a = encrypt(&key, b"same payload").unwrap();
    let b = encrypt(&key, b"same payload").unwrap();
    // A fresh ephemeral key is drawn per call.
    assert_ne!(a, b);
}

fn pem_of_key(key: &[u8; 32]) -> String {
    // X25519 SubjectPublicKeyInfo: SEQUENCE { SEQUENCE { OID 1.3.101.110 }, BIT STRING }
    let mut der: Vec<u8> =
        vec![0x30, 0x2a, 0x30, 0x05, 0x06, 0x03, 0x2b, 0x65, 0x6e, 0x03, 0x21, 0x00];
    der.extend_from_slice(key);
    let doc = pkcs8::Document::try_from(der).unwrap();
    doc.to_pem("PUBLIC KEY", pkcs8::LineEnding::LF).unwrap()
}

#[test]
fn validate_encryption_key_accepts_real_pem() {
    let key: [u8; 32] = [7; 32];
    let pem = pem_of_key(&key);
    let parsed = validate_encryption_key(pem).unwrap();
    assert_eq!(parsed.as_bytes().as_slice(), &key);
}

#[test]
fn validate_encryption_key_rejects_garbage() {
    assert_eq!(
        validate_encryption_key("not a pem".to_string()).unwrap_err(),
        KeyParseError::ParsePem
    );
}

#[test]
fn validate_encryption_key_rejects_non_key_documents() {
    // A well-formed PEM whose DER is not a public-key structure.
    let der: Vec<u8> = vec![0x30, 0x02, 0x05, 0x00];
    let doc = pkcs8::Document::try_from(der).unwrap();
    let pem = doc.to_pem("PUBLIC KEY", pkcs8::LineEnding::LF).unwrap();
    assert_eq!(validate_encryption_key(pem).unwrap_err(), KeyParseError::ExtractKey);
}

#[test]
fn validate_encryption_key_rejects_short_keys() {
    // A valid document carrying a 16-byte key.
    let mut der: Vec<u8> =
        vec![0x30, 0x1a, 0x30, 0x05, 0x06, 0x03, 0x2b, 0x65, 0x6e, 0x03, 0x11, 0x00];
    der.extend_from_slice(&[9; 16]);
    let doc = pkcs8::Document::try_from(der).unwrap();
    let pem = doc.to_pem("PUBLIC KEY", pkcs8::LineEnding::LF).unwrap();
    assert_eq!(validate_encryption_key(pem).unwrap_err(), KeyParseError::InvalidKeyLength);
}

#[test]
fn from_bytes_demands_exact_length() {
    assert!(PublicKey::from_bytes(vec![1; 32]).is_ok());
    assert_eq!(
        PublicKey::from_bytes(vec![1; 31]).unwrap_err(),
        KeyParseError::InvalidKeyLength
    );
}
