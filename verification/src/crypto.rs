use vstd::prelude::*;

use crate::errors::StegoError;
use aes_gcm::aead::rand_core::RngCore;
use aes_gcm::aead::{Aead, KeyInit, OsRng};
use aes_gcm::{Aes256Gcm, Key, Nonce};
use sha2::{Digest, Sha256};

verus! {

/// The first eight bytes of the SHA-256 digest of `data`: a function of the
/// input bytes alone.
pub uninterp spec fn sha256_trunc8(data: Seq<u8>) -> Seq<u8>;

/// What AES-256-GCM decryption yields for a buffer laid out as twelve nonce
/// bytes followed by ciphertext, under the key derived from `pass`:
/// `Some(plaintext)` when authentication succeeds, `None` when it fails. A
/// function of buffer and passphrase alone.
pub uninterp spec fn aead_decrypt(data: Seq<u8>, pass: Seq<char>) -> Option<Seq<u8>>;

/// Decryption of an arbitrary buffer: a buffer too short to hold the
/// 12-byte nonce fails outright; any other behaves as AES-256-GCM says.
pub open spec fn spec_decrypt(data: Seq<u8>, pass: Seq<char>) -> Option<Seq<u8>> {
    if data.len() < 12 {
        None
    } else {
        aead_decrypt(data, pass)
    }
}

/// Relies on sha2's `Sha256`: the 32-byte digest is a function of the input
/// bytes alone; the first eight bytes of it are returned.
#[verifier::external_body]
pub fn hash_message(data: &[u8]) -> (r: [u8; 8])
    ensures
        r@ == sha256_trunc8(data@),
{
    let digest = Sha256::digest(data);
    let mut hash8 = [0u8; 8];
    hash8.copy_from_slice(&digest[..8]);
    hash8
}

/// Relies on aes_gcm's `Aead::encrypt` with a fresh random 12-byte nonce
/// prepended to the ciphertext: the result is 28 bytes longer than the
/// plaintext (nonce plus 16-byte tag), and decrypting it under the same
/// passphrase gives the plaintext back. Nothing more is assumed: the nonce
/// is random, so two calls on one input may differ.
#[verifier::external_body]
pub fn encrypt_message(data: &[u8], password: &str) -> (r: Result<Vec<u8>, StegoError>)
    ensures
        r matches Ok(c) ==> c@.len() == data@.len() + 28,
        r matches Ok(c) ==> aead_decrypt(c@, password@) == Some(data@),
        r matches Err(e) ==> e == StegoError::CryptoError,
{
    let digest = Sha256::digest(password.as_bytes());
    let cipher = Aes256Gcm::new(Key::<Aes256Gcm>::from_slice(digest.as_slice()));
    let mut nonce_bytes = [0u8; 12];
    OsRng.fill_bytes(&mut nonce_bytes);
    match cipher.encrypt(Nonce::from_slice(&nonce_bytes), data) {
        Ok(ciphertext) => {
            let mut result = Vec::from(nonce_bytes);
            result.extend_from_slice(&ciphertext);
            Ok(result)
        },
        Err(_) => Err(StegoError::CryptoError),
    }
}

/// Relies on aes_gcm's `Aead::decrypt` over the split nonce and ciphertext:
/// the outcome is a function of buffer and passphrase alone, and an
/// authentication failure is an error, never wrong bytes.
#[verifier::external_body]
fn aead_open(data: &[u8], password: &str) -> (r: Result<Vec<u8>, StegoError>)
    requires
        data@.len() >= 12,
    ensures
        (r is Ok) == (aead_decrypt(data@, password@) is Some),
        r matches Ok(m) ==> Some(m@) == aead_decrypt(data@, password@),
        r matches Err(e) ==> e == StegoError::CryptoError,
{
    let (nonce_bytes, ciphertext) = data.split_at(12);
    let digest = Sha256::digest(password.as_bytes());
    let cipher = Aes256Gcm::new(Key::<Aes256Gcm>::from_slice(digest.as_slice()));
    match cipher.decrypt(Nonce::from_slice(nonce_bytes), ciphertext) {
        Ok(plaintext) => Ok(plaintext),
        Err(_) => Err(StegoError::CryptoError),
    }
}

/// Decrypts a buffer produced by `encrypt_message` under the same
/// passphrase; rejects buffers too short to hold the nonce.
pub fn decrypt_message(data: &[u8], password: &str) -> (r: Result<Vec<u8>, StegoError>)
    ensures
        (r is Ok) == (spec_decrypt(data@, password@) is Some),
        r matches Ok(m) ==> Some(m@) == spec_decrypt(data@, password@),
        r matches Err(e) ==> e == StegoError::CryptoError,
{
    if data.len() < 12 {
        return Err(StegoError::CryptoError);
    }
    aead_open(data, password)
}

} // verus!
