//! Secrets, which are stored encrypted.

use vstd::prelude::*;

use crate::text::is_blank;

use super::error::{violation, PersistenceError, PersistenceErrorView};

verus! {

/// What a plaintext is encrypted to with AES-256-GCM, where it can be.
pub uninterp spec fn sealed(key: Seq<u8>, nonce: Seq<u8>, plaintext: Seq<u8>) -> Option<Seq<u8>>;

/// What a ciphertext is decrypted to with AES-256-GCM, where it is authentic.
pub uninterp spec fn opened(key: Seq<u8>, nonce: Seq<u8>, ciphertext: Seq<u8>) -> Option<Seq<u8>>;

/// A random nonce from `Aes256Gcm::generate_nonce`. The contract claims that it has twelve bytes.
#[verifier::external_body]
fn fresh_nonce() -> (r: Vec<u8>)
    ensures
        r@.len() == 12,
{
    <aes_gcm::Aes256Gcm as aes_gcm::AeadCore>::generate_nonce(&mut aes_gcm::aead::OsRng).to_vec()
}

/// The longest plaintext that is encrypted, in bytes.
pub const MAX_PLAINTEXT: u64 = 68_719_476_736;

/// Encrypts with `encrypt` of `Aes256Gcm`. The contract claims that the outcome depends on the key,
/// the nonce and the plaintext alone, that every plaintext of at most 64 GiB is encrypted and no
/// longer one, that a tag of sixteen bytes is added, and that decrypting gives the plaintext back.
#[verifier::external_body]
fn aes_encrypt(key: &[u8; 32], nonce: &[u8], plaintext: &[u8]) -> (r: Option<Vec<u8>>)
    requires
        nonce@.len() == 12,
    ensures
        match r {
            Some(c) => {
                &&& plaintext@.len() <= MAX_PLAINTEXT
                &&& c@.len() == plaintext@.len() + 16
                &&& sealed(key@, nonce@, plaintext@) == Some(c@)
                &&& opened(key@, nonce@, c@) == Some(plaintext@)
            },
            None => plaintext@.len() > MAX_PLAINTEXT && sealed(
                key@,
                nonce@,
                plaintext@,
            ) is None,
        },
{
    let cipher = <aes_gcm::Aes256Gcm as aes_gcm::KeyInit>::new(key.into());
    aes_gcm::aead::Aead::encrypt(&cipher, aes_gcm::Nonce::from_slice(nonce), plaintext).ok()
}

/// Decrypts with `decrypt` of `Aes256Gcm`. The contract claims that the outcome depends on the key,
/// the nonce and the ciphertext alone.
#[verifier::external_body]
fn aes_decrypt(key: &[u8; 32], nonce: &[u8], ciphertext: &[u8]) -> (r: Option<Vec<u8>>)
    requires
        nonce@.len() == 12,
    ensures
        match r {
            Some(p) => opened(key@, nonce@, ciphertext@) == Some(p@),
            None => opened(key@, nonce@, ciphertext@) is None,
        },
{
    let cipher = <aes_gcm::Aes256Gcm as aes_gcm::KeyInit>::new(key.into());
    aes_gcm::aead::Aead::decrypt(&cipher, aes_gcm::Nonce::from_slice(nonce), ciphertext).ok()
}

/// A secret as it is stored.
#[derive(Debug)]
pub struct EncryptedSecret {
    pub nonce: Vec<u8>,
    pub ciphertext: Vec<u8>,
}

/// Why a secret is not stored.
pub open spec fn secret_fault(secret_ref: Seq<char>, length: nat) -> Option<PersistenceErrorView> {
    if crate::text::blank(secret_ref) || length == 0 {
        Some(super::error::broken("secret_ref and plaintext must not be empty"@))
    } else if length > MAX_PLAINTEXT {
        Some(super::error::broken("secret encryption failed"@))
    } else {
        None
    }
}

/// Whether a stored secret holds a plaintext.
pub open spec fn holds(secret: EncryptedSecret, key: Seq<u8>, plaintext: Seq<u8>) -> bool {
    &&& secret.nonce@.len() == 12
    &&& secret.ciphertext@.len() == plaintext.len() + 16
    &&& sealed(key, secret.nonce@, plaintext) == Some(secret.ciphertext@)
    &&& opened(key, secret.nonce@, secret.ciphertext@) == Some(plaintext)
}

/// Encrypts a secret with a nonce of twelve bytes. A secret without a name or without contents is
/// refused, and so is one that is too long.
pub fn seal_with_nonce(
    key: &[u8; 32],
    nonce: Vec<u8>,
    secret_ref: &str,
    plaintext: &[u8],
) -> (r: Result<EncryptedSecret, PersistenceError>)
    requires
        nonce@.len() == 12,
    ensures
        match r {
            Ok(secret) => secret_fault(secret_ref@, plaintext@.len()) is None && secret.nonce == nonce
                && holds(secret, key@, plaintext@),
            Err(e) => secret_fault(secret_ref@, plaintext@.len()) == Some(e@),
        },
{
    if is_blank(secret_ref) || plaintext.len() == 0 {
        return Err(violation("secret_ref and plaintext must not be empty"));
    }
    match aes_encrypt(key, nonce.as_slice(), plaintext) {
        Some(ciphertext) => Ok(EncryptedSecret { nonce, ciphertext }),
        None => Err(violation("secret encryption failed")),
    }
}

/// Encrypts a secret with a nonce of its own, which is random.
pub fn put_encrypted_secret(key: &[u8; 32], secret_ref: &str, plaintext: &[u8]) -> (r: Result<
    EncryptedSecret,
    PersistenceError,
>)
    ensures
        match r {
            Ok(secret) => secret_fault(secret_ref@, plaintext@.len()) is None && holds(
                secret,
                key@,
                plaintext@,
            ),
            Err(e) => secret_fault(secret_ref@, plaintext@.len()) == Some(e@),
        },
{
    let nonce = fresh_nonce();
    seal_with_nonce(key, nonce, secret_ref, plaintext)
}

/// What a stored secret holds, or why it cannot be read.
pub open spec fn secret_contents(key: Seq<u8>, nonce: Seq<u8>, ciphertext: Seq<u8>) -> Result<
    Seq<u8>,
    PersistenceErrorView,
> {
    if nonce.len() != 12 {
        Err(super::error::broken("stored secret nonce has invalid length"@))
    } else {
        match opened(key, nonce, ciphertext) {
            Some(p) => Ok(p),
            None => Err(super::error::broken("secret decryption failed"@)),
        }
    }
}

/// What a stored secret holds.
pub fn get_encrypted_secret(key: &[u8; 32], secret: &EncryptedSecret) -> (r: Result<
    Vec<u8>,
    PersistenceError,
>)
    ensures
        crate::text::result_view(r) == secret_contents(
            key@,
            secret.nonce@,
            secret.ciphertext@,
        ),
{
    if secret.nonce.len() != 12 {
        return Err(violation("stored secret nonce has invalid length"));
    }
    match aes_decrypt(key, secret.nonce.as_slice(), secret.ciphertext.as_slice()) {
        Some(p) => Ok(p),
        None => Err(violation("secret decryption failed")),
    }
}

/// A secret that was stored is read back as it was given.
pub proof fn secrets_are_read_back(secret: EncryptedSecret, key: Seq<u8>, plaintext: Seq<u8>)
    requires
        holds(secret, key, plaintext),
    ensures
        secret_contents(key, secret.nonce@, secret.ciphertext@) == Ok::<
            Seq<u8>,
            PersistenceErrorView,
        >(plaintext),
{
}

} // verus!
