//! The cryptographic and encoding primitives of the vault, each a call into
//! its outside crate: randomness (`rand`), PBKDF2-HMAC-SHA256 (`pbkdf2`,
//! `sha2`), AES-256-GCM (`aes-gcm`), standard Base64 (`base64`) and the
//! clock (`chrono`).
use vstd::prelude::*;
use aes_gcm::aead::{Aead, KeyInit, Payload};
use aes_gcm::{Aes256Gcm, Key, Nonce};
use base64::Engine;
use rand::RngCore;
use crate::error::{ErrorCode, VaultError};

verus! {

/// Largest plaintext, in bytes, that AES-GCM encrypts (`aes_gcm::P_MAX`).
pub const P_MAX: u64 = 0x10_0000_0000;
/// Largest associated data, in bytes, that AES-GCM accepts (`aes_gcm::A_MAX`).
pub const A_MAX: u64 = 0x10_0000_0000;

/// The 32-byte key that PBKDF2-HMAC-SHA256 derives from a password, a salt
/// and a number of rounds.
pub uninterp spec fn pbkdf2_hmac_sha256(password: Seq<u8>, salt: Seq<u8>, rounds: u32) -> Seq<u8>;

/// The AES-256-GCM ciphertext (with its 16-byte tag appended) of a plaintext
/// under a key, a nonce and associated data.
pub uninterp spec fn aes256gcm_seal(key: Seq<u8>, nonce: Seq<u8>, plain: Seq<u8>, aad: Seq<u8>) -> Seq<u8>;

/// What AES-256-GCM decryption of a ciphertext (tag appended) gives under a key,
/// a nonce and associated data: the plaintext, or nothing when the tag does not
/// verify.
pub uninterp spec fn aes256gcm_open(key: Seq<u8>, nonce: Seq<u8>, ct: Seq<u8>, aad: Seq<u8>) -> Option<Seq<u8>>;

/// The standard (padded) Base64 text of bytes.
pub uninterp spec fn base64_encode(data: Seq<u8>) -> Seq<char>;

/// The bytes that a standard Base64 text decodes to, or nothing when it is not
/// valid Base64.
pub uninterp spec fn base64_decode(text: Seq<char>) -> Option<Seq<u8>>;

/// `n` bytes from the thread-local random generator of `rand`
/// (`ThreadRng::fill_bytes`). Only the length is promised: the bytes are random.
#[verifier::external_body]
pub fn random_bytes(n: usize) -> (v: Vec<u8>)
    ensures
        v@.len() == n,
{
    let mut v = vec![0u8; n];
    rand::thread_rng().fill_bytes(&mut v);
    v
}

/// The current UTC time as RFC 3339 text with microseconds
/// (`chrono::Utc::now().to_rfc3339_opts`). Nothing is promised of it: it is the clock.
#[verifier::external_body]
pub fn now_iso() -> String {
    chrono::Utc::now().to_rfc3339_opts(chrono::SecondsFormat::Micros, false)
}

/// PBKDF2-HMAC-SHA256 of a password and salt with the given rounds, 32 bytes
/// long (`pbkdf2::pbkdf2_hmac::<Sha256>`). HMAC takes keys of any length, so the
/// call cannot fail.
#[verifier::external_body]
pub fn derive_key(password: &[u8], salt: &[u8], rounds: u32) -> (k: [u8; 32])
    ensures
        k@ == pbkdf2_hmac_sha256(password@, salt@, rounds),
{
    let mut out = [0u8; 32];
    pbkdf2::pbkdf2_hmac::<sha2::Sha256>(password, salt, rounds, &mut out);
    out
}

/// AES-256-GCM encryption (`Aead::encrypt` of `Aes256Gcm`). It fails only when
/// the plaintext or the associated data exceeds the limits of GCM; the
/// ciphertext is the plaintext's length plus the 16-byte tag, and decryption
/// with the same key, nonce and associated data gives the plaintext back.
#[verifier::external_body]
fn gcm_seal(key: &[u8], nonce: &[u8], plain: &[u8], aad: &[u8]) -> (c: Option<Vec<u8>>)
    requires
        key@.len() == 32,
        nonce@.len() == 12,
    ensures
        c is Some <==> (plain@.len() <= P_MAX && aad@.len() <= A_MAX),
        c matches Some(ct) ==> {
            &&& ct@ == aes256gcm_seal(key@, nonce@, plain@, aad@)
            &&& ct@.len() == plain@.len() + 16
            &&& aes256gcm_open(key@, nonce@, ct@, aad@) == Some(plain@)
        },
{
    let cipher = Aes256Gcm::new(Key::<Aes256Gcm>::from_slice(key));
    cipher.encrypt(Nonce::from_slice(nonce), Payload { msg: plain, aad }).ok()
}

/// AES-256-GCM decryption (`Aead::decrypt` of `Aes256Gcm`): the plaintext, or
/// nothing when the tag does not verify.
#[verifier::external_body]
fn gcm_open(key: &[u8], nonce: &[u8], ct: &[u8], aad: &[u8]) -> (p: Option<Vec<u8>>)
    requires
        key@.len() == 32,
        nonce@.len() == 12,
    ensures
        match p {
            Some(v) => aes256gcm_open(key@, nonce@, ct@, aad@) == Some(v@),
            None => aes256gcm_open(key@, nonce@, ct@, aad@) is None,
        },
{
    let cipher = Aes256Gcm::new(Key::<Aes256Gcm>::from_slice(key));
    cipher.decrypt(Nonce::from_slice(nonce), Payload { msg: ct, aad }).ok()
}

/// Standard Base64 encoding (`base64::engine::general_purpose::STANDARD.encode`),
/// which decoding gives back; padded, its text has four characters for every
/// started group of three bytes. The crate panics only when the encoded length
/// overflows `usize`.
#[verifier::external_body]
pub(crate) fn b64_encode(data: &[u8]) -> (s: String)
    requires
        data@.len() / 3 * 4 + (if data@.len() % 3 == 0 { 0int } else { 4int }) <= usize::MAX,
    ensures
        s@ == base64_encode(data@),
        s@.len() == (data@.len() + 2) / 3 * 4,
        base64_decode(s@) == Some(data@),
{
    base64::engine::general_purpose::STANDARD.encode(data)
}

/// Standard Base64 decoding (`base64::engine::general_purpose::STANDARD.decode`).
#[verifier::external_body]
pub(crate) fn b64_decode(text: &str) -> (r: Option<Vec<u8>>)
    ensures
        match r {
            Some(v) => base64_decode(text@) == Some(v@),
            None => base64_decode(text@) is None,
        },
{
    base64::engine::general_purpose::STANDARD.decode(text).ok()
}

/// The associated data that an optional slice stands for: none is empty.
pub open spec fn aad_bytes(aad: Option<&[u8]>) -> Seq<u8> {
    match aad {
        Some(a) => a@,
        None => Seq::empty(),
    }
}

/// AES-256-GCM encryption of `plain` under `key` and nonce `iv`.
/// A key that is not 32 bytes long is an `INTERNAL` error, and so is a message
/// beyond the limits of GCM.
pub fn aead_encrypt(key: &[u8], iv: &[u8], plain: &[u8], aad: Option<&[u8]>) -> (r: Result<Vec<u8>, VaultError>)
    requires
        key@.len() == 32 ==> iv@.len() == 12,
    ensures
        key@.len() != 32 ==> (r matches Err(e) && e.code == ErrorCode::Internal && e.message@ == "密钥长度错误"@),
        key@.len() == 32 ==> (r is Ok <==> (plain@.len() <= P_MAX && aad_bytes(aad).len() <= A_MAX)),
        key@.len() == 32 ==> (r matches Err(e) ==> e.code == ErrorCode::Internal && e.message@ == "加密失败"@),
        r matches Err(e) ==> e.code == ErrorCode::Internal,
        r matches Ok(c) ==> c@ == aes256gcm_seal(key@, iv@, plain@, aad_bytes(aad))
            && aes256gcm_open(key@, iv@, c@, aad_bytes(aad)) == Some(plain@)
            && c@.len() == plain@.len() + 16,
{
    if key.len() != 32 {
        return Err(VaultError::new(ErrorCode::Internal, "密钥长度错误".to_owned()));
    }
    let empty: [u8; 0] = [];
    let a: &[u8] = match aad {
        Some(a) => a,
        None => &empty,
    };
    assert(a@ == aad_bytes(aad));
    match gcm_seal(key, iv, plain, a) {
        Some(c) => Ok(c),
        None => Err(VaultError::new(ErrorCode::Internal, "加密失败".to_owned())),
    }
}

/// AES-256-GCM decryption of `ct` under `key` and nonce `iv`. A key that is not
/// 32 bytes long is an `INTERNAL` error; a tag that does not verify is `DECRYPT_FAIL`,
/// whose meaning callers decide by the vault mode.
pub fn aead_decrypt(key: &[u8], iv: &[u8], ct: &[u8], aad: Option<&[u8]>) -> (r: Result<Vec<u8>, VaultError>)
    requires
        key@.len() == 32 ==> iv@.len() == 12,
    ensures
        key@.len() != 32 ==> (r matches Err(e) && e.code == ErrorCode::Internal && e.message@ == "密钥长度错误"@),
        key@.len() == 32 ==> match r {
            Ok(p) => aes256gcm_open(key@, iv@, ct@, aad_bytes(aad)) == Some(p@),
            Err(e) => e.code == ErrorCode::DecryptFail && e.message@.len() == 0
                && aes256gcm_open(key@, iv@, ct@, aad_bytes(aad)) is None,
        },
{
    if key.len() != 32 {
        return Err(VaultError::new(ErrorCode::Internal, "密钥长度错误".to_owned()));
    }
    let empty: [u8; 0] = [];
    let a: &[u8] = match aad {
        Some(a) => a,
        None => &empty,
    };
    assert(a@ == aad_bytes(aad));
    match gcm_open(key, iv, ct, a) {
        Some(p) => Ok(p),
        None => Err(VaultError::new(ErrorCode::DecryptFail, String::new())),
    }
}

} // verus!
