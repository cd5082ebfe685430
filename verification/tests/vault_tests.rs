use keyx::config::{MODE_KEYCHAIN, MODE_PASSWORD};
use keyx::crypto::{aead_decrypt, aead_encrypt, derive_key, random_bytes};
use keyx::entries::{check_unlocked_data, new_vault_data, Field, Meta, VaultData};
use keyx::error::{status_for, ErrorCode, VaultError};
use keyx::hex::{from_hex, to_hex};
use keyx::vault::{
    create_iterations, resolve_create_mode, store_uses_keychain, vault_create, vault_save, vault_unlock,
    vault_unlock_checked, Store,
};

const PLAIN: &[u8] = br#"{"entries":[],"meta":{"createdAt":"2026-01-01T00:00:00.000000+00:00","kdfIterations":1000}}"#;

fn password_vault() -> keyx::vault::Created {
    match vault_create(Some("test-master-2026!"), MODE_PASSWORD, false, 1000, PLAIN) {
        Ok(c) => c,
        Err(e) => panic!("create failed: {:?}", e.code),
    }
}

fn copy_store(s: &Store) -> Store {
    Store {
        app: s.app.clone(),
        format: s.format,
        kdf: s.kdf.clone(),
        iterations: s.iterations,
        salt: s.salt.clone(),
        iv: s.iv.clone(),
        data: s.data.clone(),
        updated_at: s.updated_at.clone(),
    }
}

#[test]
fn hex_encodes_lower_case_pairs() {
    assert_eq!(to_hex(&[0x00, 0x0f, 0xab, 0xff]), "000fabff");
    assert_eq!(to_hex(&[]), "");
}

#[test]
fn hex_decodes_and_rejects() {
    assert_eq!(from_hex("000fABff"), Some(vec![0x00, 0x0f, 0xab, 0xff]));
    assert_eq!(from_hex(""), Some(vec![]));
    assert_eq!(from_hex("abc"), None);
    assert_eq!(from_hex("zz"), None);
    assert_eq!(from_hex("é1"), None);
}

#[test]
fn hex_round_trip() {
    let b = random_bytes(32);
    assert_eq!(b.len(), 32);
    assert_eq!(from_hex(&to_hex(&b)), Some(b));
}

#[test]
fn random_bytes_have_requested_length() {
    assert_eq!(random_bytes(0).len(), 0);
    assert_eq!(random_bytes(16).len(), 16);
}

#[test]
fn pbkdf2_known_vector() {
    let k = derive_key(b"password", b"salt", 1);
    assert_eq!(to_hex(&k), "120fb6cffcf8b32c43e7225256c4f837a86548c92ccc35480805987cb70be17b");
    let k2 = derive_key(b"password", b"salt", 2);
    assert_eq!(to_hex(&k2), "ae4d0c95af6b46d32d0adff928f06dd02a303f8ef3c251dfd6e2d85a95474c43");
}

#[test]
fn aead_round_trip_and_tamper() {
    let key = [7u8; 32];
    let iv = [1u8; 12];
    let ct = match aead_encrypt(&key, &iv, b"hello", Some(b"salt")) {
        Ok(c) => c,
        Err(_) => panic!("encrypt failed"),
    };
    assert_eq!(ct.len(), 5 + 16);
    assert_ne!(&ct[..5], b"hello");
    match aead_decrypt(&key, &iv, &ct, Some(b"salt")) {
        Ok(p) => assert_eq!(p, b"hello".to_vec()),
        Err(_) => panic!("decrypt failed"),
    }
    match aead_decrypt(&key, &iv, &ct, None) {
        Ok(_) => panic!("wrong associated data accepted"),
        Err(e) => assert!(e.code == ErrorCode::DecryptFail),
    }
    let mut bad = ct.clone();
    bad[0] ^= 1;
    match aead_decrypt(&key, &iv, &bad, Some(b"salt")) {
        Ok(_) => panic!("tampered ciphertext accepted"),
        Err(e) => assert!(e.code == ErrorCode::DecryptFail),
    }
}

#[test]
fn aead_rejects_short_key() {
    match aead_encrypt(&[1u8; 16], &[0u8; 12], b"x", None) {
        Ok(_) => panic!("short key accepted"),
        Err(e) => assert!(e.code == ErrorCode::Internal),
    }
    match aead_decrypt(&[1u8; 16], &[0u8; 12], b"x", None) {
        Ok(_) => panic!("short key accepted"),
        Err(e) => assert!(e.code == ErrorCode::Internal),
    }
}

#[test]
fn password_vault_unlocks_with_its_password() {
    let c = password_vault();
    assert_eq!(c.store.app.as_deref(), Some("key-x"));
    assert_eq!(c.store.format, Some(1));
    assert_eq!(c.store.kdf.as_deref(), Some(MODE_PASSWORD));
    assert_eq!(c.store.iterations, Some(1000));
    assert!(c.keychain_hex.is_none());
    assert!(!c.store.salt.clone().unwrap().is_empty());
    assert!(c.store.iv.is_some());
    let data = c.store.data.clone().unwrap();
    assert!(!data.contains("entries"));
    let opened = match vault_unlock(Some(&c.store), Some("test-master-2026!"), None) {
        Ok(o) => o,
        Err(e) => panic!("unlock failed: {:?}", e.code),
    };
    assert_eq!(opened.plaintext, PLAIN.to_vec());
    assert_eq!(opened.key, c.key);
    assert_eq!(opened.kdf, MODE_PASSWORD);
    assert_eq!(opened.iterations, 1000);
}

#[test]
fn password_vault_key_is_pbkdf2_of_salt() {
    let c = password_vault();
    let salt = c.store.salt.clone().unwrap();
    // 16 bytes of salt take 24 Base64 characters.
    assert_eq!(salt.len(), 24);
    assert!(salt.ends_with("=="));
    assert_eq!(c.store.iv.clone().unwrap().len(), 16);
    assert_eq!(c.key.len(), 32);
}

#[test]
fn wrong_password_is_refused() {
    let c = password_vault();
    match vault_unlock(Some(&c.store), Some("wrong-password"), None) {
        Ok(_) => panic!("wrong password accepted"),
        Err(e) => {
            assert!(e.code == ErrorCode::WrongPassword);
            assert_eq!(status_for(e.code), 401);
        }
    }
}

#[test]
fn locked_without_password() {
    let c = password_vault();
    match vault_unlock(Some(&c.store), None, None) {
        Ok(_) => panic!("unlocked without password"),
        Err(e) => {
            assert!(e.code == ErrorCode::Locked);
            assert_eq!(status_for(e.code), 423);
        }
    }
}

#[test]
fn no_vault_and_foreign_files() {
    match vault_unlock(None, Some("x"), None) {
        Ok(_) => panic!("no vault"),
        Err(e) => {
            assert!(e.code == ErrorCode::NoVault);
            assert_eq!(status_for(e.code), 404);
        }
    }
    let mut s = copy_store(&password_vault().store);
    s.app = Some("other".to_owned());
    match vault_unlock(Some(&s), Some("test-master-2026!"), None) {
        Ok(_) => panic!("foreign file accepted"),
        Err(e) => {
            assert!(e.code == ErrorCode::VaultCorrupt);
            assert_eq!(status_for(e.code), 422);
        }
    }
    let mut s = copy_store(&password_vault().store);
    s.salt = Some(String::new());
    match vault_unlock(Some(&s), Some("test-master-2026!"), None) {
        Ok(_) => panic!("empty salt accepted"),
        Err(e) => assert!(e.code == ErrorCode::VaultCorrupt),
    }
}

#[test]
fn bad_iterations_are_corrupt() {
    for it in [None, Some(0u64), Some(u32::MAX as u64 + 1)] {
        let mut s = copy_store(&password_vault().store);
        s.iterations = it;
        match vault_unlock(Some(&s), Some("test-master-2026!"), None) {
            Ok(_) => panic!("bad iterations accepted"),
            Err(e) => assert!(e.code == ErrorCode::VaultCorrupt),
        }
    }
}

#[test]
fn tampered_iterations_fail_to_open() {
    // Lowering the rounds gives another key: the password no longer opens it.
    let mut s = copy_store(&password_vault().store);
    s.iterations = Some(1);
    match vault_unlock(Some(&s), Some("test-master-2026!"), None) {
        Ok(_) => panic!("tampered rounds accepted"),
        Err(e) => assert!(e.code == ErrorCode::WrongPassword),
    }
}

#[test]
fn broken_base64_is_corrupt() {
    let mut s = copy_store(&password_vault().store);
    s.data = Some("***".to_owned());
    match vault_unlock(Some(&s), Some("test-master-2026!"), None) {
        Ok(_) => panic!("broken data accepted"),
        Err(e) => assert!(e.code == ErrorCode::VaultCorrupt),
    }
}

#[test]
fn weak_master_password() {
    match vault_create(Some("short"), MODE_PASSWORD, false, 1000, PLAIN) {
        Ok(_) => panic!("weak password accepted"),
        Err(e) => {
            assert!(e.code == ErrorCode::Weak);
            assert_eq!(status_for(e.code), 400);
        }
    }
    match vault_create(None, MODE_PASSWORD, false, 1000, PLAIN) {
        Ok(_) => panic!("missing password accepted"),
        Err(e) => assert!(e.code == ErrorCode::Weak),
    }
    // Eight characters, counted as characters, not bytes.
    assert!(vault_create(Some("密码密码密码密码"), MODE_PASSWORD, false, 1000, PLAIN).is_ok());
}

#[test]
fn keychain_vault_round_trip() {
    let c = match vault_create(None, MODE_KEYCHAIN, false, 600_000, PLAIN) {
        Ok(c) => c,
        Err(e) => panic!("create failed: {:?}", e.code),
    };
    assert_eq!(c.store.iterations, Some(1));
    assert!(store_uses_keychain(&c.store));
    let hex = c.keychain_hex.clone().unwrap();
    assert_eq!(hex, to_hex(&c.key));
    let opened = match vault_unlock(Some(&c.store), None, Some(&hex)) {
        Ok(o) => o,
        Err(e) => panic!("unlock failed: {:?}", e.code),
    };
    assert_eq!(opened.plaintext, PLAIN.to_vec());
    assert_eq!(opened.kdf, MODE_KEYCHAIN);
    match vault_unlock(Some(&c.store), None, None) {
        Ok(_) => panic!("unlocked without keychain"),
        Err(e) => {
            assert!(e.code == ErrorCode::KeychainMissing);
            assert_eq!(status_for(e.code), 423);
        }
    }
    match vault_unlock(Some(&c.store), None, Some(&to_hex(&[9u8; 32]))) {
        Ok(_) => panic!("foreign key accepted"),
        Err(e) => assert!(e.code == ErrorCode::VaultCorrupt),
    }
    match vault_unlock(Some(&c.store), None, Some("not hex")) {
        Ok(_) => panic!("bad hex accepted"),
        Err(e) => assert!(e.code == ErrorCode::VaultCorrupt),
    }
}

#[test]
fn keychain_salt_is_bound_to_ciphertext() {
    let c = vault_create(None, MODE_KEYCHAIN, false, 1000, PLAIN).ok().unwrap();
    let hex = c.keychain_hex.clone().unwrap();
    let other = vault_create(None, MODE_KEYCHAIN, false, 1000, PLAIN).ok().unwrap();
    let mut s = copy_store(&c.store);
    s.salt = other.store.salt.clone();
    match vault_unlock(Some(&s), None, Some(&hex)) {
        Ok(_) => panic!("swapped salt accepted"),
        Err(e) => assert!(e.code == ErrorCode::VaultCorrupt),
    }
}

#[test]
fn occupied_keychain() {
    match vault_create(None, MODE_KEYCHAIN, true, 1000, PLAIN) {
        Ok(_) => panic!("occupied keychain accepted"),
        Err(e) => {
            assert!(e.code == ErrorCode::KeychainOccupied);
            assert_eq!(status_for(e.code), 409);
        }
    }
}

#[test]
fn saved_vault_unlocks_to_new_content() {
    let c = password_vault();
    let newer = br#"{"entries":[{"id":"kx_00000001"}],"meta":{"kdfIterations":1000}}"#;
    let s2 = match vault_save(Some(&c.store), &c.key, newer) {
        Ok(s) => s,
        Err(e) => panic!("save failed: {:?}", e.code),
    };
    assert_eq!(s2.salt, c.store.salt);
    assert_eq!(s2.iterations, c.store.iterations);
    assert_ne!(s2.iv, c.store.iv);
    let o = vault_unlock(Some(&s2), Some("test-master-2026!"), None).ok().unwrap();
    assert_eq!(o.plaintext, newer.to_vec());
    assert_eq!(o.key, c.key);
}

#[test]
fn saved_keychain_vault_unlocks() {
    let c = vault_create(None, MODE_KEYCHAIN, false, 1000, PLAIN).ok().unwrap();
    let hex = c.keychain_hex.clone().unwrap();
    let s2 = vault_save(Some(&c.store), &c.key, b"{}").ok().unwrap();
    let o = vault_unlock(Some(&s2), None, Some(&hex)).ok().unwrap();
    assert_eq!(o.plaintext, b"{}".to_vec());
}

#[test]
fn save_errors() {
    match vault_save(None, &[0u8; 32], b"{}") {
        Ok(_) => panic!("saved without vault"),
        Err(e) => assert!(e.code == ErrorCode::NoVault),
    }
    let c = password_vault();
    match vault_save(Some(&c.store), &[0u8; 5], b"{}") {
        Ok(_) => panic!("short key accepted"),
        Err(e) => assert!(e.code == ErrorCode::Internal),
    }
    let kc = vault_create(None, MODE_KEYCHAIN, false, 1000, PLAIN).ok().unwrap();
    let mut s = copy_store(&kc.store);
    s.salt = Some("%%".to_owned());
    match vault_save(Some(&s), &kc.key, b"{}") {
        Ok(_) => panic!("broken salt accepted"),
        Err(e) => assert!(e.code == ErrorCode::VaultCorrupt),
    }
}

#[test]
fn create_mode_resolution() {
    let m = |b: Option<&str>, e: Option<&str>, ok: bool| -> Result<String, ErrorCode> {
        match resolve_create_mode(b, e, ok) {
            Ok(s) => Ok(s),
            Err(err) => Err(err.code),
        }
    };
    assert_eq!(m(None, None, true), Ok(MODE_KEYCHAIN.to_owned()));
    assert_eq!(m(None, None, false), Ok(MODE_PASSWORD.to_owned()));
    assert_eq!(m(Some("password"), None, true), Ok(MODE_PASSWORD.to_owned()));
    assert_eq!(m(None, Some("password"), true), Ok(MODE_PASSWORD.to_owned()));
    assert_eq!(m(Some("keychain"), Some("password"), true), Ok(MODE_KEYCHAIN.to_owned()));
    assert!(m(Some("keychain"), None, false) == Err(ErrorCode::NoKeyring));
    assert!(m(None, Some("KEYCHAIN"), false) == Err(ErrorCode::NoKeyring));
    assert_eq!(m(Some("auto"), None, false), Ok(MODE_PASSWORD.to_owned()));
    assert_eq!(m(Some("other"), None, false), Ok("other".to_owned()));
}

#[test]
fn create_iterations_by_mode() {
    assert_eq!(create_iterations(MODE_KEYCHAIN, 600_000), 1);
    assert_eq!(create_iterations(MODE_PASSWORD, 600_000), 600_000);
}

#[test]
fn unlocked_data_must_match_rounds() {
    let d = new_vault_data("2026-01-01".to_owned(), 1000);
    assert!(d.entries.is_empty());
    assert_eq!(d.meta.kdf_iterations, Some(1000));
    assert!(check_unlocked_data(Some(d), 1000).is_ok());
    let d = new_vault_data("2026-01-01".to_owned(), 1000);
    match check_unlocked_data(Some(d), 1) {
        Ok(_) => panic!("mismatched rounds accepted"),
        Err(e) => assert!(e.code == ErrorCode::VaultCorrupt),
    }
    let d = VaultData {
        entries: vec![],
        meta: Meta { created_at: Field::Absent, kdf_iterations: None, extra: String::new() },
        extra: String::new(),
    };
    assert!(check_unlocked_data(Some(d), 1).is_err());
    match check_unlocked_data(None, 1) {
        Ok(_) => panic!("missing entries accepted"),
        Err(e) => assert!(e.code == ErrorCode::VaultCorrupt),
    }
}

#[test]
fn status_codes() {
    assert_eq!(status_for(ErrorCode::Exists), 409);
    assert_eq!(status_for(ErrorCode::NameExists), 409);
    assert_eq!(status_for(ErrorCode::NotFound), 404);
    assert_eq!(status_for(ErrorCode::BadRequest), 400);
    assert_eq!(status_for(ErrorCode::PeekNoGui), 400);
    assert_eq!(status_for(ErrorCode::Internal), 400);
    assert_eq!(ErrorCode::VaultCorrupt.as_str(), "VAULT_CORRUPT");
    assert_eq!(ErrorCode::NoKeyring.as_str(), "NO_KEYRING");
    let e = VaultError::new(ErrorCode::Locked, "需要主密码".to_owned());
    assert_eq!(e.display_text(), "需要主密码");
    let e = VaultError::new(ErrorCode::Io, "x".to_owned());
    assert_eq!(e.code.as_str(), "IO");
    assert_eq!(e.message, "x");
}

#[test]
fn nonce_of_wrong_length_is_caught() {
    let c = password_vault();
    let mut s = copy_store(&c.store);
    // Eight bytes of nonce in Base64.
    s.iv = Some("AAAAAAAAAAA=".to_owned());
    assert!(vault_unlock_checked(Some(&s), Some("test-master-2026!"), None).is_none());
    // Without a password unlocking stops before the nonce matters.
    match vault_unlock_checked(Some(&s), None, None) {
        Some(Err(e)) => assert!(e.code == ErrorCode::Locked),
        _ => panic!("expected LOCKED"),
    }
    match vault_unlock_checked(Some(&c.store), Some("test-master-2026!"), None) {
        Some(Ok(o)) => assert_eq!(o.plaintext, PLAIN.to_vec()),
        _ => panic!("a good vault did not unlock"),
    }
    assert!(matches!(vault_unlock_checked(None, None, None), Some(Err(_))));
}
