//! The encrypted vault file (envelope format 1): how a vault is created,
//! unlocked and saved again.
//!
//! The envelope holds the KDF mode, the PBKDF2 rounds, a salt, a nonce and the
//! AES-256-GCM ciphertext of the vault's JSON, each binary field in Base64. In
//! keychain mode the key is random and kept in the system keychain, and the salt
//! is bound to the ciphertext as associated data; in password mode the key is
//! derived from the master password with PBKDF2-HMAC-SHA256.
use vstd::prelude::*;
use vstd::string::StringSliceAdditionalSpecFns;
use crate::config::{MODE_KEYCHAIN, MODE_PASSWORD};
use crate::crypto::{aead_decrypt, aead_encrypt, aes256gcm_open, base64_decode, b64_decode, b64_encode, derive_key, now_iso, pbkdf2_hmac_sha256, random_bytes, A_MAX, P_MAX};
use crate::error::{ErrorCode, VaultError};
use crate::hex::{from_hex, spec_from_hex, spec_to_hex, to_hex, lemma_hex_roundtrip};
use crate::text::{opt_is, opt_str, or_empty, str_eq};

verus! {

/// The envelope of a vault file, as read from its JSON: each field is present
/// only when the JSON holds a value of the expected type.
pub struct Store {
    pub app: Option<String>,
    pub format: Option<u64>,
    pub kdf: Option<String>,
    pub iterations: Option<u64>,
    pub salt: Option<String>,
    pub iv: Option<String>,
    pub data: Option<String>,
    pub updated_at: Option<String>,
}

/// The mathematical content of an envelope.
pub struct StoreView {
    pub app: Option<Seq<char>>,
    pub format: Option<u64>,
    pub kdf: Option<Seq<char>>,
    pub iterations: Option<u64>,
    pub salt: Option<Seq<char>>,
    pub iv: Option<Seq<char>>,
    pub data: Option<Seq<char>>,
    pub updated_at: Option<Seq<char>>,
}

impl View for Store {
    type V = StoreView;

    open spec fn view(&self) -> StoreView {
        StoreView {
            app: opt_str(self.app),
            format: self.format,
            kdf: opt_str(self.kdf),
            iterations: self.iterations,
            salt: opt_str(self.salt),
            iv: opt_str(self.iv),
            data: opt_str(self.data),
            updated_at: opt_str(self.updated_at),
        }
    }
}

/// What unlocking gives: the key, the decrypted vault JSON, the KDF mode and the rounds.
pub struct Opened {
    pub key: Vec<u8>,
    pub plaintext: Vec<u8>,
    pub kdf: String,
    pub iterations: u32,
}

/// The mathematical content of an unlocked envelope.
pub struct OpenedView {
    pub key: Seq<u8>,
    pub plaintext: Seq<u8>,
    pub kdf: Seq<char>,
    pub iterations: u32,
}

impl View for Opened {
    type V = OpenedView;

    open spec fn view(&self) -> OpenedView {
        OpenedView { key: self.key@, plaintext: self.plaintext@, kdf: self.kdf@, iterations: self.iterations }
    }
}

pub open spec fn nonempty(o: Option<Seq<char>>) -> bool {
    o matches Some(s) && s.len() > 0
}


/// The KDF mode of an envelope; an envelope without one is in password mode.
pub open spec fn store_kdf(s: StoreView) -> Seq<char> {
    match s.kdf {
        Some(k) => k,
        None => MODE_PASSWORD@,
    }
}

/// The associated data under which an envelope's ciphertext is sealed: the salt
/// in keychain mode, nothing otherwise.
pub open spec fn envelope_aad(kdf: Seq<char>, salt: Seq<u8>) -> Seq<u8> {
    if kdf == MODE_KEYCHAIN@ {
        salt
    } else {
        Seq::empty()
    }
}

/// The vault key that an envelope's credentials give: the keychain's key,
/// read as hexadecimal, in keychain mode; PBKDF2 of the master password otherwise.
pub open spec fn credential_key(
    kdf: Seq<char>,
    salt: Seq<u8>,
    rounds: u32,
    password: Option<Seq<u8>>,
    keychain_hex: Option<Seq<char>>,
) -> Result<Seq<u8>, (ErrorCode, Seq<char>)> {
    if kdf == MODE_KEYCHAIN@ {
        match keychain_hex {
            None => Err((ErrorCode::KeychainMissing, "系统钥匙串中没有 keyx 主密钥（密库可能来自其他机器）。请在原机器用 `keyx export --include-key` 导出后在本机 `keyx import`，或删除本密库重新录入。"@)),
            Some(h) => match spec_from_hex(h) {
                None => Err(corrupt_file()),
                Some(k) => Ok(k),
            },
        }
    } else {
        match password {
            None => Err((ErrorCode::Locked, "需要主密码"@)),
            Some(p) => Ok(pbkdf2_hmac_sha256(p, salt, rounds)),
        }
    }
}

/// The error that a failed decryption means: a wrong password in password
/// mode, a corrupt or mismatched vault otherwise.
pub open spec fn decrypt_failure(kdf: Seq<char>) -> (ErrorCode, Seq<char>) {
    if kdf == MODE_PASSWORD@ {
        (ErrorCode::WrongPassword, "主密码错误，或密文被篡改"@)
    } else {
        (ErrorCode::VaultCorrupt, "钥匙串密钥与此密库不匹配，或密文被篡改"@)
    }
}

/// The failure of an envelope whose encoding is broken.
pub open spec fn corrupt_file() -> (ErrorCode, Seq<char>) {
    (ErrorCode::VaultCorrupt, "密库文件损坏"@)
}

/// The decryption step of unlocking, once the key, nonce and ciphertext are known.
pub open spec fn open_with(
    kdf: Seq<char>,
    rounds: u32,
    salt: Seq<u8>,
    key: Seq<u8>,
    iv: Seq<u8>,
    ct: Seq<u8>,
) -> Result<OpenedView, (ErrorCode, Seq<char>)> {
    if key.len() != 32 {
        Err(decrypt_failure(kdf))
    } else if iv.len() != 12 {
        Err(corrupt_file())
    } else {
        match aes256gcm_open(key, iv, ct, envelope_aad(kdf, salt)) {
            None => Err(decrypt_failure(kdf)),
            Some(p) => Ok(OpenedView { key, plaintext: p, kdf, iterations: rounds }),
        }
    }
}

/// What unlocking an envelope gives with a master password (its UTF-8 bytes)
/// and the keychain's entry, in the order in which the format is checked.
pub open spec fn spec_unlock(
    store: Option<StoreView>,
    password: Option<Seq<u8>>,
    keychain_hex: Option<Seq<char>>,
) -> Result<OpenedView, (ErrorCode, Seq<char>)> {
    match store {
        None => Err((ErrorCode::NoVault, "还没有密码库"@)),
        Some(s) => {
            if !(s.app == Some("key-x"@) && nonempty(s.data) && nonempty(s.salt)) {
                Err((ErrorCode::VaultCorrupt, "不是有效的 Key-X 密库"@))
            } else {
                let it: int = match s.iterations {
                    Some(n) => n as int,
                    None => 0,
                };
                if it < 1 || it > u32::MAX {
                    Err((ErrorCode::VaultCorrupt, "KDF 参数非法"@))
                } else {
                    let kdf = store_kdf(s);
                    match base64_decode(s.salt->0) {
                        None => Err(corrupt_file()),
                        Some(salt) => match credential_key(kdf, salt, it as u32, password, keychain_hex) {
                            Err(e) => Err(e),
                            Ok(key) => match base64_decode(or_empty(s.iv)) {
                                None => Err(corrupt_file()),
                                Some(iv) => match base64_decode(s.data->0) {
                                    None => Err(corrupt_file()),
                                    Some(ct) => open_with(kdf, it as u32, salt, key, iv, ct),
                                },
                            },
                        },
                    }
                }
            }
        },
    }
}

/// Whether unlocking gets as far as decrypting with a 32-byte key while the
/// envelope's nonce is not 12 bytes long, which AES-GCM cannot take.
pub open spec fn nonce_misfit(store: Option<StoreView>, password: Option<Seq<u8>>, keychain_hex: Option<Seq<char>>) -> bool {
    match store {
        None => false,
        Some(s) => {
            &&& s.app == Some("key-x"@) && nonempty(s.data) && nonempty(s.salt)
            &&& s.iterations matches Some(n) && 1 <= n <= u32::MAX
            &&& base64_decode(s.salt->0) is Some
            &&& if store_kdf(s) == MODE_KEYCHAIN@ {
                keychain_hex matches Some(h) && spec_from_hex(h) matches Some(k) && k.len() == 32
            } else {
                password is Some
            }
            &&& base64_decode(or_empty(s.iv)) matches Some(iv) && iv.len() != 12
            &&& base64_decode(s.data->0) is Some
        },
    }
}

pub open spec fn bytes_of(o: Option<&str>) -> Option<Seq<u8>> {
    match o {
        Some(p) => Some(p.spec_bytes()),
        None => None,
    }
}

pub open spec fn opt_chars(o: Option<&str>) -> Option<Seq<char>> {
    match o {
        Some(p) => Some(p@),
        None => None,
    }
}

pub open spec fn result_view(r: Result<Opened, VaultError>) -> Result<OpenedView, (ErrorCode, Seq<char>)> {
    match r {
        Ok(o) => Ok(o@),
        Err(e) => Err((e.code, e.message@)),
    }
}

fn corrupt() -> (e: VaultError)
    ensures
        (e.code, e.message@) == corrupt_file(),
{
    VaultError::new(ErrorCode::VaultCorrupt, "密库文件损坏".to_owned())
}

fn nonempty_field(o: &Option<String>) -> (r: bool)
    ensures
        r == nonempty(opt_str(*o)),
{
    match o {
        Some(s) => !s.as_str().is_empty(),
        None => false,
    }
}

/// Whether unlocking an envelope needs the keychain's entry: it is in keychain mode.
pub fn store_uses_keychain(store: &Store) -> (r: bool)
    ensures
        r == (store@.kdf == Some(MODE_KEYCHAIN@)),
{
    opt_is(&store.kdf, MODE_KEYCHAIN)
}

/// Unlocks an envelope (`None` when there is no vault file) with the master
/// password and the keychain's entry (`None` where there is none), giving the key
/// and the decrypted vault JSON.
pub fn vault_unlock(store: Option<&Store>, password: Option<&str>, keychain_hex: Option<&str>) -> (r: Result<
    Opened,
    VaultError,
>)
    requires
        !nonce_misfit(
            match store { Some(s) => Some(s@), None => None },
            bytes_of(password),
            opt_chars(keychain_hex),
        ),
    ensures
        result_view(r) == spec_unlock(
            match store { Some(s) => Some(s@), None => None },
            bytes_of(password),
            opt_chars(keychain_hex),
        ),
{
    proof {
        reveal_strlit("");
    }
    let s = match store {
        None => return Err(VaultError::new(ErrorCode::NoVault, "还没有密码库".to_owned())),
        Some(s) => s,
    };
    let app_ok = opt_is(&s.app, "key-x");
    if !app_ok || !nonempty_field(&s.data) || !nonempty_field(&s.salt) {
        return Err(VaultError::new(ErrorCode::VaultCorrupt, "不是有效的 Key-X 密库".to_owned()));
    }
    let iterations: u64 = match s.iterations {
        Some(n) => n,
        None => 0,
    };
    if iterations < 1 || iterations > u32::MAX as u64 {
        return Err(VaultError::new(ErrorCode::VaultCorrupt, "KDF 参数非法".to_owned()));
    }
    let iterations = iterations as u32;
    let kdf: String = match &s.kdf {
        Some(k) => k.clone(),
        None => MODE_PASSWORD.to_owned(),
    };
    assert(kdf@ == store_kdf(s@));
    let salt_text: &str = match &s.salt {
        Some(t) => t.as_str(),
        None => "",
    };
    let salt = match b64_decode(salt_text) {
        Some(b) => b,
        None => return Err(corrupt()),
    };
    let keychain = str_eq(kdf.as_str(), MODE_KEYCHAIN);
    let key: Vec<u8>;
    if keychain {
        let hx = match keychain_hex {
            Some(h) => h,
            None => return Err(
                VaultError::new(
                    ErrorCode::KeychainMissing,
                    "系统钥匙串中没有 keyx 主密钥（密库可能来自其他机器）。请在原机器用 `keyx export --include-key` 导出后在本机 `keyx import`，或删除本密库重新录入。".to_owned(),
                ),
            ),
        };
        key = match from_hex(hx) {
            Some(k) => k,
            None => return Err(corrupt()),
        };
    } else {
        let pw = match password {
            Some(p) => p,
            None => return Err(VaultError::new(ErrorCode::Locked, "需要主密码".to_owned())),
        };
        let k = derive_key(pw.as_bytes(), salt.as_slice(), iterations);
        key = crate::text::copy_bytes(&k);
    }
    let iv_text: &str = match &s.iv {
        Some(t) => t.as_str(),
        None => "",
    };
    assert(iv_text@ =~= or_empty(s@.iv));
    let iv = match b64_decode(iv_text) {
        Some(b) => b,
        None => return Err(corrupt()),
    };
    let data_text: &str = match &s.data {
        Some(t) => t.as_str(),
        None => "",
    };
    let ct = match b64_decode(data_text) {
        Some(b) => b,
        None => return Err(corrupt()),
    };
    assert(credential_key(kdf@, salt@, iterations, bytes_of(password), opt_chars(keychain_hex)) == Ok::<Seq<u8>, (ErrorCode, Seq<char>)>(key@));
    let password_mode = str_eq(kdf.as_str(), MODE_PASSWORD);
    let aad: Option<&[u8]> = if keychain {
        Some(salt.as_slice())
    } else {
        None
    };
    assert(crate::crypto::aad_bytes(aad) == envelope_aad(kdf@, salt@));
    let plain = match aead_decrypt(key.as_slice(), iv.as_slice(), ct.as_slice(), aad) {
        Ok(p) => p,
        Err(_) => {
            if password_mode {
                return Err(VaultError::new(ErrorCode::WrongPassword, "主密码错误，或密文被篡改".to_owned()));
            } else {
                return Err(VaultError::new(ErrorCode::VaultCorrupt, "钥匙串密钥与此密库不匹配，或密文被篡改".to_owned()));
            }
        },
    };
    Ok(Opened { key, plaintext: plain, kdf, iterations })
}

/// An envelope sealed as creating or saving a vault seals it unlocks, with the
/// credentials from which its key came, to the sealed plaintext.
fn decodes(o: &Option<String>) -> (r: Option<Vec<u8>>)
    ensures
        match r {
            Some(b) => base64_decode(or_empty(opt_str(*o))) == Some(b@),
            None => base64_decode(or_empty(opt_str(*o))) is None,
        },
{
    proof {
        reveal_strlit("");
    }
    match o {
        Some(t) => {
            let r = b64_decode(t.as_str());
            assert(or_empty(opt_str(*o)) == t@);
            r
        },
        None => {
            let r = b64_decode("");
            assert(or_empty(opt_str(*o)) =~= ""@);
            r
        },
    }
}

fn nonce_misfits(store: &Store, password: Option<&str>, keychain_hex: Option<&str>) -> (b: bool)
    ensures
        b == nonce_misfit(Some(store@), bytes_of(password), opt_chars(keychain_hex)),
{
    proof {
        reveal_strlit("KEYCHAIN");
        reveal_strlit("PBKDF2-SHA256");
        assert("KEYCHAIN"@.len() != "PBKDF2-SHA256"@.len());
    }
    let s = store;
    if !(opt_is(&s.app, "key-x") && nonempty_field(&s.data) && nonempty_field(&s.salt)) {
        return false;
    }
    let it_ok = match s.iterations {
        Some(n) => 1 <= n && n <= u32::MAX as u64,
        None => false,
    };
    if !it_ok {
        return false;
    }
    assert(or_empty(s@.salt) == s@.salt->0 && or_empty(s@.data) == s@.data->0);
    if decodes(&s.salt).is_none() {
        return false;
    }
    let credentials = if opt_is(&s.kdf, MODE_KEYCHAIN) {
        match keychain_hex {
            Some(h) => match from_hex(h) {
                Some(k) => k.len() == 32,
                None => false,
            },
            None => false,
        }
    } else {
        password.is_some()
    };
    assert(credentials == if store_kdf(s@) == MODE_KEYCHAIN@ {
        keychain_hex matches Some(h) && spec_from_hex(h@) matches Some(k) && k.len() == 32
    } else {
        password is Some
    });
    if !credentials {
        return false;
    }
    let iv_short = match decodes(&s.iv) {
        Some(iv) => iv.len() != 12,
        None => false,
    };
    iv_short && decodes(&s.data).is_some()
}

/// Unlocks as `vault_unlock` does where AES-GCM can take the envelope's nonce;
/// `None` where unlocking would reach decryption with a nonce that is not 12
/// bytes long.
pub fn vault_unlock_checked(store: Option<&Store>, password: Option<&str>, keychain_hex: Option<&str>) -> (r: Option<
    Result<Opened, VaultError>,
>)
    ensures
        r is None <==> nonce_misfit(
            match store { Some(s) => Some(s@), None => None },
            bytes_of(password),
            opt_chars(keychain_hex),
        ),
        r matches Some(x) ==> result_view(x) == spec_unlock(
            match store { Some(s) => Some(s@), None => None },
            bytes_of(password),
            opt_chars(keychain_hex),
        ),
{
    let misfit = match store {
        Some(s) => nonce_misfits(s, password, keychain_hex),
        None => false,
    };
    if misfit {
        None
    } else {
        Some(vault_unlock(store, password, keychain_hex))
    }
}

pub proof fn lemma_sealed_envelope_unlocks(
    store: StoreView,
    salt: Seq<u8>,
    iv: Seq<u8>,
    ct: Seq<u8>,
    key: Seq<u8>,
    plain: Seq<u8>,
    password: Option<Seq<u8>>,
    keychain_hex: Option<Seq<char>>,
)
    requires
        store.app == Some("key-x"@),
        nonempty(store.data),
        nonempty(store.salt),
        store.iterations matches Some(n) && 1 <= n <= u32::MAX,
        base64_decode(store.salt->0) == Some(salt),
        base64_decode(or_empty(store.iv)) == Some(iv),
        base64_decode(store.data->0) == Some(ct),
        iv.len() == 12,
        key.len() == 32,
        credential_key(store_kdf(store), salt, store.iterations->0 as u32, password, keychain_hex) == Ok::<Seq<u8>, (ErrorCode, Seq<char>)>(key),
        aes256gcm_open(key, iv, ct, envelope_aad(store_kdf(store), salt)) == Some(plain),
    ensures
        spec_unlock(Some(store), password, keychain_hex) == Ok::<OpenedView, (ErrorCode, Seq<char>)>(
            OpenedView { key, plaintext: plain, kdf: store_kdf(store), iterations: store.iterations->0 as u32 },
        ),
{
}

/// The salt of an envelope, decoded.
pub open spec fn store_salt(s: StoreView) -> Seq<u8> {
    base64_decode(or_empty(s.salt))->0
}

/// Whether an envelope's nonce and ciphertext decode, the nonce is 12 bytes
/// long, and the ciphertext opens under `key` to `plain`.
pub open spec fn sealed(s: StoreView, key: Seq<u8>, plain: Seq<u8>) -> bool {
    match (base64_decode(or_empty(s.iv)), base64_decode(or_empty(s.data))) {
        (Some(iv), Some(ct)) => iv.len() == 12 && aes256gcm_open(
            key,
            iv,
            ct,
            envelope_aad(store_kdf(s), store_salt(s)),
        ) == Some(plain),
        _ => false,
    }
}

/// The PBKDF2 rounds recorded for a new vault: one in keychain mode, where the
/// key is random, the configured default otherwise.
pub open spec fn spec_create_iterations(mode: Seq<char>, default_iter: u32) -> u32 {
    if mode == MODE_KEYCHAIN@ {
        1
    } else {
        default_iter
    }
}

/// The PBKDF2 rounds recorded for a new vault of the given mode.
pub fn create_iterations(mode: &str, default_iter: u32) -> (n: u32)
    ensures
        n == spec_create_iterations(mode@, default_iter),
{
    if str_eq(mode, MODE_KEYCHAIN) {
        1
    } else {
        default_iter
    }
}

/// A new vault: its key, its envelope, and the keychain entry to store (keychain mode).
pub struct Created {
    pub key: Vec<u8>,
    pub store: Store,
    pub keychain_hex: Option<String>,
}

/// Whether a master password is acceptable for a new vault: at least 8 characters.
pub open spec fn strong_password(password: Option<&str>) -> bool {
    password matches Some(p) && p@.len() >= 8
}

fn char_count(s: &str) -> (n: usize)
    ensures
        n == s@.len(),
{
    crate::text::chars_of(s).len()
}

/// Creates a vault of the given mode around the vault JSON `plaintext`, whose
/// `meta.kdfIterations` must be `create_iterations(mode, default_iter)`.
/// `keychain_has_key` tells whether the system keychain already holds a master key.
/// In keychain mode the key is random and the caller stores `keychain_hex` in
/// the keychain; otherwise it is derived from the master password.
pub fn vault_create(
    password: Option<&str>,
    mode: &str,
    keychain_has_key: bool,
    default_iter: u32,
    plaintext: &[u8],
) -> (r: Result<Created, VaultError>)
    requires
        plaintext@.len() <= usize::MAX / 2,
    ensures
        mode@ == MODE_KEYCHAIN@ && keychain_has_key ==> (r matches Err(e) && e.code == ErrorCode::KeychainOccupied
            && e.message@ == "系统钥匙串中已有 keyx 主密钥，但没有对应的密库文件。若确认旧密库已废弃，运行 `keyx keychain-reset` 清除后再创建；否则可设置 KEYX_MODE=password 使用主密码模式。"@),
        mode@ != MODE_KEYCHAIN@ && !strong_password(password) ==> (r matches Err(e) && e.code == ErrorCode::Weak
            && e.message@ == "主密码至少 8 位"@),
        r matches Err(e) ==> (e.code == ErrorCode::Internal ==> e.message@ == "加密失败"@),
        (if mode@ == MODE_KEYCHAIN@ { !keychain_has_key } else { strong_password(password) }) ==> (
            r is Ok <==> plaintext@.len() <= P_MAX),
        r matches Err(e) ==> (e.code == ErrorCode::KeychainOccupied || e.code == ErrorCode::Weak
            || e.code == ErrorCode::Internal),
        r matches Ok(c) ==> {
            let iter = spec_create_iterations(mode@, default_iter);
            &&& c.store@.app == Some("key-x"@)
            &&& c.store@.format == Some(1u64)
            &&& c.store@.kdf == Some(mode@)
            &&& c.store@.iterations == Some(iter as u64)
            &&& c.store@.updated_at is Some
            &&& nonempty(c.store@.salt)
            &&& c.store@.iv is Some
            &&& nonempty(c.store@.data)
            &&& c.key@.len() == 32
            &&& base64_decode(c.store@.salt->0) is Some
            &&& store_salt(c.store@).len() == 16
            &&& mode@ != MODE_KEYCHAIN@ ==> c.key@ == pbkdf2_hmac_sha256(bytes_of(password)->0, store_salt(c.store@), iter)
            &&& sealed(c.store@, c.key@, plaintext@)
            &&& mode@ == MODE_KEYCHAIN@ ==> (c.keychain_hex matches Some(h) && h@ == spec_to_hex(c.key@))
            &&& mode@ != MODE_KEYCHAIN@ ==> c.keychain_hex is None
            &&& iter >= 1 ==> spec_unlock(Some(c.store@), bytes_of(password), opt_str(c.keychain_hex))
                == Ok::<OpenedView, (ErrorCode, Seq<char>)>(OpenedView { key: c.key@, plaintext: plaintext@, kdf: mode@, iterations: iter })
        },
{
    let salt = random_bytes(16);
    let keychain = str_eq(mode, MODE_KEYCHAIN);
    let iter: u32;
    let key: Vec<u8>;
    let mut keychain_hex: Option<String> = None;
    if keychain {
        if keychain_has_key {
            return Err(
                VaultError::new(
                    ErrorCode::KeychainOccupied,
                    "系统钥匙串中已有 keyx 主密钥，但没有对应的密库文件。若确认旧密库已废弃，运行 `keyx keychain-reset` 清除后再创建；否则可设置 KEYX_MODE=password 使用主密码模式。".to_owned(),
                ),
            );
        }
        key = random_bytes(32);
        keychain_hex = Some(to_hex(key.as_slice()));
        iter = 1;
    } else {
        let pw = match password {
            Some(p) => {
                if char_count(p) >= 8 {
                    p
                } else {
                    return Err(VaultError::new(ErrorCode::Weak, "主密码至少 8 位".to_owned()));
                }
            },
            None => return Err(VaultError::new(ErrorCode::Weak, "主密码至少 8 位".to_owned())),
        };
        iter = default_iter;
        let k = derive_key(pw.as_bytes(), salt.as_slice(), iter);
        key = crate::text::copy_bytes(&k);
    }
    let iv = random_bytes(12);
    let aad: Option<&[u8]> = if keychain {
        Some(salt.as_slice())
    } else {
        None
    };
    assert(crate::crypto::aad_bytes(aad) == envelope_aad(mode@, salt@));
    let blob = match aead_encrypt(key.as_slice(), iv.as_slice(), plaintext, aad) {
        Ok(b) => b,
        Err(e) => return Err(e),
    };
    let salt_text = b64_encode(salt.as_slice());
    let iv_text = b64_encode(iv.as_slice());
    let data_text = b64_encode(blob.as_slice());
    let store = Store {
        app: Some("key-x".to_owned()),
        format: Some(1),
        kdf: Some(mode.to_owned()),
        iterations: Some(iter as u64),
        salt: Some(salt_text),
        iv: Some(iv_text),
        data: Some(data_text),
        updated_at: Some(now_iso()),
    };
    proof {
        let sv = store@;
        let ghost kh = opt_str(keychain_hex);
        if keychain {
            lemma_hex_roundtrip(key@);
        }
        assert(credential_key(mode@, salt@, iter, bytes_of(password), kh) == Ok::<Seq<u8>, (ErrorCode, Seq<char>)>(key@));
        if iter >= 1 {
            lemma_sealed_envelope_unlocks(sv, salt@, iv@, blob@, key@, plaintext@, bytes_of(password), kh);
        }
    }
    Ok(Created { key, store, keychain_hex })
}

/// Whether two envelopes agree on everything but the nonce, the ciphertext and
/// the time of the last update.
pub open spec fn same_header(a: StoreView, b: StoreView) -> bool {
    &&& a.app == b.app
    &&& a.format == b.format
    &&& a.kdf == b.kdf
    &&& a.iterations == b.iterations
    &&& a.salt == b.salt
}

/// An unlocked envelope with another plaintext.
pub open spec fn with_plaintext(o: OpenedView, plain: Seq<u8>) -> OpenedView {
    OpenedView { plaintext: plain, ..o }
}

/// Re-encrypts the vault JSON `plaintext` under the vault key with a fresh
/// nonce, keeping the rest of the envelope (`None` when there is no vault file).
pub fn vault_save(store: Option<&Store>, key: &[u8], plaintext: &[u8]) -> (r: Result<Store, VaultError>)
    requires
        plaintext@.len() <= usize::MAX / 2,
    ensures
        store is None ==> (r matches Err(e) && e.code == ErrorCode::NoVault && e.message@ == "还没有密码库"@),
        store matches Some(s) ==> {
            let kc = s@.kdf == Some(MODE_KEYCHAIN@);
            if kc && base64_decode(or_empty(s@.salt)) is None {
                r matches Err(e) && (e.code, e.message@) == corrupt_file()
            } else if key@.len() != 32 {
                r matches Err(e) && e.code == ErrorCode::Internal && e.message@ == "密钥长度错误"@
            } else {
                &&& r is Ok <==> (plaintext@.len() <= P_MAX && envelope_aad(store_kdf(s@), store_salt(s@)).len() <= A_MAX)
                &&& r matches Err(e) ==> e.code == ErrorCode::Internal && e.message@ == "加密失败"@
            }
        },
        r matches Ok(n) ==> {
            &&& store matches Some(s) && same_header(s@, n@)
            &&& n@.iv is Some
            &&& nonempty(n@.data)
            &&& n@.updated_at is Some
            &&& sealed(n@, key@, plaintext@)
        },
{
    proof {
        reveal_strlit("");
        reveal_strlit("KEYCHAIN");
        reveal_strlit("PBKDF2-SHA256");
    }
    let s = match store {
        None => return Err(VaultError::new(ErrorCode::NoVault, "还没有密码库".to_owned())),
        Some(s) => s,
    };
    let iv = random_bytes(12);
    let kc = opt_is(&s.kdf, MODE_KEYCHAIN);
    let salt: Option<Vec<u8>> = if kc {
        let salt_text: &str = match &s.salt {
            Some(t) => t.as_str(),
            None => "",
        };
        assert(salt_text@ =~= or_empty(s@.salt));
        match b64_decode(salt_text) {
            Some(b) => {
                assert(store_salt(s@) == b@);
                Some(b)
            },
            None => return Err(corrupt()),
        }
    } else {
        None
    };
    let aad: Option<&[u8]> = match &salt {
        Some(b) => Some(b.as_slice()),
        None => None,
    };
    assert("KEYCHAIN"@.len() != "PBKDF2-SHA256"@.len());
    assert(kc == (store_kdf(s@) == MODE_KEYCHAIN@));
    assert(crate::crypto::aad_bytes(aad) == envelope_aad(store_kdf(s@), store_salt(s@)));
    let blob = match aead_encrypt(key, iv.as_slice(), plaintext, aad) {
        Ok(b) => b,
        Err(e) => return Err(e),
    };
    let iv_text = b64_encode(iv.as_slice());
    let data_text = b64_encode(blob.as_slice());
    let n = Store {
        app: crate::text::clone_opt(&s.app),
        format: s.format,
        kdf: crate::text::clone_opt(&s.kdf),
        iterations: s.iterations,
        salt: crate::text::clone_opt(&s.salt),
        iv: Some(iv_text),
        data: Some(data_text),
        updated_at: Some(now_iso()),
    };
    Ok(n)
}

/// Saving gives back what was saved: an envelope that unlocked to a key, saved
/// again with that key, unlocks with the same credentials to the new plaintext.
pub proof fn lemma_saved_vault_unlocks(
    old: StoreView,
    new: StoreView,
    plain: Seq<u8>,
    password: Option<Seq<u8>>,
    keychain_hex: Option<Seq<char>>,
)
    requires
        spec_unlock(Some(old), password, keychain_hex) is Ok,
        same_header(old, new),
        nonempty(new.data),
        sealed(new, spec_unlock(Some(old), password, keychain_hex)->Ok_0.key, plain),
    ensures
        spec_unlock(Some(new), password, keychain_hex) == Ok::<OpenedView, (ErrorCode, Seq<char>)>(
            with_plaintext(spec_unlock(Some(old), password, keychain_hex)->Ok_0, plain),
        ),
{
    let o = spec_unlock(Some(old), password, keychain_hex)->Ok_0;
    let salt = base64_decode(old.salt->0)->0;
    let iv = base64_decode(or_empty(new.iv))->0;
    let ct = base64_decode(or_empty(new.data))->0;
    assert(or_empty(new.data) == new.data->0);
    assert(or_empty(old.salt) == old.salt->0);
    lemma_sealed_envelope_unlocks(new, salt, iv, ct, o.key, plain, password, keychain_hex);
}

/// The mode asked for when a vault is created: the request's, else `KEYX_MODE`, else `auto`.
pub open spec fn requested_mode(body_mode: Option<Seq<char>>, env_mode: Option<Seq<char>>) -> Seq<char> {
    match body_mode {
        Some(m) => m,
        None => match env_mode {
            Some(e) => e,
            None => "auto"@,
        },
    }
}

/// The short names `keychain` and `password` stand for the two KDF modes.
pub open spec fn normalized_mode(m: Seq<char>) -> Seq<char> {
    if m == "keychain"@ {
        MODE_KEYCHAIN@
    } else if m == "password"@ {
        MODE_PASSWORD@
    } else {
        m
    }
}

/// The mode in which a vault is created: `auto` takes the keychain where there
/// is one and the master password otherwise; asking for the keychain where there
/// is none is `NO_KEYRING`.
pub open spec fn spec_create_mode(
    body_mode: Option<Seq<char>>,
    env_mode: Option<Seq<char>>,
    keychain_ok: bool,
) -> Result<Seq<char>, ErrorCode> {
    let m = normalized_mode(requested_mode(body_mode, env_mode));
    if m == "auto"@ {
        Ok(if keychain_ok { MODE_KEYCHAIN@ } else { MODE_PASSWORD@ })
    } else if m == MODE_KEYCHAIN@ && !keychain_ok {
        Err(ErrorCode::NoKeyring)
    } else {
        Ok(m)
    }
}

/// The mode in which to create a vault, from the request's `mode`, the value of
/// `KEYX_MODE` and whether a system keychain is usable.
pub fn resolve_create_mode(body_mode: Option<&str>, env_mode: Option<&str>, keychain_ok: bool) -> (r: Result<
    String,
    VaultError,
>)
    ensures
        match r {
            Ok(m) => spec_create_mode(opt_chars(body_mode), opt_chars(env_mode), keychain_ok) == Ok::<
                Seq<char>,
                ErrorCode,
            >(m@),
            Err(e) => spec_create_mode(opt_chars(body_mode), opt_chars(env_mode), keychain_ok) == Err::<
                Seq<char>,
                ErrorCode,
            >(e.code) && e.message@ == "当前环境没有可用的系统钥匙串（服务器/SSH？）。请设置 KEYX_MODE=password 使用主密码模式。"@,
        },
{
    let requested: &str = match body_mode {
        Some(m) => m,
        None => match env_mode {
            Some(e) => e,
            None => "auto",
        },
    };
    let mode: &str = if str_eq(requested, "keychain") {
        MODE_KEYCHAIN
    } else if str_eq(requested, "password") {
        MODE_PASSWORD
    } else {
        requested
    };
    if str_eq(mode, "auto") {
        return Ok(if keychain_ok { MODE_KEYCHAIN.to_owned() } else { MODE_PASSWORD.to_owned() });
    }
    if str_eq(mode, MODE_KEYCHAIN) && !keychain_ok {
        return Err(
            VaultError::new(
                ErrorCode::NoKeyring,
                "当前环境没有可用的系统钥匙串（服务器/SSH？）。请设置 KEYX_MODE=password 使用主密码模式。".to_owned(),
            ),
        );
    }
    Ok(mode.to_owned())
}

} // verus!
