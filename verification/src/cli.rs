//! The decisions of the command line around the daemon: how to get it
//! unlocked, whether it is up, and what import and export do with the key.
use vstd::prelude::*;
use crate::config::MODE_KEYCHAIN;
use crate::text::{opt_str, opt_str_ref, str_eq};

verus! {

/// What the command line does to get an unlocked daemon.
#[derive(Debug, Clone, Copy, PartialEq, Eq, Structural)]
pub enum UnlockPlan {
    /// Already unlocked.
    Ready,
    /// No vault yet: create one, in keychain mode first.
    Create,
    /// Unlock from the system keychain.
    UnlockKeychain,
    /// Ask for the master password and unlock with it.
    UnlockPassword,
}

/// The way to an unlocked daemon, from its status and whether the vault file exists.
pub open spec fn spec_unlock_plan(unlocked: bool, vault_exists: bool, mode: Option<Seq<char>>) -> UnlockPlan {
    if unlocked {
        UnlockPlan::Ready
    } else if !vault_exists {
        UnlockPlan::Create
    } else if mode == Some("keychain"@) {
        UnlockPlan::UnlockKeychain
    } else {
        UnlockPlan::UnlockPassword
    }
}

/// The way to an unlocked daemon, from its status and whether the vault file exists.
pub fn unlock_plan(unlocked: bool, vault_exists: bool, mode: Option<&str>) -> (p: UnlockPlan)
    ensures
        p == spec_unlock_plan(unlocked, vault_exists, opt_str_ref(mode)),
{
    if unlocked {
        UnlockPlan::Ready
    } else if !vault_exists {
        UnlockPlan::Create
    } else {
        match mode {
            Some(m) => if str_eq(m, "keychain") {
                UnlockPlan::UnlockKeychain
            } else {
                UnlockPlan::UnlockPassword
            },
            None => UnlockPlan::UnlockPassword,
        }
    }
}

/// Whether a failed keychain-mode creation falls back to a master password:
/// only when there is no keychain (`NO_KEYRING`).
pub fn create_falls_back(error: Option<&str>) -> (r: bool)
    ensures
        r == (opt_str_ref(error) == Some("NO_KEYRING"@)),
{
    match error {
        Some(e) => str_eq(e, "NO_KEYRING"),
        None => false,
    }
}

/// Whether a new master password is long enough: at least 8 characters.
pub fn master_password_long_enough(pw: &str) -> (r: bool)
    ensures
        r == (pw@.len() >= 8),
{
    crate::text::chars_of(pw).len() >= 8
}

/// What probing the daemon's status found.
#[derive(Debug, Clone, Copy, PartialEq, Eq, Structural)]
pub enum Probe {
    /// Something answers: the daemon is up.
    Up,
    /// A daemon answers but refuses this client's token.
    Mismatch,
    /// Nothing answers.
    Down,
}

/// Reads the answer to a status probe (`0` when no connection was made): any
/// HTTP answer means a daemon is up, except 403, a daemon of another vault.
pub fn probe_result(status: u16) -> (p: Probe)
    ensures
        p == (if status == 0 { Probe::Down } else if status == 403 { Probe::Mismatch } else { Probe::Up }),
{
    if status == 0 {
        Probe::Down
    } else if status == 403 {
        Probe::Mismatch
    } else {
        Probe::Up
    }
}

/// Whether the keychain may be used: not when `KEYX_MODE` asks for the master password.
pub fn keychain_allowed(mode_env: Option<&str>) -> (r: bool)
    ensures
        r == (opt_str_ref(mode_env) != Some("password"@)),
{
    match mode_env {
        Some(m) => !str_eq(m, "password"),
        None => true,
    }
}

/// The new password of a rotation: the one typed, else `KEYX_SECRET`; none when both are empty.
pub fn rotate_password(typed: Option<&str>, env_secret: Option<&str>) -> (r: Option<String>)
    ensures
        match r {
            Some(p) => p@.len() > 0 && p@ == (if typed matches Some(t) && t@.len() > 0 { typed->0@ } else { env_secret->0@ }),
            None => !(typed matches Some(t) && t@.len() > 0) && !(env_secret matches Some(e) && e@.len() > 0),
        },
{
    match typed {
        Some(t) => if !t.is_empty() {
            return Some(t.to_owned());
        },
        None => {},
    }
    match env_secret {
        Some(e) => if !e.is_empty() {
            Some(e.to_owned())
        } else {
            None
        },
        None => None,
    }
}

/// What importing a backup does with a master key that it carries.
pub struct ImportPlan {
    /// The key to write to the system keychain.
    pub keychain_key: Option<String>,
    /// Whether to drop the key from the vault file written.
    pub strip_key: bool,
    /// What to tell the person.
    pub note: String,
}

/// The note of an import: whether the key went to the keychain, could not, or
/// was not in the backup.
pub open spec fn spec_import_note(kdf: Option<Seq<char>>, has_key: bool, keychain_ok: bool) -> Seq<char> {
    if kdf == Some(MODE_KEYCHAIN@) && has_key {
        if keychain_ok {
            "主密钥已写入本机钥匙串，导入后可直接使用。"@
        } else {
            "警告：本机没有可用钥匙串，钥匙串模式密库将无法解锁。"@
        }
    } else if kdf == Some(MODE_KEYCHAIN@) {
        "注意：该备份为钥匙串模式且未包含主密钥，导入后本机可能无法解锁（需要原机器的钥匙串）。"@
    } else {
        Seq::empty()
    }
}

/// What to do with a backup's master key on import: a keychain-mode backup
/// that carries one has it written to the keychain (where there is one), and
/// never kept in the vault file.
pub fn import_plan(kdf: Option<&str>, key: Option<&str>, keychain_ok: bool) -> (p: ImportPlan)
    ensures
        ({
            let has_key = key matches Some(k) && k@.len() > 0;
            let kc = opt_str_ref(kdf) == Some(MODE_KEYCHAIN@);
            &&& p.strip_key == (kc && has_key)
            &&& opt_str(p.keychain_key) == (if kc && has_key && keychain_ok { opt_str_ref(key) } else { None })
            &&& p.note@ == spec_import_note(opt_str_ref(kdf), has_key, keychain_ok)
        }),
{
    let has_key = match key {
        Some(k) => !k.is_empty(),
        None => false,
    };
    let kc = match kdf {
        Some(k) => str_eq(k, MODE_KEYCHAIN),
        None => false,
    };
    if kc && has_key {
        if keychain_ok {
            ImportPlan {
                keychain_key: Some(key.unwrap().to_owned()),
                strip_key: true,
                note: "主密钥已写入本机钥匙串，导入后可直接使用。".to_owned(),
            }
        } else {
            ImportPlan { keychain_key: None, strip_key: true, note: "警告：本机没有可用钥匙串，钥匙串模式密库将无法解锁。".to_owned() }
        }
    } else if kc {
        ImportPlan {
            keychain_key: None,
            strip_key: false,
            note: "注意：该备份为钥匙串模式且未包含主密钥，导入后本机可能无法解锁（需要原机器的钥匙串）。".to_owned(),
        }
    } else {
        ImportPlan { keychain_key: None, strip_key: false, note: String::new() }
    }
}

/// What an export asked to include the master key does.
pub enum ExportKey {
    /// Attach the keychain's key to the backup.
    Attach(String),
    /// Keychain mode, but the keychain holds no key.
    Missing,
    /// Password mode: the backup needs no key.
    NotNeeded,
}

/// What an export with `--include-key` does: in keychain mode, attach the
/// keychain's key where there is one.
pub fn export_key_plan(kdf: Option<&str>, keychain_hex: Option<&str>) -> (p: ExportKey)
    ensures
        opt_str_ref(kdf) == Some(MODE_KEYCHAIN@) ==> match keychain_hex {
            Some(h) => p matches ExportKey::Attach(k) && k@ == h@,
            None => p is Missing,
        },
        opt_str_ref(kdf) != Some(MODE_KEYCHAIN@) ==> p is NotNeeded,
{
    let kc = match kdf {
        Some(k) => str_eq(k, MODE_KEYCHAIN),
        None => false,
    };
    if kc {
        match keychain_hex {
            Some(h) => ExportKey::Attach(h.to_owned()),
            None => ExportKey::Missing,
        }
    } else {
        ExportKey::NotNeeded
    }
}

/// Whether an answer to a yes/no question is yes: `y` or `Y`, white space
/// around it ignored.
pub fn answer_is_yes(answer: &str) -> (r: bool)
    ensures
        r == (crate::text::spec_trim(answer@) == "y"@ || crate::text::spec_trim(answer@) == "Y"@),
{
    let t = crate::text::trim(answer);
    str_eq(t.as_str(), "y") || str_eq(t.as_str(), "Y")
}

/// What `keyx run` does when the daemon refuses to resolve.
#[derive(Debug, Clone, Copy, PartialEq, Eq, Structural)]
pub enum RunAction {
    /// The project is not trusted yet: ask, trust, and resolve again.
    AskTrust,
    /// The daemon is locked: unlock, and resolve again.
    Unlock,
    /// Report the error and stop.
    Fail,
}

/// The reaction to a refused resolution, from its HTTP status and error code:
/// `NEED_TRUST` with 403 asks for trust, 423 unlocks, anything else fails.
pub fn resolve_reaction(status: u16, error: Option<&str>) -> (a: RunAction)
    ensures
        a == (if status == 403 && opt_str_ref(error) == Some("NEED_TRUST"@) {
            RunAction::AskTrust
        } else if status == 423 {
            RunAction::Unlock
        } else {
            RunAction::Fail
        }),
{
    let need_trust = match error {
        Some(e) => str_eq(e, "NEED_TRUST"),
        None => false,
    };
    if status == 403 && need_trust {
        RunAction::AskTrust
    } else if status == 423 {
        RunAction::Unlock
    } else {
        RunAction::Fail
    }
}

/// Whether `keyx peek` falls back to a confirmation at the terminal: the daemon
/// had no dialog to confirm with (`PEEK_NO_GUI`) and a person sits at a
/// terminal. Without one (an agent or a script) the refusal stands.
pub fn confirm_at_terminal(error: Option<&str>, is_tty: bool) -> (r: bool)
    ensures
        r == (opt_str_ref(error) == Some("PEEK_NO_GUI"@) && is_tty),
{
    let no_gui = match error {
        Some(e) => str_eq(e, "PEEK_NO_GUI"),
        None => false,
    };
    no_gui && is_tty
}

} // verus!
