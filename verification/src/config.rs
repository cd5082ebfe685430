//! Where the vault lives and how the daemon is tuned: paths under the Key-X
//! home, and the settings read from the environment.
use vstd::prelude::*;
use crate::num::{parse_u16, parse_u32, parse_u64, spec_parse_bounded};
use crate::text::push_char;

verus! {

pub const VERSION: &'static str = "1.3.0";
pub const MODE_KEYCHAIN: &'static str = "KEYCHAIN";
pub const MODE_PASSWORD: &'static str = "PBKDF2-SHA256";
pub const KEYCHAIN_SERVICE: &'static str = "keyx";
pub const DEFAULT_ITER: u32 = 600_000;
pub const DEFAULT_LOCK_MIN: u64 = 30;
pub const DEFAULT_PORT: u16 = 7361;

/// A path with a relative component appended, as `PathBuf::join` does on Unix:
/// a `/` goes between them unless the base is empty or already ends in `/`.
pub open spec fn path_join(dir: Seq<char>, name: Seq<char>) -> Seq<char> {
    if dir.len() == 0 || dir.last() == '/' {
        dir + name
    } else {
        dir.push('/') + name
    }
}

/// Appends a relative path component to a directory path.
pub fn join(dir: &str, name: &str) -> (p: String)
    ensures
        p@ == path_join(dir@, name@),
{
    let mut p = String::new();
    p.append(dir);
    let cs = crate::text::chars_of(dir);
    if cs.len() > 0 && cs[cs.len() - 1] != '/' {
        push_char(&mut p, '/');
    }
    p.append(name);
    assert(Seq::<char>::empty() + dir@ =~= dir@);
    p
}

/// The Key-X home: `KEYX_HOME` when it is set, else `.keyx` under the user's
/// home directory, else `.keyx` under the current directory.
pub open spec fn spec_home_dir(keyx_home: Option<Seq<char>>, user_home: Option<Seq<char>>) -> Seq<char> {
    match keyx_home {
        Some(h) => h,
        None => match user_home {
            Some(u) => path_join(u, ".keyx"@),
            None => path_join("."@, ".keyx"@),
        },
    }
}

/// The Key-X home, from the value of `KEYX_HOME` and the user's home directory.
pub fn home_dir(keyx_home: Option<&str>, user_home: Option<&str>) -> (p: String)
    ensures
        p@ == spec_home_dir(
            match keyx_home { Some(h) => Some(h@), None => None },
            match user_home { Some(u) => Some(u@), None => None },
        ),
{
    match keyx_home {
        Some(h) => h.to_owned(),
        None => match user_home {
            Some(u) => join(u, ".keyx"),
            None => join(".", ".keyx"),
        },
    }
}

/// The encrypted vault file.
pub fn vault_file(home: &str) -> (p: String)
    ensures
        p@ == path_join(home@, "vault.json"@),
{
    join(home, "vault.json")
}

/// The list of trusted projects.
pub fn trust_file(home: &str) -> (p: String)
    ensures
        p@ == path_join(home@, "trust.json"@),
{
    join(home, "trust.json")
}

/// The append-only audit log.
pub fn audit_file(home: &str) -> (p: String)
    ensures
        p@ == path_join(home@, "audit.log"@),
{
    join(home, "audit.log")
}

/// The token that clients present to the daemon.
pub fn client_file(home: &str) -> (p: String)
    ensures
        p@ == path_join(home@, "client.token"@),
{
    join(home, "client.token")
}

/// The daemon's process id.
pub fn pid_file(home: &str) -> (p: String)
    ensures
        p@ == path_join(home@, "daemon.pid"@),
{
    join(home, "daemon.pid")
}

/// The daemon's output when the command line starts it.
pub fn daemon_log(home: &str) -> (p: String)
    ensures
        p@ == path_join(home@, "daemon.log"@),
{
    join(home, "daemon.log")
}

/// A setting read from the environment: its parsed value when the variable is
/// set and parses, the default otherwise.
pub open spec fn setting(env: Option<Seq<char>>, max: nat, default: nat) -> nat {
    match env {
        Some(s) => match spec_parse_bounded(s, max) {
            Some(v) => v,
            None => default,
        },
        None => default,
    }
}

pub open spec fn opt_view(o: Option<&str>) -> Option<Seq<char>> {
    match o {
        Some(s) => Some(s@),
        None => None,
    }
}

/// The daemon's port, from `KEYX_PORT`.
pub fn port(env: Option<&str>) -> (p: u16)
    ensures
        p as nat == setting(opt_view(env), u16::MAX as nat, DEFAULT_PORT as nat),
{
    match env {
        Some(s) => match parse_u16(s) {
            Some(v) => v,
            None => DEFAULT_PORT,
        },
        None => DEFAULT_PORT,
    }
}

/// Minutes of idleness after which the daemon forgets the key, from `KEYX_AUTOLOCK_MIN`.
pub fn lock_minutes(env: Option<&str>) -> (m: u64)
    ensures
        m as nat == setting(opt_view(env), u64::MAX as nat, DEFAULT_LOCK_MIN as nat),
{
    match env {
        Some(s) => match parse_u64(s) {
            Some(v) => v,
            None => DEFAULT_LOCK_MIN,
        },
        None => DEFAULT_LOCK_MIN,
    }
}

/// PBKDF2 rounds for a new password-mode vault, from `KEYX_ITERATIONS`.
pub fn default_iterations(env: Option<&str>) -> (n: u32)
    ensures
        n as nat == setting(opt_view(env), u32::MAX as nat, DEFAULT_ITER as nat),
{
    match env {
        Some(s) => match parse_u32(s) {
            Some(v) => v,
            None => DEFAULT_ITER,
        },
        None => DEFAULT_ITER,
    }
}

/// The account under which the master key is kept in the system keychain,
/// from `KEYX_KEYCHAIN_USER`.
pub fn keychain_user(env: Option<&str>) -> (u: String)
    ensures
        u@ == (match env {
            Some(s) => s@,
            None => "master"@,
        }),
{
    match env {
        Some(s) => s.to_owned(),
        None => "master".to_owned(),
    }
}

} // verus!
