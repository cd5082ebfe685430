//! Errors of the vault, with the machine-readable code that the daemon answers with.
use vstd::prelude::*;

verus! {

/// The machine-readable error codes of the vault and the daemon.
#[derive(Debug, Clone, Copy, PartialEq, Eq, Structural)]
pub enum ErrorCode {
    Internal,
    DecryptFail,
    KeychainFail,
    NoKeyring,
    KeychainOccupied,
    Weak,
    VaultCorrupt,
    NoVault,
    KeychainMissing,
    Locked,
    WrongPassword,
    Exists,
    NameExists,
    NotFound,
    BadRequest,
    PeekNoGui,
    Io,
}

/// The wire name of an error code.
pub open spec fn code_name(c: ErrorCode) -> Seq<char> {
    match c {
        ErrorCode::Internal => "INTERNAL"@,
        ErrorCode::DecryptFail => "DECRYPT_FAIL"@,
        ErrorCode::KeychainFail => "KEYCHAIN_FAIL"@,
        ErrorCode::NoKeyring => "NO_KEYRING"@,
        ErrorCode::KeychainOccupied => "KEYCHAIN_OCCUPIED"@,
        ErrorCode::Weak => "WEAK"@,
        ErrorCode::VaultCorrupt => "VAULT_CORRUPT"@,
        ErrorCode::NoVault => "NO_VAULT"@,
        ErrorCode::KeychainMissing => "KEYCHAIN_MISSING"@,
        ErrorCode::Locked => "LOCKED"@,
        ErrorCode::WrongPassword => "WRONG_PASSWORD"@,
        ErrorCode::Exists => "EXISTS"@,
        ErrorCode::NameExists => "NAME_EXISTS"@,
        ErrorCode::NotFound => "NOT_FOUND"@,
        ErrorCode::BadRequest => "BAD_REQUEST"@,
        ErrorCode::PeekNoGui => "PEEK_NO_GUI"@,
        ErrorCode::Io => "IO"@,
    }
}

impl ErrorCode {
    /// The wire name of the code, as the daemon puts it in `"error"`.
    pub fn as_str(&self) -> (s: &'static str)
        ensures
            s@ == code_name(*self),
    {
        match self {
            ErrorCode::Internal => "INTERNAL",
            ErrorCode::DecryptFail => "DECRYPT_FAIL",
            ErrorCode::KeychainFail => "KEYCHAIN_FAIL",
            ErrorCode::NoKeyring => "NO_KEYRING",
            ErrorCode::KeychainOccupied => "KEYCHAIN_OCCUPIED",
            ErrorCode::Weak => "WEAK",
            ErrorCode::VaultCorrupt => "VAULT_CORRUPT",
            ErrorCode::NoVault => "NO_VAULT",
            ErrorCode::KeychainMissing => "KEYCHAIN_MISSING",
            ErrorCode::Locked => "LOCKED",
            ErrorCode::WrongPassword => "WRONG_PASSWORD",
            ErrorCode::Exists => "EXISTS",
            ErrorCode::NameExists => "NAME_EXISTS",
            ErrorCode::NotFound => "NOT_FOUND",
            ErrorCode::BadRequest => "BAD_REQUEST",
            ErrorCode::PeekNoGui => "PEEK_NO_GUI",
            ErrorCode::Io => "IO",
        }
    }
}

/// An error of a vault operation: a code and a human-readable message.
#[derive(Debug, Clone)]
pub struct VaultError {
    pub code: ErrorCode,
    pub message: String,
}

impl VaultError {
    pub fn new(code: ErrorCode, message: String) -> (e: Self)
        ensures
            e.code == code,
            e.message@ == message@,
    {
        VaultError { code, message }
    }

    /// The text of the error as it is shown to a person: its message.
    pub fn display_text(&self) -> (r: String)
        ensures
            r@ == self.message@,
    {
        self.message.clone()
    }
}

/// The HTTP status with which the daemon answers an error code.
pub open spec fn spec_status_for(code: ErrorCode) -> u16 {
    match code {
        ErrorCode::WrongPassword => 401,
        ErrorCode::Locked | ErrorCode::KeychainMissing => 423,
        ErrorCode::KeychainOccupied | ErrorCode::Exists | ErrorCode::NameExists => 409,
        ErrorCode::NoVault | ErrorCode::NotFound => 404,
        ErrorCode::VaultCorrupt => 422,
        _ => 400,
    }
}

/// The HTTP status with which the daemon answers an error code.
pub fn status_for(code: ErrorCode) -> (s: u16)
    ensures
        s == spec_status_for(code),
{
    match code {
        ErrorCode::WrongPassword => 401,
        ErrorCode::Locked | ErrorCode::KeychainMissing => 423,
        ErrorCode::KeychainOccupied | ErrorCode::Exists | ErrorCode::NameExists => 409,
        ErrorCode::NoVault | ErrorCode::NotFound => 404,
        ErrorCode::VaultCorrupt => 422,
        _ => 400,
    }
}

} // verus!
