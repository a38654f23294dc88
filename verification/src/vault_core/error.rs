//! Error type of the vault core.

use vstd::prelude::*;
use vstd::string::StringExecFns;

use crate::text::{decimal_chars, decimal_string};

verus! {

/// Errors returned by vault operations.
///
/// [`VaultError::WrongPassword`] is returned for every authentication failure
/// while unlocking: an incorrect master password and a tampered body cannot
/// be told apart, and the library does not try to.
#[derive(Debug, Clone, PartialEq, Eq)]
pub enum VaultError {
    /// The master password was wrong, or the body failed authentication.
    WrongPassword,
    /// A low-level cryptographic operation failed for a reason other than
    /// authentication (for example the OS random source was unavailable).
    Crypto,
    /// The file did not start with the `SPK1` magic bytes.
    BadMagic,
    /// The on-disk format version is not supported.
    UnsupportedVersion(u16),
    /// The header names an unsupported key-derivation function.
    UnsupportedKdf(u8),
    /// The header names an unsupported cipher.
    UnsupportedCipher(u8),
    /// The file structure is malformed (truncated, wrong lengths, trailing
    /// bytes).
    MalformedFile,
    /// The Argon2 parameters are out of range.
    InvalidKdfParams,
    /// Deriving the key from the password failed.
    KeyDerivation,
    /// The vault body could not be encoded or decoded.
    Serialization,
    /// No entry with the given id exists.
    EntryNotFound(String),
    /// The password-generator options were invalid.
    InvalidPasswordOptions,
    /// An I/O error reported by the caller that reads or writes vault files;
    /// carries the error's message.
    Io(String),
}

/// The human-readable message of `e`.
pub open spec fn vault_error_message(e: VaultError) -> Seq<char> {
    match e {
        VaultError::WrongPassword => "incorrect master password or corrupted vault"@,
        VaultError::Crypto => "cryptographic operation failed"@,
        VaultError::BadMagic => "not a Spooky-Pass vault (bad magic)"@,
        VaultError::UnsupportedVersion(v) => "unsupported vault format version: "@ + decimal_chars(
            v as nat,
        ),
        VaultError::UnsupportedKdf(k) => "unsupported KDF id: "@ + decimal_chars(k as nat),
        VaultError::UnsupportedCipher(c) => "unsupported cipher id: "@ + decimal_chars(c as nat),
        VaultError::MalformedFile => "malformed vault file"@,
        VaultError::InvalidKdfParams => "invalid KDF parameters"@,
        VaultError::KeyDerivation => "key derivation failed"@,
        VaultError::Serialization => "vault body serialization failed"@,
        VaultError::EntryNotFound(id) => "entry not found: "@ + id@,
        VaultError::InvalidPasswordOptions => "invalid password-generator options"@,
        VaultError::Io(m) => "I/O error: "@ + m@,
    }
}

impl VaultError {
    /// The human-readable message of this error.
    pub fn message(&self) -> (s: String)
        ensures
            s@ == vault_error_message(*self),
    {
        match self {
            VaultError::WrongPassword => String::from_str("incorrect master password or corrupted vault"),
            VaultError::Crypto => String::from_str("cryptographic operation failed"),
            VaultError::BadMagic => String::from_str("not a Spooky-Pass vault (bad magic)"),
            VaultError::UnsupportedVersion(v) => {
                let mut s = String::from_str("unsupported vault format version: ");
                s.append(decimal_string(*v as u64).as_str());
                s
            },
            VaultError::UnsupportedKdf(k) => {
                let mut s = String::from_str("unsupported KDF id: ");
                s.append(decimal_string(*k as u64).as_str());
                s
            },
            VaultError::UnsupportedCipher(c) => {
                let mut s = String::from_str("unsupported cipher id: ");
                s.append(decimal_string(*c as u64).as_str());
                s
            },
            VaultError::MalformedFile => String::from_str("malformed vault file"),
            VaultError::InvalidKdfParams => String::from_str("invalid KDF parameters"),
            VaultError::KeyDerivation => String::from_str("key derivation failed"),
            VaultError::Serialization => String::from_str("vault body serialization failed"),
            VaultError::EntryNotFound(id) => {
                let mut s = String::from_str("entry not found: ");
                s.append(id.as_str());
                s
            },
            VaultError::InvalidPasswordOptions => String::from_str("invalid password-generator options"),
            VaultError::Io(m) => {
                let mut s = String::from_str("I/O error: ");
                s.append(m.as_str());
                s
            },
        }
    }
}

} // verus!
