//! Application-level errors shown to the user interface.
//!
//! [`AppError`] collapses several vault errors into interface-level buckets
//! and keeps a wrong password and a tampered vault indistinguishable: both
//! surface as [`AppError::WrongPassword`].

use vstd::prelude::*;
use vstd::string::StringExecFns;

use crate::vault_core::error::{vault_error_message, VaultError};

verus! {

/// An error surfaced to the user interface.
#[derive(Debug, Clone, PartialEq, Eq)]
pub enum AppError {
    /// Wrong master password or a tampered or corrupt vault.
    WrongPassword,
    /// The operation needs an unlocked vault, but none is open.
    Locked,
    /// A vault file already exists; creating one would overwrite it.
    VaultAlreadyExists,
    /// No vault file was found to unlock.
    NoVault,
    /// No entry with the given id exists.
    EntryNotFound(String),
    /// The password-generator options were invalid.
    InvalidPasswordOptions,
    /// The vault file is structurally invalid.
    InvalidVaultFile,
    /// An unexpected internal error (I/O, low-level crypto, encoding), with
    /// its message.
    Internal(String),
}

/// `r` is the interface error for the vault error `e`.
pub open spec fn maps_vault_error(e: VaultError, r: AppError) -> bool {
    match e {
        VaultError::WrongPassword => r == AppError::WrongPassword,
        VaultError::EntryNotFound(id) => r == AppError::EntryNotFound(id),
        VaultError::InvalidPasswordOptions => r == AppError::InvalidPasswordOptions,
        VaultError::BadMagic => r == AppError::InvalidVaultFile,
        VaultError::UnsupportedVersion(_) => r == AppError::InvalidVaultFile,
        VaultError::UnsupportedKdf(_) => r == AppError::InvalidVaultFile,
        VaultError::UnsupportedCipher(_) => r == AppError::InvalidVaultFile,
        VaultError::MalformedFile => r == AppError::InvalidVaultFile,
        VaultError::InvalidKdfParams => r == AppError::InvalidVaultFile,
        _ => r matches AppError::Internal(m) && m@ == vault_error_message(e),
    }
}

/// The human-readable message of `e`.
pub open spec fn app_error_message(e: AppError) -> Seq<char> {
    match e {
        AppError::WrongPassword => "incorrect master password or corrupted vault"@,
        AppError::Locked => "the vault is locked"@,
        AppError::VaultAlreadyExists => "a vault already exists"@,
        AppError::NoVault => "no vault found"@,
        AppError::EntryNotFound(id) => "entry not found: "@ + id@,
        AppError::InvalidPasswordOptions => "invalid password options"@,
        AppError::InvalidVaultFile => "invalid vault file"@,
        AppError::Internal(m) => "internal error: "@ + m@,
    }
}

/// The stable machine-readable kind of `e`.
pub open spec fn app_error_kind(e: AppError) -> Seq<char> {
    match e {
        AppError::WrongPassword => "WrongPassword"@,
        AppError::Locked => "Locked"@,
        AppError::VaultAlreadyExists => "VaultAlreadyExists"@,
        AppError::NoVault => "NoVault"@,
        AppError::EntryNotFound(_) => "EntryNotFound"@,
        AppError::InvalidPasswordOptions => "InvalidPasswordOptions"@,
        AppError::InvalidVaultFile => "InvalidVaultFile"@,
        AppError::Internal(_) => "Internal"@,
    }
}

impl AppError {
    /// Map a vault error to its interface error: the malformed-file
    /// variants and invalid key-derivation parameters become
    /// `InvalidVaultFile`; I/O, crypto, key-derivation and encoding failures
    /// become `Internal` with the vault error's message.
    pub fn from_vault_error(e: VaultError) -> (r: AppError)
        ensures
            maps_vault_error(e, r),
    {
        match e {
            VaultError::WrongPassword => AppError::WrongPassword,
            VaultError::EntryNotFound(id) => AppError::EntryNotFound(id),
            VaultError::InvalidPasswordOptions => AppError::InvalidPasswordOptions,
            VaultError::BadMagic => AppError::InvalidVaultFile,
            VaultError::UnsupportedVersion(_) => AppError::InvalidVaultFile,
            VaultError::UnsupportedKdf(_) => AppError::InvalidVaultFile,
            VaultError::UnsupportedCipher(_) => AppError::InvalidVaultFile,
            VaultError::MalformedFile => AppError::InvalidVaultFile,
            VaultError::InvalidKdfParams => AppError::InvalidVaultFile,
            other => AppError::Internal(other.message()),
        }
    }

    /// The human-readable message of this error.
    pub fn message(&self) -> (s: String)
        ensures
            s@ == app_error_message(*self),
    {
        match self {
            AppError::WrongPassword => String::from_str("incorrect master password or corrupted vault"),
            AppError::Locked => String::from_str("the vault is locked"),
            AppError::VaultAlreadyExists => String::from_str("a vault already exists"),
            AppError::NoVault => String::from_str("no vault found"),
            AppError::EntryNotFound(id) => {
                let mut s = String::from_str("entry not found: ");
                s.append(id.as_str());
                s
            },
            AppError::InvalidPasswordOptions => String::from_str("invalid password options"),
            AppError::InvalidVaultFile => String::from_str("invalid vault file"),
            AppError::Internal(m) => {
                let mut s = String::from_str("internal error: ");
                s.append(m.as_str());
                s
            },
        }
    }

    /// The stable machine-readable kind of this error.
    pub fn kind(&self) -> (s: String)
        ensures
            s@ == app_error_kind(*self),
    {
        match self {
            AppError::WrongPassword => String::from_str("WrongPassword"),
            AppError::Locked => String::from_str("Locked"),
            AppError::VaultAlreadyExists => String::from_str("VaultAlreadyExists"),
            AppError::NoVault => String::from_str("NoVault"),
            AppError::EntryNotFound(_) => String::from_str("EntryNotFound"),
            AppError::InvalidPasswordOptions => String::from_str("InvalidPasswordOptions"),
            AppError::InvalidVaultFile => String::from_str("InvalidVaultFile"),
            AppError::Internal(_) => String::from_str("Internal"),
        }
    }
}

impl From<VaultError> for AppError {
    /// See [`AppError::from_vault_error`].
    fn from(e: VaultError) -> (r: AppError)
        ensures
            maps_vault_error(e, r),
    {
        AppError::from_vault_error(e)
    }
}

impl vstd::std_specs::convert::FromSpecImpl<VaultError> for AppError {
    /// `from` builds the message of an `Internal` error as a fresh string,
    /// equal to the one chosen here only in its characters, so the mapping is
    /// promised by `maps_vault_error` on `from` rather than by this value.
    open spec fn obeys_from_spec() -> bool {
        false
    }

    /// An interface error that `e` maps to (`maps_vault_error`).
    open spec fn from_spec(e: VaultError) -> AppError {
        choose|r: AppError| maps_vault_error(e, r)
    }
}

} // verus!
