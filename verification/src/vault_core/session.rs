//! The secret-bearing state of an unlocked vault.
//!
//! A [`Session`] owns the derived key of an open vault together with the
//! key-derivation inputs (salt and Argon2 costs) needed to re-seal the body.
//! It holds no timer and tracks no activity: when to lock is the caller's
//! decision, and locking drops the session.

use vstd::prelude::*;

use crate::vault_core::crypto::{DerivedKey, KdfParams};

verus! {

/// The key of an unlocked vault and the inputs it was derived from.
pub struct Session {
    key: DerivedKey,
    salt: [u8; 16],
    params: KdfParams,
}

/// The contents of a [`Session`].
pub struct SessionModel {
    pub key: Seq<u8>,
    pub salt: [u8; 16],
    pub params: KdfParams,
}

impl View for Session {
    type V = SessionModel;

    closed spec fn view(&self) -> SessionModel {
        SessionModel { key: self.key@, salt: self.salt, params: self.params }
    }
}

impl Session {
    /// Create a session from a derived key and its derivation inputs.
    pub(crate) fn new(key: DerivedKey, salt: [u8; 16], params: KdfParams) -> (s: Self)
        ensures
            s@.key == key@,
            s@.salt == salt,
            s@.params == params,
    {
        Session { key, salt, params }
    }

    /// Overwrite the derived key with zeros; the salt and costs stay.
    pub(crate) fn wipe_key(&mut self)
        ensures
            final(self)@.key == Seq::new(32, |i: int| 0u8),
            final(self)@.salt == old(self)@.salt,
            final(self)@.params == old(self)@.params,
    {
        self.key.wipe();
    }

    /// Borrow the derived key.
    pub(crate) fn key(&self) -> (k: &DerivedKey)
        ensures
            k@ == self@.key,
    {
        &self.key
    }

    /// The per-vault salt the key was derived with.
    pub(crate) fn salt(&self) -> (s: &[u8; 16])
        ensures
            *s == self@.salt,
    {
        &self.salt
    }

    /// The Argon2 costs the key was derived with.
    pub(crate) fn params(&self) -> (p: &KdfParams)
        ensures
            *p == self@.params,
    {
        &self.params
    }
}

} // verus!
