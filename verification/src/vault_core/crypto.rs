//! Key derivation (Argon2id) and authenticated encryption
//! (XChaCha20-Poly1305). Deals only in keys, salts, nonces, plaintext,
//! ciphertext and associated data; knows nothing of the file layout.

use chacha20poly1305::aead::{Aead, KeyInit, Payload};
use vstd::prelude::*;

use crate::vault_core::error::VaultError;

verus! {

/// Length of a derived key, in bytes (XChaCha20-Poly1305 uses a 256-bit key).
pub const KEY_LEN: usize = 32;

/// Length of the AEAD authentication tag, in bytes.
pub const TAG_LEN: usize = 16;

/// Parameters for Argon2id key derivation.
#[derive(Debug, Clone, Copy, PartialEq, Eq)]
pub struct KdfParams {
    /// Memory cost, in KiB.
    pub m_cost_kib: u32,
    /// Time cost (number of iterations).
    pub t_cost: u32,
    /// Degree of parallelism (lanes).
    pub p_cost: u32,
}

impl Default for KdfParams {
    /// 64 MiB of memory, 3 iterations, parallelism 1.
    fn default() -> (p: Self)
        ensures
            p.m_cost_kib == 65536,
            p.t_cost == 3,
            p.p_cost == 1,
    {
        KdfParams { m_cost_kib: 65_536, t_cost: 3, p_cost: 1 }
    }
}

/// A 32-byte symmetric key derived from the master password. It has neither
/// `Debug` nor `Clone`, so it cannot be logged or duplicated by accident.
pub struct DerivedKey([u8; 32]);

impl View for DerivedKey {
    type V = Seq<u8>;

    closed spec fn view(&self) -> Seq<u8> {
        self.0@
    }
}

impl DerivedKey {
    /// Overwrite the key with zeros.
    pub fn wipe(&mut self)
        ensures
            final(self)@ == Seq::new(32, |i: int| 0u8),
    {
        crate::vault_core::wipe::wipe_key_bytes(&mut self.0);
    }

    /// Borrow the raw key bytes.
    pub fn as_bytes(&self) -> (b: &[u8; 32])
        ensures
            b@ == self@,
    {
        &self.0
    }
}

/// The 32-byte Argon2id (version 1.3) output for the given password bytes,
/// salt and costs, with no secret key and no associated data.
pub uninterp spec fn argon2id_v13_32(
    password: Seq<u8>,
    salt: Seq<u8>,
    m_cost_kib: u32,
    t_cost: u32,
    p_cost: u32,
) -> Seq<u8>;

/// XChaCha20-Poly1305 encryption of `plaintext` under `key` and `nonce`,
/// authenticating `aad`: the ciphertext with the 16-byte tag appended.
pub uninterp spec fn xchacha20poly1305_seal(
    key: Seq<u8>,
    nonce: Seq<u8>,
    plaintext: Seq<u8>,
    aad: Seq<u8>,
) -> Seq<u8>;

/// XChaCha20-Poly1305 decryption of `ciphertext` (tag appended) under `key`
/// and `nonce` with associated data `aad`: the plaintext, or `None` when
/// authentication fails.
pub uninterp spec fn xchacha20poly1305_open(
    key: Seq<u8>,
    nonce: Seq<u8>,
    ciphertext: Seq<u8>,
    aad: Seq<u8>,
) -> Option<Seq<u8>>;

/// The cost parameters `argon2::Params::new` accepts: at least 8 KiB and
/// 8 KiB per lane of memory, at least one iteration, between 1 and 2^24 - 1
/// lanes.
pub open spec fn argon2_params_accepted(m_cost_kib: u32, t_cost: u32, p_cost: u32) -> bool {
    &&& m_cost_kib >= 8
    &&& m_cost_kib >= 8 * p_cost
    &&& t_cost >= 1
    &&& 1 <= p_cost <= 0xFFFFFF
}

/// The password and salt lengths `Argon2::hash_password_into` accepts.
pub open spec fn argon2_inputs_accepted(password: Seq<u8>, salt: Seq<u8>) -> bool {
    &&& password.len() <= u32::MAX
    &&& 8 <= salt.len() <= u32::MAX
}

/// Calls `argon2::Params::new(m, t, p, Some(32))`, then
/// `Argon2::new(Argon2id, V0x13, params).hash_password_into(..)`.
///
/// Claims: parameters outside [`argon2_params_accepted`] give
/// `InvalidKdfParams`; accepted parameters give the named Argon2id output
/// exactly when the password and salt lengths are accepted, and
/// `KeyDerivation` otherwise. `p_cost` is bounded because `Params::new`
/// computes `p_cost * 8` in `u32` before checking it. The call allocates
/// `m_cost_kib` KiB; that an allocation of that size succeeds is not stated.
#[verifier::external_body]
fn argon2id_hash(password: &[u8], salt: &[u8], m_cost_kib: u32, t_cost: u32, p_cost: u32) -> (r: Result<[u8; 32], VaultError>)
    requires
        p_cost <= 0xFFFFFF,
    ensures
        !argon2_params_accepted(m_cost_kib, t_cost, p_cost) ==> r matches Err(VaultError::InvalidKdfParams),
        argon2_params_accepted(m_cost_kib, t_cost, p_cost) ==> (r is Ok <==> argon2_inputs_accepted(
            password@,
            salt@,
        )),
        argon2_params_accepted(m_cost_kib, t_cost, p_cost) && r is Err ==> r matches Err(VaultError::KeyDerivation),
        r matches Ok(k) ==> k@ == argon2id_v13_32(password@, salt@, m_cost_kib, t_cost, p_cost),
{
    let params = match argon2::Params::new(m_cost_kib, t_cost, p_cost, Some(32)) {
        Ok(params) => params,
        Err(_) => return Err(VaultError::InvalidKdfParams),
    };
    let mut out = [0u8; 32];
    let argon2 = argon2::Argon2::new(argon2::Algorithm::Argon2id, argon2::Version::V0x13, params);
    match argon2.hash_password_into(password, salt, &mut out) {
        Ok(()) => Ok(out),
        Err(_) => Err(VaultError::KeyDerivation),
    }
}

/// Calls `XChaCha20Poly1305::new(key).encrypt(nonce, Payload { msg, aad })`.
///
/// Claims: the call fails exactly when the plaintext spans `u32::MAX` or more
/// 64-byte blocks; otherwise it returns the named ciphertext, 16 bytes longer
/// than the plaintext, which decrypts back to the plaintext under the same
/// key, nonce and associated data (the AEAD correctness property).
#[verifier::external_body]
fn xchacha_encrypt(key: &[u8; 32], nonce: &[u8; 24], plaintext: &[u8], aad: &[u8]) -> (r: Option<Vec<u8>>)
    requires
        plaintext@.len() + 16 <= usize::MAX,
    ensures
        r is Some <==> plaintext@.len() / 64 < u32::MAX,
        r matches Some(c) ==> c@ == xchacha20poly1305_seal(key@, nonce@, plaintext@, aad@),
        r matches Some(c) ==> c@.len() == plaintext@.len() + 16,
        r matches Some(c) ==> xchacha20poly1305_open(key@, nonce@, c@, aad@) == Some(plaintext@),
{
    let cipher = chacha20poly1305::XChaCha20Poly1305::new(chacha20poly1305::Key::from_slice(key));
    let xnonce = chacha20poly1305::XNonce::from_slice(nonce);
    cipher.encrypt(xnonce, Payload { msg: plaintext, aad }).ok()
}

/// Calls `XChaCha20Poly1305::new(key).decrypt(nonce, Payload { msg, aad })`.
///
/// Claims: the result is the named decryption; a ciphertext shorter than the
/// 16-byte tag never decrypts.
#[verifier::external_body]
fn xchacha_decrypt(key: &[u8; 32], nonce: &[u8; 24], ciphertext: &[u8], aad: &[u8]) -> (r: Option<Vec<u8>>)
    ensures
        match r {
            Some(p) => xchacha20poly1305_open(key@, nonce@, ciphertext@, aad@) == Some(p@),
            None => xchacha20poly1305_open(key@, nonce@, ciphertext@, aad@) is None,
        },
        ciphertext@.len() < 16 ==> r is None,
{
    let cipher = chacha20poly1305::XChaCha20Poly1305::new(chacha20poly1305::Key::from_slice(key));
    let xnonce = chacha20poly1305::XNonce::from_slice(nonce);
    cipher.decrypt(xnonce, Payload { msg: ciphertext, aad }).ok()
}

/// Derive a 32-byte key from `password` and `salt` with Argon2id.
///
/// Invalid cost parameters give `InvalidKdfParams`; a password or salt of a
/// length Argon2 rejects gives `KeyDerivation`.
pub fn derive_key(password: &str, salt: &[u8], params: &KdfParams) -> (r: Result<DerivedKey, VaultError>)
    ensures
        !argon2_params_accepted(params.m_cost_kib, params.t_cost, params.p_cost) ==> r matches Err(
            VaultError::InvalidKdfParams,
        ),
        argon2_params_accepted(params.m_cost_kib, params.t_cost, params.p_cost) ==> (r is Ok
            <==> argon2_inputs_accepted(vstd::utf8::encode_utf8(password@), salt@)),
        argon2_params_accepted(params.m_cost_kib, params.t_cost, params.p_cost) && r is Err
            ==> r matches Err(VaultError::KeyDerivation),
        r matches Ok(k) ==> k@ == argon2id_v13_32(
            vstd::utf8::encode_utf8(password@),
            salt@,
            params.m_cost_kib,
            params.t_cost,
            params.p_cost,
        ),
{
    if params.p_cost > 0xFFFFFF {
        // `argon2::Params::new` rejects more than 2^24 - 1 lanes.
        return Err(VaultError::InvalidKdfParams);
    }
    let raw = argon2id_hash(password.as_bytes(), salt, params.m_cost_kib, params.t_cost, params.p_cost)?;
    Ok(DerivedKey(raw))
}

/// Encrypt `plaintext` with `key` and `nonce`, authenticating `aad`.
/// Returns the ciphertext with the 16-byte tag appended.
pub fn seal(key: &DerivedKey, nonce: &[u8; 24], plaintext: &[u8], aad: &[u8]) -> (r: Result<Vec<u8>, VaultError>)
    requires
        plaintext@.len() + 16 <= usize::MAX,
    ensures
        r is Ok <==> plaintext@.len() / 64 < u32::MAX,
        r matches Err(e) ==> e == VaultError::Crypto,
        r matches Ok(c) ==> c@ == xchacha20poly1305_seal(key@, nonce@, plaintext@, aad@),
        r matches Ok(c) ==> c@.len() == plaintext@.len() + 16,
        r matches Ok(c) ==> xchacha20poly1305_open(key@, nonce@, c@, aad@) == Some(plaintext@),
{
    match xchacha_encrypt(key.as_bytes(), nonce, plaintext, aad) {
        Some(c) => Ok(c),
        None => Err(VaultError::Crypto),
    }
}

/// Decrypt and authenticate `ciphertext` (tag appended) with `key` and
/// `nonce`, checking `aad`. Every authentication failure is reported as
/// `WrongPassword`, so a wrong key and tampering look the same.
pub fn open(key: &DerivedKey, nonce: &[u8; 24], ciphertext: &[u8], aad: &[u8]) -> (r: Result<Vec<u8>, VaultError>)
    ensures
        match r {
            Ok(p) => xchacha20poly1305_open(key@, nonce@, ciphertext@, aad@) == Some(p@),
            Err(e) => e == VaultError::WrongPassword && xchacha20poly1305_open(
                key@,
                nonce@,
                ciphertext@,
                aad@,
            ) is None,
        },
        ciphertext@.len() < 16 ==> r is Err,
{
    match xchacha_decrypt(key.as_bytes(), nonce, ciphertext, aad) {
        Some(p) => Ok(p),
        None => Err(VaultError::WrongPassword),
    }
}

} // verus!
