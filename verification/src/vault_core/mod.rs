//! The cryptographic core: vault file format, Argon2id + XChaCha20-Poly1305,
//! the locked/unlocked typestate with entry CRUD, and the password generator.

pub mod error;
pub mod body_codec;
pub mod crypto;
pub mod entry;
pub mod format;
pub mod generator;
pub mod random;
pub mod session;
pub mod vault;
pub mod wipe;
