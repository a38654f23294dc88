//! Spooky-Pass: a local-first password manager library.
//!
//! * [`vault_core`] — the encrypted vault: file format, key derivation and
//!   sealing, entry storage, and the password generator.
//! * [`app_core`] — the application session: lock/unlock state, idle
//!   auto-lock, the service operations, and registrable-domain autofill
//!   matching.
//! * [`native_host`] — the length-prefixed message framing and the relay
//!   decisions of the browser native-messaging host.
//! * [`text`] — decimal formatting shared by the error messages.

pub mod app_core;
pub mod native_host;
pub mod text;
pub mod vault_core;
