//! The application core: the session model around an unlocked vault, idle
//! auto-lock decisions driven by caller-supplied time, the service
//! operations, and registrable-domain autofill matching.
//!
//! Nothing here touches the file system or the clock directly: callers read
//! the vault file, the clock and the configuration, pass in what they read,
//! and write back the bytes an operation hands them.

pub mod autofill;
pub mod clock;
pub mod config;
pub mod dto;
pub mod error;
pub mod paths;
pub mod state;
