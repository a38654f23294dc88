//! The vault file's name within the application data directory.

use vstd::prelude::*;

verus! {

/// The vault file name within the data directory.
pub const VAULT_FILE_NAME: &'static str = "vault.spk";

} // verus!
