//! Vault entry types and the vault body.
//!
//! The library owns each entry's `id` and its `created` / `updated`
//! timestamps; callers supply the other fields through [`NewEntry`] and
//! [`EntryPatch`]. Timestamps are RFC 3339 strings supplied by the caller.

use vstd::prelude::*;

verus! {

/// The current vault-body schema version (the JSON `version` field).
pub const VAULT_BODY_VERSION: u32 = 1;

/// A stored login credential.
#[derive(Debug, Clone, PartialEq, Eq)]
pub struct Entry {
    /// Library-assigned identifier: 32 lowercase hex characters.
    pub id: String,
    /// Human-readable title.
    pub title: String,
    /// Login username or email.
    pub username: String,
    /// Login password.
    pub password: String,
    /// Associated URLs, used for autofill matching.
    pub urls: Vec<String>,
    /// Free-form notes.
    pub notes: String,
    /// RFC 3339 creation timestamp.
    pub created: String,
    /// RFC 3339 last-modified timestamp.
    pub updated: String,
}

/// The contents of an [`Entry`], as character sequences.
pub struct EntryModel {
    pub id: Seq<char>,
    pub title: Seq<char>,
    pub username: Seq<char>,
    pub password: Seq<char>,
    pub urls: Seq<Seq<char>>,
    pub notes: Seq<char>,
    pub created: Seq<char>,
    pub updated: Seq<char>,
}

/// The character sequences of a list of strings.
pub open spec fn strings_view(v: Seq<String>) -> Seq<Seq<char>> {
    v.map_values(|s: String| s@)
}

impl View for Entry {
    type V = EntryModel;

    open spec fn view(&self) -> EntryModel {
        EntryModel {
            id: self.id@,
            title: self.title@,
            username: self.username@,
            password: self.password@,
            urls: strings_view(self.urls@),
            notes: self.notes@,
            created: self.created@,
            updated: self.updated@,
        }
    }
}

/// Caller-supplied fields of a new entry; `now` becomes both `created` and
/// `updated`.
#[derive(Debug, Clone, PartialEq, Eq)]
pub struct NewEntry {
    /// Human-readable title.
    pub title: String,
    /// Login username or email.
    pub username: String,
    /// Login password.
    pub password: String,
    /// Associated URLs.
    pub urls: Vec<String>,
    /// Free-form notes.
    pub notes: String,
    /// RFC 3339 timestamp to record as `created` and `updated`.
    pub now: String,
}

/// A partial update: `Some(_)` replaces a field, `None` keeps it; `now`
/// becomes the new `updated`. `id` and `created` never change.
#[derive(Debug, Clone, Default, PartialEq, Eq)]
pub struct EntryPatch {
    /// New title, if changing.
    pub title: Option<String>,
    /// New username, if changing.
    pub username: Option<String>,
    /// New password, if changing.
    pub password: Option<String>,
    /// New URL list, if changing.
    pub urls: Option<Vec<String>>,
    /// New notes, if changing.
    pub notes: Option<String>,
    /// RFC 3339 timestamp to record as `updated`.
    pub now: String,
}

/// The decrypted vault body: what is encoded as JSON and sealed.
#[derive(Debug, Clone, PartialEq, Eq)]
pub struct VaultBody {
    /// Schema version of the body.
    pub version: u32,
    /// All stored entries, in insertion order.
    pub entries: Vec<Entry>,
}

/// The contents of a [`VaultBody`].
pub struct VaultBodyModel {
    pub version: u32,
    pub entries: Seq<EntryModel>,
}

/// The models of a list of entries.
pub open spec fn entries_view(v: Seq<Entry>) -> Seq<EntryModel> {
    v.map_values(|e: Entry| e@)
}

impl View for VaultBody {
    type V = VaultBodyModel;

    open spec fn view(&self) -> VaultBodyModel {
        VaultBodyModel { version: self.version, entries: entries_view(self.entries@) }
    }
}

impl Default for VaultBody {
    /// An empty body at the current schema version.
    fn default() -> (b: Self)
        ensures
            b.version == VAULT_BODY_VERSION,
            b.entries@.len() == 0,
    {
        VaultBody { version: VAULT_BODY_VERSION, entries: Vec::new() }
    }
}

} // verus!
