//! Data-transfer objects that cross the user-interface boundary.

use vstd::prelude::*;

use crate::vault_core::entry::EntryModel;
use crate::vault_core::generator::PasswordOptions;

verus! {

/// High-level application status, used by the interface to choose a screen.
#[derive(Debug, Clone, PartialEq, Eq)]
pub struct StatusDto {
    /// Whether a vault file exists on disk.
    pub has_vault: bool,
    /// Whether a vault is currently unlocked in memory.
    pub unlocked: bool,
    /// The idle auto-lock window, in seconds.
    pub idle_timeout_secs: u64,
}

/// A compact entry record for the list view, without the password.
#[derive(Debug, Clone, PartialEq, Eq)]
pub struct EntrySummary {
    /// Stable entry id.
    pub id: String,
    /// Entry title.
    pub title: String,
    /// Login username.
    pub username: String,
    /// First associated URL, if any.
    pub primary_url: Option<String>,
    /// RFC 3339 last-modified timestamp.
    pub updated: String,
}

/// A full entry record for the detail view, including the password.
#[derive(Debug, Clone, PartialEq, Eq)]
pub struct EntryView {
    /// Stable entry id.
    pub id: String,
    /// Entry title.
    pub title: String,
    /// Login username.
    pub username: String,
    /// Login password.
    pub password: String,
    /// Associated URLs.
    pub urls: Vec<String>,
    /// Free-form notes.
    pub notes: String,
    /// RFC 3339 creation timestamp.
    pub created: String,
    /// RFC 3339 last-modified timestamp.
    pub updated: String,
}

/// Fields supplied by the interface to create an entry; the id and the
/// timestamps are assigned by the application.
#[derive(Debug, Clone, PartialEq, Eq)]
pub struct EntryInput {
    /// Entry title.
    pub title: String,
    /// Login username.
    pub username: String,
    /// Login password.
    pub password: String,
    /// Associated URLs.
    pub urls: Vec<String>,
    /// Free-form notes.
    pub notes: String,
}

/// A partial update supplied by the interface: `None` fields stay.
#[derive(Debug, Clone, Default, PartialEq, Eq)]
pub struct EntryPatchInput {
    /// New title, if changing.
    pub title: Option<String>,
    /// New username, if changing.
    pub username: Option<String>,
    /// New password, if changing.
    pub password: Option<String>,
    /// New URL list, if changing.
    pub urls: Option<Vec<String>>,
    /// New notes, if changing.
    pub notes: Option<String>,
}

/// The options of the password generator as the interface sends them.
#[derive(Debug, Clone, PartialEq, Eq)]
pub struct GeneratorOptionsDto {
    /// Number of characters to generate.
    pub length: usize,
    /// Include lowercase letters.
    pub lowercase: bool,
    /// Include uppercase letters.
    pub uppercase: bool,
    /// Include digits.
    pub digits: bool,
    /// Include symbols.
    pub symbols: bool,
    /// Exclude visually ambiguous characters.
    pub exclude_ambiguous: bool,
}

impl Default for GeneratorOptionsDto {
    /// The generator's own defaults, field for field.
    fn default() -> (o: Self)
        ensures
            o.length == 20,
            o.lowercase && o.uppercase && o.digits && o.symbols && o.exclude_ambiguous,
    {
        let d = PasswordOptions::default();
        GeneratorOptionsDto {
            length: d.length,
            lowercase: d.lowercase,
            uppercase: d.uppercase,
            digits: d.digits,
            symbols: d.symbols,
            exclude_ambiguous: d.exclude_ambiguous,
        }
    }
}

/// The generator options `o` describes.
pub open spec fn options_of(o: GeneratorOptionsDto) -> PasswordOptions {
    PasswordOptions {
        length: o.length,
        lowercase: o.lowercase,
        uppercase: o.uppercase,
        digits: o.digits,
        symbols: o.symbols,
        exclude_ambiguous: o.exclude_ambiguous,
    }
}

impl From<GeneratorOptionsDto> for PasswordOptions {
    fn from(o: GeneratorOptionsDto) -> (r: PasswordOptions)
        ensures
            r == options_of(o),
    {
        PasswordOptions {
            length: o.length,
            lowercase: o.lowercase,
            uppercase: o.uppercase,
            digits: o.digits,
            symbols: o.symbols,
            exclude_ambiguous: o.exclude_ambiguous,
        }
    }
}

impl vstd::std_specs::convert::FromSpecImpl<GeneratorOptionsDto> for PasswordOptions {
    open spec fn obeys_from_spec() -> bool {
        true
    }

    open spec fn from_spec(o: GeneratorOptionsDto) -> PasswordOptions {
        options_of(o)
    }
}

/// The character sequences of a list of strings.
pub open spec fn string_views(v: Seq<String>) -> Seq<Seq<char>> {
    v.map_values(|s: String| s@)
}

/// `s` is the list-view summary of the entry `e`.
pub open spec fn summarizes(s: EntrySummary, e: EntryModel) -> bool {
    &&& s.id@ == e.id
    &&& s.title@ == e.title
    &&& s.username@ == e.username
    &&& s.updated@ == e.updated
    &&& match s.primary_url {
        Some(u) => e.urls.len() > 0 && u@ == e.urls[0],
        None => e.urls.len() == 0,
    }
}

/// `v` is the detail view of the entry `e`.
pub open spec fn views(v: EntryView, e: EntryModel) -> bool {
    &&& v.id@ == e.id
    &&& v.title@ == e.title
    &&& v.username@ == e.username
    &&& v.password@ == e.password
    &&& string_views(v.urls@) == e.urls
    &&& v.notes@ == e.notes
    &&& v.created@ == e.created
    &&& v.updated@ == e.updated
}

} // verus!
