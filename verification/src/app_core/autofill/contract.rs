//! The autofill message contract between the browser extension, the
//! native-messaging host and the application.
//!
//! A password appears in exactly one message, [`IpcResponse::Credential`],
//! sent only in reply to [`IpcRequest::GetCredential`]. Match results
//! ([`MatchCandidate`]) have no password field at all.

use vstd::prelude::*;

verus! {

/// A credential candidate for a page, never carrying a password.
#[derive(Debug, Clone, PartialEq, Eq)]
pub struct MatchCandidate {
    /// Stable entry id (used to request the credential later).
    pub id: String,
    /// Entry title.
    pub title: String,
    /// Login username.
    pub username: String,
    /// First associated URL, if any.
    pub primary_url: Option<String>,
}

/// A full credential: the only payload that carries a password.
#[derive(Debug, Clone, PartialEq, Eq)]
pub struct CredentialDto {
    /// Stable entry id.
    pub id: String,
    /// Login username.
    pub username: String,
    /// Login password.
    pub password: String,
}

/// Whether a vault exists and is unlocked.
#[derive(Debug, Clone, PartialEq, Eq)]
pub struct AutofillStatusDto {
    /// Whether a vault is currently unlocked.
    pub unlocked: bool,
    /// Whether a vault file exists on disk.
    pub has_vault: bool,
}

/// A request from the extension, relayed by the native-messaging host.
#[derive(Debug, Clone, PartialEq, Eq)]
pub enum IpcRequest {
    /// Ask whether the application is unlocked.
    GetStatus,
    /// Ask for the candidates matching the top-level page `url`.
    GetMatches {
        /// The top-level page URL.
        url: String,
    },
    /// Ask for the full credential of entry `id` (issued on a user click).
    GetCredential {
        /// The entry id from a prior [`MatchCandidate`].
        id: String,
    },
    /// Offer to save a login entered on a page.
    SaveLogin {
        /// The page URL the login was entered on.
        url: String,
        /// The entered username.
        username: String,
        /// The entered password.
        password: String,
        /// An optional title.
        title: Option<String>,
    },
}

/// A response from the application, relayed back to the extension.
#[derive(Debug, Clone, PartialEq, Eq)]
pub enum IpcResponse {
    /// Reply to [`IpcRequest::GetStatus`].
    Status(AutofillStatusDto),
    /// Reply to [`IpcRequest::GetMatches`]: password-free candidates.
    Matches {
        /// The matching candidates.
        matches: Vec<MatchCandidate>,
    },
    /// Reply to [`IpcRequest::GetCredential`].
    Credential(CredentialDto),
    /// Reply to a successful [`IpcRequest::SaveLogin`].
    Saved {
        /// The id of the saved entry.
        id: String,
    },
    /// Any failure, with a stable machine-readable kind and an optional
    /// message.
    Error {
        /// The error kind.
        kind: String,
        /// An optional human-readable message.
        message: Option<String>,
    },
}

/// A request tagged with the extension's correlation id.
#[derive(Debug, Clone, PartialEq, Eq)]
pub struct RequestEnvelope {
    /// Client-generated correlation id.
    pub req_id: u64,
    /// The wrapped request.
    pub request: IpcRequest,
}

/// A response carrying the correlation id of its request.
#[derive(Debug, Clone, PartialEq, Eq)]
pub struct ResponseEnvelope {
    /// The correlation id echoed from the request.
    pub req_id: u64,
    /// The wrapped response.
    pub response: IpcResponse,
}

} // verus!
