//! Answering the autofill extension's requests: each request goes to the
//! session operation that serves it, and a failure becomes an error reply
//! that carries the error's stable kind and its message.

use vstd::prelude::*;
use vstd::string::StringExecFns;

use crate::app_core::autofill::contract::{IpcRequest, IpcResponse, MatchCandidate};
use crate::app_core::autofill::matching::{candidate_of, matching_entries, url_domain_of};
use crate::app_core::error::{app_error_kind, app_error_message, AppError};
use crate::app_core::state::{touched, AppState, AppStateModel};
use crate::vault_core::vault::{has_id, is_first_with_id};

verus! {

/// The kind of the reply to a request that is not served yet.
pub const UNSUPPORTED_KIND: &'static str = "protocol";

/// The message of the reply to a save-login request, which is not served
/// yet.
pub const SAVE_LOGIN_UNSUPPORTED: &'static str = "saveLogin is not implemented yet";

/// `r` is the error reply for `e`: the error's kind and its message.
pub open spec fn is_error_reply(r: IpcResponse, e: AppError) -> bool {
    r matches IpcResponse::Error { kind, message: Some(m) } && kind@ == app_error_kind(e) && m@
        == app_error_message(e)
}

/// `ms` are the candidates the state `st` offers for the page `url`: none
/// when it is locked or the page has no registrable domain, else one per
/// matching entry, in entry order.
pub open spec fn offers(st: AppStateModel, url: Seq<char>, ms: Seq<MatchCandidate>) -> bool {
    &&& st.session is Locked ==> ms.len() == 0
    &&& url_domain_of(url) is None ==> ms.len() == 0
    &&& st.session is Unlocked && url_domain_of(url) is Some ==> {
        let es = matching_entries(st.session->vault.body.entries, url_domain_of(url)->0);
        &&& ms.len() == es.len()
        &&& forall|i: int| 0 <= i < es.len() ==> #[trigger] candidate_of(ms[i], es[i])
    }
}

/// The reply to a failed request.
pub fn error_response(err: AppError) -> (r: IpcResponse)
    ensures
        is_error_reply(r, err),
{
    IpcResponse::Error { kind: err.kind(), message: Some(err.message()) }
}

impl AppState {
    /// Answer one request of the autofill extension; `has_vault` says
    /// whether the vault file exists. Status and match requests leave the
    /// state as it is; a served credential request counts as activity; a
    /// save-login request is answered with a `protocol` error.
    pub fn answer_request(&mut self, request: IpcRequest, has_vault: bool, now_ms: u64) -> (r:
        IpcResponse)
        ensures
            match request {
                IpcRequest::GetStatus => {
                    &&& final(self)@ == old(self)@
                    &&& r matches IpcResponse::Status(s) && s.unlocked == (old(self)@.session is Unlocked)
                        && s.has_vault == has_vault
                },
                IpcRequest::GetMatches { url } => {
                    &&& final(self)@ == old(self)@
                    &&& r matches IpcResponse::Matches { matches } && offers(old(self)@, url@, matches@)
                },
                IpcRequest::GetCredential { id } => {
                    let st = old(self)@;
                    let es = st.session->vault.body.entries;
                    &&& st.session is Locked ==> final(self)@ == st && is_error_reply(r, AppError::Locked)
                    &&& st.session is Unlocked && !has_id(es, id@) ==> final(self)@ == st
                        && is_error_reply(r, AppError::EntryNotFound(id))
                    &&& st.session is Unlocked && has_id(es, id@) ==> {
                        &&& final(self)@ == touched(st, now_ms)
                        &&& r matches IpcResponse::Credential(c) && exists|i: int|
                            is_first_with_id(es, id@, i) && c.id@ == es[i].id && c.username@
                                == es[i].username && c.password@ == es[i].password
                    }
                },
                IpcRequest::SaveLogin { .. } => {
                    &&& final(self)@ == old(self)@
                    &&& r matches IpcResponse::Error { kind, message: Some(m) } && kind@
                        == UNSUPPORTED_KIND@ && m@ == SAVE_LOGIN_UNSUPPORTED@
                },
            },
    {
        match request {
            IpcRequest::GetStatus => IpcResponse::Status(self.autofill_status(has_vault)),
            IpcRequest::GetMatches { url } => match self.find_matches(url.as_str()) {
                Ok(matches) => IpcResponse::Matches { matches },
                Err(e) => error_response(e),
            },
            IpcRequest::GetCredential { id } => match self.get_credential(id.as_str(), now_ms) {
                Ok(cred) => IpcResponse::Credential(cred),
                Err(e) => {
                    proof {
                        if old(self)@.session is Unlocked && !has_id(
                            old(self)@.session->vault.body.entries,
                            id@,
                        ) {
                            assert(app_error_kind(e) == app_error_kind(AppError::EntryNotFound(id)));
                            assert(app_error_message(e) == app_error_message(
                                AppError::EntryNotFound(id),
                            ));
                        }
                    }
                    error_response(e)
                },
            },
            IpcRequest::SaveLogin { .. } => IpcResponse::Error {
                kind: String::from_str(UNSUPPORTED_KIND),
                message: Some(String::from_str(SAVE_LOGIN_UNSUPPORTED)),
            },
        }
    }
}

} // verus!
