//! The relay's decisions: what to do with each request read from the
//! browser and with what came back from the application.
//!
//! Per-message failures never stop the relay; they become one
//! [`IpcResponse::Error`] reply: an application that cannot be reached, or
//! that closes the connection before replying, gives `coreUnavailable`; an
//! unframable or malformed request, or a malformed reply, gives `protocol`.
//! The relay never looks inside message bodies.

use vstd::prelude::*;
use vstd::string::StringExecFns;

use crate::app_core::autofill::contract::{IpcResponse, RequestEnvelope, ResponseEnvelope};
use crate::native_host::codec::{codec_error_message, CodecError};

verus! {

/// The kind reported when the application cannot be reached.
pub const KIND_CORE_UNAVAILABLE: &'static str = "coreUnavailable";

/// The kind reported for a malformed request or a malformed reply.
pub const KIND_PROTOCOL: &'static str = "protocol";

/// A failure that ends the relay loop.
#[derive(Debug, Clone, PartialEq, Eq)]
pub enum RelayError {
    /// Reading from or writing to the browser failed, with the message.
    BrowserIo(String),
    /// Writing a reply frame to the browser failed.
    Reply(CodecError),
}

/// What to do with the outcome of reading one request from the browser.
#[derive(Debug, Clone, PartialEq, Eq)]
pub enum RequestStep {
    /// The browser closed the stream cleanly: stop.
    Stop,
    /// Stop with an error.
    Fail(RelayError),
    /// Write this reply without contacting the application.
    Reply(ResponseEnvelope),
    /// Forward this request to the application.
    Forward(RequestEnvelope),
}

/// What came of forwarding a request to the application.
#[derive(Debug, Clone, PartialEq, Eq)]
pub enum CoreOutcome {
    /// Connecting failed, with the I/O error's message.
    ConnectFailed(String),
    /// Sending the request failed.
    SendFailed(CodecError),
    /// Reading the reply failed.
    ReadFailed(CodecError),
    /// The application replied.
    Replied(IpcResponse),
}

/// `r` is an error reply of kind `kind` with the message `message`.
pub open spec fn is_error_reply(r: IpcResponse, kind: Seq<char>, message: Seq<char>) -> bool {
    r matches IpcResponse::Error { kind: k, message: Some(m) } && k@ == kind && m@ == message
}

/// An error reply of the given kind and message.
pub fn error_response(kind: &str, message: String) -> (r: IpcResponse)
    ensures
        is_error_reply(r, kind@, message@),
{
    IpcResponse::Error { kind: String::from_str(kind), message: Some(message) }
}

/// Decide on a request read from the browser: a clean end of stream stops
/// the loop, a stream error ends it with `BrowserIo`, any other read
/// failure is answered with a `protocol` error under correlation id 0 (the
/// request's own id is unknown), and a request is forwarded.
pub fn on_request(read: Result<RequestEnvelope, CodecError>) -> (step: RequestStep)
    ensures
        match read {
            Ok(env) => step == RequestStep::Forward(env),
            Err(CodecError::Eof) => step == RequestStep::Stop,
            Err(CodecError::Io(m)) => step == RequestStep::Fail(RelayError::BrowserIo(m)),
            Err(e) => step matches RequestStep::Reply(env) && env.req_id == 0 && is_error_reply(
                env.response,
                KIND_PROTOCOL@,
                codec_error_message(e),
            ),
        },
{
    match read {
        Ok(env) => RequestStep::Forward(env),
        Err(CodecError::Eof) => RequestStep::Stop,
        Err(CodecError::Io(m)) => RequestStep::Fail(RelayError::BrowserIo(m)),
        Err(e) => RequestStep::Reply(
            ResponseEnvelope { req_id: 0, response: error_response(KIND_PROTOCOL, e.message()) },
        ),
    }
}

/// The reply to the browser for the request with correlation id `req_id`,
/// given what came of forwarding it: the application's reply as it is, or
/// an error reply.
pub fn on_core_outcome(req_id: u64, outcome: CoreOutcome) -> (env: ResponseEnvelope)
    ensures
        env.req_id == req_id,
        match outcome {
            CoreOutcome::Replied(resp) => env.response == resp,
            CoreOutcome::ConnectFailed(m) => is_error_reply(
                env.response,
                KIND_CORE_UNAVAILABLE@,
                "cannot reach the Spooky-Pass Core: "@ + m@,
            ),
            CoreOutcome::SendFailed(e) => is_error_reply(
                env.response,
                KIND_CORE_UNAVAILABLE@,
                "failed to send the request to the Core: "@ + codec_error_message(e),
            ),
            CoreOutcome::ReadFailed(CodecError::Eof) => is_error_reply(
                env.response,
                KIND_CORE_UNAVAILABLE@,
                "the Core closed the connection before replying"@,
            ),
            CoreOutcome::ReadFailed(CodecError::Truncated) => is_error_reply(
                env.response,
                KIND_CORE_UNAVAILABLE@,
                "the Core closed the connection before replying"@,
            ),
            CoreOutcome::ReadFailed(e) => is_error_reply(
                env.response,
                KIND_PROTOCOL@,
                "malformed reply from the Core: "@ + codec_error_message(e),
            ),
        },
{
    let response = match outcome {
        CoreOutcome::Replied(resp) => resp,
        CoreOutcome::ConnectFailed(m) => {
            let mut s = String::from_str("cannot reach the Spooky-Pass Core: ");
            s.append(m.as_str());
            error_response(KIND_CORE_UNAVAILABLE, s)
        },
        CoreOutcome::SendFailed(e) => {
            let mut s = String::from_str("failed to send the request to the Core: ");
            s.append(e.message().as_str());
            error_response(KIND_CORE_UNAVAILABLE, s)
        },
        CoreOutcome::ReadFailed(CodecError::Eof) => error_response(
            KIND_CORE_UNAVAILABLE,
            String::from_str("the Core closed the connection before replying"),
        ),
        CoreOutcome::ReadFailed(CodecError::Truncated) => error_response(
            KIND_CORE_UNAVAILABLE,
            String::from_str("the Core closed the connection before replying"),
        ),
        CoreOutcome::ReadFailed(e) => {
            let mut s = String::from_str("malformed reply from the Core: ");
            s.append(e.message().as_str());
            error_response(KIND_PROTOCOL, s)
        },
    };
    ResponseEnvelope { req_id, response }
}

/// The message of a relay error.
pub open spec fn relay_error_message(e: RelayError) -> Seq<char> {
    match e {
        RelayError::BrowserIo(m) => "browser I/O error: "@ + m@,
        RelayError::Reply(c) => "failed to write reply to the browser: "@ + codec_error_message(c),
    }
}

impl RelayError {
    /// The human-readable message of this error.
    pub fn message(&self) -> (s: String)
        ensures
            s@ == relay_error_message(*self),
    {
        match self {
            RelayError::BrowserIo(m) => {
                let mut s = String::from_str("browser I/O error: ");
                s.append(m.as_str());
                s
            },
            RelayError::Reply(c) => {
                let mut s = String::from_str("failed to write reply to the browser: ");
                s.append(c.message().as_str());
                s
            },
        }
    }
}

} // verus!
