//! Tests of the native-messaging host: length-prefixed framing and the
//! relay's decisions.

use spooky_pass::app_core::autofill::contract::{
    AutofillStatusDto, CredentialDto, IpcRequest, IpcResponse, MatchCandidate, RequestEnvelope,
};
use spooky_pass::native_host::codec::{
    decode_length, write_message, end_of_input, read_message, CodecError, MAX_MESSAGE_LEN,
};
use spooky_pass::native_host::relay::{
    on_core_outcome, on_request, CoreOutcome, RelayError, RequestStep,
};

fn frame(body: &[u8]) -> Vec<u8> {
    let mut out = (body.len() as u32).to_le_bytes().to_vec();
    out.extend_from_slice(body);
    out
}

// ---- Codec ---------------------------------------------------------------------

#[test]
fn round_trips_an_envelope() {
    let body = br#"{"reqId":7,"request":{"type":"getMatches","url":"https://example.com"}}"#;
    let framed = write_message(body).unwrap();
    let (text, used) = read_message(&framed).unwrap();
    assert_eq!(text.as_bytes(), &body[..]);
    assert_eq!(used, framed.len());
}

#[test]
fn write_emits_exact_little_endian_prefix() {
    let body = br#"{"a":1}"#;
    let buf = write_message(body).unwrap();
    assert_eq!(&buf[..4], &(body.len() as u32).to_le_bytes());
    assert_eq!(&buf[4..], &body[..]);
}

#[test]
fn reads_back_the_exact_bytes_written() {
    let buf = write_message(br#"{"a":1}"#).unwrap();
    assert_eq!(&buf[..4], &[7, 0, 0, 0]);
}

#[test]
fn multiple_messages_read_in_sequence() {
    let mut buf = Vec::new();
    buf.extend(write_message(br#"{"n":1}"#).unwrap());
    buf.extend(write_message(br#"{"n":2}"#).unwrap());
    buf.extend(write_message(br#"{"n":3}"#).unwrap());

    let mut pos = 0;
    for expected in 1..=3 {
        let (text, used) = read_message(&buf[pos..]).unwrap();
        assert_eq!(text, format!("{{\"n\":{expected}}}"));
        pos += used;
    }
    assert!(matches!(read_message(&buf[pos..]), Err(CodecError::Eof)));
}

#[test]
fn empty_stream_is_clean_eof() {
    assert!(matches!(read_message(&[]), Err(CodecError::Eof)));
}

#[test]
fn truncated_prefix_is_truncated_error() {
    assert!(matches!(read_message(&[1u8, 0]), Err(CodecError::Truncated)));
}

#[test]
fn truncated_body_is_truncated_error() {
    let mut data = 10u32.to_le_bytes().to_vec();
    data.extend_from_slice(b"abc");
    assert!(matches!(read_message(&data), Err(CodecError::Truncated)));
}

#[test]
fn oversize_prefix_is_rejected_without_allocating() {
    let huge = u32::MAX;
    assert!(matches!(read_message(&huge.to_le_bytes()), Err(CodecError::TooLarge(n)) if n == huge));
    assert!(matches!(decode_length(huge.to_le_bytes()), Err(CodecError::TooLarge(n)) if n == huge));
}

#[test]
fn one_byte_over_the_cap_is_rejected() {
    let over = (MAX_MESSAGE_LEN + 1) as u32;
    assert!(matches!(read_message(&over.to_le_bytes()), Err(CodecError::TooLarge(_))));
}

#[test]
fn exactly_the_cap_is_allowed_through_to_the_body_read() {
    let at = MAX_MESSAGE_LEN as u32;
    assert!(matches!(read_message(&at.to_le_bytes()), Err(CodecError::Truncated)));
    assert_eq!(decode_length(at.to_le_bytes()), Ok(MAX_MESSAGE_LEN));
}

#[test]
fn non_utf8_body_is_rejected() {
    assert!(matches!(read_message(&frame(&[0xff, 0xfe, 0xfd])), Err(CodecError::NotUtf8)));
}

#[test]
fn an_oversize_body_is_not_framed() {
    let body = vec![b'x'; MAX_MESSAGE_LEN + 1];
    assert!(matches!(write_message(&body), Err(CodecError::TooLarge(n)) if n as usize == MAX_MESSAGE_LEN + 1));
    let body = vec![b'x'; MAX_MESSAGE_LEN];
    assert_eq!(write_message(&body).unwrap().len(), MAX_MESSAGE_LEN + 4);
}

#[test]
fn running_out_of_input_mid_frame_is_a_truncation() {
    assert_eq!(end_of_input(0), CodecError::Eof);
    assert_eq!(end_of_input(2), CodecError::Truncated);
    assert_eq!(CodecError::from_read(true, true, String::new()), CodecError::Eof);
    assert_eq!(CodecError::from_read(true, false, String::new()), CodecError::Truncated);
    assert_eq!(
        CodecError::from_read(false, true, "broken pipe".into()),
        CodecError::Io("broken pipe".into())
    );
}

#[test]
fn codec_error_messages() {
    assert_eq!(CodecError::TooLarge(5).message(), "message length 5 exceeds the 1048576-byte limit");
    assert_eq!(CodecError::Truncated.message(), "truncated message");
    assert_eq!(CodecError::Io("x".into()).message(), "I/O error: x");
}

// ---- Relay ---------------------------------------------------------------------

#[test]
fn clean_eof_ends_the_loop() {
    let step = on_request(read_message(&[]).map(|_| RequestEnvelope {
        req_id: 0,
        request: IpcRequest::GetStatus,
    }));
    assert_eq!(step, RequestStep::Stop, "empty stdin is a clean shutdown");
}

#[test]
fn a_request_is_forwarded() {
    let env = RequestEnvelope { req_id: 9, request: IpcRequest::GetStatus };
    assert_eq!(on_request(Ok(env.clone())), RequestStep::Forward(env));
}

#[test]
fn malformed_request_frame_maps_to_protocol_error_with_req_id_zero() {
    match on_request(Err(CodecError::InvalidJson)) {
        RequestStep::Reply(reply) => {
            assert_eq!(reply.req_id, 0, "no req_id available -> 0");
            assert!(matches!(
                reply.response,
                IpcResponse::Error { ref kind, message: Some(ref m) }
                    if kind == "protocol" && m == "message body is not valid JSON"
            ));
        }
        other => panic!("unexpected step {other:?}"),
    }
}

#[test]
fn a_broken_browser_stream_ends_the_loop() {
    assert_eq!(
        on_request(Err(CodecError::Io("reset".into()))),
        RequestStep::Fail(RelayError::BrowserIo("reset".into()))
    );
}

#[test]
fn forwards_request_and_relays_reply_echoing_req_id() {
    let request = RequestEnvelope {
        req_id: 99,
        request: IpcRequest::GetMatches { url: "https://github.com".into() },
    };
    let core_reply = IpcResponse::Matches {
        matches: vec![MatchCandidate {
            id: "1".into(),
            title: "GitHub".into(),
            username: "octocat".into(),
            primary_url: Some("https://github.com".into()),
        }],
    };
    let forwarded = match on_request(Ok(request.clone())) {
        RequestStep::Forward(env) => env,
        other => panic!("unexpected step {other:?}"),
    };
    assert_eq!(forwarded, request);
    let reply = on_core_outcome(forwarded.req_id, CoreOutcome::Replied(core_reply));
    assert_eq!(reply.req_id, 99, "req_id echoed");
    assert!(matches!(reply.response, IpcResponse::Matches { ref matches } if matches.len() == 1));
}

#[test]
fn inner_request_is_what_reaches_the_core() {
    let request = RequestEnvelope {
        req_id: 5,
        request: IpcRequest::GetCredential { id: "abc".into() },
    };
    let core_reply = IpcResponse::Credential(CredentialDto {
        id: "abc".into(),
        username: "u".into(),
        password: "p".into(),
    });
    let forwarded = match on_request(Ok(request)) {
        RequestStep::Forward(env) => env,
        other => panic!("unexpected step {other:?}"),
    };
    assert!(matches!(
        forwarded.request,
        IpcRequest::GetCredential { ref id } if id == "abc"
    ));
    let reply = on_core_outcome(forwarded.req_id, CoreOutcome::Replied(core_reply));
    assert!(matches!(reply.response, IpcResponse::Credential(ref c) if c.password == "p"));
    assert_eq!(reply.req_id, 5);
}

#[test]
fn core_connect_failure_maps_to_core_unavailable() {
    let request = RequestEnvelope { req_id: 3, request: IpcRequest::GetStatus };
    let reply = on_core_outcome(request.req_id, CoreOutcome::ConnectFailed("no core".into()));
    assert_eq!(reply.req_id, 3, "still echoes the req_id");
    assert!(matches!(
        reply.response,
        IpcResponse::Error { ref kind, message: Some(ref m) }
            if kind == "coreUnavailable" && m == "cannot reach the Spooky-Pass Core: no core"
    ));
}

#[test]
fn core_closing_before_reply_maps_to_core_unavailable() {
    for e in [CodecError::Eof, CodecError::Truncated] {
        let reply = on_core_outcome(8, CoreOutcome::ReadFailed(e));
        assert_eq!(reply.req_id, 8);
        assert!(matches!(
            reply.response,
            IpcResponse::Error { ref kind, message: Some(ref m) }
                if kind == "coreUnavailable" && m == "the Core closed the connection before replying"
        ));
    }
}

#[test]
fn malformed_core_reply_maps_to_protocol_error() {
    let reply = on_core_outcome(11, CoreOutcome::ReadFailed(CodecError::InvalidJson));
    assert_eq!(reply.req_id, 11);
    assert!(matches!(
        reply.response,
        IpcResponse::Error { ref kind, message: Some(ref m) }
            if kind == "protocol" && m == "malformed reply from the Core: message body is not valid JSON"
    ));
}

#[test]
fn a_status_reply_is_relayed_unchanged() {
    let status = IpcResponse::Status(AutofillStatusDto { unlocked: true, has_vault: true });
    let reply = on_core_outcome(42, CoreOutcome::Replied(status.clone()));
    assert_eq!(reply.req_id, 42);
    assert_eq!(reply.response, status);
}

#[test]
fn a_failed_send_maps_to_core_unavailable() {
    let reply = on_core_outcome(8, CoreOutcome::SendFailed(CodecError::Io("broken pipe".into())));
    assert!(matches!(
        reply.response,
        IpcResponse::Error { ref kind, message: Some(ref m) }
            if kind == "coreUnavailable" && m == "failed to send the request to the Core: I/O error: broken pipe"
    ));
}

#[test]
fn relay_error_messages() {
    assert_eq!(RelayError::BrowserIo("x".into()).message(), "browser I/O error: x");
    assert_eq!(
        RelayError::Reply(CodecError::Truncated).message(),
        "failed to write reply to the browser: truncated message"
    );
}
