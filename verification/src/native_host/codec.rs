//! Length-prefixed framing: a 4-byte little-endian `u32` length followed by
//! exactly that many bytes of UTF-8 JSON.
//!
//! A declared length above [`MAX_MESSAGE_LEN`] is refused before any body is
//! read. A stream that ends cleanly between frames is [`CodecError::Eof`];
//! one that ends inside a frame is [`CodecError::Truncated`].

use vstd::prelude::*;
use vstd::string::StringExecFns;

use crate::text::{decimal_chars, decimal_string};
use crate::vault_core::body_codec::string_from_utf8;
use crate::vault_core::format::{get_le32, le32, lemma_le_roundtrip};

verus! {

/// Largest accepted frame body: 1 MiB.
pub const MAX_MESSAGE_LEN: usize = 1048576;

/// An error framing or reading a message.
#[derive(Debug, Clone, PartialEq, Eq)]
pub enum CodecError {
    /// The stream ended cleanly between messages.
    Eof,
    /// The stream ended inside a frame.
    Truncated,
    /// The declared body length exceeds [`MAX_MESSAGE_LEN`].
    TooLarge(u32),
    /// The body is not valid UTF-8.
    NotUtf8,
    /// The body is not valid JSON of the expected shape.
    InvalidJson,
    /// An I/O error on the stream, with its message.
    Io(String),
}

/// The human-readable message of `e`.
pub open spec fn codec_error_message(e: CodecError) -> Seq<char> {
    match e {
        CodecError::Eof => "end of stream"@,
        CodecError::Truncated => "truncated message"@,
        CodecError::TooLarge(n) => "message length "@ + decimal_chars(n as nat)
            + " exceeds the 1048576-byte limit"@,
        CodecError::NotUtf8 => "message body is not valid UTF-8"@,
        CodecError::InvalidJson => "message body is not valid JSON"@,
        CodecError::Io(m) => "I/O error: "@ + m@,
    }
}

impl CodecError {
    /// The human-readable message of this error.
    pub fn message(&self) -> (s: String)
        ensures
            s@ == codec_error_message(*self),
    {
        match self {
            CodecError::Eof => String::from_str("end of stream"),
            CodecError::Truncated => String::from_str("truncated message"),
            CodecError::TooLarge(n) => {
                let mut s = String::from_str("message length ");
                s.append(decimal_string(*n as u64).as_str());
                s.append(" exceeds the 1048576-byte limit");
                s
            },
            CodecError::NotUtf8 => String::from_str("message body is not valid UTF-8"),
            CodecError::InvalidJson => String::from_str("message body is not valid JSON"),
            CodecError::Io(m) => {
                let mut s = String::from_str("I/O error: ");
                s.append(m.as_str());
                s
            },
        }
    }

    /// The error for a read that ran out of input: at a frame boundary it is
    /// a clean end of stream, inside a frame a truncation.
    pub fn from_read(unexpected_eof: bool, at_frame_boundary: bool, io_message: String) -> (e: CodecError)
        ensures
            unexpected_eof && at_frame_boundary ==> e == CodecError::Eof,
            unexpected_eof && !at_frame_boundary ==> e == CodecError::Truncated,
            !unexpected_eof ==> e == CodecError::Io(io_message),
    {
        if unexpected_eof {
            if at_frame_boundary {
                CodecError::Eof
            } else {
                CodecError::Truncated
            }
        } else {
            CodecError::Io(io_message)
        }
    }
}

/// The frame of `body`: its length as four little-endian bytes, then the
/// body.
pub open spec fn frame_of(body: Seq<u8>) -> Seq<u8> {
    le32(body.len() as u32) + body
}

/// The outcome of reading one frame from the start of `buf`: the body and
/// the length read, or the error.
pub open spec fn read_outcome(buf: Seq<u8>) -> Result<(Seq<u8>, int), CodecError> {
    if buf.len() == 0 {
        Err(CodecError::Eof)
    } else if buf.len() < 4 {
        Err(CodecError::Truncated)
    } else if get_le32(buf, 0) > MAX_MESSAGE_LEN {
        Err(CodecError::TooLarge(get_le32(buf, 0)))
    } else if buf.len() < 4 + get_le32(buf, 0) {
        Err(CodecError::Truncated)
    } else {
        Ok((buf.subrange(4, 4 + get_le32(buf, 0) as int), 4 + get_le32(buf, 0) as int))
    }
}

/// The body length declared by a prefix, refusing one above the cap.
pub fn decode_length(prefix: [u8; 4]) -> (r: Result<usize, CodecError>)
    ensures
        match r {
            Ok(n) => n == get_le32(prefix@, 0) && n <= MAX_MESSAGE_LEN,
            Err(e) => get_le32(prefix@, 0) > MAX_MESSAGE_LEN && e == CodecError::TooLarge(
                get_le32(prefix@, 0),
            ),
        },
{
    let len: u32 = prefix[0] as u32 + 256 * (prefix[1] as u32) + 65536 * (prefix[2] as u32)
        + 16777216 * (prefix[3] as u32);
    if len as usize > MAX_MESSAGE_LEN {
        return Err(CodecError::TooLarge(len));
    }
    Ok(len as usize)
}

/// The body as text, refusing bytes that are not UTF-8.
pub fn body_text(body: Vec<u8>) -> (r: Result<String, CodecError>)
    ensures
        r is Ok <==> vstd::utf8::valid_utf8(body@),
        r matches Err(e) ==> e == CodecError::NotUtf8,
        r matches Ok(s) ==> vstd::utf8::encode_utf8(s@) == body@,
{
    match string_from_utf8(body) {
        Some(s) => Ok(s),
        None => Err(CodecError::NotUtf8),
    }
}

/// The frame to write for `body`, refusing a body above the cap.
pub fn write_message(body: &[u8]) -> (r: Result<Vec<u8>, CodecError>)
    ensures
        body@.len() <= MAX_MESSAGE_LEN ==> (r matches Ok(f) && f@ == frame_of(body@)),
        body@.len() > MAX_MESSAGE_LEN ==> (r matches Err(CodecError::TooLarge(n)) && n
            == body@.len() as u32),
{
    if body.len() > MAX_MESSAGE_LEN {
        return Err(CodecError::TooLarge(body.len() as u32));
    }
    let n = body.len() as u32;
    let mut out: Vec<u8> = Vec::new();
    out.push((n % 256) as u8);
    out.push(((n / 256) % 256) as u8);
    out.push(((n / 65536) % 256) as u8);
    out.push((n / 16777216) as u8);
    proof {
        assert(out@ =~= le32(n));
    }
    out.extend_from_slice(body);
    assert(out@ =~= frame_of(body@));
    Ok(out)
}

/// Read one frame from the start of the buffered stream `buf` and return
/// its body as text and the number of bytes it took.
///
/// An empty buffer is a clean end of stream; a buffer that ends inside the
/// prefix or the body is a truncation; a declared length above the cap is
/// refused without reading the body.
pub fn read_message(buf: &[u8]) -> (r: Result<(String, usize), CodecError>)
    ensures
        match read_outcome(buf@) {
            Err(e) => r == Err::<(String, usize), CodecError>(e),
            Ok((body, used)) => if vstd::utf8::valid_utf8(body) {
                r matches Ok((s, n)) && vstd::utf8::encode_utf8(s@) == body && n == used
            } else {
                r == Err::<(String, usize), CodecError>(CodecError::NotUtf8)
            },
        },
{
    if buf.len() == 0 {
        return Err(CodecError::Eof);
    }
    if buf.len() < 4 {
        return Err(CodecError::Truncated);
    }
    let prefix: [u8; 4] = [buf[0], buf[1], buf[2], buf[3]];
    assert(prefix@ =~= buf@.subrange(0, 4));
    let len = match decode_length(prefix) {
        Ok(n) => n,
        Err(e) => return Err(e),
    };
    if buf.len() - 4 < len {
        return Err(CodecError::Truncated);
    }
    let end: usize = 4 + len;
    let mut body: Vec<u8> = Vec::new();
    let mut i: usize = 0;
    while i < len
        invariant
            0 <= i <= len,
            end == 4 + len,
            end <= buf@.len(),
            body@ == buf@.subrange(4, 4 + i),
        decreases len - i,
    {
        body.push(buf[4 + i]);
        i = i + 1;
        assert(body@ =~= buf@.subrange(4, 4 + i));
    }
    match body_text(body) {
        Ok(s) => Ok((s, end)),
        Err(e) => Err(e),
    }
}

/// A frame read back from the start of a stream gives the body it was
/// written from and its exact length, whatever follows it.
pub proof fn lemma_frame_roundtrip(body: Seq<u8>, rest: Seq<u8>)
    requires
        body.len() <= MAX_MESSAGE_LEN,
    ensures
        read_outcome(frame_of(body) + rest) == Ok::<(Seq<u8>, int), CodecError>(
            (body, 4 + body.len() as int),
        ),
{
    let n = body.len() as u32;
    lemma_le_roundtrip(0, n, 0);
    let b = frame_of(body) + rest;
    assert(b.subrange(0, 4) =~= le32(n));
    assert(b[0] == le32(n)[0] && b[1] == le32(n)[1] && b[2] == le32(n)[2] && b[3] == le32(n)[3]);
    assert(get_le32(b, 0) == get_le32(le32(n), 0));
    assert(b.subrange(4, 4 + body.len() as int) =~= body);
}

/// The error for a stream that ran out after `filled` bytes of a frame:
/// none read is a clean end of stream, some read a truncation.
pub fn end_of_input(filled: usize) -> (e: CodecError)
    ensures
        filled == 0 ==> e == CodecError::Eof,
        filled > 0 ==> e == CodecError::Truncated,
{
    if filled == 0 {
        CodecError::Eof
    } else {
        CodecError::Truncated
    }
}

} // verus!
