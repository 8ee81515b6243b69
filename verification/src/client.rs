//! The request/response logic of the client, free of I/O.
//!
//! One exchange runs: build and encode a request with a fresh
//! correlation identifier ([`build_request`]), write the frame, feed
//! every byte read from the connection to a [`FrameReader`] through
//! [`handle_read_event`] until the frame terminator arrives, then hand
//! the accumulated payload to [`process_response`], which decodes it and
//! validates it against the identifier that was sent. The caller owns
//! the connection and performs the reads and writes; every decision
//! stands here, with a contract.

use vstd::prelude::*;
use vstd::utf8::{encode_utf8, is_ascii_chars, is_ascii_chars_encode_utf8};

use crate::codec::{
    FIELD_SEPARATOR, FRAME_TERMINATOR, Message, MessageView, message_to_bytes, parse_message,
    spec_encode, spec_parse,
};
use crate::errors::{DecodeError, RequestError};

verus! {

/// True of every character that can occur in the textual rendering of a
/// correlation identifier: a lowercase hex digit or a hyphen.
pub open spec fn correlation_id_char(c: char) -> bool {
    c == '-' || ('0' <= c && c <= '9') || ('a' <= c && c <= 'f')
}

/// Relies on `uuid::Uuid::new_v4` and its `Display` rendering: the
/// hyphenated form of a UUID is exactly 36 characters, each a lowercase
/// hex digit or a hyphen. Nothing more can be said of the result: the
/// identifier is random.
#[verifier::external_body]
fn fresh_request_id() -> (r: String)
    ensures
        r@.len() == 36,
        forall|i: int| 0 <= i < r@.len() ==> correlation_id_char(#[trigger] r@[i]),
{
    uuid::Uuid::new_v4().to_string()
}

/// Characters drawn from the correlation-identifier alphabet are ASCII,
/// and their UTF-8 bytes contain neither delimiter byte.
proof fn lemma_correlation_id_clean(s: Seq<char>)
    requires
        forall|i: int| 0 <= i < s.len() ==> correlation_id_char(#[trigger] s[i]),
    ensures
        is_ascii_chars(s),
        !encode_utf8(s).contains(FIELD_SEPARATOR),
        !encode_utf8(s).contains(FRAME_TERMINATOR),
{
    assert forall|i: int| 0 <= i < s.len() implies '\0' <= #[trigger] s[i] <= '\u{7f}' by {
        assert(correlation_id_char(s[i]));
    }
    is_ascii_chars_encode_utf8(s);
    assert forall|i: int| 0 <= i < encode_utf8(s).len() implies encode_utf8(s)[i]
        != FIELD_SEPARATOR && encode_utf8(s)[i] != FRAME_TERMINATOR by {
        assert(encode_utf8(s)[i] == s[i] as u8);
        assert(correlation_id_char(s[i]));
    }
    if encode_utf8(s).contains(FIELD_SEPARATOR) {
        let i = choose|i: int|
            0 <= i < encode_utf8(s).len() && encode_utf8(s)[i] == FIELD_SEPARATOR;
    }
    if encode_utf8(s).contains(FRAME_TERMINATOR) {
        let i = choose|i: int|
            0 <= i < encode_utf8(s).len() && encode_utf8(s)[i] == FRAME_TERMINATOR;
    }
}

/// Copies a byte slice into a fresh vector.
fn bytes_to_vec(data: &[u8]) -> (r: Vec<u8>)
    ensures
        r@ == data@,
{
    let mut out: Vec<u8> = Vec::new();
    let mut i: usize = 0;
    while i < data.len()
        invariant
            i <= data@.len(),
            out@ == data@.subrange(0, i as int),
        decreases data@.len() - i,
    {
        out.push(data[i]);
        assert(out@ =~= data@.subrange(0, i + 1));
        i += 1;
    }
    assert(data@.subrange(0, data@.len() as int) =~= data@);
    out
}

/// Builds one request and its encoded frame: a fresh correlation
/// identifier, the given method name, an empty error field, and the
/// given body. The identifier's characters come from the hex-and-hyphen
/// alphabet, so its bytes contain neither delimiter byte and the frame
/// always decodes back to the message on the peer's side.
pub fn build_request(method_name: &str, request_body: &[u8]) -> (r: (Message, Vec<u8>))
    ensures
        r.0@.method_name == method_name@,
        r.0@.error.len() == 0,
        r.0@.body == request_body@,
        r.1@ == spec_encode(r.0@),
        r.0@.request_id.len() == 36,
        forall|i: int|
            0 <= i < r.0@.request_id.len() ==> correlation_id_char(#[trigger] r.0@.request_id[i]),
        is_ascii_chars(r.0@.request_id),
        !encode_utf8(r.0@.request_id).contains(FIELD_SEPARATOR),
        !encode_utf8(r.0@.request_id).contains(FRAME_TERMINATOR),
{
    let request_id = fresh_request_id();
    proof {
        lemma_correlation_id_clean(request_id@);
    }
    let message = Message {
        request_id,
        method_name: method_name.to_owned(),
        error: String::new(),
        body: bytes_to_vec(request_body),
    };
    let frame = message_to_bytes(&message);
    (message, frame)
}

/// Accumulates the bytes of one frame as they arrive from the
/// connection, stopping at the frame terminator and excluding it.
pub struct FrameReader {
    payload: Vec<u8>,
    complete: bool,
}

impl FrameReader {
    /// The payload bytes accumulated so far, the terminator excluded.
    pub closed spec fn seen(&self) -> Seq<u8> {
        self.payload@
    }

    /// Whether the frame terminator has been observed.
    pub closed spec fn done(&self) -> bool {
        self.complete
    }

    /// The accumulated payload never holds the terminator byte.
    pub closed spec fn wf(&self) -> bool {
        !self.payload@.contains(FRAME_TERMINATOR)
    }

    /// A fresh reader: nothing seen, terminator not observed.
    pub fn new() -> (r: FrameReader)
        ensures
            r.seen() == Seq::<u8>::empty(),
            !r.done(),
            r.wf(),
    {
        FrameReader { payload: Vec::new(), complete: false }
    }

    /// Feeds one byte from the connection. The terminator completes the
    /// frame and is not kept; any other byte joins the payload. Yields
    /// whether the frame is now complete.
    pub fn push_byte(&mut self, byte: u8) -> (done: bool)
        requires
            !old(self).done(),
            old(self).wf(),
        ensures
            final(self).wf(),
            done == final(self).done(),
            byte == FRAME_TERMINATOR ==> final(self).done() && final(self).seen() == old(
                self,
            ).seen(),
            byte != FRAME_TERMINATOR ==> !final(self).done() && final(self).seen() == old(
                self,
            ).seen().push(byte),
    {
        if byte == FRAME_TERMINATOR {
            self.complete = true;
            true
        } else {
            self.payload.push(byte);
            proof {
                assert(!self.payload@.contains(FRAME_TERMINATOR)) by {
                    if self.payload@.contains(FRAME_TERMINATOR) {
                        let i = choose|i: int|
                            0 <= i < self.payload@.len() && self.payload@[i] == FRAME_TERMINATOR;
                        assert(old(self).payload@[i] == FRAME_TERMINATOR);
                    }
                }
            }
            false
        }
    }

    /// Whether the frame terminator has been observed.
    pub fn is_done(&self) -> (b: bool)
        ensures
            b == self.done(),
    {
        self.complete
    }

    /// Hands the accumulated payload out, consuming the reader.
    pub fn into_payload(self) -> (r: Vec<u8>)
        ensures
            r@ == self.seen(),
    {
        self.payload
    }
}

/// One outcome of a single read on the connection, as the caller
/// observed it. The transport work itself happens outside this crate;
/// only the outcome is handed in.
pub enum ReadEvent {
    /// One byte arrived.
    Byte(u8),
    /// The stream ended before a byte arrived.
    EndOfStream,
    /// The read deadline elapsed before a byte arrived.
    TimedOut,
    /// The transport failed in some other way.
    Failed,
}

/// Advances the frame accumulation by one read outcome. A byte is fed
/// to the reader; `Ok(true)` says the frame is complete. An elapsed
/// deadline fails with the timeout error, and a closed or failed
/// connection with the connection error — in both cases before a full
/// frame was seen, so the exchange is over.
pub fn handle_read_event(reader: &mut FrameReader, event: ReadEvent) -> (r: Result<
    bool,
    RequestError,
>)
    requires
        !old(reader).done(),
        old(reader).wf(),
    ensures
        final(reader).wf(),
        match event {
            ReadEvent::Byte(b) => {
                &&& r matches Ok(done) && done == final(reader).done()
                &&& b == FRAME_TERMINATOR ==> final(reader).done() && final(reader).seen() == old(
                    reader,
                ).seen()
                &&& b != FRAME_TERMINATOR ==> !final(reader).done() && final(reader).seen() == old(
                    reader,
                ).seen().push(b)
            },
            ReadEvent::TimedOut => r == Err::<bool, RequestError>(RequestError::Timeout)
                && *final(reader) == *old(reader),
            ReadEvent::EndOfStream => r == Err::<bool, RequestError>(RequestError::Connection)
                && *final(reader) == *old(reader),
            ReadEvent::Failed => r == Err::<bool, RequestError>(RequestError::Connection)
                && *final(reader) == *old(reader),
        },
{
    match event {
        ReadEvent::Byte(b) => Ok(reader.push_byte(b)),
        ReadEvent::TimedOut => Err(RequestError::Timeout),
        ReadEvent::EndOfStream => Err(RequestError::Connection),
        ReadEvent::Failed => Err(RequestError::Connection),
    }
}

/// Validates a decoded response against the identifier that was sent.
/// A non-empty error field fails with the peer's message, whatever the
/// response's identifier says; then a wrong identifier fails as a
/// correlation mismatch and the body is discarded; otherwise the body
/// is the result.
pub fn validate_response(expected_id: &str, response: Message) -> (r: Result<Vec<u8>, RequestError>)
    ensures
        response@.error.len() > 0 ==> (r matches Err(e) && e matches RequestError::Application {
            message,
        } && message@ == response@.error),
        response@.error.len() == 0 && response@.request_id != expected_id@ ==> (r matches Err(e)
            && e matches RequestError::CorrelationMismatch { sent, received } && sent@
            == expected_id@ && received@ == response@.request_id),
        response@.error.len() == 0 && response@.request_id == expected_id@ ==> (r matches Ok(body)
            && body@ == response@.body),
{
    if !response.error.as_str().is_empty() {
        return Err(RequestError::Application { message: response.error });
    }
    let expected = expected_id.to_owned();
    if !(response.request_id == expected) {
        return Err(
            RequestError::CorrelationMismatch { sent: expected, received: response.request_id },
        );
    }
    Ok(response.body)
}

/// Decodes an accumulated frame payload and validates it against the
/// identifier that was sent: a malformed payload fails as a protocol
/// error with its decode cause; a decoded response goes through
/// [`validate_response`].
pub fn process_response(expected_id: &str, payload: &[u8]) -> (r: Result<Vec<u8>, RequestError>)
    ensures
        spec_parse(payload@) matches Err(cause) ==> r == Err::<Vec<u8>, RequestError>(
            RequestError::Protocol { cause },
        ),
        spec_parse(payload@) matches Ok(v) ==> {
            &&& v.error.len() > 0 ==> (r matches Err(e) && e matches RequestError::Application {
                message,
            } && message@ == v.error)
            &&& v.error.len() == 0 && v.request_id != expected_id@ ==> (r matches Err(e)
                && e matches RequestError::CorrelationMismatch { sent, received } && sent@
                == expected_id@ && received@ == v.request_id)
            &&& v.error.len() == 0 && v.request_id == expected_id@ ==> (r matches Ok(body) && body@
                == v.body)
        },
{
    let message = match parse_message(payload) {
        Ok(m) => m,
        Err(cause) => {
            return Err(RequestError::Protocol { cause });
        },
    };
    validate_response(expected_id, message)
}

} // verus!
