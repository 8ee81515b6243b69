//! The frame codec: a deterministic, bijective mapping between a
//! [`Message`] and a delimited byte frame.
//!
//! Wire layout: the four fields stand in fixed order — request identifier,
//! method name, error text, body — each adjacent pair separated by the
//! single byte [`FIELD_SEPARATOR`], and the whole frame closed by the
//! single byte [`FRAME_TERMINATOR`]. There are no length prefixes and no
//! escaping: the protocol relies on neither delimiter byte occurring
//! inside field content.

use vstd::prelude::*;
use vstd::utf8::{decode_utf8, encode_utf8, valid_utf8};

use crate::errors::DecodeError;

verus! {

/// The byte that separates adjacent fields within a frame.
pub const FIELD_SEPARATOR: u8 = 0x1E;

/// The byte that marks the end of a frame.
pub const FRAME_TERMINATOR: u8 = 0x1F;

/// The number of fields a well-formed frame splits into.
pub const PROTOCOL_FIELDS: usize = 4;

/// The field-separator byte, as a one-byte slice.
pub fn metadata_delim() -> (r: &'static [u8])
    ensures
        r@ == seq![FIELD_SEPARATOR],
{
    &[FIELD_SEPARATOR]
}

/// The frame-terminator byte.
pub fn message_delim() -> (r: u8)
    ensures
        r == FRAME_TERMINATOR,
{
    FRAME_TERMINATOR
}

/// The unit exchanged in both directions.
#[derive(Debug)]
pub struct Message {
    /// Correlation token assigned by the client per request; echoed
    /// verbatim by the peer in its response.
    pub request_id: String,
    /// Names the remote operation; meaningful only on a request.
    pub method_name: String,
    /// Empty when the peer succeeded; non-empty text describes an
    /// application-level failure.
    pub error: String,
    /// The request or response payload: an opaque byte sequence.
    pub body: Vec<u8>,
}

/// The mathematical value of a [`Message`]: its three text fields as
/// character sequences and its body as a byte sequence.
pub struct MessageView {
    pub request_id: Seq<char>,
    pub method_name: Seq<char>,
    pub error: Seq<char>,
    pub body: Seq<u8>,
}

impl View for Message {
    type V = MessageView;

    open spec fn view(&self) -> MessageView {
        MessageView {
            request_id: self.request_id@,
            method_name: self.method_name@,
            error: self.error@,
            body: self.body@,
        }
    }
}

/// The frame for a message, without its terminator: the UTF-8 bytes of
/// the three text fields and the body bytes, joined by the field
/// separator.
pub open spec fn spec_encode_payload(m: MessageView) -> Seq<u8> {
    encode_utf8(m.request_id) + seq![FIELD_SEPARATOR] + encode_utf8(m.method_name)
        + seq![FIELD_SEPARATOR] + encode_utf8(m.error) + seq![FIELD_SEPARATOR] + m.body
}

/// The complete frame for a message: its payload followed by the frame
/// terminator.
pub open spec fn spec_encode(m: MessageView) -> Seq<u8> {
    spec_encode_payload(m).push(FRAME_TERMINATOR)
}

/// Appends every byte of `data` to `out`, in order.
fn append_bytes(out: &mut Vec<u8>, data: &[u8])
    ensures
        final(out)@ == old(out)@ + data@,
{
    let mut i: usize = 0;
    while i < data.len()
        invariant
            i <= data@.len(),
            out@ == old(out)@ + data@.subrange(0, i as int),
        decreases data@.len() - i,
    {
        out.push(data[i]);
        assert(out@ == old(out)@ + data@.subrange(0, i + 1));
        i += 1;
    }
    assert(data@.subrange(0, data@.len() as int) == data@);
}

/// The fields a payload splits into on the field separator: every
/// maximal run of non-separator bytes, with one (possibly empty) part
/// between every two separators and at both ends. A payload with no
/// separator is one part; the empty payload is one empty part.
pub open spec fn spec_split(bytes: Seq<u8>) -> Seq<Seq<u8>>
    decreases bytes.len(),
{
    if bytes.len() == 0 {
        seq![Seq::<u8>::empty()]
    } else if bytes[0] == FIELD_SEPARATOR {
        seq![Seq::<u8>::empty()] + spec_split(bytes.drop_first())
    } else {
        let rest = spec_split(bytes.drop_first());
        seq![seq![bytes[0]] + rest[0]] + rest.drop_first()
    }
}

/// A split always yields at least one part.
proof fn lemma_split_len(bytes: Seq<u8>)
    ensures
        spec_split(bytes).len() >= 1,
    decreases bytes.len(),
{
    if bytes.len() != 0 {
        lemma_split_len(bytes.drop_first());
    }
}

/// A payload without a separator is a single part: itself.
proof fn lemma_split_no_separator(bytes: Seq<u8>)
    requires
        !bytes.contains(FIELD_SEPARATOR),
    ensures
        spec_split(bytes) == seq![bytes],
    decreases bytes.len(),
{
    if bytes.len() == 0 {
        assert(spec_split(bytes) =~~= seq![bytes]);
    } else {
        assert(bytes[0] != FIELD_SEPARATOR);
        assert(!bytes.drop_first().contains(FIELD_SEPARATOR)) by {
            if bytes.drop_first().contains(FIELD_SEPARATOR) {
                let i = choose|i: int|
                    0 <= i < bytes.drop_first().len() && bytes.drop_first()[i] == FIELD_SEPARATOR;
                assert(bytes[i + 1] == FIELD_SEPARATOR);
            }
        }
        lemma_split_no_separator(bytes.drop_first());
        lemma_split_len(bytes.drop_first());
        assert(seq![bytes[0]] + bytes.drop_first() =~= bytes);
        assert(spec_split(bytes) =~~= seq![bytes]);
    }
}

/// Splitting at the first separator: if no separator stands before
/// position `i` and a separator stands at `i`, the first part is the
/// prefix before `i` and the rest is the split of what follows it.
proof fn lemma_split_at_first_separator(bytes: Seq<u8>, i: int)
    requires
        0 <= i < bytes.len(),
        bytes[i] == FIELD_SEPARATOR,
        forall|j: int| 0 <= j < i ==> bytes[j] != FIELD_SEPARATOR,
    ensures
        spec_split(bytes) == seq![bytes.subrange(0, i)] + spec_split(
            bytes.subrange(i + 1, bytes.len() as int),
        ),
    decreases bytes.len(),
{
    if i == 0 {
        assert(bytes.drop_first() =~= bytes.subrange(1, bytes.len() as int));
        assert(bytes.subrange(0, 0) =~= Seq::<u8>::empty());
        assert(spec_split(bytes) =~~= seq![bytes.subrange(0, 0)] + spec_split(
            bytes.subrange(1, bytes.len() as int),
        ));
    } else {
        let tail = bytes.drop_first();
        assert(tail[i - 1] == FIELD_SEPARATOR);
        lemma_split_at_first_separator(tail, i - 1);
        lemma_split_len(tail.subrange(i, tail.len() as int));
        assert(tail.subrange(0, i - 1) =~= bytes.subrange(1, i));
        assert(tail.subrange(i, tail.len() as int) =~= bytes.subrange(i + 1, bytes.len() as int));
        assert(seq![bytes[0]] + bytes.subrange(1, i) =~= bytes.subrange(0, i));
        assert(spec_split(bytes) =~~= seq![bytes.subrange(0, i)] + spec_split(
            bytes.subrange(i + 1, bytes.len() as int),
        ));
    }
}

/// Splits a payload into its fields on the field separator.
fn split_on_separator(bytes: &[u8]) -> (parts: Vec<Vec<u8>>)
    ensures
        parts.deep_view() == spec_split(bytes@),
{
    let ghost full = bytes@;
    let mut parts: Vec<Vec<u8>> = Vec::new();
    let mut current: Vec<u8> = Vec::new();
    let mut start: usize = 0;
    let mut i: usize = 0;
    proof {
        assert(full.subrange(0, full.len() as int) =~= full);
        assert(parts.deep_view() + spec_split(full) =~~= spec_split(full));
    }
    while i < bytes.len()
        invariant
            0 <= start <= i <= full.len(),
            bytes@ == full,
            current@ == full.subrange(start as int, i as int),
            forall|j: int| start <= j < i ==> full[j] != FIELD_SEPARATOR,
            spec_split(full) == parts.deep_view() + spec_split(
                full.subrange(start as int, full.len() as int),
            ),
        decreases full.len() - i,
    {
        let b = bytes[i];
        if b == FIELD_SEPARATOR {
            proof {
                let suffix = full.subrange(start as int, full.len() as int);
                lemma_split_at_first_separator(suffix, i - start);
                assert(suffix.subrange(0, i - start) =~= full.subrange(start as int, i as int));
                assert(suffix.subrange(i - start + 1, suffix.len() as int) =~= full.subrange(
                    i + 1,
                    full.len() as int,
                ));
            }
            let ghost prev = parts.deep_view();
            parts.push(current);
            current = Vec::new();
            proof {
                assert(parts.deep_view() =~~= prev.push(full.subrange(start as int, i as int)));
                assert(spec_split(full) =~~= parts.deep_view() + spec_split(
                    full.subrange(i + 1, full.len() as int),
                ));
            }
            start = i + 1;
        } else {
            current.push(b);
            assert(current@ =~= full.subrange(start as int, i + 1));
        }
        i += 1;
    }
    proof {
        let suffix = full.subrange(start as int, full.len() as int);
        assert(!suffix.contains(FIELD_SEPARATOR)) by {
            if suffix.contains(FIELD_SEPARATOR) {
                let k = choose|k: int| 0 <= k < suffix.len() && suffix[k] == FIELD_SEPARATOR;
                assert(full[start + k] == FIELD_SEPARATOR);
            }
        }
        lemma_split_no_separator(suffix);
        assert(current@ == suffix);
    }
    let ghost prev = parts.deep_view();
    parts.push(current);
    proof {
        assert(parts.deep_view() =~~= prev.push(full.subrange(start as int, full.len() as int)));
        assert(spec_split(full) =~~= parts.deep_view());
    }
    parts
}

/// The message a payload decodes to, or why it does not. The payload
/// must split into exactly [`PROTOCOL_FIELDS`] parts on the field
/// separator, and the first three parts must be valid UTF-8; the fourth
/// part is the body, taken as raw bytes.
pub open spec fn spec_parse(payload: Seq<u8>) -> Result<MessageView, DecodeError> {
    let parts = spec_split(payload);
    if parts.len() != PROTOCOL_FIELDS {
        Err(DecodeError::WrongFieldCount { parts: parts.len() as usize })
    } else if !valid_utf8(parts[0]) {
        Err(DecodeError::InvalidText { field: 0 })
    } else if !valid_utf8(parts[1]) {
        Err(DecodeError::InvalidText { field: 1 })
    } else if !valid_utf8(parts[2]) {
        Err(DecodeError::InvalidText { field: 2 })
    } else {
        Ok(
            MessageView {
                request_id: decode_utf8(parts[0]),
                method_name: decode_utf8(parts[1]),
                error: decode_utf8(parts[2]),
                body: parts[3],
            },
        )
    }
}

/// Relies on `String::from_utf8`: it succeeds exactly on input that is
/// valid UTF-8, and then yields the characters those bytes encode.
#[verifier::external_body]
fn string_from_utf8(bytes: Vec<u8>) -> (r: Option<String>)
    ensures
        r is Some <==> valid_utf8(bytes@),
        r matches Some(s) ==> s@ == decode_utf8(bytes@),
{
    String::from_utf8(bytes).ok()
}

/// Decodes a frame payload (the bytes of a frame, terminator excluded)
/// into a message. Fails with `WrongFieldCount` when the payload does
/// not split into exactly four fields, and with `InvalidText` when one
/// of the first three fields is not valid UTF-8; the first offending
/// field decides.
pub fn parse_message(payload: &[u8]) -> (r: Result<Message, DecodeError>)
    ensures
        r matches Ok(m) ==> spec_parse(payload@) == Ok::<MessageView, DecodeError>(m@),
        r matches Err(e) ==> spec_parse(payload@) == Err::<MessageView, DecodeError>(e),
{
    let mut parts = split_on_separator(payload);
    if parts.len() != PROTOCOL_FIELDS {
        return Err(DecodeError::WrongFieldCount { parts: parts.len() });
    }
    let ghost sparts = spec_split(payload@);
    let first = parts.remove(0);
    let second = parts.remove(0);
    let third = parts.remove(0);
    let fourth = parts.remove(0);
    proof {
        assert(first@ =~= first.deep_view());
        assert(second@ =~= second.deep_view());
        assert(third@ =~= third.deep_view());
        assert(fourth@ =~= fourth.deep_view());
        assert(first.deep_view() == sparts[0]);
        assert(second.deep_view() == sparts[1]);
        assert(third.deep_view() == sparts[2]);
        assert(fourth.deep_view() == sparts[3]);
    }
    let request_id = match string_from_utf8(first) {
        Some(s) => s,
        None => {
            return Err(DecodeError::InvalidText { field: 0 });
        },
    };
    let method_name = match string_from_utf8(second) {
        Some(s) => s,
        None => {
            return Err(DecodeError::InvalidText { field: 1 });
        },
    };
    let error = match string_from_utf8(third) {
        Some(s) => s,
        None => {
            return Err(DecodeError::InvalidText { field: 2 });
        },
    };
    Ok(Message { request_id, method_name, error, body: fourth })
}

/// Encodes a message as its byte frame.
pub fn message_to_bytes(m: &Message) -> (r: Vec<u8>)
    ensures
        r@ == spec_encode(m@),
{
    let mut buffer: Vec<u8> = Vec::new();
    append_bytes(&mut buffer, m.request_id.as_str().as_bytes());
    buffer.push(FIELD_SEPARATOR);
    append_bytes(&mut buffer, m.method_name.as_str().as_bytes());
    buffer.push(FIELD_SEPARATOR);
    append_bytes(&mut buffer, m.error.as_str().as_bytes());
    buffer.push(FIELD_SEPARATOR);
    append_bytes(&mut buffer, m.body.as_slice());
    buffer.push(FRAME_TERMINATOR);
    buffer
}

/// The frame payload carried by a byte stream: the bytes that precede
/// the first frame terminator, or nothing when no terminator has
/// arrived.
pub open spec fn spec_frame_payload(stream: Seq<u8>) -> Option<Seq<u8>>
    decreases stream.len(),
{
    if stream.len() == 0 {
        None
    } else if stream[0] == FRAME_TERMINATOR {
        Some(Seq::<u8>::empty())
    } else {
        match spec_frame_payload(stream.drop_first()) {
            Some(p) => Some(seq![stream[0]] + p),
            None => None,
        }
    }
}

/// A stream without a terminator carries no frame payload.
proof fn lemma_frame_payload_none(stream: Seq<u8>)
    requires
        !stream.contains(FRAME_TERMINATOR),
    ensures
        spec_frame_payload(stream) is None,
    decreases stream.len(),
{
    if stream.len() != 0 {
        assert(stream[0] != FRAME_TERMINATOR);
        assert(!stream.drop_first().contains(FRAME_TERMINATOR)) by {
            if stream.drop_first().contains(FRAME_TERMINATOR) {
                let i = choose|i: int|
                    0 <= i < stream.drop_first().len() && stream.drop_first()[i]
                        == FRAME_TERMINATOR;
                assert(stream[i + 1] == FRAME_TERMINATOR);
            }
        }
        lemma_frame_payload_none(stream.drop_first());
    }
}

/// A terminator-free payload followed by the terminator — and then
/// anything at all — carries exactly that payload.
proof fn lemma_frame_payload_of_frame(payload: Seq<u8>, rest: Seq<u8>)
    requires
        !payload.contains(FRAME_TERMINATOR),
    ensures
        spec_frame_payload(payload.push(FRAME_TERMINATOR) + rest) == Some(payload),
    decreases payload.len(),
{
    let stream = payload.push(FRAME_TERMINATOR) + rest;
    if payload.len() == 0 {
        assert(stream[0] == FRAME_TERMINATOR);
    } else {
        assert(stream[0] == payload[0]);
        assert(stream[0] != FRAME_TERMINATOR);
        assert(!payload.drop_first().contains(FRAME_TERMINATOR)) by {
            if payload.drop_first().contains(FRAME_TERMINATOR) {
                let i = choose|i: int|
                    0 <= i < payload.drop_first().len() && payload.drop_first()[i]
                        == FRAME_TERMINATOR;
                assert(payload[i + 1] == FRAME_TERMINATOR);
            }
        }
        lemma_frame_payload_of_frame(payload.drop_first(), rest);
        assert(stream.drop_first() =~= payload.drop_first().push(FRAME_TERMINATOR) + rest);
        assert(seq![payload[0]] + payload.drop_first() =~= payload);
    }
}

/// Reads one frame payload out of a byte buffer: the bytes before the
/// first frame terminator, the terminator itself excluded. Yields
/// nothing when the buffer holds no terminator.
pub fn extract_payload(stream: &[u8]) -> (r: Option<Vec<u8>>)
    ensures
        r matches Some(p) ==> spec_frame_payload(stream@) == Some(p@),
        r is None ==> spec_frame_payload(stream@) is None,
{
    let mut payload: Vec<u8> = Vec::new();
    let mut i: usize = 0;
    while i < stream.len()
        invariant
            0 <= i <= stream@.len(),
            payload@ == stream@.subrange(0, i as int),
            forall|j: int| 0 <= j < i ==> stream@[j] != FRAME_TERMINATOR,
        decreases stream@.len() - i,
    {
        let b = stream[i];
        if b == FRAME_TERMINATOR {
            proof {
                assert(!payload@.contains(FRAME_TERMINATOR));
                lemma_frame_payload_of_frame(
                    payload@,
                    stream@.subrange(i + 1, stream@.len() as int),
                );
                assert(payload@.push(FRAME_TERMINATOR) + stream@.subrange(
                    i + 1,
                    stream@.len() as int,
                ) =~= stream@);
            }
            return Some(payload);
        }
        payload.push(b);
        assert(payload@ =~= stream@.subrange(0, i + 1));
        i += 1;
    }
    proof {
        assert(stream@.subrange(0, stream@.len() as int) =~= stream@);
        assert(!stream@.contains(FRAME_TERMINATOR));
        lemma_frame_payload_none(stream@);
    }
    None
}

/// Cardinality rejection: a payload that splits into fewer or more
/// than four parts on the field separator never decodes, not even
/// partially — parsing it yields exactly the field-count error.
pub proof fn lemma_cardinality_rejection(payload: Seq<u8>)
    requires
        spec_split(payload).len() != PROTOCOL_FIELDS,
    ensures
        spec_parse(payload) == Err::<MessageView, DecodeError>(
            DecodeError::WrongFieldCount { parts: spec_split(payload).len() as usize },
        ),
{
}

/// Text-validity rejection: a payload whose first three fields are not
/// all valid UTF-8 never decodes — parsing it yields the text error of
/// the first offending field.
pub proof fn lemma_text_validity_rejection(payload: Seq<u8>)
    requires
        spec_split(payload).len() == PROTOCOL_FIELDS,
        !valid_utf8(spec_split(payload)[0]) || !valid_utf8(spec_split(payload)[1]) || !valid_utf8(
            spec_split(payload)[2],
        ),
    ensures
        spec_parse(payload) matches Err(e) && e matches DecodeError::InvalidText { field }
            && field < 3 && !valid_utf8(spec_split(payload)[field as int]),
{
}

/// A byte absent from two sequences is absent from their concatenation.
proof fn lemma_concat_not_contains(a: Seq<u8>, b: Seq<u8>, x: u8)
    requires
        !a.contains(x),
        !b.contains(x),
    ensures
        !(a + b).contains(x),
{
    if (a + b).contains(x) {
        let i = choose|i: int| 0 <= i < (a + b).len() && (a + b)[i] == x;
        if i < a.len() {
            assert(a[i] == x);
        } else {
            assert(b[i - a.len()] == x);
        }
    }
}

/// Splitting one field off the front: a separator-free field, a
/// separator, and then anything at all split into that field followed by
/// the split of the rest.
proof fn lemma_split_field(field: Seq<u8>, rest: Seq<u8>)
    requires
        !field.contains(FIELD_SEPARATOR),
    ensures
        spec_split(field + seq![FIELD_SEPARATOR] + rest) == seq![field] + spec_split(rest),
{
    let payload = field + seq![FIELD_SEPARATOR] + rest;
    let n = field.len() as int;
    assert(payload[n] == FIELD_SEPARATOR);
    assert forall|j: int| 0 <= j < n implies payload[j] != FIELD_SEPARATOR by {
        assert(payload[j] == field[j]);
    }
    lemma_split_at_first_separator(payload, n);
    assert(payload.subrange(0, n) =~= field);
    assert(payload.subrange(n + 1, payload.len() as int) =~= rest);
}

/// No delimiter byte occurs anywhere in the encoded frame of `m`:
/// neither in the UTF-8 bytes of the three text fields nor in the body.
pub open spec fn delimiter_free(m: MessageView) -> bool {
    &&& !encode_utf8(m.request_id).contains(FIELD_SEPARATOR)
    &&& !encode_utf8(m.request_id).contains(FRAME_TERMINATOR)
    &&& !encode_utf8(m.method_name).contains(FIELD_SEPARATOR)
    &&& !encode_utf8(m.method_name).contains(FRAME_TERMINATOR)
    &&& !encode_utf8(m.error).contains(FIELD_SEPARATOR)
    &&& !encode_utf8(m.error).contains(FRAME_TERMINATOR)
    &&& !m.body.contains(FIELD_SEPARATOR)
    &&& !m.body.contains(FRAME_TERMINATOR)
}

/// Half of the round-trip law: parsing the encoded payload of a message
/// gives the message back, provided the field separator occurs neither
/// in the UTF-8 bytes of the three text fields nor in the body. (A
/// separator inside the body is enough to break this: the payload then
/// splits into more than four parts and parsing rejects it.)
pub proof fn lemma_parse_encode_payload(m: MessageView)
    requires
        !encode_utf8(m.request_id).contains(FIELD_SEPARATOR),
        !encode_utf8(m.method_name).contains(FIELD_SEPARATOR),
        !encode_utf8(m.error).contains(FIELD_SEPARATOR),
        !m.body.contains(FIELD_SEPARATOR),
    ensures
        spec_parse(spec_encode_payload(m)) == Ok::<MessageView, DecodeError>(m),
{
    let a = encode_utf8(m.request_id);
    let b = encode_utf8(m.method_name);
    let c = encode_utf8(m.error);
    let d = m.body;
    let sep = seq![FIELD_SEPARATOR];
    let payload = spec_encode_payload(m);
    assert(payload =~= a + sep + (b + sep + (c + sep + d)));
    lemma_split_field(a, b + sep + (c + sep + d));
    lemma_split_field(b, c + sep + d);
    lemma_split_field(c, d);
    lemma_split_no_separator(d);
    assert(spec_split(payload) =~~= seq![a, b, c, d]);
    broadcast use vstd::utf8::encode_utf8_valid_utf8, vstd::utf8::encode_utf8_decode_utf8;

    assert(spec_parse(payload) matches Ok(v) && v == m);
}

/// The round-trip law: a message whose encoded fields contain neither
/// delimiter byte comes back intact. Its complete frame, read as a byte
/// stream, carries exactly the encoded payload, and parsing that
/// payload gives the message itself. Both delimiter bytes must be
/// absent from the body as well as from the text fields: a separator in
/// the body changes the field count, and a terminator in it ends the
/// frame early.
pub proof fn lemma_round_trip(m: MessageView)
    requires
        delimiter_free(m),
    ensures
        spec_frame_payload(spec_encode(m)) == Some(spec_encode_payload(m)),
        spec_parse(spec_encode_payload(m)) == Ok::<MessageView, DecodeError>(m),
{
    let payload = spec_encode_payload(m);
    let a = encode_utf8(m.request_id);
    let b = encode_utf8(m.method_name);
    let c = encode_utf8(m.error);
    let sep = seq![FIELD_SEPARATOR];
    assert(!sep.contains(FRAME_TERMINATOR)) by {
        if sep.contains(FRAME_TERMINATOR) {
            let i = choose|i: int| 0 <= i < sep.len() && sep[i] == FRAME_TERMINATOR;
            assert(sep[0] == FIELD_SEPARATOR);
        }
    }
    lemma_concat_not_contains(a, sep, FRAME_TERMINATOR);
    lemma_concat_not_contains(a + sep, b, FRAME_TERMINATOR);
    lemma_concat_not_contains(a + sep + b, sep, FRAME_TERMINATOR);
    lemma_concat_not_contains(a + sep + b + sep, c, FRAME_TERMINATOR);
    lemma_concat_not_contains(a + sep + b + sep + c, sep, FRAME_TERMINATOR);
    lemma_concat_not_contains(a + sep + b + sep + c + sep, m.body, FRAME_TERMINATOR);
    assert(!payload.contains(FRAME_TERMINATOR));
    lemma_frame_payload_of_frame(payload, Seq::<u8>::empty());
    assert(payload.push(FRAME_TERMINATOR) + Seq::<u8>::empty() =~= spec_encode(m));
    lemma_parse_encode_payload(m);
}

} // verus!
