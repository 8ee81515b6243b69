//! The closed error taxonomy of the client.
//!
//! Decoding failures are described by [`DecodeError`]; everything that can
//! go wrong during one request/response exchange is a [`RequestError`].

use vstd::prelude::*;
use vstd::string::StringExecFns;

verus! {

/// The decimal digit character for a value below ten.
pub open spec fn spec_digit_char(d: nat) -> char {
    if d == 0 {
        '0'
    } else if d == 1 {
        '1'
    } else if d == 2 {
        '2'
    } else if d == 3 {
        '3'
    } else if d == 4 {
        '4'
    } else if d == 5 {
        '5'
    } else if d == 6 {
        '6'
    } else if d == 7 {
        '7'
    } else if d == 8 {
        '8'
    } else {
        '9'
    }
}

/// The decimal rendering of a number: its digits in order, without a
/// sign and without leading zeros (zero itself is the single digit 0).
pub open spec fn spec_decimal(n: nat) -> Seq<char>
    decreases n,
{
    if n < 10 {
        seq![spec_digit_char(n)]
    } else {
        spec_decimal(n / 10).push(spec_digit_char(n % 10))
    }
}

/// The one-character string for a decimal digit.
fn digit_str(d: usize) -> (s: &'static str)
    requires
        d < 10,
    ensures
        s@ == seq![spec_digit_char(d as nat)],
{
    let s: &'static str = if d == 0 {
        "0"
    } else if d == 1 {
        "1"
    } else if d == 2 {
        "2"
    } else if d == 3 {
        "3"
    } else if d == 4 {
        "4"
    } else if d == 5 {
        "5"
    } else if d == 6 {
        "6"
    } else if d == 7 {
        "7"
    } else if d == 8 {
        "8"
    } else {
        "9"
    };
    proof {
        reveal_strlit("0");
        reveal_strlit("1");
        reveal_strlit("2");
        reveal_strlit("3");
        reveal_strlit("4");
        reveal_strlit("5");
        reveal_strlit("6");
        reveal_strlit("7");
        reveal_strlit("8");
        reveal_strlit("9");
        assert(s@ =~= seq![spec_digit_char(d as nat)]);
    }
    s
}

/// Renders a number in decimal.
pub fn decimal_string(n: usize) -> (s: String)
    ensures
        s@ == spec_decimal(n as nat),
    decreases n,
{
    if n < 10 {
        String::from_str(digit_str(n))
    } else {
        assert(n / 10 < n && n / 10 >= 1) by (nonlinear_arith)
            requires
                n >= 10,
        ;
        let mut s = decimal_string(n / 10);
        s.append(digit_str(n % 10));
        proof {
            assert(s@ =~= spec_decimal(n as nat));
        }
        s
    }
}

/// Why a byte frame failed to decode into a `Message`.
#[derive(Clone, Copy, Debug, PartialEq, Eq, Structural)]
pub enum DecodeError {
    /// The payload did not split into exactly four fields on the field
    /// separator; `parts` is the number of fields that were found.
    WrongFieldCount { parts: usize },
    /// One of the three text fields held bytes that are not valid text;
    /// `field` is the index (0, 1 or 2) of the first such field.
    InvalidText { field: usize },
}

/// Everything that can make a single request/response exchange fail.
#[derive(Debug)]
pub enum RequestError {
    /// Transport-level failure: the connection could not be written to or
    /// read from, or it reached end-of-stream before a full frame arrived.
    Connection,
    /// The read deadline elapsed before the frame terminator was seen.
    Timeout,
    /// The response frame was malformed.
    Protocol { cause: DecodeError },
    /// The peer reported an application-level failure; `message` is its
    /// text, verbatim.
    Application { message: String },
    /// The response carried a correlation identifier other than the one
    /// that was sent.
    CorrelationMismatch { sent: String, received: String },
}

/// The text of a decoding failure.
pub open spec fn spec_decode_error_text(e: DecodeError) -> Seq<char> {
    match e {
        DecodeError::WrongFieldCount { parts } => "error protocol received message with "@
            + spec_decimal(parts as nat) + " parts, expected 4"@,
        DecodeError::InvalidText { field } => "error protocol invalid text in field "@
            + spec_decimal(field as nat),
    }
}

/// The text of a request failure.
pub open spec fn spec_request_error_text(e: RequestError) -> Seq<char> {
    match e {
        RequestError::Connection => "client connection error"@,
        RequestError::Timeout => "client timeout error"@,
        RequestError::Protocol { cause } => spec_decode_error_text(cause),
        RequestError::Application { message } => "client response error: "@ + message@,
        RequestError::CorrelationMismatch { sent, received } => (
        "client wrong requestID error: expected "@ + sent@) + ", received "@ + received@,
    }
}

impl DecodeError {
    /// The error's descriptive text, as [`spec_decode_error_text`]
    /// states it.
    pub fn describe(&self) -> (s: String)
        ensures
            s@ == spec_decode_error_text(*self),
    {
        match self {
            DecodeError::WrongFieldCount { parts } => {
                let mut s = String::from_str("error protocol received message with ");
                let count = decimal_string(*parts);
                s.append(count.as_str());
                s.append(" parts, expected 4");
                s
            },
            DecodeError::InvalidText { field } => {
                let mut s = String::from_str("error protocol invalid text in field ");
                let index = decimal_string(*field);
                s.append(index.as_str());
                s
            },
        }
    }
}

impl RequestError {
    /// The error's descriptive text, as [`spec_request_error_text`]
    /// states it.
    pub fn describe(&self) -> (s: String)
        ensures
            s@ == spec_request_error_text(*self),
    {
        match self {
            RequestError::Connection => String::from_str("client connection error"),
            RequestError::Timeout => String::from_str("client timeout error"),
            RequestError::Protocol { cause } => cause.describe(),
            RequestError::Application { message } => {
                let mut s = String::from_str("client response error: ");
                s.append(message.as_str());
                s
            },
            RequestError::CorrelationMismatch { sent, received } => {
                let mut s = String::from_str("client wrong requestID error: expected ");
                s.append(sent.as_str());
                s.append(", received ");
                s.append(received.as_str());
                s
            },
        }
    }
}

} // verus!
