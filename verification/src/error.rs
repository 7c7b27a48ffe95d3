// SPDX-License-Identifier: Apache-2.0
//! What goes wrong on this side of the protocol.

use vstd::prelude::*;
use vstd::string::*;

use crate::proto;
use crate::proto::ErrorCode;

verus! {

/// What a socket failure means to the control loop.
#[derive(Debug, Clone, Copy, PartialEq, Eq, Structural)]
pub enum NngErrorKind {
    Closed,
    ConnectionReset,
    ConnectionAborted,
    Other,
}

/// A failure that the socket layer reported, with its own description.
#[derive(Debug)]
pub struct NngError {
    pub kind: NngErrorKind,
    pub text: String,
}

/// What a file-system or stream failure means to this crate.
#[derive(Debug, Clone, Copy, PartialEq, Eq, Structural)]
pub enum IoErrorKind {
    AlreadyExists,
    InvalidData,
    Other,
}

/// A failure of the file system or of a byte stream, with its description.
#[derive(Debug)]
pub struct IoError {
    pub kind: IoErrorKind,
    pub text: String,
}

impl NngError {
    /// The other end of the socket is gone.
    pub open spec fn says_closed(self) -> bool {
        self.kind != NngErrorKind::Other
    }
}

/// A local failure: transport, codec, or child process. Distinct from
/// [`proto::Error`], which is a well-formed refusal from the far end.
#[derive(Debug)]
pub enum Error {
    Nng(NngError),
    /// The bytes of a message do not decode; holds the decoder's description.
    Decode(String),
    Io(IoError),
    /// A manifest is not the JSON it should be; holds the parser's description.
    Json(String),
    /// The peer sent something the protocol does not allow here.
    Protocol(String),
    Remote(proto::Error),
}

/// The code that a refusal carries; a number without a code says nothing.
pub open spec fn code_of(refusal: proto::Error) -> ErrorCode {
    match ErrorCode::from_number(refusal.code) {
        Some(code) => code,
        None => ErrorCode::Unspecified,
    }
}

impl Error {
    /// This is the protocol error that carries `text`.
    pub open spec fn is_protocol(self, text: Seq<char>) -> bool {
        self matches Error::Protocol(message) && message@ == text
    }

    /// How this failure reads.
    pub open spec fn text(self) -> Seq<char> {
        match self {
            Error::Nng(e) => "nng: "@ + e.text@,
            Error::Decode(text) => "malformed message: "@ + text@,
            Error::Io(e) => e.text@,
            Error::Json(text) => "bad manifest JSON: "@ + text@,
            Error::Protocol(text) => "protocol error: "@ + text@,
            Error::Remote(e) => code_of(e).as_str_name()@ + ": "@ + e.message@,
        }
    }

    /// How this failure reads, for a person.
    pub fn to_text(&self) -> (text: String)
        ensures
            text@ == self.text(),
    {
        match self {
            Error::Nng(e) => "nng: ".to_owned().concat(e.text.as_str()),
            Error::Decode(text) => "malformed message: ".to_owned().concat(text.as_str()),
            Error::Io(e) => e.text.clone(),
            Error::Json(text) => "bad manifest JSON: ".to_owned().concat(text.as_str()),
            Error::Protocol(text) => "protocol error: ".to_owned().concat(text.as_str()),
            Error::Remote(e) => {
                let code = match ErrorCode::from_number(e.code) {
                    Some(code) => code,
                    None => ErrorCode::Unspecified,
                };
                code.as_str_name().to_owned().concat(": ").concat(e.message.as_str())
            },
        }
    }
}

/// A protocol error is one by its text alone, and a refusal by its code and text.
pub proof fn law_errors_carry_their_text(
    e: Error,
    refusal: proto::Error,
    code: ErrorCode,
    text: Seq<char>,
)
    ensures
        e.is_protocol(text) <==> (e matches Error::Protocol(message) && message@ == text),
        refusal.is(code, text) <==> refusal.code == code.number() && refusal.message@ == text,
{
}

/// Every failure reads as where it comes from, followed by all of its own text.
pub proof fn law_failures_read_in_full(e: Error)
    ensures
        match e {
            Error::Nng(own) => e.text() == "nng: "@ + own.text@,
            Error::Decode(own) => e.text() == "malformed message: "@ + own@,
            Error::Io(own) => e.text() == own.text@,
            Error::Json(own) => e.text() == "bad manifest JSON: "@ + own@,
            Error::Protocol(own) => e.text() == "protocol error: "@ + own@,
            Error::Remote(own) => forall|code: ErrorCode|
                own.code == code.number() ==> e.text() == #[trigger] code.as_str_name()@ + ": "@
                    + own.message@,
        },
{
}

/// A refusal with a number that is no code reads as one that says nothing.
pub proof fn law_unknown_codes_say_nothing(refusal: proto::Error)
    requires
        forall|code: ErrorCode| refusal.code != #[trigger] code.number(),
    ensures
        Error::Remote(refusal).text() == ErrorCode::Unspecified.as_str_name()@ + ": "@
            + refusal.message@,
{
    assert(refusal.code != ErrorCode::Unspecified.number());
    if let Some(code) = ErrorCode::from_number(refusal.code) {
        assert(refusal.code == code.number());
    }
}

} // verus!
