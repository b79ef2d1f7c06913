//! The errors of the client.

use vstd::prelude::*;
use vstd::string::StringExecFns;

verus! {

/// Why a command or a reply was refused.
#[derive(Debug, Clone, Copy, PartialEq, Eq, Structural)]
pub enum Fault {
    /// A command line ends inside a quoted token.
    MismatchedQuotes,
    /// A reply starts with a byte that names no kind of reply.
    UnexpectedByte(u8),
    /// The field of an integer reply is no decimal number of 64 bits.
    BadInteger,
    /// A length or count field is no decimal number of 64 bits, or is below -1.
    BadLength,
    /// The payload of a bulk string is not followed by the line terminator.
    BadTerminator,
    /// The text of a simple string or of an error reply is not UTF-8.
    BadText,
}

/// The message that goes with a fault.
pub open spec fn fault_message(fault: Fault) -> Seq<char> {
    match fault {
        Fault::MismatchedQuotes => "Bad request format, Mismatch quotes"@,
        Fault::UnexpectedByte(_) => "unexpected byte in response"@,
        Fault::BadInteger => "Error parsing field as integer"@,
        Fault::BadLength => "Error parsing field as length"@,
        Fault::BadTerminator => "Bulk string is not followed by a line terminator"@,
        Fault::BadText => "Text in response is not UTF-8"@,
    }
}

/// An error that occurs while parsing requests or responses.
#[derive(Debug, Clone, PartialEq, Eq)]
pub struct RedisParseError {
    /// What was wrong.
    pub fault: Fault,
    /// The same in words.
    pub contents: String,
}

impl RedisParseError {
    /// The error for a fault, with its message.
    pub fn new(fault: Fault) -> (e: RedisParseError)
        ensures
            e.fault == fault,
            e.contents@ == fault_message(fault),
    {
        let text: &str = match fault {
            Fault::MismatchedQuotes => "Bad request format, Mismatch quotes",
            Fault::UnexpectedByte(_) => "unexpected byte in response",
            Fault::BadInteger => "Error parsing field as integer",
            Fault::BadLength => "Error parsing field as length",
            Fault::BadTerminator => "Bulk string is not followed by a line terminator",
            Fault::BadText => "Text in response is not UTF-8",
        };
        RedisParseError { fault, contents: String::from_str(text) }
    }

    /// True when the message is the one that belongs to the fault.
    pub open spec fn wf(&self) -> bool {
        self.contents@ == fault_message(self.fault)
    }
}

/// Any failure of a round trip.
#[derive(Debug, Clone, PartialEq, Eq)]
pub enum RedisError {
    /// A command or a reply was malformed.
    ParseError(RedisParseError),
    /// The stream failed, or ended before the reply was complete; the text
    /// says which.
    SocketConnectionError(String),
}

/// The main return type of the client.
pub type RedisResult<T> = Result<T, RedisError>;

/// What an error is, apart from how its text is stored.
pub enum ErrorView {
    /// A parse error with its fault.
    Parse(Fault),
    /// A connection error with its text.
    Connection(Seq<char>),
}

impl View for RedisError {
    type V = ErrorView;

    open spec fn view(&self) -> ErrorView {
        match self {
            RedisError::ParseError(e) => ErrorView::Parse(e.fault),
            RedisError::SocketConnectionError(text) => ErrorView::Connection(text@),
        }
    }
}

impl RedisError {
    /// True when a parse error inside carries the message of its fault.
    pub open spec fn wf(&self) -> bool {
        match self {
            RedisError::ParseError(e) => e.wf(),
            RedisError::SocketConnectionError(_) => true,
        }
    }
}

} // verus!
