//! Error values produced while talking to a DaZeus core.

use vstd::prelude::*;

verus! {

/// Error returned when a JSON document did not have the required structure.
#[derive(Debug, Clone, PartialEq)]
pub struct InvalidJsonError {
    message: String,
}

impl InvalidJsonError {
    /// The explanation attached to this error, as contracts see it.
    pub closed spec fn spec_message(&self) -> Seq<char> {
        self.message@
    }

    /// Create a new error instance.
    pub fn new(message: &str) -> (r: InvalidJsonError)
        ensures
            r.spec_message() == message@,
    {
        InvalidJsonError { message: message.to_owned() }
    }

    /// The explanation attached to this error.
    pub fn message(&self) -> (r: &str)
        ensures
            r@ == self.spec_message(),
    {
        self.message.as_str()
    }
}

/// Error returned when a string could not be parsed as an `EventType`.
///
/// This may occur if an event is provided by the DaZeus core which is unknown
/// to this implementation.
#[derive(Debug, Clone, Copy, PartialEq)]
pub struct ParseEventTypeError {
    _priv: (),
}

impl ParseEventTypeError {
    /// Create a new error instance.
    pub fn new() -> ParseEventTypeError {
        ParseEventTypeError { _priv: () }
    }
}

/// Error returned when a string could not be parsed as a `ConfigGroup`.
#[derive(Debug, Clone, Copy, PartialEq)]
pub struct ParseConfigGroupError {
    _priv: (),
}

impl ParseConfigGroupError {
    /// Create a new error instance.
    pub fn new() -> ParseConfigGroupError {
        ParseConfigGroupError { _priv: () }
    }
}

/// Error when an unexpected or invalid message was received from DaZeus.
#[derive(Debug, Clone, Copy, PartialEq)]
pub struct ReceiveError {
    _priv: (),
}

impl ReceiveError {
    /// Create a new error instance.
    pub fn new() -> ReceiveError {
        ReceiveError { _priv: () }
    }
}

/// Any failure that can abort an operation against the DaZeus core.
///
/// The parser and transport variants are fatal for the connection: once
/// one of them is produced the session moves to its closed state, as are
/// the structural and receive errors the session meets while reading.
#[derive(Debug, Clone, PartialEq)]
pub enum Error {
    /// The JSON parser rejected a frame payload. Fatal.
    JsonParserError(String),
    /// The underlying transport failed to read or write. Fatal.
    IoError(String),
    /// A decoded JSON document lacked the structure the protocol requires.
    InvalidJsonError(InvalidJsonError),
    /// A response arrived when no request was waiting for one.
    ReceiveError(ReceiveError),
    /// The session is closed; no further I/O is attempted.
    ConnectionClosed,
}

} // verus!
