//! The errors of the library, and the values that stand for them in contracts.
use crate::text::{debug_text, quoted};
use vstd::prelude::*;
use vstd::string::StringExecFns;

verus! {

/// Why a text is not a decimal number of the expected type.
#[derive(Debug, Clone, Copy, PartialEq, Eq, Structural)]
pub enum IntegerError {
    /// The text is empty.
    Empty,
    /// A character that is not a digit came before the number grew too large.
    InvalidDigit,
    /// The digits read so far exceed the largest number of the type.
    TooLarge,
}

/// What the grammar expected at the place where a frame is malformed.
#[derive(Debug, Clone, Copy, PartialEq, Eq, Structural)]
pub enum Expected {
    /// A letter of the command.
    Alphabetic,
    /// A line ending, after the command or after the last header.
    LineEnding,
    /// The NUL byte that closes a body of announced length.
    Nul,
}

/// Why no frame could be read from the start of an input.
#[derive(Debug, Clone, Copy, PartialEq, Eq, Structural)]
pub enum ParseError {
    /// The input may be the start of a frame; more bytes are needed.
    Incomplete,
    /// No continuation of the input starts with a frame.
    Invalid { offset: usize, expected: Expected },
}

/// Why a frame is not a message, or the other side of a connection cannot be followed.
#[derive(Debug)]
pub enum StompError {
    /// The named header is mandatory for this command and absent.
    MissingHeader(String),
    /// The `ack` header holds none of the acknowledgement modes.
    InvalidAckMode(String),
    /// The command belongs to no message.
    UnrecognizedFrame(String),
    /// The `heart-beat` header holds no comma.
    BadHeartbeat,
    /// One side of the `heart-beat` header is not a number.
    InvalidInteger(IntegerError),
    /// The bytes received do not start with a frame.
    Malformed { offset: usize, expected: Expected },
    /// The first message received is not the one that the handshake calls for.
    UnexpectedReply,
}

/// The value of a [`StompError`], with texts as character sequences.
pub enum ErrorModel {
    MissingHeader(Seq<char>),
    InvalidAckMode(Seq<char>),
    UnrecognizedFrame(Seq<char>),
    BadHeartbeat,
    InvalidInteger(IntegerError),
    Malformed { offset: int, expected: Expected },
    UnexpectedReply,
}

impl View for StompError {
    type V = ErrorModel;

    open spec fn view(&self) -> ErrorModel {
        match self {
            StompError::MissingHeader(key) => ErrorModel::MissingHeader(key@),
            StompError::InvalidAckMode(mode) => ErrorModel::InvalidAckMode(mode@),
            StompError::UnrecognizedFrame(command) => ErrorModel::UnrecognizedFrame(command@),
            StompError::BadHeartbeat => ErrorModel::BadHeartbeat,
            StompError::InvalidInteger(why) => ErrorModel::InvalidInteger(*why),
            StompError::Malformed { offset, expected } => ErrorModel::Malformed {
                offset: *offset as int,
                expected: *expected,
            },
            StompError::UnexpectedReply => ErrorModel::UnexpectedReply,
        }
    }
}

/// The value of a result.
pub open spec fn outcome<T: View>(r: Result<T, StompError>) -> Result<T::V, ErrorModel> {
    match r {
        Ok(value) => Ok(value@),
        Err(e) => Err(e@),
    }
}

/// The text that says why a text is no number.
pub open spec fn integer_error_text(why: IntegerError) -> Seq<char> {
    match why {
        IntegerError::Empty => "cannot parse integer from empty string"@,
        IntegerError::InvalidDigit => "invalid digit found in string"@,
        IntegerError::TooLarge => "number too large to fit in target type"@,
    }
}

impl IntegerError {
    /// Why a text is no number, in words.
    pub fn text(self) -> (text: String)
        ensures
            text@ == integer_error_text(self),
    {
        match self {
            IntegerError::Empty => "cannot parse integer from empty string".to_owned(),
            IntegerError::InvalidDigit => "invalid digit found in string".to_owned(),
            IntegerError::TooLarge => "number too large to fit in target type".to_owned(),
        }
    }
}

/// The name of what the grammar expected.
pub open spec fn expected_name(expected: Expected) -> Seq<char> {
    match expected {
        Expected::Alphabetic => "Alpha"@,
        Expected::LineEnding => "CrLf"@,
        Expected::Nul => "Tag"@,
    }
}

impl Expected {
    /// The name of what the grammar expected.
    pub fn name(self) -> (name: &'static str)
        ensures
            name@ == expected_name(self),
    {
        match self {
            Expected::Alphabetic => "Alpha",
            Expected::LineEnding => "CrLf",
            Expected::Nul => "Tag",
        }
    }
}

/// The text for a command that belongs to no message, given the command between quotes.
pub open spec fn unrecognized_text_of(quoted_command: Seq<char>) -> Seq<char> {
    "Frame not recognized: "@ + quoted_command
}

/// The text for a command that belongs to no message, given the command between quotes.
pub fn unrecognized_text(quoted_command: &str) -> (text: String)
    ensures
        text@ == unrecognized_text_of(quoted_command@),
{
    "Frame not recognized: ".to_owned().concat(quoted_command)
}

/// The text of an error. `detail` is the debug output of what the error is about and does not
/// hold: the input from the malformed byte on, or the unexpected reply.
pub open spec fn error_text(error: ErrorModel, detail: Seq<char>) -> Seq<char> {
    match error {
        ErrorModel::MissingHeader(key) => "Expected header '"@ + key + "' missing"@,
        ErrorModel::InvalidAckMode(mode) => "Invalid ack mode: "@ + mode,
        ErrorModel::UnrecognizedFrame(command) => unrecognized_text_of(debug_text(command)),
        ErrorModel::BadHeartbeat => "Bad heartbeat"@,
        ErrorModel::InvalidInteger(why) => integer_error_text(why),
        ErrorModel::Malformed { offset, expected } => "Parse failed: Error(Error { input: "@
            + detail + ", code: "@ + expected_name(expected) + " })"@,
        ErrorModel::UnexpectedReply => "unexpected reply: "@ + detail,
    }
}

impl StompError {
    /// The error in words. `detail` is the debug output of what the error is about and does not
    /// hold: the input from the malformed byte on, or the unexpected reply. Other errors have no
    /// use for it.
    pub fn text(&self, detail: &str) -> (text: String)
        ensures
            text@ == error_text(self@, detail@),
    {
        match self {
            StompError::MissingHeader(key) => "Expected header '".to_owned().concat(
                key.as_str(),
            ).concat("' missing"),
            StompError::InvalidAckMode(mode) => "Invalid ack mode: ".to_owned().concat(
                mode.as_str(),
            ),
            StompError::UnrecognizedFrame(command) => {
                let quoted_command = quoted(command.as_str());
                unrecognized_text(quoted_command.as_str())
            },
            StompError::BadHeartbeat => "Bad heartbeat".to_owned(),
            StompError::InvalidInteger(why) => why.text(),
            StompError::Malformed { offset: _, expected } => {
                "Parse failed: Error(Error { input: ".to_owned().concat(detail).concat(
                    ", code: ",
                ).concat(expected.name()).concat(" })")
            },
            StompError::UnexpectedReply => "unexpected reply: ".to_owned().concat(detail),
        }
    }
}

} // verus!
