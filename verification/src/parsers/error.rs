//! The ways in which decoding a line can fail.

use vstd::prelude::*;

verus! {

/// Why a line could not be decoded.
#[derive(Debug, Clone, Copy, PartialEq, Eq, Structural)]
pub enum ErrorKind {
    /// A token was expected, but the text was empty or held only spaces.
    MissingToken,
    /// The first token starts with neither `@` nor `:`.
    ExpectedTagsOrPrefix,
    /// A token that starts with `@` stands where tags are not allowed.
    MisplacedTags,
    /// The line ends after its first token.
    UnexpectedEndOfMessage,
    /// A parameter was expected, but no text was left to read it from.
    MissingParameterData,
}

impl ErrorKind {
    /// The words that describe this kind of error.
    pub open spec fn text(self) -> Seq<char> {
        match self {
            ErrorKind::MissingToken => ""@,
            ErrorKind::ExpectedTagsOrPrefix => "expected message-tags or prefix"@,
            ErrorKind::MisplacedTags => "message-tags are invalid here"@,
            ErrorKind::UnexpectedEndOfMessage => "unexpected end of message"@,
            ErrorKind::MissingParameterData => "expected data, got nothing"@,
        }
    }

    /// A human-readable description of this kind of error.
    pub fn description(self) -> (text: &'static str)
        ensures
            text@ == self.text(),
    {
        match self {
            ErrorKind::MissingToken => "",
            ErrorKind::ExpectedTagsOrPrefix => "expected message-tags or prefix",
            ErrorKind::MisplacedTags => "message-tags are invalid here",
            ErrorKind::UnexpectedEndOfMessage => "unexpected end of message",
            ErrorKind::MissingParameterData => "expected data, got nothing",
        }
    }
}

/// The error returned for a line that cannot be decoded.
#[derive(Debug, Clone, Copy, PartialEq, Eq, Structural)]
pub struct MessageParsingError {
    /// What went wrong.
    pub kind: ErrorKind,
}

impl MessageParsingError {
    /// An error of the given kind.
    pub fn new(kind: ErrorKind) -> (error: Self)
        ensures
            error.kind == kind,
    {
        MessageParsingError { kind }
    }

    /// A human-readable description of the error.
    pub fn description(&self) -> (text: &'static str)
        ensures
            text@ == self.kind.text(),
    {
        self.kind.description()
    }
}

} // verus!
