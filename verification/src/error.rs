//! The conditions under which an operation of this library fails.

use vstd::prelude::*;

verus! {

/// The mathematical model of an [`Error`]: the same cases, with each message
/// as a sequence of characters.
pub enum Failure {
    EmptySlice,
    RedisError(Seq<char>),
    UnexpectedResponse(Seq<char>),
}

/// Why an operation failed.
#[derive(Debug, Clone, PartialEq, Eq)]
pub enum Error {
    /// A command that needs at least one element was given an empty slice.
    /// Nothing was written for it.
    EmptySlice,
    /// The server answered with an error reply; the text is its message.
    RedisError(String),
    /// The server sent something outside the reply grammar, or a reply of a
    /// shape that the command does not have; the text is what was received.
    UnexpectedResponse(String),
}

impl View for Error {
    type V = Failure;

    open spec fn view(&self) -> Failure {
        match self {
            Error::EmptySlice => Failure::EmptySlice,
            Error::RedisError(text) => Failure::RedisError(text@),
            Error::UnexpectedResponse(text) => Failure::UnexpectedResponse(text@),
        }
    }
}

/// The text that stands for a sequence of bytes read as UTF-8, with each
/// invalid sequence replaced by the replacement character.
pub uninterp spec fn utf8_lossy(bytes: Seq<u8>) -> Seq<char>;

/// `String::from_utf8_lossy`, which turns any bytes into text: valid UTF-8 is
/// kept and every invalid sequence becomes U+FFFD. The contract only names
/// that text; nothing is claimed of its characters.
#[verifier::external_body]
pub(crate) fn lossy_text(bytes: &[u8]) -> (text: String)
    ensures
        text@ == utf8_lossy(bytes@),
{
    String::from_utf8_lossy(bytes).into_owned()
}

} // verus!
