//! Errors surfaced by the parsing and decoding pipeline.

use vstd::prelude::*;

verus! {

/// What can go wrong between raw playlist text and typed lines.
///
/// `Syntax` is a lexer failure (unconsumed input), `InvalidHex` a malformed
/// hex attribute, `UnexpectedEof` a truncated node stream, and `Message`
/// a schema mismatch reported by the decoder.
#[derive(Debug, Clone, PartialEq, Eq)]
pub enum Error {
    Message(String),
    Syntax,
    InvalidHex,
    TrailingCharacters,
    UnexpectedEof,
}

/// The mathematical shape of an `Error`.
pub enum ErrorModel {
    Message(Seq<char>),
    Syntax,
    InvalidHex,
    TrailingCharacters,
    UnexpectedEof,
}

impl View for Error {
    type V = ErrorModel;

    open spec fn view(&self) -> ErrorModel {
        match self {
            Error::Message(s) => ErrorModel::Message(s@),
            Error::Syntax => ErrorModel::Syntax,
            Error::InvalidHex => ErrorModel::InvalidHex,
            Error::TrailingCharacters => ErrorModel::TrailingCharacters,
            Error::UnexpectedEof => ErrorModel::UnexpectedEof,
        }
    }
}

} // verus!
