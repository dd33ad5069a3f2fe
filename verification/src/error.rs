//! Fatal translation errors.
//!
//! Every error here is translation-time, fatal, and non-recoverable within
//! a single invocation: no partial intermediate representation is produced
//! and no further tokens are consumed once one arises.

use vstd::prelude::*;
use crate::token::{Token, TokenModel};

verus! {

/// A fatal translation error.
#[derive(Debug, PartialEq, Eq)]
pub enum Error {
    /// A token does not match any valid transition for the current
    /// parser state; the offending token is carried for diagnostics.
    UnexpectedToken(Token),
    /// A character, byte, or byte-string literal was encountered, or a
    /// literal spelling outside the supported grammar; the spelling is
    /// carried for diagnostics.
    UnsupportedLiteral(String),
    /// A punctuation token other than `;`, `<`, `>`.
    UnsupportedPunctuation(char),
    /// The sink was set more than once in one statement.
    DuplicateSink,
    /// The source was set more than once in one statement.
    DuplicateSource,
    /// A statement's first meaningful token was not a usable program-name
    /// token; the offending token is carried for diagnostics.
    MissingCommandName(Token),
    /// A sink or source was written as a bare file reference rather than
    /// an expression; the path text is carried for diagnostics.
    UnimplementedFileRedirection(String),
}

/// The mathematical model of an [`Error`].
#[verifier::ext_equal]
pub enum ErrorModel {
    UnexpectedToken(TokenModel),
    UnsupportedLiteral(Seq<char>),
    UnsupportedPunctuation(char),
    DuplicateSink,
    DuplicateSource,
    MissingCommandName(TokenModel),
    UnimplementedFileRedirection(Seq<char>),
}

impl View for Error {
    type V = ErrorModel;

    open spec fn view(&self) -> ErrorModel {
        match self {
            Error::UnexpectedToken(t) => ErrorModel::UnexpectedToken(t@),
            Error::UnsupportedLiteral(s) => ErrorModel::UnsupportedLiteral(s@),
            Error::UnsupportedPunctuation(c) => ErrorModel::UnsupportedPunctuation(*c),
            Error::DuplicateSink => ErrorModel::DuplicateSink,
            Error::DuplicateSource => ErrorModel::DuplicateSource,
            Error::MissingCommandName(t) => ErrorModel::MissingCommandName(t@),
            Error::UnimplementedFileRedirection(s) => (
                ErrorModel::UnimplementedFileRedirection(s@)
            ),
        }
    }
}

} // verus!
