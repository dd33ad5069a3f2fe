//! Raw syntactic tokens and their classified forms.
//!
//! A [`RawToken`] is one already-segmented unit of the input statement
//! stream, carrying its text as plain values. The classifier maps each raw
//! token to exactly one [`Token`], or fails fatally when the token's
//! category is unsupported.

use vstd::prelude::*;
use crate::error::{Error, ErrorModel};
use crate::literal::{normalize_literal, spec_normalize_literal};

verus! {

/// One raw syntactic token, as handed over by the host tokenizer.
///
/// Text is carried as `String`; a delimited group carries its inner
/// content opaquely, never inspected by this crate.
#[derive(Debug, PartialEq, Eq)]
pub enum RawToken {
    /// A delimited sub-expression; the payload is its inner content,
    /// an opaque host-code fragment.
    Group(String),
    /// A plain identifier-like token.
    Ident(String),
    /// A single punctuation character.
    Punct(char),
    /// A literal token, carried as its source spelling.
    Literal(String),
}

/// The mathematical model of a [`RawToken`].
#[verifier::ext_equal]
pub enum RawTokenModel {
    Group(Seq<char>),
    Ident(Seq<char>),
    Punct(char),
    Literal(Seq<char>),
}

impl View for RawToken {
    type V = RawTokenModel;

    open spec fn view(&self) -> RawTokenModel {
        match self {
            RawToken::Group(s) => RawTokenModel::Group(s@),
            RawToken::Ident(s) => RawTokenModel::Ident(s@),
            RawToken::Punct(c) => RawTokenModel::Punct(*c),
            RawToken::Literal(s) => RawTokenModel::Literal(s@),
        }
    }
}

/// One classified token, consumed exactly once by the statement parser.
#[derive(Debug, PartialEq, Eq)]
pub enum Token {
    /// A plain word or a normalized literal.
    Value(String),
    /// The statement terminator `;`.
    EndOfLine,
    /// A delimited block of host expression code, passed through unevaluated.
    ExprGroup(String),
    /// The output-redirection marker `>`.
    SinkMark,
    /// The input-redirection marker `<`.
    SourceMark,
}

/// The mathematical model of a [`Token`].
#[verifier::ext_equal]
pub enum TokenModel {
    Value(Seq<char>),
    EndOfLine,
    ExprGroup(Seq<char>),
    SinkMark,
    SourceMark,
}

impl View for Token {
    type V = TokenModel;

    open spec fn view(&self) -> TokenModel {
        match self {
            Token::Value(s) => TokenModel::Value(s@),
            Token::EndOfLine => TokenModel::EndOfLine,
            Token::ExprGroup(s) => TokenModel::ExprGroup(s@),
            Token::SinkMark => TokenModel::SinkMark,
            Token::SourceMark => TokenModel::SourceMark,
        }
    }
}

/// The model of a raw token stream.
pub open spec fn raw_tokens_view(ts: Seq<RawToken>) -> Seq<RawTokenModel> {
    ts.map_values(|t: RawToken| t@)
}

/// What classification makes of one raw token: a grouped sub-expression
/// becomes an opaque expression token, an identifier its literal
/// spelling, the punctuation `;`, `>`, `<` its marker, a literal its
/// canonical text. Any other punctuation and any unsupported literal is
/// fatal.
pub open spec fn spec_classify(t: RawTokenModel) -> Result<TokenModel, ErrorModel> {
    match t {
        RawTokenModel::Group(e) => Ok(TokenModel::ExprGroup(e)),
        RawTokenModel::Ident(s) => Ok(TokenModel::Value(s)),
        RawTokenModel::Punct(c) => if c == ';' {
            Ok(TokenModel::EndOfLine)
        } else if c == '>' {
            Ok(TokenModel::SinkMark)
        } else if c == '<' {
            Ok(TokenModel::SourceMark)
        } else {
            Err(ErrorModel::UnsupportedPunctuation(c))
        },
        RawTokenModel::Literal(s) => match crate::literal::spec_normalize_literal(s) {
            Ok(v) => Ok(TokenModel::Value(v)),
            Err(e) => Err(e),
        },
    }
}

/// Classifies one raw token into exactly one [`Token`], or fails fatally
/// when the token's category is unsupported. This stage has no state.
pub fn classify(t: RawToken) -> (r: Result<Token, Error>)
    ensures
        (match spec_classify(t@) {
            Ok(v) => r matches Ok(tok) && tok@ == v,
            Err(e) => r matches Err(err) && err@ == e,
        }),
{
    match t {
        RawToken::Group(e) => Ok(Token::ExprGroup(e)),
        RawToken::Ident(s) => Ok(Token::Value(s)),
        RawToken::Punct(c) => {
            if c == ';' {
                Ok(Token::EndOfLine)
            } else if c == '>' {
                Ok(Token::SinkMark)
            } else if c == '<' {
                Ok(Token::SourceMark)
            } else {
                Err(Error::UnsupportedPunctuation(c))
            }
        },
        RawToken::Literal(s) => match normalize_literal(s.as_str()) {
            Ok(v) => Ok(Token::Value(v)),
            Err(e) => Err(e),
        },
    }
}

} // verus!
