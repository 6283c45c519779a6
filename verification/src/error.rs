//! Errors of the tokenizer and of the tree builder.
use vstd::prelude::*;
use crate::node::opt_view;
use crate::parser::{ParserState, Token};

verus! {

/// Why a document could not be parsed.
#[derive(Debug)]
#[non_exhaustive]
pub enum ParseError {
    UnexpectedCharacterError(char),
    UnexpectedToken(ParserState, Token),
    InvalidDocumentError,
    UnexpectedRoot,
    ContentOutsideRoot,
    UnmatchedCloseTag(String),
    TagMismatch { expected: (String, Option<String>), found: (String, Option<String>) },
    UnclosedTags(Vec<String>),
    EmptyDocument,
    InvalidParent,
    InvalidStateError(ParserState, Token),
}

/// A parse error as a mathematical value.
pub enum ParseErrorV {
    UnexpectedCharacterError(char),
    UnexpectedToken(ParserState, Token),
    InvalidDocumentError,
    UnexpectedRoot,
    ContentOutsideRoot,
    UnmatchedCloseTag(Seq<char>),
    TagMismatch {
        expected: (Seq<char>, Option<Seq<char>>),
        found: (Seq<char>, Option<Seq<char>>),
    },
    UnclosedTags(Seq<Seq<char>>),
    EmptyDocument,
    InvalidParent,
    InvalidStateError(ParserState, Token),
}

/// The views of a sequence of strings.
pub open spec fn strings_view(s: Seq<String>) -> Seq<Seq<char>> {
    s.map_values(|x: String| x@)
}

impl View for ParseError {
    type V = ParseErrorV;

    open spec fn view(&self) -> ParseErrorV {
        match self {
            ParseError::UnexpectedCharacterError(c) => ParseErrorV::UnexpectedCharacterError(*c),
            ParseError::UnexpectedToken(s, t) => ParseErrorV::UnexpectedToken(*s, *t),
            ParseError::InvalidDocumentError => ParseErrorV::InvalidDocumentError,
            ParseError::UnexpectedRoot => ParseErrorV::UnexpectedRoot,
            ParseError::ContentOutsideRoot => ParseErrorV::ContentOutsideRoot,
            ParseError::UnmatchedCloseTag(n) => ParseErrorV::UnmatchedCloseTag(n@),
            ParseError::TagMismatch { expected, found } => ParseErrorV::TagMismatch {
                expected: (expected.0@, opt_view(expected.1)),
                found: (found.0@, opt_view(found.1)),
            },
            ParseError::UnclosedTags(v) => ParseErrorV::UnclosedTags(strings_view(v@)),
            ParseError::EmptyDocument => ParseErrorV::EmptyDocument,
            ParseError::InvalidParent => ParseErrorV::InvalidParent,
            ParseError::InvalidStateError(s, t) => ParseErrorV::InvalidStateError(*s, *t),
        }
    }
}

/// The view of a result that carries no value on success.
pub open spec fn err_view(r: Result<(), ParseError>) -> Option<ParseErrorV> {
    match r {
        Ok(()) => None,
        Err(e) => Some(e@),
    }
}

} // verus!
