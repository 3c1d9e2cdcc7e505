//! What the lexer and the parser report when they cannot go on.
use vstd::prelude::*;
use crate::ast::Span;

verus! {

#[derive(Debug, Clone)]
pub enum LexErrorKind {
    UnexpectedChar(char),
    UnterminatedBlockComment,
    UnterminatedString,
    InvalidNumber(String),
    InvalidNumSuffix(String),
}

#[derive(Debug, Clone)]
pub struct LexError {
    pub kind: LexErrorKind,
    pub span: Span,
}

pub enum LexErrorKindV {
    UnexpectedChar(char),
    UnterminatedBlockComment,
    UnterminatedString,
    InvalidNumber(Seq<char>),
    InvalidNumSuffix(Seq<char>),
}

pub struct LexErrorV {
    pub kind: LexErrorKindV,
    pub span: Span,
}

impl View for LexErrorKind {
    type V = LexErrorKindV;

    open spec fn view(&self) -> LexErrorKindV {
        match *self {
            LexErrorKind::UnexpectedChar(c) => LexErrorKindV::UnexpectedChar(c),
            LexErrorKind::UnterminatedBlockComment => LexErrorKindV::UnterminatedBlockComment,
            LexErrorKind::UnterminatedString => LexErrorKindV::UnterminatedString,
            LexErrorKind::InvalidNumber(s) => LexErrorKindV::InvalidNumber(s@),
            LexErrorKind::InvalidNumSuffix(s) => LexErrorKindV::InvalidNumSuffix(s@),
        }
    }
}

impl View for LexError {
    type V = LexErrorV;

    open spec fn view(&self) -> LexErrorV {
        LexErrorV { kind: self.kind@, span: self.span }
    }
}

#[derive(Debug, Clone)]
pub enum ParseErrorKind {
    Unexpected { found: String, expected: &'static str },
    UnexpectedEof { expected: &'static str },
    NonChainableComparison,
}

#[derive(Debug, Clone)]
pub struct ParseError {
    pub kind: ParseErrorKind,
    pub span: Span,
}

} // verus!
