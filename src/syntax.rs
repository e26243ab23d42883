//! Source positions, tokens and the errors of the source tokenizer.
use vstd::prelude::*;

verus! {

/// A position in source text: its line and column, both from 0.
#[derive(Clone, Copy, Debug, PartialEq, Eq, Structural)]
pub struct SourcePos {
    pub line: u32,
    pub column: u32,
}

/// The stretch of source text that a token or an error covers.
#[derive(Clone, Copy, Debug, PartialEq, Eq, Structural)]
pub struct SourceView {
    pub start: SourcePos,
    pub end: SourcePos,
}

/// What a token is. Words, numbers and strings borrow their bytes from the
/// source.
#[derive(Clone, Copy, Debug, PartialEq)]
pub enum TokenData<'a> {
    /// An identifier.
    Ident(&'a [u8]),
    /// A number: its base, and its text with any base prefix.
    Number(u8, &'a [u8]),
    Bool(bool),
    /// A string, with its quotes.
    String(&'a [u8]),
    LParen,
    RParen,
    LBracket,
    RBracket,
    LCurly,
    RCruly,
    Dot,
    Comma,
    Colon,
    Semicolon,
    RFatArrow,
    LSlimArrow,
    KwLet,
    KwConst,
    KwStatic,
    KwFn,
    KwDo,
    KwEnd,
    KwIf,
    KwElif,
    KwElse,
    KwAnd,
    KwOr,
    OpAdd,
    OpAddAssign,
    OpMinus,
    OpMinusAssign,
    OpMul,
    OpMulAssign,
    OpDiv,
    OpDivAssign,
    OpEqual,
    OpNotEqual,
    OpNot,
    OpLessThan,
    OpGreaterThan,
    OpLessEqThan,
    OpGreaterEqThan,
    OpAssign,
}

/// A token and the stretch of source it was read from.
#[derive(Clone, Copy, Debug)]
pub struct Token<'a> {
    pub data: TokenData<'a>,
    pub source_view: SourceView,
}

impl<'a> Token<'a> {
    pub fn new(start: SourcePos, end: SourcePos, data: TokenData<'a>) -> (r: Token<'a>)
        ensures
            r.source_view == (SourceView { start, end }),
            r.data == data,
    {
        Token { data, source_view: SourceView { start, end } }
    }
}

/// What went wrong while tokenizing.
#[derive(Clone, Copy, Debug)]
pub enum ParseErrorData {
    UnexpectedEof,
    UnexpectedChar,
    Expected(TokenData<'static>),
    ExpectedExpression,
    TrailingInput,
    Unreachable(&'static str),
}

/// A tokenizing error and where it happened.
#[derive(Clone, Copy, Debug)]
pub struct ParseError {
    pub source_view: SourceView,
    pub data: ParseErrorData,
}

} // verus!
