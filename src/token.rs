//! The tokens of the character lexer.
use vstd::prelude::*;
use vstd::string::StringExecFns;

verus! {

/// What a lexer token is.
#[derive(Debug)]
pub enum TokenType {
    /// `\n`
    NewLine,
    /// `;`
    Semicolon,
    /// `->`
    ReturnType,
    /// `(`
    LParen,
    /// `)`
    RParen,
    Plus,
    Minus,
    Multiply,
    Divide,
    /// `do`
    Do,
    /// `then`
    Then,
    /// `end`
    End,
    /// `fn`
    Function,
    /// An identifier.
    Ident(String),
    /// A number: its digits, without any base prefix, and its base.
    Number(String, u8),
    /// A string in single quotes; the token's text is its contents.
    String,
    /// A string in double quotes.
    Charstring,
    /// Text that makes no token, and why.
    Illegal(String),
}

/// The value of a `TokenType`, with its text as characters.
pub ghost enum TokenTypeView {
    NewLine,
    Semicolon,
    ReturnType,
    LParen,
    RParen,
    Plus,
    Minus,
    Multiply,
    Divide,
    Do,
    Then,
    End,
    Function,
    Ident(Seq<char>),
    Number(Seq<char>, u8),
    String,
    Charstring,
    Illegal(Seq<char>),
}

impl View for TokenType {
    type V = TokenTypeView;

    open spec fn view(&self) -> TokenTypeView {
        match self {
            TokenType::NewLine => TokenTypeView::NewLine,
            TokenType::Semicolon => TokenTypeView::Semicolon,
            TokenType::ReturnType => TokenTypeView::ReturnType,
            TokenType::LParen => TokenTypeView::LParen,
            TokenType::RParen => TokenTypeView::RParen,
            TokenType::Plus => TokenTypeView::Plus,
            TokenType::Minus => TokenTypeView::Minus,
            TokenType::Multiply => TokenTypeView::Multiply,
            TokenType::Divide => TokenTypeView::Divide,
            TokenType::Do => TokenTypeView::Do,
            TokenType::Then => TokenTypeView::Then,
            TokenType::End => TokenTypeView::End,
            TokenType::Function => TokenTypeView::Function,
            TokenType::Ident(s) => TokenTypeView::Ident(s@),
            TokenType::Number(s, b) => TokenTypeView::Number(s@, *b),
            TokenType::String => TokenTypeView::String,
            TokenType::Charstring => TokenTypeView::Charstring,
            TokenType::Illegal(s) => TokenTypeView::Illegal(s@),
        }
    }
}

impl TokenType {
    /// A copy of this token type.
    pub fn duplicate(&self) -> (r: TokenType)
        ensures
            r@ == self@,
    {
        match self {
            TokenType::NewLine => TokenType::NewLine,
            TokenType::Semicolon => TokenType::Semicolon,
            TokenType::ReturnType => TokenType::ReturnType,
            TokenType::LParen => TokenType::LParen,
            TokenType::RParen => TokenType::RParen,
            TokenType::Plus => TokenType::Plus,
            TokenType::Minus => TokenType::Minus,
            TokenType::Multiply => TokenType::Multiply,
            TokenType::Divide => TokenType::Divide,
            TokenType::Do => TokenType::Do,
            TokenType::Then => TokenType::Then,
            TokenType::End => TokenType::End,
            TokenType::Function => TokenType::Function,
            TokenType::Ident(s) => TokenType::Ident(String::from_str(s.as_str())),
            TokenType::Number(s, b) => TokenType::Number(String::from_str(s.as_str()), *b),
            TokenType::String => TokenType::String,
            TokenType::Charstring => TokenType::Charstring,
            TokenType::Illegal(s) => TokenType::Illegal(String::from_str(s.as_str())),
        }
    }
}

/// A lexer token: its type, its text, and the row and column of its first
/// character.
#[derive(Debug)]
pub struct Token {
    pub t_type: TokenType,
    pub ident: String,
    pub row: u128,
    pub col: u128,
}

/// The value of a `Token`.
pub ghost struct TokenView {
    pub t_type: TokenTypeView,
    pub ident: Seq<char>,
    pub row: int,
    pub col: int,
}

impl View for Token {
    type V = TokenView;

    open spec fn view(&self) -> TokenView {
        TokenView { t_type: self.t_type@, ident: self.ident@, row: self.row as int, col: self.col as int }
    }
}

impl Token {
    pub fn new(t_type: TokenType, ident: String, row: u128, col: u128) -> (r: Token)
        ensures
            r@ == (TokenView { t_type: t_type@, ident: ident@, row: row as int, col: col as int }),
    {
        Token { t_type, ident, row, col }
    }

    /// A copy of this token.
    pub fn duplicate(&self) -> (r: Token)
        ensures
            r@ == self@,
    {
        Token {
            t_type: self.t_type.duplicate(),
            ident: String::from_str(self.ident.as_str()),
            row: self.row,
            col: self.col,
        }
    }
}

} // verus!
