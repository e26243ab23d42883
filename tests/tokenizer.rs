use bytevm::syntax::{ParseErrorData, SourcePos, Token, TokenData};
use bytevm::tokenizer::Tokenizer;

fn data(src: &str) -> Vec<TokenData<'_>> {
    Tokenizer::tokenize(src.as_bytes()).unwrap().iter().map(|t| t.data).collect()
}

fn lines(src: &str) -> Vec<u32> {
    Tokenizer::tokenize(src.as_bytes()).unwrap().iter().map(|t| t.source_view.start.line).collect()
}

#[test]
fn empty_input_has_no_tokens() {
    assert!(Tokenizer::tokenize(b"").unwrap().is_empty());
    assert!(Tokenizer::tokenize(b"  \t\r\n ").unwrap().is_empty());
}

#[test]
fn function_header() {
    assert_eq!(
        data("fn main do\n  x = 12 + y\nend"),
        vec![
            TokenData::KwFn,
            TokenData::Ident(b"main"),
            TokenData::KwDo,
            TokenData::Ident(b"x"),
            TokenData::OpAssign,
            TokenData::Number(10, b"12"),
            TokenData::OpAdd,
            TokenData::Ident(b"y"),
            TokenData::KwEnd,
        ]
    );
}

#[test]
fn keywords_and_booleans() {
    assert_eq!(
        data("let static local if elif else and or true false do_it"),
        vec![
            TokenData::KwLet,
            TokenData::KwConst,
            TokenData::KwStatic,
            TokenData::KwIf,
            TokenData::KwElif,
            TokenData::KwElse,
            TokenData::KwAnd,
            TokenData::KwOr,
            TokenData::Bool(true),
            TokenData::Bool(false),
            TokenData::Ident(b"do_it"),
        ]
    );
}

#[test]
fn operators_of_one_and_two_bytes() {
    assert_eq!(
        data("+= + -= * *= / /= == => = != ! <= < >= > - ( ) [ ] { } . , : ;"),
        vec![
            TokenData::OpAddAssign,
            TokenData::OpAdd,
            TokenData::OpMinusAssign,
            TokenData::OpMul,
            TokenData::OpMulAssign,
            TokenData::OpDiv,
            TokenData::OpDivAssign,
            TokenData::OpEqual,
            TokenData::RFatArrow,
            TokenData::OpAssign,
            TokenData::OpNotEqual,
            TokenData::OpNot,
            TokenData::OpLessEqThan,
            TokenData::OpLessThan,
            TokenData::OpGreaterEqThan,
            TokenData::OpGreaterThan,
            TokenData::OpMinus,
            TokenData::LParen,
            TokenData::RParen,
            TokenData::LBracket,
            TokenData::RBracket,
            TokenData::LCurly,
            TokenData::RCruly,
            TokenData::Dot,
            TokenData::Comma,
            TokenData::Colon,
            TokenData::Semicolon,
        ]
    );
}

#[test]
fn numbers_and_bases() {
    assert_eq!(
        data("0 05 0b101 0o17 0x19F 123"),
        vec![
            TokenData::Number(10, b"0"),
            TokenData::Number(10, b"0"),
            TokenData::Number(10, b"5"),
            TokenData::Number(2, b"0b101"),
            TokenData::Number(8, b"0o17"),
            TokenData::Number(16, b"0x19"),
            TokenData::Ident(b"F"),
            TokenData::Number(10, b"123"),
        ]
    );
}

#[test]
fn strings_keep_their_quotes() {
    assert_eq!(
        data("print 'Hello, World' ''"),
        vec![TokenData::Ident(b"print"), TokenData::String(b"'Hello, World'"), TokenData::String(b"''")]
    );
}

#[test]
fn comments_are_skipped_and_lines_counted() {
    assert_eq!(data("a -- note\nb"), vec![TokenData::Ident(b"a"), TokenData::Ident(b"b")]);
    assert_eq!(lines("a -- note\nb\n\nc"), vec![0, 1, 3]);
    assert_eq!(data("a --- block\n still --- b"), vec![TokenData::Ident(b"a"), TokenData::Ident(b"b")]);
    assert_eq!(data("a --- never closed"), vec![TokenData::Ident(b"a")]);
    assert_eq!(data("x -- to the end"), vec![TokenData::Ident(b"x")]);
}

#[test]
fn token_positions_have_column_zero() {
    let ts: Vec<Token> = Tokenizer::tokenize(b"a\n b").unwrap();
    assert_eq!(ts[1].source_view.start, SourcePos { line: 1, column: 0 });
    assert_eq!(ts[1].source_view.end, SourcePos { line: 1, column: 0 });
}

#[test]
fn unterminated_string_is_an_error() {
    let e = Tokenizer::tokenize(b"x\n'abc").unwrap_err();
    assert!(matches!(e.data, ParseErrorData::TrailingInput));
    assert_eq!(e.source_view.start, SourcePos { line: 1, column: 0 });
}

#[test]
fn base_prefix_without_digits_is_an_error() {
    assert!(matches!(Tokenizer::tokenize(b"0x").unwrap_err().data, ParseErrorData::UnexpectedChar));
    assert!(matches!(Tokenizer::tokenize(b"0b;").unwrap_err().data, ParseErrorData::UnexpectedChar));
}

#[test]
fn unknown_byte_is_an_error() {
    let e = Tokenizer::tokenize(b"a @").unwrap_err();
    assert!(matches!(e.data, ParseErrorData::Unreachable(_)));
    assert_eq!(e.source_view.start, SourcePos { line: 0, column: 0 });
}

#[test]
fn run_appends_to_a_tokenizer() {
    let mut t = Tokenizer::new(b"do end");
    assert!(t.run().is_ok());
    assert!(t.run().is_ok());
}
