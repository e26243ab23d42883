use bytevm::ast::NodeType;
use bytevm::lexer::Lexer;
use bytevm::parser::parse;
use bytevm::token::{Token, TokenType};

fn all(src: &str) -> Vec<Token> {
    let mut l = Lexer::from_str(src);
    let mut out = Vec::new();
    while let Some(t) = l.next() {
        out.push(t);
    }
    out
}

fn kinds(src: &str) -> Vec<String> {
    all(src).iter().map(|t| format!("{:?}", t.t_type)).collect()
}

#[test]
fn empty_and_blank_sources_have_no_tokens() {
    assert!(all("").is_empty());
    assert!(all(" \t\r ").is_empty());
    assert!(Lexer::from_str("").peek().is_none());
}

#[test]
fn sample_program() {
    let src = "fn main do\n    print 'Hello, World'\n    print (12+4)*3 + 0b123\nend";
    assert_eq!(
        kinds(src),
        vec![
            "Function", "Ident(\"main\")", "Do", "NewLine", "Ident(\"print\")", "String", "NewLine",
            "Ident(\"print\")", "LParen", "Number(\"12\", 10)", "Plus", "Number(\"4\", 10)", "RParen",
            "Multiply", "Number(\"3\", 10)", "Plus", "Number(\"123\", 2)", "NewLine", "End",
        ]
    );
    let ts = all(src);
    assert_eq!((ts[0].row, ts[0].col), (1, 1));
    assert_eq!((ts[1].row, ts[1].col), (1, 4));
    assert_eq!((ts[3].row, ts[3].col), (2, 0));
    assert_eq!((ts[4].row, ts[4].col), (2, 5));
    assert_eq!(ts[5].ident, "Hello, World");
    assert_eq!((ts[5].row, ts[5].col), (2, 11));
    assert_eq!(ts[16].ident, "0b123");
    assert_eq!((ts[18].row, ts[18].col), (4, 1));
}

#[test]
fn single_character_tokens_keep_their_text() {
    let ts = all(";()+-*/\n");
    let texts: Vec<&str> = ts.iter().map(|t| t.ident.as_str()).collect();
    assert_eq!(texts, vec![";", "(", ")", "+", "-", "*", "/", "\n"]);
    assert!(matches!(ts[0].t_type, TokenType::Semicolon));
    assert!(matches!(ts[7].t_type, TokenType::NewLine));
}

#[test]
fn keywords() {
    assert_eq!(kinds("do end then fn fnx"), vec!["Do", "End", "Then", "Function", "Ident(\"fnx\")"]);
}

#[test]
fn numbers_in_bases() {
    assert_eq!(
        kinds("0x1F 0o17 0b101 42 7A"),
        vec![
            "Number(\"1F\", 16)",
            "Number(\"17\", 8)",
            "Number(\"101\", 2)",
            "Number(\"42\", 10)",
            "Number(\"7A\", 10)",
        ]
    );
}

#[test]
fn malformed_numbers_are_illegal() {
    assert_eq!(
        kinds("0 12z 0x"),
        vec![
            "Illegal(\"expected a base prefix\")",
            "Illegal(\"expected a number\")",
            "Illegal(\"expected a number\")",
        ]
    );
    let ts = all("0x;");
    assert_eq!(ts[0].ident, "0x");
    assert!(matches!(ts[1].t_type, TokenType::Semicolon));
}

#[test]
fn unterminated_string_is_illegal() {
    let ts = all("x 'abc");
    assert_eq!(ts.len(), 2);
    assert!(matches!(&ts[1].t_type, TokenType::Illegal(r) if r == "unterminated string"));
    assert_eq!(ts[1].ident, "'abc");
}

#[test]
fn words_run_to_special_characters() {
    assert_eq!(kinds("a.b,c#d"), vec!["Ident(\"a\")", "Ident(\".b\")", "Ident(\",c\")", "Ident(\"#d\")"]);
}

#[test]
fn peek_does_not_advance() {
    let mut l = Lexer::from_str("do end");
    assert!(matches!(l.peek().unwrap().t_type, TokenType::Do));
    assert!(matches!(l.peek().unwrap().t_type, TokenType::Do));
    assert!(matches!(l.next().unwrap().t_type, TokenType::Do));
    assert!(matches!(l.peek().unwrap().t_type, TokenType::End));
    assert!(matches!(l.next().unwrap().t_type, TokenType::End));
    assert!(l.next().is_none());
    assert!(l.peek().is_none());
}

#[test]
fn token_new_keeps_fields() {
    let t = Token::new(TokenType::Plus, "+".to_string(), 3, 7);
    assert!(matches!(t.t_type, TokenType::Plus));
    assert_eq!((t.ident.as_str(), t.row, t.col), ("+", 3, 7));
}

#[test]
fn parse_builds_a_module_root() {
    let mut l = Lexer::from_str("fn main do end");
    let ast = parse(&mut l);
    assert_eq!(ast.get_node(0).unwrap().node_type(), NodeType::Module);
    assert!(ast.get_node(1).is_err());
    assert!(matches!(l.next().unwrap().t_type, TokenType::Function));
}
