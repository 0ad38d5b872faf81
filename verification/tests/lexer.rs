//! Scanner behavior: every token kind from a minimal snippet, line
//! numbering, comment and whitespace handling, and lexical errors.
use lox_vm::compiler::Scanner;
use lox_vm::token::TokenType;

fn first_token(src: &str) -> (TokenType, Vec<u8>, usize) {
    let mut sc = Scanner::new(src);
    let t = sc.scan_tok();
    (t.tok_type, t.content, t.line)
}

fn kinds(src: &str) -> Vec<TokenType> {
    let mut sc = Scanner::new(src);
    let mut out = Vec::new();
    loop {
        let t = sc.scan_tok();
        let k = t.tok_type;
        out.push(k);
        if k == TokenType::Eof {
            return out;
        }
    }
}

#[test]
fn single_char_tokens() {
    assert_eq!(first_token("("), (TokenType::LeftParen, b"(".to_vec(), 1));
    assert_eq!(first_token(")"), (TokenType::RightParen, b")".to_vec(), 1));
    assert_eq!(first_token("{"), (TokenType::LeftBrace, b"{".to_vec(), 1));
    assert_eq!(first_token("}"), (TokenType::RightBrace, b"}".to_vec(), 1));
    assert_eq!(first_token(","), (TokenType::Comma, b",".to_vec(), 1));
    assert_eq!(first_token(";"), (TokenType::Semicolon, b";".to_vec(), 1));
    assert_eq!(first_token("-"), (TokenType::Minus, b"-".to_vec(), 1));
    assert_eq!(first_token("+"), (TokenType::Plus, b"+".to_vec(), 1));
    assert_eq!(first_token("*"), (TokenType::Star, b"*".to_vec(), 1));
    assert_eq!(first_token("/"), (TokenType::Slash, b"/".to_vec(), 1));
}

#[test]
fn one_and_two_char_operators() {
    assert_eq!(first_token("!"), (TokenType::Bang, b"!".to_vec(), 1));
    assert_eq!(first_token("!="), (TokenType::BangEq, b"!=".to_vec(), 1));
    assert_eq!(first_token("="), (TokenType::Eq, b"=".to_vec(), 1));
    assert_eq!(first_token("=="), (TokenType::EqEq, b"==".to_vec(), 1));
    assert_eq!(first_token("<"), (TokenType::Less, b"<".to_vec(), 1));
    assert_eq!(first_token("<="), (TokenType::LessEq, b"<=".to_vec(), 1));
    assert_eq!(first_token(">"), (TokenType::Greater, b">".to_vec(), 1));
    assert_eq!(first_token(">="), (TokenType::GreaterEq, b">=".to_vec(), 1));
    // `!` followed by something that is not `=` stays a single token
    assert_eq!(
        kinds("!1"),
        vec![TokenType::Bang, TokenType::Number, TokenType::Eof]
    );
}

#[test]
fn literal_tokens() {
    assert_eq!(first_token("abc"), (TokenType::Identifier, b"abc".to_vec(), 1));
    assert_eq!(first_token("_x9"), (TokenType::Identifier, b"_x9".to_vec(), 1));
    assert_eq!(first_token("42"), (TokenType::Number, b"42".to_vec(), 1));
    assert_eq!(first_token("12.5"), (TokenType::Number, b"12.5".to_vec(), 1));
    assert_eq!(first_token("\"hi\""), (TokenType::Str, b"\"hi\"".to_vec(), 1));
}

#[test]
fn trailing_dot_is_not_part_of_a_number() {
    let mut sc = Scanner::new("7.");
    let t = sc.scan_tok();
    assert_eq!(t.tok_type, TokenType::Number);
    assert_eq!(t.content, b"7".to_vec());
    let t2 = sc.scan_tok();
    assert_eq!(t2.tok_type, TokenType::Error);
    assert_eq!(t2.content, b"Unexpected character".to_vec());
}

#[test]
fn keyword_tokens() {
    let cases: Vec<(&str, TokenType)> = vec![
        ("and", TokenType::And),
        ("class", TokenType::Class),
        ("else", TokenType::Else),
        ("if", TokenType::If),
        ("nil", TokenType::Nil),
        ("or", TokenType::Or),
        ("print", TokenType::Print),
        ("return", TokenType::Return),
        ("super", TokenType::Super),
        ("this", TokenType::This),
        ("true", TokenType::True),
        ("false", TokenType::False),
        ("for", TokenType::For),
        ("while", TokenType::While),
        ("var", TokenType::Var),
        ("func", TokenType::Func),
    ];
    for (src, want) in cases {
        let (kind, text, line) = first_token(src);
        assert_eq!(kind, want);
        assert_eq!(text, src.as_bytes().to_vec());
        assert_eq!(line, 1);
    }
    // a keyword prefix continued by more identifier bytes is an identifier
    assert_eq!(first_token("andy").0, TokenType::Identifier);
    assert_eq!(first_token("vars").0, TokenType::Identifier);
}

#[test]
fn error_and_eof_tokens() {
    assert_eq!(
        first_token("@"),
        (TokenType::Error, b"Unexpected character".to_vec(), 1)
    );
    assert_eq!(
        first_token("\"abc"),
        (TokenType::Error, b"Unterminated string".to_vec(), 1)
    );
    assert_eq!(first_token(""), (TokenType::Eof, b"".to_vec(), 1));
}

#[test]
fn identifier_start_bytes() {
    assert!(lox_vm::compiler::is_alpha(b'a'));
    assert!(lox_vm::compiler::is_alpha(b'Z'));
    assert!(lox_vm::compiler::is_alpha(b'_'));
    assert!(!lox_vm::compiler::is_alpha(b'0'));
    assert!(!lox_vm::compiler::is_alpha(b'@'));
}

#[test]
fn eof_is_idempotent() {
    let mut sc = Scanner::new("1");
    assert_eq!(sc.scan_tok().tok_type, TokenType::Number);
    assert_eq!(sc.scan_tok().tok_type, TokenType::Eof);
    assert_eq!(sc.scan_tok().tok_type, TokenType::Eof);
    assert_eq!(sc.scan_tok().tok_type, TokenType::Eof);
}

#[test]
fn line_numbers_follow_physical_lines() {
    let mut sc = Scanner::new("1\n+\n2");
    let a = sc.scan_tok();
    assert_eq!((a.tok_type, a.line), (TokenType::Number, 1));
    let b = sc.scan_tok();
    assert_eq!((b.tok_type, b.line), (TokenType::Plus, 2));
    let c = sc.scan_tok();
    assert_eq!((c.tok_type, c.line), (TokenType::Number, 3));
    let d = sc.scan_tok();
    assert_eq!((d.tok_type, d.line), (TokenType::Eof, 3));
}

#[test]
fn whitespace_and_comments_are_skipped() {
    assert_eq!(
        kinds(" \t\r 1 // a comment\n 2"),
        vec![TokenType::Number, TokenType::Number, TokenType::Eof]
    );
    let mut sc = Scanner::new("1 // to end of line\n2");
    assert_eq!(sc.scan_tok().line, 1);
    assert_eq!(sc.scan_tok().line, 2);
    // a comment with no trailing newline runs to the end of the input
    assert_eq!(kinds("1 // nothing after"), vec![TokenType::Number, TokenType::Eof]);
}

#[test]
fn string_with_embedded_newline_counts_lines() {
    let mut sc = Scanner::new("\"a\nb\" 2");
    let s = sc.scan_tok();
    assert_eq!(s.tok_type, TokenType::Str);
    assert_eq!(s.content, b"\"a\nb\"".to_vec());
    assert_eq!(s.line, 2);
    let n = sc.scan_tok();
    assert_eq!((n.tok_type, n.line), (TokenType::Number, 2));
}
