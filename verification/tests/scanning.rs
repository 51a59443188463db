//! Scanner behaviour on concrete sources: token classification, literals,
//! line counting, and lexical diagnostics.

use rlox::scanner::{Diagnostic, DiagnosticKind, Scanner};
use rlox::token::{Literal, Token, TokenType};

fn scan(source: &str) -> (Vec<Token>, Vec<Diagnostic>) {
    rlox::run(source.as_bytes().to_vec())
}

fn number_value(token: &Token) -> f64 {
    assert_eq!(token.ty, TokenType::Number);
    String::from_utf8(token.lexeme.clone())
        .unwrap()
        .parse::<f64>()
        .unwrap()
}

#[test]
fn scan_always_ends_with_eof() {
    for source in ["", "1 + 2", "\"open", "@#&", "var x = 10;\nprint x;"] {
        let (tokens, _) = scan(source);
        assert!(!tokens.is_empty());
        assert_eq!(tokens.last().unwrap().ty, TokenType::Eof);
        assert!(tokens.last().unwrap().lexeme.is_empty());
    }
}

#[test]
fn whitespace_and_comments_yield_only_eof() {
    let (tokens, diagnostics) = scan(" \t\r\n// a comment\n   // another");
    assert_eq!(tokens.len(), 1);
    assert_eq!(tokens[0].ty, TokenType::Eof);
    assert_eq!(tokens[0].line, 3);
    assert!(diagnostics.is_empty());
}

#[test]
fn scan_integer_number() {
    let (tokens, diagnostics) = scan("123");
    assert!(diagnostics.is_empty());
    assert_eq!(tokens.len(), 2);
    assert_eq!(tokens[0].ty, TokenType::Number);
    assert_eq!(tokens[0].lexeme, b"123".to_vec());
    assert_eq!(tokens[0].literal, Some(Literal::Number(b"123".to_vec())));
    assert_eq!(number_value(&tokens[0]), 123.0);
    assert_eq!(tokens[1].ty, TokenType::Eof);
}

#[test]
fn scan_decimal_number() {
    let (tokens, _) = scan("12.5");
    assert_eq!(tokens.len(), 2);
    assert_eq!(tokens[0].lexeme, b"12.5".to_vec());
    assert_eq!(number_value(&tokens[0]), 12.5);
}

#[test]
fn trailing_dot_is_not_absorbed() {
    let (tokens, _) = scan("12.");
    assert_eq!(tokens.len(), 3);
    assert_eq!(tokens[0].ty, TokenType::Number);
    assert_eq!(tokens[0].lexeme, b"12".to_vec());
    assert_eq!(number_value(&tokens[0]), 12.0);
    assert_eq!(tokens[1].ty, TokenType::Dot);
    assert_eq!(tokens[2].ty, TokenType::Eof);
}

#[test]
fn bang_equal_is_one_token() {
    let (tokens, _) = scan("!=");
    assert_eq!(tokens.len(), 2);
    assert_eq!(tokens[0].ty, TokenType::BangEqual);
    assert_eq!(tokens[0].lexeme, b"!=".to_vec());
}

#[test]
fn lone_bang_is_bang() {
    let (tokens, _) = scan("! ");
    assert_eq!(tokens.len(), 2);
    assert_eq!(tokens[0].ty, TokenType::Bang);
    assert_eq!(tokens[0].lexeme, b"!".to_vec());
}

#[test]
fn one_and_two_character_operators() {
    let (tokens, _) = scan("= == < <= > >= / *");
    let kinds: Vec<TokenType> = tokens.iter().map(|t| t.ty).collect();
    assert_eq!(
        kinds,
        vec![
            TokenType::Equal,
            TokenType::EqualEqual,
            TokenType::Less,
            TokenType::LessEqual,
            TokenType::Greater,
            TokenType::GreaterEqual,
            TokenType::Slash,
            TokenType::Star,
            TokenType::Eof,
        ]
    );
}

#[test]
fn string_literal_excludes_quotes() {
    let (tokens, diagnostics) = scan("\"abc\"");
    assert!(diagnostics.is_empty());
    assert_eq!(tokens.len(), 2);
    assert_eq!(tokens[0].ty, TokenType::String);
    assert_eq!(tokens[0].lexeme, b"\"abc\"".to_vec());
    assert_eq!(tokens[0].literal, Some(Literal::String(b"abc".to_vec())));
}

#[test]
fn unterminated_string_reports_and_yields_no_token() {
    let (tokens, diagnostics) = scan("\"abc");
    assert_eq!(tokens.len(), 1);
    assert_eq!(tokens[0].ty, TokenType::Eof);
    assert_eq!(diagnostics.len(), 1);
    assert_eq!(diagnostics[0].kind, DiagnosticKind::UnterminatedString);
    assert_eq!(diagnostics[0].line, 1);
}

#[test]
fn string_may_span_lines() {
    let (tokens, _) = scan("\"a\nb\"");
    assert_eq!(tokens[0].ty, TokenType::String);
    assert_eq!(tokens[0].literal, Some(Literal::String(b"a\nb".to_vec())));
    assert_eq!(tokens[0].line, 2);
}

#[test]
fn maximal_munch_keeps_classroom_one_identifier() {
    let (tokens, _) = scan("classroom");
    assert_eq!(tokens.len(), 2);
    assert_eq!(tokens[0].ty, TokenType::Identifier);
    assert_eq!(tokens[0].lexeme, b"classroom".to_vec());
}

#[test]
fn class_is_a_keyword() {
    let (tokens, _) = scan("class");
    assert_eq!(tokens.len(), 2);
    assert_eq!(tokens[0].ty, TokenType::Class);
}

#[test]
fn all_reserved_words_are_classified() {
    let source = "and class else false fun for if nil or print return super this true var while";
    let (tokens, _) = scan(source);
    let kinds: Vec<TokenType> = tokens.iter().map(|t| t.ty).collect();
    assert_eq!(
        kinds,
        vec![
            TokenType::And,
            TokenType::Class,
            TokenType::Else,
            TokenType::False,
            TokenType::Fun,
            TokenType::For,
            TokenType::If,
            TokenType::Nil,
            TokenType::Or,
            TokenType::Print,
            TokenType::Return,
            TokenType::Super,
            TokenType::This,
            TokenType::True,
            TokenType::Var,
            TokenType::While,
            TokenType::Eof,
        ]
    );
}

#[test]
fn unexpected_character_is_skipped_with_diagnostic() {
    let (tokens, diagnostics) = scan("@1");
    assert_eq!(diagnostics.len(), 1);
    assert_eq!(diagnostics[0].kind, DiagnosticKind::UnexpectedCharacter(b'@'));
    assert_eq!(diagnostics[0].line, 1);
    assert_eq!(tokens.len(), 2);
    assert_eq!(tokens[0].ty, TokenType::Number);
}

#[test]
fn newlines_advance_the_line_counter() {
    let (tokens, _) = scan("a\nb\n\nc");
    assert_eq!(tokens[0].line, 1);
    assert_eq!(tokens[1].line, 2);
    assert_eq!(tokens[2].line, 4);
    assert_eq!(tokens[3].ty, TokenType::Eof);
    assert_eq!(tokens[3].line, 4);
}

#[test]
fn punctuation_tokens() {
    let (tokens, _) = scan("(){},.-+;");
    let kinds: Vec<TokenType> = tokens.iter().map(|t| t.ty).collect();
    assert_eq!(
        kinds,
        vec![
            TokenType::LeftParen,
            TokenType::RightParen,
            TokenType::LeftBrace,
            TokenType::RightBrace,
            TokenType::Comma,
            TokenType::Dot,
            TokenType::Minus,
            TokenType::Plus,
            TokenType::Semicolon,
            TokenType::Eof,
        ]
    );
}

#[test]
fn scanner_new_then_scan_matches_run() {
    let scanner = Scanner::new(b"1 + 2".to_vec());
    let (tokens, diagnostics) = scanner.scan();
    let (tokens2, diagnostics2) = rlox::run(b"1 + 2".to_vec());
    assert_eq!(tokens, tokens2);
    assert_eq!(diagnostics, diagnostics2);
}
