//! The scanner observed token by token: kinds, spans, lines, keywords and
//! lexical errors.

use rlox::scanner::check_keyword;
use rlox::scanner::is_alpha;
use rlox::scanner::LexMessage;
use rlox::scanner::Scanner;
use rlox::scanner::Token;
use rlox::scanner::TokenType;

fn kinds_of(source: &str) -> Vec<TokenType> {
    let mut scanner = Scanner::new(source.as_bytes());
    let mut kinds = Vec::new();
    loop {
        let tok = scanner.scan_token();
        let kind = tok.kind;
        kinds.push(kind);
        if kind == TokenType::Eof {
            return kinds;
        }
    }
}

fn lexemes_of(source: &str) -> Vec<(TokenType, String)> {
    let bytes = source.as_bytes();
    let mut scanner = Scanner::new(bytes);
    let mut out = Vec::new();
    loop {
        let tok = scanner.scan_token();
        if tok.kind == TokenType::Eof {
            return out;
        }
        let text = std::str::from_utf8(&bytes[tok.start..tok.start + tok.length]).unwrap();
        out.push((tok.kind, text.to_string()));
    }
}

#[test]
fn scans_single_character_tokens() {
    assert_eq!(
        kinds_of("(){};,.-+/*"),
        vec![
            TokenType::LeftParen,
            TokenType::RightParen,
            TokenType::LeftBrace,
            TokenType::RightBrace,
            TokenType::Semicolon,
            TokenType::Comma,
            TokenType::Dot,
            TokenType::Minus,
            TokenType::Plus,
            TokenType::Slash,
            TokenType::Star,
            TokenType::Eof,
        ]
    );
}

#[test]
fn scans_one_or_two_character_operators() {
    assert_eq!(
        kinds_of("! != = == < <= > >="),
        vec![
            TokenType::Bang,
            TokenType::BangEqual,
            TokenType::Equal,
            TokenType::EqualEqual,
            TokenType::Less,
            TokenType::LessEqual,
            TokenType::Greater,
            TokenType::GreaterEqual,
            TokenType::Eof,
        ]
    );
}

#[test]
fn scans_all_sixteen_keywords() {
    assert_eq!(
        kinds_of("and class else false for fun if nil or print return super this true var while"),
        vec![
            TokenType::And,
            TokenType::Class,
            TokenType::Else,
            TokenType::False,
            TokenType::For,
            TokenType::Fun,
            TokenType::If,
            TokenType::Nil,
            TokenType::Or,
            TokenType::Print,
            TokenType::Return,
            TokenType::Super,
            TokenType::This,
            TokenType::True,
            TokenType::Var,
            TokenType::While,
            TokenType::Eof,
        ]
    );
}

#[test]
fn near_keywords_are_identifiers() {
    assert_eq!(
        kinds_of("ands fo f t tr truex _var classy"),
        vec![
            TokenType::Identifier,
            TokenType::Identifier,
            TokenType::Identifier,
            TokenType::Identifier,
            TokenType::Identifier,
            TokenType::Identifier,
            TokenType::Identifier,
            TokenType::Identifier,
            TokenType::Eof,
        ]
    );
}

#[test]
fn scans_numbers_with_and_without_fraction() {
    assert_eq!(
        lexemes_of("12 3.25 0.5"),
        vec![
            (TokenType::Number, "12".to_string()),
            (TokenType::Number, "3.25".to_string()),
            (TokenType::Number, "0.5".to_string()),
        ]
    );
}

#[test]
fn dot_without_following_digit_stays_a_dot() {
    assert_eq!(
        kinds_of("1. 2"),
        vec![TokenType::Number, TokenType::Dot, TokenType::Number, TokenType::Eof]
    );
}

#[test]
fn string_lexeme_includes_both_quotes() {
    assert_eq!(lexemes_of("\"abc\""), vec![(TokenType::String, "\"abc\"".to_string())]);
}

#[test]
fn unterminated_string_is_an_error_token() {
    let mut scanner = Scanner::new(b"\"abc");
    let tok = scanner.scan_token();
    assert_eq!(tok.kind, TokenType::Error);
    assert_eq!(tok.message, LexMessage::UnterminatedString);
}

#[test]
fn unexpected_character_is_an_error_token() {
    let mut scanner = Scanner::new(b"@");
    let tok = scanner.scan_token();
    assert_eq!(tok.kind, TokenType::Error);
    assert_eq!(tok.message, LexMessage::UnexpectedCharacter);
}

#[test]
fn lines_count_newlines_and_skip_comments() {
    let mut scanner = Scanner::new(b"1\n2 // three\n3");
    let t1 = scanner.scan_token();
    let t2 = scanner.scan_token();
    let t3 = scanner.scan_token();
    let eof = scanner.scan_token();
    assert_eq!((t1.kind, t1.line), (TokenType::Number, 1));
    assert_eq!((t2.kind, t2.line), (TokenType::Number, 2));
    assert_eq!((t3.kind, t3.line), (TokenType::Number, 3));
    assert_eq!(eof.kind, TokenType::Eof);
}

#[test]
fn newline_inside_string_advances_the_line() {
    let mut scanner = Scanner::new(b"\"a\nb\" 1");
    let s = scanner.scan_token();
    let n = scanner.scan_token();
    assert_eq!((s.kind, s.line), (TokenType::String, 2));
    assert_eq!((n.kind, n.line), (TokenType::Number, 2));
}

#[test]
fn eof_token_spans_nothing() {
    let mut scanner = Scanner::new(b"  ");
    let tok = scanner.scan_token();
    assert_eq!(tok.kind, TokenType::Eof);
    assert_eq!(tok.length, 0);
}

#[test]
fn is_alpha_accepts_letters_and_underscore() {
    assert!(is_alpha(b'a'));
    assert!(is_alpha(b'Z'));
    assert!(is_alpha(b'_'));
    assert!(!is_alpha(b'0'));
    assert!(!is_alpha(b'-'));
}

#[test]
fn check_keyword_requires_exact_remainder() {
    assert_eq!(check_keyword(b"and", 1, 2, b"nd", TokenType::And), TokenType::And);
    assert_eq!(check_keyword(b"anda", 1, 2, b"nd", TokenType::And), TokenType::Identifier);
    assert_eq!(check_keyword(b"anx", 1, 2, b"nd", TokenType::And), TokenType::Identifier);
}

#[test]
fn token_constructors_record_their_fields() {
    let tok = Token::new(TokenType::Plus, 3, 7, 1);
    assert_eq!((tok.kind, tok.line, tok.start, tok.length), (TokenType::Plus, 3, 7, 1));
    assert_eq!(tok.message, LexMessage::NoMessage);
    let err = Token::error_token(LexMessage::UnexpectedCharacter, 2);
    assert_eq!(err.kind, TokenType::Error);
    assert_eq!(err.line, 2);
}

#[test]
fn tokens_take_their_maximal_lexemes() {
    assert_eq!(
        lexemes_of("12x !=="),
        vec![
            (TokenType::Number, "12".to_string()),
            (TokenType::Identifier, "x".to_string()),
            (TokenType::BangEqual, "!=".to_string()),
            (TokenType::Equal, "=".to_string()),
        ]
    );
}

#[test]
fn string_token_stops_at_the_first_closing_quote() {
    assert_eq!(
        lexemes_of("\"a\" \"b\""),
        vec![
            (TokenType::String, "\"a\"".to_string()),
            (TokenType::String, "\"b\"".to_string()),
        ]
    );
}
