//! The parser and the compiler's emission helpers observed directly.

use rlox::chunk::Chunk;
use rlox::chunk::OpCode;
use rlox::compiler::CompileMessage;
use rlox::compiler::Compiler;
use rlox::compiler::DiagnosticLocus;
use rlox::compiler::Parser;
use rlox::compiler::ParserToken;
use rlox::scanner::Scanner;
use rlox::scanner::Token;
use rlox::scanner::TokenType;
use rlox::value::Value;

fn parser_over(source: &[u8]) -> Parser {
    let dummy = Token::new(TokenType::Eof, 0, 0, 0);
    Parser::new(Scanner::new(source), dummy)
}

#[test]
fn advance_shifts_the_window() {
    let mut parser = parser_over(b"1 + 2");
    parser.advance();
    assert_eq!(parser.current.kind, TokenType::Number);
    parser.advance();
    assert_eq!(parser.previous.kind, TokenType::Number);
    assert_eq!(parser.current.kind, TokenType::Plus);
    parser.advance();
    assert_eq!(parser.current.kind, TokenType::Number);
    parser.advance();
    assert_eq!(parser.current.kind, TokenType::Eof);
    assert!(!parser.had_error);
}

#[test]
fn advance_skips_error_tokens_and_records_the_first() {
    let mut parser = parser_over(b"@ # 1");
    parser.advance();
    // Both lexical errors were skipped; the window lands on the number.
    assert_eq!(parser.current.kind, TokenType::Number);
    assert!(parser.had_error);
    assert!(parser.panic_mode);
    let d = parser.diagnostic.unwrap();
    assert_eq!(d.message, CompileMessage::UnexpectedCharacter);
}

#[test]
fn consume_advances_on_the_expected_kind() {
    let mut parser = parser_over(b"( 1");
    parser.advance();
    parser.consume(TokenType::LeftParen, CompileMessage::ExpectRightParenAfterExpression);
    assert!(!parser.had_error);
    assert_eq!(parser.previous.kind, TokenType::LeftParen);
    assert_eq!(parser.current.kind, TokenType::Number);
}

#[test]
fn consume_reports_on_the_wrong_kind() {
    let mut parser = parser_over(b"1");
    parser.advance();
    parser.consume(TokenType::RightParen, CompileMessage::ExpectRightParenAfterExpression);
    assert!(parser.had_error);
    let d = parser.diagnostic.unwrap();
    assert_eq!(d.message, CompileMessage::ExpectRightParenAfterExpression);
    assert_eq!(d.locus, DiagnosticLocus::AtLexeme { start: 0, length: 1 });
}

#[test]
fn error_points_at_the_previous_token() {
    let mut parser = parser_over(b"1 2");
    parser.advance();
    parser.advance();
    parser.error(CompileMessage::ExpectExpression);
    let d = parser.diagnostic.unwrap();
    assert_eq!(d.locus, DiagnosticLocus::AtLexeme { start: 0, length: 1 });
}

#[test]
fn error_at_current_points_at_the_current_token() {
    let mut parser = parser_over(b"1 2");
    parser.advance();
    parser.advance();
    parser.error_at(ParserToken::Current, CompileMessage::ExpectEndOfExpression);
    let d = parser.diagnostic.unwrap();
    assert_eq!(d.locus, DiagnosticLocus::AtLexeme { start: 2, length: 1 });
}

#[test]
fn panic_mode_swallows_later_diagnostics() {
    let mut parser = parser_over(b"1 2");
    parser.advance();
    parser.error_at_current(CompileMessage::ExpectExpression);
    let first = parser.diagnostic;
    parser.error_at_current(CompileMessage::ExpectEndOfExpression);
    assert_eq!(parser.diagnostic, first);
}

#[test]
fn make_constant_rejects_an_index_past_one_byte() {
    let parser = parser_over(b"1");
    let mut compiler = Compiler::new(parser, Chunk::new());
    compiler.parser.advance();
    for i in 0..=255u32 {
        let index = compiler.make_constant(Value::Double(i as u64));
        assert_eq!(index as u32, i);
        assert!(!compiler.parser.had_error);
    }
    // Slot 256 no longer fits a one-byte operand.
    let index = compiler.make_constant(Value::Nil);
    assert_eq!(index, 0);
    assert!(compiler.parser.had_error);
    let d = compiler.parser.diagnostic.unwrap();
    assert_eq!(d.message, CompileMessage::TooManyConstantsInOneChunk);
}

#[test]
fn emit_constant_writes_the_short_instruction() {
    let parser = parser_over(b"1");
    let mut compiler = Compiler::new(parser, Chunk::new());
    compiler.parser.advance();
    compiler.emit_constant(Value::Bool(true));
    assert_eq!(compiler.chunk.code, vec![OpCode::Constant.as_byte(), 0]);
    assert_eq!(compiler.chunk.constants, vec![Value::Bool(true)]);
}

#[test]
fn emit_bytes_attributes_both_to_the_previous_line() {
    let parser = parser_over(b"1");
    let mut compiler = Compiler::new(parser, Chunk::new());
    compiler.parser.advance();
    compiler.parser.advance();
    compiler.emit_bytes(OpCode::Equal.as_byte(), OpCode::Not.as_byte());
    assert_eq!(compiler.chunk.code, vec![12, 11]);
    assert_eq!(compiler.chunk.get_line(0), 1);
    assert_eq!(compiler.chunk.get_line(1), 1);
}

#[test]
fn current_chunk_hands_out_the_growing_chunk() {
    let parser = parser_over(b"1");
    let mut compiler = Compiler::new(parser, Chunk::new());
    compiler.parser.advance();
    compiler.current_chunk().write(OpCode::Nil.as_byte(), 1);
    assert_eq!(compiler.chunk.code, vec![OpCode::Nil.as_byte()]);
}
