//! The compiler observed through its output: exact bytecode for small
//! expressions, pending numeric literals, diagnostics, and the rule table.

use rlox::compiler::compile;
use rlox::compiler::CompileMessage;
use rlox::compiler::Compiler;
use rlox::compiler::DiagnosticLocus;
use rlox::compiler::InfixFn;
use rlox::compiler::Precedence;
use rlox::compiler::PrefixFn;
use rlox::scanner::TokenType;
use rlox::value::Value;
use rlox::vm::InterpretError;

fn spans<'a>(source: &'a str, pending: &[rlox::compiler::PendingNumber]) -> Vec<&'a str> {
    pending
        .iter()
        .map(|p| std::str::from_utf8(&source.as_bytes()[p.start..p.start + p.length]).unwrap())
        .collect()
}

#[test]
fn compiles_a_single_literal() {
    let (result, diagnostic) = compile(b"7");
    assert!(diagnostic.is_none());
    let out = result.unwrap();
    // Constant 0, Return.
    assert_eq!(out.chunk.code, vec![1, 0, 0]);
    assert_eq!(out.chunk.constants, vec![Value::Double(0)]);
    assert_eq!(spans("7", &out.pending), vec!["7"]);
}

#[test]
fn precedence_orders_the_emitted_code() {
    let source = "1 + 2 * 3";
    let (result, _) = compile(source.as_bytes());
    let out = result.unwrap();
    // Constant 0, Constant 1, Constant 2, Multiply, Add, Return.
    assert_eq!(out.chunk.code, vec![1, 0, 1, 1, 1, 2, 8, 6, 0]);
    assert_eq!(spans(source, &out.pending), vec!["1", "2", "3"]);
}

#[test]
fn grouping_reorders_the_emitted_code() {
    let source = "(1 + 2) * 3";
    let (result, _) = compile(source.as_bytes());
    let out = result.unwrap();
    // Constant 0, Constant 1, Add, Constant 2, Multiply, Return.
    assert_eq!(out.chunk.code, vec![1, 0, 1, 1, 6, 1, 2, 8, 0]);
}

#[test]
fn literals_emit_their_single_opcodes() {
    let (result, _) = compile(b"true");
    assert_eq!(result.unwrap().chunk.code, vec![2, 0]);
    let (result, _) = compile(b"false");
    assert_eq!(result.unwrap().chunk.code, vec![3, 0]);
    let (result, _) = compile(b"nil");
    assert_eq!(result.unwrap().chunk.code, vec![4, 0]);
}

#[test]
fn unary_operators_emit_after_their_operand() {
    let (result, _) = compile(b"-1");
    // Constant 0, Negate, Return.
    assert_eq!(result.unwrap().chunk.code, vec![1, 0, 10, 0]);
    let (result, _) = compile(b"!true");
    // True, Not, Return.
    assert_eq!(result.unwrap().chunk.code, vec![2, 11, 0]);
}

#[test]
fn complemented_comparisons_emit_two_opcodes() {
    // != lowers to Equal, Not.
    let (result, _) = compile(b"1 != 2");
    assert_eq!(result.unwrap().chunk.code, vec![1, 0, 1, 1, 12, 11, 0]);
    // >= lowers to Less, Not.
    let (result, _) = compile(b"1 >= 2");
    assert_eq!(result.unwrap().chunk.code, vec![1, 0, 1, 1, 14, 11, 0]);
    // <= lowers to Greater, Not.
    let (result, _) = compile(b"1 <= 2");
    assert_eq!(result.unwrap().chunk.code, vec![1, 0, 1, 1, 13, 11, 0]);
    // < and > keep their primitive opcodes.
    let (result, _) = compile(b"1 < 2");
    assert_eq!(result.unwrap().chunk.code, vec![1, 0, 1, 1, 14, 0]);
    let (result, _) = compile(b"1 > 2");
    assert_eq!(result.unwrap().chunk.code, vec![1, 0, 1, 1, 13, 0]);
}

#[test]
fn left_associative_subtraction() {
    let source = "5 - 2 - 1";
    let (result, _) = compile(source.as_bytes());
    let out = result.unwrap();
    // ((5 - 2) - 1): Constant 0, Constant 1, Subtract, Constant 2, Subtract, Return.
    assert_eq!(out.chunk.code, vec![1, 0, 1, 1, 7, 1, 2, 7, 0]);
}

#[test]
fn missing_operand_reports_expect_expression_at_end() {
    let (result, diagnostic) = compile(b"1 +");
    assert_eq!(result.unwrap_err(), InterpretError::CompileError);
    let d = diagnostic.unwrap();
    assert_eq!(d.line, 1);
    assert_eq!(d.locus, DiagnosticLocus::AtEnd);
    assert_eq!(d.message, CompileMessage::ExpectExpression);
}

#[test]
fn missing_close_paren_is_reported() {
    let (result, diagnostic) = compile(b"(1 + 2");
    assert_eq!(result.unwrap_err(), InterpretError::CompileError);
    let d = diagnostic.unwrap();
    assert_eq!(d.message, CompileMessage::ExpectRightParenAfterExpression);
}

#[test]
fn trailing_tokens_are_rejected() {
    let (result, diagnostic) = compile(b"1 2");
    assert_eq!(result.unwrap_err(), InterpretError::CompileError);
    let d = diagnostic.unwrap();
    assert_eq!(d.message, CompileMessage::ExpectEndOfExpression);
    assert_eq!(d.locus, DiagnosticLocus::AtLexeme { start: 2, length: 1 });
}

#[test]
fn lexical_error_carries_its_message() {
    let (result, diagnostic) = compile(b"@");
    assert_eq!(result.unwrap_err(), InterpretError::CompileError);
    let d = diagnostic.unwrap();
    assert_eq!(d.message, CompileMessage::UnexpectedCharacter);
    assert_eq!(d.locus, DiagnosticLocus::AtErrorToken);
}

#[test]
fn only_the_first_diagnostic_is_recorded() {
    let (result, diagnostic) = compile(b"@ @");
    assert_eq!(result.unwrap_err(), InterpretError::CompileError);
    let d = diagnostic.unwrap();
    assert_eq!(d.message, CompileMessage::UnexpectedCharacter);
}

#[test]
fn diagnostics_carry_the_offending_line() {
    let (result, diagnostic) = compile(b"1 +\n@");
    assert_eq!(result.unwrap_err(), InterpretError::CompileError);
    assert_eq!(diagnostic.unwrap().line, 2);
}

#[test]
fn chunks_always_end_with_return() {
    for source in ["1", "true", "1 + 2", "!nil"] {
        let (result, _) = compile(source.as_bytes());
        let code = result.unwrap().chunk.code;
        assert_eq!(*code.last().unwrap(), 0);
    }
}

#[test]
fn rule_table_matches_the_design() {
    let lparen = Compiler::get_rule(TokenType::LeftParen);
    assert_eq!(lparen.prefix, Some(PrefixFn::Grouping));
    assert_eq!(lparen.infix, None);

    let minus = Compiler::get_rule(TokenType::Minus);
    assert_eq!(minus.prefix, Some(PrefixFn::Unary));
    assert_eq!(minus.infix, Some(InfixFn::Binary));
    assert_eq!(minus.precedence, Precedence::Term);

    let star = Compiler::get_rule(TokenType::Star);
    assert_eq!(star.precedence, Precedence::Factor);

    let eq = Compiler::get_rule(TokenType::EqualEqual);
    assert_eq!(eq.precedence, Precedence::Equality);

    let less = Compiler::get_rule(TokenType::Less);
    assert_eq!(less.precedence, Precedence::Comparison);

    let number = Compiler::get_rule(TokenType::Number);
    assert_eq!(number.prefix, Some(PrefixFn::Number));

    let eof = Compiler::get_rule(TokenType::Eof);
    assert_eq!(eof.prefix, None);
    assert_eq!(eof.infix, None);
    assert_eq!(eof.precedence, Precedence::Lowest);
}

#[test]
fn precedence_levels_climb_the_ladder() {
    let ladder = [
        Precedence::Lowest,
        Precedence::Assignment,
        Precedence::Or,
        Precedence::And,
        Precedence::Equality,
        Precedence::Comparison,
        Precedence::Term,
        Precedence::Factor,
        Precedence::Unary,
        Precedence::Call,
        Precedence::Primary,
    ];
    for (i, p) in ladder.iter().enumerate() {
        assert_eq!(p.level() as usize, i);
        assert_eq!(Precedence::from_unchecked(i as u8), *p);
    }
}

#[test]
fn empty_source_reports_expect_expression_at_end() {
    let (result, diagnostic) = compile(b"");
    assert_eq!(result.unwrap_err(), InterpretError::CompileError);
    let d = diagnostic.unwrap();
    assert_eq!(d.line, 1);
    assert_eq!(d.locus, DiagnosticLocus::AtEnd);
    assert_eq!(d.message, CompileMessage::ExpectExpression);
}

#[test]
fn whitespace_only_source_is_rejected_too() {
    let (result, _) = compile(b"   \n\t");
    assert_eq!(result.unwrap_err(), InterpretError::CompileError);
}

#[test]
fn decimal_literal_compiles_to_one_pending_load() {
    let source = "3.25";
    let (result, _) = compile(source.as_bytes());
    let out = result.unwrap();
    assert_eq!(out.chunk.code, vec![1, 0, 0]);
    assert_eq!(out.chunk.constants, vec![Value::Double(0)]);
    assert_eq!(spans(source, &out.pending), vec!["3.25"]);
}

#[test]
fn grouped_literal_compiles_like_the_literal() {
    let source = "(7)";
    let (result, diagnostic) = compile(source.as_bytes());
    assert!(diagnostic.is_none());
    let out = result.unwrap();
    assert_eq!(out.chunk.code, vec![1, 0, 0]);
    assert_eq!(spans(source, &out.pending), vec!["7"]);
    let (result, _) = compile(b"(nil)");
    assert_eq!(result.unwrap().chunk.code, vec![4, 0]);
}
