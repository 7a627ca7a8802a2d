//! End-to-end runs: compile a source expression, let the host parse the
//! numeric literals and perform the arithmetic, and check what the final
//! value prints as.

use rlox::chunk::Chunk;
use rlox::compiler::compile;
use rlox::value::Value;
use rlox::vm::ArithOp;
use rlox::vm::InterpretError;
use rlox::vm::RunStep;
use rlox::vm::VM;

fn format_value(v: Value) -> String {
    match v {
        Value::Double(bits) => format!("{}", f64::from_bits(bits)),
        Value::Bool(b) => format!("{}", b),
        Value::Nil => "nil".to_string(),
        Value::Unknown => "unknown".to_string(),
    }
}

fn patch_numbers(chunk: &mut Chunk, pending: &[rlox::compiler::PendingNumber], source: &[u8]) {
    for p in pending {
        let lexeme = std::str::from_utf8(&source[p.start..p.start + p.length]).unwrap();
        let value: f64 = lexeme.parse().unwrap();
        assert!(p.index < chunk.constants.len());
        assert!(matches!(chunk.constants[p.index], Value::Double(_)));
        chunk.patch_constant(p.index, value.to_bits());
    }
}

fn interpret(source: &str) -> Result<String, InterpretError> {
    let bytes = source.as_bytes();
    let (result, diagnostic) = compile(bytes);
    let output = match result {
        Err(e) => {
            assert!(diagnostic.is_some());
            return Err(e);
        }
        Ok(out) => out,
    };
    assert!(diagnostic.is_none());
    let mut chunk = output.chunk;
    patch_numbers(&mut chunk, &output.pending, bytes);

    let mut vm = VM::new();
    vm.install_chunk(chunk);
    let mut step = vm.run();
    loop {
        match step {
            RunStep::Done { value } => return Ok(format_value(value)),
            RunStep::NeedBinary { op, lhs, rhs } => {
                let a = f64::from_bits(lhs);
                let b = f64::from_bits(rhs);
                let r = match op {
                    ArithOp::Add => a + b,
                    ArithOp::Subtract => a - b,
                    ArithOp::Multiply => a * b,
                    ArithOp::Divide => a / b,
                };
                step = vm.resume_binary(r.to_bits());
            }
            RunStep::Fault { .. } => return Err(InterpretError::RuntimeError),
        }
    }
}

#[test]
fn single_number_prints_itself() {
    assert_eq!(interpret("1").unwrap(), "1");
}

#[test]
fn term_and_factor_precedence() {
    assert_eq!(interpret("1 + 2 * 3").unwrap(), "7");
}

#[test]
fn grouping_overrides_precedence() {
    assert_eq!(interpret("(1 + 2) * 3").unwrap(), "9");
}

#[test]
fn unary_minus_binds_tighter_than_plus() {
    assert_eq!(interpret("-2 + 3").unwrap(), "1");
}

#[test]
fn bang_nil_is_true() {
    assert_eq!(interpret("!nil").unwrap(), "true");
}

#[test]
fn bang_false_is_true() {
    assert_eq!(interpret("!false").unwrap(), "true");
}

#[test]
fn zero_is_truthy() {
    assert_eq!(interpret("!0").unwrap(), "false");
}

#[test]
fn equal_numbers() {
    assert_eq!(interpret("1 == 1").unwrap(), "true");
}

#[test]
fn bang_equal_numbers() {
    assert_eq!(interpret("1 != 2").unwrap(), "true");
}

#[test]
fn less_than() {
    assert_eq!(interpret("1 < 2").unwrap(), "true");
}

#[test]
fn nil_is_not_false() {
    assert_eq!(interpret("nil == false").unwrap(), "false");
}

#[test]
fn adding_bool_is_a_runtime_error() {
    assert_eq!(interpret("true + 1"), Err(InterpretError::RuntimeError));
}

#[test]
fn dangling_operator_is_a_compile_error() {
    assert_eq!(interpret("1 +"), Err(InterpretError::CompileError));
}

#[test]
fn unexpected_character_is_a_compile_error() {
    assert_eq!(interpret("@"), Err(InterpretError::CompileError));
}

#[test]
fn strict_less_differs_from_less_equal() {
    assert_eq!(interpret("2 < 2").unwrap(), "false");
    assert_eq!(interpret("2 <= 2").unwrap(), "true");
}

#[test]
fn strict_greater_differs_from_greater_equal() {
    assert_eq!(interpret("2 > 2").unwrap(), "false");
    assert_eq!(interpret("2 >= 2").unwrap(), "true");
}

#[test]
fn comparisons_on_booleans_fault() {
    assert_eq!(interpret("true < false"), Err(InterpretError::RuntimeError));
    assert_eq!(interpret("nil > 1"), Err(InterpretError::RuntimeError));
}

#[test]
fn negating_a_bool_is_a_runtime_error() {
    assert_eq!(interpret("-true"), Err(InterpretError::RuntimeError));
}

#[test]
fn numeric_literals_round_trip() {
    for lexeme in ["1", "0", "3.25", "123.456", "0.5", "1000000", "2.000001"] {
        let printed = interpret(lexeme).unwrap();
        let back: f64 = printed.parse().unwrap();
        let original: f64 = lexeme.parse().unwrap();
        assert_eq!(back.to_bits(), original.to_bits());
    }
}

#[test]
fn sum_groups_the_same_either_way() {
    for (a, b, c) in [("1", "2", "3"), ("0.5", "4", "2.25"), ("7", "0", "9.5")] {
        let plain = interpret(&format!("{} + {} * {}", a, b, c)).unwrap();
        let grouped = interpret(&format!("{} + ({} * {})", a, b, c)).unwrap();
        let swapped = interpret(&format!("({} * {}) + {}", b, c, a)).unwrap();
        assert_eq!(plain, grouped);
        assert_eq!(plain, swapped);
    }
}

#[test]
fn double_bang_says_truthiness() {
    assert_eq!(interpret("!!0").unwrap(), "true");
    assert_eq!(interpret("!!nil").unwrap(), "false");
    assert_eq!(interpret("!!false").unwrap(), "false");
    assert_eq!(interpret("!!true").unwrap(), "true");
}

#[test]
fn double_negation_prints_the_same_number() {
    for lexeme in ["2.5", "0.125", "42"] {
        assert_eq!(interpret(&format!("- -{}", lexeme)).unwrap(), interpret(lexeme).unwrap());
    }
}

#[test]
fn equality_is_symmetric_across_sources() {
    for (a, b) in [("1", "1"), ("1", "2"), ("true", "true"), ("nil", "false"), ("0", "0.0")] {
        assert_eq!(
            interpret(&format!("{} == {}", a, b)).unwrap(),
            interpret(&format!("{} == {}", b, a)).unwrap()
        );
    }
}

#[test]
fn bang_equal_negates_equal() {
    for (a, b) in [("1", "1"), ("1", "2"), ("true", "false"), ("nil", "nil")] {
        let eq = interpret(&format!("{} == {}", a, b)).unwrap();
        let ne = interpret(&format!("{} != {}", a, b)).unwrap();
        assert_eq!(ne == "true", eq == "false");
    }
}

#[test]
fn division_and_subtraction() {
    assert_eq!(interpret("10 / 4").unwrap(), "2.5");
    assert_eq!(interpret("1 - 2").unwrap(), "-1");
}

#[test]
fn comments_and_newlines_are_skipped() {
    assert_eq!(interpret("// nothing to see\n 1 + 1").unwrap(), "2");
}

#[test]
fn unterminated_string_is_a_compile_error() {
    assert_eq!(interpret("\"abc"), Err(InterpretError::CompileError));
}

#[test]
fn machine_is_reusable_after_a_fault() {
    assert_eq!(interpret("true + 1"), Err(InterpretError::RuntimeError));
    assert_eq!(interpret("1 + 1").unwrap(), "2");
}
