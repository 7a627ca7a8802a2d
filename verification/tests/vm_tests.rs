//! The machine observed step by step: stack discipline, opcode effects,
//! the arithmetic handshake, and fault reporting.

use rlox::chunk::Chunk;
use rlox::chunk::OpCode;
use rlox::value::Value;
use rlox::vm::ArithOp;
use rlox::vm::RunStep;
use rlox::vm::RuntimeMessage;
use rlox::vm::VM;

fn chunk_of(code: &[OpCode], constants: &[Value]) -> Chunk {
    let mut chunk = Chunk::new();
    for op in code {
        chunk.write(op.as_byte(), 1);
    }
    for v in constants {
        chunk.add_constant(*v);
    }
    chunk
}

fn bits(x: f64) -> u64 {
    x.to_bits()
}

#[test]
fn true_false_nil_push_their_values() {
    let mut vm = VM::new();
    vm.install_chunk(chunk_of(&[OpCode::True, OpCode::Not, OpCode::Return], &[]));
    assert_eq!(vm.run(), RunStep::Done { value: Value::Bool(false) });

    vm.install_chunk(chunk_of(&[OpCode::Nil, OpCode::Return], &[]));
    assert_eq!(vm.run(), RunStep::Done { value: Value::Nil });

    vm.install_chunk(chunk_of(&[OpCode::False, OpCode::Return], &[]));
    assert_eq!(vm.run(), RunStep::Done { value: Value::Bool(false) });
}

#[test]
fn constant_loads_its_pool_entry() {
    let mut chunk = Chunk::new();
    chunk.write(OpCode::Constant.as_byte(), 1);
    chunk.write(0, 1);
    chunk.write(OpCode::Return.as_byte(), 1);
    chunk.add_constant(Value::Double(bits(2.5)));
    let mut vm = VM::new();
    vm.install_chunk(chunk);
    assert_eq!(vm.run(), RunStep::Done { value: Value::Double(bits(2.5)) });
}

#[test]
fn constant_long_decodes_little_endian() {
    let mut chunk = Chunk::new();
    chunk.write(OpCode::ConstantLong.as_byte(), 1);
    chunk.write(1, 1);
    chunk.write(0, 1);
    chunk.write(0, 1);
    chunk.write(OpCode::Return.as_byte(), 1);
    chunk.add_constant(Value::Nil);
    chunk.add_constant(Value::Bool(true));
    let mut vm = VM::new();
    vm.install_chunk(chunk);
    assert_eq!(vm.run(), RunStep::Done { value: Value::Bool(true) });
}

#[test]
fn arithmetic_opcodes_hand_their_operands_to_the_host() {
    let mut chunk = Chunk::new();
    chunk.write(OpCode::Constant.as_byte(), 1);
    chunk.write(0, 1);
    chunk.write(OpCode::Constant.as_byte(), 1);
    chunk.write(1, 1);
    chunk.write(OpCode::Add.as_byte(), 1);
    chunk.write(OpCode::Return.as_byte(), 1);
    chunk.add_constant(Value::Double(bits(1.5)));
    chunk.add_constant(Value::Double(bits(2.0)));
    let mut vm = VM::new();
    vm.install_chunk(chunk);
    let step = vm.run();
    assert_eq!(step, RunStep::NeedBinary { op: ArithOp::Add, lhs: bits(1.5), rhs: bits(2.0) });
    let result = f64::from_bits(bits(1.5)) + f64::from_bits(bits(2.0));
    assert_eq!(vm.resume_binary(result.to_bits()), RunStep::Done {
        value: Value::Double(bits(3.5)),
    });
}

#[test]
fn negate_flips_only_the_sign_bit() {
    let mut chunk = Chunk::new();
    chunk.write(OpCode::Constant.as_byte(), 1);
    chunk.write(0, 1);
    chunk.write(OpCode::Negate.as_byte(), 1);
    chunk.write(OpCode::Return.as_byte(), 1);
    chunk.add_constant(Value::Double(bits(2.5)));
    let mut vm = VM::new();
    vm.install_chunk(chunk);
    assert_eq!(vm.run(), RunStep::Done { value: Value::Double(bits(-2.5)) });
}

#[test]
fn negate_on_a_bool_faults_with_its_message() {
    let mut vm = VM::new();
    vm.install_chunk(chunk_of(&[OpCode::True, OpCode::Negate, OpCode::Return], &[]));
    match vm.run() {
        RunStep::Fault { fault } => {
            assert_eq!(fault.message, RuntimeMessage::OperandMustBeANumber);
            assert_eq!(fault.line, 1);
        }
        other => panic!("expected a fault, got {:?}", other),
    }
}

#[test]
fn comparison_on_mixed_types_faults() {
    let mut vm = VM::new();
    vm.install_chunk(chunk_of(&[OpCode::True, OpCode::Nil, OpCode::Greater, OpCode::Return], &[]));
    match vm.run() {
        RunStep::Fault { fault } => {
            assert_eq!(fault.message, RuntimeMessage::OperandsMustBeNumbers);
        }
        other => panic!("expected a fault, got {:?}", other),
    }
}

#[test]
fn unknown_opcode_faults() {
    let mut chunk = Chunk::new();
    chunk.write(0xff, 4);
    let mut vm = VM::new();
    vm.install_chunk(chunk);
    match vm.run() {
        RunStep::Fault { fault } => {
            assert_eq!(fault.message, RuntimeMessage::UnknownOpcode);
            assert_eq!(fault.line, 4);
        }
        other => panic!("expected a fault, got {:?}", other),
    }
}

#[test]
fn running_off_the_code_faults() {
    let mut vm = VM::new();
    vm.install_chunk(chunk_of(&[OpCode::Nil], &[]));
    match vm.run() {
        RunStep::Fault { fault } => assert_eq!(fault.message, RuntimeMessage::NoInstruction),
        other => panic!("expected a fault, got {:?}", other),
    }
}

#[test]
fn return_on_an_empty_stack_underflows() {
    let mut vm = VM::new();
    vm.install_chunk(chunk_of(&[OpCode::Return], &[]));
    match vm.run() {
        RunStep::Fault { fault } => assert_eq!(fault.message, RuntimeMessage::StackUnderflow),
        other => panic!("expected a fault, got {:?}", other),
    }
}

#[test]
fn constant_index_out_of_the_pool_faults() {
    let mut chunk = Chunk::new();
    chunk.write(OpCode::Constant.as_byte(), 1);
    chunk.write(3, 1);
    chunk.write(OpCode::Return.as_byte(), 1);
    let mut vm = VM::new();
    vm.install_chunk(chunk);
    match vm.run() {
        RunStep::Fault { fault } => assert_eq!(fault.message, RuntimeMessage::BadConstantIndex),
        other => panic!("expected a fault, got {:?}", other),
    }
}

#[test]
fn a_fault_resets_the_stack() {
    let mut vm = VM::new();
    vm.install_chunk(chunk_of(&[OpCode::True, OpCode::True, OpCode::Negate], &[]));
    match vm.run() {
        RunStep::Fault { .. } => {}
        other => panic!("expected a fault, got {:?}", other),
    }
    assert_eq!(vm.pop(), None);
}

#[test]
fn equal_compares_across_variants() {
    for (a, b, expected) in [
        (Value::Bool(true), Value::Bool(true), true),
        (Value::Bool(true), Value::Bool(false), false),
        (Value::Nil, Value::Nil, true),
        (Value::Nil, Value::Bool(false), false),
        (Value::Double(bits(1.0)), Value::Double(bits(1.0)), true),
        (Value::Double(bits(0.0)), Value::Double(bits(-0.0)), true),
        (Value::Double(f64::NAN.to_bits()), Value::Double(f64::NAN.to_bits()), false),
        (Value::Double(bits(0.0)), Value::Nil, false),
    ] {
        let mut vm = VM::new();
        assert!(vm.push(a));
        assert!(vm.push(b));
        vm.install_chunk(chunk_of(&[OpCode::Equal, OpCode::Return], &[]));
        assert_eq!(vm.run(), RunStep::Done { value: Value::Bool(expected) }, "{:?} == {:?}", a, b);
    }
}

#[test]
fn less_and_greater_agree_with_native_doubles() {
    let samples: Vec<f64> = vec![
        0.0,
        -0.0,
        1.0,
        -1.0,
        2.5,
        -2.5,
        f64::INFINITY,
        f64::NEG_INFINITY,
        f64::NAN,
        f64::MIN_POSITIVE,
        -f64::MIN_POSITIVE,
        5e-324,
        f64::MAX,
        f64::MIN,
    ];
    for &a in &samples {
        for &b in &samples {
            let mut vm = VM::new();
            assert!(vm.push(Value::Double(a.to_bits())));
            assert!(vm.push(Value::Double(b.to_bits())));
            vm.install_chunk(chunk_of(&[OpCode::Less, OpCode::Return], &[]));
            assert_eq!(
                vm.run(),
                RunStep::Done { value: Value::Bool(a < b) },
                "{} < {}",
                a,
                b
            );

            let mut vm = VM::new();
            assert!(vm.push(Value::Double(a.to_bits())));
            assert!(vm.push(Value::Double(b.to_bits())));
            vm.install_chunk(chunk_of(&[OpCode::Greater, OpCode::Return], &[]));
            assert_eq!(
                vm.run(),
                RunStep::Done { value: Value::Bool(a > b) },
                "{} > {}",
                a,
                b
            );
        }
    }
}

#[test]
fn equality_agrees_with_native_doubles() {
    let samples: Vec<f64> = vec![
        0.0,
        -0.0,
        1.0,
        -1.0,
        f64::INFINITY,
        f64::NEG_INFINITY,
        f64::NAN,
        5e-324,
    ];
    for &a in &samples {
        for &b in &samples {
            let mut vm = VM::new();
            assert!(vm.push(Value::Double(a.to_bits())));
            assert!(vm.push(Value::Double(b.to_bits())));
            vm.install_chunk(chunk_of(&[OpCode::Equal, OpCode::Return], &[]));
            assert_eq!(
                vm.run(),
                RunStep::Done { value: Value::Bool(a == b) },
                "{} == {}",
                a,
                b
            );
        }
    }
}

#[test]
fn push_pop_and_peek_follow_the_stack() {
    let mut vm = VM::new();
    assert_eq!(vm.pop(), None);
    assert!(vm.push(Value::Bool(true)));
    assert!(vm.push(Value::Nil));
    assert_eq!(vm.peek(0), Value::Nil);
    assert_eq!(vm.peek(1), Value::Bool(true));
    assert_eq!(vm.pop(), Some(Value::Nil));
    assert_eq!(vm.pop(), Some(Value::Bool(true)));
    assert_eq!(vm.pop(), None);
}

#[test]
fn the_stack_overflows_at_its_capacity() {
    let mut vm = VM::new();
    for _ in 0..256 {
        assert!(vm.push(Value::Nil));
    }
    assert!(!vm.push(Value::Nil));
}

#[test]
fn overflowing_push_during_execution_faults() {
    let mut vm = VM::new();
    for _ in 0..256 {
        assert!(vm.push(Value::Nil));
    }
    vm.install_chunk(chunk_of(&[OpCode::True, OpCode::Return], &[]));
    match vm.run() {
        RunStep::Fault { fault } => assert_eq!(fault.message, RuntimeMessage::StackOverflow),
        other => panic!("expected a fault, got {:?}", other),
    }
}

#[test]
fn readers_walk_the_chunk() {
    let mut chunk = Chunk::new();
    chunk.write(OpCode::Constant.as_byte(), 1);
    chunk.write(0, 1);
    chunk.add_constant(Value::Bool(true));
    let mut vm = VM::new();
    vm.install_chunk(chunk);
    assert_eq!(vm.read_byte(), OpCode::Constant.as_byte());
    assert_eq!(vm.read_constant(), Value::Bool(true));
}

#[test]
fn reset_stack_and_free_clean_the_machine() {
    let mut vm = VM::new();
    assert!(vm.push(Value::Nil));
    vm.reset_stack();
    assert_eq!(vm.pop(), None);
    vm.install_chunk(chunk_of(&[OpCode::Nil, OpCode::Return], &[]));
    vm.free();
    // The chunk is gone; running it again reports no instruction.
    match vm.run() {
        RunStep::Fault { fault } => assert_eq!(fault.message, RuntimeMessage::NoInstruction),
        other => panic!("expected a fault, got {:?}", other),
    }
}
