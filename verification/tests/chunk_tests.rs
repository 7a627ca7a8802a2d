//! The chunk format: instruction bytes, the two constant encodings, the
//! run-length line map and its monotonic lookup.

use rlox::chunk::Chunk;
use rlox::chunk::Line;
use rlox::chunk::OpCode;
use rlox::value::Value;

#[test]
fn opcode_ordinals_are_stable() {
    let table: Vec<(OpCode, u8)> = vec![
        (OpCode::Return, 0),
        (OpCode::Constant, 1),
        (OpCode::True, 2),
        (OpCode::False, 3),
        (OpCode::Nil, 4),
        (OpCode::ConstantLong, 5),
        (OpCode::Add, 6),
        (OpCode::Subtract, 7),
        (OpCode::Multiply, 8),
        (OpCode::Divide, 9),
        (OpCode::Negate, 10),
        (OpCode::Not, 11),
        (OpCode::Equal, 12),
        (OpCode::Greater, 13),
        (OpCode::Less, 14),
    ];
    for (op, byte) in table {
        assert_eq!(op.as_byte(), byte);
        assert_eq!(OpCode::from(byte), op);
    }
    assert_eq!(OpCode::from(15), OpCode::Unknown);
    assert_eq!(OpCode::from(0xff), OpCode::Unknown);
}

#[test]
fn write_appends_code_and_compresses_lines() {
    let mut chunk = Chunk::new();
    chunk.write(OpCode::Nil.as_byte(), 1);
    chunk.write(OpCode::Nil.as_byte(), 1);
    chunk.write(OpCode::Return.as_byte(), 2);
    assert_eq!(chunk.code, vec![4, 4, 0]);
    assert_eq!(chunk.lines.len(), 2);
    assert_eq!(chunk.lines[0], Line { code_offset: 0, line_number: 1 });
    assert_eq!(chunk.lines[1], Line { code_offset: 2, line_number: 2 });
}

#[test]
fn get_line_follows_the_run_length_map() {
    let mut chunk = Chunk::new();
    chunk.write(1, 1);
    chunk.write(0, 1);
    chunk.write(2, 3);
    chunk.write(3, 7);
    assert_eq!(chunk.get_line(0), 1);
    assert_eq!(chunk.get_line(1), 1);
    assert_eq!(chunk.get_line(2), 3);
    assert_eq!(chunk.get_line(3), 7);
    assert_eq!(chunk.get_line(100), 7);
}

#[test]
fn get_line_of_an_empty_chunk_is_zero() {
    let chunk = Chunk::new();
    assert_eq!(chunk.get_line(0), 0);
}

#[test]
fn get_line_is_monotonic() {
    let mut chunk = Chunk::new();
    for (byte, line) in [(2u8, 1usize), (3, 1), (4, 2), (2, 5), (0, 9)] {
        chunk.write(byte, line);
    }
    let mut previous = 0;
    for offset in 0..chunk.code.len() {
        let line = chunk.get_line(offset);
        assert!(line >= previous);
        previous = line;
    }
}

#[test]
fn add_constant_answers_the_new_index() {
    let mut chunk = Chunk::new();
    assert_eq!(chunk.add_constant(Value::Nil), 0);
    assert_eq!(chunk.add_constant(Value::Bool(true)), 1);
    assert_eq!(chunk.constants.len(), 2);
}

#[test]
fn write_constant_uses_the_short_encoding_up_to_index_255() {
    let mut chunk = Chunk::new();
    for i in 0..=255u32 {
        chunk.write_constant(Value::Double(i as u64), 1);
    }
    // Every instruction so far is `Constant` with a one-byte operand.
    assert_eq!(chunk.code.len(), 2 * 256);
    assert_eq!(chunk.code[2 * 255], OpCode::Constant.as_byte());
    assert_eq!(chunk.code[2 * 255 + 1], 255);
}

#[test]
fn write_constant_switches_to_the_long_encoding_past_a_byte() {
    let mut chunk = Chunk::new();
    for i in 0..300u32 {
        chunk.write_constant(Value::Double(i as u64), 1);
    }
    // Constant 256 takes the little-endian 24-bit encoding.
    let offset = 2 * 256;
    assert_eq!(chunk.code[offset], OpCode::ConstantLong.as_byte());
    assert_eq!(chunk.code[offset + 1], 0);
    assert_eq!(chunk.code[offset + 2], 1);
    assert_eq!(chunk.code[offset + 3], 0);
    assert_eq!(chunk.constants.len(), 300);
}

#[test]
fn constants_round_trip_bit_for_bit() {
    let mut chunk = Chunk::new();
    let samples = vec![
        Value::Double(0),
        Value::Double(0x3ff0_0000_0000_0000),
        Value::Double(0x8000_0000_0000_0000),
        Value::Double(0x7ff8_0000_0000_0001),
        Value::Bool(true),
        Value::Bool(false),
        Value::Nil,
    ];
    for v in &samples {
        chunk.write_constant(*v, 1);
    }
    for (i, v) in samples.iter().enumerate() {
        // The short encoding was chosen throughout; decode it by hand.
        assert_eq!(chunk.code[2 * i], OpCode::Constant.as_byte());
        let index = chunk.code[2 * i + 1] as usize;
        assert_eq!(chunk.constants[index], *v);
    }
}

#[test]
fn patch_constant_replaces_only_its_slot() {
    let mut chunk = Chunk::new();
    chunk.write_constant(Value::Double(0), 1);
    chunk.write_constant(Value::Double(0), 1);
    let code_before = chunk.code.clone();
    chunk.patch_constant(1, 0x4000_0000_0000_0000);
    assert_eq!(chunk.constants[0], Value::Double(0));
    assert_eq!(chunk.constants[1], Value::Double(0x4000_0000_0000_0000));
    assert_eq!(chunk.code, code_before);
}

#[test]
fn free_empties_the_chunk() {
    let mut chunk = Chunk::new();
    chunk.write_constant(Value::Nil, 1);
    chunk.free();
    assert!(chunk.code.is_empty());
    assert!(chunk.constants.is_empty());
    assert!(chunk.lines.is_empty());
}

#[test]
fn line_new_records_its_fields() {
    let line = Line::new(4, 9);
    assert_eq!(line, Line { code_offset: 4, line_number: 9 });
}
