//! Bytecode chunks: an instruction byte vector, a constant pool, and a
//! run-length-encoded line map.
//!
//! The line map is an ordered sequence of `(first_code_offset, line_number)`
//! entries; the source line of a code offset is the line of the last entry
//! whose first offset does not exceed it. A well-formed chunk keeps the
//! entries strictly increasing in both offset and line, starting at offset
//! zero, so the lookup is total and monotonic.
//!
//! `write_constant` appends a value to the pool and emits either a
//! `Constant` instruction with a one-byte operand, when the new index fits
//! in a byte, or a `ConstantLong` instruction with a three-byte
//! little-endian operand. Indices are capped at 24 bits; the compiler
//! diagnoses an overflowing pool before writing.

use vstd::prelude::*;

use crate::value::Value;

verus! {

/// One instruction. The byte encoding of each opcode is fixed by
/// `spec_opcode_byte` and is part of the chunk format.
#[derive(Debug, Clone, Copy, PartialEq, Eq, Structural)]
pub enum OpCode {
    Return,
    Constant,
    True,
    False,
    Nil,
    ConstantLong,
    Add,
    Subtract,
    Multiply,
    Divide,
    Negate,
    Not,
    Equal,
    Greater,
    Less,
    Unknown,
}

/// The stable byte ordinal of each opcode. `Unknown` stands for every byte
/// outside the instruction set and encodes as `0xff`.
pub open spec fn spec_opcode_byte(op: OpCode) -> u8 {
    match op {
        OpCode::Return => 0,
        OpCode::Constant => 1,
        OpCode::True => 2,
        OpCode::False => 3,
        OpCode::Nil => 4,
        OpCode::ConstantLong => 5,
        OpCode::Add => 6,
        OpCode::Subtract => 7,
        OpCode::Multiply => 8,
        OpCode::Divide => 9,
        OpCode::Negate => 10,
        OpCode::Not => 11,
        OpCode::Equal => 12,
        OpCode::Greater => 13,
        OpCode::Less => 14,
        OpCode::Unknown => 0xff,
    }
}

/// The opcode denoted by a byte: the inverse of `spec_opcode_byte` on the
/// fifteen instruction bytes, `Unknown` everywhere else.
pub open spec fn spec_opcode_from_byte(value: u8) -> OpCode {
    match value {
        0 => OpCode::Return,
        1 => OpCode::Constant,
        2 => OpCode::True,
        3 => OpCode::False,
        4 => OpCode::Nil,
        5 => OpCode::ConstantLong,
        6 => OpCode::Add,
        7 => OpCode::Subtract,
        8 => OpCode::Multiply,
        9 => OpCode::Divide,
        10 => OpCode::Negate,
        11 => OpCode::Not,
        12 => OpCode::Equal,
        13 => OpCode::Greater,
        14 => OpCode::Less,
        _ => OpCode::Unknown,
    }
}

impl OpCode {
    /// The byte this opcode encodes as.
    pub fn as_byte(&self) -> (r: u8)
        ensures
            r == spec_opcode_byte(*self),
    {
        match self {
            OpCode::Return => 0,
            OpCode::Constant => 1,
            OpCode::True => 2,
            OpCode::False => 3,
            OpCode::Nil => 4,
            OpCode::ConstantLong => 5,
            OpCode::Add => 6,
            OpCode::Subtract => 7,
            OpCode::Multiply => 8,
            OpCode::Divide => 9,
            OpCode::Negate => 10,
            OpCode::Not => 11,
            OpCode::Equal => 12,
            OpCode::Greater => 13,
            OpCode::Less => 14,
            OpCode::Unknown => 0xff,
        }
    }
}

impl From<u8> for OpCode {
    fn from(value: u8) -> (r: OpCode) {
        match value {
            0 => OpCode::Return,
            1 => OpCode::Constant,
            2 => OpCode::True,
            3 => OpCode::False,
            4 => OpCode::Nil,
            5 => OpCode::ConstantLong,
            6 => OpCode::Add,
            7 => OpCode::Subtract,
            8 => OpCode::Multiply,
            9 => OpCode::Divide,
            10 => OpCode::Negate,
            11 => OpCode::Not,
            12 => OpCode::Equal,
            13 => OpCode::Greater,
            14 => OpCode::Less,
            _ => OpCode::Unknown,
        }
    }
}

impl vstd::std_specs::convert::FromSpecImpl<u8> for OpCode {
    open spec fn obeys_from_spec() -> bool {
        true
    }

    open spec fn from_spec(value: u8) -> OpCode {
        spec_opcode_from_byte(value)
    }
}

/// One line-map entry: the first code offset written while the compiler was
/// on `line_number`.
#[derive(Debug, Clone, Copy, PartialEq, Eq, Structural)]
pub struct Line {
    pub code_offset: usize,
    pub line_number: usize,
}

impl Line {
    pub fn new(code_offset: usize, line_number: usize) -> (r: Line)
        ensures
            r == (Line { code_offset, line_number }),
    {
        Line { code_offset, line_number }
    }
}

/// Line-map entries are strictly increasing in both code offset and line
/// number.
pub open spec fn spec_lines_sorted(lines: Seq<Line>) -> bool {
    forall|i: int, j: int|
        0 <= i < j < lines.len() ==> (#[trigger] lines[i]).code_offset < (#[trigger] lines[j]).code_offset
            && lines[i].line_number < lines[j].line_number
}

/// The run-length lookup: the line of the last entry whose first offset is
/// at most `offset`, `0` when the map is empty. On a sorted map whose first
/// entry starts at offset zero this scan from the front finds exactly that
/// entry.
pub open spec fn spec_get_line(lines: Seq<Line>, offset: int) -> usize
    decreases lines.len(),
{
    if lines.len() == 0 {
        0
    } else if lines.len() == 1 {
        lines[0].line_number
    } else if lines[1].code_offset > offset {
        lines[0].line_number
    } else {
        spec_get_line(lines.drop_first(), offset)
    }
}

/// The little-endian index carried by the three operand bytes of a
/// `ConstantLong` instruction.
pub open spec fn spec_long_index(b0: u8, b1: u8, b2: u8) -> usize {
    (b0 as usize) | ((b1 as usize) << 8) | ((b2 as usize) << 16)
}

/// The bytes `write_constant` emits for a pool index: `Constant` with the
/// index byte when the index fits in a byte, else `ConstantLong` with the
/// index in three little-endian bytes.
pub open spec fn spec_encode_constant(index: usize) -> Seq<u8> {
    if index <= 255 {
        seq![spec_opcode_byte(OpCode::Constant), index as u8]
    } else {
        seq![
            spec_opcode_byte(OpCode::ConstantLong),
            (index & 0xff) as u8,
            ((index >> 8) & 0xff) as u8,
            ((index >> 16) & 0xff) as u8,
        ]
    }
}


/// How many bytes the instruction starting with this opcode occupies.
pub open spec fn spec_instr_len(op: OpCode) -> int {
    match op {
        OpCode::Constant => 2,
        OpCode::ConstantLong => 4,
        _ => 1,
    }
}

/// How many operands the instruction pops.
pub open spec fn spec_instr_pops(op: OpCode) -> int {
    match op {
        OpCode::Return => 1,
        OpCode::Constant => 0,
        OpCode::ConstantLong => 0,
        OpCode::True => 0,
        OpCode::False => 0,
        OpCode::Nil => 0,
        OpCode::Not => 1,
        OpCode::Negate => 1,
        OpCode::Unknown => 0,
        _ => 2,
    }
}

/// How many results the instruction pushes.
pub open spec fn spec_instr_pushes(op: OpCode) -> int {
    match op {
        OpCode::Return => 0,
        OpCode::Unknown => 0,
        _ => 1,
    }
}

/// Walks a code segment instruction by instruction, threading the stack
/// depth. The walk answers the final depth when every instruction is a
/// known non-`Return` opcode, complete with its operand bytes, pointing
/// into the first `n` pool slots, and never popping below depth zero; it
/// answers nothing otherwise. This is what the compiler emits between the
/// start of a chunk and its final `Return`.
pub open spec fn spec_segment_depth(code: Seq<u8>, n: int, depth: int) -> Option<int>
    decreases code.len(),
{
    if code.len() == 0 {
        Some(depth)
    } else {
        let op = spec_opcode_from_byte(code[0]);
        if op == OpCode::Return || op == OpCode::Unknown {
            None
        } else if code.len() < spec_instr_len(op) {
            None
        } else if op == OpCode::Constant && !(code[1] < n) {
            None
        } else if op == OpCode::ConstantLong && !(spec_long_index(code[1], code[2], code[3]) < n) {
            None
        } else if depth < spec_instr_pops(op) {
            None
        } else {
            spec_segment_depth(
                code.skip(spec_instr_len(op)),
                n,
                depth - spec_instr_pops(op) + spec_instr_pushes(op),
            )
        }
    }
}

/// A sound segment stays sound when the pool it points into grows.
pub proof fn lemma_segment_pool_grows(code: Seq<u8>, n: int, m: int, depth: int)
    requires
        spec_segment_depth(code, n, depth) is Some,
        n <= m,
    ensures
        spec_segment_depth(code, m, depth) == spec_segment_depth(code, n, depth),
    decreases code.len(),
{
    if code.len() != 0 {
        let op = spec_opcode_from_byte(code[0]);
        lemma_segment_pool_grows(
            code.skip(spec_instr_len(op)),
            n,
            m,
            depth - spec_instr_pops(op) + spec_instr_pushes(op),
        );
    }
}

/// A sound segment stays sound with the same net effect when started
/// deeper.
pub proof fn lemma_segment_depth_shift(code: Seq<u8>, n: int, depth: int, extra: int)
    requires
        spec_segment_depth(code, n, depth) is Some,
        extra >= 0,
    ensures
        spec_segment_depth(code, n, depth + extra) == Some(
            spec_segment_depth(code, n, depth).unwrap() + extra,
        ),
    decreases code.len(),
{
    if code.len() != 0 {
        let op = spec_opcode_from_byte(code[0]);
        lemma_segment_depth_shift(
            code.skip(spec_instr_len(op)),
            n,
            depth - spec_instr_pops(op) + spec_instr_pushes(op),
            extra,
        );
    }
}

/// Walking two segments in a row threads the depth through the first into
/// the second.
pub proof fn lemma_segment_concat(a: Seq<u8>, b: Seq<u8>, n: int, depth: int)
    requires
        spec_segment_depth(a, n, depth) is Some,
    ensures
        spec_segment_depth(a + b, n, depth) == spec_segment_depth(
            b,
            n,
            spec_segment_depth(a, n, depth).unwrap(),
        ),
    decreases a.len(),
{
    if a.len() == 0 {
        assert(a + b =~= b);
    } else {
        let op = spec_opcode_from_byte(a[0]);
        let l = spec_instr_len(op);
        assert((a + b).skip(l) =~= a.skip(l) + b);
        lemma_segment_concat(
            a.skip(l),
            b,
            n,
            depth - spec_instr_pops(op) + spec_instr_pushes(op),
        );
    }
}


/// The bytes of a constant load form a one-instruction segment pushing one
/// value, whichever encoding the index took.
pub proof fn lemma_encode_constant_segment(index: usize, n: int, depth: int)
    requires
        index < n,
        index < 0x1000000,
        depth >= 0,
    ensures
        spec_segment_depth(spec_encode_constant(index), n, depth) == Some(depth + 1),
{
    reveal_with_fuel(spec_segment_depth, 2);
    let code = spec_encode_constant(index);
    if index <= 255 {
        assert(code.skip(2) =~= Seq::<u8>::empty());
    } else {
        assert(code.skip(4) =~= Seq::<u8>::empty());
        assert(((index & 0xff) as u8 as usize) | ((((index >> 8) & 0xff) as u8 as usize) << 8) | ((((
        index >> 16) & 0xff) as u8 as usize) << 16) == index) by (bit_vector)
            requires
                index < 0x1000000,
        ;
    }
}

/// A compilation unit: instruction bytes, the constant pool they index, and
/// the line map.
#[derive(Debug)]
pub struct Chunk {
    pub code: Vec<u8>,
    pub constants: Vec<Value>,
    pub lines: Vec<Line>,
}

impl Chunk {
    /// The line-map invariant: entries strictly increasing in offset and
    /// line, the first entry at offset zero, every entry within the code.
    pub open spec fn wf(&self) -> bool {
        &&& spec_lines_sorted(self.lines@)
        &&& (self.lines@.len() == 0 ==> self.code@.len() == 0)
        &&& (self.lines@.len() > 0 ==> self.lines@[0].code_offset == 0)
        &&& (forall|i: int|
            0 <= i < self.lines@.len() ==> (#[trigger] self.lines@[i]).code_offset < self.code@.len())
    }

    /// A fresh, empty chunk.
    pub fn new() -> (r: Chunk)
        ensures
            r.code@.len() == 0,
            r.constants@.len() == 0,
            r.lines@.len() == 0,
            r.wf(),
    {
        Chunk { code: Vec::new(), constants: Vec::new(), lines: Vec::new() }
    }

    /// Appends one instruction byte attributed to a source line, extending
    /// the line map exactly when the line differs from the last entry.
    /// Lines are written in non-decreasing order, which keeps the map
    /// sorted.
    pub fn write(&mut self, byte: u8, line: usize)
        requires
            old(self).wf(),
            old(self).lines@.len() > 0 ==> line >= old(self).lines@.last().line_number,
        ensures
            final(self).wf(),
            final(self).code@ == old(self).code@.push(byte),
            final(self).constants@ == old(self).constants@,
            final(self).lines@ == if old(self).lines@.len() == 0 || line != old(self).lines@.last().line_number {
                old(self).lines@.push(Line { code_offset: old(self).code@.len() as usize, line_number: line })
            } else {
                old(self).lines@
            },
    {
        self.code.push(byte);

        let new_entry = self.lines.len() == 0 || {
            let last = self.lines[self.lines.len() - 1];
            line != last.line_number
        };
        if new_entry {
            let entry = Line { code_offset: self.code.len() - 1, line_number: line };
            self.lines.push(entry);
            proof {
                let olds = old(self).lines@;
                let news = self.lines@;
                assert forall|i: int, j: int| 0 <= i < j < news.len() implies (#[trigger] news[i]).code_offset
                    < (#[trigger] news[j]).code_offset && news[i].line_number < news[j].line_number by {
                    if j < olds.len() {
                        assert(olds[i].code_offset < olds[j].code_offset);
                        assert(olds[i].line_number < olds[j].line_number);
                    } else {
                        assert(news[j] == entry);
                        assert(news[i] == olds[i]);
                        let l = olds.len() - 1;
                        if i < l {
                            assert(olds[i].code_offset < olds[l].code_offset);
                            assert(olds[i].line_number < olds[l].line_number);
                        }
                        assert(olds[l].code_offset < old(self).code@.len());
                    }
                };
            }
        }
    }

    /// Releases the chunk's storage; the chunk is empty afterwards.
    pub fn free(&mut self)
        ensures
            final(self).code@.len() == 0,
            final(self).constants@.len() == 0,
            final(self).lines@.len() == 0,
            final(self).wf(),
    {
        self.code.clear();
        self.constants.clear();
        self.lines.clear();
    }

    /// Appends a value to the constant pool and returns its index.
    pub fn add_constant(&mut self, value: Value) -> (index: usize)
        ensures
            index == old(self).constants@.len(),
            final(self).constants@ == old(self).constants@.push(value),
            final(self).code@ == old(self).code@,
            final(self).lines@ == old(self).lines@,
    {
        self.constants.push(value);
        self.constants.len() - 1
    }

    /// Appends a value to the pool and emits the instruction that loads it:
    /// `Constant` when the index fits in one byte, else `ConstantLong` with
    /// a 24-bit little-endian operand. The caller keeps the pool under the
    /// 24-bit cap.
    pub fn write_constant(&mut self, value: Value, line: usize)
        requires
            old(self).wf(),
            old(self).lines@.len() > 0 ==> line >= old(self).lines@.last().line_number,
            old(self).constants@.len() < 0x1000000,
        ensures
            final(self).wf(),
            final(self).constants@ == old(self).constants@.push(value),
            final(self).code@ == old(self).code@ + spec_encode_constant(old(self).constants@.len() as usize),
            final(self).lines@.len() > 0 ==> final(self).lines@.last().line_number <= line,
    {
        let index = self.add_constant(value);

        if index <= 255 {
            self.write(OpCode::Constant.as_byte(), line);
            self.write(index as u8, line);
            assert(self.code@ =~= old(self).code@ + spec_encode_constant(index));
        } else {
            self.write(OpCode::ConstantLong.as_byte(), line);
            self.write((index & 0xff) as u8, line);
            self.write(((index >> 8) & 0xff) as u8, line);
            self.write(((index >> 16) & 0xff) as u8, line);
            assert(self.code@ =~= old(self).code@ + spec_encode_constant(index));
        }
    }

    /// Replaces the placeholder bit pattern of a `Double` pool slot with
    /// the value the host parsed for it; nothing else in the chunk moves.
    pub fn patch_constant(&mut self, index: usize, bits: u64)
        requires
            index < old(self).constants@.len(),
            old(self).constants@[index as int] is Double,
        ensures
            final(self).constants@ == old(self).constants@.update(
                index as int,
                Value::Double(bits),
            ),
            final(self).code@ == old(self).code@,
            final(self).lines@ == old(self).lines@,
            old(self).wf() ==> final(self).wf(),
    {
        self.constants[index] = Value::Double(bits);
    }

    /// Looks up the source line for a code offset by the run-length rule;
    /// `0` for an empty chunk.
    pub fn get_line(&self, code_offset: usize) -> (r: usize)
        ensures
            r == spec_get_line(self.lines@, code_offset as int),
    {
        if self.lines.len() == 0 {
            return 0;
        }

        let ghost all = self.lines@;
        proof {
            assert(all.skip(0) =~= all);
        }
        let mut i: usize = 0;
        while i < self.lines.len() - 1
            invariant
                self.lines@ == all,
                self.lines@.len() > 0,
                i < self.lines@.len(),
                spec_get_line(all.skip(i as int), code_offset as int) == spec_get_line(
                    all,
                    code_offset as int,
                ),
            decreases self.lines@.len() - i,
        {
            assert(all.skip(i as int)[1] == all[i + 1]);
            if self.lines[i + 1].code_offset > code_offset {
                assert(all.skip(i as int)[0] == all[i as int]);
                return self.lines[i].line_number;
            }
            assert(all.skip(i as int).drop_first() =~= all.skip(i + 1));
            i = i + 1;
        }
        assert(all.skip(i as int)[0] == all[i as int]);
        self.lines[i].line_number
    }
}

/// On a sorted, non-empty line map the lookup never answers below the first
/// entry's line.
proof fn lemma_get_line_lower_bound(lines: Seq<Line>, offset: int)
    requires
        spec_lines_sorted(lines),
        lines.len() > 0,
    ensures
        spec_get_line(lines, offset) >= lines[0].line_number,
    decreases lines.len(),
{
    if lines.len() > 1 && lines[1].code_offset <= offset {
        assert(spec_lines_sorted(lines.drop_first())) by {
            assert(forall|i: int, j: int|
                0 <= i < j < lines.drop_first().len() ==> lines.drop_first()[i] == lines[i + 1]
                    && lines.drop_first()[j] == lines[j + 1]);
        }
        lemma_get_line_lower_bound(lines.drop_first(), offset);
        assert(lines.drop_first()[0] == lines[1]);
    }
}

/// Law: the line map is monotonic. For every well-formed chunk the source
/// line reported for a code offset never decreases as the offset grows.
pub proof fn lemma_get_line_monotonic(lines: Seq<Line>, o1: int, o2: int)
    requires
        spec_lines_sorted(lines),
        o1 <= o2,
    ensures
        spec_get_line(lines, o1) <= spec_get_line(lines, o2),
    decreases lines.len(),
{
    if lines.len() > 1 {
        assert(spec_lines_sorted(lines.drop_first())) by {
            assert(forall|i: int, j: int|
                0 <= i < j < lines.drop_first().len() ==> lines.drop_first()[i] == lines[i + 1]
                    && lines.drop_first()[j] == lines[j + 1]);
        }
        if lines[1].code_offset <= o1 {
            lemma_get_line_monotonic(lines.drop_first(), o1, o2);
        } else if lines[1].code_offset <= o2 {
            lemma_get_line_lower_bound(lines.drop_first(), o2);
            assert(lines.drop_first()[0] == lines[1]);
        }
    }
}

/// Law, at the chunk's surface: for a well-formed chunk the source line
/// reported for a code offset never decreases as the offset grows.
pub proof fn lemma_chunk_line_monotonic(chunk: &Chunk, o1: int, o2: int)
    requires
        chunk.wf(),
        o1 <= o2,
    ensures
        spec_get_line(chunk.lines@, o1) <= spec_get_line(chunk.lines@, o2),
{
    lemma_get_line_monotonic(chunk.lines@, o1, o2);
}

/// Law: a constant round-trips through its load instruction. Writing a
/// value with `write_constant` appends it to the pool and emits bytes that
/// decode back to its pool index, whichever of the two encodings was
/// chosen, so the loaded value is the one written, bit for bit.
pub proof fn lemma_constant_round_trip(pool: Seq<Value>, value: Value)
    requires
        pool.len() < 0x1000000,
    ensures
        ({
            let code = spec_encode_constant(pool.len() as usize);
            let decoded = if spec_opcode_from_byte(code[0]) == OpCode::Constant {
                code[1] as usize
            } else {
                spec_long_index(code[1], code[2], code[3])
            };
            decoded == pool.len() && pool.push(value)[decoded as int] == value
        }),
{
    let index = pool.len() as usize;
    if index > 255 {
        assert(((index & 0xff) as u8 as usize) | ((((index >> 8) & 0xff) as u8 as usize) << 8) | ((((
            index >> 16) & 0xff) as u8 as usize) << 16) == index) by (bit_vector)
            requires
                index < 0x1000000,
        ;
    }
}

} // verus!
