//! The stack machine: executes a chunk against a fixed 256-slot operand
//! stack, tracking source lines for fault reports.
//!
//! The dispatch loop is specified against `spec_run`, a total small-step
//! interpreter over the chunk: every opcode's effect on the stack and the
//! instruction cursor is pinned down exactly. Everything the machine can
//! decide on bit patterns alone — truthiness, equality, ordering,
//! negation — it executes itself. The four arithmetic opcodes need the
//! host's floating-point unit: on `Add`, `Subtract`, `Multiply` or `Divide`
//! the machine pops both operands, hands their bit patterns back as a
//! `NeedBinary` step, and `resume_binary` pushes the host's result and
//! carries on. Faults reset the stack and report the faulting
//! instruction's source line; the machine stays reusable.

use vstd::prelude::*;

use crate::chunk::spec_get_line;
use crate::chunk::spec_instr_len;
use crate::chunk::spec_instr_pops;
use crate::chunk::spec_instr_pushes;
use crate::chunk::spec_long_index;
use crate::chunk::spec_segment_depth;
use crate::chunk::spec_opcode_from_byte;
use crate::chunk::Chunk;
use crate::chunk::OpCode;
use crate::value::spec_double_gt;
use crate::value::spec_double_lt;
use crate::value::spec_falsey;
use crate::value::spec_negated_bits;
use crate::value::spec_value_eq;
use crate::value::double_gt;
use crate::value::double_lt;
use crate::value::negated_bits;
use crate::value::Value;

verus! {

/// The operand stack holds at most this many values.
pub const STACK_MAX: usize = 256;

/// The two failure kinds the embedding surface reports: a lexical or parse
/// failure, or a fault while executing a chunk.
#[derive(Debug, Clone, Copy, PartialEq, Eq, Structural)]
pub enum InterpretError {
    CompileError,
    RuntimeError,
}

/// The arithmetic the host performs on two double bit patterns.
#[derive(Debug, Clone, Copy, PartialEq, Eq, Structural)]
pub enum ArithOp {
    Add,
    Subtract,
    Multiply,
    Divide,
}

/// Why execution faulted.
#[derive(Debug, Clone, Copy, PartialEq, Eq, Structural)]
pub enum RuntimeMessage {
    OperandMustBeANumber,
    OperandsMustBeNumbers,
    UnknownOpcode,
    NoInstruction,
    BadConstantIndex,
    StackOverflow,
    StackUnderflow,
}

/// A runtime fault: its message and the source line of the faulting
/// instruction.
#[derive(Debug, Clone, Copy, PartialEq, Eq, Structural)]
pub struct RuntimeFault {
    pub message: RuntimeMessage,
    pub line: usize,
}

/// What a run of the machine comes back with: the final value (popped by
/// `Return`, for the host to print), a request for one arithmetic result,
/// or a fault.
#[derive(Debug, Clone, Copy, PartialEq, Eq, Structural)]
pub enum RunStep {
    Done { value: Value },
    NeedBinary { op: ArithOp, lhs: u64, rhs: u64 },
    Fault { fault: RuntimeFault },
}

/// The fault outcome at instruction `ip`: the stack is reset and the line
/// of `ip` reported.
pub open spec fn spec_fault(
    lines: Seq<crate::chunk::Line>,
    ip: int,
    message: RuntimeMessage,
) -> (RunStep, int, Seq<Value>) {
    (
        RunStep::Fault {
            fault: RuntimeFault { message, line: spec_get_line(lines, ip) },
        },
        ip,
        Seq::empty(),
    )
}

/// The total small-step interpreter: runs the chunk from `ip` over `stack`
/// until it finishes (`Return`), needs the host (arithmetic), or faults.
/// Answers the step together with the final instruction cursor and stack.
pub open spec fn spec_run(
    code: Seq<u8>,
    consts: Seq<Value>,
    lines: Seq<crate::chunk::Line>,
    ip: int,
    stack: Seq<Value>,
) -> (RunStep, int, Seq<Value>)
    decreases code.len() - ip,
{
    if !(0 <= ip < code.len()) {
        spec_fault(lines, ip, RuntimeMessage::NoInstruction)
    } else {
        let op = spec_opcode_from_byte(code[ip]);
        match op {
            OpCode::Return => {
                if stack.len() >= 1 {
                    (RunStep::Done { value: stack.last() }, ip + 1, stack.drop_last())
                } else {
                    spec_fault(lines, ip, RuntimeMessage::StackUnderflow)
                }
            },
            OpCode::Constant => {
                if ip + 2 > code.len() {
                    spec_fault(lines, ip, RuntimeMessage::BadConstantIndex)
                } else {
                    let index = code[ip + 1] as int;
                    if !(index < consts.len()) {
                        spec_fault(lines, ip, RuntimeMessage::BadConstantIndex)
                    } else if stack.len() >= STACK_MAX as int {
                        spec_fault(lines, ip, RuntimeMessage::StackOverflow)
                    } else {
                        spec_run(code, consts, lines, ip + 2, stack.push(consts[index]))
                    }
                }
            },
            OpCode::ConstantLong => {
                if ip + 4 > code.len() {
                    spec_fault(lines, ip, RuntimeMessage::BadConstantIndex)
                } else {
                    let index = spec_long_index(code[ip + 1], code[ip + 2], code[ip + 3]) as int;
                    if !(index < consts.len()) {
                        spec_fault(lines, ip, RuntimeMessage::BadConstantIndex)
                    } else if stack.len() >= STACK_MAX as int {
                        spec_fault(lines, ip, RuntimeMessage::StackOverflow)
                    } else {
                        spec_run(code, consts, lines, ip + 4, stack.push(consts[index]))
                    }
                }
            },
            OpCode::True => {
                if stack.len() >= STACK_MAX as int {
                    spec_fault(lines, ip, RuntimeMessage::StackOverflow)
                } else {
                    spec_run(code, consts, lines, ip + 1, stack.push(Value::Bool(true)))
                }
            },
            OpCode::False => {
                if stack.len() >= STACK_MAX as int {
                    spec_fault(lines, ip, RuntimeMessage::StackOverflow)
                } else {
                    spec_run(code, consts, lines, ip + 1, stack.push(Value::Bool(false)))
                }
            },
            OpCode::Nil => {
                if stack.len() >= STACK_MAX as int {
                    spec_fault(lines, ip, RuntimeMessage::StackOverflow)
                } else {
                    spec_run(code, consts, lines, ip + 1, stack.push(Value::Nil))
                }
            },
            OpCode::Not => {
                if stack.len() >= 1 {
                    let top = stack.last();
                    spec_run(
                        code,
                        consts,
                        lines,
                        ip + 1,
                        stack.drop_last().push(Value::Bool(spec_falsey(top))),
                    )
                } else {
                    spec_fault(lines, ip, RuntimeMessage::StackUnderflow)
                }
            },
            OpCode::Negate => {
                if stack.len() >= 1 {
                    match stack.last() {
                        Value::Double(bits) => spec_run(
                            code,
                            consts,
                            lines,
                            ip + 1,
                            stack.drop_last().push(Value::Double(spec_negated_bits(bits))),
                        ),
                        _ => spec_fault(lines, ip, RuntimeMessage::OperandMustBeANumber),
                    }
                } else {
                    spec_fault(lines, ip, RuntimeMessage::StackUnderflow)
                }
            },
            OpCode::Equal => {
                if stack.len() >= 2 {
                    let right = stack.last();
                    let left = stack.drop_last().last();
                    spec_run(
                        code,
                        consts,
                        lines,
                        ip + 1,
                        stack.drop_last().drop_last().push(
                            Value::Bool(spec_value_eq(left, right)),
                        ),
                    )
                } else {
                    spec_fault(lines, ip, RuntimeMessage::StackUnderflow)
                }
            },
            OpCode::Greater => {
                if stack.len() >= 2 {
                    let right = stack.last();
                    let left = stack.drop_last().last();
                    match left {
                        Value::Double(a) => match right {
                            Value::Double(b) => spec_run(
                                code,
                                consts,
                                lines,
                                ip + 1,
                                stack.drop_last().drop_last().push(
                                    Value::Bool(spec_double_gt(a, b)),
                                ),
                            ),
                            _ => spec_fault(lines, ip, RuntimeMessage::OperandsMustBeNumbers),
                        },
                        _ => spec_fault(lines, ip, RuntimeMessage::OperandsMustBeNumbers),
                    }
                } else {
                    spec_fault(lines, ip, RuntimeMessage::StackUnderflow)
                }
            },
            OpCode::Less => {
                if stack.len() >= 2 {
                    let right = stack.last();
                    let left = stack.drop_last().last();
                    match left {
                        Value::Double(a) => match right {
                            Value::Double(b) => spec_run(
                                code,
                                consts,
                                lines,
                                ip + 1,
                                stack.drop_last().drop_last().push(
                                    Value::Bool(spec_double_lt(a, b)),
                                ),
                            ),
                            _ => spec_fault(lines, ip, RuntimeMessage::OperandsMustBeNumbers),
                        },
                        _ => spec_fault(lines, ip, RuntimeMessage::OperandsMustBeNumbers),
                    }
                } else {
                    spec_fault(lines, ip, RuntimeMessage::StackUnderflow)
                }
            },
            OpCode::Add => spec_need_binary(lines, ip, stack, ArithOp::Add),
            OpCode::Subtract => spec_need_binary(lines, ip, stack, ArithOp::Subtract),
            OpCode::Multiply => spec_need_binary(lines, ip, stack, ArithOp::Multiply),
            OpCode::Divide => spec_need_binary(lines, ip, stack, ArithOp::Divide),
            OpCode::Unknown => spec_fault(lines, ip, RuntimeMessage::UnknownOpcode),
        }
    }
}

/// The stop-and-ask outcome of an arithmetic opcode at `ip`: both operands
/// must be doubles; they leave the stack and their bit patterns go to the
/// host, the cursor already past the opcode.
pub open spec fn spec_need_binary(
    lines: Seq<crate::chunk::Line>,
    ip: int,
    stack: Seq<Value>,
    op: ArithOp,
) -> (RunStep, int, Seq<Value>) {
    if stack.len() >= 2 {
        let right = stack.last();
        let left = stack.drop_last().last();
        match left {
            Value::Double(a) => match right {
                Value::Double(b) => (
                    RunStep::NeedBinary { op, lhs: a, rhs: b },
                    ip + 1,
                    stack.drop_last().drop_last(),
                ),
                _ => spec_fault(lines, ip, RuntimeMessage::OperandsMustBeNumbers),
            },
            _ => spec_fault(lines, ip, RuntimeMessage::OperandsMustBeNumbers),
        }
    } else {
        spec_fault(lines, ip, RuntimeMessage::StackUnderflow)
    }
}

/// What resuming with the host's arithmetic result does: the result is
/// pushed as a double and the machine runs on.
pub open spec fn spec_resume(
    code: Seq<u8>,
    consts: Seq<Value>,
    lines: Seq<crate::chunk::Line>,
    ip: int,
    stack: Seq<Value>,
    bits: u64,
) -> (RunStep, int, Seq<Value>) {
    if stack.len() >= STACK_MAX as int {
        spec_fault(lines, ip, RuntimeMessage::StackOverflow)
    } else {
        spec_run(code, consts, lines, ip, stack.push(Value::Double(bits)))
    }
}

/// The machine: the chunk being executed, the instruction cursor, and the
/// operand stack (a fixed array of `STACK_MAX` slots plus its live count).
pub struct VM {
    pub chunk: Chunk,
    pub ip: usize,
    pub stack: Vec<Value>,
    pub stack_top: usize,
}

impl VM {
    /// The machine invariant: the stack array always holds exactly
    /// `STACK_MAX` slots and the live count stays within it.
    pub open spec fn wf(&self) -> bool {
        &&& self.stack@.len() == STACK_MAX
        &&& self.stack_top <= STACK_MAX
    }

    /// The live operand stack: the first `stack_top` slots.
    pub open spec fn stack_model(&self) -> Seq<Value> {
        self.stack@.take(self.stack_top as int)
    }

    /// A machine in a clean state: empty chunk, cursor at zero, empty
    /// stack (all slots hold the `Unknown` sentinel).
    pub fn new() -> (r: VM)
        ensures
            r.wf(),
            r.ip == 0,
            r.stack_top == 0,
            r.stack_model() == Seq::<Value>::empty(),
            r.chunk.code@.len() == 0,
            r.chunk.constants@.len() == 0,
            r.chunk.lines@.len() == 0,
    {
        let mut stack: Vec<Value> = Vec::new();
        while stack.len() < STACK_MAX
            invariant
                stack@.len() <= STACK_MAX,
            decreases STACK_MAX - stack@.len(),
        {
            stack.push(Value::Unknown);
        }
        let vm = VM { chunk: Chunk::new(), ip: 0, stack, stack_top: 0 };
        proof {
            assert(vm.stack_model() =~= Seq::<Value>::empty());
        }
        vm
    }

    /// Releases the current chunk's storage.
    pub fn free(&mut self)
        requires
            old(self).wf(),
        ensures
            final(self).wf(),
            final(self).chunk.code@.len() == 0,
            final(self).chunk.constants@.len() == 0,
            final(self).chunk.lines@.len() == 0,
            final(self).ip == old(self).ip,
            final(self).stack_model() == old(self).stack_model(),
    {
        self.chunk.free();
    }

    /// Installs a chunk and rewinds the cursor; the next `run` starts it
    /// from the top.
    pub fn install_chunk(&mut self, chunk: Chunk)
        requires
            old(self).wf(),
        ensures
            final(self).wf(),
            final(self).chunk == chunk,
            final(self).ip == 0,
            final(self).stack_model() == old(self).stack_model(),
    {
        self.chunk = chunk;
        self.ip = 0;
    }

    /// Empties the operand stack.
    pub fn reset_stack(&mut self)
        requires
            old(self).wf(),
        ensures
            final(self).wf(),
            final(self).chunk == old(self).chunk,
            final(self).ip == old(self).ip,
            final(self).stack_model() == Seq::<Value>::empty(),
    {
        self.stack_top = 0;
        proof {
            assert(self.stack_model() =~= Seq::<Value>::empty());
        }
    }

    /// Pushes a value; answers whether there was room.
    pub fn push(&mut self, value: Value) -> (ok: bool)
        requires
            old(self).wf(),
        ensures
            final(self).wf(),
            final(self).chunk == old(self).chunk,
            final(self).ip == old(self).ip,
            ok == (old(self).stack_top < STACK_MAX),
            ok ==> final(self).stack_model() == old(self).stack_model().push(value),
            !ok ==> final(self).stack_model() == old(self).stack_model(),
    {
        if self.stack_top == STACK_MAX {
            return false;
        }
        self.stack[self.stack_top] = value;
        self.stack_top = self.stack_top + 1;
        proof {
            assert(self.stack_model() =~= old(self).stack_model().push(value));
        }
        true
    }

    /// Pops the top value; `None` on an empty stack.
    pub fn pop(&mut self) -> (r: Option<Value>)
        requires
            old(self).wf(),
        ensures
            final(self).wf(),
            final(self).chunk == old(self).chunk,
            final(self).ip == old(self).ip,
            old(self).stack_top == 0 ==> (r is None) && final(self).stack_model() == old(self).stack_model(),
            old(self).stack_top > 0 ==> r == Some(old(self).stack_model().last())
                && final(self).stack_model() == old(self).stack_model().drop_last(),
    {
        if self.stack_top == 0 {
            return None;
        }
        self.stack_top = self.stack_top - 1;
        let v = self.stack[self.stack_top];
        proof {
            assert(self.stack_model() =~= old(self).stack_model().drop_last());
        }
        Some(v)
    }

    /// The value `distance` slots below the top of the stack.
    pub fn peek(&self, distance: usize) -> (r: Value)
        requires
            self.wf(),
            distance < self.stack_top,
        ensures
            r == self.stack_model()[self.stack_top - 1 - distance],
    {
        self.stack[self.stack_top - 1 - distance]
    }

    /// Reads the byte at the cursor and advances past it.
    pub fn read_byte(&mut self) -> (r: u8)
        requires
            old(self).wf(),
            old(self).ip < old(self).chunk.code@.len(),
        ensures
            final(self).wf(),
            final(self).chunk == old(self).chunk,
            final(self).ip == old(self).ip + 1,
            final(self).stack_model() == old(self).stack_model(),
            r == old(self).chunk.code@[old(self).ip as int],
    {
        let _n = self.chunk.code.len();
        let r = self.chunk.code[self.ip];
        self.ip = self.ip + 1;
        r
    }

    /// Reads a one-byte constant index at the cursor and answers that pool
    /// entry, advancing past the operand.
    pub fn read_constant(&mut self) -> (r: Value)
        requires
            old(self).wf(),
            old(self).ip < old(self).chunk.code@.len(),
            old(self).chunk.code@[old(self).ip as int] < old(self).chunk.constants@.len(),
        ensures
            final(self).wf(),
            final(self).chunk == old(self).chunk,
            final(self).ip == old(self).ip + 1,
            final(self).stack_model() == old(self).stack_model(),
            r == old(self).chunk.constants@[old(self).chunk.code@[old(self).ip as int] as int],
    {
        let _n = self.chunk.code.len();
        let pointer = self.chunk.code[self.ip] as usize;
        let constant = self.chunk.constants[pointer];
        self.ip = self.ip + 1;
        constant
    }

    /// Reads a three-byte little-endian constant index at the cursor and
    /// answers that pool entry, advancing past the operand.
    pub fn read_constant_long(&mut self) -> (r: Value)
        requires
            old(self).wf(),
            old(self).ip + 3 <= old(self).chunk.code@.len(),
            spec_long_index(
                old(self).chunk.code@[old(self).ip as int],
                old(self).chunk.code@[old(self).ip as int + 1],
                old(self).chunk.code@[old(self).ip as int + 2],
            ) < old(self).chunk.constants@.len(),
        ensures
            final(self).wf(),
            final(self).chunk == old(self).chunk,
            final(self).ip == old(self).ip + 3,
            final(self).stack_model() == old(self).stack_model(),
            r == old(self).chunk.constants@[spec_long_index(
                old(self).chunk.code@[old(self).ip as int],
                old(self).chunk.code@[old(self).ip as int + 1],
                old(self).chunk.code@[old(self).ip as int + 2],
            ) as int],
    {
        let _n = self.chunk.code.len();
        let p1 = self.chunk.code[self.ip] as usize;
        let p2 = self.chunk.code[self.ip + 1] as usize;
        let p3 = self.chunk.code[self.ip + 2] as usize;
        let index = p1 | (p2 << 8) | (p3 << 16);
        let constant = self.chunk.constants[index];
        self.ip = self.ip + 3;
        constant
    }

    /// Faults: reports the line of the instruction at the cursor, resets
    /// the stack, and leaves the cursor on the faulting instruction.
    fn fault_step(&mut self, message: RuntimeMessage) -> (r: RunStep)
        requires
            old(self).wf(),
        ensures
            final(self).wf(),
            final(self).chunk == old(self).chunk,
            final(self).ip == old(self).ip,
            final(self).stack_model() == Seq::<Value>::empty(),
            (r, final(self).ip as int, final(self).stack_model()) == spec_fault(
                old(self).chunk.lines@,
                old(self).ip as int,
                message,
            ),
    {
        let line = self.chunk.get_line(self.ip);
        self.reset_stack();
        RunStep::Fault { fault: RuntimeFault { message, line } }
    }

    /// Runs the installed chunk from the cursor until it finishes, needs an
    /// arithmetic result from the host, or faults — exactly as `spec_run`
    /// says for the starting state.
    #[verifier::rlimit(80)]
    pub fn run(&mut self) -> (r: RunStep)
        requires
            old(self).wf(),
        ensures
            final(self).wf(),
            final(self).chunk == old(self).chunk,
            (r, final(self).ip as int, final(self).stack_model()) == spec_run(
                old(self).chunk.code@,
                old(self).chunk.constants@,
                old(self).chunk.lines@,
                old(self).ip as int,
                old(self).stack_model(),
            ),
    {
        loop
            invariant
                self.wf(),
                self.chunk == old(self).chunk,
                spec_run(
                    self.chunk.code@,
                    self.chunk.constants@,
                    self.chunk.lines@,
                    self.ip as int,
                    self.stack_model(),
                ) == spec_run(
                    old(self).chunk.code@,
                    old(self).chunk.constants@,
                    old(self).chunk.lines@,
                    old(self).ip as int,
                    old(self).stack_model(),
                ),
            decreases self.chunk.code@.len() - self.ip,
        {
            let ghost pre = *self;
            if self.ip >= self.chunk.code.len() {
                return self.fault_step(RuntimeMessage::NoInstruction);
            }
            let byte = self.chunk.code[self.ip];
            let op: OpCode = OpCode::from(byte);
            match op {
                OpCode::Return => {
                    if self.stack_top == 0 {
                        return self.fault_step(RuntimeMessage::StackUnderflow);
                    }
                    self.stack_top = self.stack_top - 1;
                    let value = self.stack[self.stack_top];
                    self.ip = self.ip + 1;
                    proof {
                        assert(self.stack_model() =~= pre.stack_model().drop_last());
                    }
                    return RunStep::Done { value };
                },
                OpCode::Constant => {
                    if self.chunk.code.len() - self.ip < 2 {
                        return self.fault_step(RuntimeMessage::BadConstantIndex);
                    }
                    let index = self.chunk.code[self.ip + 1] as usize;
                    if index >= self.chunk.constants.len() {
                        return self.fault_step(RuntimeMessage::BadConstantIndex);
                    }
                    if self.stack_top == STACK_MAX {
                        return self.fault_step(RuntimeMessage::StackOverflow);
                    }
                    let constant = self.chunk.constants[index];
                    self.stack[self.stack_top] = constant;
                    self.stack_top = self.stack_top + 1;
                    self.ip = self.ip + 2;
                    proof {
                        assert(self.stack_model() =~= pre.stack_model().push(constant));
                    }
                },
                OpCode::ConstantLong => {
                    if self.chunk.code.len() - self.ip < 4 {
                        return self.fault_step(RuntimeMessage::BadConstantIndex);
                    }
                    let p1 = self.chunk.code[self.ip + 1] as usize;
                    let p2 = self.chunk.code[self.ip + 2] as usize;
                    let p3 = self.chunk.code[self.ip + 3] as usize;
                    let index = p1 | (p2 << 8) | (p3 << 16);
                    proof {
                        assert(index == spec_long_index(
                            pre.chunk.code@[pre.ip + 1],
                            pre.chunk.code@[pre.ip + 2],
                            pre.chunk.code@[pre.ip + 3],
                        ));
                    }
                    if index >= self.chunk.constants.len() {
                        return self.fault_step(RuntimeMessage::BadConstantIndex);
                    }
                    if self.stack_top == STACK_MAX {
                        return self.fault_step(RuntimeMessage::StackOverflow);
                    }
                    let constant = self.chunk.constants[index];
                    self.stack[self.stack_top] = constant;
                    self.stack_top = self.stack_top + 1;
                    self.ip = self.ip + 4;
                    proof {
                        assert(self.stack_model() =~= pre.stack_model().push(constant));
                    }
                },
                OpCode::True => {
                    if self.stack_top == STACK_MAX {
                        return self.fault_step(RuntimeMessage::StackOverflow);
                    }
                    self.stack[self.stack_top] = Value::Bool(true);
                    self.stack_top = self.stack_top + 1;
                    self.ip = self.ip + 1;
                    proof {
                        assert(self.stack_model() =~= pre.stack_model().push(Value::Bool(true)));
                    }
                },
                OpCode::False => {
                    if self.stack_top == STACK_MAX {
                        return self.fault_step(RuntimeMessage::StackOverflow);
                    }
                    self.stack[self.stack_top] = Value::Bool(false);
                    self.stack_top = self.stack_top + 1;
                    self.ip = self.ip + 1;
                    proof {
                        assert(self.stack_model() =~= pre.stack_model().push(Value::Bool(false)));
                    }
                },
                OpCode::Nil => {
                    if self.stack_top == STACK_MAX {
                        return self.fault_step(RuntimeMessage::StackOverflow);
                    }
                    self.stack[self.stack_top] = Value::Nil;
                    self.stack_top = self.stack_top + 1;
                    self.ip = self.ip + 1;
                    proof {
                        assert(self.stack_model() =~= pre.stack_model().push(Value::Nil));
                    }
                },
                OpCode::Not => {
                    if self.stack_top == 0 {
                        return self.fault_step(RuntimeMessage::StackUnderflow);
                    }
                    let top = self.stack[self.stack_top - 1];
                    self.stack[self.stack_top - 1] = Value::Bool(top.is_falsey());
                    self.ip = self.ip + 1;
                    proof {
                        assert(top == pre.stack_model().last());
                        assert(self.stack_model() =~= pre.stack_model().drop_last().push(
                            Value::Bool(spec_falsey(top)),
                        ));
                    }
                },
                OpCode::Negate => {
                    if self.stack_top == 0 {
                        return self.fault_step(RuntimeMessage::StackUnderflow);
                    }
                    let top = self.stack[self.stack_top - 1];
                    proof {
                        assert(top == pre.stack_model().last());
                    }
                    match top {
                        Value::Double(bits) => {
                            self.stack[self.stack_top - 1] = Value::Double(negated_bits(bits));
                            self.ip = self.ip + 1;
                            proof {
                                assert(self.stack_model() =~= pre.stack_model().drop_last().push(
                                    Value::Double(spec_negated_bits(bits)),
                                ));
                            }
                        },
                        _ => {
                            return self.fault_step(RuntimeMessage::OperandMustBeANumber);
                        },
                    }
                },
                OpCode::Equal => {
                    if self.stack_top < 2 {
                        return self.fault_step(RuntimeMessage::StackUnderflow);
                    }
                    let right = self.stack[self.stack_top - 1];
                    let left = self.stack[self.stack_top - 2];
                    proof {
                        assert(right == pre.stack_model().last());
                        assert(left == pre.stack_model().drop_last().last());
                    }
                    let result = left.equal(&right);
                    self.stack[self.stack_top - 2] = Value::Bool(result);
                    self.stack_top = self.stack_top - 1;
                    self.ip = self.ip + 1;
                    proof {
                        assert(self.stack_model()
                            =~= pre.stack_model().drop_last().drop_last().push(
                            Value::Bool(spec_value_eq(left, right)),
                        ));
                    }
                },
                OpCode::Greater => {
                    if self.stack_top < 2 {
                        return self.fault_step(RuntimeMessage::StackUnderflow);
                    }
                    let right = self.stack[self.stack_top - 1];
                    let left = self.stack[self.stack_top - 2];
                    proof {
                        assert(right == pre.stack_model().last());
                        assert(left == pre.stack_model().drop_last().last());
                    }
                    match (left, right) {
                        (Value::Double(a), Value::Double(b)) => {
                            let result = double_gt(a, b);
                            self.stack[self.stack_top - 2] = Value::Bool(result);
                            self.stack_top = self.stack_top - 1;
                            self.ip = self.ip + 1;
                            proof {
                                assert(self.stack_model()
                                    =~= pre.stack_model().drop_last().drop_last().push(
                                    Value::Bool(spec_double_gt(a, b)),
                                ));
                            }
                        },
                        _ => {
                            return self.fault_step(RuntimeMessage::OperandsMustBeNumbers);
                        },
                    }
                },
                OpCode::Less => {
                    if self.stack_top < 2 {
                        return self.fault_step(RuntimeMessage::StackUnderflow);
                    }
                    let right = self.stack[self.stack_top - 1];
                    let left = self.stack[self.stack_top - 2];
                    proof {
                        assert(right == pre.stack_model().last());
                        assert(left == pre.stack_model().drop_last().last());
                    }
                    match (left, right) {
                        (Value::Double(a), Value::Double(b)) => {
                            let result = double_lt(a, b);
                            self.stack[self.stack_top - 2] = Value::Bool(result);
                            self.stack_top = self.stack_top - 1;
                            self.ip = self.ip + 1;
                            proof {
                                assert(self.stack_model()
                                    =~= pre.stack_model().drop_last().drop_last().push(
                                    Value::Bool(spec_double_lt(a, b)),
                                ));
                            }
                        },
                        _ => {
                            return self.fault_step(RuntimeMessage::OperandsMustBeNumbers);
                        },
                    }
                },
                OpCode::Add => {
                    return self.binary_request(ArithOp::Add);
                },
                OpCode::Subtract => {
                    return self.binary_request(ArithOp::Subtract);
                },
                OpCode::Multiply => {
                    return self.binary_request(ArithOp::Multiply);
                },
                OpCode::Divide => {
                    return self.binary_request(ArithOp::Divide);
                },
                OpCode::Unknown => {
                    return self.fault_step(RuntimeMessage::UnknownOpcode);
                },
            }
        }
    }

    /// Pops the two operands of an arithmetic opcode and hands their bit
    /// patterns to the host, or faults when they are not both numbers.
    fn binary_request(&mut self, op: ArithOp) -> (r: RunStep)
        requires
            old(self).wf(),
            old(self).ip < old(self).chunk.code@.len(),
        ensures
            final(self).wf(),
            final(self).chunk == old(self).chunk,
            (r, final(self).ip as int, final(self).stack_model()) == spec_need_binary(
                old(self).chunk.lines@,
                old(self).ip as int,
                old(self).stack_model(),
                op,
            ),
    {
        let _n = self.chunk.code.len();
        if self.stack_top < 2 {
            return self.fault_step(RuntimeMessage::StackUnderflow);
        }
        let right = self.stack[self.stack_top - 1];
        let left = self.stack[self.stack_top - 2];
        proof {
            assert(right == old(self).stack_model().last());
            assert(left == old(self).stack_model().drop_last().last());
        }
        match (left, right) {
            (Value::Double(a), Value::Double(b)) => {
                self.stack_top = self.stack_top - 2;
                self.ip = self.ip + 1;
                proof {
                    assert(self.stack_model() =~= old(self).stack_model().drop_last().drop_last());
                }
                RunStep::NeedBinary { op, lhs: a, rhs: b }
            },
            _ => self.fault_step(RuntimeMessage::OperandsMustBeNumbers),
        }
    }

    /// Resumes after a `NeedBinary` step: pushes the host's result as a
    /// double and runs on — exactly as `spec_resume` says.
    pub fn resume_binary(&mut self, bits: u64) -> (r: RunStep)
        requires
            old(self).wf(),
        ensures
            final(self).wf(),
            final(self).chunk == old(self).chunk,
            (r, final(self).ip as int, final(self).stack_model()) == spec_resume(
                old(self).chunk.code@,
                old(self).chunk.constants@,
                old(self).chunk.lines@,
                old(self).ip as int,
                old(self).stack_model(),
                bits,
            ),
    {
        if !self.push(Value::Double(bits)) {
            return self.fault_step(RuntimeMessage::StackOverflow);
        }
        self.run()
    }
}

/// Law: applying `Not` twice to any value executes to `true` exactly when
/// the value is truthy (not `Nil` and not `false`): running
/// `Not, Not, Return` over a one-value stack finishes with that boolean.
pub proof fn lemma_double_not_executes(
    x: Value,
    consts: Seq<Value>,
    lines: Seq<crate::chunk::Line>,
)
    ensures
        ({
            let code = seq![
                crate::chunk::spec_opcode_byte(OpCode::Not),
                crate::chunk::spec_opcode_byte(OpCode::Not),
                crate::chunk::spec_opcode_byte(OpCode::Return),
            ];
            spec_run(code, consts, lines, 0, seq![x]) == (
                RunStep::Done { value: Value::Bool(!spec_falsey(x)) },
                3int,
                Seq::<Value>::empty(),
            )
        }),
{
    reveal_with_fuel(spec_run, 4);
    let code = seq![
        crate::chunk::spec_opcode_byte(OpCode::Not),
        crate::chunk::spec_opcode_byte(OpCode::Not),
        crate::chunk::spec_opcode_byte(OpCode::Return),
    ];
    let s0 = seq![x];
    let s1 = s0.drop_last().push(Value::Bool(spec_falsey(x)));
    assert(s1 =~= seq![Value::Bool(spec_falsey(x))]);
    let s2 = s1.drop_last().push(Value::Bool(!spec_falsey(x)));
    assert(s2 =~= seq![Value::Bool(!spec_falsey(x))]);
    assert(s2.drop_last() =~= Seq::<Value>::empty());
}

/// Law: negating a number twice executes back to the very same bit
/// pattern, so a doubly negated finite number prints exactly as the number
/// itself: running `Negate, Negate, Return` over a one-double stack
/// finishes with the original double.
pub proof fn lemma_double_negate_executes(
    bits: u64,
    consts: Seq<Value>,
    lines: Seq<crate::chunk::Line>,
)
    ensures
        ({
            let code = seq![
                crate::chunk::spec_opcode_byte(OpCode::Negate),
                crate::chunk::spec_opcode_byte(OpCode::Negate),
                crate::chunk::spec_opcode_byte(OpCode::Return),
            ];
            spec_run(code, consts, lines, 0, seq![Value::Double(bits)]) == (
                RunStep::Done { value: Value::Double(bits) },
                3int,
                Seq::<Value>::empty(),
            )
        }),
{
    reveal_with_fuel(spec_run, 4);
    crate::value::lemma_negate_involution(bits);
    let code = seq![
        crate::chunk::spec_opcode_byte(OpCode::Negate),
        crate::chunk::spec_opcode_byte(OpCode::Negate),
        crate::chunk::spec_opcode_byte(OpCode::Return),
    ];
    let s0 = seq![Value::Double(bits)];
    let s1 = s0.drop_last().push(Value::Double(spec_negated_bits(bits)));
    assert(s1 =~= seq![Value::Double(spec_negated_bits(bits))]);
    let s2 = s1.drop_last().push(
        Value::Double(spec_negated_bits(spec_negated_bits(bits))),
    );
    assert(s2 =~= seq![Value::Double(bits)]);
    assert(s2.drop_last() =~= Seq::<Value>::empty());
}

/// Law: equality is symmetric and total on the machine. Running
/// `Equal, Return` over any two values finishes with their equality, and
/// exchanging the operands finishes with the very same boolean.
pub proof fn lemma_equal_executes_symmetric(
    a: Value,
    b: Value,
    consts: Seq<Value>,
    lines: Seq<crate::chunk::Line>,
)
    ensures
        ({
            let code = seq![
                crate::chunk::spec_opcode_byte(OpCode::Equal),
                crate::chunk::spec_opcode_byte(OpCode::Return),
            ];
            spec_run(code, consts, lines, 0, seq![a, b]) == (
                RunStep::Done { value: Value::Bool(spec_value_eq(a, b)) },
                2int,
                Seq::<Value>::empty(),
            ) && spec_run(code, consts, lines, 0, seq![b, a]) == (
                RunStep::Done { value: Value::Bool(spec_value_eq(a, b)) },
                2int,
                Seq::<Value>::empty(),
            )
        }),
{
    reveal_with_fuel(spec_run, 3);
    crate::value::lemma_value_eq_symmetric(a, b);
    let sab = seq![a, b];
    assert(sab.drop_last() =~= seq![a]);
    let s1 = sab.drop_last().drop_last().push(Value::Bool(spec_value_eq(a, b)));
    assert(s1 =~= seq![Value::Bool(spec_value_eq(a, b))]);
    assert(s1.drop_last() =~= Seq::<Value>::empty());
    let sba = seq![b, a];
    assert(sba.drop_last() =~= seq![b]);
    let s2 = sba.drop_last().drop_last().push(Value::Bool(spec_value_eq(b, a)));
    assert(s2 =~= seq![Value::Bool(spec_value_eq(a, b))]);
    assert(s2.drop_last() =~= Seq::<Value>::empty());
}

/// Law: `!=` is the negation of `==`. The compiler lowers `!=` to
/// `Equal, Not`; running `Equal, Not, Return` over any two values finishes
/// with exactly the negated equality.
pub proof fn lemma_bang_equal_executes(
    a: Value,
    b: Value,
    consts: Seq<Value>,
    lines: Seq<crate::chunk::Line>,
)
    ensures
        ({
            let code = seq![
                crate::chunk::spec_opcode_byte(OpCode::Equal),
                crate::chunk::spec_opcode_byte(OpCode::Not),
                crate::chunk::spec_opcode_byte(OpCode::Return),
            ];
            spec_run(code, consts, lines, 0, seq![a, b]) == (
                RunStep::Done { value: Value::Bool(!spec_value_eq(a, b)) },
                3int,
                Seq::<Value>::empty(),
            )
        }),
{
    reveal_with_fuel(spec_run, 4);
    let sab = seq![a, b];
    assert(sab.drop_last() =~= seq![a]);
    let s1 = sab.drop_last().drop_last().push(Value::Bool(spec_value_eq(a, b)));
    assert(s1 =~= seq![Value::Bool(spec_value_eq(a, b))]);
    let s2 = s1.drop_last().push(Value::Bool(!spec_value_eq(a, b)));
    assert(s2 =~= seq![Value::Bool(!spec_value_eq(a, b))]);
    assert(s2.drop_last() =~= Seq::<Value>::empty());
}


/// The outcomes a sound chunk is allowed: a value, an arithmetic request,
/// or a fault that only a wrongly typed operand or a full stack can raise —
/// never an unknown opcode, a missing instruction or operand, an
/// out-of-range pool index, or an empty stack.
pub open spec fn spec_clean_outcome(step: RunStep) -> bool {
    match step {
        RunStep::Done { .. } => true,
        RunStep::NeedBinary { .. } => true,
        RunStep::Fault { fault } => {
            ||| fault.message == RuntimeMessage::OperandMustBeANumber
            ||| fault.message == RuntimeMessage::OperandsMustBeNumbers
            ||| fault.message == RuntimeMessage::StackOverflow
        },
    }
}

/// Law: code of the shape the compiler guarantees — a sound instruction
/// segment followed by `Return` — runs cleanly from any of its instruction
/// boundaries: the machine finishes, asks the host for arithmetic, or
/// faults only on operand types or a full stack. When it stops to ask, the
/// rest of the code is again such a segment for the resumed stack, so the
/// whole host protocol stays clean.
pub proof fn lemma_segment_runs_clean(
    code: Seq<u8>,
    consts: Seq<Value>,
    lines: Seq<crate::chunk::Line>,
    ip: int,
    stack: Seq<Value>,
)
    requires
        code.len() >= 1,
        code.last() == crate::chunk::spec_opcode_byte(OpCode::Return),
        0 <= ip <= code.len() - 1,
        ({
            let d = spec_segment_depth(
                code.subrange(ip, code.len() - 1),
                consts.len() as int,
                stack.len() as int,
            );
            d is Some && d.unwrap() >= 1
        }),
    ensures
        spec_clean_outcome(spec_run(code, consts, lines, ip, stack).0),
        ({
            let (step, ip2, stack2) = spec_run(code, consts, lines, ip, stack);
            step matches RunStep::NeedBinary { .. } ==> {
                &&& 0 <= ip2 <= code.len() - 1
                &&& {
                    let d2 = spec_segment_depth(
                        code.subrange(ip2, code.len() - 1),
                        consts.len() as int,
                        stack2.len() as int + 1,
                    );
                    d2 is Some && d2.unwrap() >= 1
                }
            }
        }),
    decreases code.len() - ip,
{
    let rem = code.subrange(ip, code.len() - 1);
    if rem.len() == 0 {
        assert(code[ip] == code.last());
    } else {
        assert(rem[0] == code[ip]);
        let op = spec_opcode_from_byte(code[ip]);
        let l = spec_instr_len(op);
        let depth2 = stack.len() - spec_instr_pops(op) + spec_instr_pushes(op);
        assert(rem.skip(l) =~= code.subrange(ip + l, code.len() - 1));
        match op {
            OpCode::Return => {
                assert(false);
            },
            OpCode::Unknown => {
                assert(false);
            },
            OpCode::Constant => {
                assert(rem[1] == code[ip + 1]);
                if stack.len() < STACK_MAX as int {
                    lemma_segment_runs_clean(
                        code,
                        consts,
                        lines,
                        ip + 2,
                        stack.push(consts[code[ip + 1] as int]),
                    );
                }
            },
            OpCode::ConstantLong => {
                assert(rem[1] == code[ip + 1] && rem[2] == code[ip + 2] && rem[3] == code[ip + 3]);
                if stack.len() < STACK_MAX as int {
                    lemma_segment_runs_clean(
                        code,
                        consts,
                        lines,
                        ip + 4,
                        stack.push(
                            consts[spec_long_index(code[ip + 1], code[ip + 2], code[ip + 3]) as int],
                        ),
                    );
                }
            },
            OpCode::True => {
                if stack.len() < STACK_MAX as int {
                    lemma_segment_runs_clean(code, consts, lines, ip + 1, stack.push(Value::Bool(true)));
                }
            },
            OpCode::False => {
                if stack.len() < STACK_MAX as int {
                    lemma_segment_runs_clean(
                        code,
                        consts,
                        lines,
                        ip + 1,
                        stack.push(Value::Bool(false)),
                    );
                }
            },
            OpCode::Nil => {
                if stack.len() < STACK_MAX as int {
                    lemma_segment_runs_clean(code, consts, lines, ip + 1, stack.push(Value::Nil));
                }
            },
            OpCode::Not => {
                lemma_segment_runs_clean(
                    code,
                    consts,
                    lines,
                    ip + 1,
                    stack.drop_last().push(Value::Bool(spec_falsey(stack.last()))),
                );
            },
            OpCode::Negate => {
                match stack.last() {
                    Value::Double(bits) => {
                        lemma_segment_runs_clean(
                            code,
                            consts,
                            lines,
                            ip + 1,
                            stack.drop_last().push(Value::Double(spec_negated_bits(bits))),
                        );
                    },
                    _ => {},
                }
            },
            OpCode::Equal => {
                lemma_segment_runs_clean(
                    code,
                    consts,
                    lines,
                    ip + 1,
                    stack.drop_last().drop_last().push(
                        Value::Bool(spec_value_eq(stack.drop_last().last(), stack.last())),
                    ),
                );
            },
            OpCode::Greater => {
                match (stack.drop_last().last(), stack.last()) {
                    (Value::Double(a), Value::Double(b)) => {
                        lemma_segment_runs_clean(
                            code,
                            consts,
                            lines,
                            ip + 1,
                            stack.drop_last().drop_last().push(Value::Bool(spec_double_gt(a, b))),
                        );
                    },
                    _ => {},
                }
            },
            OpCode::Less => {
                match (stack.drop_last().last(), stack.last()) {
                    (Value::Double(a), Value::Double(b)) => {
                        lemma_segment_runs_clean(
                            code,
                            consts,
                            lines,
                            ip + 1,
                            stack.drop_last().drop_last().push(Value::Bool(spec_double_lt(a, b))),
                        );
                    },
                    _ => {},
                }
            },
            _ => {
                // The four arithmetic opcodes stop with a request or fault
                // on an operand type; the remaining code is the segment
                // past this instruction, one value short of its depth.
            },
        }
    }
}

/// Law: resuming a clean stop stays clean. After the machine asked for an
/// arithmetic result at a state whose remaining code is a sound segment
/// for the pushed stack, feeding it any bit pattern finishes, asks again,
/// or faults only on operand types or a full stack — and an eventual next
/// request leaves the protocol in the same shape.
pub proof fn lemma_resume_runs_clean(
    code: Seq<u8>,
    consts: Seq<Value>,
    lines: Seq<crate::chunk::Line>,
    ip: int,
    stack: Seq<Value>,
    bits: u64,
)
    requires
        code.len() >= 1,
        code.last() == crate::chunk::spec_opcode_byte(OpCode::Return),
        0 <= ip <= code.len() - 1,
        ({
            let d = spec_segment_depth(
                code.subrange(ip, code.len() - 1),
                consts.len() as int,
                stack.len() as int + 1,
            );
            d is Some && d.unwrap() >= 1
        }),
    ensures
        spec_clean_outcome(spec_resume(code, consts, lines, ip, stack, bits).0),
        ({
            let (step, ip2, stack2) = spec_resume(code, consts, lines, ip, stack, bits);
            step matches RunStep::NeedBinary { .. } ==> {
                &&& 0 <= ip2 <= code.len() - 1
                &&& {
                    let d2 = spec_segment_depth(
                        code.subrange(ip2, code.len() - 1),
                        consts.len() as int,
                        stack2.len() as int + 1,
                    );
                    d2 is Some && d2.unwrap() >= 1
                }
            }
        }),
{
    if stack.len() < STACK_MAX as int {
        lemma_segment_runs_clean(code, consts, lines, ip, stack.push(Value::Double(bits)));
    }
}


/// Law, at the machine's doorstep: a sound compile result, loaded at
/// instruction zero over an empty stack, runs cleanly, and every
/// arithmetic stop it reaches leaves the protocol ready for a clean
/// resume.
pub proof fn lemma_compile_output_runs_clean(out: &crate::compiler::CompileOutput, src: Seq<u8>)
    requires
        out.wf(src),
    ensures
        spec_clean_outcome(
            spec_run(
                out.chunk.code@,
                out.chunk.constants@,
                out.chunk.lines@,
                0,
                Seq::<Value>::empty(),
            ).0,
        ),
        ({
            let (step, ip2, stack2) = spec_run(
                out.chunk.code@,
                out.chunk.constants@,
                out.chunk.lines@,
                0,
                Seq::<Value>::empty(),
            );
            step matches RunStep::NeedBinary { .. } ==> {
                &&& 0 <= ip2 <= out.chunk.code@.len() - 1
                &&& {
                    let d2 = spec_segment_depth(
                        out.chunk.code@.subrange(ip2, out.chunk.code@.len() - 1),
                        out.chunk.constants@.len() as int,
                        stack2.len() as int + 1,
                    );
                    d2 is Some && d2.unwrap() >= 1
                }
            }
        }),
{
    assert(out.chunk.code@.subrange(0, out.chunk.code@.len() - 1) =~= out.chunk.code@.drop_last());
    lemma_segment_runs_clean(
        out.chunk.code@,
        out.chunk.constants@,
        out.chunk.lines@,
        0,
        Seq::<Value>::empty(),
    );
}


/// Law: a value round-trips through its load instruction bit for bit.
/// Running the bytes `write_constant` emits for a pool slot — either
/// encoding — followed by `Return` finishes with exactly the value in that
/// slot, `Double` patterns, booleans and `Nil` alike.
pub proof fn lemma_constant_load_executes(
    consts: Seq<Value>,
    lines: Seq<crate::chunk::Line>,
    index: usize,
)
    requires
        index < consts.len(),
        index < 0x1000000,
    ensures
        ({
            let code = crate::chunk::spec_encode_constant(index) + seq![
                crate::chunk::spec_opcode_byte(OpCode::Return),
            ];
            spec_run(code, consts, lines, 0, Seq::<Value>::empty()) == (
                RunStep::Done { value: consts[index as int] },
                code.len() as int,
                Seq::<Value>::empty(),
            )
        }),
{
    reveal_with_fuel(spec_run, 3);
    let enc = crate::chunk::spec_encode_constant(index);
    let code = enc + seq![crate::chunk::spec_opcode_byte(OpCode::Return)];
    let s1 = Seq::<Value>::empty().push(consts[index as int]);
    assert(s1.drop_last() =~= Seq::<Value>::empty());
    if index <= 255 {
        assert(code.len() == 3 && code[0] == 1 && code[1] == index as u8 && code[2] == 0);
    } else {
        assert(code.len() == 5 && code[0] == 5 && code[4] == 0);
        assert(((index & 0xff) as u8 as usize) | ((((index >> 8) & 0xff) as u8 as usize) << 8) | ((((
        index >> 16) & 0xff) as u8 as usize) << 16) == index) by (bit_vector)
            requires
                index < 0x1000000,
        ;
        assert(spec_long_index(code[1], code[2], code[3]) == index);
    }
}


} // verus!
