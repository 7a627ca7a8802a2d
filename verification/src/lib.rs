//! A single-pass bytecode compiler and stack-based virtual machine for a
//! small dynamically-typed expression language.
//!
//! Source bytes are scanned into tokens, parsed by a Pratt-style precedence
//! climber that emits bytecode directly into a chunk (instructions, constant
//! pool, run-length-encoded line map), and executed by an operand-stack
//! machine with tagged values.
//!
//! Numbers are IEEE-754 binary64 values carried as their 64-bit patterns.
//! Everything that is decidable on the bit patterns alone (negation,
//! equality, ordering, truthiness) is implemented and verified here; the
//! host supplies the remaining numeric work (literal parsing, the four
//! arithmetic operations, and decimal formatting) by driving the resumable
//! interfaces of the compiler and the machine.

pub mod chunk;
pub mod compiler;
pub mod object;
pub mod scanner;
pub mod value;
pub mod vm;
