//! A small bytecode engine: a scanner for source text, a compiler for numeric
//! expressions, a chunk format with its disassembler, and a stack machine that
//! runs chunks.
//!
//! Numbers are IEEE-754 doubles. The library holds each one as its 64-bit
//! pattern and does no floating-point arithmetic itself: where a program needs
//! a sum, difference, product or quotient, the machine stops and hands the two
//! operands to its caller, which pushes the result and resumes.

pub mod value;
pub mod chunk;
pub mod scanner;
pub mod vm;
pub mod disassembler;
pub mod compiler;
