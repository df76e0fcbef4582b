use vstd::prelude::*;
use crate::chunk::{Chunk, ChunkView, OpCode};
use crate::value::Value;

verus! {

/// The line column of a listing: the source line, or a continuation mark
/// where the line is that of the instruction before.
#[derive(Clone, Copy, Debug, PartialEq, Eq, Structural)]
pub enum LineMark {
    Line(u32),
    Same,
}

/// One instruction of a listing: its offset, its line column, the
/// instruction, and for `OpConstant` the constant it names.
#[derive(Clone, Copy, Debug, PartialEq, Eq, Structural)]
pub struct InstructionLine {
    pub offset: usize,
    pub line: LineMark,
    pub op: OpCode,
    pub constant: Option<Value>,
}

/// A chunk's listing under a name.
pub struct Listing {
    pub name: String,
    pub lines: Vec<InstructionLine>,
}

/// The listing line of the instruction at `offset`.
pub open spec fn describe(c: ChunkView, offset: int) -> InstructionLine {
    InstructionLine {
        offset: offset as usize,
        line: if offset > 0 && c.lines[offset] == c.lines[offset - 1] {
            LineMark::Same
        } else {
            LineMark::Line(c.lines[offset])
        },
        op: c.code[offset],
        constant: match c.code[offset] {
            OpCode::OpConstant(idx) => Some(c.constants[idx as int]),
            _ => None,
        },
    }
}

/// The mnemonic of each instruction.
pub open spec fn mnemonic_of(op: OpCode) -> Seq<char> {
    match op {
        OpCode::OpConstant(_) => "OP_CONSTANT"@,
        OpCode::OpAdd => "OP_ADD"@,
        OpCode::OpSubtract => "OP_SUBTRACT"@,
        OpCode::OpMultiply => "OP_MULTIPLY"@,
        OpCode::OpDivide => "OP_DIVIDE"@,
        OpCode::OpNegate => "OP_NEGATE"@,
        OpCode::OpReturn => "OP_RETURN"@,
    }
}

pub fn mnemonic(op: OpCode) -> (r: &'static str)
    ensures
        r@ == mnemonic_of(op),
{
    match op {
        OpCode::OpConstant(_) => "OP_CONSTANT",
        OpCode::OpAdd => "OP_ADD",
        OpCode::OpSubtract => "OP_SUBTRACT",
        OpCode::OpMultiply => "OP_MULTIPLY",
        OpCode::OpDivide => "OP_DIVIDE",
        OpCode::OpNegate => "OP_NEGATE",
        OpCode::OpReturn => "OP_RETURN",
    }
}

fn simple_instruction(op: OpCode, line: LineMark, offset: usize) -> (r: (InstructionLine, usize))
    requires
        offset < usize::MAX,
    ensures
        r.0 == (InstructionLine { offset: offset, line: line, op: op, constant: None }),
        r.1 == offset + 1,
{
    (InstructionLine { offset: offset, line: line, op: op, constant: None }, offset + 1)
}

fn constant_instruction(chunk: &Chunk, line: LineMark, offset: usize, constant: usize) -> (r: (
    InstructionLine,
    usize,
))
    requires
        offset < usize::MAX,
        constant < chunk@.constants.len(),
    ensures
        r.0 == (InstructionLine {
            offset: offset,
            line: line,
            op: OpCode::OpConstant(constant),
            constant: Some(chunk@.constants[constant as int]),
        }),
        r.1 == offset + 1,
{
    let value = chunk.constant_at(constant);
    (
        InstructionLine {
            offset: offset,
            line: line,
            op: OpCode::OpConstant(constant),
            constant: Some(value),
        },
        offset + 1,
    )
}

/// Describes the instruction at `offset`; returns that and the offset of the
/// next instruction.
pub fn disassemble_instruction(chunk: &Chunk, offset: usize) -> (r: (InstructionLine, usize))
    requires
        chunk.wf(),
        offset < chunk@.code.len(),
    ensures
        r.0 == describe(chunk@, offset as int),
        r.1 == offset + 1,
{
    let line = if offset > 0 && chunk.line_at(offset) == chunk.line_at(offset - 1) {
        LineMark::Same
    } else {
        LineMark::Line(chunk.line_at(offset))
    };
    let instruction = chunk.op_at(offset);
    let count = chunk.len();
    assert(offset < count);
    match instruction {
        OpCode::OpConstant(constant) => {
            proof { crate::chunk::lemma_constant_indices_in_pool(chunk, offset as int); }
            constant_instruction(chunk, line, offset, constant)
        },
        _ => simple_instruction(instruction, line, offset),
    }
}

/// The listing of every instruction of `chunk`, in order, under `name`.
pub fn disassemble_chunk(chunk: &Chunk, name: &str) -> (r: Listing)
    requires
        chunk.wf(),
    ensures
        r.name@ == name@,
        r.lines@.len() == chunk@.code.len(),
        forall|i: int| 0 <= i < chunk@.code.len() ==> #[trigger] r.lines@[i] == describe(chunk@, i),
{
    let mut lines: Vec<InstructionLine> = Vec::new();
    let mut offset: usize = 0;
    while offset < chunk.len()
        invariant
            chunk.wf(),
            offset <= chunk@.code.len(),
            lines@.len() == offset,
            forall|i: int| 0 <= i < offset ==> #[trigger] lines@[i] == describe(chunk@, i),
        decreases chunk@.code.len() - offset,
    {
        let (described, next) = disassemble_instruction(chunk, offset);
        lines.push(described);
        offset = next;
    }
    Listing { name: name.to_owned(), lines: lines }
}

} // verus!
