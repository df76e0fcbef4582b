use vstd::prelude::*;
use crate::value::{Value, ValueArray};

verus! {

/// One instruction. The operand of `OpConstant` is an index into the owning
/// chunk's constant pool.
#[derive(Clone, Copy, Debug, PartialEq, Eq, Structural)]
pub enum OpCode {
    OpConstant(usize),
    OpAdd,
    OpSubtract,
    OpMultiply,
    OpDivide,
    OpNegate,
    OpReturn,
}

/// Whether `op` may stand in a chunk whose pool holds `n_constants` values.
pub open spec fn op_fits(op: OpCode, n_constants: nat) -> bool {
    match op {
        OpCode::OpConstant(idx) => idx < n_constants,
        _ => true,
    }
}

/// What a chunk holds: its instructions, the source line of each, and its
/// constant pool.
pub ghost struct ChunkView {
    pub code: Seq<OpCode>,
    pub lines: Seq<u32>,
    pub constants: Seq<Value>,
}

impl ChunkView {
    /// One line per instruction, and every constant index inside the pool.
    pub open spec fn wf(self) -> bool {
        &&& self.lines.len() == self.code.len()
        &&& forall|i: int|
            0 <= i < self.code.len() ==> #[trigger] op_fits(self.code[i], self.constants.len())
    }
}

/// A unit of bytecode. It only grows: instructions and constants are appended,
/// never removed or reordered.
pub struct Chunk {
    code: Vec<OpCode>,
    constants: ValueArray,
    lines: Vec<u32>,
}

impl View for Chunk {
    type V = ChunkView;

    closed spec fn view(&self) -> ChunkView {
        ChunkView { code: self.code@, lines: self.lines@, constants: self.constants.values@ }
    }
}

impl Chunk {
    pub open spec fn wf(&self) -> bool {
        self@.wf()
    }

    /// An empty chunk.
    pub fn new() -> (r: Chunk)
        ensures
            r.wf(),
            r@.code == Seq::<OpCode>::empty(),
            r@.lines == Seq::<u32>::empty(),
            r@.constants == Seq::<Value>::empty(),
    {
        Chunk { code: Vec::new(), constants: ValueArray::new(), lines: Vec::new() }
    }

    /// Appends `byte`, attributed to source line `line`.
    pub fn write_chunk(&mut self, byte: OpCode, line: u32)
        requires
            old(self).wf(),
            op_fits(byte, old(self)@.constants.len()),
        ensures
            final(self).wf(),
            final(self)@.code == old(self)@.code.push(byte),
            final(self)@.lines == old(self)@.lines.push(line),
            final(self)@.constants == old(self)@.constants,
    {
        self.code.push(byte);
        self.lines.push(line);
        assert(forall|i: int|
            0 <= i < old(self)@.code.len() ==> self@.code[i] == old(self)@.code[i]);
    }

    /// Appends `value` to the constant pool and returns its index. Equal values
    /// are not shared: each call takes a new slot.
    pub fn add_constant(&mut self, value: Value) -> (r: usize)
        requires
            old(self).wf(),
            old(self)@.constants.len() < usize::MAX,
        ensures
            final(self).wf(),
            adds_constant(old(self)@, final(self)@, value, r as int),
    {
        self.constants.write_value_array(value);
        assert(forall|i: int|
            0 <= i < self@.code.len() ==> op_fits(self@.code[i], old(self)@.constants.len())
                ==> op_fits(self@.code[i], self@.constants.len()));
        self.constants.values.len() - 1
    }

    /// The number of instructions.
    pub fn len(&self) -> (r: usize)
        ensures
            r == self@.code.len(),
    {
        self.code.len()
    }

    /// The instruction at `offset`.
    pub fn op_at(&self, offset: usize) -> (r: OpCode)
        requires
            offset < self@.code.len(),
        ensures
            r == self@.code[offset as int],
    {
        self.code[offset]
    }

    /// The source line of the instruction at `offset`.
    pub fn line_at(&self, offset: usize) -> (r: u32)
        requires
            offset < self@.lines.len(),
        ensures
            r == self@.lines[offset as int],
    {
        self.lines[offset]
    }

    /// The number of constants in the pool.
    pub fn constants_len(&self) -> (r: usize)
        ensures
            r == self@.constants.len(),
    {
        self.constants.values.len()
    }

    /// The constant at `idx`.
    pub fn constant_at(&self, idx: usize) -> (r: Value)
        requires
            idx < self@.constants.len(),
        ensures
            r == self@.constants[idx as int],
    {
        self.constants.values[idx]
    }
}

/// `after` is `before` with `value` appended to the pool at index `idx`.
pub open spec fn adds_constant(before: ChunkView, after: ChunkView, value: Value, idx: int) -> bool {
    &&& idx == before.constants.len()
    &&& after.constants == before.constants.push(value)
    &&& after.code == before.code
    &&& after.lines == before.lines
}

/// Adding one value twice takes two distinct slots, and both hold the value:
/// the pool never shares equal constants.
pub proof fn lemma_add_constant_twice(c0: ChunkView, c1: ChunkView, c2: ChunkView, v: Value, i1: int, i2: int)
    requires
        adds_constant(c0, c1, v, i1),
        adds_constant(c1, c2, v, i2),
    ensures
        i1 != i2,
        c2.constants[i1] == v,
        c2.constants[i2] == v,
{
}

/// Every chunk made through this module has one line per instruction.
pub proof fn lemma_lines_match_code(c: &Chunk)
    requires
        c.wf(),
    ensures
        c@.lines.len() == c@.code.len(),
{
}

/// Every `OpConstant` of a chunk made through this module names a slot of its pool.
pub proof fn lemma_constant_indices_in_pool(c: &Chunk, i: int)
    requires
        c.wf(),
        0 <= i < c@.code.len(),
    ensures
        match c@.code[i] {
            OpCode::OpConstant(idx) => idx < c@.constants.len(),
            _ => true,
        },
{
    assert(op_fits(c@.code[i], c@.constants.len()));
}

} // verus!
