use rlox::chunk::{Chunk, OpCode};
use rlox::disassembler::{disassemble_chunk, disassemble_instruction, mnemonic, LineMark};
use rlox::value::Value;

#[test]
fn listing_visits_every_offset_in_order() {
    let mut c = Chunk::new();
    let idx = c.add_constant(Value::Number(1.5f64.to_bits()));
    c.write_chunk(OpCode::OpConstant(idx), 123);
    c.write_chunk(OpCode::OpNegate, 123);
    c.write_chunk(OpCode::OpReturn, 124);
    let listing = disassemble_chunk(&c, "test chunk");
    assert_eq!(listing.name, "test chunk");
    assert_eq!(listing.lines.len(), 3);
    for (i, l) in listing.lines.iter().enumerate() {
        assert_eq!(l.offset, i);
    }
    assert_eq!(listing.lines[0].line, LineMark::Line(123));
    assert_eq!(listing.lines[1].line, LineMark::Same);
    assert_eq!(listing.lines[2].line, LineMark::Line(124));
    assert_eq!(listing.lines[0].constant, Some(Value::Number(1.5f64.to_bits())));
    assert_eq!(listing.lines[1].constant, None);
}

#[test]
fn empty_chunk_has_empty_listing() {
    let listing = disassemble_chunk(&Chunk::new(), "empty");
    assert!(listing.lines.is_empty());
}

#[test]
fn instruction_advances_by_one() {
    let mut c = Chunk::new();
    c.write_chunk(OpCode::OpAdd, 1);
    c.write_chunk(OpCode::OpReturn, 1);
    let (line, next) = disassemble_instruction(&c, 1);
    assert_eq!(next, 2);
    assert_eq!(line.op, OpCode::OpReturn);
    assert_eq!(line.line, LineMark::Same);
}

#[test]
fn mnemonics() {
    assert_eq!(mnemonic(OpCode::OpConstant(3)), "OP_CONSTANT");
    assert_eq!(mnemonic(OpCode::OpAdd), "OP_ADD");
    assert_eq!(mnemonic(OpCode::OpSubtract), "OP_SUBTRACT");
    assert_eq!(mnemonic(OpCode::OpMultiply), "OP_MULTIPLY");
    assert_eq!(mnemonic(OpCode::OpDivide), "OP_DIVIDE");
    assert_eq!(mnemonic(OpCode::OpNegate), "OP_NEGATE");
    assert_eq!(mnemonic(OpCode::OpReturn), "OP_RETURN");
}
