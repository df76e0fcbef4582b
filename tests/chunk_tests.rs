use rlox::chunk::{Chunk, OpCode};
use rlox::value::{Value, ValueArray};

fn number(x: f64) -> Value {
    Value::Number(x.to_bits())
}

#[test]
fn new_chunk_is_empty() {
    let c = Chunk::new();
    assert_eq!(c.len(), 0);
    assert_eq!(c.constants_len(), 0);
}

#[test]
fn write_chunk_keeps_one_line_per_instruction() {
    let mut c = Chunk::new();
    let idx = c.add_constant(number(1.5));
    c.write_chunk(OpCode::OpConstant(idx), 7);
    c.write_chunk(OpCode::OpNegate, 7);
    c.write_chunk(OpCode::OpReturn, 8);
    assert_eq!(c.len(), 3);
    assert_eq!(c.op_at(0), OpCode::OpConstant(0));
    assert_eq!(c.op_at(2), OpCode::OpReturn);
    assert_eq!(c.line_at(0), 7);
    assert_eq!(c.line_at(1), 7);
    assert_eq!(c.line_at(2), 8);
}

#[test]
fn add_constant_twice_takes_two_slots() {
    let mut c = Chunk::new();
    let a = c.add_constant(number(2.5));
    let b = c.add_constant(number(2.5));
    assert_ne!(a, b);
    assert_eq!(a, 0);
    assert_eq!(b, 1);
    assert_eq!(c.constant_at(a), number(2.5));
    assert_eq!(c.constant_at(b), number(2.5));
    assert_eq!(c.constants_len(), 2);
}

#[test]
fn constant_indices_name_pool_slots() {
    let mut c = Chunk::new();
    for i in 0..5 {
        let idx = c.add_constant(number(i as f64));
        c.write_chunk(OpCode::OpConstant(idx), 1);
    }
    for off in 0..c.len() {
        match c.op_at(off) {
            OpCode::OpConstant(idx) => {
                assert!(idx < c.constants_len());
                assert_eq!(c.constant_at(idx), number(off as f64));
            }
            _ => panic!("unexpected instruction"),
        }
    }
}

#[test]
fn value_array_appends() {
    let mut a = ValueArray::new();
    a.write_value_array(number(1.0));
    a.write_value_array(number(1.0));
    assert_eq!(a.values.len(), 2);
    assert_eq!(a.values[1], number(1.0));
}

#[test]
fn negate_flips_only_the_sign() {
    assert_eq!(number(1.2).negate(), number(-1.2));
    assert_eq!(number(-0.0).negate(), number(0.0));
    assert_eq!(number(f64::INFINITY).negate(), number(f64::NEG_INFINITY));
    assert_eq!(number(3.0).negate().bits(), (-3.0f64).to_bits());
}
