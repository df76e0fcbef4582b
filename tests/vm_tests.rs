use rlox::chunk::{Chunk, OpCode};
use rlox::compiler::compile;
use rlox::scanner::{scan_tokens, TokenType};
use rlox::value::Value;
use rlox::vm::{interpret, run, BinaryOp, Event, Fault, InterpretResult, VM};

fn number(x: f64) -> Value {
    Value::Number(x.to_bits())
}

fn float(v: Value) -> f64 {
    f64::from_bits(v.bits())
}

fn apply(op: BinaryOp, a: Value, b: Value) -> Value {
    let (a, b) = (float(a), float(b));
    number(match op {
        BinaryOp::Add => a + b,
        BinaryOp::Subtract => a - b,
        BinaryOp::Multiply => a * b,
        BinaryOp::Divide => a / b,
    })
}

/// Runs the machine to the end, doing its arithmetic.
fn finish(vm: &mut VM, mut event: Event) -> Event {
    loop {
        match event {
            Event::Arithmetic(op, a, b) => {
                vm.push(apply(op, a, b));
                event = run(vm);
            }
            other => return other,
        }
    }
}

fn execute(chunk: Chunk) -> Event {
    let mut vm = VM::new();
    vm.load(chunk);
    let first = run(&mut vm);
    finish(&mut vm, first)
}

fn outcome(event: Event) -> InterpretResult {
    event.outcome().unwrap()
}

fn numbers_of(tokens: &Vec<rlox::scanner::Token>) -> Vec<Value> {
    tokens
        .iter()
        .map(|t| {
            if t.ttype == TokenType::Number {
                number(t.lexeme.parse::<f64>().unwrap())
            } else {
                number(0.0)
            }
        })
        .collect()
}

fn eval(vm: &mut VM, source: &str) -> Result<Event, usize> {
    let tokens = scan_tokens(source);
    let numbers = numbers_of(&tokens);
    match interpret(vm, &tokens, &numbers) {
        Ok(event) => Ok(finish(vm, event)),
        Err(d) => Err(d.len()),
    }
}

#[test]
fn negate_constant_returns_negation() {
    let mut c = Chunk::new();
    let idx = c.add_constant(number(1.2));
    c.write_chunk(OpCode::OpConstant(idx), 1);
    c.write_chunk(OpCode::OpNegate, 1);
    c.write_chunk(OpCode::OpReturn, 1);
    let event = execute(c);
    assert_eq!(event, Event::Returned(number(-1.2)));
    assert_eq!(outcome(event), InterpretResult::Success);
}

#[test]
fn add_two_constants_returns_sum() {
    let mut c = Chunk::new();
    let a = c.add_constant(number(2.0));
    let b = c.add_constant(number(3.0));
    c.write_chunk(OpCode::OpConstant(a), 1);
    c.write_chunk(OpCode::OpConstant(b), 1);
    c.write_chunk(OpCode::OpAdd, 1);
    c.write_chunk(OpCode::OpReturn, 1);
    let mut vm = VM::new();
    vm.load(c);
    let first = run(&mut vm);
    assert_eq!(first, Event::Arithmetic(BinaryOp::Add, number(2.0), number(3.0)));
    assert_eq!(finish(&mut vm, first), Event::Returned(number(5.0)));
}

#[test]
fn divide_by_zero_returns_infinity() {
    let mut c = Chunk::new();
    let a = c.add_constant(number(1.0));
    let b = c.add_constant(number(0.0));
    c.write_chunk(OpCode::OpConstant(a), 1);
    c.write_chunk(OpCode::OpConstant(b), 1);
    c.write_chunk(OpCode::OpDivide, 1);
    c.write_chunk(OpCode::OpReturn, 1);
    let event = execute(c);
    assert_eq!(event, Event::Returned(number(f64::INFINITY)));
    assert_eq!(outcome(event), InterpretResult::Success);
}

#[test]
fn return_on_empty_stack_is_runtime_error() {
    let mut c = Chunk::new();
    c.write_chunk(OpCode::OpReturn, 1);
    let event = execute(c);
    assert_eq!(event, Event::Failed(Fault::StackUnderflow));
    assert_eq!(outcome(event), InterpretResult::RuntimeError);
}

#[test]
fn add_with_one_operand_is_runtime_error() {
    let mut c = Chunk::new();
    let a = c.add_constant(number(4.0));
    c.write_chunk(OpCode::OpConstant(a), 1);
    c.write_chunk(OpCode::OpAdd, 1);
    c.write_chunk(OpCode::OpReturn, 1);
    assert_eq!(execute(c), Event::Failed(Fault::StackUnderflow));
}

#[test]
fn negate_on_empty_stack_is_runtime_error() {
    let mut c = Chunk::new();
    c.write_chunk(OpCode::OpNegate, 1);
    assert_eq!(execute(c), Event::Failed(Fault::StackUnderflow));
}

#[test]
fn running_past_the_end_is_runtime_error() {
    let mut c = Chunk::new();
    let a = c.add_constant(number(4.0));
    c.write_chunk(OpCode::OpConstant(a), 1);
    assert_eq!(execute(c), Event::Failed(Fault::EndOfCode));
    assert_eq!(execute(Chunk::new()), Event::Failed(Fault::EndOfCode));
}

#[test]
fn subtract_pops_right_operand_first() {
    let mut c = Chunk::new();
    let a = c.add_constant(number(10.0));
    let b = c.add_constant(number(4.0));
    c.write_chunk(OpCode::OpConstant(a), 1);
    c.write_chunk(OpCode::OpConstant(b), 1);
    c.write_chunk(OpCode::OpSubtract, 1);
    c.write_chunk(OpCode::OpReturn, 1);
    let mut vm = VM::new();
    vm.load(c);
    let first = run(&mut vm);
    assert_eq!(first, Event::Arithmetic(BinaryOp::Subtract, number(10.0), number(4.0)));
    assert_eq!(vm.stack().len(), 0);
    assert_eq!(finish(&mut vm, first), Event::Returned(number(6.0)));
}

#[test]
fn step_advances_one_instruction() {
    let mut c = Chunk::new();
    let a = c.add_constant(number(9.0));
    c.write_chunk(OpCode::OpConstant(a), 1);
    c.write_chunk(OpCode::OpReturn, 1);
    let mut vm = VM::new();
    vm.load(c);
    assert_eq!(vm.ip(), 0);
    assert_eq!(vm.step(), None);
    assert_eq!(vm.ip(), 1);
    assert_eq!(vm.stack().clone(), vec![number(9.0)]);
    assert_eq!(vm.step(), Some(Event::Returned(number(9.0))));
    assert_eq!(vm.stack().len(), 0);
}

#[test]
fn push_and_pop() {
    let mut vm = VM::new();
    assert_eq!(vm.pop(), None);
    vm.push(number(1.0));
    vm.push(number(2.0));
    assert_eq!(vm.pop(), Some(number(2.0)));
    assert_eq!(vm.pop(), Some(number(1.0)));
    assert_eq!(vm.pop(), None);
}

#[test]
fn interpret_evaluates_expressions() {
    let mut vm = VM::new();
    assert_eq!(eval(&mut vm, "1 + 2 * 3"), Ok(Event::Returned(number(7.0))));
    assert_eq!(eval(&mut vm, "(1 - 3) / 2"), Ok(Event::Returned(number(-1.0))));
    assert_eq!(eval(&mut vm, "-(2.5 * 2)"), Ok(Event::Returned(number(-5.0))));
    assert_eq!(eval(&mut vm, "8 - 2 - 1"), Ok(Event::Returned(number(5.0))));
    assert_eq!(eval(&mut vm, "1 / 0"), Ok(Event::Returned(number(f64::INFINITY))));
}

#[test]
fn compile_error_leaves_machine_usable() {
    let mut vm = VM::new();
    assert_eq!(eval(&mut vm, "$"), Err(1));
    assert_eq!(eval(&mut vm, "1 +"), Err(1));
    assert_eq!(eval(&mut vm, "4 * 4"), Ok(Event::Returned(number(16.0))));
}

#[test]
fn compiled_chunk_has_expected_code() {
    let tokens = scan_tokens("1 + 2");
    let numbers = numbers_of(&tokens);
    let chunk = match compile(&tokens, &numbers) {
        Ok(c) => c,
        Err(_) => panic!("compile failed"),
    };
    assert_eq!(chunk.len(), 4);
    assert_eq!(chunk.op_at(0), OpCode::OpConstant(0));
    assert_eq!(chunk.op_at(1), OpCode::OpConstant(1));
    assert_eq!(chunk.op_at(2), OpCode::OpAdd);
    assert_eq!(chunk.op_at(3), OpCode::OpReturn);
    assert_eq!(chunk.constant_at(0), number(1.0));
    assert_eq!(chunk.constant_at(1), number(2.0));
}

#[test]
fn events_map_to_outcomes() {
    assert_eq!(Event::Returned(number(1.0)).outcome(), Some(InterpretResult::Success));
    assert_eq!(
        Event::Failed(Fault::EndOfCode).outcome(),
        Some(InterpretResult::RuntimeError)
    );
    assert_eq!(
        Event::Arithmetic(BinaryOp::Multiply, number(1.0), number(2.0)).outcome(),
        None
    );
}

#[test]
fn compile_error_leaves_machine_state() {
    let mut vm = VM::new();
    let mut c = Chunk::new();
    let a = c.add_constant(number(3.0));
    c.write_chunk(OpCode::OpConstant(a), 1);
    c.write_chunk(OpCode::OpConstant(a), 1);
    vm.load(c);
    assert_eq!(vm.step(), None);
    let tokens = scan_tokens("(");
    let numbers = numbers_of(&tokens);
    assert!(interpret(&mut vm, &tokens, &numbers).is_err());
    assert_eq!(vm.ip(), 1);
    assert_eq!(vm.stack().clone(), vec![number(3.0)]);
    assert_eq!(vm.chunk().len(), 2);
}
