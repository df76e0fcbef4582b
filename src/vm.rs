use vstd::prelude::*;
use crate::chunk::{Chunk, ChunkView, OpCode};
use crate::compiler::{compile, is_expression, literal_values, program_code, tokens_wf, Diagnostic};
use crate::scanner::Token;
use crate::value::{negated, Value};

verus! {

/// How a call of `interpret` ended.
#[derive(Clone, Copy, Debug, PartialEq, Eq, Structural)]
pub enum InterpretResult {
    Success,
    RuntimeError,
    CompileError,
}

/// An arithmetic operator on two numbers.
#[derive(Clone, Copy, Debug, PartialEq, Eq, Structural)]
pub enum BinaryOp {
    Add,
    Subtract,
    Multiply,
    Divide,
}

/// Why a chunk could not run on.
#[derive(Clone, Copy, Debug, PartialEq, Eq, Structural)]
pub enum Fault {
    /// An instruction needed more operands than the stack held.
    StackUnderflow,
    /// The instruction pointer ran past the last instruction without a return.
    EndOfCode,
}

/// What stops the machine.
///
/// `Arithmetic(op, a, b)` asks the caller for `a op b` in IEEE-754 double
/// arithmetic: the caller pushes the result and runs the machine on. The two
/// operands have been popped; `a` was pushed first.
#[derive(Clone, Copy, Debug, PartialEq, Eq, Structural)]
pub enum Event {
    Arithmetic(BinaryOp, Value, Value),
    Returned(Value),
    Failed(Fault),
}

impl Event {
    /// The outcome that this event ends a run with: `Success` on a return,
    /// `RuntimeError` on a fault, and none while arithmetic is pending.
    pub fn outcome(self) -> (r: Option<InterpretResult>)
        ensures
            r == match self {
                Event::Arithmetic(..) => None,
                Event::Returned(_) => Some(InterpretResult::Success),
                Event::Failed(_) => Some(InterpretResult::RuntimeError),
            },
    {
        match self {
            Event::Arithmetic(..) => None,
            Event::Returned(_) => Some(InterpretResult::Success),
            Event::Failed(_) => Some(InterpretResult::RuntimeError),
        }
    }
}

/// The state of a machine.
pub ghost struct VmView {
    pub chunk: ChunkView,
    pub ip: int,
    pub stack: Seq<Value>,
    pub debug: bool,
}

impl VmView {
    pub open spec fn wf(self) -> bool {
        &&& self.chunk.wf()
        &&& 0 <= self.ip <= self.chunk.code.len()
    }
}

/// The arithmetic operator that an instruction stands for, if any.
pub open spec fn binary_op_of(op: OpCode) -> Option<BinaryOp> {
    match op {
        OpCode::OpAdd => Some(BinaryOp::Add),
        OpCode::OpSubtract => Some(BinaryOp::Subtract),
        OpCode::OpMultiply => Some(BinaryOp::Multiply),
        OpCode::OpDivide => Some(BinaryOp::Divide),
        _ => None,
    }
}

/// One fetch and execute: the next state, and the event that stops the
/// machine there, if any. On a fault the stack is left as it was.
pub open spec fn step_spec(v: VmView) -> (VmView, Option<Event>) {
    if v.ip >= v.chunk.code.len() {
        (v, Some(Event::Failed(Fault::EndOfCode)))
    } else {
        let n = v.stack.len();
        let next = VmView { ip: v.ip + 1, ..v };
        match v.chunk.code[v.ip] {
            OpCode::OpConstant(idx) => (
                VmView { stack: v.stack.push(v.chunk.constants[idx as int]), ..next },
                None,
            ),
            OpCode::OpNegate => if n < 1 {
                (next, Some(Event::Failed(Fault::StackUnderflow)))
            } else {
                (VmView { stack: v.stack.drop_last().push(negated(v.stack.last())), ..next }, None)
            },
            OpCode::OpReturn => if n < 1 {
                (next, Some(Event::Failed(Fault::StackUnderflow)))
            } else {
                (VmView { stack: v.stack.drop_last(), ..next }, Some(Event::Returned(v.stack.last())))
            },
            op => if n < 2 {
                (next, Some(Event::Failed(Fault::StackUnderflow)))
            } else {
                (
                    VmView { stack: v.stack.subrange(0, n - 2), ..next },
                    Some(Event::Arithmetic(binary_op_of(op).unwrap(), v.stack[n - 2], v.stack[n - 1])),
                )
            },
        }
    }
}

/// Steps from `v` until an event: the state then, and the event.
pub open spec fn run_spec(v: VmView) -> (VmView, Event)
    decreases v.chunk.code.len() - v.ip,
{
    if v.ip < 0 || v.ip >= v.chunk.code.len() {
        (v, Event::Failed(Fault::EndOfCode))
    } else {
        let (w, e) = step_spec(v);
        match e {
            Some(ev) => (w, ev),
            None => run_spec(w),
        }
    }
}

/// A stack machine. It owns the chunk it runs.
pub struct VM {
    chunk: Chunk,
    ip: usize,
    stack: Vec<Value>,
    debug: bool,
}

impl View for VM {
    type V = VmView;

    closed spec fn view(&self) -> VmView {
        VmView { chunk: self.chunk@, ip: self.ip as int, stack: self.stack@, debug: self.debug }
    }
}

impl VM {
    /// A machine with an empty chunk and an empty stack, tracing on.
    pub fn new() -> (r: VM)
        ensures
            r@.wf(),
            r@.chunk.code.len() == 0,
            r@.chunk.constants.len() == 0,
            r@.ip == 0,
            r@.stack == Seq::<Value>::empty(),
            r@.debug,
    {
        VM { chunk: Chunk::new(), ip: 0, stack: Vec::new(), debug: true }
    }

    pub fn push(&mut self, value: Value)
        ensures
            final(self)@ == (VmView { stack: old(self)@.stack.push(value), ..old(self)@ }),
    {
        self.stack.push(value);
    }

    /// Removes and returns the top of the stack; `None` where it is empty.
    pub fn pop(&mut self) -> (r: Option<Value>)
        ensures
            old(self)@.stack.len() == 0 ==> r is None && final(self)@ == old(self)@,
            old(self)@.stack.len() > 0 ==> r == Some(old(self)@.stack.last()) && final(self)@ == (
            VmView { stack: old(self)@.stack.drop_last(), ..old(self)@ }),
    {
        self.stack.pop()
    }

    /// Whether tracing is on.
    pub fn debug(&self) -> (r: bool)
        ensures
            r == self@.debug,
    {
        self.debug
    }

    /// Turns tracing on or off.
    pub fn set_debug(&mut self, on: bool)
        ensures
            final(self)@ == (VmView { debug: on, ..old(self)@ }),
    {
        self.debug = on;
    }

    /// The stack, bottom first.
    pub fn stack(&self) -> (r: &Vec<Value>)
        ensures
            r@ == self@.stack,
    {
        &self.stack
    }

    /// The chunk being run.
    pub fn chunk(&self) -> (r: &Chunk)
        ensures
            r@ == self@.chunk,
    {
        &self.chunk
    }

    /// The offset of the next instruction.
    pub fn ip(&self) -> (r: usize)
        ensures
            r == self@.ip,
    {
        self.ip
    }

    /// Takes `chunk` as the program to run, from its first instruction, on an
    /// empty stack.
    pub fn load(&mut self, chunk: Chunk)
        requires
            chunk.wf(),
        ensures
            final(self)@ == (VmView { chunk: chunk@, ip: 0, stack: Seq::<Value>::empty(), ..old(self)@ }),
            final(self)@.wf(),
    {
        self.chunk = chunk;
        self.ip = 0;
        self.stack = Vec::new();
    }

    /// Pops the two operands of `op`, right first.
    fn binary_operator(&mut self, op: BinaryOp) -> (r: Event)
        ensures
            ({
                let n = old(self)@.stack.len();
                if n < 2 {
                    &&& r == Event::Failed(Fault::StackUnderflow)
                    &&& final(self)@ == old(self)@
                } else {
                    &&& r == Event::Arithmetic(op, old(self)@.stack[n - 2], old(self)@.stack[n - 1])
                    &&& final(self)@ == (VmView { stack: old(self)@.stack.subrange(0, n - 2), ..old(self)@ })
                }
            }),
    {
        if self.stack.len() < 2 {
            return Event::Failed(Fault::StackUnderflow);
        }
        let b = self.stack.pop().unwrap();
        let a = self.stack.pop().unwrap();
        assert(self.stack@ =~= old(self)@.stack.subrange(0, old(self)@.stack.len() - 2));
        Event::Arithmetic(op, a, b)
    }

    /// Fetches and executes one instruction; returns the event that stops the
    /// machine there, or `None` where it runs on.
    pub fn step(&mut self) -> (r: Option<Event>)
        requires
            old(self)@.wf(),
        ensures
            final(self)@.wf(),
            (final(self)@, r) == step_spec(old(self)@),
    {
        if self.ip >= self.chunk.len() {
            return Some(Event::Failed(Fault::EndOfCode));
        }
        let instruction = self.chunk.op_at(self.ip);
        self.ip += 1;
        match instruction {
            OpCode::OpConstant(pos) => {
                proof { crate::chunk::lemma_constant_indices_in_pool(&self.chunk, self.ip - 1); }
                let constant = self.chunk.constant_at(pos);
                self.stack.push(constant);
                None
            },
            OpCode::OpAdd => Some(self.binary_operator(BinaryOp::Add)),
            OpCode::OpSubtract => Some(self.binary_operator(BinaryOp::Subtract)),
            OpCode::OpMultiply => Some(self.binary_operator(BinaryOp::Multiply)),
            OpCode::OpDivide => Some(self.binary_operator(BinaryOp::Divide)),
            OpCode::OpNegate => {
                match self.stack.pop() {
                    Some(value) => {
                        self.stack.push(value.negate());
                        None
                    },
                    None => Some(Event::Failed(Fault::StackUnderflow)),
                }
            },
            OpCode::OpReturn => {
                match self.stack.pop() {
                    Some(value) => Some(Event::Returned(value)),
                    None => Some(Event::Failed(Fault::StackUnderflow)),
                }
            },
        }
    }
}

/// Runs the machine until an event stops it.
pub fn run(vm: &mut VM) -> (r: Event)
    requires
        old(vm)@.wf(),
    ensures
        final(vm)@.wf(),
        (final(vm)@, r) == run_spec(old(vm)@),
{
    loop
        invariant
            vm@.wf(),
            run_spec(vm@) == run_spec(old(vm)@),
        decreases vm@.chunk.code.len() - vm@.ip,
    {
        match vm.step() {
            Some(event) => {
                return event;
            },
            None => {},
        }
    }
}

/// Compiles `tokens` (with `numbers[i]` the value of number token `i`) and,
/// where they form one expression, runs its code on `vm` from the first
/// instruction on an empty stack until an event. On a compile error `vm` is
/// left as it was.
pub fn interpret(vm: &mut VM, tokens: &Vec<Token>, numbers: &Vec<Value>) -> (r: Result<Event, Vec<Diagnostic>>)
    requires
        old(vm)@.wf(),
        tokens_wf(tokens@),
        numbers@.len() == tokens@.len(),
    ensures
        final(vm)@.wf(),
        r is Ok <==> is_expression(tokens@),
        match r {
            Ok(event) => exists|c: ChunkView|
                {
                    &&& c.wf()
                    &&& c.code == program_code(tokens@)
                    &&& c.constants == literal_values(tokens@, numbers@, tokens@.len() as int)
                    &&& (final(vm)@, event) == run_spec(
                        VmView { chunk: c, ip: 0, stack: Seq::<Value>::empty(), debug: old(vm)@.debug },
                    )
                },
            Err(diagnostics) => diagnostics@.len() == 1 && final(vm)@ == old(vm)@,
        },
{
    match compile(tokens, numbers) {
        Err(diagnostics) => Err(diagnostics),
        Ok(chunk) => {
            vm.load(chunk);
            let ghost loaded = vm@;
            let event = run(vm);
            assert(loaded.chunk.wf() && (vm@, event) == run_spec(loaded));
            Ok(event)
        },
    }
}

} // verus!
