use vstd::prelude::*;

use crate::chunks::chunks::{Chunk, ChunkView};
use crate::chunks::opcodes::OpCode;
use crate::chunks::value::{negated, operation_on, Operation, Value};

use super::stack::{Stack, STACK_SIZE};

verus! {

/// How a run of the machine ended.
#[derive(Debug, Eq, PartialEq, Clone, Copy, Structural)]
pub enum VMResult {
    Success,
    /// Kept for the compiler from syntax trees to chunks; the machine
    /// itself never gives it.
    CompileError,
    RuntimeError,
}

/// Why the machine stopped: it is done, or it needs its host to carry out
/// an arithmetic operation on two numbers.
#[derive(Debug, Eq, PartialEq, Clone, Copy, Structural)]
pub enum Step {
    Done(VMResult),
    Arithmetic(Operation),
}

/// The state of the machine: the operand stack, the offset of the next
/// instruction, the value that a `Return` gave, and whether the machine
/// waits for the result of an arithmetic operation.
pub struct Machine {
    pub stack: Seq<Value>,
    pub ip: int,
    pub returned: Option<Value>,
    pub awaiting: bool,
}

/// What one instruction does to the machine, and why the machine stops
/// after it where it does.
pub open spec fn execute(chunk: ChunkView, m: Machine) -> (Machine, Option<Step>)
    recommends
        chunk.instruction_at(m.ip) is Some,
{
    let d = chunk.instruction_at(m.ip)->0;
    let m = Machine { ip: d.next, ..m };
    match d.op {
        OpCode::Return => if m.stack.len() > 0 {
            (
                Machine { stack: m.stack.drop_last(), returned: Some(m.stack.last()), ..m },
                Some(Step::Done(VMResult::Success)),
            )
        } else {
            (Machine { returned: Some(Value::Empty), ..m }, Some(Step::Done(VMResult::Success)))
        },
        OpCode::Load | OpCode::LoadLong => if m.stack.len() < STACK_SIZE {
            (Machine { stack: m.stack.push(chunk.constants[d.index->0]), ..m }, None)
        } else {
            (m, Some(Step::Done(VMResult::RuntimeError)))
        },
        OpCode::Negate => if m.stack.len() == 0 {
            (m, Some(Step::Done(VMResult::RuntimeError)))
        } else {
            match m.stack.last() {
                Value::Number(n) => (
                    Machine { stack: m.stack.drop_last().push(Value::Number(negated(n))), ..m },
                    None,
                ),
                _ => (
                    Machine { stack: m.stack.drop_last(), ..m },
                    Some(Step::Done(VMResult::RuntimeError)),
                ),
            }
        },
        OpCode::Add | OpCode::Subtract | OpCode::Multiply | OpCode::Divide => if m.stack.len()
            == 0 {
            (m, Some(Step::Done(VMResult::RuntimeError)))
        } else if m.stack.len() == 1 {
            (
                Machine { stack: m.stack.drop_last(), ..m },
                Some(Step::Done(VMResult::RuntimeError)),
            )
        } else {
            let rhs = m.stack.last();
            let lhs = m.stack.drop_last().last();
            let rest = m.stack.drop_last().drop_last();
            match operation_on(d.op, lhs, rhs) {
                Ok(operation) => (
                    Machine { stack: rest, awaiting: true, ..m },
                    Some(Step::Arithmetic(operation)),
                ),
                Err(_) => (Machine { stack: rest, ..m }, Some(Step::Done(VMResult::RuntimeError))),
            }
        },
    }
}

/// The machine run from a state on: instruction after instruction until one
/// stops it or the code ends.
pub open spec fn run_from(chunk: ChunkView, m: Machine) -> (Machine, Step)
    decreases chunk.code.len() - m.ip,
{
    match chunk.instruction_at(m.ip) {
        None => (m, Step::Done(VMResult::Success)),
        Some(d) => {
            let (next, stop) = execute(chunk, m);
            match stop {
                Some(step) => (next, step),
                None => run_from(chunk, next),
            }
        },
    }
}

/// A stack machine that interprets a chunk.
pub struct VM {
    /// the chunk being executed
    chunk: Chunk,
    stack: Stack,
    /// the offset of the next instruction
    ip: usize,
    /// the value that a `Return` gave
    returned: Option<Value>,
    /// whether the machine waits for the result of an operation
    awaiting: bool,
}

impl VM {
    /// The chunk that the machine interprets.
    pub closed spec fn chunk(&self) -> ChunkView {
        self.chunk@
    }

    /// The state of the machine.
    pub closed spec fn machine(&self) -> Machine {
        Machine {
            stack: self.stack@,
            ip: self.ip as int,
            returned: self.returned,
            awaiting: self.awaiting,
        }
    }

    /// The code of the chunk is a sequence of whole instructions, the next
    /// instruction starts at the start of one of them, the stack is within
    /// its capacity, and there is room on it for the result that the
    /// machine waits for.
    pub closed spec fn wf(&self) -> bool {
        &&& self.chunk@.wf()
        &&& self.chunk@.executable()
        &&& 0 <= self.ip <= self.chunk@.code.len()
        &&& self.chunk@.executable_from(self.ip as int)
        &&& self.stack.wf()
        &&& self.awaiting ==> self.stack@.len() < STACK_SIZE
    }

    /// A machine at the start of a chunk, with an empty stack.
    pub fn new(chunk: Chunk) -> (r: Self)
        requires
            chunk@.wf(),
            chunk@.executable(),
        ensures
            r.wf(),
            r.chunk() == chunk@,
            r.machine() == (Machine {
                stack: Seq::empty(),
                ip: 0,
                returned: None,
                awaiting: false,
            }),
    {
        Self { stack: Stack::new(), chunk, ip: 0, returned: None, awaiting: false }
    }

    /// Runs the machine until it is done or needs an arithmetic operation
    /// carried out. After `Step::Arithmetic`, the host computes the
    /// operation, hands the result to `resume`, and runs the machine again.
    pub fn run(&mut self) -> (step: Step)
        requires
            old(self).wf(),
        ensures
            final(self).wf(),
            final(self).chunk() == old(self).chunk(),
            (final(self).machine(), step) == run_from(
                old(self).chunk(),
                Machine { awaiting: false, ..old(self).machine() },
            ),
    {
        self.awaiting = false;
        let ghost chunk = self.chunk@;
        let ghost start = self.machine();
        while self.ip < self.chunk.code().len()
            invariant
                self.wf(),
                !self.awaiting,
                self.chunk@ == chunk,
                chunk == old(self).chunk(),
                start == (Machine { awaiting: false, ..old(self).machine() }),
                run_from(chunk, self.machine()) == run_from(chunk, start),
            decreases self.chunk@.code.len() - self.ip,
        {
            let (op_code, index, next) = self.chunk.decode(self.ip).unwrap();
            self.ip = next;
            match op_code {
                OpCode::Return => {
                    let val = self.stack.pop().unwrap_or(Value::Empty);
                    self.returned = Some(val);
                    return Step::Done(VMResult::Success);
                },
                OpCode::Load | OpCode::LoadLong => {
                    let constant = self.chunk.constants()[index.unwrap()];
                    if self.stack.len() >= STACK_SIZE {
                        return Step::Done(VMResult::RuntimeError);
                    }
                    self.stack.push(constant);
                },
                OpCode::Negate => {
                    match self.stack.pop() {
                        Some(value) => match value.negate() {
                            Some(negated) => self.stack.push(negated),
                            None => {
                                return Step::Done(VMResult::RuntimeError);
                            },
                        },
                        None => {
                            return Step::Done(VMResult::RuntimeError);
                        },
                    };
                },
                OpCode::Add | OpCode::Subtract | OpCode::Multiply | OpCode::Divide => {
                    let rhs = match self.stack.pop() {
                        Some(v) => v,
                        None => {
                            return Step::Done(VMResult::RuntimeError);
                        },
                    };
                    let lhs = match self.stack.pop() {
                        Some(v) => v,
                        None => {
                            return Step::Done(VMResult::RuntimeError);
                        },
                    };
                    let value = match op_code {
                        OpCode::Add => lhs.add(rhs),
                        OpCode::Subtract => lhs.sub(rhs),
                        OpCode::Multiply => lhs.mult(rhs),
                        _ => lhs.div(rhs),
                    };
                    match value {
                        Ok(operation) => {
                            self.awaiting = true;
                            return Step::Arithmetic(operation);
                        },
                        Err(_) => {
                            return Step::Done(VMResult::RuntimeError);
                        },
                    }
                },
            }
        }
        Step::Done(VMResult::Success)
    }

    /// Whether the machine waits for the result of an operation.
    pub fn is_awaiting(&self) -> (r: bool)
        ensures
            r == self.machine().awaiting,
    {
        self.awaiting
    }

    /// Hands the machine the result of the operation that it waits for:
    /// the number is pushed onto the stack.
    pub fn resume(&mut self, result: u64)
        requires
            old(self).wf(),
            old(self).machine().awaiting,
        ensures
            final(self).wf(),
            final(self).chunk() == old(self).chunk(),
            final(self).machine() == (Machine {
                stack: old(self).machine().stack.push(Value::Number(result)),
                awaiting: false,
                ..old(self).machine()
            }),
    {
        self.stack.push(Value::Number(result));
        self.awaiting = false;
    }

    /// The value that the last `Return` gave, where one was executed.
    pub fn returned(&self) -> (r: Option<Value>)
        ensures
            r == self.machine().returned,
    {
        self.returned
    }

    /// The operand stack.
    pub fn stack(&self) -> (r: &Stack)
        ensures
            r@ == self.machine().stack,
    {
        &self.stack
    }

    /// Empties the operand stack and goes back to the start of the chunk.
    pub fn reset(&mut self)
        requires
            old(self).wf(),
        ensures
            final(self).wf(),
            final(self).chunk() == old(self).chunk(),
            final(self).machine() == (Machine {
                stack: Seq::empty(),
                ip: 0,
                returned: None,
                awaiting: false,
            }),
    {
        self.stack.reset();
        self.ip = 0;
        self.returned = None;
        self.awaiting = false;
    }
}

} // verus!
