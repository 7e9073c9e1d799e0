use rox::chunks::chunks::Chunk;
use rox::chunks::opcodes::OpCode;
use rox::chunks::value::Value;
use rox::vm::stack::{Stack, STACK_SIZE};
use rox::vm::vm::{Step, VMResult, VM};

fn number(x: f64) -> Value {
    Value::Number(x.to_bits())
}

/// Runs the machine to its end, computing in floating point what it asks for.
fn run(vm: &mut VM) -> VMResult {
    loop {
        match vm.run() {
            Step::Done(result) => return result,
            Step::Arithmetic(operation) => {
                let lhs = f64::from_bits(operation.lhs);
                let rhs = f64::from_bits(operation.rhs);
                let result = match operation.op {
                    OpCode::Add => lhs + rhs,
                    OpCode::Subtract => lhs - rhs,
                    OpCode::Multiply => lhs * rhs,
                    OpCode::Divide => lhs / rhs,
                    _ => unreachable!(),
                };
                assert!(vm.is_awaiting());
                vm.resume(result.to_bits());
            }
        }
    }
}

fn make_chunk(l: f64, op: OpCode, r: f64) -> Chunk {
    let mut chunk = Chunk::new();
    chunk.write_constant(number(l));
    chunk.write_constant(number(r));
    chunk.write(op);
    chunk
}

#[test]
fn push() {
    let mut stack = Stack::new();
    assert_eq!(stack.len(), 0);

    stack.push(number(42.0));
    assert_eq!(stack.len(), 1);

    stack.push(Value::Literal("Hello, world!"));
    assert_eq!(stack.len(), 2);
}

#[test]
fn pop() {
    let mut stack = Stack::new();
    assert_eq!(stack.len(), 0);

    stack.push(number(42.0));
    stack.push(Value::Literal("Hello, world!"));

    assert_eq!(stack.pop().unwrap(), Value::Literal("Hello, world!"));
    assert_eq!(stack.pop().unwrap(), number(42.0));
    assert_eq!(stack.pop(), None);
}

#[test]
fn reset() {
    let mut stack = Stack::new();

    stack.push(number(42.0));
    stack.push(Value::Literal("Hello, world!"));
    stack.push(number(42.0));
    stack.push(Value::Literal("Hello, world!"));
    assert_eq!(stack.len(), 4);

    stack.reset();
    assert_eq!(stack.len(), 0);
}

#[test]
fn negation_without_value() {
    let mut chunk = Chunk::new();
    chunk.write(OpCode::Negate);
    let mut vm = VM::new(chunk);
    assert_eq!(run(&mut vm), VMResult::RuntimeError);
}

#[test]
fn negation_with_value() {
    let mut chunk = Chunk::new();
    chunk.write_constant(number(42.0));
    chunk.write(OpCode::Negate);
    chunk.write(OpCode::Return);

    let mut vm = VM::new(chunk);
    assert_eq!(run(&mut vm), VMResult::Success);
    assert_eq!(vm.returned(), Some(number(-42.0)));
}

#[test]
fn add() {
    let chunk = make_chunk(10.0, OpCode::Add, 5.0);
    let mut vm = VM::new(chunk);
    let res = run(&mut vm);
    assert_eq!(res, VMResult::Success);
    assert_eq!(vm.stack().peek(), Some(number(15.0)).as_ref());
}

#[test]
fn subtract() {
    let chunk = make_chunk(10.0, OpCode::Subtract, 5.0);
    let mut vm = VM::new(chunk);
    let res = run(&mut vm);
    assert_eq!(res, VMResult::Success);
    assert_eq!(vm.stack().peek(), Some(number(5.0)).as_ref());
}

#[test]
fn multiplpy() {
    let chunk = make_chunk(10.0, OpCode::Multiply, 5.0);
    let mut vm = VM::new(chunk);
    let res = run(&mut vm);
    assert_eq!(res, VMResult::Success);
    assert_eq!(vm.stack().peek(), Some(number(50.0)).as_ref());
}

#[test]
fn divide() {
    let chunk = make_chunk(10.0, OpCode::Divide, 5.0);
    let mut vm = VM::new(chunk);
    let res = run(&mut vm);
    assert_eq!(res, VMResult::Success);
    assert_eq!(vm.stack().peek(), Some(number(2.0)).as_ref());
}

#[test]
fn divide_by_zero() {
    let chunk = make_chunk(10.0, OpCode::Divide, 0.0);
    let mut vm = VM::new(chunk);
    let res = run(&mut vm);
    assert_eq!(res, VMResult::RuntimeError);
}

#[test]
fn load_and_return() {
    let mut chunk = Chunk::new();
    chunk.write_constant(number(42.0));
    chunk.write(OpCode::Return);
    let mut vm = VM::new(chunk);
    assert_eq!(vm.returned(), None);
    assert_eq!(vm.run(), Step::Done(VMResult::Success));
    assert_eq!(vm.returned(), Some(number(42.0)));
    assert_eq!(vm.stack().len(), 0);
}

#[test]
fn return_on_an_empty_stack_gives_the_empty_value() {
    let mut chunk = Chunk::new();
    chunk.write(OpCode::Return);
    let mut vm = VM::new(chunk);
    assert_eq!(vm.run(), Step::Done(VMResult::Success));
    assert_eq!(vm.returned(), Some(Value::Empty));
}

#[test]
fn negation_of_what_is_no_number() {
    let mut chunk = Chunk::new();
    chunk.write(OpCode::Negate);
    chunk.write(OpCode::Return);
    let mut vm = VM::new(chunk);
    assert_eq!(vm.run(), Step::Done(VMResult::RuntimeError));

    let mut chunk = Chunk::new();
    chunk.write_constant(Value::Literal("x"));
    chunk.write(OpCode::Negate);
    let mut vm = VM::new(chunk);
    assert_eq!(vm.run(), Step::Done(VMResult::RuntimeError));
    assert_eq!(vm.stack().len(), 0);
}

#[test]
fn one_plus_two() {
    let chunk = make_chunk(1.0, OpCode::Add, 2.0);
    let mut vm = VM::new(chunk);
    match vm.run() {
        Step::Arithmetic(operation) => {
            assert!(matches!(operation.op, OpCode::Add));
            assert_eq!(operation.lhs, 1.0f64.to_bits());
            assert_eq!(operation.rhs, 2.0f64.to_bits());
            assert_eq!(vm.stack().len(), 0);
            vm.resume(3.0f64.to_bits());
        }
        Step::Done(_) => panic!("Should ask for the sum"),
    }
    assert_eq!(vm.run(), Step::Done(VMResult::Success));
    assert_eq!(vm.stack().peek(), Some(&number(3.0)));
}

#[test]
fn operands_are_taken_in_order() {
    // 1 + 2 * 3
    let mut chunk = Chunk::new();
    chunk.write_constant(number(1.0));
    chunk.write_constant(number(2.0));
    chunk.write_constant(number(3.0));
    chunk.write(OpCode::Multiply);
    chunk.write(OpCode::Add);
    chunk.write(OpCode::Return);
    let mut vm = VM::new(chunk);
    assert_eq!(run(&mut vm), VMResult::Success);
    assert_eq!(vm.returned(), Some(number(7.0)));

    let chunk = make_chunk(2.0, OpCode::Subtract, 10.0);
    let mut vm = VM::new(chunk);
    assert_eq!(run(&mut vm), VMResult::Success);
    assert_eq!(vm.stack().peek(), Some(&number(-8.0)));
}

#[test]
fn arithmetic_on_what_is_missing_or_no_number() {
    for op in [OpCode::Add, OpCode::Subtract, OpCode::Multiply, OpCode::Divide] {
        let mut chunk = Chunk::new();
        chunk.write(op);
        let mut vm = VM::new(chunk);
        assert_eq!(vm.run(), Step::Done(VMResult::RuntimeError));

        let mut chunk = Chunk::new();
        chunk.write_constant(number(1.0));
        chunk.write(op);
        let mut vm = VM::new(chunk);
        assert_eq!(vm.run(), Step::Done(VMResult::RuntimeError));

        let mut chunk = Chunk::new();
        chunk.write_constant(number(1.0));
        chunk.write_constant(Value::Literal("x"));
        chunk.write(op);
        let mut vm = VM::new(chunk);
        assert_eq!(vm.run(), Step::Done(VMResult::RuntimeError));
        assert_eq!(vm.stack().len(), 0);
    }
}

#[test]
fn long_load_is_executed() {
    let mut chunk = Chunk::new();
    for i in 0..300 {
        chunk.write_constant(number(i as f64));
    }
    chunk.write(OpCode::Return);
    let mut vm = VM::new(chunk);
    assert_eq!(vm.run(), Step::Done(VMResult::Success));
    assert_eq!(vm.returned(), Some(number(299.0)));
    assert_eq!(vm.stack().len(), 299);
    assert_eq!(vm.stack().peek(), Some(&number(298.0)));
}

#[test]
fn stack_overflow_is_refused() {
    let mut stack = Stack::new();
    for i in 0..STACK_SIZE {
        assert!(stack.try_push(number(i as f64)).is_ok());
    }
    assert_eq!(stack.len(), 4096);
    assert_eq!(
        stack.try_push(Value::Empty),
        Err("Stack overflow: maximum stack size of 4096 reached".to_string())
    );
    assert_eq!(stack.len(), 4096);
    assert_eq!(
        Stack::overflow_message(),
        "Stack overflow: maximum stack size of 4096 reached"
    );
    assert_eq!(stack.pop(), Some(number(4095.0)));
    assert!(stack.try_push(Value::Empty).is_ok());
}

#[test]
fn machine_stops_where_the_stack_is_full() {
    let mut chunk = Chunk::new();
    for _ in 0..4097 {
        chunk.write_constant(Value::Empty);
    }
    chunk.write(OpCode::Return);
    let mut vm = VM::new(chunk);
    assert_eq!(vm.run(), Step::Done(VMResult::RuntimeError));
    assert_eq!(vm.stack().len(), 4096);
}

#[test]
fn stack_trace_is_in_push_order() {
    let mut stack = Stack::new();
    assert_eq!(stack.peek(), None);
    stack.push(number(1.0));
    stack.push(Value::Literal("two"));
    stack.push(Value::Empty);
    assert_eq!(
        stack.trace(),
        vec![number(1.0), Value::Literal("two"), Value::Empty]
    );
    assert_eq!(stack.peek(), Some(&Value::Empty));
}

#[test]
fn machine_can_be_reset() {
    let chunk = make_chunk(1.0, OpCode::Add, 2.0);
    let mut vm = VM::new(chunk);
    assert_eq!(run(&mut vm), VMResult::Success);
    assert_eq!(vm.stack().len(), 1);
    vm.reset();
    assert_eq!(vm.stack().len(), 0);
    assert_eq!(run(&mut vm), VMResult::Success);
    assert_eq!(vm.stack().peek(), Some(&number(3.0)));
}

#[test]
fn running_past_the_end_is_done() {
    let chunk = Chunk::new();
    let mut vm = VM::new(chunk);
    assert_eq!(vm.run(), Step::Done(VMResult::Success));
    assert_eq!(vm.run(), Step::Done(VMResult::Success));
    assert_eq!(vm.returned(), None);
}
