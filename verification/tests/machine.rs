use rlox::chunk::Chunk;
use rlox::chunk::Constant;
use rlox::chunk::Op;
use rlox::memory::Heap;
use rlox::object::Obj;
use rlox::value::Value;
use rlox::vm::Arith;
use rlox::vm::InterpretResult;
use rlox::vm::Outcome;
use rlox::vm::Pause;
use rlox::vm::RuntimeError;
use rlox::vm::VM;

fn chunk_of(ops: &[Op]) -> Chunk {
    let mut chunk = Chunk::new();
    for (i, op) in ops.iter().enumerate() {
        chunk.write_op(*op, i + 1);
    }
    chunk
}

fn loaded(ops: &[Op]) -> VM {
    let mut vm = VM::new();
    assert!(vm.load(chunk_of(ops), Heap::new()));
    assert!(vm.is_ready());
    vm
}

#[test]
fn a_new_machine_has_no_program() {
    let vm = VM::new();
    assert!(!vm.is_ready());
    assert!(!vm.is_waiting());
    assert!(vm.chunk().code.is_empty());
    assert_eq!(vm.heap().len(), 0);
}

#[test]
fn load_refuses_what_cannot_be_run() {
    let mut vm = VM::new();
    assert!(!vm.load(chunk_of(&[Op::Add, Op::Return]), Heap::new()));
    assert!(!vm.load(chunk_of(&[Op::Nil]), Heap::new()));
    assert!(!vm.load(Chunk::new(), Heap::new()));
    assert!(!vm.is_ready());
}

#[test]
fn load_refuses_a_string_that_the_heap_does_not_hold() {
    let mut heap = Heap::new();
    let r = heap.manage_str(b"a".to_vec());
    let mut chunk = Chunk::new();
    chunk.add_constant(Constant::String(r));
    chunk.write_op(Op::Constant, 1);
    chunk.write(0, 1);
    chunk.write_op(Op::Return, 1);
    let mut vm = VM::new();
    assert!(!vm.load(chunk, Heap::new()));

    let mut chunk = Chunk::new();
    chunk.add_constant(Constant::String(r));
    chunk.write_op(Op::Constant, 1);
    chunk.write(0, 1);
    chunk.write_op(Op::Return, 1);
    assert!(vm.load(chunk, heap));
    match vm.run() {
        Outcome::Returned(Value::Object(Obj::LString(s))) => assert_eq!(s, r),
        other => panic!("{:?}", other),
    }
}

#[test]
fn a_type_error_ends_the_run_before_later_instructions_count() {
    let mut vm = loaded(&[Op::True, Op::Negate, Op::Add, Op::Return]);
    match vm.run() {
        Outcome::RuntimeFailed { error, line } => {
            assert_eq!(error, RuntimeError::OperandMustBeNumber);
            assert_eq!(line, 2);
        }
        other => panic!("{:?}", other),
    }
    assert!(vm.stack().is_empty());
}

#[test]
fn step_executes_one_instruction() {
    let mut vm = loaded(&[Op::Nil, Op::Not, Op::Return]);
    assert_eq!(vm.ip(), 0);
    assert!(vm.step().is_none());
    assert_eq!(vm.ip(), 1);
    assert!(matches!(vm.stack().as_slice(), [Value::Nil]));
    assert!(vm.step().is_none());
    assert_eq!(vm.ip(), 2);
    assert!(matches!(vm.stack().as_slice(), [Value::Bool(true)]));
    assert!(vm.is_ready());
    assert!(matches!(vm.step(), Some(Outcome::Returned(Value::Bool(true)))));
    assert_eq!(vm.ip(), 3);
    assert!(vm.stack().is_empty());
    assert!(!vm.is_ready());
}

#[test]
fn step_stops_where_the_host_is_needed() {
    let mut vm = numbers(&[Op::Add]);
    assert_eq!(vm.ip(), 2);
    // The machine was resumed by hand: the answer goes in and it runs on.
    assert!(matches!(
        vm.resume(6.0f64.to_bits()),
        Outcome::Suspended(Pause::Literal { constant: 1 })
    ));
    assert_eq!(vm.ip(), 4);
    assert_eq!(vm.stack().len(), 1);
}

#[test]
fn literals_are_pushed_and_returned() {
    assert!(matches!(loaded(&[Op::Nil, Op::Return]).run(), Outcome::Returned(Value::Nil)));
    assert!(matches!(
        loaded(&[Op::True, Op::Return]).run(),
        Outcome::Returned(Value::Bool(true))
    ));
    assert!(matches!(
        loaded(&[Op::False, Op::Return]).run(),
        Outcome::Returned(Value::Bool(false))
    ));
}

#[test]
fn return_takes_the_top_of_the_stack() {
    let mut vm = loaded(&[Op::Nil, Op::True, Op::Return]);
    assert!(matches!(vm.run(), Outcome::Returned(Value::Bool(true))));
    assert!(!vm.is_ready());
}

#[test]
fn not_pushes_whether_the_value_is_falsey() {
    assert!(matches!(
        loaded(&[Op::Nil, Op::Not, Op::Return]).run(),
        Outcome::Returned(Value::Bool(true))
    ));
    assert!(matches!(
        loaded(&[Op::True, Op::Not, Op::Return]).run(),
        Outcome::Returned(Value::Bool(false))
    ));
}

#[test]
fn equal_compares_the_two_topmost_values() {
    assert!(matches!(
        loaded(&[Op::Nil, Op::Nil, Op::Equal, Op::Return]).run(),
        Outcome::Returned(Value::Bool(true))
    ));
    assert!(matches!(
        loaded(&[Op::Nil, Op::False, Op::Equal, Op::Return]).run(),
        Outcome::Returned(Value::Bool(false))
    ));
}

#[test]
fn type_errors_carry_the_line_of_their_instruction() {
    let mut vm = loaded(&[Op::Nil, Op::Negate, Op::Return]);
    match vm.run() {
        Outcome::RuntimeFailed { error, line } => {
            assert_eq!(error, RuntimeError::OperandMustBeNumber);
            assert_eq!(line, 2);
        }
        other => panic!("{:?}", other),
    }
    let mut vm = loaded(&[Op::Nil, Op::True, Op::Less, Op::Return]);
    match vm.run() {
        Outcome::RuntimeFailed { error, line } => {
            assert_eq!(error, RuntimeError::OperandsMustBeNumbers);
            assert_eq!(line, 3);
        }
        other => panic!("{:?}", other),
    }
    let mut vm = loaded(&[Op::Nil, Op::True, Op::Add, Op::Return]);
    match vm.run() {
        Outcome::RuntimeFailed { error, line } => {
            assert_eq!(error, RuntimeError::OperandsMustBeNumbersOrStrings);
            assert_eq!(line, 3);
        }
        other => panic!("{:?}", other),
    }
}

#[test]
fn error_messages_are_those_of_the_language() {
    assert_eq!(RuntimeError::OperandMustBeNumber.message(), "Operand must be a number.");
    assert_eq!(RuntimeError::OperandsMustBeNumbers.message(), "Operands must be numbers.");
    assert_eq!(
        RuntimeError::OperandsMustBeNumbersOrStrings.message(),
        "Operands must be numbers or strings."
    );
    assert_eq!(
        String::from_utf8(RuntimeError::OperandMustBeNumber.render(12)).unwrap(),
        "Operand must be a number.\n[line 12] in script\n"
    );
}

fn numbers(ops: &[Op]) -> VM {
    let mut chunk = Chunk::new();
    chunk.add_constant(Constant::Number(b"6".to_vec()));
    chunk.add_constant(Constant::Number(b"3".to_vec()));
    chunk.write_op(Op::Constant, 1);
    chunk.write(0, 1);
    chunk.write_op(Op::Constant, 1);
    chunk.write(1, 1);
    for op in ops {
        chunk.write_op(*op, 1);
    }
    chunk.write_op(Op::Return, 1);
    let mut vm = VM::new();
    assert!(vm.load(chunk, Heap::new()));
    assert!(matches!(vm.run(), Outcome::Suspended(Pause::Literal { constant: 0 })));
    vm
}

#[test]
fn each_arithmetic_instruction_asks_the_host() {
    for (op, arith) in [
        (Op::Add, Arith::Add),
        (Op::Subtract, Arith::Subtract),
        (Op::Multiply, Arith::Multiply),
        (Op::Divide, Arith::Divide),
    ] {
        let mut vm = numbers(&[op]);
        assert!(matches!(
            vm.resume(6.0f64.to_bits()),
            Outcome::Suspended(Pause::Literal { constant: 1 })
        ));
        match vm.resume(3.0f64.to_bits()) {
            Outcome::Suspended(Pause::Arithmetic { op, a, b }) => {
                assert_eq!(op, arith);
                assert_eq!(a, 6.0f64.to_bits());
                assert_eq!(b, 3.0f64.to_bits());
            }
            other => panic!("{:?}", other),
        }
        match vm.resume(9.5f64.to_bits()) {
            Outcome::Returned(Value::Number(bits)) => assert_eq!(bits, 9.5f64.to_bits()),
            other => panic!("{:?}", other),
        }
    }
}

#[test]
fn comparisons_and_negation_are_decided_by_the_machine() {
    for (ops, expected) in [
        (vec![Op::Less], false),
        (vec![Op::Greater], true),
        (vec![Op::Equal], false),
        (vec![Op::Less, Op::Not], true),
        (vec![Op::Negate, Op::Less], false),
        (vec![Op::Negate, Op::Greater], true),
    ] {
        let mut vm = numbers(&ops);
        vm.resume(6.0f64.to_bits());
        match vm.resume(3.0f64.to_bits()) {
            Outcome::Returned(Value::Bool(b)) => assert_eq!(b, expected, "{:?}", ops),
            other => panic!("{:?}", other),
        }
    }
    let mut vm = numbers(&[Op::Negate]);
    vm.resume(6.0f64.to_bits());
    match vm.resume(3.0f64.to_bits()) {
        Outcome::Returned(Value::Number(bits)) => assert_eq!(bits, (-3.0f64).to_bits()),
        other => panic!("{:?}", other),
    }
}

#[test]
fn peek_reads_the_stack_from_the_top() {
    let mut vm = numbers(&[Op::Nil, Op::Return]);
    vm.resume(6.0f64.to_bits());
    // The machine waits for the second number: the first is on the stack.
    assert!(vm.is_waiting());
    match vm.peek(0) {
        Value::Number(bits) => assert_eq!(bits, 6.0f64.to_bits()),
        other => panic!("{:?}", other),
    }
}

#[test]
fn concatenation_makes_a_new_string_on_the_heap() {
    let mut heap = Heap::new();
    let a = heap.manage_str(b"st".to_vec());
    let b = heap.manage_str(b"r".to_vec());
    let mut chunk = Chunk::new();
    chunk.add_constant(Constant::String(a));
    chunk.add_constant(Constant::String(b));
    chunk.write_op(Op::Constant, 1);
    chunk.write(0, 1);
    chunk.write_op(Op::Constant, 1);
    chunk.write(1, 1);
    chunk.write_op(Op::Add, 1);
    chunk.write_op(Op::Return, 1);
    let mut vm = VM::new();
    assert!(vm.load(chunk, heap));
    match vm.run() {
        Outcome::Returned(Value::Object(Obj::LString(r))) => {
            assert_eq!(r.index, 2);
            assert_eq!(r.obj(vm.heap()).as_slice(), b"str");
        }
        other => panic!("{:?}", other),
    }
    assert_eq!(vm.heap().len(), 3);
}

#[test]
fn outcomes_map_to_result_classes() {
    assert_eq!(Outcome::Returned(Value::Nil).result(), Some(InterpretResult::Success));
    assert_eq!(
        Outcome::RuntimeFailed { error: RuntimeError::OperandMustBeNumber, line: 1 }.result(),
        Some(InterpretResult::RuntimeError)
    );
    assert_eq!(Outcome::Suspended(Pause::Literal { constant: 0 }).result(), None);
}

#[test]
fn compile_makes_the_machine_ready_without_running() {
    let mut vm = VM::new();
    let source = "1 + nil".to_string();
    assert!(vm.compile(&source).is_none());
    assert!(vm.is_ready());
    assert_eq!(vm.ip(), 0);
    assert!(vm.stack().is_empty());
    assert_eq!(vm.chunk().code, vec![0, 0, 1, 7, 13]);
    assert!(matches!(vm.run(), Outcome::Suspended(Pause::Literal { constant: 0 })));
    assert!(vm.is_waiting());
    vm.supply(1.0f64.to_bits());
    assert!(vm.is_ready());
    assert_eq!(vm.stack().len(), 1);
    assert_eq!(vm.ip(), 2);
    assert!(vm.step().is_none());
    match vm.step() {
        Some(Outcome::RuntimeFailed { error, line }) => {
            assert_eq!(error, RuntimeError::OperandsMustBeNumbersOrStrings);
            assert_eq!(line, 1);
        }
        other => panic!("{:?}", other),
    }
}

#[test]
fn compile_reports_the_first_error_and_leaves_the_machine() {
    let mut vm = loaded(&[Op::Nil, Op::Return]);
    let source = "(1".to_string();
    let error = vm.compile(&source).unwrap();
    assert_eq!(error.message.message(), "Expect ')' after expression.");
    assert!(vm.is_ready());
    assert_eq!(vm.chunk().code, vec![1, 13]);
}
