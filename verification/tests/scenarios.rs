use rlox::vm::Arith;
use rlox::vm::InterpretResult;
use rlox::vm::Outcome;
use rlox::vm::Pause;
use rlox::vm::VM;
use rlox::chunk::Constant;
use rlox::value::print_value;
use rlox::value::Value;

/// What a program printed, or the message of the error that ended it.
struct Run {
    result: InterpretResult,
    output: String,
    error: String,
}

fn answer(vm: &VM, pause: Pause) -> u64 {
    match pause {
        Pause::Literal { constant } => match &vm.chunk().constants[constant as usize] {
            Constant::Number(text) => {
                let text = std::str::from_utf8(text).unwrap();
                text.parse::<f64>().unwrap().to_bits()
            }
            Constant::String(_) => panic!("the machine asked for the value of a string"),
        },
        Pause::Arithmetic { op, a, b } => {
            let a = f64::from_bits(a);
            let b = f64::from_bits(b);
            let c = match op {
                Arith::Add => a + b,
                Arith::Subtract => a - b,
                Arith::Multiply => a * b,
                Arith::Divide => a / b,
            };
            c.to_bits()
        }
    }
}

fn run(source: &str) -> Run {
    let mut vm = VM::new();
    let source = source.to_string();
    let mut outcome = vm.interpret(&source);
    loop {
        match outcome {
            Outcome::Suspended(pause) => {
                let bits = answer(&vm, pause);
                outcome = vm.resume(bits);
            }
            Outcome::CompileFailed(diagnostic) => {
                return Run {
                    result: InterpretResult::CompileError,
                    output: String::new(),
                    error: diagnostic.message.message().to_string(),
                };
            }
            Outcome::RuntimeFailed { error, line: _ } => {
                return Run {
                    result: InterpretResult::RuntimeError,
                    output: String::new(),
                    error: error.message().to_string(),
                };
            }
            Outcome::Returned(value) => {
                let output = match value {
                    Value::Number(bits) => format!("{}", f64::from_bits(bits)),
                    other => String::from_utf8(print_value(&other, vm.heap()).unwrap()).unwrap(),
                };
                return Run { result: InterpretResult::Success, output, error: String::new() };
            }
        }
    }
}

#[test]
fn addition_and_multiplication_respect_precedence() {
    let r = run("1 + 2 * 3");
    assert_eq!(r.result, InterpretResult::Success);
    assert_eq!(r.output, "7");
}

#[test]
fn grouping_overrides_precedence() {
    let r = run("(1 + 2) * 3");
    assert_eq!(r.result, InterpretResult::Success);
    assert_eq!(r.output, "9");
}

#[test]
fn mixed_comparison_and_equality() {
    let r = run("!(5 - 4 > 3 * 2 == !nil)");
    assert_eq!(r.result, InterpretResult::Success);
    assert_eq!(r.output, "true");
}

#[test]
fn strings_concatenate() {
    let r = run("\"st\" + \"r\"");
    assert_eq!(r.result, InterpretResult::Success);
    assert_eq!(r.output, "str");
}

#[test]
fn negating_a_boolean_is_a_runtime_error() {
    let r = run("-true");
    assert_eq!(r.result, InterpretResult::RuntimeError);
    assert_eq!(r.error, "Operand must be a number.");
}

#[test]
fn missing_operand_is_a_compile_error() {
    let r = run("1 +");
    assert_eq!(r.result, InterpretResult::CompileError);
    assert_eq!(r.error, "Expect expression.");
}

#[test]
fn not_of_zero_is_false_because_zero_is_truthy() {
    let r = run("!0");
    assert_eq!(r.result, InterpretResult::Success);
    assert_eq!(r.output, "false");
}

#[test]
fn adding_a_number_to_a_string_is_a_runtime_error() {
    let r = run("\"a\" + 1");
    assert_eq!(r.result, InterpretResult::RuntimeError);
    assert_eq!(r.error, "Operands must be numbers or strings.");
    let r = run("1 + \"a\"");
    assert_eq!(r.result, InterpretResult::RuntimeError);
    assert_eq!(r.error, "Operands must be numbers or strings.");
    let r = run("nil + nil");
    assert_eq!(r.result, InterpretResult::RuntimeError);
    assert_eq!(r.error, "Operands must be numbers or strings.");
}

#[test]
fn subtraction_groups_to_the_left() {
    let r = run("1 - 2 - 3");
    assert_eq!(r.result, InterpretResult::Success);
    assert_eq!(r.output, "-4");
    let r = run("8 / 4 / 2");
    assert_eq!(r.output, "1");
}

#[test]
fn comparison_chain_compares_a_boolean_with_a_number() {
    let r = run("1 < 2 < 3");
    assert_eq!(r.result, InterpretResult::RuntimeError);
    assert_eq!(r.error, "Operands must be numbers.");
}

#[test]
fn arithmetic_on_two_numbers_is_that_of_the_floats() {
    let numbers = [0.0f64, 1.0, 2.0, 3.0, 0.5, 0.1, 0.2, 7.25, 10.0, 1234.5678, 1e15];
    for a in numbers {
        for b in numbers {
            let cases = [("+", a + b), ("-", a - b), ("*", a * b), ("/", a / b)];
            for (op, expected) in cases {
                let r = run(&format!("{} {} {}", a, op, b));
                assert_eq!(r.result, InterpretResult::Success);
                assert_eq!(r.output, format!("{}", expected), "{} {} {}", a, op, b);
            }
        }
    }
}

#[test]
fn relations_on_two_numbers_are_those_of_the_floats() {
    let numbers = [0.0f64, 1.0, 2.0, 0.5, 0.1, 0.25, 10.0, 1234.5678];
    for a in numbers {
        for b in numbers {
            let cases = [
                ("<", a < b),
                (">", a > b),
                ("<=", a <= b),
                (">=", a >= b),
                ("==", a == b),
                ("!=", a != b),
            ];
            for (op, expected) in cases {
                let r = run(&format!("{} {} {}", a, op, b));
                assert_eq!(r.result, InterpretResult::Success);
                assert_eq!(r.output, format!("{}", expected), "{} {} {}", a, op, b);
            }
        }
    }
}

#[test]
fn relations_with_negative_operands() {
    assert_eq!(run("-1 < 1").output, "true");
    assert_eq!(run("-1 < -2").output, "false");
    assert_eq!(run("-2 < -1").output, "true");
    assert_eq!(run("-0 == 0").output, "true");
    assert_eq!(run("-0 < 0").output, "false");
    assert_eq!(run("1 > -1").output, "true");
    assert_eq!(run("-1 >= -1").output, "true");
}

#[test]
fn division_follows_the_floats_at_zero() {
    assert_eq!(run("1 / 0").output, "inf");
    assert_eq!(run("-1 / 0").output, "-inf");
    assert_eq!(run("0 / 0").output, "NaN");
    assert_eq!(run("0 / 0 == 0 / 0").output, "false");
    assert_eq!(run("0 / 0 != 0 / 0").output, "true");
    assert_eq!(run("0 / 0 < 1").output, "false");
    assert_eq!(run("0 / 0 >= 1").output, "true");
}

#[test]
fn numbers_print_in_the_default_format() {
    assert_eq!(run("7").output, "7");
    assert_eq!(run("7.50").output, "7.5");
    assert_eq!(run("0.1 + 0.2").output, "0.30000000000000004");
    assert_eq!(run("-0").output, "-0");
}

#[test]
fn operands_are_evaluated_left_to_right() {
    assert_eq!(run("5 - 3").output, "2");
    assert_eq!(run("6 / 3").output, "2");
    assert_eq!(run("\"a\" + \"b\"").output, "ab");
    assert_eq!(run("3 > 2").output, "true");
}

#[test]
fn values_of_different_kinds_are_not_equal() {
    assert_eq!(run("nil == false").output, "false");
    assert_eq!(run("nil == nil").output, "true");
    assert_eq!(run("0 == false").output, "false");
    assert_eq!(run("\"1\" == 1").output, "false");
    assert_eq!(run("true == true").output, "true");
    assert_eq!(run("true != false").output, "true");
}

#[test]
fn strings_are_equal_by_their_text() {
    assert_eq!(run("\"a\" == \"a\"").output, "true");
    assert_eq!(run("\"a\" == \"b\"").output, "false");
    assert_eq!(run("\"a\" + \"b\" == \"ab\"").output, "true");
    assert_eq!(run("\"a\" + \"b\" == \"a\" + \"b\"").output, "true");
    assert_eq!(run("\"\" + \"\" == \"\"").output, "true");
    assert_eq!(run("\"ab\" != \"a\" + \"c\"").output, "true");
}

#[test]
fn literals_print_as_written() {
    assert_eq!(run("nil").output, "nil");
    assert_eq!(run("true").output, "true");
    assert_eq!(run("false").output, "false");
    assert_eq!(run("\"two words\"").output, "two words");
    assert_eq!(run("\"\"").output, "");
}

#[test]
fn runtime_errors_of_each_operator() {
    for source in ["nil - 1", "1 * nil", "true / 2", "nil < 1", "1 > \"a\"", "nil <= nil", "\"a\" >= \"b\""] {
        let r = run(source);
        assert_eq!(r.result, InterpretResult::RuntimeError, "{}", source);
        assert_eq!(r.error, "Operands must be numbers.", "{}", source);
    }
    for source in ["-nil", "-\"a\"", "-false"] {
        let r = run(source);
        assert_eq!(r.result, InterpretResult::RuntimeError, "{}", source);
        assert_eq!(r.error, "Operand must be a number.", "{}", source);
    }
}

#[test]
fn runtime_error_names_the_line_of_the_instruction() {
    let mut vm = VM::new();
    let source = "1 +\n\n nil".to_string();
    let mut outcome = vm.interpret(&source);
    while let Outcome::Suspended(pause) = outcome {
        let bits = answer(&vm, pause);
        outcome = vm.resume(bits);
    }
    match outcome {
        Outcome::RuntimeFailed { error, line } => {
            assert_eq!(line, 3);
            assert_eq!(
                String::from_utf8(error.render(line)).unwrap(),
                "Operands must be numbers or strings.\n[line 3] in script\n"
            );
        }
        other => panic!("{:?}", other),
    }
    assert!(!vm.is_waiting());
    assert!(!vm.is_ready());
    assert_eq!(outcome.result(), Some(InterpretResult::RuntimeError));
}

#[test]
fn unterminated_string_does_not_compile() {
    let r = run("\"abc");
    assert_eq!(r.result, InterpretResult::CompileError);
    assert_eq!(r.error, "Unknown token");
}

#[test]
fn other_constructs_do_not_compile() {
    for source in ["", "print 1", "var a", "a", "1 2", "(1", "1)", "{}", "1 = 2", "1 and 2", "."] {
        let r = run(source);
        assert_eq!(r.result, InterpretResult::CompileError, "{}", source);
    }
}

fn sum_of(terms: usize) -> String {
    let mut source = String::from("1");
    for _ in 1..terms {
        source.push_str(" + 1");
    }
    source
}

#[test]
fn a_program_may_hold_256_constants() {
    let r = run(&sum_of(256));
    assert_eq!(r.result, InterpretResult::Success);
    assert_eq!(r.output, "256");
}

#[test]
fn a_program_may_not_hold_257_constants() {
    let r = run(&sum_of(257));
    assert_eq!(r.result, InterpretResult::CompileError);
    assert_eq!(r.error, "Too many constants in one chunk");
}

#[test]
fn deep_nesting_grows_the_stack_beyond_its_first_room() {
    let depth = 1000;
    let mut source = String::new();
    for _ in 0..depth {
        source.push_str("nil == (");
    }
    source.push_str("nil");
    for _ in 0..depth {
        source.push(')');
    }
    let r = run(&source);
    assert_eq!(r.result, InterpretResult::Success);
    // nil == nil is true, nil == true is false, nil == false is false, ...
    assert_eq!(r.output, "false");
}

#[test]
fn the_machine_interprets_one_program_after_another() {
    let mut vm = VM::new();
    let first = "\"a\" + \"b\"".to_string();
    let outcome = vm.interpret(&first);
    assert!(matches!(outcome, Outcome::Returned(Value::Object(_))));
    assert_eq!(vm.heap().len(), 3);
    let second = "nil".to_string();
    let outcome = vm.interpret(&second);
    assert!(matches!(outcome, Outcome::Returned(Value::Nil)));
    assert_eq!(outcome.result(), Some(InterpretResult::Success));
    // Each program has its own heap.
    assert_eq!(vm.heap().len(), 0);
    vm.free_objects();
    assert_eq!(vm.heap().len(), 0);
    assert!(vm.chunk().code.is_empty());
}

#[test]
fn a_program_that_does_not_compile_leaves_the_machine_as_it_was() {
    let mut vm = VM::new();
    let first = "\"a\"".to_string();
    vm.interpret(&first);
    let code = vm.chunk().code.clone();
    let broken = "1 +".to_string();
    let outcome = vm.interpret(&broken);
    assert_eq!(outcome.result(), Some(InterpretResult::CompileError));
    assert_eq!(vm.chunk().code, code);
    assert_eq!(vm.heap().len(), 1);
}

#[test]
fn the_machine_asks_for_literals_and_arithmetic() {
    let mut vm = VM::new();
    let source = "2 * 0.5".to_string();
    let outcome = vm.interpret(&source);
    assert!(matches!(outcome, Outcome::Suspended(Pause::Literal { constant: 0 })));
    assert!(vm.is_waiting());
    assert_eq!(outcome.result(), None);
    let outcome = vm.resume(2.0f64.to_bits());
    assert!(matches!(outcome, Outcome::Suspended(Pause::Literal { constant: 1 })));
    let outcome = vm.resume(0.5f64.to_bits());
    match outcome {
        Outcome::Suspended(Pause::Arithmetic { op, a, b }) => {
            assert_eq!(op, Arith::Multiply);
            assert_eq!(a, 2.0f64.to_bits());
            assert_eq!(b, 0.5f64.to_bits());
        }
        other => panic!("{:?}", other),
    }
    // Whatever the host answers is the result.
    let outcome = vm.resume(42.0f64.to_bits());
    match outcome {
        Outcome::Returned(Value::Number(bits)) => assert_eq!(bits, 42.0f64.to_bits()),
        other => panic!("{:?}", other),
    }
    assert!(!vm.is_waiting());
}
