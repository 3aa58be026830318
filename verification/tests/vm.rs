use rslox::chunk::Chunk;
use rslox::compiler::compile;
use rslox::value::Operation;
use rslox::value::Value;
use rslox::vm::interpret;
use rslox::vm::InterpretResult;
use rslox::vm::STACK_MAX;
use rslox::vm::VM;

fn number(text: &str) -> Value {
    Value { bits: text.parse::<f64>().unwrap().to_bits() }
}

fn num(value: Value) -> f64 {
    f64::from_bits(value.bits)
}

fn val(x: f64) -> Value {
    Value { bits: x.to_bits() }
}

fn arith(op: Operation) -> Value {
    match op {
        Operation::Negate(a) => val(-num(a)),
        Operation::Add(a, b) => val(num(a) + num(b)),
        Operation::Subtract(a, b) => val(num(a) - num(b)),
        Operation::Multiply(a, b) => val(num(a) * num(b)),
        Operation::Divide(a, b) => val(num(a) / num(b)),
    }
}

fn chunk_of(code: &[u8], constants: &[f64]) -> Chunk {
    let mut chunk = Chunk::new();
    for byte in code {
        chunk.write(*byte, 1);
    }
    chunk.constants = constants.iter().map(|x| val(*x)).collect();
    chunk
}

fn run(code: &[u8], constants: &[f64]) -> (InterpretResult, Option<f64>) {
    let mut vm = VM::new();
    let result = vm.interpret(chunk_of(code, constants), &arith);
    (result, vm.result().map(num))
}

fn eval(source: &str) -> (InterpretResult, Option<f64>) {
    let mut vm = VM::new();
    let result = interpret(&mut vm, source, &number, &arith);
    (result, vm.result().map(num))
}

#[test]
fn a_new_machine_has_no_result() {
    let vm = VM::new();
    assert_eq!(vm.result(), None);
    assert!(vm.diagnostics().is_empty());
}

#[test]
fn return_yields_the_top_of_the_stack() {
    assert_eq!(run(&[1, 0, 0], &[1.5]), (InterpretResult::Success, Some(1.5)));
    assert_eq!(run(&[1, 0, 1, 1, 0], &[1.5, 2.5]), (InterpretResult::Success, Some(2.5)));
}

#[test]
fn code_that_ends_without_return_is_done_without_a_value() {
    assert_eq!(run(&[], &[]), (InterpretResult::Success, None));
    assert_eq!(run(&[1, 0], &[1.5]), (InterpretResult::Success, None));
}

#[test]
fn nothing_is_executed_after_return() {
    assert_eq!(run(&[1, 0, 0, 200], &[1.5]), (InterpretResult::Success, Some(1.5)));
}

#[test]
fn negate() {
    assert_eq!(run(&[1, 0, 3, 0], &[1.5]), (InterpretResult::Success, Some(-1.5)));
}

#[test]
fn binary_operations_take_the_left_operand_from_below() {
    assert_eq!(run(&[1, 0, 1, 1, 4, 0], &[8.0, 2.0]), (InterpretResult::Success, Some(10.0)));
    assert_eq!(run(&[1, 0, 1, 1, 5, 0], &[8.0, 2.0]), (InterpretResult::Success, Some(6.0)));
    assert_eq!(run(&[1, 0, 1, 1, 6, 0], &[8.0, 2.0]), (InterpretResult::Success, Some(16.0)));
    assert_eq!(run(&[1, 0, 1, 1, 7, 0], &[8.0, 2.0]), (InterpretResult::Success, Some(4.0)));
}

#[test]
fn the_operation_is_what_the_given_function_does() {
    let mut vm = VM::new();
    let tagged = |op: Operation| match op {
        Operation::Negate(a) => Value { bits: a.bits + 1000 },
        Operation::Add(a, b) => Value { bits: 10 * a.bits + b.bits },
        Operation::Subtract(a, b) => Value { bits: 20 * a.bits + b.bits },
        Operation::Multiply(a, b) => Value { bits: 30 * a.bits + b.bits },
        Operation::Divide(a, b) => Value { bits: 40 * a.bits + b.bits },
    };
    let mut chunk = Chunk::new();
    chunk.write_constant(Value { bits: 3 }, 1);
    chunk.write_constant(Value { bits: 4 }, 1);
    chunk.write(5, 1);
    chunk.write(3, 1);
    chunk.write(0, 1);
    assert_eq!(vm.interpret(chunk, &tagged), InterpretResult::Success);
    assert_eq!(vm.result(), Some(Value { bits: 1064 }));
}

#[test]
fn constant_long_has_a_24_bit_index_most_significant_byte_first() {
    let mut constants = vec![0.0; 0x01_02_04];
    constants[0x01_02_03] = 7.0;
    constants[3] = 1.0;
    assert_eq!(run(&[2, 1, 2, 3, 0], &constants), (InterpretResult::Success, Some(7.0)));
    assert_eq!(run(&[2, 0, 0, 3, 0], &constants), (InterpretResult::Success, Some(1.0)));
}

#[test]
fn a_byte_that_is_no_instruction_is_a_runtime_error() {
    assert_eq!(run(&[8], &[]), (InterpretResult::RuntimeError, None));
    assert_eq!(run(&[255], &[]), (InterpretResult::RuntimeError, None));
    assert_eq!(run(&[1, 0, 1, 0, 4, 200], &[1.0]), (InterpretResult::RuntimeError, None));
}

#[test]
fn code_that_ends_with_an_out_of_range_byte_is_a_runtime_error() {
    let mut chunk = compile("1 + 2", &number).unwrap();
    let last = chunk.code.len() - 1;
    chunk.code[last] = 0xEE;
    let mut vm = VM::new();
    assert_eq!(vm.interpret(chunk, &arith), InterpretResult::RuntimeError);
    assert_eq!(vm.result(), None);
}

#[test]
fn a_pop_from_an_empty_stack_is_a_runtime_error() {
    assert_eq!(run(&[0], &[]), (InterpretResult::RuntimeError, None));
    assert_eq!(run(&[3, 0], &[]), (InterpretResult::RuntimeError, None));
    assert_eq!(run(&[4, 0], &[]), (InterpretResult::RuntimeError, None));
    assert_eq!(run(&[1, 0, 4, 0], &[1.0]), (InterpretResult::RuntimeError, None));
    assert_eq!(run(&[1, 0, 7, 0], &[1.0]), (InterpretResult::RuntimeError, None));
}

#[test]
fn a_missing_operand_is_a_runtime_error() {
    assert_eq!(run(&[1], &[1.0]), (InterpretResult::RuntimeError, None));
    assert_eq!(run(&[2], &[1.0]), (InterpretResult::RuntimeError, None));
    assert_eq!(run(&[2, 0], &[1.0]), (InterpretResult::RuntimeError, None));
    assert_eq!(run(&[2, 0, 0], &[1.0]), (InterpretResult::RuntimeError, None));
}

#[test]
fn an_index_beyond_the_pool_is_a_runtime_error() {
    assert_eq!(run(&[1, 0, 0], &[]), (InterpretResult::RuntimeError, None));
    assert_eq!(run(&[1, 1, 0], &[1.0]), (InterpretResult::RuntimeError, None));
    assert_eq!(run(&[2, 0, 0, 1, 0], &[1.0]), (InterpretResult::RuntimeError, None));
    assert_eq!(run(&[2, 1, 0, 0, 0], &[1.0]), (InterpretResult::RuntimeError, None));
}

#[test]
fn the_stack_holds_its_capacity_and_no_more() {
    let mut code = Vec::new();
    for _ in 0..STACK_MAX {
        code.extend_from_slice(&[1, 0]);
    }
    let mut full = code.clone();
    full.push(0);
    assert_eq!(run(&full, &[1.0]), (InterpretResult::Success, Some(1.0)));
    code.extend_from_slice(&[1, 0, 0]);
    assert_eq!(run(&code, &[1.0]), (InterpretResult::RuntimeError, None));
}

#[test]
fn the_machine_can_be_used_again() {
    let mut vm = VM::new();
    // leaves two values on the stack
    let leaves_two = chunk_of(&[1, 0, 1, 0, 1, 0, 0], &[5.0]);
    assert_eq!(vm.interpret(leaves_two, &arith), InterpretResult::Success);
    assert_eq!(vm.result().map(num), Some(5.0));
    // an Add on the stack of a new run finds nothing
    assert_eq!(vm.interpret(chunk_of(&[4, 0], &[]), &arith), InterpretResult::RuntimeError);
    assert_eq!(vm.result(), None);
    assert_eq!(vm.interpret(chunk_of(&[1, 0, 0], &[6.0]), &arith), InterpretResult::Success);
    assert_eq!(vm.result().map(num), Some(6.0));
    assert_eq!(vm.interpret(chunk_of(&[], &[]), &arith), InterpretResult::Success);
    assert_eq!(vm.result(), None);
}

#[test]
fn interpret_compiles_and_runs() {
    assert_eq!(eval("1 + 2"), (InterpretResult::Success, Some(3.0)));
    assert_eq!(eval("2 + 3 * 4"), (InterpretResult::Success, Some(14.0)));
    assert_eq!(eval("(2 + 3) * 4"), (InterpretResult::Success, Some(20.0)));
    assert_eq!(eval("-(1 + 2)"), (InterpretResult::Success, Some(-3.0)));
    assert_eq!(eval("8 - 3 - 2"), (InterpretResult::Success, Some(3.0)));
    assert_eq!(eval("16 / 4 / 2"), (InterpretResult::Success, Some(2.0)));
    assert_eq!(eval("1 / 4"), (InterpretResult::Success, Some(0.25)));
    assert_eq!(eval("0.1 + 0.2"), (InterpretResult::Success, Some(0.1 + 0.2)));
    assert_eq!(eval("1 / 0"), (InterpretResult::Success, Some(f64::INFINITY)));
}

#[test]
fn interpret_reports_a_compile_error_and_runs_nothing() {
    let mut vm = VM::new();
    assert_eq!(interpret(&mut vm, "1 + 2", &number, &arith), InterpretResult::Success);
    assert_eq!(interpret(&mut vm, "1 +", &number, &arith), InterpretResult::CompileError);
    assert_eq!(vm.result(), None);
    assert_eq!(vm.diagnostics().len(), 1);
    assert_eq!(vm.diagnostics()[0].render(), "[line 1] Error at end: Expect expression");
    assert_eq!(interpret(&mut vm, "4", &number, &arith), InterpretResult::Success);
    assert!(vm.diagnostics().is_empty());
    assert_eq!(vm.result().map(num), Some(4.0));
}

#[test]
fn an_expression_that_needs_the_whole_stack_runs() {
    // 1 - (1 - (1 - ... )) with 256 literals needs 256 values on the stack
    let mut source = String::new();
    for _ in 0..STACK_MAX - 1 {
        source.push_str("1 - (");
    }
    source.push('1');
    for _ in 0..STACK_MAX - 1 {
        source.push(')');
    }
    assert_eq!(eval(&source), (InterpretResult::Success, Some(0.0)));
}

#[test]
fn an_expression_that_needs_more_than_the_stack_is_a_runtime_error() {
    let mut source = String::new();
    for _ in 0..STACK_MAX {
        source.push_str("1 - (");
    }
    source.push('1');
    for _ in 0..STACK_MAX {
        source.push(')');
    }
    assert_eq!(eval(&source), (InterpretResult::RuntimeError, None));
}

#[test]
fn more_than_256_literals_still_evaluate() {
    let mut source = String::from("0");
    let mut sum = 0.0;
    for i in 1..600 {
        source.push_str(&format!(" + {}", i));
        sum += i as f64;
    }
    assert_eq!(eval(&source), (InterpretResult::Success, Some(sum)));
}

#[test]
fn the_long_form_loads_the_right_constants() {
    // the literals 256.. are loaded in the long form; subtraction tells them apart
    let mut source = String::from("0");
    for i in 1..300 {
        source.push_str(&format!(" + {}", i));
    }
    source.push_str(" - 299 - 298");
    let expected = (0..300).map(|i| i as f64).sum::<f64>() - 299.0 - 298.0;
    assert_eq!(eval(&source), (InterpretResult::Success, Some(expected)));
}
