use cecile_vm::error::{
    AttributeError, Error, ErrorS, IndexError, OverflowError, Span, TypeError,
};
use cecile_vm::heap::Heap;
use cecile_vm::object::{
    ArrayMethod, Chunk, Native, Object, ObjectFunction, StringObject, ENTRY_BYTES, OBJECT_BYTES,
    SPAN_BYTES, VALUE_BYTES,
};
use cecile_vm::op;
use cecile_vm::semantics::{Arithmetic, Comparison, Step, STACK_MAX};
use cecile_vm::value::{Type, Value};
use cecile_vm::vm::VM;

fn machine() -> VM {
    VM::new(Heap::new())
}

fn text(vm: &mut VM, value: &str) -> Value {
    let object = Object::String(StringObject { value: value.to_string() });
    Value::Object(vm.allocator_mut().allocate(object))
}

fn number(n: f64) -> Value {
    Value::Number(n.to_bits())
}

fn span(at: usize) -> Span {
    Span { start: at, end: at + 1 }
}

fn function_with(
    vm: &mut VM,
    name: &str,
    arity_count: u8,
    upvalue_count: u16,
    code: &[u8],
    constants: Vec<Value>,
) -> usize {
    let name = match text(vm, name) {
        Value::Object(place) => place,
        _ => unreachable!(),
    };
    let chunk = Chunk {
        code: code.to_vec(),
        constants,
        spans: (0..code.len()).map(span).collect(),
    };
    vm.allocator_mut().allocate(Object::Function(ObjectFunction {
        name,
        arity_count,
        upvalue_count,
        chunk,
    }))
}

fn program(vm: &mut VM, code: &[u8], constants: Vec<Value>) -> usize {
    function_with(vm, "main", 0, 0, code, constants)
}

fn shown(vm: &VM, value: Value) -> String {
    match value {
        Value::Nil => "nil".to_string(),
        Value::Bool(truth) => format!("{}", truth),
        Value::Number(bits) => format!("{}", f64::from_bits(bits)),
        Value::Object(place) => match vm.allocator().get(place) {
            Some(Object::String(string)) => string.value.clone(),
            Some(object) => format!("<{}>", object.type_().text()),
            None => "<gone>".to_string(),
        },
    }
}

/// Runs a function to its end, and gives back what it printed and how it ended.
fn drive(vm: &mut VM, function: usize) -> (String, Result<Step, ErrorS>) {
    let mut printed = String::new();
    let mut result = vm.run_function(function, 1000);
    loop {
        match result {
            Ok(Step::Next) => {}
            Ok(Step::Compute { op, lhs, rhs }) => {
                let (a, b) = (f64::from_bits(lhs), f64::from_bits(rhs));
                let value = match op {
                    Arithmetic::Add => a + b,
                    Arithmetic::Sub => a - b,
                    Arithmetic::Mul => a * b,
                    Arithmetic::Div => a / b,
                    Arithmetic::Rem => a % b,
                };
                assert_eq!(vm.push_checked(number(value)), Ok(Step::Next));
            }
            Ok(Step::Print { value, newline }) => {
                printed.push_str(&shown(vm, value));
                if newline {
                    printed.push('\n');
                }
            }
            Ok(Step::Clock) => {
                assert_eq!(vm.push_checked(number(12.5)), Ok(Step::Next));
            }
            other => return (printed, other),
        }
        result = vm.resume(1000);
    }
}

fn prints(vm: &mut VM, code: &[u8], constants: Vec<Value>) -> String {
    let mut whole = code.to_vec();
    whole.extend([op::NIL, op::RETURN]);
    let function = program(vm, &whole, constants);
    let (printed, result) = drive(vm, function);
    assert_eq!(result, Ok(Step::Finished));
    assert_eq!(vm.stack_top(), 0);
    printed
}

fn raises(vm: &mut VM, code: &[u8], constants: Vec<Value>) -> ErrorS {
    let function = program(vm, code, constants);
    match drive(vm, function).1 {
        Err(error) => error,
        Ok(step) => panic!("{:?}", step),
    }
}

fn gets_stuck(vm: &mut VM, code: &[u8], constants: Vec<Value>) {
    let function = program(vm, code, constants);
    assert_eq!(drive(vm, function).1, Ok(Step::Stuck));
}

fn infix(op: &str, lt: &str, rt: &str) -> Error {
    Error::TypeError(TypeError::UnsupportedOperandInfix {
        op: op.to_string(),
        lt_type: lt.to_string(),
        rt_type: rt.to_string(),
    })
}

fn arity(name: &str, expected: usize, actual: usize) -> Error {
    Error::TypeError(TypeError::ArityMisMatch { name: name.to_string(), expected, actual })
}

fn no_attribute(type_: &str, name: &str) -> Error {
    Error::AttributeError(AttributeError::NoSuchAttribute {
        type_: type_.to_string(),
        name: name.to_string(),
    })
}

fn object(vm: &VM, value: Value) -> &Object {
    match value {
        Value::Object(place) => vm.allocator().get(place).unwrap(),
        _ => panic!("{:?}", value),
    }
}

// ---------------------------------------------------------------------------
// Setting up.
// ---------------------------------------------------------------------------

#[test]
fn a_new_machine_has_two_globals() {
    let mut vm = machine();
    assert_eq!(vm.stack().len(), STACK_MAX);
    assert_eq!(STACK_MAX, 64 * 256);
    assert_eq!(vm.stack_top(), 0);
    assert!(vm.stack().iter().all(|value| *value == Value::Nil));
    let clock = text(&mut vm, "clock");
    let random = text(&mut vm, "random_number");
    let printed = prints(
        &mut vm,
        &[
            op::GET_GLOBAL, 0, op::PRINT_LN,
            op::GET_GLOBAL, 1, op::PRINT_LN,
        ],
        vec![clock, random],
    );
    assert_eq!(printed, "<function>\n<function>\n");
}

#[test]
fn a_new_machine_runs_nothing() {
    let mut vm = machine();
    assert_eq!(vm.next_gc(), 1024 * 1024);
    assert_eq!(vm.frames().len(), 0);
    assert_eq!(vm.open_upvalues().len(), 0);
    assert!(vm.allocator().get(vm.frame().closure).is_none());
    assert_eq!(vm.resume(1), Ok(Step::Stuck));
}

#[test]
fn a_run_does_not_depend_on_the_last_one() {
    // One machine has raised an error in a call, with values on the stack; the
    // other has run to its end.
    let after = |byte: u8| {
        let mut vm = machine();
        let f = function_with(&mut vm, "f", 0, 0, &[op::NIL, op::TRUE, byte, op::RETURN], vec![]);
        let x = text(&mut vm, "x");
        let first = program(
            &mut vm,
            &[
                op::TRUE, op::DEFINE_GLOBAL, 1, op::FALSE, op::FALSE, op::CLOSURE, 0, op::CALL, 0,
                op::NIL, op::RETURN,
            ],
            vec![Value::Object(f), x],
        );
        let failed = drive(&mut vm, first).1.is_err();
        assert_eq!(failed, byte == op::ADD);
        let x = text(&mut vm, "x");
        let second = program(
            &mut vm,
            &[op::NIL, op::GET_GLOBAL, 0, op::GET_LOCAL, 1, op::PRINT, op::PRINT, op::RETURN],
            vec![x],
        );
        (drive(&mut vm, second), vm.stack_top(), vm.frames().len())
    };
    assert_eq!(after(op::ADD), after(op::EQUAL));
    assert_eq!(after(op::ADD), (("truetrue".to_string(), Ok(Step::Finished)), 0, 0));
}

#[test]
fn the_errors_of_the_compiler_come_back_as_they_are() {
    let mut vm = machine();
    let errors = vec![(infix("+", "int", "nil"), span(3)), (arity("f", 1, 2), span(5))];
    let again = vec![(infix("+", "int", "nil"), span(3)), (arity("f", 1, 2), span(5))];
    let objects = vm.allocator().len();
    assert_eq!(vm.run(Err(errors), 1000), Err(again));
    assert_eq!(vm.allocator().len(), objects);
}

#[test]
fn an_error_of_a_run_stands_alone() {
    let mut vm = machine();
    let function = program(&mut vm, &[op::NIL, op::TRUE, op::ADD], vec![]);
    assert_eq!(vm.run(Ok(function), 1000), Err(vec![(infix("+", "nil", "bool"), span(2))]));
}

#[test]
fn a_program_runs_to_its_end() {
    let mut vm = machine();
    let function = program(&mut vm, &[op::NIL, op::RETURN], vec![]);
    assert_eq!(vm.run(Ok(function), 1000), Ok(Step::Finished));
}

#[test]
fn runs_can_be_cut() {
    let code = [op::TRUE, op::FALSE, op::POP, op::NIL, op::RETURN];
    let mut whole = machine();
    let function = program(&mut whole, &code, vec![]);
    assert_eq!(whole.run_function(function, 4), Ok(Step::Next));
    let mut cut = machine();
    let function = program(&mut cut, &code, vec![]);
    assert_eq!(cut.run_function(function, 1), Ok(Step::Next));
    assert_eq!(cut.frame().ip, 1);
    assert_eq!(cut.resume(0), Ok(Step::Next));
    assert_eq!(cut.resume(3), Ok(Step::Next));
    assert_eq!(cut.frame(), whole.frame());
    assert_eq!(cut.stack_top(), whole.stack_top());
    assert_eq!(cut.stack(), whole.stack());
    assert_eq!(cut.resume(1), Ok(Step::Finished));
    assert_eq!(whole.resume(1000), Ok(Step::Finished));
}

#[test]
fn a_start_leaves_nothing_of_the_last_run() {
    let mut vm = machine();
    let callee = function_with(&mut vm, "f", 0, 0, &[op::NIL, op::TRUE, op::ADD], vec![]);
    let caller = program(&mut vm, &[op::TRUE, op::CLOSURE, 0, op::CALL, 0], vec![Value::Object(callee)]);
    let (_, result) = drive(&mut vm, caller);
    assert_eq!(result, Err((infix("+", "nil", "bool"), span(2))));
    assert_eq!(vm.frames().len(), 1);
    vm.start(caller);
    assert_eq!(vm.frames().len(), 0);
    assert_eq!(vm.stack_top(), 0);
    assert_eq!(vm.frame().ip, 0);
    assert_eq!(vm.frame().stack, 0);
}

#[test]
fn what_means_nothing_gets_stuck() {
    let mut vm = machine();
    gets_stuck(&mut vm, &[255], vec![]);
    gets_stuck(&mut vm, &[], vec![]);
    gets_stuck(&mut vm, &[op::POP], vec![]);
    gets_stuck(&mut vm, &[op::CECILE_CONSTANT], vec![]);
    gets_stuck(&mut vm, &[op::CECILE_CONSTANT, 0], vec![]);
    gets_stuck(&mut vm, &[op::TRUE, op::NEG], vec![]);
    gets_stuck(&mut vm, &[op::JUMP, 0, 1], vec![]);
    gets_stuck(&mut vm, &[op::LOOP, 0, 4], vec![]);
    let undefined = text(&mut vm, "undefined");
    gets_stuck(&mut vm, &[op::GET_GLOBAL, 0], vec![undefined]);
    gets_stuck(&mut vm, &[op::NIL, op::SET_GLOBAL, 0], vec![undefined]);
    gets_stuck(&mut vm, &[op::ARRAY, 0], vec![]);
    gets_stuck(&mut vm, &[op::NIL, op::ARRAY, 1], vec![]);
    gets_stuck(&mut vm, &[op::CECILE_CONSTANT, 0, op::ARRAY, 2], vec![number(1.0)]);
}

#[test]
fn a_full_stack_gets_stuck() {
    let mut vm = machine();
    let function = program(&mut vm, &[op::NIL, op::LOOP, 0, 4], vec![]);
    assert_eq!(vm.run_function(function, 2 * STACK_MAX), Ok(Step::Next));
    assert_eq!(vm.stack_top(), STACK_MAX);
    assert_eq!(vm.resume(1), Ok(Step::Stuck));
}

// ---------------------------------------------------------------------------
// The stack and the code.
// ---------------------------------------------------------------------------

#[test]
fn what_is_pushed_is_popped() {
    let mut vm = machine();
    vm.push_to_stack(Value::Bool(true));
    vm.push_to_stack(number(2.0));
    assert_eq!(vm.peek(0), number(2.0));
    assert_eq!(vm.peek(1), Value::Bool(true));
    vm.poke(1, Value::Nil);
    assert_eq!(vm.pop(), number(2.0));
    assert_eq!(vm.pop(), Value::Nil);
    assert_eq!(vm.stack_top(), 0);
}

#[test]
fn the_code_is_read_byte_by_byte() {
    let mut vm = machine();
    let function = program(&mut vm, &[1, 2, 3, 0], vec![number(4.0)]);
    vm.start(function);
    assert!(vm.operands(4));
    assert!(!vm.operands(5));
    assert_eq!(vm.read_u8(), 1);
    assert_eq!(vm.read_u16(), 0x203);
    assert!(vm.has_constant());
    assert_eq!(vm.read_constant(), number(4.0));
    assert!(!vm.operands(1));
}

#[test]
fn the_running_closure_has_a_name_and_upvalues() {
    let mut vm = machine();
    let function = program(&mut vm, &[op::NIL], vec![]);
    vm.start(function);
    assert_eq!(vm.get_current_closure_name(), "main");
    assert_eq!(vm.get_current_closure_upvalues(), Vec::<usize>::new());
    let inner = function_with(&mut vm, "inner", 0, 1, &[op::NIL], vec![]);
    let outer = program(&mut vm, &[op::TRUE, op::CLOSURE, 0, 1, 0, op::CALL, 0], vec![Value::Object(inner)]);
    assert_eq!(vm.run_function(outer, 3), Ok(Step::Next));
    assert_eq!(vm.get_current_closure_name(), "inner");
    let upvalues = vm.get_current_closure_upvalues();
    assert_eq!(upvalues, vm.open_upvalues());
    assert_eq!(upvalues.len(), 1);
}

// ---------------------------------------------------------------------------
// Operators.
// ---------------------------------------------------------------------------

#[test]
fn arithmetic_is_asked_for() {
    let cases = [
        (op::ADD, Arithmetic::Add, "9"),
        (op::SUB, Arithmetic::Sub, "5"),
        (op::MUL, Arithmetic::Mul, "14"),
        (op::DIV, Arithmetic::Div, "3.5"),
        (op::MODULO, Arithmetic::Rem, "1"),
    ];
    for (byte, operation, result) in cases {
        let mut vm = machine();
        let constants = vec![number(7.0), number(2.0)];
        let code = [op::CECILE_CONSTANT, 0, op::CECILE_CONSTANT, 1, byte, op::PRINT];
        let function = program(&mut vm, &code, constants.clone());
        assert_eq!(
            vm.run_function(function, 1000),
            Ok(Step::Compute { op: operation, lhs: 7.0f64.to_bits(), rhs: 2.0f64.to_bits() })
        );
        assert_eq!(vm.stack_top(), 0);
        assert_eq!(prints(&mut vm, &code, constants), result);
    }
}

#[test]
fn an_operator_names_the_types_that_it_does_not_take() {
    let cases = [
        (op::ADD, "+"),
        (op::SUB, "+"),
        (op::MUL, "+"),
        (op::DIV, "+"),
        (op::MODULO, "%"),
        (op::LESS_THAN, "+"),
        (op::LESS_THAN_EQUAL, "+"),
        (op::GREATER_THAN, "+"),
        (op::GREATER_THAN_EQUAL, "+"),
    ];
    for (byte, symbol) in cases {
        let mut vm = machine();
        let error = raises(&mut vm, &[op::NIL, op::CECILE_CONSTANT, 0, byte], vec![number(1.0)]);
        assert_eq!(error, (infix(symbol, "nil", "int"), span(3)));
        assert_eq!(vm.stack_top(), 0);
    }
}

#[test]
fn comparisons_answer_for_numbers() {
    let cases = [
        (op::LESS_THAN, [true, false, false]),
        (op::LESS_THAN_EQUAL, [true, true, false]),
        (op::GREATER_THAN, [false, false, true]),
        (op::GREATER_THAN_EQUAL, [false, true, true]),
    ];
    for (byte, expected) in cases {
        for (pair, answer) in [(1.0, 2.0), (2.0, 2.0), (3.0, -2.0)].iter().zip(expected) {
            let mut vm = machine();
            let code = [op::CECILE_CONSTANT, 0, op::CECILE_CONSTANT, 1, byte, op::PRINT];
            let printed = prints(&mut vm, &code, vec![number(pair.0), number(pair.1)]);
            assert_eq!(printed, format!("{}", answer));
        }
        let mut vm = machine();
        let code = [op::CECILE_CONSTANT, 0, op::CECILE_CONSTANT, 0, byte, op::PRINT];
        assert_eq!(prints(&mut vm, &code, vec![number(f64::NAN)]), "false");
    }
    let mut vm = machine();
    vm.push_to_stack(number(1.0));
    vm.push_to_stack(number(2.0));
    assert_eq!(vm.binary_op_number(Comparison::Less), Ok(Step::Next));
    assert_eq!(vm.pop(), Value::Bool(true));
}

#[test]
fn not_equal_is_the_opposite_of_equal() {
    let mut vm = machine();
    let a = text(&mut vm, "a");
    let values = [
        Value::Nil,
        Value::Bool(true),
        Value::Bool(false),
        number(0.0),
        number(-0.0),
        number(f64::NAN),
        a,
    ];
    let same = |i: usize, j: usize| (i == j && i != 5) || (i, j) == (3, 4) || (i, j) == (4, 3);
    for i in 0..values.len() {
        for j in 0..values.len() {
            vm.push_to_stack(values[i]);
            vm.push_to_stack(values[j]);
            assert_eq!(vm.equal(), Ok(Step::Next));
            assert_eq!(vm.pop(), Value::Bool(same(i, j)));
            vm.push_to_stack(values[i]);
            vm.push_to_stack(values[j]);
            assert_eq!(vm.not_equal(), Ok(Step::Next));
            assert_eq!(vm.pop(), Value::Bool(!same(i, j)));
        }
    }
}

#[test]
fn a_number_changes_its_sign() {
    let mut vm = machine();
    assert_eq!(prints(&mut vm, &[op::CECILE_CONSTANT, 0, op::NEG, op::PRINT], vec![number(2.5)]), "-2.5");
}

#[test]
fn strings_are_joined_and_held_once() {
    let mut vm = machine();
    let ab = text(&mut vm, "ab");
    let c = text(&mut vm, "c");
    let a = text(&mut vm, "a");
    let bc = text(&mut vm, "bc");
    let join = [op::CECILE_CONSTANT, 0, op::CECILE_CONSTANT, 1, op::CONCAT];
    let mut code = join.to_vec();
    code.push(op::PRINT_LN);
    // The first string has to be a global: what only the stack holds goes
    // with the next collection.
    code.extend(join);
    code.extend([op::DEFINE_GLOBAL, 0]);
    code.extend([op::CECILE_CONSTANT, 2, op::CECILE_CONSTANT, 3, op::CONCAT]);
    code.extend([op::GET_GLOBAL, 0, op::EQUAL, op::PRINT_LN]);
    assert_eq!(prints(&mut vm, &code, vec![ab, c, a, bc]), "abc\ntrue\n");
    assert_eq!(text(&mut vm, "abc"), text(&mut vm, "abc"));
    assert_ne!(text(&mut vm, "abc"), text(&mut vm, "abd"));
}

#[test]
fn only_strings_are_joined() {
    let mut vm = machine();
    let a = text(&mut vm, "a");
    let clock = text(&mut vm, "clock");
    let error = raises(&mut vm, &[op::CECILE_CONSTANT, 0, op::GET_GLOBAL, 1, op::CONCAT], vec![a, clock]);
    assert_eq!(error, (infix("+", "string", "function"), span(4)));
    gets_stuck(&mut vm, &[op::CECILE_CONSTANT, 0, op::NIL, op::CONCAT], vec![a]);
}

// ---------------------------------------------------------------------------
// Values and variables.
// ---------------------------------------------------------------------------

#[test]
fn printing_takes_the_value_off_the_stack() {
    let mut vm = machine();
    let code = [op::NIL, op::PRINT, op::TRUE, op::PRINT_LN, op::FALSE, op::PRINT];
    let function = program(&mut vm, &code, vec![]);
    assert_eq!(vm.run_function(function, 9), Ok(Step::Print { value: Value::Nil, newline: false }));
    assert_eq!(vm.stack_top(), 0);
    assert_eq!(vm.resume(9), Ok(Step::Print { value: Value::Bool(true), newline: true }));
    assert_eq!(prints(&mut vm, &code, vec![]), "niltrue\nfalse");
}

#[test]
fn globals_are_defined_written_and_read() {
    let mut vm = machine();
    let x = text(&mut vm, "x");
    let y = text(&mut vm, "y");
    let printed = prints(
        &mut vm,
        &[
            op::TRUE, op::DEFINE_GLOBAL, 0,
            op::NIL, op::DEFINE_GLOBAL, 1,
            op::GET_GLOBAL, 0, op::PRINT_LN,
            op::FALSE, op::SET_GLOBAL, 0, op::PRINT_LN,
            op::GET_GLOBAL, 0, op::PRINT_LN,
            op::GET_GLOBAL, 1, op::PRINT_LN,
        ],
        vec![x, y],
    );
    assert_eq!(printed, "true\nfalse\nfalse\nnil\n");
}

#[test]
fn locals_are_slots_of_the_frame() {
    let mut vm = machine();
    let printed = prints(
        &mut vm,
        &[
            op::TRUE, op::NIL,
            op::GET_LOCAL, 0, op::PRINT_LN,
            op::FALSE, op::SET_LOCAL, 1, op::PRINT_LN,
            op::GET_LOCAL, 1, op::PRINT_LN,
        ],
        vec![],
    );
    assert_eq!(printed, "true\nfalse\nfalse\n");
}

#[test]
fn a_loop_counts_down() {
    let mut vm = machine();
    let printed = prints(
        &mut vm,
        &[
            op::CECILE_CONSTANT, 0,
            // 2
            op::GET_LOCAL, 0, op::CECILE_CONSTANT, 1, op::GREATER_THAN,
            // 7
            op::JUMP_IF_FALSE, 0, 17,
            // 10
            op::POP, op::GET_LOCAL, 0, op::PRINT_LN,
            // 14
            op::GET_LOCAL, 0, op::CECILE_CONSTANT, 2, op::SUB, op::SET_LOCAL, 0, op::POP,
            // 22
            op::LOOP, 0, 23,
            op::NIL, op::NIL,
            // 27
            op::TRUE, op::PRINT_LN,
        ],
        vec![number(3.0), number(0.0), number(1.0)],
    );
    assert_eq!(printed, "3\n2\n1\ntrue\n");
}

#[test]
fn a_condition_takes_all_but_nil_and_false_for_true() {
    for (byte, truth) in [(op::NIL, false), (op::FALSE, false), (op::TRUE, true)] {
        let mut vm = machine();
        let code = [byte, op::JUMP_IF_FALSE, 0, 2, op::PRINT, op::NIL];
        let expected = if truth { "true" } else { "" };
        assert_eq!(prints(&mut vm, &code, vec![]), expected);
    }
    assert!(number(0.0).to_bool());
}

#[test]
fn a_jump_skips_and_a_loop_goes_back() {
    let mut vm = machine();
    let code = [op::JUMP, 0, 3, op::NIL, op::NIL, op::NIL, op::LOOP, 0, 6];
    let function = program(&mut vm, &code, vec![]);
    assert_eq!(vm.run_function(function, 1), Ok(Step::Next));
    assert_eq!(vm.frame().ip, 6);
    assert_eq!(vm.resume(1), Ok(Step::Next));
    assert_eq!(vm.frame().ip, 3);
}

// ---------------------------------------------------------------------------
// Calls.
// ---------------------------------------------------------------------------

#[test]
fn a_call_returns_to_where_it_began() {
    let mut vm = machine();
    let add = function_with(
        &mut vm,
        "add",
        2,
        0,
        &[op::GET_LOCAL, 1, op::GET_LOCAL, 2, op::ADD, op::RETURN],
        vec![],
    );
    let constants = vec![Value::Object(add), number(3.0), number(4.0)];
    let code = [
        op::TRUE, op::CLOSURE, 0, op::CECILE_CONSTANT, 1, op::CECILE_CONSTANT, 2, op::CALL, 2,
    ];
    let function = program(&mut vm, &code, constants.clone());
    assert_eq!(vm.run_function(function, 4), Ok(Step::Next));
    let caller = vm.frame();
    assert_eq!(vm.resume(1), Ok(Step::Next));
    assert_eq!(vm.frames().len(), 1);
    assert_eq!(vm.frame().stack, 1);
    assert_eq!(vm.frame().ip, 0);
    assert!(matches!(vm.resume(3), Ok(Step::Compute { .. })));
    assert_eq!(vm.push_checked(number(7.0)), Ok(Step::Next));
    assert_eq!(vm.resume(1), Ok(Step::Next));
    assert_eq!(vm.frames().len(), 0);
    assert_eq!(vm.frame().closure, caller.closure);
    assert_eq!(vm.frame().stack, caller.stack);
    assert_eq!(vm.frame().ip, caller.ip + 2);
    assert_eq!(vm.stack_top(), 2);
    assert_eq!(vm.peek(0), number(7.0));
    assert_eq!(vm.peek(1), Value::Bool(true));
    let mut printing = code.to_vec();
    printing.push(op::PRINT);
    assert_eq!(prints(&mut vm, &printing, constants), "7");
}

#[test]
fn a_call_counts_its_arguments() {
    let mut vm = machine();
    let f = function_with(&mut vm, "f", 2, 0, &[op::NIL, op::RETURN], vec![]);
    let error = raises(&mut vm, &[op::CLOSURE, 0, op::NIL, op::CALL, 1], vec![Value::Object(f)]);
    assert_eq!(error, (arity("f", 2, 1), span(4)));
}

#[test]
fn too_many_calls_overflow() {
    let mut vm = machine();
    let f = text(&mut vm, "f");
    let recursive = function_with(&mut vm, "f", 0, 0, &[op::GET_GLOBAL, 0, op::CALL, 0], vec![f]);
    let error = raises(
        &mut vm,
        &[op::CLOSURE, 0, op::DEFINE_GLOBAL, 1, op::GET_GLOBAL, 1, op::CALL, 0],
        vec![Value::Object(recursive), f],
    );
    assert_eq!(error, (Error::OverflowError(OverflowError::StackOverflow), span(3)));
    assert_eq!(vm.frames().len(), 64);
}

#[test]
fn only_some_values_can_be_called() {
    let mut vm = machine();
    let not_callable = |type_: &str| Error::TypeError(TypeError::NotCallable { type_: type_.to_string() });
    let error = raises(&mut vm, &[op::CECILE_CONSTANT, 0, op::CALL, 0], vec![number(1.0)]);
    assert_eq!(error, (not_callable("int"), span(3)));
    let string = text(&mut vm, "s");
    let error = raises(&mut vm, &[op::CECILE_CONSTANT, 0, op::CALL, 0], vec![string]);
    assert_eq!(error, (not_callable("string"), span(3)));
    let error = raises(&mut vm, &[op::NIL, op::TRUE, op::NIL, op::CALL, 1], vec![]);
    assert_eq!(error, (not_callable("bool"), span(4)));
}

#[test]
fn a_closure_writes_to_what_it_captured() {
    let mut vm = machine();
    let step = function_with(
        &mut vm,
        "step",
        0,
        1,
        &[op::GET_UPVALUE, 0, op::PRINT_LN, op::FALSE, op::SET_UPVALUE, 0, op::RETURN],
        vec![],
    );
    let name = text(&mut vm, "step");
    let printed = prints(
        &mut vm,
        &[
            op::TRUE, op::CLOSURE, 0, 1, 0, op::DEFINE_GLOBAL, 1,
            op::GET_GLOBAL, 1, op::CALL, 0, op::POP,
            op::GET_GLOBAL, 1, op::CALL, 0, op::POP,
            // The slot itself is not written.
            op::GET_LOCAL, 0, op::PRINT_LN,
            op::CLOSE_UPVALUE,
        ],
        vec![Value::Object(step), name],
    );
    assert_eq!(printed, "true\nfalse\ntrue\n");
}

#[test]
fn closures_that_capture_equal_values_share_them() {
    let mut vm = machine();
    let write = function_with(
        &mut vm,
        "write",
        0,
        1,
        &[op::TRUE, op::SET_UPVALUE, 0, op::RETURN],
        vec![],
    );
    let read = function_with(&mut vm, "read", 0, 1, &[op::GET_UPVALUE, 0, op::RETURN], vec![]);
    let w = text(&mut vm, "w");
    let r = text(&mut vm, "r");
    let printed = prints(
        &mut vm,
        &[
            op::CECILE_CONSTANT, 2, op::CECILE_CONSTANT, 3,
            op::CLOSURE, 0, 1, 0, op::DEFINE_GLOBAL, 4,
            op::CLOSURE, 1, 1, 1, op::DEFINE_GLOBAL, 5,
            op::GET_GLOBAL, 4, op::CALL, 0, op::POP,
            op::GET_GLOBAL, 5, op::CALL, 0, op::PRINT,
        ],
        vec![Value::Object(write), Value::Object(read), number(0.0), number(-0.0), w, r],
    );
    assert_eq!(printed, "true");
    assert_eq!(vm.open_upvalues().len(), 1);
}

#[test]
fn a_closure_takes_over_the_upvalues_of_its_maker() {
    let mut vm = machine();
    let inner = function_with(&mut vm, "inner", 0, 1, &[op::GET_UPVALUE, 0, op::RETURN], vec![]);
    let outer = function_with(
        &mut vm,
        "outer",
        0,
        1,
        &[op::CLOSURE, 0, 0, 0, op::RETURN],
        vec![Value::Object(inner)],
    );
    let printed = prints(
        &mut vm,
        &[op::CECILE_CONSTANT, 1, op::CLOSURE, 0, 1, 0, op::CALL, 0, op::CALL, 0, op::PRINT],
        vec![Value::Object(outer), number(8.0)],
    );
    assert_eq!(printed, "8");
}

#[test]
fn a_value_is_captured_once() {
    let mut vm = machine();
    let first = vm.capture_upvalue(number(1.0));
    assert_eq!(vm.capture_upvalue(Value::Nil), vm.capture_upvalue(Value::Nil));
    assert_eq!(vm.capture_upvalue(number(1.0)), first);
    assert_eq!(vm.open_upvalues().len(), 2);
    assert_ne!(vm.capture_upvalue(number(f64::NAN)), vm.capture_upvalue(number(f64::NAN)));
}

#[test]
fn the_clock_is_asked_for() {
    let mut vm = machine();
    let clock = text(&mut vm, "clock");
    let code = [op::GET_GLOBAL, 0, op::CALL, 0, op::PRINT];
    let function = program(&mut vm, &code, vec![clock]);
    assert_eq!(vm.run_function(function, 1000), Ok(Step::Clock));
    assert_eq!(vm.stack_top(), 0);
    assert_eq!(prints(&mut vm, &code, vec![clock]), "12.5");
}

#[test]
fn random_numbers_lie_between_1_and_100() {
    let mut vm = machine();
    let random = text(&mut vm, "random_number");
    let code = [op::GET_GLOBAL, 0, op::CALL, 0, op::PRINT];
    let mut seen = vec![];
    for _ in 0..300 {
        let printed = prints(&mut vm, &code, vec![random]);
        let roll: f64 = printed.parse().unwrap();
        assert!(roll >= 1.0 && roll <= 100.0 && roll == roll.floor(), "{}", roll);
        if !seen.contains(&printed) {
            seen.push(printed);
        }
    }
    assert!(seen.len() > 10);
    let function = program(&mut vm, &code, vec![random]);
    vm.start(function);
    assert_eq!(vm.dispatch(), Ok(Step::Next));
    assert_eq!(vm.dispatch(), Ok(Step::Random));
    assert_eq!(vm.push_random(42), Ok(Step::Next));
    assert_eq!(vm.peek(0), number(42.0));
}

#[test]
fn natives_take_no_arguments() {
    for name in ["clock", "random_number"] {
        let mut vm = machine();
        let global = text(&mut vm, name);
        let error = raises(&mut vm, &[op::GET_GLOBAL, 0, op::NIL, op::CALL, 1], vec![global]);
        assert_eq!(error, (arity(name, 0, 1), span(4)));
    }
    let mut vm = machine();
    vm.push_to_stack(Value::Nil);
    assert_eq!(vm.call_native(Native::Clock, 0), Ok(Step::Clock));
}

// ---------------------------------------------------------------------------
// Structs.
// ---------------------------------------------------------------------------

/// A struct `P` with a field `x`, and two instances of it, `p` and `q`.
fn points() -> [u8; 20] {
    [
        op::STRUCT, 0, op::DEFINE_GLOBAL, 0,
        op::GET_GLOBAL, 0, op::FIELD, 1, op::POP,
        op::GET_GLOBAL, 0, op::CALL, 0, op::DEFINE_GLOBAL, 2,
        op::GET_GLOBAL, 0, op::CALL, 0, op::DEFINE_GLOBAL,
    ]
}

fn names(vm: &mut VM, names: &[&str]) -> Vec<Value> {
    names.iter().map(|name| text(vm, name)).collect()
}

#[test]
fn the_instances_of_a_struct_share_its_fields() {
    let mut vm = machine();
    let constants = names(&mut vm, &["P", "x", "p", "q"]);
    let mut code = points().to_vec();
    code.extend([
        3,
        op::GET_GLOBAL, 2, op::GET_FIELD, 1, op::PRINT_LN,
        op::TRUE, op::GET_GLOBAL, 2, op::SET_FIELD, 1, op::PRINT_LN,
        op::GET_GLOBAL, 2, op::GET_FIELD, 1, op::PRINT_LN,
        op::GET_GLOBAL, 3, op::GET_FIELD, 1, op::PRINT_LN,
    ]);
    assert_eq!(prints(&mut vm, &code, constants), "nil\ntrue\ntrue\ntrue\n");
}

#[test]
fn a_missing_attribute_is_named() {
    let mut vm = machine();
    let constants = names(&mut vm, &["P", "x", "p", "q"]);
    let mut code = points().to_vec();
    code.extend([3, op::GET_GLOBAL, 2, op::GET_FIELD, 3]);
    let error = raises(&mut vm, &code, constants.clone());
    assert_eq!(error, (no_attribute("instance", "q"), span(24)));
    let error = raises(&mut vm, &[op::CECILE_CONSTANT, 0, op::GET_FIELD, 1], constants.clone());
    assert_eq!(error, (no_attribute("string", "x"), span(3)));
    let error = raises(&mut vm, &[op::NIL, op::TRUE, op::SET_FIELD, 1], constants.clone());
    assert_eq!(error, (no_attribute("bool", "x"), span(3)));
    let error = raises(&mut vm, &[op::NIL, op::GET_ARRAY, 1], constants.clone());
    assert_eq!(error, (no_attribute("nil", "x"), span(2)));
    let error = raises(
        &mut vm,
        &[op::STRUCT, 0, op::DEFINE_GLOBAL, 0, op::NIL, op::GET_GLOBAL, 0, op::GET_SUPER, 1],
        constants,
    );
    assert_eq!(error, (no_attribute("P", "x"), span(8)));
}

#[test]
fn a_method_is_bound_to_its_receiver() {
    let mut vm = machine();
    let method = function_with(&mut vm, "m", 1, 0, &[op::GET_LOCAL, 0, op::GET_LOCAL, 1, op::PRINT, op::RETURN], vec![]);
    let mut constants = names(&mut vm, &["P", "m", "p"]);
    constants.push(Value::Object(method));
    let printed = prints(
        &mut vm,
        &[
            op::STRUCT, 0, op::DEFINE_GLOBAL, 0,
            op::GET_GLOBAL, 0, op::CLOSURE, 3, op::METHOD, 1, op::POP,
            op::GET_GLOBAL, 0, op::CALL, 0, op::DEFINE_GLOBAL, 2,
            op::GET_GLOBAL, 2, op::GET_FIELD, 1, op::TRUE, op::CALL, 1,
            op::GET_GLOBAL, 2, op::EQUAL, op::PRINT,
            op::GET_GLOBAL, 2, op::FALSE, op::INVOKE, 1, 1,
            op::GET_GLOBAL, 2, op::EQUAL, op::PRINT,
        ],
        constants,
    );
    assert_eq!(printed, "truetruefalsetrue");
}

#[test]
fn a_constructor_gets_the_arguments() {
    let mut vm = machine();
    let new = function_with(&mut vm, "new", 1, 0, &[op::GET_LOCAL, 1, op::PRINT, op::GET_LOCAL, 0, op::RETURN], vec![]);
    let mut constants = names(&mut vm, &["P", "new"]);
    constants.push(Value::Object(new));
    let code = [
        op::STRUCT, 0, op::DEFINE_GLOBAL, 0,
        op::GET_GLOBAL, 0, op::CLOSURE, 2, op::METHOD, 1, op::POP,
        op::GET_GLOBAL, 0, op::TRUE, op::CALL, 1, op::PRINT,
    ];
    assert_eq!(prints(&mut vm, &code, constants.clone()), "true<instance>");
    let error = raises(&mut vm, &[op::GET_GLOBAL, 0, op::CALL, 0], constants);
    assert_eq!(error, (arity("new", 1, 0), span(3)));
}

#[test]
fn a_struct_without_a_constructor_takes_no_arguments() {
    let mut vm = machine();
    let constants = names(&mut vm, &["P"]);
    let error = raises(
        &mut vm,
        &[op::STRUCT, 0, op::DEFINE_GLOBAL, 0, op::GET_GLOBAL, 0, op::NIL, op::CALL, 1],
        constants,
    );
    assert_eq!(error, (arity("P", 0, 1), span(8)));
}

#[test]
fn a_struct_inherits_methods() {
    let mut vm = machine();
    let method = function_with(&mut vm, "m", 0, 0, &[op::TRUE, op::RETURN], vec![]);
    let through = function_with(
        &mut vm,
        "s",
        0,
        0,
        &[op::NIL, op::RETURN],
        vec![],
    );
    let mut constants = names(&mut vm, &["A", "B", "m", "s", "b"]);
    constants.push(Value::Object(method));
    constants.push(Value::Object(through));
    let code = [
        op::STRUCT, 0, op::DEFINE_GLOBAL, 0,
        op::STRUCT, 1, op::DEFINE_GLOBAL, 1,
        op::GET_GLOBAL, 0, op::CLOSURE, 5, op::METHOD, 2, op::POP,
        op::GET_GLOBAL, 0, op::GET_GLOBAL, 1, op::INHERIT, op::POP,
        // The heir's own method takes the place of the one it inherited.
        op::GET_GLOBAL, 1, op::CLOSURE, 6, op::METHOD, 2, op::POP,
        op::GET_GLOBAL, 1, op::CALL, 0, op::DEFINE_GLOBAL, 4,
        op::GET_GLOBAL, 4, op::INVOKE, 2, 0, op::PRINT_LN,
        op::GET_GLOBAL, 4, op::GET_GLOBAL, 0, op::GET_SUPER, 2, op::CALL, 0, op::PRINT_LN,
        op::GET_GLOBAL, 4, op::GET_GLOBAL, 0, op::SUPER_INVOKE, 2, 0, op::PRINT_LN,
    ];
    assert_eq!(prints(&mut vm, &code, constants), "nil\ntrue\ntrue\n");
}

#[test]
fn an_heir_has_the_methods_of_its_super() {
    let mut vm = machine();
    let method = function_with(&mut vm, "m", 0, 0, &[op::TRUE, op::RETURN], vec![]);
    let mut constants = names(&mut vm, &["A", "B", "m"]);
    constants.push(Value::Object(method));
    let code = [
        op::STRUCT, 0, op::DEFINE_GLOBAL, 0,
        op::STRUCT, 1, op::DEFINE_GLOBAL, 1,
        op::GET_GLOBAL, 0, op::CLOSURE, 3, op::METHOD, 2, op::POP,
        op::GET_GLOBAL, 0, op::GET_GLOBAL, 1, op::INHERIT, op::POP,
        op::GET_GLOBAL, 1, op::CALL, 0, op::INVOKE, 2, 0, op::PRINT_LN,
    ];
    assert_eq!(prints(&mut vm, &code, constants), "true\n");
}

#[test]
fn an_heir_does_not_follow_its_super() {
    let mut vm = machine();
    let method = function_with(&mut vm, "m", 0, 0, &[op::TRUE, op::RETURN], vec![]);
    let mut constants = names(&mut vm, &["A", "B", "m"]);
    constants.push(Value::Object(method));
    let code = [
        op::STRUCT, 0, op::DEFINE_GLOBAL, 0,
        op::STRUCT, 1, op::DEFINE_GLOBAL, 1,
        op::GET_GLOBAL, 0, op::GET_GLOBAL, 1, op::INHERIT, op::POP,
        op::GET_GLOBAL, 0, op::CLOSURE, 3, op::METHOD, 2, op::POP,
        op::GET_GLOBAL, 1, op::CALL, 0, op::GET_FIELD, 2,
    ];
    let at = code.len() - 1;
    assert_eq!(raises(&mut vm, &code, constants), (no_attribute("instance", "m"), span(at)));
}

#[test]
fn only_a_struct_can_be_inherited_from() {
    let mut vm = machine();
    let constants = names(&mut vm, &["B"]);
    let error = raises(
        &mut vm,
        &[op::STRUCT, 0, op::DEFINE_GLOBAL, 0, op::TRUE, op::GET_GLOBAL, 0, op::INHERIT],
        constants,
    );
    assert_eq!(
        error,
        (Error::TypeError(TypeError::NotCallable { type_: "bool".to_string() }), span(7))
    );
}

#[test]
fn an_invocation_passes_over_errors() {
    let mut vm = machine();
    let constants = names(&mut vm, &["P", "missing"]);
    let code = [
        op::STRUCT, 0, op::DEFINE_GLOBAL, 0,
        op::GET_GLOBAL, 0, op::CALL, 0, op::INVOKE, 1, 0, op::PRINT_LN,
        op::TRUE, op::GET_GLOBAL, 0, op::SUPER_INVOKE, 1, 0, op::PRINT_LN,
    ];
    assert_eq!(prints(&mut vm, &code, constants), "<instance>\ntrue\n");
}

// ---------------------------------------------------------------------------
// Arrays.
// ---------------------------------------------------------------------------

/// The array `[1, 2]` as a global.
fn pair(vm: &mut VM) -> (Vec<u8>, Vec<Value>) {
    let mut constants = names(vm, &["a", "push", "pop", "get", "len", "type", "other"]);
    constants.extend([number(1.0), number(2.0), number(0.0)]);
    let code = vec![
        op::CECILE_CONSTANT, 7, op::CECILE_CONSTANT, 8, op::ARRAY, 2, op::DEFINE_GLOBAL, 0,
    ];
    (code, constants)
}

fn with_pair(vm: &mut VM, rest: &[u8]) -> (Vec<u8>, Vec<Value>) {
    let (mut code, constants) = pair(vm);
    code.extend(rest);
    (code, constants)
}

#[test]
fn an_array_has_its_elements_in_order() {
    let mut vm = machine();
    let (code, constants) = with_pair(
        &mut vm,
        &[
            op::GET_GLOBAL, 0, op::CECILE_CONSTANT, 9, op::ARRAY_ACCESS, op::PRINT_LN,
            op::GET_GLOBAL, 0, op::CECILE_CONSTANT, 7, op::ARRAY_ACCESS, op::PRINT_LN,
        ],
    );
    assert_eq!(prints(&mut vm, &code, constants), "1\n2\n");
}

#[test]
fn an_element_is_written_and_read() {
    let mut vm = machine();
    let (code, constants) = with_pair(
        &mut vm,
        &[
            op::GET_GLOBAL, 0, op::CECILE_CONSTANT, 9, op::TRUE, op::ARRAY_ACCESS_ASSIGN, op::PRINT_LN,
            op::GET_GLOBAL, 0, op::CECILE_CONSTANT, 9, op::ARRAY_ACCESS, op::PRINT_LN,
            op::GET_GLOBAL, 0, op::CECILE_CONSTANT, 7, op::ARRAY_ACCESS, op::PRINT_LN,
        ],
    );
    assert_eq!(prints(&mut vm, &code, constants), "true\ntrue\n2\n");
}

#[test]
fn an_array_of_arrays_has_their_type() {
    let mut vm = machine();
    let (mut code, constants) = pair(&mut vm);
    code.extend([op::GET_GLOBAL, 0, op::ARRAY, 1, op::DEFINE_GLOBAL, 6, op::GET_GLOBAL, 6, op::RETURN]);
    let function = program(&mut vm, &code, constants);
    assert_eq!(drive(&mut vm, function).1, Ok(Step::Finished));
    match object(&vm, vm.stack()[0]) {
        Object::Array(array) => {
            assert_eq!(array.value_type, Type::Int);
            assert_eq!(array.values.len(), 1);
        }
        _ => panic!(),
    }
}

#[test]
fn an_index_out_of_range_is_an_error() {
    let out = |index, len| Error::IndexError(IndexError::IndexOutOfRange { index, len });
    let mut vm = machine();
    let (code, constants) = with_pair(&mut vm, &[op::GET_GLOBAL, 0, op::CECILE_CONSTANT, 8, op::ARRAY_ACCESS]);
    assert_eq!(raises(&mut vm, &code, constants), (out(2, 1), span(12)));
    let (code, constants) = with_pair(
        &mut vm,
        &[op::GET_GLOBAL, 0, op::CECILE_CONSTANT, 8, op::NIL, op::ARRAY_ACCESS_ASSIGN],
    );
    assert_eq!(raises(&mut vm, &code, constants), (out(2, 1), span(13)));
}

#[test]
fn only_an_array_has_elements() {
    let not_indexable = |type_: &str| Error::TypeError(TypeError::NotIndexable { type_: type_.to_string() });
    let mut vm = machine();
    let (code, constants) = with_pair(&mut vm, &[op::GET_GLOBAL, 0, op::NIL, op::ARRAY_ACCESS]);
    assert_eq!(raises(&mut vm, &code, constants), (not_indexable("array"), span(11)));
    let (code, constants) = with_pair(&mut vm, &[op::CECILE_CONSTANT, 0, op::CECILE_CONSTANT, 9, op::ARRAY_ACCESS]);
    assert_eq!(raises(&mut vm, &code, constants), (not_indexable("string"), span(12)));
    let (code, constants) = with_pair(
        &mut vm,
        &[op::CECILE_CONSTANT, 0, op::CECILE_CONSTANT, 9, op::NIL, op::ARRAY_ACCESS_ASSIGN],
    );
    assert_eq!(raises(&mut vm, &code, constants), (not_indexable("string"), span(13)));
}

#[test]
fn what_is_pushed_to_an_array_is_popped_from_it() {
    let mut vm = machine();
    let (code, constants) = with_pair(
        &mut vm,
        &[
            // A push leaves the method where it was.
            op::GET_GLOBAL, 0, op::GET_ARRAY, 1, op::CECILE_CONSTANT, 9, op::CALL, 1, op::POP,
            op::GET_GLOBAL, 0, op::GET_ARRAY, 4, op::CALL, 0, op::PRINT_LN,
            op::GET_GLOBAL, 0, op::GET_ARRAY, 2, op::CALL, 0, op::PRINT_LN,
            op::GET_GLOBAL, 0, op::GET_ARRAY, 2, op::CALL, 0, op::PRINT_LN,
            op::GET_GLOBAL, 0, op::GET_ARRAY, 4, op::CALL, 0, op::PRINT_LN,
            op::GET_GLOBAL, 0, op::GET_ARRAY, 5, op::CALL, 0, op::PRINT_LN,
        ],
    );
    assert_eq!(prints(&mut vm, &code, constants), "3\n0\n2\n1\narray\n");
}

#[test]
fn an_empty_array_has_nothing_to_pop() {
    let mut vm = machine();
    let pop = [op::GET_GLOBAL, 0, op::GET_ARRAY, 2, op::CALL, 0, op::POP];
    let mut rest = vec![];
    for _ in 0..3 {
        rest.extend(pop);
    }
    let (code, constants) = with_pair(&mut vm, &rest);
    let error = raises(&mut vm, &code, constants);
    assert_eq!(error, (Error::IndexError(IndexError::IndexOutOfRange { index: 0, len: 0 }), span(27)));
    let (code, constants) = with_pair(&mut vm, &[]);
    let mut code = code;
    code.extend(pop);
    code.extend(pop);
    code.extend([op::GET_GLOBAL, 0, op::CECILE_CONSTANT, 9, op::ARRAY_ACCESS]);
    gets_stuck(&mut vm, &code, constants);
}

#[test]
fn an_array_takes_values_of_its_type_only() {
    let mut vm = machine();
    let (code, constants) = with_pair(
        &mut vm,
        &[op::GET_GLOBAL, 0, op::GET_ARRAY, 1, op::TRUE, op::CALL, 1],
    );
    let error = raises(&mut vm, &code, constants);
    let mismatch = TypeError::ArrayValueTypeMismatch {
        expected: "int".to_string(),
        actual: "bool".to_string(),
    };
    assert_eq!(error, (Error::TypeError(mismatch), span(14)));
}

#[test]
fn an_array_has_no_other_methods() {
    let mut vm = machine();
    let (code, constants) = with_pair(&mut vm, &[op::GET_GLOBAL, 0, op::GET_ARRAY, 6]);
    assert_eq!(raises(&mut vm, &code, constants), (no_attribute("array", "other"), span(11)));
}

#[test]
fn the_methods_of_an_array_count_their_arguments() {
    let cases = [("push", 1u8, 1, 0u8), ("pop", 2, 0, 1), ("get", 3, 1, 0), ("len", 4, 0, 1), ("type", 5, 0, 1)];
    for (method, constant, expected, actual) in cases {
        let mut vm = machine();
        let mut rest = vec![op::GET_GLOBAL, 0, op::GET_ARRAY, constant];
        for _ in 0..actual {
            rest.push(op::NIL);
        }
        rest.extend([op::CALL, actual]);
        let (code, constants) = with_pair(&mut vm, &rest);
        let at = code.len() - 1;
        let error = raises(&mut vm, &code, constants);
        assert_eq!(error, (arity(method, expected, actual as usize), span(at)));
    }
}

#[test]
fn get_reads_the_index_below_the_topmost_value() {
    let mut vm = machine();
    let (mut code, constants) = pair(&mut vm);
    code.extend([op::GET_GLOBAL, 0, op::GET_ARRAY, 3, op::DEFINE_GLOBAL, 6, op::GET_GLOBAL, 6, op::RETURN]);
    let function = program(&mut vm, &code, constants.clone());
    assert_eq!(drive(&mut vm, function).1, Ok(Step::Finished));
    let bound = match vm.stack()[0] {
        Value::Object(place) => place,
        _ => panic!(),
    };
    match vm.allocator().get(bound) {
        Some(Object::BoundArrayMethod(bound)) => assert_eq!(bound.method, ArrayMethod::Get),
        _ => panic!(),
    }
    vm.push_to_stack(number(1.0));
    vm.push_to_stack(Value::Nil);
    assert_eq!(vm.call_bound_arr_method(bound, 1), Ok(Step::Next));
    assert_eq!(vm.stack_top(), 1);
    assert_eq!(vm.pop(), number(2.0));
    // As an instruction, a call has the method itself there.
    gets_stuck(&mut vm, &[op::GET_GLOBAL, 6, op::CECILE_CONSTANT, 9, op::CALL, 1], constants);
}

// ---------------------------------------------------------------------------
// Memory.
// ---------------------------------------------------------------------------

#[test]
fn a_collection_keeps_what_the_globals_reach() {
    let mut vm = machine();
    let (mut code, constants) = pair(&mut vm);
    code.extend([op::GET_GLOBAL, 0, op::ARRAY, 1, op::DEFINE_GLOBAL, 0, op::NIL, op::RETURN]);
    let function = program(&mut vm, &code, constants);
    assert_eq!(drive(&mut vm, function).1, Ok(Step::Finished));
    vm.gc();
    let kept = |vm: &VM| -> Vec<bool> {
        (0..vm.allocator().len()).map(|place| vm.allocator().get(place).is_some()).collect()
    };
    let arrays = |vm: &VM| {
        (0..vm.allocator().len())
            .filter(|place| matches!(vm.allocator().get(*place), Some(Object::Array(_))))
            .count()
    };
    assert_eq!(arrays(&vm), 2);
    let before = kept(&vm);
    vm.gc();
    assert_eq!(kept(&vm), before);
}

#[test]
fn a_collection_sets_the_threshold_to_twice_the_bytes_in_use() {
    let mut vm = machine();
    // Two strings and two functions are left: the name of constructors goes.
    vm.gc();
    let names = "clock".len() + "random_number".len();
    assert_eq!(vm.allocator().allocated_bytes(), 4 * OBJECT_BYTES + names);
    assert_eq!(vm.next_gc(), 2 * (4 * OBJECT_BYTES + names));
    let (mut code, constants) = pair(&mut vm);
    code.extend([op::NIL, op::RETURN]);
    let function = program(&mut vm, &code, constants);
    let before = vm.next_gc();
    assert_eq!(drive(&mut vm, function).1, Ok(Step::Finished));
    assert_ne!(vm.next_gc(), before);
    vm.gc();
    assert_eq!(vm.next_gc(), 2 * vm.allocator().allocated_bytes());
}

#[test]
fn an_object_takes_up_what_it_holds() {
    let mut vm = machine();
    let bytes = |vm: &VM, value: Value| object(vm, value).bytes();
    let plain = text(&mut vm, "abc");
    assert_eq!(bytes(&vm, plain), OBJECT_BYTES + 3);
    let wide = text(&mut vm, "\u{e4}\u{20ac}");
    assert_eq!(bytes(&vm, wide), OBJECT_BYTES + 5);
    let f = function_with(&mut vm, "f", 0, 0, &[op::NIL, op::RETURN], vec![number(1.0)]);
    assert_eq!(bytes(&vm, Value::Object(f)), OBJECT_BYTES + 2 + VALUE_BYTES + 2 * SPAN_BYTES);
    let (mut code, constants) = pair(&mut vm);
    code.extend([op::GET_GLOBAL, 0, op::RETURN]);
    let function = program(&mut vm, &code, constants);
    assert_eq!(drive(&mut vm, function).1, Ok(Step::Finished));
    assert_eq!(bytes(&vm, vm.stack()[0]), OBJECT_BYTES + 2 * VALUE_BYTES);
    let constants = names(&mut vm, &["P", "x", "y"]);
    let code = [op::STRUCT, 0, op::FIELD, 1, op::FIELD, 2, op::FIELD, 1, op::RETURN];
    let function = program(&mut vm, &code, constants);
    assert_eq!(drive(&mut vm, function).1, Ok(Step::Finished));
    assert_eq!(bytes(&vm, vm.stack()[0]), OBJECT_BYTES + 2 * ENTRY_BYTES);
}

#[test]
fn a_collection_takes_what_only_the_stack_holds() {
    let mut vm = machine();
    let name = text(&mut vm, "S");
    let printed = prints(
        &mut vm,
        &[
            op::STRUCT, 0, op::STRUCT, 0, op::PRINT_LN, op::PRINT_LN,
        ],
        vec![name],
    );
    assert_eq!(printed, "<struct>\n<gone>\n");
}

#[test]
fn places_are_not_given_twice() {
    let mut vm = machine();
    let name = text(&mut vm, "S");
    let function = program(&mut vm, &[op::STRUCT, 0, op::POP, op::LOOP, 0, 6], vec![name]);
    let before = vm.allocator().len();
    assert_eq!(vm.run_function(function, 30), Ok(Step::Next));
    assert_eq!(vm.allocator().len(), before + 11);
    let structs = (0..vm.allocator().len())
        .filter(|place| matches!(vm.allocator().get(*place), Some(Object::Struct(_))));
    assert_eq!(structs.count(), 1);
}

#[test]
fn a_collection_keeps_calls_and_open_upvalues() {
    let mut vm = machine();
    let name = text(&mut vm, "S");
    let inner = function_with(
        &mut vm,
        "inner",
        0,
        1,
        &[op::STRUCT, 0, op::POP, op::GET_UPVALUE, 0, op::RETURN],
        vec![name],
    );
    let printed = prints(
        &mut vm,
        &[op::CECILE_CONSTANT, 1, op::CLOSURE, 0, 1, 0, op::CALL, 0, op::PRINT],
        vec![Value::Object(inner), number(6.0)],
    );
    assert_eq!(printed, "6");
}
