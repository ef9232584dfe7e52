//! What each instruction does to a machine, as functions on the machine's
//! state.
//!
//! The functions take the state behind the bytes that were read before them:
//! an instruction's own byte is read by [`dispatch`], its operands by the
//! function of the instruction.
use crate::error::{ErrorS, Report, Span};
use crate::frame::{CallFrame, FRAMES_MAX};
use crate::heap::{
    added, at, collected, heap_bytes, interned, new_place, store, Cells,
};
use crate::number;
use crate::object::{
    array_method, capped, object_type, ArrayMethod, Function, Native, Obj,
};
use crate::op;
use crate::table::no_entries;
use crate::value::{equal, truthy, type_text, Type, Value};
use vstd::prelude::*;

verus! {

/// How many values the stack has room for.
pub const STACK_MAX: usize = 16384;

/// The state of a machine.
#[verifier::ext_equal]
pub struct State {
    pub heap: Cells,
    /// All slots of the stack, those above its top too.
    pub stack: Seq<Value>,
    /// The number of slots in use.
    pub top: int,
    /// The calls that wait for their callees.
    pub frames: Seq<CallFrame>,
    /// The call that runs.
    pub frame: CallFrame,
    pub globals: Map<usize, Value>,
    pub open_upvalues: Seq<usize>,
    /// The place of the name that a struct's constructor has.
    pub init: usize,
    /// The number of bytes in use from which on a collection would be due. A
    /// collection sets it; nothing waits for it, for every allocation collects.
    pub next_gc: int,
}

/// An operation on numbers that the machine asks for.
#[derive(Clone, Copy, Debug, PartialEq, Eq, Structural)]
pub enum Arithmetic {
    Add,
    Sub,
    Mul,
    Div,
    Rem,
}

/// What has come of an instruction.
#[derive(Clone, Copy, Debug, PartialEq, Eq, Structural)]
pub enum Step {
    /// It is done.
    Next,
    /// It is done once the result of the operation has been pushed.
    Compute { op: Arithmetic, lhs: u64, rhs: u64 },
    /// It is done once the value has been printed.
    Print { value: Value, newline: bool },
    /// It is done once the seconds since the epoch have been pushed.
    Clock,
    /// It is done once a random number from 1 to 100 has been pushed.
    Random,
    /// It ended the program.
    Finished,
    /// It means nothing in the state that it met: its byte is none of an
    /// instruction, an operand is missing or names nothing, the stack is too
    /// short or full, or an object is gone or of another kind.
    Stuck,
}

/// What an instruction answers: how it went on, or the error that it raised.
pub type Verdict = Result<Step, (Report, Span)>;

/// What an instruction does.
pub struct Outcome {
    pub state: State,
    pub verdict: Verdict,
}

/// What holds of the state of every machine.
pub open spec fn valid(s: State) -> bool {
    &&& s.stack.len() == STACK_MAX
    &&& 0 <= s.top <= STACK_MAX
    &&& interned(s.heap)
    &&& s.frames.len() <= FRAMES_MAX
    &&& s.frame.stack <= STACK_MAX
    &&& forall|i: int| 0 <= i < s.frames.len() ==> (#[trigger] s.frames[i]).stack <= STACK_MAX
}

/// The verdict in what a function returned.
pub open spec fn verdict_of(result: Result<Step, ErrorS>) -> Verdict {
    match result {
        Ok(step) => Ok(step),
        Err(raised) => Err((raised.0@, raised.1)),
    }
}

/// Whether a function did what it was to do. Of the state in which it got
/// stuck nothing is said.
pub open spec fn agrees(state: State, result: Result<Step, ErrorS>, outcome: Outcome) -> bool {
    &&& verdict_of(result) == outcome.verdict
    &&& outcome.verdict == Ok::<Step, (Report, Span)>(Step::Stuck) || state =~= outcome.state
}

// ---------------------------------------------------------------------------
// The parts of an instruction.
// ---------------------------------------------------------------------------

pub open spec fn went(state: State, step: Step) -> Outcome {
    Outcome { state, verdict: Ok(step) }
}

pub open spec fn next(state: State) -> Outcome {
    went(state, Step::Next)
}

pub open spec fn stuck(state: State) -> Outcome {
    went(state, Step::Stuck)
}

/// The function of the closure at a place.
pub open spec fn function_of(heap: Cells, closure: usize) -> Option<Function> {
    match at(heap, closure) {
        Some(Obj::Closure { function, .. }) => match at(heap, function) {
            Some(Obj::Function { function }) => Some(function),
            _ => None,
        },
        _ => None,
    }
}

/// The upvalues of the closure that runs.
pub open spec fn upvalues_here(s: State) -> Seq<usize> {
    match at(s.heap, s.frame.closure) {
        Some(Obj::Closure { upvalues, .. }) => upvalues,
        _ => Seq::empty(),
    }
}

/// The function that runs.
pub open spec fn running(s: State) -> Option<Function> {
    function_of(s.heap, s.frame.closure)
}

/// Whether so many bytes of code are left to read.
pub open spec fn operands(s: State, n: int) -> bool {
    running(s) matches Some(f) && s.frame.ip + n <= f.code.len()
}

/// The byte at a distance from the next one.
pub open spec fn operand(s: State, distance: int) -> u8 {
    running(s)->0.code[s.frame.ip + distance]
}

/// The number in the next two bytes, the higher one first.
pub open spec fn operand_u16(s: State) -> int {
    operand(s, 0) * 256 + operand(s, 1)
}

/// The state with the next byte at a position.
pub open spec fn jumped(s: State, ip: int) -> State {
    State { frame: CallFrame { ip: ip as usize, ..s.frame }, ..s }
}

/// The state after bytes were read.
pub open spec fn skip(s: State, n: int) -> State {
    jumped(s, s.frame.ip + n)
}

/// The constant that the next byte names.
pub open spec fn constant(s: State) -> Option<Value> {
    if operands(s, 1) && operand(s, 0) < running(s)->0.constants.len() {
        Some(running(s)->0.constants[operand(s, 0) as int])
    } else {
        None
    }
}

/// Whether a string is at a place.
pub open spec fn is_string(heap: Cells, place: usize) -> bool {
    at(heap, place) matches Some(Obj::String { .. })
}

/// The text of the string at a place.
pub open spec fn text(heap: Cells, place: usize) -> Seq<char> {
    at(heap, place)->0->text
}

/// The string that the next byte names.
pub open spec fn name(s: State) -> Option<usize> {
    match constant(s) {
        Some(Value::Object(place)) => if is_string(s.heap, place) {
            Some(place)
        } else {
            None
        },
        _ => None,
    }
}

/// The source that the last byte read came from.
pub open spec fn span_here(s: State) -> Option<Span> {
    if running(s) matches Some(f) && 0 < s.frame.ip <= f.spans.len() {
        Some(running(s)->0.spans[s.frame.ip - 1])
    } else {
        None
    }
}

/// To raise an error.
pub open spec fn raise(s: State, report: Report) -> Outcome {
    match span_here(s) {
        Some(span) => Outcome { state: s, verdict: Err((report, span)) },
        None => stuck(s),
    }
}

/// Whether so many slots are in use.
pub open spec fn deep(s: State, n: int) -> bool {
    n <= s.top
}

/// The value at a distance from the topmost one.
pub open spec fn peek(s: State, distance: int) -> Value {
    s.stack[s.top - 1 - distance]
}

/// The state after values were popped.
pub open spec fn pops(s: State, n: int) -> State {
    State { top: s.top - n, ..s }
}

/// The state after a value was pushed.
pub open spec fn pushed(s: State, value: Value) -> State {
    State { stack: s.stack.update(s.top, value), top: s.top + 1, ..s }
}

/// To push a value.
pub open spec fn push(s: State, value: Value) -> Outcome {
    if s.top < STACK_MAX {
        next(pushed(s, value))
    } else {
        stuck(s)
    }
}

/// The state with another value at a distance from the topmost one.
pub open spec fn poked(s: State, distance: int, value: Value) -> State {
    State { stack: s.stack.update(s.top - 1 - distance, value), ..s }
}

/// The type of a value, unless it is an object that is gone.
pub open spec fn type_of(heap: Cells, value: Value) -> Option<Type> {
    match value {
        Value::Nil => Some(Type::Nil),
        Value::Bool(_) => Some(Type::Bool),
        Value::Number(_) => Some(Type::Int),
        Value::Object(place) => match at(heap, place) {
            Some(obj) => Some(object_type(obj)),
            None => None,
        },
    }
}

/// The value of a name.
pub open spec fn lookup(table: Map<usize, Value>, name: usize) -> Option<Value> {
    if table.contains_key(name) {
        Some(table[name])
    } else {
        None
    }
}

/// The closure of a method.
pub open spec fn lookup_method(methods: Map<usize, Value>, name: usize) -> Option<usize> {
    match lookup(methods, name) {
        Some(Value::Object(method)) => Some(method),
        _ => None,
    }
}

// ---------------------------------------------------------------------------
// Memory.
// ---------------------------------------------------------------------------

/// Whether the collector starts from a place: the names and the values of the
/// globals, the closures of all calls, and the upvalues that are open. What
/// only the stack holds is no root.
pub open spec fn is_root(s: State, place: usize) -> bool {
    ||| s.globals.contains_key(place)
    ||| s.globals.contains_value(Value::Object(place))
    ||| s.frame.closure == place
    ||| exists|i: int| 0 <= i < s.frames.len() && (#[trigger] s.frames[i]).closure == place
    ||| s.open_upvalues.contains(place)
}

pub open spec fn roots(s: State) -> Set<usize> {
    Set::new(|place: usize| is_root(s, place))
}

/// The state after a collection: what cannot be reached is gone, and the
/// threshold is twice the number of bytes that are left in use.
pub open spec fn gc(s: State) -> State {
    let heap = collected(s.heap, roots(s));
    State { heap, next_gc: capped(2 * heap_bytes(heap)) as int, ..s }
}

/// The state after a collection and the addition of an object.
pub open spec fn allocated(s: State, obj: Obj) -> State {
    State { heap: added(gc(s).heap, obj), ..gc(s) }
}

/// Where that object is.
pub open spec fn allocated_at(s: State, obj: Obj) -> usize {
    new_place(gc(s).heap, obj)
}

/// To add an object and push it.
pub open spec fn push_new(s: State, obj: Obj) -> Outcome {
    push(allocated(s, obj), Value::Object(allocated_at(s, obj)))
}

// ---------------------------------------------------------------------------
// Arrays.
// ---------------------------------------------------------------------------

/// The position that an index names in an array, or what comes of an index
/// that names none.
pub open spec fn position(s: State, values: Seq<Value>, index: Value) -> Result<int, Outcome> {
    match index {
        Value::Number(bits) => {
            let i = number::spec_to_index(bits) as int;
            if i < values.len() {
                Ok(i)
            } else if values.len() == 0 {
                Err(stuck(s))
            } else {
                Err(raise(s, Report::IndexOutOfRange { index: i, len: values.len() - 1 }))
            }
        },
        _ => Err(raise(s, Report::NotIndexable { type_: type_text(Type::Array) })),
    }
}

pub open spec fn array_access(s: State) -> Outcome {
    if !deep(s, 2) {
        stuck(s)
    } else {
        let index = peek(s, 0);
        let t = pops(s, 2);
        match peek(s, 1) {
            Value::Object(place) => match at(s.heap, place) {
                Some(Obj::Array { values, .. }) => match position(t, values, index) {
                    Ok(i) => push(t, values[i]),
                    Err(outcome) => outcome,
                },
                Some(obj) => raise(t, Report::NotIndexable { type_: type_text(object_type(obj)) }),
                None => stuck(t),
            },
            _ => stuck(t),
        }
    }
}

pub open spec fn array_access_assign(s: State) -> Outcome {
    if !deep(s, 3) {
        stuck(s)
    } else {
        let value = peek(s, 0);
        let index = peek(s, 1);
        let t = pops(s, 3);
        match peek(s, 2) {
            Value::Object(place) => match at(s.heap, place) {
                Some(Obj::Array { values, value_type }) => match position(t, values, index) {
                    Ok(i) => push(
                        State {
                            heap: store(
                                t.heap,
                                place,
                                Obj::Array { values: values.update(i, value), value_type },
                            ),
                            ..t
                        },
                        value,
                    ),
                    Err(outcome) => outcome,
                },
                Some(obj) => raise(t, Report::NotIndexable { type_: type_text(object_type(obj)) }),
                None => stuck(t),
            },
            _ => stuck(t),
        }
    }
}

/// The type that an array's elements get from the last of them.
pub open spec fn element_type(heap: Cells, last: Value) -> Option<Type> {
    match last {
        Value::Number(_) => Some(Type::Int),
        Value::Object(place) => match at(heap, place) {
            Some(Obj::Array { value_type, .. }) => Some(value_type),
            _ => None,
        },
        _ => None,
    }
}

/// Whether an array can be made: the next byte says how many elements it has,
/// at least one, the stack holds them, and the last of them gives their type.
pub open spec fn array_is_given(s: State) -> bool {
    &&& operands(s, 1)
    &&& 1 <= operand(s, 0) <= s.top
    &&& element_type(s.heap, peek(s, 0)) is Some
}

pub open spec fn array(s: State) -> Outcome {
    if array_is_given(s) {
        let n = operand(s, 0) as int;
        push_new(
            pops(skip(s, 1), n),
            Obj::Array {
                values: s.stack.subrange(s.top - n, s.top),
                value_type: element_type(s.heap, peek(s, 0))->0,
            },
        )
    } else {
        stuck(s)
    }
}

/// To raise that a value has no attribute of a name.
pub open spec fn no_attribute(s: State, value: Value, name: usize) -> Outcome {
    match type_of(s.heap, value) {
        Some(type_) => raise(
            s,
            Report::NoSuchAttribute { type_: type_text(type_), name: text(s.heap, name) },
        ),
        None => stuck(s),
    }
}

pub open spec fn get_array(s: State) -> Outcome {
    match name(s) {
        Some(name) => {
            let t = skip(s, 1);
            if !deep(t, 1) {
                stuck(t)
            } else {
                match peek(t, 0) {
                    Value::Object(place) if at(t.heap, place) matches Some(Obj::Array { .. }) => {
                        match array_method(text(t.heap, name)) {
                            Some(method) => {
                                let obj = Obj::BoundArrayMethod { array: place, method };
                                push(
                                    pops(allocated(t, obj), 1),
                                    Value::Object(allocated_at(t, obj)),
                                )
                            },
                            None => no_attribute(t, peek(t, 0), name),
                        }
                    },
                    value => no_attribute(t, value, name),
                }
            }
        },
        None => stuck(s),
    }
}

// ---------------------------------------------------------------------------
// Structs.
// ---------------------------------------------------------------------------

/// To raise that the struct named so has no attribute of a name.
pub open spec fn struct_lacks(s: State, struct_name: usize, name: usize) -> Outcome {
    if is_string(s.heap, struct_name) {
        raise(
            s,
            Report::NoSuchAttribute { type_: text(s.heap, struct_name), name: text(s.heap, name) },
        )
    } else {
        stuck(s)
    }
}

/// To put a method that is bound to its receiver where the topmost value is.
pub open spec fn bind(s: State, receiver: usize, method: usize) -> Outcome {
    let obj = Obj::BoundMethod { receiver, method };
    push(pops(allocated(s, obj), 1), Value::Object(allocated_at(s, obj)))
}

pub open spec fn get_super(s: State) -> Outcome {
    match name(s) {
        Some(name) => {
            let t = skip(s, 1);
            if !deep(t, 1) {
                stuck(t)
            } else {
                let u = pops(t, 1);
                match peek(t, 0) {
                    Value::Object(super_) => match at(t.heap, super_) {
                        Some(Obj::Struct { name: struct_name, methods, .. }) => match lookup_method(
                            methods,
                            name,
                        ) {
                            Some(method) => if !deep(u, 1) {
                                stuck(u)
                            } else {
                                match peek(u, 0) {
                                    Value::Object(receiver) => bind(u, receiver, method),
                                    _ => stuck(u),
                                }
                            },
                            None => struct_lacks(u, struct_name, name),
                        },
                        _ => stuck(u),
                    },
                    _ => stuck(u),
                }
            }
        },
        None => stuck(s),
    }
}

/// To raise that a value cannot be called.
pub open spec fn not_callable(s: State, value: Value) -> Outcome {
    match type_of(s.heap, value) {
        Some(type_) => raise(s, Report::NotCallable { type_: type_text(type_) }),
        None => stuck(s),
    }
}

pub open spec fn inherit(s: State) -> Outcome {
    if !deep(s, 2) {
        stuck(s)
    } else {
        let t = pops(s, 1);
        match peek(t, 0) {
            Value::Object(super_) if at(t.heap, super_) matches Some(Obj::Struct { .. }) => {
                match peek(s, 0) {
                    Value::Object(cstruct) => match at(t.heap, cstruct) {
                        Some(Obj::Struct { name, fields, .. }) => next(
                            State {
                                heap: store(
                                    t.heap,
                                    cstruct,
                                    Obj::Struct {
                                        name,
                                        methods: at(t.heap, super_)->0->Struct_methods,
                                        fields,
                                    },
                                ),
                                ..t
                            },
                        ),
                        _ => stuck(t),
                    },
                    _ => stuck(t),
                }
            },
            value => not_callable(t, value),
        }
    }
}

/// To go on as if no error had been raised.
pub open spec fn swallowed(outcome: Outcome) -> Outcome {
    match outcome.verdict {
        Ok(_) => outcome,
        Err(_) => next(outcome.state),
    }
}

pub open spec fn super_invoke(s: State) -> Outcome {
    match name(s) {
        Some(name) if operands(s, 2) => {
            let argc = operand(s, 1) as int;
            let t = skip(s, 2);
            if !deep(t, argc + 2) {
                stuck(t)
            } else {
                let u = pops(t, 1);
                match peek(t, 0) {
                    Value::Object(super_) => match at(t.heap, super_) {
                        Some(Obj::Struct { name: struct_name, methods, .. }) => match lookup_method(
                            methods,
                            name,
                        ) {
                            Some(method) => swallowed(call_closure(u, method, argc)),
                            None => swallowed(struct_lacks(u, struct_name, name)),
                        },
                        _ => stuck(u),
                    },
                    _ => stuck(u),
                }
            }
        },
        _ => stuck(s),
    }
}

pub open spec fn invoke(s: State) -> Outcome {
    match name(s) {
        Some(name) if operands(s, 2) => {
            let argc = operand(s, 1) as int;
            let t = skip(s, 2);
            if !deep(t, argc + 1) {
                stuck(t)
            } else {
                match peek(t, argc) {
                    Value::Object(instance) => match at(t.heap, instance) {
                        Some(Obj::Instance { struct_, fields }) => match lookup(fields, name) {
                            Some(value) => swallowed(call_value(t, value, argc)),
                            None => match at(t.heap, struct_) {
                                Some(
                                    Obj::Struct { name: struct_name, methods, .. },
                                ) => match lookup_method(methods, name) {
                                    Some(method) => swallowed(call_closure(t, method, argc)),
                                    None => swallowed(struct_lacks(t, struct_name, name)),
                                },
                                _ => stuck(t),
                            },
                        },
                        _ => stuck(t),
                    },
                    _ => stuck(t),
                }
            }
        },
        _ => stuck(s),
    }
}

pub open spec fn set_field(s: State) -> Outcome {
    match name(s) {
        Some(name) => {
            let t = skip(s, 1);
            if !deep(t, 1) {
                stuck(t)
            } else {
                let u = pops(t, 1);
                match peek(t, 0) {
                    Value::Object(instance) if at(t.heap, instance) matches Some(
                        Obj::Instance { .. },
                    ) => {
                        let struct_ = at(t.heap, instance)->0->struct_;
                        match at(t.heap, struct_) {
                            Some(
                                Obj::Struct { name: struct_name, methods, fields },
                            ) => if !deep(u, 1) {
                                stuck(u)
                            } else {
                                next(
                                    State {
                                        heap: store(
                                            u.heap,
                                            struct_,
                                            Obj::Struct {
                                                name: struct_name,
                                                methods,
                                                fields: fields.insert(name, peek(u, 0)),
                                            },
                                        ),
                                        ..u
                                    },
                                )
                            },
                            _ => stuck(u),
                        }
                    },
                    value => no_attribute(u, value, name),
                }
            }
        },
        None => stuck(s),
    }
}

pub open spec fn get_field(s: State) -> Outcome {
    match name(s) {
        Some(name) => {
            let t = skip(s, 1);
            if !deep(t, 1) {
                stuck(t)
            } else {
                match peek(t, 0) {
                    Value::Object(instance) if at(t.heap, instance) matches Some(
                        Obj::Instance { .. },
                    ) => match at(t.heap, at(t.heap, instance)->0->struct_) {
                        Some(Obj::Struct { methods, fields, .. }) => match lookup(fields, name) {
                            Some(value) => push(pops(t, 1), value),
                            None => match lookup_method(methods, name) {
                                Some(method) => bind(t, instance, method),
                                None => raise(
                                    t,
                                    Report::NoSuchAttribute {
                                        type_: "instance"@,
                                        name: text(t.heap, name),
                                    },
                                ),
                            },
                        },
                        _ => stuck(t),
                    },
                    value => no_attribute(t, value, name),
                }
            }
        },
        None => stuck(s),
    }
}

pub open spec fn field(s: State) -> Outcome {
    match name(s) {
        Some(name) => {
            let t = skip(s, 1);
            if !deep(t, 1) {
                stuck(t)
            } else {
                match peek(t, 0) {
                    Value::Object(cstruct) => match at(t.heap, cstruct) {
                        Some(Obj::Struct { name: struct_name, methods, fields }) => next(
                            State {
                                heap: store(
                                    t.heap,
                                    cstruct,
                                    Obj::Struct {
                                        name: struct_name,
                                        methods,
                                        fields: fields.insert(name, Value::Nil),
                                    },
                                ),
                                ..t
                            },
                        ),
                        _ => stuck(t),
                    },
                    _ => stuck(t),
                }
            }
        },
        None => stuck(s),
    }
}

pub open spec fn cstruct(s: State) -> Outcome {
    match name(s) {
        Some(name) => push_new(
            skip(s, 1),
            Obj::Struct { name, methods: no_entries(), fields: no_entries() },
        ),
        None => stuck(s),
    }
}

pub open spec fn method(s: State) -> Outcome {
    match name(s) {
        Some(name) => {
            let t = skip(s, 1);
            if !deep(t, 2) {
                stuck(t)
            } else {
                let u = pops(t, 1);
                match (peek(t, 0), peek(u, 0)) {
                    (Value::Object(closure), Value::Object(cstruct)) => match at(u.heap, cstruct) {
                        Some(Obj::Struct { name: struct_name, methods, fields }) => next(
                            State {
                                heap: store(
                                    u.heap,
                                    cstruct,
                                    Obj::Struct {
                                        name: struct_name,
                                        methods: methods.insert(name, Value::Object(closure)),
                                        fields,
                                    },
                                ),
                                ..u
                            },
                        ),
                        _ => stuck(u),
                    },
                    _ => stuck(u),
                }
            }
        },
        None => stuck(s),
    }
}

// ---------------------------------------------------------------------------
// Values, variables and upvalues.
// ---------------------------------------------------------------------------

pub open spec fn print(s: State, newline: bool) -> Outcome {
    if !deep(s, 1) {
        stuck(s)
    } else {
        went(pops(s, 1), Step::Print { value: peek(s, 0), newline })
    }
}

pub open spec fn pop(s: State) -> Outcome {
    if !deep(s, 1) {
        stuck(s)
    } else {
        next(pops(s, 1))
    }
}

pub open spec fn push_constant(s: State) -> Outcome {
    match constant(s) {
        Some(value) => push(skip(s, 1), value),
        None => stuck(s),
    }
}

/// The upvalue that the next byte names.
pub open spec fn upvalue(s: State) -> Option<usize> {
    if operands(s, 1) && operand(s, 0) < upvalues_here(s).len() {
        Some(upvalues_here(s)[operand(s, 0) as int])
    } else {
        None
    }
}

pub open spec fn set_upvalue(s: State) -> Outcome {
    match upvalue(s) {
        Some(place) if deep(s, 1) && at(s.heap, place) matches Some(Obj::Upvalue { .. }) => {
            let t = skip(s, 1);
            next(State { heap: store(t.heap, place, Obj::Upvalue { value: peek(s, 0) }), ..t })
        },
        _ => stuck(s),
    }
}

pub open spec fn get_upvalue(s: State) -> Outcome {
    match upvalue(s) {
        Some(place) => match at(s.heap, place) {
            Some(Obj::Upvalue { value }) => push(skip(s, 1), value),
            _ => stuck(s),
        },
        None => stuck(s),
    }
}

/// The first open upvalue, from a position on, whose value equals the given
/// one; `None` where the search meets something that is no upvalue.
pub open spec fn find_open(s: State, value: Value, from: int) -> Option<Option<usize>>
    decreases s.open_upvalues.len() - from,
{
    if from < 0 || from >= s.open_upvalues.len() {
        Some(None)
    } else {
        match at(s.heap, s.open_upvalues[from]) {
            Some(Obj::Upvalue { value: held }) => if equal(held, value) {
                Some(Some(s.open_upvalues[from]))
            } else {
                find_open(s, value, from + 1)
            },
            _ => None,
        }
    }
}

/// The state after a value was captured, and the upvalue that holds it: the
/// first open one that holds an equal value, or else a new one.
pub open spec fn captured(s: State, value: Value) -> Option<(State, usize)> {
    match find_open(s, value, 0) {
        Some(Some(place)) => Some((s, place)),
        Some(None) => {
            let obj = Obj::Upvalue { value };
            let t = allocated(s, obj);
            let place = allocated_at(s, obj);
            Some((State { open_upvalues: t.open_upvalues.push(place), ..t }, place))
        },
        None => None,
    }
}

/// The upvalue that the next two bytes describe, and the state after they were
/// read: the first byte says whether a slot of the frame is captured or an
/// upvalue of the closure that runs is taken over, the second says which.
pub open spec fn next_upvalue(s: State) -> Option<(State, usize)> {
    if !operands(s, 2) {
        None
    } else {
        let index = operand(s, 1) as int;
        let t = skip(s, 2);
        if operand(s, 0) != 0 {
            if t.frame.stack + index < STACK_MAX {
                captured(t, t.stack[t.frame.stack + index])
            } else {
                None
            }
        } else if index < upvalues_here(t).len() {
            Some((t, upvalues_here(t)[index]))
        } else {
            None
        }
    }
}

/// The upvalues that the next bytes describe, behind those at hand.
pub open spec fn next_upvalues(s: State, taken: Seq<usize>, n: nat) -> Option<(State, Seq<usize>)>
    decreases n,
{
    if n == 0 {
        Some((s, taken))
    } else {
        match next_upvalue(s) {
            Some((t, place)) => next_upvalues(t, taken.push(place), (n - 1) as nat),
            None => None,
        }
    }
}

pub open spec fn closure(s: State) -> Outcome {
    match constant(s) {
        Some(Value::Object(function)) => match at(s.heap, function) {
            Some(Obj::Function { function: f }) => match next_upvalues(
                skip(s, 1),
                Seq::empty(),
                f.upvalues as nat,
            ) {
                Some((t, upvalues)) => push_new(t, Obj::Closure { function, upvalues }),
                None => stuck(s),
            },
            _ => stuck(s),
        },
        _ => stuck(s),
    }
}

pub open spec fn get_local(s: State) -> Outcome {
    if operands(s, 1) && s.frame.stack + operand(s, 0) < STACK_MAX {
        push(skip(s, 1), s.stack[s.frame.stack + operand(s, 0)])
    } else {
        stuck(s)
    }
}

pub open spec fn set_local(s: State) -> Outcome {
    if operands(s, 1) && s.frame.stack + operand(s, 0) < STACK_MAX && deep(s, 1) {
        next(
            State {
                stack: s.stack.update(s.frame.stack + operand(s, 0), peek(s, 0)),
                ..skip(s, 1)
            },
        )
    } else {
        stuck(s)
    }
}

pub open spec fn set_global(s: State) -> Outcome {
    match name(s) {
        Some(name) if deep(s, 1) && s.globals.contains_key(name) => next(
            State { globals: s.globals.insert(name, peek(s, 0)), ..skip(s, 1) },
        ),
        _ => stuck(s),
    }
}

pub open spec fn get_global(s: State) -> Outcome {
    match name(s) {
        Some(name) => match lookup(s.globals, name) {
            Some(value) => push(skip(s, 1), value),
            None => stuck(s),
        },
        None => stuck(s),
    }
}

pub open spec fn define_global(s: State) -> Outcome {
    match name(s) {
        Some(name) if deep(s, 1) => next(
            State { globals: s.globals.insert(name, peek(s, 0)), ..pops(skip(s, 1), 1) },
        ),
        _ => stuck(s),
    }
}

// ---------------------------------------------------------------------------
// Jumps and calls.
// ---------------------------------------------------------------------------

/// The state after a jump forward over the code behind the offset.
pub open spec fn jump_by(s: State, offset: int) -> Outcome {
    if s.frame.ip + offset <= running(s)->0.code.len() {
        next(jumped(s, s.frame.ip + offset))
    } else {
        stuck(s)
    }
}

pub open spec fn jump(s: State) -> Outcome {
    if operands(s, 2) {
        jump_by(skip(s, 2), operand_u16(s))
    } else {
        stuck(s)
    }
}

pub open spec fn jump_if_false(s: State) -> Outcome {
    if operands(s, 2) && deep(s, 1) {
        if truthy(peek(s, 0)) {
            next(skip(s, 2))
        } else {
            jump_by(skip(s, 2), operand_u16(s))
        }
    } else {
        stuck(s)
    }
}

pub open spec fn loop_back(s: State) -> Outcome {
    if operands(s, 2) && operand_u16(s) <= s.frame.ip + 2 {
        next(jumped(s, s.frame.ip + 2 - operand_u16(s)))
    } else {
        stuck(s)
    }
}

/// The state after a call began.
pub open spec fn entered(s: State, closure: usize, argc: int) -> State {
    State {
        frames: s.frames.push(s.frame),
        frame: CallFrame { closure, ip: 0, stack: (s.top - argc - 1) as usize },
        ..s
    }
}

pub open spec fn call_closure(s: State, closure: usize, argc: int) -> Outcome {
    match function_of(s.heap, closure) {
        Some(f) => if argc != f.arity {
            if is_string(s.heap, f.name) {
                raise(
                    s,
                    Report::ArityMisMatch {
                        name: text(s.heap, f.name),
                        expected: f.arity as int,
                        actual: argc,
                    },
                )
            } else {
                stuck(s)
            }
        } else if s.frames.len() == FRAMES_MAX {
            raise(s, Report::StackOverflow)
        } else if !deep(s, argc + 1) {
            stuck(s)
        } else {
            next(entered(s, closure, argc))
        },
        None => stuck(s),
    }
}

pub open spec fn call_struct(s: State, cstruct: usize, argc: int) -> Outcome {
    let obj = Obj::Instance { struct_: cstruct, fields: no_entries() };
    if !deep(s, argc + 1) {
        stuck(s)
    } else {
        let t = poked(allocated(s, obj), argc, Value::Object(allocated_at(s, obj)));
        match at(t.heap, cstruct) {
            Some(Obj::Struct { name, methods, .. }) => match lookup_method(methods, t.init) {
                Some(method) => call_closure(t, method, argc),
                None => if argc == 0 {
                    next(t)
                } else if is_string(t.heap, name) {
                    raise(
                        t,
                        Report::ArityMisMatch {
                            name: text(t.heap, name),
                            expected: 0,
                            actual: argc,
                        },
                    )
                } else {
                    stuck(t)
                },
            },
            _ => stuck(t),
        }
    }
}

pub open spec fn call_bound_method(s: State, bound: usize, argc: int) -> Outcome {
    match at(s.heap, bound) {
        Some(Obj::BoundMethod { receiver, method }) => if !deep(s, argc + 1) {
            stuck(s)
        } else {
            call_closure(poked(s, argc, Value::Object(receiver)), method, argc)
        },
        _ => stuck(s),
    }
}

/// To raise that a method of arrays or a native function got the wrong number
/// of arguments.
pub open spec fn wrong_arity(s: State, name: Seq<char>, expected: int, actual: int) -> Outcome {
    raise(s, Report::ArityMisMatch { name, expected, actual })
}

pub open spec fn call_array_push(s: State, array: usize, argc: int) -> Outcome {
    if argc != 1 {
        wrong_arity(s, "push"@, 1, argc)
    } else if !deep(s, 1) {
        stuck(s)
    } else {
        let value = peek(s, 0);
        let t = pops(s, 1);
        match (at(s.heap, array), type_of(s.heap, value)) {
            (Some(Obj::Array { values, value_type }), Some(type_)) => if type_ == value_type {
                next(
                    State {
                        heap: store(
                            t.heap,
                            array,
                            Obj::Array { values: values.push(value), value_type },
                        ),
                        ..t
                    },
                )
            } else {
                raise(
                    t,
                    Report::ArrayValueTypeMismatch {
                        expected: type_text(value_type),
                        actual: type_text(type_),
                    },
                )
            },
            _ => stuck(t),
        }
    }
}

pub open spec fn call_array_pop(s: State, array: usize, argc: int) -> Outcome {
    if !deep(s, 1) {
        stuck(s)
    } else {
        let t = pops(s, 1);
        if argc != 0 {
            wrong_arity(t, "pop"@, 0, argc)
        } else {
            match at(t.heap, array) {
                Some(Obj::Array { values, value_type }) => if values.len() == 0 {
                    raise(t, Report::IndexOutOfRange { index: 0, len: 0 })
                } else {
                    push(
                        State {
                            heap: store(
                                t.heap,
                                array,
                                Obj::Array { values: values.drop_last(), value_type },
                            ),
                            ..t
                        },
                        values.last(),
                    )
                },
                _ => stuck(t),
            }
        }
    }
}

pub open spec fn call_array_get(s: State, array: usize, argc: int) -> Outcome {
    if !deep(s, 1) {
        stuck(s)
    } else if argc != 1 {
        wrong_arity(pops(s, 1), "get"@, 1, argc)
    } else if !deep(s, 2) {
        stuck(s)
    } else {
        let t = pops(s, 2);
        match (at(s.heap, array), peek(s, 1)) {
            (Some(Obj::Array { values, .. }), Value::Number(_)) => match position(
                t,
                values,
                peek(s, 1),
            ) {
                Ok(i) => push(t, values[i]),
                Err(outcome) => outcome,
            },
            _ => stuck(t),
        }
    }
}

pub open spec fn call_array_len(s: State, array: usize, argc: int) -> Outcome {
    if !deep(s, 1) {
        stuck(s)
    } else {
        let t = pops(s, 1);
        if argc != 0 {
            wrong_arity(t, "len"@, 0, argc)
        } else {
            match at(t.heap, array) {
                Some(Obj::Array { values, .. }) => push(
                    t,
                    Value::Number(number::spec_from_count(values.len() as u64)),
                ),
                _ => stuck(t),
            }
        }
    }
}

pub open spec fn call_array_type(s: State, array: usize, argc: int) -> Outcome {
    if !deep(s, 1) {
        stuck(s)
    } else {
        let t = pops(s, 1);
        if argc != 0 {
            wrong_arity(t, "type"@, 0, argc)
        } else {
            match at(t.heap, array) {
                Some(Obj::Array { .. }) => push_new(
                    t,
                    Obj::String { text: type_text(Type::Array) },
                ),
                _ => stuck(t),
            }
        }
    }
}

pub open spec fn call_bound_arr_method(s: State, bound: usize, argc: int) -> Outcome {
    match at(s.heap, bound) {
        Some(Obj::BoundArrayMethod { array, method }) => match method {
            ArrayMethod::Push => call_array_push(s, array, argc),
            ArrayMethod::Pop => call_array_pop(s, array, argc),
            ArrayMethod::Get => call_array_get(s, array, argc),
            ArrayMethod::Len => call_array_len(s, array, argc),
            ArrayMethod::Type => call_array_type(s, array, argc),
        },
        _ => stuck(s),
    }
}

pub open spec fn call_native(s: State, native: Native, argc: int) -> Outcome {
    if !deep(s, 1) {
        stuck(s)
    } else {
        let t = pops(s, 1);
        match native {
            Native::Clock => if argc != 0 {
                wrong_arity(t, "clock"@, 0, argc)
            } else {
                went(t, Step::Clock)
            },
            Native::RandomNumber => if argc != 0 {
                wrong_arity(t, "random_number"@, 0, argc)
            } else {
                went(t, Step::Random)
            },
        }
    }
}

pub open spec fn call_value(s: State, callee: Value, argc: int) -> Outcome {
    match callee {
        Value::Object(place) => match at(s.heap, place) {
            Some(Obj::Closure { .. }) => call_closure(s, place, argc),
            Some(Obj::Struct { .. }) => call_struct(s, place, argc),
            Some(Obj::BoundMethod { .. }) => call_bound_method(s, place, argc),
            Some(Obj::BoundArrayMethod { .. }) => call_bound_arr_method(s, place, argc),
            Some(Obj::Native { native }) => call_native(s, native, argc),
            _ => not_callable(s, callee),
        },
        _ => not_callable(s, callee),
    }
}

pub open spec fn call(s: State) -> Outcome {
    if operands(s, 1) && deep(s, operand(s, 0) + 1) {
        let argc = operand(s, 0) as int;
        call_value(skip(s, 1), peek(s, argc), argc)
    } else {
        stuck(s)
    }
}

/// To return: the frame's slots go, and its value takes the place of the
/// callee; without a call that waits, the program is at its end.
pub open spec fn return_value(s: State) -> Outcome {
    if !deep(s, 1) {
        stuck(s)
    } else {
        let value = peek(s, 0);
        let t = State { top: s.frame.stack as int, ..s };
        if t.frames.len() == 0 {
            went(t, Step::Finished)
        } else {
            push(State { frames: t.frames.drop_last(), frame: t.frames.last(), ..t }, value)
        }
    }
}

// ---------------------------------------------------------------------------
// Operators.
// ---------------------------------------------------------------------------

/// To raise that an operator does not take its operands.
pub open spec fn unsupported(s: State, op: Seq<char>, lhs: Value, rhs: Value) -> Outcome {
    match (type_of(s.heap, lhs), type_of(s.heap, rhs)) {
        (Some(lt), Some(rt)) => raise(
            s,
            Report::UnsupportedOperandInfix { op, lt_type: type_text(lt), rt_type: type_text(rt) },
        ),
        _ => stuck(s),
    }
}

/// An operation on two numbers, whose name in an error is `symbol`.
pub open spec fn arithmetic(s: State, op: Arithmetic, symbol: Seq<char>) -> Outcome {
    if !deep(s, 2) {
        stuck(s)
    } else {
        match (peek(s, 1), peek(s, 0)) {
            (Value::Number(lhs), Value::Number(rhs)) => went(
                pops(s, 2),
                Step::Compute { op, lhs, rhs },
            ),
            (lhs, rhs) => unsupported(pops(s, 2), symbol, lhs, rhs),
        }
    }
}

/// A comparison of two numbers.
#[derive(Clone, Copy, Debug, PartialEq, Eq, Structural)]
pub enum Comparison {
    Greater,
    GreaterEqual,
    Less,
    LessEqual,
}

/// Whether a comparison holds of two numbers.
pub open spec fn compares(comparison: Comparison, lhs: u64, rhs: u64) -> bool {
    match comparison {
        Comparison::Greater => number::spec_lt(rhs, lhs),
        Comparison::GreaterEqual => number::spec_le(rhs, lhs),
        Comparison::Less => number::spec_lt(lhs, rhs),
        Comparison::LessEqual => number::spec_le(lhs, rhs),
    }
}

pub open spec fn comparison(s: State, comparison: Comparison) -> Outcome {
    if !deep(s, 2) {
        stuck(s)
    } else {
        match (peek(s, 1), peek(s, 0)) {
            (Value::Number(lhs), Value::Number(rhs)) => push(
                pops(s, 2),
                Value::Bool(compares(comparison, lhs, rhs)),
            ),
            (lhs, rhs) => unsupported(pops(s, 2), "+"@, lhs, rhs),
        }
    }
}

pub open spec fn equality(s: State, wanted: bool) -> Outcome {
    if !deep(s, 2) {
        stuck(s)
    } else {
        push(pops(s, 2), Value::Bool(equal(peek(s, 0), peek(s, 1)) == wanted))
    }
}

pub open spec fn negate(s: State) -> Outcome {
    if !deep(s, 1) {
        stuck(s)
    } else {
        match peek(s, 0) {
            Value::Number(bits) => push(pops(s, 1), Value::Number(number::spec_neg(bits))),
            _ => stuck(s),
        }
    }
}

pub open spec fn concat(s: State) -> Outcome {
    if !deep(s, 2) {
        stuck(s)
    } else {
        let t = pops(s, 2);
        match (peek(s, 1), peek(s, 0)) {
            (Value::Object(lhs), Value::Object(rhs)) => match (at(s.heap, lhs), at(s.heap, rhs)) {
                (Some(Obj::String { text: left }), Some(Obj::String { text: right })) => push_new(
                    t,
                    Obj::String { text: left + right },
                ),
                _ => unsupported(t, "+"@, peek(s, 1), peek(s, 0)),
            },
            _ => stuck(t),
        }
    }
}

// ---------------------------------------------------------------------------
// The machine.
// ---------------------------------------------------------------------------

/// What the instruction with the byte does, once the byte has been read.
pub open spec fn instruction(s: State, byte: u8) -> Outcome {
    if byte == op::ARRAY_ACCESS {
        array_access(s)
    } else if byte == op::ARRAY_ACCESS_ASSIGN {
        array_access_assign(s)
    } else if byte == op::ARRAY {
        array(s)
    } else if byte == op::GET_ARRAY {
        get_array(s)
    } else if byte == op::GET_SUPER {
        get_super(s)
    } else if byte == op::INHERIT {
        inherit(s)
    } else if byte == op::SUPER_INVOKE {
        super_invoke(s)
    } else if byte == op::INVOKE {
        invoke(s)
    } else if byte == op::SET_FIELD {
        set_field(s)
    } else if byte == op::GET_FIELD {
        get_field(s)
    } else if byte == op::FIELD {
        field(s)
    } else if byte == op::STRUCT {
        cstruct(s)
    } else if byte == op::METHOD {
        method(s)
    } else if byte == op::CECILE_CONSTANT {
        push_constant(s)
    } else if byte == op::ADD {
        arithmetic(s, Arithmetic::Add, "+"@)
    } else if byte == op::CONCAT {
        concat(s)
    } else if byte == op::SUB {
        arithmetic(s, Arithmetic::Sub, "+"@)
    } else if byte == op::MUL {
        arithmetic(s, Arithmetic::Mul, "+"@)
    } else if byte == op::DIV {
        arithmetic(s, Arithmetic::Div, "+"@)
    } else if byte == op::EQUAL {
        equality(s, true)
    } else if byte == op::NOT_EQUAL {
        equality(s, false)
    } else if byte == op::NEG {
        negate(s)
    } else if byte == op::MODULO {
        arithmetic(s, Arithmetic::Rem, "%"@)
    } else if byte == op::GREATER_THAN {
        comparison(s, Comparison::Greater)
    } else if byte == op::GREATER_THAN_EQUAL {
        comparison(s, Comparison::GreaterEqual)
    } else if byte == op::PRINT {
        print(s, false)
    } else if byte == op::PRINT_LN {
        print(s, true)
    } else if byte == op::CALL {
        call(s)
    } else if byte == op::CLOSURE {
        closure(s)
    } else if byte == op::LOOP {
        loop_back(s)
    } else if byte == op::JUMP {
        jump(s)
    } else if byte == op::JUMP_IF_FALSE {
        jump_if_false(s)
    } else if byte == op::GET_LOCAL {
        get_local(s)
    } else if byte == op::SET_LOCAL {
        set_local(s)
    } else if byte == op::SET_UPVALUE {
        set_upvalue(s)
    } else if byte == op::GET_UPVALUE {
        get_upvalue(s)
    } else if byte == op::SET_GLOBAL {
        set_global(s)
    } else if byte == op::LESS_THAN {
        comparison(s, Comparison::Less)
    } else if byte == op::LESS_THAN_EQUAL {
        comparison(s, Comparison::LessEqual)
    } else if byte == op::GET_GLOBAL {
        get_global(s)
    } else if byte == op::DEFINE_GLOBAL {
        define_global(s)
    } else if byte == op::TRUE {
        push(s, Value::Bool(true))
    } else if byte == op::FALSE {
        push(s, Value::Bool(false))
    } else if byte == op::NIL {
        push(s, Value::Nil)
    } else if byte == op::CLOSE_UPVALUE {
        pop(s)
    } else if byte == op::POP {
        pop(s)
    } else if byte == op::RETURN {
        return_value(s)
    } else {
        stuck(s)
    }
}

/// What the instruction at hand does.
pub open spec fn dispatch(s: State) -> Outcome {
    if operands(s, 1) {
        instruction(skip(s, 1), operand(s, 0))
    } else {
        stuck(s)
    }
}

/// What the instruction at hand does where a random number, if one is asked
/// for, comes out so.
pub open spec fn step(s: State, roll: u64) -> Outcome {
    let outcome = dispatch(s);
    if outcome.verdict == Ok::<Step, (Report, Span)>(Step::Random) {
        push(outcome.state, Value::Number(number::spec_from_count(roll)))
    } else {
        outcome
    }
}

/// Whether so many random numbers can have come out.
pub open spec fn are_rolls(rolls: Seq<u64>, n: nat) -> bool {
    rolls.len() == n && forall|i: int| 0 <= i < n ==> 1 <= #[trigger] rolls[i] <= 100
}

/// What the next instructions do, as many as there are numbers in `rolls`, or
/// fewer where one of them ends the program, raises an error, gets stuck or
/// asks for something. Each instruction has a random number of its own, which
/// most of them have no use for.
pub open spec fn advance(s: State, rolls: Seq<u64>) -> Outcome
    decreases rolls.len(),
{
    if rolls.len() == 0 {
        next(s)
    } else {
        let outcome = step(s, rolls[0]);
        if outcome.verdict == Ok::<Step, (Report, Span)>(Step::Next) {
            advance(outcome.state, rolls.drop_first())
        } else {
            outcome
        }
    }
}

/// The state in which a function begins to run: its closure is added without a
/// collection, and the stack is empty.
pub open spec fn started(s: State, function: usize) -> State {
    let obj = Obj::Closure { function, upvalues: Seq::empty() };
    State {
        heap: added(s.heap, obj),
        top: 0,
        frames: Seq::empty(),
        frame: CallFrame { closure: new_place(s.heap, obj), ip: 0, stack: 0 },
        ..s
    }
}

/// The threshold of a new machine.
pub const FIRST_GC: usize = 1024 * 1024;

/// A new machine over a heap: its globals are the two functions that it brings
/// along, and no closure runs, which is what the largest place stands for.
pub open spec fn fresh(heap: Cells) -> State {
    let clock_name = Obj::String { text: "clock"@ };
    let random_name = Obj::String { text: "random_number"@ };
    let clock = Obj::Native { native: Native::Clock };
    let random = Obj::Native { native: Native::RandomNumber };
    let init = Obj::String { text: "new"@ };
    let heap1 = added(heap, clock_name);
    let heap2 = added(heap1, random_name);
    let heap3 = added(heap2, clock);
    let heap4 = added(heap3, random);
    State {
        heap: added(heap4, init),
        stack: Seq::new(STACK_MAX as nat, |i: int| Value::Nil),
        top: 0,
        frames: Seq::empty(),
        frame: CallFrame { closure: usize::MAX, ip: 0, stack: 0 },
        globals: no_entries().insert(
            new_place(heap, clock_name),
            Value::Object(new_place(heap2, clock)),
        ).insert(new_place(heap1, random_name), Value::Object(new_place(heap3, random))),
        open_upvalues: Seq::empty(),
        init: new_place(heap4, init),
        next_gc: FIRST_GC as int,
    }
}

} // verus!
