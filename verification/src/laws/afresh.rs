//! A run does not depend on what earlier runs have left behind.
use crate::error::{Report, Span};
use crate::heap::at;
use crate::laws::memory::lemma_same_roots;
use crate::laws::steps::is_stuck;
use crate::number;
use crate::object::{array_method, Obj};
use crate::op;
use crate::semantics;
use crate::semantics::{
    advance, allocated, allocated_at, deep, dispatch, instruction, lookup, lookup_method, name,
    next, next_upvalue, next_upvalues, operand, operands, peek, pops, push, skip, started, step,
    valid, Arithmetic, Comparison, Outcome, State, Step, Verdict, STACK_MAX,
};
use crate::table::no_entries;
use crate::value::{type_text, Type, Value};
use vstd::prelude::*;

verus! {

/// Whether two states are alike for a program that has pushed to the lowest
/// `pushed` slots of the stack so far: they differ at most in the slots above
/// those, and in the threshold of the collector.
pub open spec fn alike(s: State, t: State, pushed: int) -> bool {
    &&& s.heap == t.heap
    &&& s.top == t.top
    &&& s.frames == t.frames
    &&& s.frame == t.frame
    &&& s.globals == t.globals
    &&& s.open_upvalues == t.open_upvalues
    &&& s.init == t.init
    &&& s.stack.len() == STACK_MAX
    &&& t.stack.len() == STACK_MAX
    &&& forall|i: int| 0 <= i < pushed ==> s.stack[i] == t.stack[i]
    &&& 0 <= s.top <= pushed <= STACK_MAX
    &&& s.frame.stack <= pushed
    &&& forall|i: int| 0 <= i < s.frames.len() ==> (#[trigger] s.frames[i]).stack <= pushed
}

/// How many slots have been pushed to, once the stack has the height `top`.
pub open spec fn highest(pushed: int, top: int) -> int {
    if top > pushed {
        top
    } else {
        pushed
    }
}

/// Whether two outcomes are alike: they answer the same and, unless they are
/// stuck, leave states that are alike.
pub open spec fn alike_outcomes(a: Outcome, b: Outcome, pushed: int) -> bool {
    &&& a.verdict == b.verdict
    &&& !is_stuck(a) ==> alike(a.state, b.state, highest(pushed, a.state.top))
}

/// Whether the next `n` upvalues are captured from slots that have been pushed
/// to, if they are captured from slots.
pub open spec fn captures_pushed(s: State, n: nat, pushed: int) -> bool
    decreases n,
{
    n == 0 || {
        &&& operands(s, 2) && operand(s, 0) != 0 ==> s.frame.stack + operand(s, 1) < pushed
        &&& next_upvalue(s) matches Some((t, _)) ==> captures_pushed(t, (n - 1) as nat, pushed)
    }
}

/// Whether the instruction with the byte, which has been read, reads no slot
/// but those that have been pushed to. Only a local and a closure can name
/// another: all else is read from below the top of the stack.
pub open spec fn reads_pushed(s: State, byte: u8, pushed: int) -> bool {
    &&& byte == op::GET_LOCAL && operands(s, 1) ==> s.frame.stack + operand(s, 0) < pushed
    &&& byte == op::CLOSURE ==> (semantics::constant(s) matches Some(Value::Object(function))
        ==> (at(s.heap, function) matches Some(Obj::Function { function: f }) ==> captures_pushed(
        skip(s, 1),
        f.upvalues as nat,
        pushed,
    )))
}

/// The same of the instruction at hand.
pub open spec fn step_reads_pushed(s: State, pushed: int) -> bool {
    operands(s, 1) ==> reads_pushed(skip(s, 1), operand(s, 0), pushed)
}

/// The same of a run, as long as [`advance`] follows it.
pub open spec fn run_reads_pushed(s: State, rolls: Seq<u64>, pushed: int) -> bool
    decreases rolls.len(),
{
    rolls.len() == 0 || {
        let outcome = step(s, rolls[0]);
        &&& step_reads_pushed(s, pushed)
        &&& outcome.verdict == Ok::<Step, (Report, Span)>(Step::Next) ==> run_reads_pushed(
            outcome.state,
            rolls.drop_first(),
            highest(pushed, outcome.state.top),
        )
    }
}

proof fn lemma_push(s: State, t: State, value: Value, pushed: int)
    requires
        alike(s, t, pushed),
    ensures
        alike_outcomes(push(s, value), push(t, value), pushed),
{
}

proof fn lemma_allocated(s: State, t: State, obj: Obj, pushed: int)
    requires
        alike(s, t, pushed),
    ensures
        alike(allocated(s, obj), allocated(t, obj), pushed),
        allocated_at(s, obj) == allocated_at(t, obj),
{
    lemma_same_roots(s, t);
}

proof fn lemma_push_new(s: State, t: State, obj: Obj, pushed: int)
    requires
        alike(s, t, pushed),
    ensures
        alike_outcomes(semantics::push_new(s, obj), semantics::push_new(t, obj), pushed),
{
    lemma_allocated(s, t, obj, pushed);
    lemma_push(
        allocated(s, obj),
        allocated(t, obj),
        Value::Object(allocated_at(s, obj)),
        pushed,
    );
}

/// What goes where the topmost value is, once an object has been added.
proof fn lemma_put_new(s: State, t: State, obj: Obj, pushed: int)
    requires
        alike(s, t, pushed),
        deep(s, 1),
    ensures
        alike_outcomes(
            push(pops(allocated(s, obj), 1), Value::Object(allocated_at(s, obj))),
            push(pops(allocated(t, obj), 1), Value::Object(allocated_at(t, obj))),
            pushed,
        ),
{
    lemma_allocated(s, t, obj, pushed);
    lemma_push(
        pops(allocated(s, obj), 1),
        pops(allocated(t, obj), 1),
        Value::Object(allocated_at(s, obj)),
        pushed,
    );
}

proof fn lemma_array_access(s: State, t: State, pushed: int)
    requires
        alike(s, t, pushed),
    ensures
        alike_outcomes(semantics::array_access(s), semantics::array_access(t), pushed),
{
}

proof fn lemma_array_access_assign(s: State, t: State, pushed: int)
    requires
        alike(s, t, pushed),
    ensures
        alike_outcomes(
            semantics::array_access_assign(s),
            semantics::array_access_assign(t),
            pushed,
        ),
{
}

proof fn lemma_array(s: State, t: State, pushed: int)
    requires
        alike(s, t, pushed),
    ensures
        alike_outcomes(semantics::array(s), semantics::array(t), pushed),
{
    if semantics::array_is_given(s) {
        let n = operand(s, 0) as int;
        let values = s.stack.subrange(s.top - n, s.top);
        assert(values =~= t.stack.subrange(t.top - n, t.top));
        lemma_push_new(
            pops(skip(s, 1), n),
            pops(skip(t, 1), n),
            Obj::Array {
                values,
                value_type: semantics::element_type(s.heap, peek(s, 0))->0,
            },
            pushed,
        );
    }
}

proof fn lemma_get_array(s: State, t: State, pushed: int)
    requires
        alike(s, t, pushed),
    ensures
        alike_outcomes(semantics::get_array(s), semantics::get_array(t), pushed),
{
    if let Some(name) = name(s) {
        let u = skip(s, 1);
        if deep(u, 1) {
            if let Value::Object(array) = peek(u, 0) {
                if let Some(method) = array_method(semantics::text(u.heap, name)) {
                    lemma_put_new(
                        u,
                        skip(t, 1),
                        Obj::BoundArrayMethod { array, method },
                        pushed,
                    );
                }
            }
        }
    }
}

proof fn lemma_get_super(s: State, t: State, pushed: int)
    requires
        alike(s, t, pushed),
    ensures
        alike_outcomes(semantics::get_super(s), semantics::get_super(t), pushed),
{
    if let Some(name) = name(s) {
        let u = skip(s, 1);
        let v = pops(u, 1);
        if deep(v, 1) {
            if let (Value::Object(super_), Value::Object(receiver)) = (peek(u, 0), peek(v, 0)) {
                if let Some(Obj::Struct { methods, .. }) = at(u.heap, super_) {
                    if let Some(method) = lookup_method(methods, name) {
                        lemma_put_new(
                            v,
                            pops(skip(t, 1), 1),
                            Obj::BoundMethod { receiver, method },
                            pushed,
                        );
                    }
                }
            }
        }
    }
}

proof fn lemma_inherit(s: State, t: State, pushed: int)
    requires
        alike(s, t, pushed),
    ensures
        alike_outcomes(semantics::inherit(s), semantics::inherit(t), pushed),
{
}

proof fn lemma_call_closure(s: State, t: State, closure: usize, argc: int, pushed: int)
    requires
        alike(s, t, pushed),
        0 <= argc,
    ensures
        alike_outcomes(
            semantics::call_closure(s, closure, argc),
            semantics::call_closure(t, closure, argc),
            pushed,
        ),
{
}

proof fn lemma_poked(s: State, t: State, distance: int, value: Value, pushed: int)
    requires
        alike(s, t, pushed),
        0 <= distance,
        deep(s, distance + 1),
    ensures
        alike(semantics::poked(s, distance, value), semantics::poked(t, distance, value), pushed),
{
}

proof fn lemma_call_struct(s: State, t: State, cstruct: usize, argc: int, pushed: int)
    requires
        alike(s, t, pushed),
        0 <= argc,
    ensures
        alike_outcomes(
            semantics::call_struct(s, cstruct, argc),
            semantics::call_struct(t, cstruct, argc),
            pushed,
        ),
{
    let obj = Obj::Instance { struct_: cstruct, fields: no_entries() };
    lemma_allocated(s, t, obj, pushed);
    if deep(s, argc + 1) {
        let value = Value::Object(allocated_at(s, obj));
        lemma_poked(allocated(s, obj), allocated(t, obj), argc, value, pushed);
        let u = semantics::poked(allocated(s, obj), argc, value);
        let v = semantics::poked(allocated(t, obj), argc, value);
        if let Some(Obj::Struct { methods, .. }) = at(u.heap, cstruct) {
            if let Some(method) = lookup_method(methods, u.init) {
                lemma_call_closure(u, v, method, argc, pushed);
            }
        }
    }
}

proof fn lemma_call_bound_arr_method(s: State, t: State, bound: usize, argc: int, pushed: int)
    requires
        alike(s, t, pushed),
        0 <= argc,
    ensures
        alike_outcomes(
            semantics::call_bound_arr_method(s, bound, argc),
            semantics::call_bound_arr_method(t, bound, argc),
            pushed,
        ),
{
    if deep(s, 1) {
        lemma_push_new(
            pops(s, 1),
            pops(t, 1),
            Obj::String { text: type_text(Type::Array) },
            pushed,
        );
    }
}

proof fn lemma_call_value(s: State, t: State, callee: Value, argc: int, pushed: int)
    requires
        alike(s, t, pushed),
        0 <= argc,
    ensures
        alike_outcomes(
            semantics::call_value(s, callee, argc),
            semantics::call_value(t, callee, argc),
            pushed,
        ),
{
    if let Value::Object(place) = callee {
        match at(s.heap, place) {
            Some(Obj::Closure { .. }) => {
                lemma_call_closure(s, t, place, argc, pushed);
            },
            Some(Obj::Struct { .. }) => {
                lemma_call_struct(s, t, place, argc, pushed);
            },
            Some(Obj::BoundMethod { receiver, method }) => {
                if deep(s, argc + 1) {
                    let value = Value::Object(receiver);
                    lemma_poked(s, t, argc, value, pushed);
                    lemma_call_closure(
                        semantics::poked(s, argc, value),
                        semantics::poked(t, argc, value),
                        method,
                        argc,
                        pushed,
                    );
                }
            },
            Some(Obj::BoundArrayMethod { .. }) => {
                lemma_call_bound_arr_method(s, t, place, argc, pushed);
            },
            _ => {},
        }
    }
}

proof fn lemma_super_invoke(s: State, t: State, pushed: int)
    requires
        alike(s, t, pushed),
    ensures
        alike_outcomes(semantics::super_invoke(s), semantics::super_invoke(t), pushed),
{
    if let Some(name) = name(s) {
        let argc = operand(s, 1) as int;
        let u = skip(s, 2);
        if deep(u, argc + 2) {
            if let Value::Object(super_) = peek(u, 0) {
                if let Some(Obj::Struct { methods, .. }) = at(u.heap, super_) {
                    if let Some(method) = lookup_method(methods, name) {
                        lemma_call_closure(
                            pops(u, 1),
                            pops(skip(t, 2), 1),
                            method,
                            argc,
                            pushed,
                        );
                    }
                }
            }
        }
    }
}

proof fn lemma_invoke(s: State, t: State, pushed: int)
    requires
        alike(s, t, pushed),
    ensures
        alike_outcomes(semantics::invoke(s), semantics::invoke(t), pushed),
{
    if let Some(name) = name(s) {
        let argc = operand(s, 1) as int;
        let u = skip(s, 2);
        let v = skip(t, 2);
        if deep(u, argc + 1) {
            if let Value::Object(instance) = peek(u, argc) {
                if let Some(Obj::Instance { struct_, fields }) = at(u.heap, instance) {
                    if let Some(value) = lookup(fields, name) {
                        lemma_call_value(u, v, value, argc, pushed);
                    }
                    if let Some(Obj::Struct { methods, .. }) = at(u.heap, struct_) {
                        if let Some(method) = lookup_method(methods, name) {
                            lemma_call_closure(u, v, method, argc, pushed);
                        }
                    }
                }
            }
        }
    }
}

proof fn lemma_set_field(s: State, t: State, pushed: int)
    requires
        alike(s, t, pushed),
    ensures
        alike_outcomes(semantics::set_field(s), semantics::set_field(t), pushed),
{
}

proof fn lemma_get_field(s: State, t: State, pushed: int)
    requires
        alike(s, t, pushed),
    ensures
        alike_outcomes(semantics::get_field(s), semantics::get_field(t), pushed),
{
    if let Some(name) = name(s) {
        let u = skip(s, 1);
        if deep(u, 1) {
            if let Value::Object(instance) = peek(u, 0) {
                if let Some(Obj::Instance { struct_, .. }) = at(u.heap, instance) {
                    if let Some(Obj::Struct { methods, .. }) = at(u.heap, struct_) {
                        if let Some(method) = lookup_method(methods, name) {
                            lemma_put_new(
                                u,
                                skip(t, 1),
                                Obj::BoundMethod { receiver: instance, method },
                                pushed,
                            );
                        }
                    }
                }
            }
        }
    }
}

proof fn lemma_field(s: State, t: State, pushed: int)
    requires
        alike(s, t, pushed),
    ensures
        alike_outcomes(semantics::field(s), semantics::field(t), pushed),
{
}

proof fn lemma_cstruct(s: State, t: State, pushed: int)
    requires
        alike(s, t, pushed),
    ensures
        alike_outcomes(semantics::cstruct(s), semantics::cstruct(t), pushed),
{
    if let Some(name) = name(s) {
        lemma_push_new(
            skip(s, 1),
            skip(t, 1),
            Obj::Struct { name, methods: no_entries(), fields: no_entries() },
            pushed,
        );
    }
}

proof fn lemma_method(s: State, t: State, pushed: int)
    requires
        alike(s, t, pushed),
    ensures
        alike_outcomes(semantics::method(s), semantics::method(t), pushed),
{
}

proof fn lemma_set_upvalue(s: State, t: State, pushed: int)
    requires
        alike(s, t, pushed),
    ensures
        alike_outcomes(semantics::set_upvalue(s), semantics::set_upvalue(t), pushed),
{
}

proof fn lemma_find_open(s: State, t: State, value: Value, from: int)
    requires
        s.heap == t.heap,
        s.open_upvalues == t.open_upvalues,
    ensures
        semantics::find_open(s, value, from) == semantics::find_open(t, value, from),
    decreases s.open_upvalues.len() - from,
{
    if 0 <= from < s.open_upvalues.len() {
        lemma_find_open(s, t, value, from + 1);
    }
}

proof fn lemma_next_upvalue(s: State, t: State, pushed: int)
    requires
        alike(s, t, pushed),
        captures_pushed(s, 1, pushed),
    ensures
        match (next_upvalue(s), next_upvalue(t)) {
            (Some((u, place)), Some((v, other))) => place == other && alike(u, v, pushed),
            (None, None) => true,
            _ => false,
        },
{
    let u = skip(s, 2);
    let v = skip(t, 2);
    let value = u.stack[u.frame.stack + operand(s, 1)];
    lemma_find_open(u, v, value, 0);
    lemma_allocated(u, v, Obj::Upvalue { value }, pushed);
}

proof fn lemma_next_upvalues(s: State, t: State, taken: Seq<usize>, n: nat, pushed: int)
    requires
        alike(s, t, pushed),
        captures_pushed(s, n, pushed),
    ensures
        match (next_upvalues(s, taken, n), next_upvalues(t, taken, n)) {
            (Some((u, upvalues)), Some((v, others))) => upvalues == others && alike(u, v, pushed),
            (None, None) => true,
            _ => false,
        },
    decreases n,
{
    if n > 0 {
        if let Some((u, _)) = next_upvalue(s) {
            assert(captures_pushed(u, 0, pushed));
        }
        assert(captures_pushed(s, 1, pushed));
        lemma_next_upvalue(s, t, pushed);
        if let (Some((u, place)), Some((v, _))) = (next_upvalue(s), next_upvalue(t)) {
            lemma_next_upvalues(u, v, taken.push(place), (n - 1) as nat, pushed);
        }
    }
}

proof fn lemma_closure(s: State, t: State, pushed: int)
    requires
        alike(s, t, pushed),
        reads_pushed(s, op::CLOSURE, pushed),
    ensures
        alike_outcomes(semantics::closure(s), semantics::closure(t), pushed),
{
    if let Some(Value::Object(function)) = semantics::constant(s) {
        if let Some(Obj::Function { function: f }) = at(s.heap, function) {
            let n = f.upvalues as nat;
            lemma_next_upvalues(skip(s, 1), skip(t, 1), Seq::empty(), n, pushed);
            if let (Some((u, upvalues)), Some((v, _))) = (
                next_upvalues(skip(s, 1), Seq::empty(), n),
                next_upvalues(skip(t, 1), Seq::empty(), n),
            ) {
                lemma_push_new(u, v, Obj::Closure { function, upvalues }, pushed);
            }
        }
    }
}

proof fn lemma_concat(s: State, t: State, pushed: int)
    requires
        alike(s, t, pushed),
    ensures
        alike_outcomes(semantics::concat(s), semantics::concat(t), pushed),
{
    if let (Value::Object(lhs), Value::Object(rhs)) = (peek(s, 1), peek(s, 0)) {
        if let (Some(Obj::String { text: left }), Some(Obj::String { text: right })) = (
            at(s.heap, lhs),
            at(s.heap, rhs),
        ) {
            if deep(s, 2) {
                lemma_push_new(
                    pops(s, 2),
                    pops(t, 2),
                    Obj::String { text: left + right },
                    pushed,
                );
            }
        }
    }
}

proof fn lemma_call(s: State, t: State, pushed: int)
    requires
        alike(s, t, pushed),
    ensures
        alike_outcomes(semantics::call(s), semantics::call(t), pushed),
{
    let argc = operand(s, 0) as int;
    lemma_call_value(skip(s, 1), skip(t, 1), peek(s, argc), argc, pushed);
}

proof fn lemma_get_local(s: State, t: State, pushed: int)
    requires
        alike(s, t, pushed),
        reads_pushed(s, op::GET_LOCAL, pushed),
    ensures
        alike_outcomes(semantics::get_local(s), semantics::get_local(t), pushed),
{
}

proof fn lemma_set_local(s: State, t: State, pushed: int)
    requires
        alike(s, t, pushed),
    ensures
        alike_outcomes(semantics::set_local(s), semantics::set_local(t), pushed),
{
}

proof fn lemma_return_value(s: State, t: State, pushed: int)
    requires
        alike(s, t, pushed),
    ensures
        alike_outcomes(semantics::return_value(s), semantics::return_value(t), pushed),
{
    if deep(s, 1) && s.frames.len() > 0 {
        let u = State {
            top: s.frame.stack as int,
            frames: s.frames.drop_last(),
            frame: s.frames.last(),
            ..s
        };
        let v = State {
            top: t.frame.stack as int,
            frames: t.frames.drop_last(),
            frame: t.frames.last(),
            ..t
        };
        assert(alike(u, v, pushed));
        lemma_push(u, v, peek(s, 0), pushed);
    }
}

proof fn lemma_operators(
    s: State,
    t: State,
    op: Arithmetic,
    symbol: Seq<char>,
    comparison: Comparison,
    pushed: int,
)
    requires
        alike(s, t, pushed),
    ensures
        alike_outcomes(
            semantics::arithmetic(s, op, symbol),
            semantics::arithmetic(t, op, symbol),
            pushed,
        ),
        alike_outcomes(
            semantics::comparison(s, comparison),
            semantics::comparison(t, comparison),
            pushed,
        ),
        alike_outcomes(semantics::equality(s, true), semantics::equality(t, true), pushed),
        alike_outcomes(semantics::equality(s, false), semantics::equality(t, false), pushed),
        alike_outcomes(semantics::negate(s), semantics::negate(t), pushed),
{
}

proof fn lemma_variables(s: State, t: State, newline: bool, pushed: int)
    requires
        alike(s, t, pushed),
    ensures
        alike_outcomes(semantics::print(s, newline), semantics::print(t, newline), pushed),
        alike_outcomes(semantics::pop(s), semantics::pop(t), pushed),
        alike_outcomes(semantics::push_constant(s), semantics::push_constant(t), pushed),
        alike_outcomes(semantics::get_upvalue(s), semantics::get_upvalue(t), pushed),
        alike_outcomes(semantics::set_global(s), semantics::set_global(t), pushed),
        alike_outcomes(semantics::get_global(s), semantics::get_global(t), pushed),
        alike_outcomes(semantics::define_global(s), semantics::define_global(t), pushed),
{
}

proof fn lemma_jumps(s: State, t: State, pushed: int)
    requires
        alike(s, t, pushed),
    ensures
        alike_outcomes(semantics::jump(s), semantics::jump(t), pushed),
        alike_outcomes(semantics::jump_if_false(s), semantics::jump_if_false(t), pushed),
        alike_outcomes(semantics::loop_back(s), semantics::loop_back(t), pushed),
{
}

/// An instruction that reads no slot but those that have been pushed to does
/// the same in states that are alike.
pub proof fn law_instructions_are_alike(s: State, t: State, byte: u8, pushed: int)
    requires
        alike(s, t, pushed),
        reads_pushed(s, byte, pushed),
    ensures
        alike_outcomes(instruction(s, byte), instruction(t, byte), pushed),
{
    lemma_array_access(s, t, pushed);
    lemma_array_access_assign(s, t, pushed);
    lemma_array(s, t, pushed);
    lemma_get_array(s, t, pushed);
    lemma_get_super(s, t, pushed);
    lemma_inherit(s, t, pushed);
    lemma_super_invoke(s, t, pushed);
    lemma_invoke(s, t, pushed);
    lemma_set_field(s, t, pushed);
    lemma_get_field(s, t, pushed);
    lemma_field(s, t, pushed);
    lemma_cstruct(s, t, pushed);
    lemma_method(s, t, pushed);
    lemma_concat(s, t, pushed);
    lemma_call(s, t, pushed);
    lemma_set_upvalue(s, t, pushed);
    lemma_set_local(s, t, pushed);
    lemma_return_value(s, t, pushed);
    if byte == op::CLOSURE {
        lemma_closure(s, t, pushed);
    }
    if byte == op::GET_LOCAL {
        lemma_get_local(s, t, pushed);
    }
    lemma_operators(s, t, Arithmetic::Add, "+"@, Comparison::Greater, pushed);
    lemma_operators(s, t, Arithmetic::Sub, "+"@, Comparison::GreaterEqual, pushed);
    lemma_operators(s, t, Arithmetic::Mul, "+"@, Comparison::Less, pushed);
    lemma_operators(s, t, Arithmetic::Div, "+"@, Comparison::LessEqual, pushed);
    lemma_operators(s, t, Arithmetic::Rem, "%"@, Comparison::Less, pushed);
    lemma_variables(s, t, true, pushed);
    lemma_variables(s, t, false, pushed);
    lemma_jumps(s, t, pushed);
    lemma_push(s, t, Value::Nil, pushed);
    lemma_push(s, t, Value::Bool(true), pushed);
    lemma_push(s, t, Value::Bool(false), pushed);
}

proof fn lemma_step(s: State, t: State, roll: u64, pushed: int)
    requires
        alike(s, t, pushed),
        step_reads_pushed(s, pushed),
    ensures
        alike_outcomes(step(s, roll), step(t, roll), pushed),
{
    if operands(s, 1) {
        law_instructions_are_alike(skip(s, 1), skip(t, 1), operand(s, 0), pushed);
    }
    let a = dispatch(s);
    let b = dispatch(t);
    if a.verdict == Ok::<Step, (Report, Span)>(Step::Random) {
        lemma_push(
            a.state,
            b.state,
            Value::Number(number::spec_from_count(roll)),
            highest(pushed, a.state.top),
        );
    }
}

/// A run that reads no slot but those that have been pushed to does the same
/// in states that are alike.
pub proof fn law_runs_are_alike(s: State, t: State, rolls: Seq<u64>, pushed: int)
    requires
        alike(s, t, pushed),
        run_reads_pushed(s, rolls, pushed),
    ensures
        advance(s, rolls).verdict == advance(t, rolls).verdict,
        !is_stuck(advance(s, rolls)) ==> exists|reached: int|
            reached >= pushed && #[trigger] alike(
                advance(s, rolls).state,
                advance(t, rolls).state,
                reached,
            ),
    decreases rolls.len(),
{
    if rolls.len() > 0 {
        lemma_step(s, t, rolls[0], pushed);
        let a = step(s, rolls[0]);
        let b = step(t, rolls[0]);
        if a.verdict == Ok::<Step, (Report, Span)>(Step::Next) {
            law_runs_are_alike(
                a.state,
                b.state,
                rolls.drop_first(),
                highest(pushed, a.state.top),
            );
        } else if !is_stuck(a) {
            assert(alike(a.state, b.state, highest(pushed, a.state.top)));
        }
    } else {
        assert(alike(advance(s, rolls).state, advance(t, rolls).state, pushed));
    }
}

/// What becomes of an instruction once its caller has done what it asked for:
/// the answer is pushed where one is due.
pub open spec fn answered(outcome: Outcome, answer: Value) -> Outcome {
    match outcome.verdict {
        Ok(Step::Compute { .. }) => push(outcome.state, answer),
        Ok(Step::Clock) => push(outcome.state, answer),
        Ok(Step::Print { .. }) => next(outcome.state),
        _ => outcome,
    }
}

/// [`step`], to be taken as a whole.
#[verifier::opaque]
pub open spec fn whole_step(s: State, roll: u64) -> Outcome {
    step(s, roll)
}

/// What the next instructions do, as many as there are numbers in `rolls`,
/// where their caller answers each with the value in `answers`: their steps,
/// and how it ends.
pub open spec fn conversation(s: State, rolls: Seq<u64>, answers: Seq<Value>) -> (
    Seq<Verdict>,
    Outcome,
)
    decreases rolls.len(),
{
    if rolls.len() == 0 {
        (Seq::empty(), next(s))
    } else {
        let outcome = whole_step(s, rolls[0]);
        let after = answered(outcome, answers[0]);
        if after.verdict == Ok::<Step, (Report, Span)>(Step::Next) {
            let (steps, end) = conversation(
                after.state,
                rolls.drop_first(),
                answers.drop_first(),
            );
            (seq![outcome.verdict] + steps, end)
        } else {
            (seq![outcome.verdict], after)
        }
    }
}

/// Whether a run reads no slot but those that have been pushed to, as long as
/// [`conversation`] follows it.
pub open spec fn conversation_reads_pushed(
    s: State,
    rolls: Seq<u64>,
    answers: Seq<Value>,
    pushed: int,
) -> bool
    decreases rolls.len(),
{
    rolls.len() == 0 || {
        let after = answered(whole_step(s, rolls[0]), answers[0]);
        &&& step_reads_pushed(s, pushed)
        &&& after.verdict == Ok::<Step, (Report, Span)>(Step::Next) ==> conversation_reads_pushed(
            after.state,
            rolls.drop_first(),
            answers.drop_first(),
            highest(highest(pushed, whole_step(s, rolls[0]).state.top), after.state.top),
        )
    }
}

proof fn lemma_answered(a: Outcome, b: Outcome, answer: Value, pushed: int)
    requires
        alike_outcomes(a, b, pushed),
    ensures
        alike_outcomes(
            answered(a, answer),
            answered(b, answer),
            highest(pushed, a.state.top),
        ),
{
    if !is_stuck(a) {
        lemma_push(a.state, b.state, answer, highest(pushed, a.state.top));
    }
}

proof fn lemma_whole_step(s: State, t: State, roll: u64, pushed: int)
    requires
        alike(s, t, pushed),
        step_reads_pushed(s, pushed),
    ensures
        alike_outcomes(whole_step(s, roll), whole_step(t, roll), pushed),
{
    reveal(whole_step);
    lemma_step(s, t, roll, pushed);
}

/// A run whose requests are answered, and which reads no slot but those that
/// have been pushed to, takes the same steps in states that are alike.
pub proof fn law_conversations_are_alike(
    s: State,
    t: State,
    rolls: Seq<u64>,
    answers: Seq<Value>,
    pushed: int,
)
    requires
        alike(s, t, pushed),
        conversation_reads_pushed(s, rolls, answers, pushed),
    ensures
        conversation(s, rolls, answers).0 == conversation(t, rolls, answers).0,
        conversation(s, rolls, answers).1.verdict == conversation(t, rolls, answers).1.verdict,
        !is_stuck(conversation(s, rolls, answers).1) ==> exists|reached: int|
            reached >= pushed && #[trigger] alike(
                conversation(s, rolls, answers).1.state,
                conversation(t, rolls, answers).1.state,
                reached,
            ),
    decreases rolls.len(),
{
    if rolls.len() > 0 {
        lemma_whole_step(s, t, rolls[0], pushed);
        let a = whole_step(s, rolls[0]);
        let b = whole_step(t, rolls[0]);
        let reached = highest(pushed, a.state.top);
        lemma_answered(a, b, answers[0], pushed);
        let c = answered(a, answers[0]);
        let d = answered(b, answers[0]);
        if c.verdict == Ok::<Step, (Report, Span)>(Step::Next) {
            let rest = rolls.drop_first();
            let later = answers.drop_first();
            let more = highest(reached, c.state.top);
            law_conversations_are_alike(c.state, d.state, rest, later, more);
            let e = conversation(c.state, rest, later).1;
            let f = conversation(d.state, rest, later).1;
            assert(conversation(s, rolls, answers).1 == e);
            assert(conversation(t, rolls, answers).1 == f);
            if !is_stuck(e) {
                let most = choose|most: int|
                    most >= more && #[trigger] alike(e.state, f.state, most);
                assert(most >= pushed);
            }
        } else {
            assert(conversation(s, rolls, answers).1 == c);
            assert(conversation(t, rolls, answers).1 == d);
            assert(!is_stuck(c) ==> alike(c.state, d.state, highest(reached, c.state.top)));
        }
    } else {
        assert(conversation(s, rolls, answers).1.state == s);
        assert(conversation(t, rolls, answers).1.state == t);
    }
}

/// Whether two machines have all in common that a run takes over from earlier
/// ones: what they hold on the stack and among the calls can differ.
pub open spec fn same_world(s: State, t: State) -> bool {
    &&& s.heap == t.heap
    &&& s.globals == t.globals
    &&& s.open_upvalues == t.open_upvalues
    &&& s.init == t.init
}

/// Whether two runs have ended alike: with the same world, the same calls, and
/// the same values on the stack.
pub open spec fn ended_alike(s: State, t: State) -> bool {
    &&& same_world(s, t)
    &&& s.frames == t.frames
    &&& s.frame == t.frame
    &&& s.top == t.top
    &&& s.stack.take(s.top) == t.stack.take(t.top)
}

proof fn lemma_alike_ended(s: State, t: State, reached: int)
    requires
        alike(s, t, reached),
    ensures
        ended_alike(s, t),
{
    assert(s.stack.take(s.top) =~= t.stack.take(t.top));
}

/// A run of a function does not depend on what an earlier run has left on the
/// stack and among the calls: machines that have all else in common run it
/// alike, as long as the code reads no slot that it has not pushed to. They
/// answer the same, and end with the same globals.
pub proof fn law_runs_start_afresh(s: State, t: State, function: usize, rolls: Seq<u64>)
    requires
        valid(s),
        valid(t),
        same_world(s, t),
        run_reads_pushed(started(s, function), rolls, 0),
    ensures
        ({
            let a = advance(started(s, function), rolls);
            let b = advance(started(t, function), rolls);
            &&& a.verdict == b.verdict
            &&& !is_stuck(a) ==> ended_alike(a.state, b.state)
        }),
{
    let u = started(s, function);
    let v = started(t, function);
    assert(alike(u, v, 0));
    law_runs_are_alike(u, v, rolls, 0);
    let a = advance(u, rolls);
    let b = advance(v, rolls);
    if !is_stuck(a) {
        let reached = choose|reached: int|
            reached >= 0 && #[trigger] alike(a.state, b.state, reached);
        lemma_alike_ended(a.state, b.state, reached);
    }
}

/// The same of a run whose requests are answered: it also asks for the same,
/// step by step.
pub proof fn law_conversations_start_afresh(
    s: State,
    t: State,
    function: usize,
    rolls: Seq<u64>,
    answers: Seq<Value>,
)
    requires
        valid(s),
        valid(t),
        same_world(s, t),
        conversation_reads_pushed(started(s, function), rolls, answers, 0),
    ensures
        ({
            let a = conversation(started(s, function), rolls, answers);
            let b = conversation(started(t, function), rolls, answers);
            &&& a.0 == b.0
            &&& a.1.verdict == b.1.verdict
            &&& !is_stuck(a.1) ==> ended_alike(a.1.state, b.1.state)
        }),
{
    let u = started(s, function);
    let v = started(t, function);
    assert(alike(u, v, 0));
    law_conversations_are_alike(u, v, rolls, answers, 0);
    let a = conversation(u, rolls, answers).1.state;
    let b = conversation(v, rolls, answers).1.state;
    if !is_stuck(conversation(u, rolls, answers).1) {
        let reached = choose|reached: int| reached >= 0 && #[trigger] alike(a, b, reached);
        lemma_alike_ended(a, b, reached);
    }
}

} // verus!
