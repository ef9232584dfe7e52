//! Laws of every instruction and of every run.
use crate::error::{Report, Span};
use crate::heap::{at, interned, lemma_store_interned, store, Cells};
use crate::laws::memory::{lemma_added_interned, lemma_collected_interned};
use crate::object::{array_method, Obj};
use crate::semantics;
use crate::semantics::{
    advance, allocated, dispatch, instruction, next_upvalue, next_upvalues,
    span_here, started, step, valid, Arithmetic, Comparison, Outcome, State, Step,
};
use crate::table::no_entries;
use crate::value::{type_text, Type, Value};
use vstd::prelude::*;

verus! {

/// Whether an object can have become the other: an upvalue can have got
/// another value, a struct other methods and fields, and an array other
/// elements; nothing else changes.
pub open spec fn became(before: Obj, after: Obj) -> bool {
    match (before, after) {
        (Obj::Upvalue { .. }, Obj::Upvalue { .. }) => true,
        (Obj::Struct { name, .. }, Obj::Struct { name: after_name, .. }) => name == after_name,
        (Obj::Array { value_type, .. }, Obj::Array { value_type: after_type, .. }) => value_type
            == after_type,
        _ => before == after,
    }
}

/// Whether a heap can have become the other: no place has been given to
/// another object, and what is gone stays gone.
pub open spec fn outlives(before: Cells, after: Cells) -> bool {
    &&& before.len() <= after.len()
    &&& forall|i: int|
        0 <= i < before.len() ==> match (before[i], #[trigger] after[i]) {
            (_, None) => true,
            (Some(obj), Some(later)) => became(obj, later),
            (None, Some(_)) => false,
        }
}

pub open spec fn is_stuck(outcome: Outcome) -> bool {
    outcome.verdict == Ok::<Step, (Report, Span)>(Step::Stuck)
}

/// What holds of what an instruction does, unless it gets stuck: the state
/// stays valid, the heap keeps its places, and an error has the source of the
/// last byte that was read.
pub open spec fn sound(s: State, outcome: Outcome) -> bool {
    !is_stuck(outcome) ==> {
        &&& valid(outcome.state)
        &&& outlives(s.heap, outcome.state.heap)
        &&& outcome.verdict matches Err((_, span)) ==> span_here(outcome.state) == Some(span)
    }
}

proof fn lemma_outlives_transitive(a: Cells, b: Cells, c: Cells)
    requires
        outlives(a, b),
        outlives(b, c),
    ensures
        outlives(a, c),
{
    assert forall|i: int| 0 <= i < a.len() implies match (a[i], #[trigger] c[i]) {
        (_, None) => true,
        (Some(obj), Some(later)) => became(obj, later),
        (None, Some(_)) => false,
    } by {
        let between = b[i];
    }
}

proof fn lemma_store(cells: Cells, place: usize, obj: Obj)
    requires
        interned(cells),
        at(cells, place) matches Some(before) && became(before, obj),
        !(obj is String),
    ensures
        interned(store(cells, place, obj)),
        outlives(cells, store(cells, place, obj)),
{
    lemma_store_interned(cells, place, obj);
}

proof fn lemma_allocated(s: State, obj: Obj)
    requires
        valid(s),
    ensures
        valid(allocated(s, obj)),
        outlives(s.heap, allocated(s, obj).heap),
{
    lemma_collected_interned(s.heap, semantics::roots(s));
    lemma_added_interned(semantics::gc(s).heap, obj);
}

proof fn lemma_array_access(s: State)
    requires
        valid(s),
    ensures
        sound(s, semantics::array_access(s)),
{
}

proof fn lemma_array_access_assign(s: State)
    requires
        valid(s),
    ensures
        sound(s, semantics::array_access_assign(s)),
{
    if let Value::Object(place) = semantics::peek(s, 2) {
        if let Some(Obj::Array { values, value_type }) = at(s.heap, place) {
            let t = semantics::pops(s, 3);
            if let Ok(i) = semantics::position(t, values, semantics::peek(s, 1)) {
                lemma_store(
                    s.heap,
                    place,
                    Obj::Array { values: values.update(i, semantics::peek(s, 0)), value_type },
                );
            }
        }
    }
}

proof fn lemma_array(s: State)
    requires
        valid(s),
    ensures
        sound(s, semantics::array(s)),
{
    let n = semantics::operand(s, 0) as int;
    let t = semantics::skip(s, 1);
    if let Some(value_type) = semantics::element_type(t.heap, semantics::peek(t, 0)) {
        if semantics::deep(t, n) {
            lemma_allocated(
                semantics::pops(t, n),
                Obj::Array { values: t.stack.subrange(t.top - n, t.top), value_type },
            );
        }
    }
}

proof fn lemma_get_array(s: State)
    requires
        valid(s),
    ensures
        sound(s, semantics::get_array(s)),
{
    if let Some(name) = semantics::name(s) {
        let t = semantics::skip(s, 1);
        if let Value::Object(array) = semantics::peek(t, 0) {
            if let Some(method) = array_method(semantics::text(t.heap, name)) {
                lemma_allocated(t, Obj::BoundArrayMethod { array, method });
            }
        }
    }
}

proof fn lemma_bind(s: State, receiver: usize, method: usize)
    requires
        valid(s),
        semantics::deep(s, 1),
    ensures
        sound(s, semantics::bind(s, receiver, method)),
{
    lemma_allocated(s, Obj::BoundMethod { receiver, method });
}

proof fn lemma_get_super(s: State)
    requires
        valid(s),
    ensures
        sound(s, semantics::get_super(s)),
{
    if let Some(name) = semantics::name(s) {
        let t = semantics::skip(s, 1);
        let u = semantics::pops(t, 1);
        if semantics::deep(u, 1) {
            if let (Value::Object(super_), Value::Object(receiver)) = (
                semantics::peek(t, 0),
                semantics::peek(u, 0),
            ) {
                if let Some(Obj::Struct { methods, .. }) = at(t.heap, super_) {
                    if let Some(method) = semantics::lookup_method(methods, name) {
                        lemma_bind(u, receiver, method);
                    }
                }
            }
        }
    }
}

proof fn lemma_inherit(s: State)
    requires
        valid(s),
    ensures
        sound(s, semantics::inherit(s)),
{
    if let (Value::Object(super_), Value::Object(cstruct)) = (
        semantics::peek(semantics::pops(s, 1), 0),
        semantics::peek(s, 0),
    ) {
        if let (Some(Obj::Struct { methods, .. }), Some(Obj::Struct { name, fields, .. })) = (
            at(s.heap, super_),
            at(s.heap, cstruct),
        ) {
            lemma_store(s.heap, cstruct, Obj::Struct { name, methods, fields });
        }
    }
}

proof fn lemma_call_closure(s: State, closure: usize, argc: int)
    requires
        valid(s),
        0 <= argc,
    ensures
        sound(s, semantics::call_closure(s, closure, argc)),
{
}

proof fn lemma_call_struct(s: State, cstruct: usize, argc: int)
    requires
        valid(s),
        0 <= argc,
    ensures
        sound(s, semantics::call_struct(s, cstruct, argc)),
{
    let obj = Obj::Instance { struct_: cstruct, fields: no_entries() };
    lemma_allocated(s, obj);
    if semantics::deep(s, argc + 1) {
        let t = semantics::poked(
            allocated(s, obj),
            argc,
            Value::Object(semantics::allocated_at(s, obj)),
        );
        if let Some(Obj::Struct { methods, .. }) = at(t.heap, cstruct) {
            if let Some(method) = semantics::lookup_method(methods, t.init) {
                lemma_call_closure(t, method, argc);
            }
        }
    }
}

proof fn lemma_call_bound_arr_method(s: State, bound: usize, argc: int)
    requires
        valid(s),
        0 <= argc,
    ensures
        sound(s, semantics::call_bound_arr_method(s, bound, argc)),
{
    if let Some(Obj::BoundArrayMethod { array, method }) = at(s.heap, bound) {
        if let Some(Obj::Array { values, value_type }) = at(s.heap, array) {
            lemma_store(
                s.heap,
                array,
                Obj::Array { values: values.push(semantics::peek(s, 0)), value_type },
            );
            lemma_store(s.heap, array, Obj::Array { values: values.drop_last(), value_type });
            if semantics::deep(s, 1) {
                lemma_allocated(
                    semantics::pops(s, 1),
                    Obj::String { text: type_text(Type::Array) },
                );
            }
        }
    }
}

proof fn lemma_call_value(s: State, callee: Value, argc: int)
    requires
        valid(s),
        0 <= argc,
    ensures
        sound(s, semantics::call_value(s, callee, argc)),
{
    if let Value::Object(place) = callee {
        match at(s.heap, place) {
            Some(Obj::Closure { .. }) => {
                lemma_call_closure(s, place, argc);
            },
            Some(Obj::Struct { .. }) => {
                lemma_call_struct(s, place, argc);
            },
            Some(Obj::BoundMethod { receiver, method }) => {
                if semantics::deep(s, argc + 1) {
                    lemma_call_closure(
                        semantics::poked(s, argc, Value::Object(receiver)),
                        method,
                        argc,
                    );
                }
            },
            Some(Obj::BoundArrayMethod { .. }) => {
                lemma_call_bound_arr_method(s, place, argc);
            },
            _ => {},
        }
    }
}

proof fn lemma_super_invoke(s: State)
    requires
        valid(s),
    ensures
        sound(s, semantics::super_invoke(s)),
{
    if let Some(name) = semantics::name(s) {
        let argc = semantics::operand(s, 1) as int;
        let t = semantics::skip(s, 2);
        let u = semantics::pops(t, 1);
        if semantics::deep(t, argc + 2) {
            if let Value::Object(super_) = semantics::peek(t, 0) {
                if let Some(Obj::Struct { methods, .. }) = at(t.heap, super_) {
                    if let Some(method) = semantics::lookup_method(methods, name) {
                        lemma_call_closure(u, method, argc);
                    }
                }
            }
        }
    }
}

proof fn lemma_invoke(s: State)
    requires
        valid(s),
    ensures
        sound(s, semantics::invoke(s)),
{
    if let Some(name) = semantics::name(s) {
        let argc = semantics::operand(s, 1) as int;
        let t = semantics::skip(s, 2);
        if let Value::Object(instance) = semantics::peek(t, argc) {
            if let Some(Obj::Instance { struct_, fields }) = at(t.heap, instance) {
                if let Some(value) = semantics::lookup(fields, name) {
                    lemma_call_value(t, value, argc);
                }
                if let Some(Obj::Struct { methods, .. }) = at(t.heap, struct_) {
                    if let Some(method) = semantics::lookup_method(methods, name) {
                        lemma_call_closure(t, method, argc);
                    }
                }
            }
        }
    }
}

proof fn lemma_set_field(s: State)
    requires
        valid(s),
    ensures
        sound(s, semantics::set_field(s)),
{
    if let Some(name) = semantics::name(s) {
        let t = semantics::skip(s, 1);
        let u = semantics::pops(t, 1);
        if let Value::Object(instance) = semantics::peek(t, 0) {
            if let Some(Obj::Instance { struct_, .. }) = at(t.heap, instance) {
                if let Some(Obj::Struct { name: struct_name, methods, fields }) = at(
                    t.heap,
                    struct_,
                ) {
                    lemma_store(
                        u.heap,
                        struct_,
                        Obj::Struct {
                            name: struct_name,
                            methods,
                            fields: fields.insert(name, semantics::peek(u, 0)),
                        },
                    );
                }
            }
        }
    }
}

proof fn lemma_get_field(s: State)
    requires
        valid(s),
    ensures
        sound(s, semantics::get_field(s)),
{
    if let Some(name) = semantics::name(s) {
        let t = semantics::skip(s, 1);
        if semantics::deep(t, 1) {
            if let Value::Object(instance) = semantics::peek(t, 0) {
                if let Some(Obj::Instance { struct_, .. }) = at(t.heap, instance) {
                    if let Some(Obj::Struct { methods, .. }) = at(t.heap, struct_) {
                        if let Some(method) = semantics::lookup_method(methods, name) {
                            lemma_bind(t, instance, method);
                        }
                    }
                }
            }
        }
    }
}

proof fn lemma_field(s: State)
    requires
        valid(s),
    ensures
        sound(s, semantics::field(s)),
{
    if let Some(name) = semantics::name(s) {
        if let Value::Object(cstruct) = semantics::peek(semantics::skip(s, 1), 0) {
            if let Some(Obj::Struct { name: struct_name, methods, fields }) = at(s.heap, cstruct) {
                lemma_store(
                    s.heap,
                    cstruct,
                    Obj::Struct {
                        name: struct_name,
                        methods,
                        fields: fields.insert(name, Value::Nil),
                    },
                );
            }
        }
    }
}

proof fn lemma_cstruct(s: State)
    requires
        valid(s),
    ensures
        sound(s, semantics::cstruct(s)),
{
    if let Some(name) = semantics::name(s) {
        lemma_allocated(
            semantics::skip(s, 1),
            Obj::Struct {
                name,
                methods: no_entries(),
                fields: no_entries(),
            },
        );
    }
}

proof fn lemma_method(s: State)
    requires
        valid(s),
    ensures
        sound(s, semantics::method(s)),
{
    if let Some(name) = semantics::name(s) {
        let t = semantics::skip(s, 1);
        let u = semantics::pops(t, 1);
        if let (Value::Object(closure), Value::Object(cstruct)) = (
            semantics::peek(t, 0),
            semantics::peek(u, 0),
        ) {
            if let Some(Obj::Struct { name: struct_name, methods, fields }) = at(u.heap, cstruct) {
                lemma_store(
                    u.heap,
                    cstruct,
                    Obj::Struct {
                        name: struct_name,
                        methods: methods.insert(name, Value::Object(closure)),
                        fields,
                    },
                );
            }
        }
    }
}

proof fn lemma_set_upvalue(s: State)
    requires
        valid(s),
    ensures
        sound(s, semantics::set_upvalue(s)),
{
    if let Some(place) = semantics::upvalue(s) {
        if let Some(Obj::Upvalue { .. }) = at(s.heap, place) {
            lemma_store(s.heap, place, Obj::Upvalue { value: semantics::peek(s, 0) });
        }
    }
}

proof fn lemma_next_upvalue(s: State)
    requires
        valid(s),
    ensures
        next_upvalue(s) matches Some((t, _)) ==> valid(t) && outlives(s.heap, t.heap),
{
    let t = semantics::skip(s, 2);
    let value = t.stack[t.frame.stack + semantics::operand(s, 1)];
    lemma_allocated(t, Obj::Upvalue { value });
}

proof fn lemma_next_upvalues(s: State, taken: Seq<usize>, n: nat)
    requires
        valid(s),
    ensures
        next_upvalues(s, taken, n) matches Some((t, _)) ==> valid(t) && outlives(s.heap, t.heap),
    decreases n,
{
    if n > 0 {
        lemma_next_upvalue(s);
        if let Some((t, place)) = next_upvalue(s) {
            lemma_next_upvalues(t, taken.push(place), (n - 1) as nat);
            if let Some((u, _)) = next_upvalues(t, taken.push(place), (n - 1) as nat) {
                lemma_outlives_transitive(s.heap, t.heap, u.heap);
            }
        }
    }
}

proof fn lemma_closure(s: State)
    requires
        valid(s),
    ensures
        sound(s, semantics::closure(s)),
{
    if let Some(Value::Object(function)) = semantics::constant(s) {
        if let Some(Obj::Function { function: f }) = at(s.heap, function) {
            let t = semantics::skip(s, 1);
            lemma_next_upvalues(t, Seq::empty(), f.upvalues as nat);
            if let Some((u, upvalues)) = next_upvalues(t, Seq::empty(), f.upvalues as nat) {
                let obj = Obj::Closure { function, upvalues };
                lemma_allocated(u, obj);
                lemma_outlives_transitive(s.heap, u.heap, allocated(u, obj).heap);
            }
        }
    }
}

proof fn lemma_concat(s: State)
    requires
        valid(s),
    ensures
        sound(s, semantics::concat(s)),
{
    if let (Value::Object(lhs), Value::Object(rhs)) = (
        semantics::peek(s, 1),
        semantics::peek(s, 0),
    ) {
        if let (Some(Obj::String { text: left }), Some(Obj::String { text: right })) = (
            at(s.heap, lhs),
            at(s.heap, rhs),
        ) {
            if semantics::deep(s, 2) {
                lemma_allocated(semantics::pops(s, 2), Obj::String { text: left + right });
            }
        }
    }
}

proof fn lemma_call(s: State)
    requires
        valid(s),
    ensures
        sound(s, semantics::call(s)),
{
    let argc = semantics::operand(s, 0) as int;
    lemma_call_value(semantics::skip(s, 1), semantics::peek(s, argc), argc);
}

proof fn lemma_operators(s: State, op: Arithmetic, symbol: Seq<char>, comparison: Comparison)
    requires
        valid(s),
    ensures
        sound(s, semantics::arithmetic(s, op, symbol)),
        sound(s, semantics::comparison(s, comparison)),
        sound(s, semantics::equality(s, true)),
        sound(s, semantics::equality(s, false)),
        sound(s, semantics::negate(s)),
{
}

proof fn lemma_variables(s: State, newline: bool)
    requires
        valid(s),
    ensures
        sound(s, semantics::print(s, newline)),
        sound(s, semantics::pop(s)),
        sound(s, semantics::push_constant(s)),
        sound(s, semantics::get_upvalue(s)),
        sound(s, semantics::get_local(s)),
        sound(s, semantics::set_local(s)),
        sound(s, semantics::set_global(s)),
        sound(s, semantics::get_global(s)),
        sound(s, semantics::define_global(s)),
{
}

proof fn lemma_jumps(s: State)
    requires
        valid(s),
    ensures
        sound(s, semantics::jump(s)),
        sound(s, semantics::jump_if_false(s)),
        sound(s, semantics::loop_back(s)),
        sound(s, semantics::return_value(s)),
{
}

/// Every instruction leaves a valid state valid, lets no place of the heap
/// pass to another object, and raises no error but with the source of the last
/// byte that was read; unless it gets stuck.
pub proof fn law_instructions_are_sound(s: State, byte: u8)
    requires
        valid(s),
    ensures
        sound(s, instruction(s, byte)),
{
    lemma_array_access(s);
    lemma_array_access_assign(s);
    lemma_array(s);
    lemma_get_array(s);
    lemma_get_super(s);
    lemma_inherit(s);
    lemma_super_invoke(s);
    lemma_invoke(s);
    lemma_set_field(s);
    lemma_get_field(s);
    lemma_field(s);
    lemma_cstruct(s);
    lemma_method(s);
    lemma_concat(s);
    lemma_operators(s, Arithmetic::Add, "+"@, Comparison::Greater);
    lemma_operators(s, Arithmetic::Sub, "+"@, Comparison::GreaterEqual);
    lemma_operators(s, Arithmetic::Mul, "+"@, Comparison::Less);
    lemma_operators(s, Arithmetic::Div, "+"@, Comparison::LessEqual);
    lemma_operators(s, Arithmetic::Rem, "%"@, Comparison::Less);
    lemma_variables(s, true);
    lemma_variables(s, false);
    lemma_jumps(s);
    lemma_call(s);
    lemma_closure(s);
    lemma_set_upvalue(s);
}

/// The same of an instruction whose byte is still to be read, whatever random
/// number comes out.
pub proof fn law_steps_are_sound(s: State, roll: u64)
    requires
        valid(s),
    ensures
        sound(s, dispatch(s)),
        sound(s, step(s, roll)),
{
    law_instructions_are_sound(semantics::skip(s, 1), semantics::operand(s, 0));
}

/// The same of a run, however long it is.
pub proof fn law_runs_are_sound(s: State, rolls: Seq<u64>)
    requires
        valid(s),
    ensures
        sound(s, advance(s, rolls)),
    decreases rolls.len(),
{
    if rolls.len() > 0 {
        law_steps_are_sound(s, rolls[0]);
        let outcome = step(s, rolls[0]);
        if outcome.verdict == Ok::<Step, (Report, Span)>(Step::Next) {
            law_runs_are_sound(outcome.state, rolls.drop_first());
            let end = advance(outcome.state, rolls.drop_first());
            if !is_stuck(end) {
                lemma_outlives_transitive(s.heap, outcome.state.heap, end.state.heap);
            }
        }
    }
}

/// To run for a while and then for another while is to run for both.
pub proof fn law_runs_can_be_cut(s: State, first: Seq<u64>, second: Seq<u64>)
    ensures
        advance(s, first + second) == ({
            let outcome = advance(s, first);
            if outcome.verdict == Ok::<Step, (Report, Span)>(Step::Next) {
                advance(outcome.state, second)
            } else {
                outcome
            }
        }),
    decreases first.len(),
{
    let all = first + second;
    if first.len() == 0 {
        assert(all =~= second);
    } else {
        assert(all.drop_first() =~= first.drop_first() + second);
        law_runs_can_be_cut(step(s, first[0]).state, first.drop_first(), second);
    }
}

/// A run begins in a valid state, with no call that waits and nothing on the
/// stack, and takes nothing from the heap.
pub proof fn law_start(s: State, function: usize)
    requires
        valid(s),
    ensures
        valid(started(s, function)),
        started(s, function).frames.len() == 0,
        started(s, function).top == 0,
        outlives(s.heap, started(s, function).heap),
{
    lemma_added_interned(s.heap, Obj::Closure { function, upvalues: Seq::empty() });
}

} // verus!
