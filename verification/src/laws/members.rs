//! What the instructions on structs and arrays do, object by object.
use crate::error::Report;
use crate::laws::doubles::{
    amount, is_a_number, is_finite, is_whole_part, law_count_is_a_number,
    law_index_is_the_whole_part,
};
use crate::laws::effects::lemma_made;
use crate::laws::plain::{
    asks, byte, changed, code, done, dropped, else_same, further, holds, kind, known, letters,
    made, names, obj, raises, ready, replaced, same_but_heap, under,
};
use crate::number;
use crate::object::{array_method, ArrayMethod, Obj};
use crate::op;
use crate::semantics;
use crate::semantics::{call_bound_arr_method, instruction, pops, skip, State, Step};
use crate::table::no_entries;
use crate::value::{type_text, Type, Value};
use vstd::arithmetic::power2::{lemma_pow2_pos, pow2};
use vstd::prelude::*;

verus! {

/// A struct is made with its name, without methods and without fields.
pub proof fn law_struct_is_made_empty(s: State, name: usize)
    requires
        holds(s, 0),
        s.top < 16384,
        names(s, name),
        s.heap.len() <= usize::MAX,
    ensures
        ({
            let o = instruction(s, op::STRUCT);
            &&& done(o)
            &&& o.state.stack[s.top] matches Value::Object(place) && made(
                s,
                o.state,
                Obj::Struct { name, methods: Map::empty(), fields: Map::empty() },
                place,
            )
            &&& replaced(s, o.state, 0, o.state.stack[s.top])
            &&& o.state.frame == further(s, 1)
            &&& same_but_heap(s, o.state)
        }),
{
    assert(no_entries() =~= Map::<usize, Value>::empty());
    lemma_made(
        s,
        skip(s, 1),
        Obj::Struct { name, methods: Map::empty(), fields: Map::empty() },
    );
}

/// A field is declared without a value, and a method is given under its name;
/// the struct on top stays there, and keeps all else.
pub proof fn law_struct_is_added_to(s: State, name: usize, place: usize)
    requires
        names(s, name),
    ensures
        holds(s, 1) && under(s, 0) == Value::Object(place) ==> (obj(s, place) matches Some(
            Obj::Struct { name: struct_name, methods, fields },
        ) ==> {
            let o = instruction(s, op::FIELD);
            &&& done(o)
            &&& changed(
                s,
                o.state,
                place,
                Obj::Struct {
                    name: struct_name,
                    methods,
                    fields: fields.insert(name, Value::Nil),
                },
            )
            &&& dropped(s, o.state, 0)
            &&& o.state.frame == further(s, 1)
            &&& same_but_heap(s, o.state)
        }),
        holds(s, 2) && under(s, 1) == Value::Object(place) && under(s, 0) is Object ==> (obj(
            s,
            place,
        ) matches Some(Obj::Struct { name: struct_name, methods, fields }) ==> {
            let o = instruction(s, op::METHOD);
            &&& done(o)
            &&& changed(
                s,
                o.state,
                place,
                Obj::Struct {
                    name: struct_name,
                    methods: methods.insert(name, under(s, 0)),
                    fields,
                },
            )
            &&& dropped(s, o.state, 1)
            &&& o.state.frame == further(s, 1)
            &&& same_but_heap(s, o.state)
        }),
{
}

/// The topmost struct gets the methods of the one below it, in place of its
/// own, and is taken away; the one below stays. What is no struct cannot be
/// inherited from.
pub proof fn law_topmost_struct_inherits(s: State, super_: Value, heir: usize)
    requires
        holds(s, 2),
        under(s, 1) == super_,
        under(s, 0) == Value::Object(heir),
    ensures
        super_ matches Value::Object(place) ==> (obj(s, place) matches Some(
            Obj::Struct { methods, .. },
        ) ==> (obj(s, heir) matches Some(Obj::Struct { name, fields, .. }) ==> {
            let o = instruction(s, op::INHERIT);
            &&& done(o)
            &&& changed(s, o.state, heir, Obj::Struct { name, methods, fields })
            &&& dropped(s, o.state, 1)
            &&& o.state.frame == s.frame
            &&& same_but_heap(s, o.state)
        })),
        !(super_ matches Value::Object(place) && (obj(s, place) matches Some(Obj::Struct { .. })))
            && kind(s, super_) is Some && known(s, 0) ==> {
            let o = instruction(s, op::INHERIT);
            &&& raises(s, 0, o, Report::NotCallable { type_: kind(s, super_)->0 })
            &&& dropped(s, o.state, 1)
            &&& else_same(s, o.state)
        },
{
}

/// A field is written to the struct of the topmost instance, which is taken
/// away; the value below stays. What is no instance has no field to write.
pub proof fn law_field_is_written(s: State, name: usize)
    requires
        names(s, name),
        holds(s, 1),
    ensures
        under(s, 0) matches Value::Object(instance) ==> (obj(s, instance) matches Some(
            Obj::Instance { struct_, .. },
        ) ==> (obj(s, struct_) matches Some(Obj::Struct { name: struct_name, methods, fields })
            ==> s.top >= 2 ==> {
            let o = instruction(s, op::SET_FIELD);
            &&& done(o)
            &&& changed(
                s,
                o.state,
                struct_,
                Obj::Struct {
                    name: struct_name,
                    methods,
                    fields: fields.insert(name, under(s, 1)),
                },
            )
            &&& dropped(s, o.state, 1)
            &&& o.state.frame == further(s, 1)
            &&& same_but_heap(s, o.state)
        })),
        !(under(s, 0) matches Value::Object(place) && (obj(s, place) matches Some(
            Obj::Instance { .. },
        ))) && kind(s, under(s, 0)) is Some && known(s, 1) ==> {
            let o = instruction(s, op::SET_FIELD);
            &&& raises(
                s,
                1,
                o,
                Report::NoSuchAttribute {
                    type_: kind(s, under(s, 0))->0,
                    name: letters(s, name),
                },
            )
            &&& dropped(s, o.state, 1)
            &&& else_same(s, o.state)
        },
{
    assert(skip(s, 1) == (State { frame: further(s, 1), ..s }));
    assert(known(s, 1) ==> code(skip(s, 1)) == code(s));
}

/// The value of a field comes in the place of the instance; a name that is no
/// field of the instance's struct gives its method, bound to the instance; and
/// a name that is neither is raised, as is one of what is no instance.
pub proof fn law_field_is_read(s: State, name: usize)
    requires
        names(s, name),
        holds(s, 1),
        s.heap.len() <= usize::MAX,
    ensures
        under(s, 0) matches Value::Object(instance) ==> (obj(s, instance) matches Some(
            Obj::Instance { struct_, .. },
        ) ==> (obj(s, struct_) matches Some(Obj::Struct { methods, fields, .. }) ==> {
            let o = instruction(s, op::GET_FIELD);
            &&& fields.contains_key(name) ==> {
                &&& done(o)
                &&& replaced(s, o.state, 1, fields[name])
                &&& o.state.frame == further(s, 1)
                &&& else_same(s, o.state)
            }
            &&& !fields.contains_key(name) && methods.contains_key(name) ==> (
            methods[name] matches Value::Object(method) ==> {
                &&& done(o)
                &&& o.state.stack[s.top - 1] matches Value::Object(place) && made(
                    s,
                    o.state,
                    Obj::BoundMethod { receiver: instance, method },
                    place,
                )
                &&& replaced(s, o.state, 1, o.state.stack[s.top - 1])
                &&& o.state.frame == further(s, 1)
                &&& same_but_heap(s, o.state)
            })
            &&& !fields.contains_key(name) && !methods.contains_key(name) && known(s, 1) ==> {
                &&& raises(
                    s,
                    1,
                    o,
                    Report::NoSuchAttribute { type_: "instance"@, name: letters(s, name) },
                )
                &&& dropped(s, o.state, 0)
                &&& else_same(s, o.state)
            }
        })),
        !(under(s, 0) matches Value::Object(place) && (obj(s, place) matches Some(
            Obj::Instance { .. },
        ))) && kind(s, under(s, 0)) is Some && known(s, 1) ==> {
            let o = instruction(s, op::GET_FIELD);
            &&& raises(
                s,
                1,
                o,
                Report::NoSuchAttribute {
                    type_: kind(s, under(s, 0))->0,
                    name: letters(s, name),
                },
            )
            &&& dropped(s, o.state, 0)
            &&& else_same(s, o.state)
        },
{
    assert(skip(s, 1) == (State { frame: further(s, 1), ..s }));
    if let Value::Object(instance) = under(s, 0) {
        if let Some(Obj::Instance { struct_, .. }) = obj(s, instance) {
            if let Some(Obj::Struct { methods, .. }) = obj(s, struct_) {
                if let Value::Object(method) = methods[name] {
                    lemma_made(s, skip(s, 1), Obj::BoundMethod { receiver: instance, method });
                }
            }
        }
    }
}

/// The topmost struct is taken away, and its method of the name, bound to the
/// instance below, comes in the place of the instance. A name that is none of
/// its methods is raised.
pub proof fn law_super_method_is_bound(s: State, name: usize, super_: usize)
    requires
        names(s, name),
        holds(s, 1),
        s.heap.len() <= usize::MAX,
        under(s, 0) == Value::Object(super_),
        obj(s, super_) matches Some(Obj::Struct { .. }),
    ensures
        obj(s, super_) matches Some(Obj::Struct { name: struct_name, methods, .. }) && {
            let o = instruction(s, op::GET_SUPER);
            &&& s.top >= 2 && methods.contains_key(name) ==> (methods[name] matches Value::Object(
                method,
            ) ==> (under(s, 1) matches Value::Object(receiver) ==> {
                &&& done(o)
                &&& o.state.stack[s.top - 2] matches Value::Object(place) && made(
                    s,
                    o.state,
                    Obj::BoundMethod { receiver, method },
                    place,
                )
                &&& replaced(s, o.state, 2, o.state.stack[s.top - 2])
                &&& o.state.frame == further(s, 1)
                &&& same_but_heap(s, o.state)
            }))
            &&& !methods.contains_key(name) && known(s, 1) ==> (obj(s, struct_name) matches Some(
                Obj::String { text },
            ) ==> {
                &&& raises(
                    s,
                    1,
                    o,
                    Report::NoSuchAttribute { type_: text, name: letters(s, name) },
                )
                &&& dropped(s, o.state, 1)
                &&& else_same(s, o.state)
            })
        },
{
    assert(skip(s, 1) == (State { frame: further(s, 1), ..s }));
    if let Some(Obj::Struct { methods, .. }) = obj(s, super_) {
        if let (Value::Object(method), Value::Object(receiver)) = (methods[name], under(s, 1)) {
            lemma_made(s, pops(skip(s, 1), 1), Obj::BoundMethod { receiver, method });
        }
    }
}

/// An array is made of the topmost values, as many as the byte says, in the
/// order in which they were pushed; the last of them gives the type of the
/// elements.
pub proof fn law_array_is_made(s: State, element_type: Type)
    requires
        ready(s, 1),
        byte(s, 0) >= 1,
        holds(s, byte(s, 0) as int),
        s.heap.len() <= usize::MAX,
        match under(s, 0) {
            Value::Number(_) => element_type == Type::Int,
            Value::Object(place) => obj(s, place) matches Some(Obj::Array { value_type, .. })
                && value_type == element_type,
            _ => false,
        },
    ensures
        ({
            let n = byte(s, 0) as int;
            let o = instruction(s, op::ARRAY);
            &&& done(o)
            &&& o.state.stack[s.top - n] matches Value::Object(place) && made(
                s,
                o.state,
                Obj::Array {
                    values: Seq::new(n as nat, |i: int| s.stack[s.top - n + i]),
                    value_type: element_type,
                },
                place,
            )
            &&& replaced(s, o.state, n, o.state.stack[s.top - n])
            &&& o.state.frame == further(s, 1)
            &&& same_but_heap(s, o.state)
        }),
{
    let n = byte(s, 0) as int;
    let values = s.stack.subrange(s.top - n, s.top);
    assert(values =~= Seq::new(n as nat, |i: int| s.stack[s.top - n + i]));
    lemma_made(s, pops(skip(s, 1), n), Obj::Array { values, value_type: element_type });
}

/// No array is made of nothing, nor of values whose last is neither a number nor
/// an array: the machine is stuck.
pub proof fn law_array_needs_elements(s: State)
    requires
        ready(s, 1),
    ensures
        byte(s, 0) == 0 || byte(s, 0) > s.top ==> asks(instruction(s, op::ARRAY), Step::Stuck),
        s.top > 0 && !(under(s, 0) is Number) && !(under(s, 0) matches Value::Object(place) && (obj(
            s,
            place,
        ) matches Some(Obj::Array { .. }))) ==> asks(instruction(s, op::ARRAY), Step::Stuck),
{
}

/// The position that an index names: its whole part, the first for what is
/// negative or no number, and the largest for what is beyond that.
pub open spec fn is_position(i: int, index: u64) -> bool {
    ||| i <= usize::MAX && is_whole_part(i, index)
    ||| i == 0 && (index >= 0x8000_0000_0000_0000 || !is_a_number(index))
    ||| {
        &&& i == usize::MAX
        &&& index < 0x8000_0000_0000_0000
        &&& is_a_number(index)
        &&& is_finite(index) ==> amount(index) >= (usize::MAX + 1) * pow2(1074)
    }
}

proof fn lemma_position(i: int, index: u64)
    requires
        is_position(i, index),
    ensures
        number::spec_to_index(index) == i,
{
    law_index_is_the_whole_part(index, i);
    if index < 0x8000_0000_0000_0000 && is_finite(index) && !is_whole_part(i, index) && is_a_number(
        index,
    ) {
        let unit = pow2(1074) as int;
        lemma_pow2_pos(1074);
        let whole = amount(index) / unit;
        vstd::arithmetic::div_mod::lemma_fundamental_div_mod(amount(index), unit);
        vstd::arithmetic::div_mod::lemma_mod_bound(amount(index), unit);
        assert(whole * unit <= amount(index) < (whole + 1) * unit) by (nonlinear_arith)
            requires
                amount(index) == unit * whole + amount(index) % unit,
                0 <= amount(index) % unit < unit,
        ;
        assert(whole > usize::MAX) by (nonlinear_arith)
            requires
                (usize::MAX + 1) * unit <= amount(index) < (whole + 1) * unit,
                unit > 0,
        ;
        law_index_is_the_whole_part(index, whole);
    }
}

/// The element at the whole part of an index comes in the place of the array
/// and the index. An index from the length on is raised with the last position
/// that there is; an empty array has none, and the machine is stuck.
pub proof fn law_element_is_read(s: State, array: usize, index: u64, i: int)
    requires
        holds(s, 2),
        under(s, 1) == Value::Object(array),
        under(s, 0) == Value::Number(index),
        is_position(i, index),
    ensures
        obj(s, array) matches Some(Obj::Array { values, .. }) ==> {
            let o = instruction(s, op::ARRAY_ACCESS);
            &&& i < values.len() ==> {
                &&& done(o)
                &&& replaced(s, o.state, 2, values[i])
                &&& o.state.frame == s.frame
                &&& else_same(s, o.state)
            }
            &&& values.len() == 0 ==> asks(o, Step::Stuck)
            &&& 0 < values.len() <= i && known(s, 0) ==> {
                &&& raises(
                    s,
                    0,
                    o,
                    Report::IndexOutOfRange { index: i, len: values.len() - 1 },
                )
                &&& dropped(s, o.state, 2)
                &&& else_same(s, o.state)
            }
        },
{
    lemma_position(i, index);
}

/// The element at the whole part of an index is written, and no other; the
/// value comes in the place of the array, the index and itself. An index from
/// the length on is raised with the last position that there is.
pub proof fn law_element_is_written(s: State, array: usize, index: u64, i: int)
    requires
        holds(s, 3),
        under(s, 2) == Value::Object(array),
        under(s, 1) == Value::Number(index),
        is_position(i, index),
    ensures
        obj(s, array) matches Some(Obj::Array { values, value_type }) ==> {
            let o = instruction(s, op::ARRAY_ACCESS_ASSIGN);
            &&& i < values.len() ==> {
                &&& done(o)
                &&& changed(
                    s,
                    o.state,
                    array,
                    Obj::Array { values: values.update(i, under(s, 0)), value_type },
                )
                &&& replaced(s, o.state, 3, under(s, 0))
                &&& o.state.frame == s.frame
                &&& same_but_heap(s, o.state)
            }
            &&& values.len() == 0 ==> asks(o, Step::Stuck)
            &&& 0 < values.len() <= i && known(s, 0) ==> {
                &&& raises(
                    s,
                    0,
                    o,
                    Report::IndexOutOfRange { index: i, len: values.len() - 1 },
                )
                &&& dropped(s, o.state, 3)
                &&& else_same(s, o.state)
            }
        },
{
    lemma_position(i, index);
}

/// What is no array has no elements, and what is no number is no index: the
/// type of what was to be indexed is raised.
pub proof fn law_only_arrays_have_elements(s: State, place: usize)
    requires
        known(s, 0),
    ensures
        holds(s, 2) && under(s, 1) == Value::Object(place) && obj(s, place) is Some && !(obj(
            s,
            place,
        )->0 is Array && under(s, 0) is Number) ==> {
            let o = instruction(s, op::ARRAY_ACCESS);
            &&& raises(s, 0, o, Report::NotIndexable { type_: kind(s, under(s, 1))->0 })
            &&& dropped(s, o.state, 2)
            &&& else_same(s, o.state)
        },
        holds(s, 3) && under(s, 2) == Value::Object(place) && obj(s, place) is Some && !(obj(
            s,
            place,
        )->0 is Array && under(s, 1) is Number) ==> {
            let o = instruction(s, op::ARRAY_ACCESS_ASSIGN);
            &&& raises(s, 0, o, Report::NotIndexable { type_: kind(s, under(s, 2))->0 })
            &&& dropped(s, o.state, 3)
            &&& else_same(s, o.state)
        },
{
}

/// Whether a text is the name of a method of arrays.
pub open spec fn is_array_method(text: Seq<char>, method: ArrayMethod) -> bool {
    text == match method {
        ArrayMethod::Push => "push"@,
        ArrayMethod::Pop => "pop"@,
        ArrayMethod::Get => "get"@,
        ArrayMethod::Len => "len"@,
        ArrayMethod::Type => "type"@,
    }
}

proof fn lemma_array_method(text: Seq<char>, method: ArrayMethod)
    requires
        is_array_method(text, method),
    ensures
        array_method(text) == Some(method),
{
    reveal_strlit("push");
    reveal_strlit("pop");
    reveal_strlit("get");
    reveal_strlit("len");
    reveal_strlit("type");
    assert("push"@.len() == 4 && "type"@.len() == 4);
    assert("pop"@.len() == 3 && "get"@.len() == 3 && "len"@.len() == 3);
    assert("pop"@[0] == 'p' && "get"@[0] == 'g' && "len"@[0] == 'l');
    assert("push"@[0] == 'p' && "type"@[0] == 't');
}

/// The method of an array that has the name, bound to the array, comes in its
/// place. Another name is raised, as is any name of what is no array.
pub proof fn law_array_method_is_bound(s: State, name: usize, method: ArrayMethod)
    requires
        names(s, name),
        holds(s, 1),
        s.heap.len() <= usize::MAX,
    ensures
        under(s, 0) matches Value::Object(array) ==> (obj(s, array) matches Some(Obj::Array { .. })
            ==> is_array_method(letters(s, name), method) ==> {
            let o = instruction(s, op::GET_ARRAY);
            &&& done(o)
            &&& o.state.stack[s.top - 1] matches Value::Object(place) && made(
                s,
                o.state,
                Obj::BoundArrayMethod { array, method },
                place,
            )
            &&& replaced(s, o.state, 1, o.state.stack[s.top - 1])
            &&& o.state.frame == further(s, 1)
            &&& same_but_heap(s, o.state)
        }),
        kind(s, under(s, 0)) is Some && known(s, 1) && !(under(s, 0) matches Value::Object(array)
            && (obj(s, array) matches Some(Obj::Array { .. })) && exists|m: ArrayMethod|
            is_array_method(letters(s, name), m)) ==> {
            let o = instruction(s, op::GET_ARRAY);
            &&& raises(
                s,
                1,
                o,
                Report::NoSuchAttribute {
                    type_: kind(s, under(s, 0))->0,
                    name: letters(s, name),
                },
            )
            &&& dropped(s, o.state, 0)
            &&& else_same(s, o.state)
        },
{
    assert(skip(s, 1) == (State { frame: further(s, 1), ..s }));
    if let Some(m) = array_method(letters(s, name)) {
        assert(is_array_method(letters(s, name), m));
    }
    if let Value::Object(array) = under(s, 0) {
        if is_array_method(letters(s, name), method) {
            lemma_array_method(letters(s, name), method);
            lemma_made(s, skip(s, 1), Obj::BoundArrayMethod { array, method });
        }
    }
}

/// How many arguments a method of arrays takes.
pub open spec fn takes(method: ArrayMethod) -> int {
    match method {
        ArrayMethod::Push => 1,
        ArrayMethod::Pop => 0,
        ArrayMethod::Get => 1,
        ArrayMethod::Len => 0,
        ArrayMethod::Type => 0,
    }
}

/// A method of an array that gets another number of arguments than it takes
/// raises its name and both numbers.
pub proof fn law_array_methods_count_their_arguments(
    s: State,
    bound: usize,
    array: usize,
    method: ArrayMethod,
    argc: int,
)
    requires
        holds(s, 1),
        known(s, 0),
        obj(s, bound) == Some(Obj::BoundArrayMethod { array, method }),
        argc != takes(method),
    ensures
        ({
            let o = call_bound_arr_method(s, bound, argc);
            &&& exists|text: Seq<char>| #[trigger]
                is_array_method(text, method) && raises(
                    s,
                    0,
                    o,
                    Report::ArityMisMatch { name: text, expected: takes(method), actual: argc },
                )
            &&& else_same(s, o.state)
            &&& dropped(
                s,
                o.state,
                if method == ArrayMethod::Push {
                    0
                } else {
                    1
                },
            )
        }),
{
    let text = match method {
        ArrayMethod::Push => "push"@,
        ArrayMethod::Pop => "pop"@,
        ArrayMethod::Get => "get"@,
        ArrayMethod::Len => "len"@,
        ArrayMethod::Type => "type"@,
    };
    assert(is_array_method(text, method));
}

/// A value is pushed to the end of an array if it has the type of the
/// elements, and is taken away; one of another type is raised.
pub proof fn law_array_is_pushed_to(s: State, bound: usize, array: usize)
    requires
        holds(s, 1),
        obj(s, bound) == Some(Obj::BoundArrayMethod { array, method: ArrayMethod::Push }),
    ensures
        obj(s, array) matches Some(Obj::Array { values, value_type }) ==> kind(
            s,
            under(s, 0),
        ) is Some ==> {
            let o = call_bound_arr_method(s, bound, 1);
            &&& is_kind(value_type, kind(s, under(s, 0))->0) ==> {
                &&& done(o)
                &&& changed(
                    s,
                    o.state,
                    array,
                    Obj::Array { values: values.push(under(s, 0)), value_type },
                )
                &&& dropped(s, o.state, 1)
                &&& o.state.frame == s.frame
                &&& same_but_heap(s, o.state)
            }
            &&& !is_kind(value_type, kind(s, under(s, 0))->0) && known(s, 0) ==> {
                &&& exists|text: Seq<char>| #[trigger]
                    is_kind(value_type, text) && raises(
                        s,
                        0,
                        o,
                        Report::ArrayValueTypeMismatch {
                            expected: text,
                            actual: kind(s, under(s, 0))->0,
                        },
                    )
                &&& dropped(s, o.state, 1)
                &&& else_same(s, o.state)
            }
        },
{
    if let Some(Obj::Array { value_type, .. }) = obj(s, array) {
        assert(is_kind(value_type, type_text(value_type)));
        if let Some(type_) = semantics::type_of(s.heap, under(s, 0)) {
            assert(is_kind(type_, kind(s, under(s, 0))->0));
            if is_kind(value_type, kind(s, under(s, 0))->0) {
                lemma_kinds_differ(type_, value_type, kind(s, under(s, 0))->0);
            }
        }
    }
}

/// The name of a type.
pub open spec fn is_kind(type_: Type, text: Seq<char>) -> bool {
    text == match type_ {
        Type::Nil => "nil"@,
        Type::Bool => "bool"@,
        Type::Int => "int"@,
        Type::String => "string"@,
        Type::Function => "function"@,
        Type::Upvalue => "upvalue"@,
        Type::Struct => "struct"@,
        Type::Instance => "instance"@,
        Type::Array => "array"@,
    }
}

proof fn lemma_kinds_differ(a: Type, b: Type, text: Seq<char>)
    requires
        is_kind(a, text),
        is_kind(b, text),
    ensures
        a == b,
{
    reveal_strlit("nil");
    reveal_strlit("bool");
    reveal_strlit("int");
    reveal_strlit("string");
    reveal_strlit("function");
    reveal_strlit("upvalue");
    reveal_strlit("struct");
    reveal_strlit("instance");
    reveal_strlit("array");
    assert("nil"@.len() == 3 && "int"@.len() == 3 && "bool"@.len() == 4 && "array"@.len() == 5);
    assert("string"@.len() == 6 && "struct"@.len() == 6 && "upvalue"@.len() == 7);
    assert("function"@.len() == 8 && "instance"@.len() == 8);
    assert("nil"@[0] == 'n' && "int"@[0] == 'i');
    assert("string"@[3] == 'i' && "struct"@[3] == 'u');
    assert("function"@[0] == 'f' && "instance"@[0] == 'i');
}

/// The last element of an array is popped, and comes in the place of the
/// topmost value; an empty array raises an error.
pub proof fn law_array_is_popped_from(s: State, bound: usize, array: usize)
    requires
        holds(s, 1),
        obj(s, bound) == Some(Obj::BoundArrayMethod { array, method: ArrayMethod::Pop }),
    ensures
        obj(s, array) matches Some(Obj::Array { values, value_type }) ==> {
            let o = call_bound_arr_method(s, bound, 0);
            &&& values.len() > 0 ==> {
                &&& done(o)
                &&& changed(
                    s,
                    o.state,
                    array,
                    Obj::Array { values: values.take(values.len() - 1), value_type },
                )
                &&& replaced(s, o.state, 1, values[values.len() - 1])
                &&& o.state.frame == s.frame
                &&& same_but_heap(s, o.state)
            }
            &&& values.len() == 0 && known(s, 0) ==> {
                &&& raises(s, 0, o, Report::IndexOutOfRange { index: 0, len: 0 })
                &&& dropped(s, o.state, 1)
                &&& else_same(s, o.state)
            }
        },
{
    if let Some(Obj::Array { values, .. }) = obj(s, array) {
        if values.len() > 0 {
            assert(values.drop_last() =~= values.take(values.len() - 1));
        }
    }
}

/// The element at the whole part of the index below the topmost value comes in
/// the place of both.
pub proof fn law_array_is_asked_for_an_element(
    s: State,
    bound: usize,
    array: usize,
    index: u64,
    i: int,
)
    requires
        holds(s, 2),
        obj(s, bound) == Some(Obj::BoundArrayMethod { array, method: ArrayMethod::Get }),
        under(s, 1) == Value::Number(index),
        is_position(i, index),
    ensures
        obj(s, array) matches Some(Obj::Array { values, .. }) ==> {
            let o = call_bound_arr_method(s, bound, 1);
            &&& i < values.len() ==> {
                &&& done(o)
                &&& replaced(s, o.state, 2, values[i])
                &&& o.state.frame == s.frame
                &&& else_same(s, o.state)
            }
            &&& values.len() == 0 ==> asks(o, Step::Stuck)
            &&& 0 < values.len() <= i && known(s, 0) ==> {
                &&& raises(
                    s,
                    0,
                    o,
                    Report::IndexOutOfRange { index: i, len: values.len() - 1 },
                )
                &&& dropped(s, o.state, 2)
                &&& else_same(s, o.state)
            }
        },
{
    lemma_position(i, index);
}

/// The number of an array's elements comes in the place of the topmost value,
/// as a number.
pub proof fn law_array_is_asked_for_its_length(s: State, bound: usize, array: usize)
    requires
        holds(s, 1),
        obj(s, bound) == Some(Obj::BoundArrayMethod { array, method: ArrayMethod::Len }),
    ensures
        obj(s, array) matches Some(Obj::Array { values, .. }) ==> values.len()
            <= 0x20_0000_0000_0000 ==> {
            let o = call_bound_arr_method(s, bound, 0);
            &&& done(o)
            &&& o.state.stack[s.top - 1] matches Value::Number(bits) && amount(bits)
                == values.len() * pow2(1074) && is_finite(bits)
            &&& replaced(s, o.state, 1, o.state.stack[s.top - 1])
            &&& o.state.frame == s.frame
            &&& else_same(s, o.state)
        },
{
    if let Some(Obj::Array { values, .. }) = obj(s, array) {
        if values.len() <= 0x20_0000_0000_0000 {
            law_count_is_a_number(values.len() as u64);
        }
    }
}

/// The string that names the type of arrays comes in the place of the topmost
/// value.
pub proof fn law_array_is_asked_for_its_type(s: State, bound: usize, array: usize)
    requires
        holds(s, 1),
        obj(s, bound) == Some(Obj::BoundArrayMethod { array, method: ArrayMethod::Type }),
        obj(s, array) matches Some(Obj::Array { .. }),
        s.heap.len() <= usize::MAX,
    ensures
        ({
            let o = call_bound_arr_method(s, bound, 0);
            &&& done(o)
            &&& o.state.stack[s.top - 1] matches Value::Object(place) && made(
                s,
                o.state,
                Obj::String { text: "array"@ },
                place,
            )
            &&& replaced(s, o.state, 1, o.state.stack[s.top - 1])
            &&& o.state.frame == s.frame
            &&& same_but_heap(s, o.state)
        }),
{
    lemma_made(s, pops(s, 1), Obj::String { text: "array"@ });
}

} // verus!
