//! Laws of arrays and structs.
use crate::heap::at;
use crate::laws::memory::law_added_is_there;
use crate::number;
use crate::object::Obj;
use crate::semantics::{
    array, array_access, array_access_assign, call_array_len, call_array_pop, call_array_push, deep,
    element_type, field, gc, get_field, inherit, lookup, lookup_method, method, name, next, operand,
    peek, pops, position, push, set_field, skip, type_of, valid, State,
};
use crate::value::Value;
use vstd::prelude::*;

verus! {

/// What is pushed to an array is what is popped from it next, and the array is
/// then as it was. `later` is the state in which the pop is called.
pub proof fn law_array_push_pop(s: State, place: usize, later: State)
    requires
        valid(s),
        deep(s, 1),
        at(s.heap, place) matches Some(Obj::Array { value_type, .. }) && type_of(
            s.heap,
            peek(s, 0),
        ) == Some(value_type),
        later.heap == call_array_push(s, place, 1).state.heap,
        valid(later),
        deep(later, 1),
    ensures
        call_array_push(s, place, 1).verdict == next(s).verdict,
        call_array_pop(later, place, 0).verdict == next(s).verdict,
        peek(call_array_pop(later, place, 0).state, 0) == peek(s, 0),
        call_array_pop(later, place, 0).state.heap == s.heap,
{
    let values = at(s.heap, place)->0->values;
    assert(values.push(peek(s, 0)).drop_last() =~= values);
    assert(call_array_pop(later, place, 0).state.heap =~= s.heap);
}

/// An element that was written is what is read at its position, and no other
/// element has changed. `later` is the state in which it is read.
pub proof fn law_written_element_is_read(s: State, later: State)
    requires
        valid(s),
        array_access_assign(s).verdict == next(s).verdict,
        later.heap == array_access_assign(s).state.heap,
        valid(later),
        deep(later, 2),
        peek(later, 1) == peek(s, 2),
    ensures
        peek(later, 0) == peek(s, 1) ==> array_access(later) == push(pops(later, 2), peek(s, 0)),
        peek(s, 2) matches Value::Object(place) && (at(s.heap, place) matches Some(
            Obj::Array { values, .. },
        ) && (position(pops(s, 3), values, peek(s, 1)) matches Ok(i) && (position(
            pops(later, 2),
            values,
            peek(later, 0),
        ) matches Ok(j) ==> (i != j ==> array_access(later) == push(pops(later, 2), values[j]))))),
{
    let place = peek(s, 2)->Object_0;
    let values = at(s.heap, place)->0->values;
    let i = position(pops(s, 3), values, peek(s, 1))->Ok_0;
    assert(at(later.heap, place)->0->values == values.update(i, peek(s, 0)));
}

/// The array that an instruction makes has the values on top of the stack as
/// its elements, the topmost last.
pub proof fn law_array_has_its_elements(s: State)
    requires
        valid(s),
        s.heap.len() <= usize::MAX,
        array(s).verdict == next(s).verdict,
    ensures
        array(s).state.top == s.top - operand(s, 0) + 1,
        peek(array(s).state, 0) matches Value::Object(place) && (at(
            array(s).state.heap,
            place,
        ) matches Some(Obj::Array { values, .. }) && values == s.stack.subrange(
            s.top - operand(s, 0),
            s.top,
        )),
{
    let n = operand(s, 0) as int;
    let t = pops(skip(s, 1), n);
    let value_type = element_type(s.heap, peek(skip(s, 1), 0))->0;
    law_added_is_there(
        gc(t).heap,
        Obj::Array { values: s.stack.subrange(s.top - n, s.top), value_type },
    );
}

/// The length that an array tells is the number of its elements, as long as a
/// double can hold it.
pub proof fn law_array_tells_its_length(s: State, place: usize)
    requires
        valid(s),
        deep(s, 1),
        at(s.heap, place) matches Some(Obj::Array { values, .. }) && values.len()
            <= 2 * number::FRACTION && values.len() <= usize::MAX,
    ensures
        call_array_len(s, place, 0).verdict == next(s).verdict,
        peek(call_array_len(s, place, 0).state, 0) matches Value::Number(bits)
            && number::spec_to_index(bits) == at(s.heap, place)->0->values.len(),
{
    number::law_count_round_trip(at(s.heap, place)->0->values.len() as u64);
}

/// A field that was written through an instance has its value for every
/// instance of the same struct. `later` is the state in which it is read, from
/// the instance on top of the stack.
pub proof fn law_written_field_is_shared(s: State, later: State, place: usize)
    requires
        valid(s),
        set_field(s).verdict == next(s).verdict,
        later.heap == set_field(s).state.heap,
        name(later) == name(s),
        deep(later, 1),
        peek(later, 0) == Value::Object(place),
        at(s.heap, place) matches Some(Obj::Instance { struct_, .. }) && (peek(
            skip(s, 1),
            0,
        ) matches Value::Object(written) && (at(s.heap, written) matches Some(
            Obj::Instance { struct_: written_struct, .. },
        ) && written_struct == struct_)),
    ensures
        get_field(later) == push(pops(skip(later, 1), 1), peek(pops(skip(s, 1), 1), 0)),
{
}

/// A struct that inherits has the methods of the other struct, its own fields,
/// and its own name; the other struct has not changed.
pub proof fn law_heir_has_the_methods(s: State)
    requires
        inherit(s).verdict == next(s).verdict,
    ensures
        peek(s, 0) matches Value::Object(heir) && (peek(s, 1) matches Value::Object(super_) && (at(
            s.heap,
            heir,
        ) matches Some(Obj::Struct { name, fields, .. }) && (at(s.heap, super_) matches Some(
            Obj::Struct { methods, .. },
        ) && at(inherit(s).state.heap, heir) == Some(Obj::Struct { name, methods, fields })))),
        peek(s, 0) != peek(s, 1) ==> (peek(s, 1) matches Value::Object(super_) && at(
            inherit(s).state.heap,
            super_,
        ) == at(s.heap, super_)),
{
}

/// A method that was given to a struct is found under its name, and the other
/// methods are as they were.
pub proof fn law_method_is_found(s: State)
    requires
        method(s).verdict == next(s).verdict,
    ensures
        peek(s, 1) matches Value::Object(cstruct) && (at(s.heap, cstruct) matches Some(
            Obj::Struct { methods, .. },
        ) && (at(method(s).state.heap, cstruct) matches Some(Obj::Struct { methods: after, .. })
            && (lookup_method(after, name(s)->0) matches Some(closure) && Value::Object(closure)
            == peek(s, 0)) && (forall|other: usize|
            other != name(s)->0 ==> #[trigger] lookup_method(after, other) == lookup_method(
                methods,
                other,
            )))),
{
}

/// A field that was declared has no value yet.
pub proof fn law_declared_field_is_nil(s: State)
    requires
        field(s).verdict == next(s).verdict,
    ensures
        peek(s, 0) matches Value::Object(cstruct) && (at(field(s).state.heap, cstruct) matches Some(
            Obj::Struct { fields, .. },
        ) && lookup(fields, name(s)->0) == Some(Value::Nil)),
{
}

} // verus!
