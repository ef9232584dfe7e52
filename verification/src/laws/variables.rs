//! Laws of variables, upvalues and values.
use crate::heap::{added, at, has_text, interned, new_place, Cells};
use crate::laws::memory::{
    law_added_is_there, law_gc_keeps_the_open_upvalues, lemma_added_interned,
};
use crate::number;
use crate::object::{Native, Obj};
use crate::semantics::{
    captured, compares, deep, define_global, equality, find_open, fresh, gc, get_global, get_local,
    get_upvalue, lookup, name, next, operand, operands, peek, push, running, set_global, set_local,
    set_upvalue, skip, upvalue, valid, Comparison, State, STACK_MAX,
};
use crate::value::{equal, Value};
use vstd::prelude::*;

verus! {

/// A global that was defined has its value wherever it is read while nothing
/// has been written since, and no other global has changed.
pub proof fn law_defined_global_is_read(s: State, later: State)
    requires
        name(s) is Some,
        deep(s, 1),
        later.globals == define_global(s).state.globals,
        name(later) == name(s),
    ensures
        define_global(s).verdict == next(s).verdict,
        get_global(later) == push(skip(later, 1), peek(s, 0)),
        forall|other: usize|
            other != name(s)->0 ==> #[trigger] lookup(later.globals, other) == lookup(
                s.globals,
                other,
            ),
{
}

/// The same of a global that was written. A global that was never defined
/// cannot be written.
pub proof fn law_written_global_is_read(s: State, later: State)
    requires
        name(s) is Some,
        deep(s, 1),
        lookup(s.globals, name(s)->0) is Some,
        later.globals == set_global(s).state.globals,
        name(later) == name(s),
    ensures
        set_global(s).verdict == next(s).verdict,
        get_global(later) == push(skip(later, 1), peek(s, 0)),
        forall|other: usize|
            other != name(s)->0 ==> #[trigger] lookup(later.globals, other) == lookup(
                s.globals,
                other,
            ),
{
}

/// A local that was written has its value when it is read next.
pub proof fn law_written_local_is_read(s: State, later: State)
    requires
        valid(s),
        operands(s, 1),
        s.frame.stack + operand(s, 0) < STACK_MAX,
        deep(s, 1),
        later.stack == set_local(s).state.stack,
        later.frame.stack == s.frame.stack,
        operands(later, 1),
        operand(later, 0) == operand(s, 0),
    ensures
        set_local(s).verdict == next(s).verdict,
        get_local(later) == push(skip(later, 1), peek(s, 0)),
{
}

/// An upvalue that was written has its value for every closure that has it.
/// `later` is the state of a closure that reads it.
pub proof fn law_written_upvalue_is_read(s: State, later: State)
    requires
        upvalue(s) matches Some(place) && (at(s.heap, place) matches Some(Obj::Upvalue { .. })),
        deep(s, 1),
        later.heap == set_upvalue(s).state.heap,
        upvalue(later) == upvalue(s),
    ensures
        set_upvalue(s).verdict == next(s).verdict,
        get_upvalue(later) == push(skip(later, 1), peek(s, 0)),
{
}

proof fn lemma_find_open_after(s: State, value: Value, t: State, place: usize, from: int)
    requires
        0 <= from <= s.open_upvalues.len(),
        find_open(s, value, from) == Some(None::<usize>),
        t.open_upvalues == s.open_upvalues.push(place),
        forall|i: int|
            0 <= i < s.open_upvalues.len() && at(s.heap, s.open_upvalues[i]) is Some ==> at(
                t.heap,
                #[trigger] s.open_upvalues[i],
            ) == at(s.heap, s.open_upvalues[i]),
        at(t.heap, place) == Some(Obj::Upvalue { value }),
        equal(value, value),
    ensures
        find_open(t, value, from) == Some(Some(place)),
    decreases s.open_upvalues.len() - from,
{
    if from < s.open_upvalues.len() {
        let open = s.open_upvalues[from];
        assert(t.open_upvalues[from] == open);
        assert(at(t.heap, open) == at(s.heap, open));
        lemma_find_open_after(s, value, t, place, from + 1);
    } else {
        assert(t.open_upvalues[from] == place);
    }
}

proof fn lemma_found_holds(s: State, value: Value, from: int)
    requires
        find_open(s, value, from) matches Some(Some(_)),
    ensures
        find_open(s, value, from) matches Some(Some(place)) && (at(s.heap, place) matches Some(
            Obj::Upvalue { value: held },
        ) && equal(held, value)),
    decreases s.open_upvalues.len() - from,
{
    if 0 <= from < s.open_upvalues.len() {
        if let Some(Obj::Upvalue { value: held }) = at(s.heap, s.open_upvalues[from]) {
            if !equal(held, value) {
                lemma_found_holds(s, value, from + 1);
            }
        }
    }
}

/// A value that was captured is in the upvalue that captured it, and captured
/// once more it is in the same: closures that capture equal values share them.
/// The number that equals nothing is left out.
pub proof fn law_capture_shares(s: State, value: Value)
    requires
        valid(s),
        s.heap.len() <= usize::MAX,
        equal(value, value),
        captured(s, value) is Some,
    ensures
        captured(s, value) matches Some((t, place)) && {
            &&& at(t.heap, place) matches Some(Obj::Upvalue { value: held }) && equal(held, value)
            &&& captured(t, value) == Some((t, place))
        },
{
    if let Some(Some(place)) = find_open(s, value, 0) {
        lemma_found_holds(s, value, 0);
    } else {
        let obj = Obj::Upvalue { value };
        let (t, place) = captured(s, value)->0;
        law_added_is_there(gc(s).heap, obj);
        assert forall|i: int|
            0 <= i < s.open_upvalues.len() && at(s.heap, s.open_upvalues[i]) is Some implies at(
            t.heap,
            #[trigger] s.open_upvalues[i],
        ) == at(s.heap, s.open_upvalues[i]) by {
            law_gc_keeps_the_open_upvalues(s, i);
        }
        lemma_find_open_after(s, value, t, place, 0);
    }
}

/// To ask whether two values differ is to ask whether they are equal, the
/// answer turned round.
pub proof fn law_not_equal_negates_equal(s: State)
    requires
        valid(s),
        deep(s, 2),
    ensures
        ({
            let same = equality(s, true);
            let differ = equality(s, false);
            &&& same.verdict == next(s).verdict
            &&& differ.verdict == next(s).verdict
            &&& peek(same.state, 0) == Value::Bool(equal(peek(s, 0), peek(s, 1)))
            &&& peek(differ.state, 0) == Value::Bool(!equal(peek(s, 0), peek(s, 1)))
        }),
{
}

/// The four comparisons in terms of one another: of two numbers the one is
/// greater if and only if the other is less, and at most the other if and only
/// if it is less or equal. None of them holds of what is no number.
pub proof fn law_comparisons(lhs: u64, rhs: u64)
    ensures
        compares(Comparison::Greater, lhs, rhs) == compares(Comparison::Less, rhs, lhs),
        compares(Comparison::GreaterEqual, lhs, rhs) == compares(Comparison::LessEqual, rhs, lhs),
        compares(Comparison::LessEqual, lhs, rhs) == (compares(Comparison::Less, lhs, rhs) || equal(
            Value::Number(lhs),
            Value::Number(rhs),
        )),
        number::is_nan(lhs) || number::is_nan(rhs) ==> forall|comparison: Comparison|
            !compares(comparison, lhs, rhs),
{
}

/// Whether a global is a function that the machine brings along.
pub open spec fn is_native(s: State, name: usize, native: Native) -> bool {
    lookup(s.globals, name) matches Some(Value::Object(place)) && at(s.heap, place) == Some(
        Obj::Native { native },
    )
}

/// A new machine is valid, runs nothing, has its first threshold, and knows its
/// two functions by their names and no other global.
pub proof fn law_new_machine(heap: Cells)
    requires
        interned(heap),
        heap.len() + 5 <= usize::MAX,
    ensures
        valid(fresh(heap)),
        running(fresh(heap)) is None,
        at(fresh(heap).heap, fresh(heap).frame.closure) is None,
        fresh(heap).next_gc == 1048576,
        forall|name: usize| #[trigger]
            fresh(heap).globals.contains_key(name) ==> is_native(fresh(heap), name, Native::Clock)
                || is_native(fresh(heap), name, Native::RandomNumber),
        at(fresh(heap).heap, fresh(heap).init) == Some(Obj::String { text: "new"@ }),
        forall|name: usize|
            at(fresh(heap).heap, name) == Some(Obj::String { text: "clock"@ })
                ==> #[trigger] is_native(fresh(heap), name, Native::Clock),
        forall|name: usize|
            at(fresh(heap).heap, name) == Some(Obj::String { text: "random_number"@ })
                ==> #[trigger] is_native(fresh(heap), name, Native::RandomNumber),
{
    let clock_name = Obj::String { text: "clock"@ };
    let random_name = Obj::String { text: "random_number"@ };
    let clock = Obj::Native { native: Native::Clock };
    let random = Obj::Native { native: Native::RandomNumber };
    let init = Obj::String { text: "new"@ };
    let heap1 = added(heap, clock_name);
    let heap2 = added(heap1, random_name);
    let heap3 = added(heap2, clock);
    let heap4 = added(heap3, random);
    let end = added(heap4, init);
    reveal_strlit("clock");
    reveal_strlit("random_number");
    assert("clock"@.len() != "random_number"@.len());
    law_added_is_there(heap, clock_name);
    law_added_is_there(heap1, random_name);
    law_added_is_there(heap2, clock);
    law_added_is_there(heap3, random);
    law_added_is_there(heap4, init);
    lemma_added_interned(heap, clock_name);
    lemma_added_interned(heap1, random_name);
    lemma_added_interned(heap2, clock);
    lemma_added_interned(heap3, random);
    lemma_added_interned(heap4, init);
    let clock_at = new_place(heap, clock_name);
    let random_at = new_place(heap1, random_name);
    assert(at(end, clock_at) == Some(clock_name));
    assert(at(end, random_at) == Some(random_name));
    assert(at(end, new_place(heap2, clock)) == Some(clock));
    assert(at(end, new_place(heap3, random)) == Some(random));
    assert(has_text(end, clock_at as int, "clock"@));
    assert(has_text(end, random_at as int, "random_number"@));
    assert forall|name: usize| at(end, name) == Some(clock_name) implies name == clock_at by {
        assert(has_text(end, name as int, "clock"@));
    }
    assert forall|name: usize| at(end, name) == Some(random_name) implies name == random_at by {
        assert(has_text(end, name as int, "random_number"@));
    }
}

} // verus!
