//! What calls, returns and invocations do, slot by slot.
use crate::error::Report;
use crate::laws::collection::{is_held, law_collection_keeps_what_is_needed, needs};
use crate::laws::plain::{
    asks, began, byte, can_begin, done, dropped, else_same, function, further, holds, kind, known,
    names, obj, raises, ready, replaced, under,
};
use crate::object::{Native, Obj};
use crate::op;
use crate::semantics;
use crate::semantics::{
    call_bound_arr_method, call_bound_method, call_closure, call_native, call_struct, call_value,
    gc, instruction, Outcome, State, Step,
};
use crate::table::no_entries;
use crate::value::Value;
use vstd::prelude::*;

verus! {

/// A call calls the value below its arguments, as many as the byte says.
pub proof fn law_call_calls_the_value_below_the_arguments(s: State)
    requires
        ready(s, 1),
        holds(s, byte(s, 0) + 1),
    ensures
        instruction(s, op::CALL) == call_value(
            State { frame: further(s, 1), ..s },
            s.stack[s.top - 1 - byte(s, 0)],
            byte(s, 0) as int,
        ),
{
}

/// What can be called is called as what it is, and nothing else can be.
pub proof fn law_callee_is_called_as_what_it_is(s: State, callee: Value, argc: int)
    ensures
        callee matches Value::Object(place) ==> match obj(s, place) {
            Some(Obj::Closure { .. }) => call_value(s, callee, argc) == call_closure(
                s,
                place,
                argc,
            ),
            Some(Obj::Struct { .. }) => call_value(s, callee, argc) == call_struct(s, place, argc),
            Some(Obj::BoundMethod { .. }) => call_value(s, callee, argc) == call_bound_method(
                s,
                place,
                argc,
            ),
            Some(Obj::BoundArrayMethod { .. }) => call_value(s, callee, argc)
                == call_bound_arr_method(s, place, argc),
            Some(Obj::Native { native }) => call_value(s, callee, argc) == call_native(
                s,
                native,
                argc,
            ),
            Some(_) => known(s, 0) ==> raises(
                s,
                0,
                call_value(s, callee, argc),
                Report::NotCallable { type_: kind(s, callee)->0 },
            ) && call_value(s, callee, argc).state == s,
            None => true,
        },
        !(callee is Object) && known(s, 0) ==> raises(
            s,
            0,
            call_value(s, callee, argc),
            Report::NotCallable { type_: kind(s, callee)->0 },
        ) && call_value(s, callee, argc).state == s,
{
}

/// A call of a closure that can begin begins: the stack and its height are as
/// they were, the frame that ran waits, and the new one begins with the
/// callee. With another number of arguments, or with as many calls waiting as
/// can wait, an error is raised and nothing changes.
pub proof fn law_call_leaves_the_arguments(s: State, closure: usize, argc: int)
    requires
        0 <= argc,
    ensures
        can_begin(s, closure, argc) ==> done(call_closure(s, closure, argc)) && began(
            s,
            call_closure(s, closure, argc).state,
            0,
            closure,
            argc,
        ),
        function(s, closure) matches Some(f) ==> f.arity != argc && known(s, 0) ==> (obj(
            s,
            f.name,
        ) matches Some(Obj::String { text }) ==> raises(
            s,
            0,
            call_closure(s, closure, argc),
            Report::ArityMisMatch { name: text, expected: f.arity as int, actual: argc },
        ) && call_closure(s, closure, argc).state == s),
        function(s, closure) matches Some(f) ==> f.arity == argc && s.frames.len() == 64 && known(
            s,
            0,
        ) ==> raises(s, 0, call_closure(s, closure, argc), Report::StackOverflow) && call_closure(
            s,
            closure,
            argc,
        ).state == s,
{
}

/// The local with the number `k` is the `k`-th argument, as it was pushed, and
/// the local 0 is the callee. `later` is a state in which the callee reads it,
/// with nothing pushed or written since the call began.
pub proof fn law_arguments_are_locals(
    s: State,
    closure: usize,
    argc: int,
    later: State,
    k: int,
)
    requires
        0 <= k <= argc,
        can_begin(s, closure, argc),
        s.top < 16384,
        later.stack == call_closure(s, closure, argc).state.stack,
        later.top == call_closure(s, closure, argc).state.top,
        later.frame.stack == call_closure(s, closure, argc).state.frame.stack,
        ready(later, 1),
        byte(later, 0) == k,
    ensures
        ({
            let o = instruction(later, op::GET_LOCAL);
            &&& done(o)
            &&& replaced(later, o.state, 0, s.stack[s.top - argc - 1 + k])
            &&& else_same(later, o.state)
        }),
{
    law_call_leaves_the_arguments(s, closure, argc);
}

/// A return puts the topmost value in the place of the callee and all that is
/// above it, and the frame that waited last runs on where it was; where none
/// waits, the program is at its end.
pub proof fn law_return_gives_the_value_back(s: State)
    requires
        holds(s, 1),
    ensures
        s.frames.len() > 0 && s.frame.stack < 16384 ==> {
            let o = instruction(s, op::RETURN);
            &&& done(o)
            &&& o.state.stack == s.stack.update(s.frame.stack as int, under(s, 0))
            &&& o.state.top == s.frame.stack + 1
            &&& o.state.frame == s.frames[s.frames.len() - 1]
            &&& o.state.frames == s.frames.take(s.frames.len() - 1)
            &&& else_same(s, State { frames: s.frames, ..o.state })
        },
        s.frames.len() == 0 ==> {
            let o = instruction(s, op::RETURN);
            &&& asks(o, Step::Finished)
            &&& o.state.stack == s.stack
            &&& o.state.top == s.frame.stack
            &&& o.state.frame == s.frame
            &&& else_same(s, o.state)
        },
{
    if s.frames.len() > 0 {
        assert(s.frames.drop_last() =~= s.frames.take(s.frames.len() - 1));
    }
}

/// A method that is bound is called with its receiver in the place of the
/// callee.
pub proof fn law_bound_method_is_called(
    s: State,
    bound: usize,
    receiver: usize,
    method: usize,
    argc: int,
)
    requires
        0 <= argc,
        obj(s, bound) == Some(Obj::BoundMethod { receiver, method }),
        holds(s, argc + 1),
    ensures
        call_bound_method(s, bound, argc) == call_closure(
            State { stack: s.stack.update(s.top - 1 - argc, Value::Object(receiver)), ..s },
            method,
            argc,
        ),
{
}

/// A native function takes no arguments: it asks for the time or for a random
/// number, and is taken away itself.
pub proof fn law_natives_ask(s: State, native: Native, argc: int)
    requires
        holds(s, 1),
    ensures
        argc == 0 ==> asks(
            call_native(s, native, argc),
            match native {
                Native::Clock => Step::Clock,
                Native::RandomNumber => Step::Random,
            },
        ),
        argc != 0 && known(s, 0) ==> raises(
            s,
            0,
            call_native(s, native, argc),
            Report::ArityMisMatch {
                name: match native {
                    Native::Clock => "clock"@,
                    Native::RandomNumber => "random_number"@,
                },
                expected: 0,
                actual: argc,
            },
        ),
        argc == 0 || known(s, 0) ==> dropped(s, call_native(s, native, argc).state, 1) && else_same(
            s,
            call_native(s, native, argc).state,
        ) && call_native(s, native, argc).state.frame == s.frame,
{
}

/// The state in which an instance of a struct has come in the place of the
/// callee.
pub open spec fn with_instance(s: State, cstruct: usize, argc: int) -> State {
    let instance = Obj::Instance { struct_: cstruct, fields: Map::empty() };
    State {
        heap: gc(s).heap.push(Some(instance)),
        next_gc: gc(s).next_gc,
        stack: s.stack.update(s.top - 1 - argc, Value::Object(gc(s).heap.len() as usize)),
        ..s
    }
}

proof fn lemma_code_is_kept(s: State)
    requires
        function(s, s.frame.closure) is Some,
    ensures
        function(gc(s), s.frame.closure) == function(s, s.frame.closure),
{
    law_collection_keeps_what_is_needed(s);
    assert(is_held(s, s.frame.closure));
    let place = obj(s, s.frame.closure)->0->Closure_function;
    assert(needs(obj(gc(s), s.frame.closure)->0, place));
}

/// A call of a struct puts a new instance of it, without fields of its own, in
/// the place of the callee, and calls the constructor with the arguments. A
/// struct without a constructor takes none.
pub proof fn law_struct_is_called(s: State, cstruct: usize, argc: int)
    requires
        0 <= argc,
        holds(s, argc + 1),
        s.heap.len() < usize::MAX,
        obj(gc(s), cstruct) matches Some(Obj::Struct { .. }),
    ensures
        obj(gc(s), cstruct) matches Some(Obj::Struct { name, methods, .. }) && {
            let o = call_struct(s, cstruct, argc);
            let t = with_instance(s, cstruct, argc);
            &&& methods.contains_key(s.init) ==> (methods[s.init] matches Value::Object(method)
                ==> o == call_closure(t, method, argc))
            &&& !methods.contains_key(s.init) && argc == 0 ==> done(o) && o.state == t
            &&& !methods.contains_key(s.init) && argc != 0 && known(s, 0) ==> (obj(
                gc(s),
                name,
            ) matches Some(Obj::String { text }) ==> o.state == t && raises(
                s,
                0,
                o,
                Report::ArityMisMatch { name: text, expected: 0, actual: argc },
            ))
        },
{
    let instance = Obj::Instance { struct_: cstruct, fields: no_entries() };
    assert(no_entries() =~= Map::<usize, Value>::empty());
    let t = with_instance(s, cstruct, argc);
    let u = semantics::poked(
        semantics::allocated(s, instance),
        argc,
        Value::Object(semantics::allocated_at(s, instance)),
    );
    assert(u == t);
    assert(obj(t, cstruct) == obj(gc(s), cstruct));
    if known(s, 0) {
        lemma_code_is_kept(s);
        let place = obj(s, s.frame.closure)->0->Closure_function;
        assert(obj(t, s.frame.closure) == obj(gc(s), s.frame.closure));
        assert(obj(t, place) == obj(gc(s), place));
        assert(function(t, s.frame.closure) == function(s, s.frame.closure));
    }
    if let Some(Obj::Struct { name, .. }) = obj(gc(s), cstruct) {
        if obj(gc(s), name) matches Some(Obj::String { .. }) {
            assert(obj(t, name) == obj(gc(s), name));
        }
    }
}

/// Whether an instruction goes on as the other outcome does, with an error
/// passed over.
pub open spec fn goes_on_as(o: Outcome, other: Outcome) -> bool {
    &&& o.state == other.state
    &&& other.verdict is Ok ==> o.verdict == other.verdict
    &&& other.verdict is Err ==> done(o)
}

/// An invocation of a name that is a field of the instance below the arguments
/// calls the field's value. Of one that is no field it calls the closure that
/// the methods of the instance's struct hold under exactly that name, whatever
/// else they hold. Where there is no such method, or the call raises an error,
/// the program goes on behind the invocation.
pub proof fn law_invocation_calls_the_method_named(s: State, name: usize, instance: usize)
    requires
        names(s, name),
        ready(s, 2),
        holds(s, byte(s, 1) + 1),
        s.stack[s.top - 1 - byte(s, 1)] == Value::Object(instance),
        obj(s, instance) matches Some(Obj::Instance { .. }),
    ensures
        obj(s, instance) matches Some(Obj::Instance { struct_, fields }) && {
            let o = instruction(s, op::INVOKE);
            let t = State { frame: further(s, 2), ..s };
            let argc = byte(s, 1) as int;
            &&& fields.contains_key(name) ==> goes_on_as(o, call_value(t, fields[name], argc))
            &&& !fields.contains_key(name) ==> (obj(s, struct_) matches Some(
                Obj::Struct { name: struct_name, methods, .. },
            ) ==> {
                &&& methods.contains_key(name) ==> (methods[name] matches Value::Object(
                    method,
                ) ==> {
                    &&& can_begin(s, method, argc) ==> done(o) && began(
                        s,
                        o.state,
                        2,
                        method,
                        argc,
                    )
                    &&& goes_on_as(o, call_closure(t, method, argc))
                })
                &&& !methods.contains_key(name) && known(s, 2) && (obj(
                    s,
                    struct_name,
                ) matches Some(Obj::String { .. })) ==> done(o) && o.state == t
            })
        },
{
    let o = instruction(s, op::INVOKE);
    assert(o == semantics::invoke(s));
    assert(semantics::skip(s, 2) == (State { frame: further(s, 2), ..s }));
}

/// The same of an invocation through a struct, which is taken away before: the
/// method is looked up in that struct, and called on the instance below the
/// arguments.
pub proof fn law_super_invocation_calls_the_method_named(s: State, name: usize, super_: usize)
    requires
        names(s, name),
        ready(s, 2),
        holds(s, byte(s, 1) + 2),
        s.stack[s.top - 1] == Value::Object(super_),
        obj(s, super_) matches Some(Obj::Struct { .. }),
    ensures
        obj(s, super_) matches Some(Obj::Struct { name: struct_name, methods, .. }) && {
            let o = instruction(s, op::SUPER_INVOKE);
            let below = State { top: s.top - 1, ..s };
            let t = State { frame: further(s, 2), ..below };
            let argc = byte(s, 1) as int;
            &&& methods.contains_key(name) ==> (methods[name] matches Value::Object(method) ==> {
                &&& can_begin(below, method, argc) ==> done(o) && began(
                    below,
                    o.state,
                    2,
                    method,
                    argc,
                )
                &&& goes_on_as(o, call_closure(t, method, argc))
            })
            &&& !methods.contains_key(name) && known(s, 2) && (obj(s, struct_name) matches Some(
                Obj::String { .. },
            )) ==> done(o) && o.state == t
        },
{
    let o = instruction(s, op::SUPER_INVOKE);
    assert(o == semantics::super_invoke(s));
    assert(semantics::skip(s, 2) == (State { frame: further(s, 2), ..s }));
}

} // verus!
