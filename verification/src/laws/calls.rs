//! Laws of the stack, of jumps and of calls.
use crate::error::{Report, Span};
use crate::frame::FRAMES_MAX;
use crate::heap::at;
use crate::laws::memory::law_added_is_there;
use crate::object::Obj;
use crate::semantics::{
    allocated, bind, call_closure, call_struct, call_value, deep, entered,
    function_of, gc, invoke, jump, loop_back, lookup_method, next, operand_u16, operands, peek,
    poked, pops, pushed, return_value, skip, span_here, super_invoke, valid, State, Verdict,
    STACK_MAX,
};
use crate::table::no_entries;
use crate::value::Value;
use vstd::prelude::*;

verus! {

/// The verdict that an error was raised.
pub open spec fn raised(report: Report, span: Span) -> Verdict {
    Err((report, span))
}

/// What is pushed is what is popped next, and the stack is then as it was.
pub proof fn law_push_pop(s: State, value: Value)
    requires
        valid(s),
        s.top < STACK_MAX,
    ensures
        valid(pushed(s, value)),
        peek(pushed(s, value), 0) == value,
        pops(pushed(s, value), 1).top == s.top,
        pops(pushed(s, value), 1).stack.take(s.top) == s.stack.take(s.top),
{
    assert(pops(pushed(s, value), 1).stack.take(s.top) =~= s.stack.take(s.top));
}

/// A call ends as it began: when the callee returns, the frame that called
/// runs again, the calls that wait are those that waited, the callee's value
/// has taken the place of the callee and its arguments, and below it the stack
/// is as the callee left it. `during` is the state at the callee's return.
pub proof fn law_return_undoes_call(s: State, closure: usize, argc: int, during: State)
    requires
        valid(s),
        0 <= argc,
        call_closure(s, closure, argc) == next(entered(s, closure, argc)),
        valid(during),
        during.frames == entered(s, closure, argc).frames,
        during.frame.stack == entered(s, closure, argc).frame.stack,
        deep(during, 1),
    ensures
        return_value(during).verdict == next(s).verdict,
        ({
            let after = return_value(during).state;
            &&& after.frames == s.frames
            &&& after.frame == s.frame
            &&& after.top == s.top - argc
            &&& peek(after, 0) == peek(during, 0)
            &&& after.stack.take(s.top - argc - 1) == during.stack.take(s.top - argc - 1)
            &&& after.heap == during.heap
            &&& after.globals == during.globals
        }),
{
    let after = return_value(during).state;
    assert(during.frames.drop_last() =~= s.frames);
    assert(after.stack.take(s.top - argc - 1) =~= during.stack.take(s.top - argc - 1));
}

/// A call with as many arguments as the function takes overflows the stack of
/// calls if and only if as many calls wait as can wait.
pub proof fn law_stack_overflow(s: State, closure: usize, argc: int)
    requires
        valid(s),
        function_of(s.heap, closure) matches Some(f) && f.arity == argc,
        deep(s, argc + 1),
        span_here(s) is Some,
    ensures
        s.frames.len() == FRAMES_MAX <==> call_closure(s, closure, argc).verdict == raised(
            Report::StackOverflow,
            span_here(s)->0,
        ),
        s.frames.len() < FRAMES_MAX <==> call_closure(s, closure, argc) == next(
            entered(s, closure, argc),
        ),
{
}

/// A call with another number of arguments than the function takes raises an
/// error that names the function and both numbers, and does nothing else.
pub proof fn law_wrong_arity(s: State, closure: usize, argc: int)
    requires
        function_of(s.heap, closure) matches Some(f) && f.arity != argc && (at(
            s.heap,
            f.name,
        ) matches Some(Obj::String { .. })),
        span_here(s) is Some,
    ensures
        call_closure(s, closure, argc).state == s,
        function_of(s.heap, closure) matches Some(f) && call_closure(s, closure, argc).verdict
            == raised(
            Report::ArityMisMatch {
                name: at(s.heap, f.name)->0->text,
                expected: f.arity as int,
                actual: argc,
            },
            span_here(s)->0,
        ),
{
}

/// A call of a method by its name raises no error: one that the call would
/// raise is passed over.
pub proof fn law_invocations_raise_nothing(s: State)
    ensures
        invoke(s).verdict is Ok,
        super_invoke(s).verdict is Ok,
{
}

/// A method that was bound to a receiver is called with the receiver in the
/// place of the callee.
pub proof fn law_bound_method_gets_its_receiver(s: State, receiver: usize, method: usize)
    requires
        valid(s),
        deep(s, 1),
        s.heap.len() <= usize::MAX,
    ensures
        bind(s, receiver, method).verdict == next(s).verdict,
        ({
            let bound = bind(s, receiver, method).state;
            call_value(bound, peek(bound, 0), 0) == call_closure(
                poked(bound, 0, Value::Object(receiver)),
                method,
                0,
            )
        }),
{
    law_added_is_there(gc(s).heap, Obj::BoundMethod { receiver, method });
}

/// A call of a struct without a constructor and without arguments puts an
/// instance of the struct in the place of the callee.
pub proof fn law_struct_makes_an_instance(s: State, cstruct: usize)
    requires
        valid(s),
        deep(s, 1),
        s.heap.len() <= usize::MAX,
        at(gc(s).heap, cstruct) matches Some(Obj::Struct { methods, .. }) && lookup_method(
            methods,
            s.init,
        ) is None,
    ensures
        call_struct(s, cstruct, 0).verdict == next(s).verdict,
        ({
            let after = call_struct(s, cstruct, 0).state;
            &&& after.top == s.top
            &&& peek(after, 0) matches Value::Object(place) && at(after.heap, place) == Some(
                Obj::Instance { struct_: cstruct, fields: no_entries() },
            )
        }),
{
    let obj = Obj::Instance { struct_: cstruct, fields: no_entries() };
    law_added_is_there(gc(s).heap, obj);
    assert(cstruct < gc(s).heap.len());
    assert(at(allocated(s, obj).heap, cstruct) == at(gc(s).heap, cstruct));
}

/// A jump forward and a jump backward over the same distance cancel: `back` is
/// the state in which the operand of the second begins to be read.
pub proof fn law_loop_undoes_jump(s: State, back: State)
    requires
        operands(s, 2),
        jump(s).verdict == next(s).verdict,
        back == (State { frame: back.frame, ..jump(s).state }),
        back.frame.closure == s.frame.closure,
        back.frame.stack == s.frame.stack,
        back.frame.ip + 2 == jump(s).state.frame.ip,
        operands(back, 2),
        operand_u16(back) == operand_u16(s),
        s.frame.ip + 2 + operand_u16(s) <= usize::MAX,
    ensures
        loop_back(back) == next(skip(s, 2)),
{
}

} // verus!
