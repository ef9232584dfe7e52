//! Laws of what an instruction leaves as it was.
use crate::error::{Report, Span};
use crate::heap::at;
use crate::laws::steps::is_stuck;
use crate::object::Obj;
use crate::op;
use crate::semantics;
use crate::semantics::{
    deep, instruction, next_upvalue, next_upvalues, skip, Outcome, State, Step,
};
use crate::table::no_entries;
use crate::value::Value;
use vstd::prelude::*;

verus! {

/// Whether the calls of one state can be those of the other without a call
/// having begun or ended.
pub open spec fn same_calls(s: State, t: State) -> bool {
    &&& t.frames == s.frames
    &&& t.frame.closure == s.frame.closure
    &&& t.frame.stack == s.frame.stack
}

/// Whether a call has begun: the frame that ran waits, behind those that
/// waited before.
pub open spec fn call_began(s: State, t: State) -> bool {
    &&& t.frames.len() == s.frames.len() + 1
    &&& t.frames.drop_last() == s.frames
    &&& t.frames.last().closure == s.frame.closure
    &&& t.frames.last().stack == s.frame.stack
    &&& t.frame.ip == 0
}

/// Whether a call has ended: the frame that waited last runs again.
pub open spec fn call_ended(s: State, t: State) -> bool {
    &&& s.frames.len() > 0
    &&& t.frames == s.frames.drop_last()
    &&& t.frame == s.frames.last()
}

/// What an instruction that makes closures touches: the heap, the stack, the
/// next byte, and the upvalues that are open, which become more.
spec fn only_captured(s: State, t: State) -> bool {
    &&& same_calls(s, t)
    &&& t.globals == s.globals
    &&& t.init == s.init
    &&& s.open_upvalues.is_prefix_of(t.open_upvalues)
}

proof fn lemma_next_upvalue_only_captures(s: State)
    ensures
        next_upvalue(s) matches Some((t, _)) ==> only_captured(s, t),
{
    if let Some((u, place)) = next_upvalue(s) {
        if u.open_upvalues != s.open_upvalues {
            assert(u.open_upvalues =~= s.open_upvalues.push(place));
        }
    }
}

proof fn lemma_next_upvalues_only_capture(s: State, taken: Seq<usize>, n: nat)
    ensures
        next_upvalues(s, taken, n) matches Some((t, _)) ==> only_captured(s, t),
    decreases n,
{
    if n > 0 {
        lemma_next_upvalue_only_captures(s);
        if let Some((t, place)) = next_upvalue(s) {
            lemma_next_upvalues_only_capture(t, taken.push(place), (n - 1) as nat);
        }
    }
}

proof fn lemma_closure_only_captures(s: State)
    ensures
        !is_stuck(semantics::closure(s)) ==> only_captured(
            s,
            semantics::closure(s).state,
        ),
{
    if let Some(Value::Object(function)) = semantics::constant(s) {
        if let Some(Obj::Function { function: f }) = at(
            s.heap,
            function,
        ) {
            lemma_next_upvalues_only_capture(skip(s, 1), Seq::empty(), f.upvalues as nat);
        }
    }
}

/// Whether at most one call has begun, and none has ended.
spec fn at_most_began(s: State, outcome: Outcome) -> bool {
    is_stuck(outcome) || same_calls(s, outcome.state) || call_began(s, outcome.state)
}

proof fn lemma_call_closure_begins(s: State, closure: usize, argc: int)
    ensures
        at_most_began(s, semantics::call_closure(s, closure, argc)),
{
    assert(s.frames.push(s.frame).drop_last() =~= s.frames);
}

proof fn lemma_call_value_begins(s: State, callee: Value, argc: int)
    ensures
        at_most_began(s, semantics::call_value(s, callee, argc)),
{
    if let Value::Object(place) = callee {
        lemma_call_closure_begins(s, place, argc);
        if let Some(Obj::BoundMethod { receiver, method }) = at(s.heap, place) {
            lemma_call_closure_begins(
                semantics::poked(s, argc, Value::Object(receiver)),
                method,
                argc,
            );
        }
        if let Some(Obj::Struct { .. }) = at(s.heap, place) {
            let obj = Obj::Instance { struct_: place, fields: no_entries() };
            let t = semantics::poked(
                semantics::allocated(s, obj),
                argc,
                Value::Object(semantics::allocated_at(s, obj)),
            );
            if let Some(Obj::Struct { methods, .. }) = at(t.heap, place) {
                if let Some(method) = semantics::lookup_method(methods, t.init) {
                    lemma_call_closure_begins(t, method, argc);
                }
            }
        }
    }
}

proof fn lemma_call_begins(s: State)
    ensures
        at_most_began(s, semantics::call(s)),
{
    let argc = semantics::operand(s, 0) as int;
    lemma_call_value_begins(skip(s, 1), semantics::peek(s, argc), argc);
}

proof fn lemma_super_invoke_begins(s: State)
    ensures
        at_most_began(s, semantics::super_invoke(s)),
{
    if let Some(name) = semantics::name(s) {
        let argc = semantics::operand(s, 1) as int;
        let t = skip(s, 2);
        if let Value::Object(super_) = semantics::peek(t, 0) {
            if let Some(Obj::Struct { methods, .. }) = at(t.heap, super_) {
                if let Some(method) = semantics::lookup_method(methods, name) {
                    lemma_call_closure_begins(semantics::pops(t, 1), method, argc);
                }
            }
        }
    }
}

proof fn lemma_invoke_begins(s: State)
    ensures
        at_most_began(s, semantics::invoke(s)),
{
    if let Some(name) = semantics::name(s) {
        let argc = semantics::operand(s, 1) as int;
        let t = skip(s, 2);
        if let Value::Object(instance) = semantics::peek(t, argc) {
            if let Some(Obj::Instance { struct_, fields }) = at(t.heap, instance) {
                if let Some(value) = semantics::lookup(fields, name) {
                    lemma_call_value_begins(t, value, argc);
                }
                if let Some(Obj::Struct { methods, .. }) = at(t.heap, struct_) {
                    if let Some(method) = semantics::lookup_method(methods, name) {
                        lemma_call_closure_begins(t, method, argc);
                    }
                }
            }
        }
    }
}

/// The calls nest: a return ends the call that runs, if another waits for it,
/// and every other instruction begins at most one call and ends none.
pub proof fn law_calls_nest(s: State, byte: u8)
    requires
        !is_stuck(instruction(s, byte)),
    ensures
        ({
            let t = instruction(s, byte).state;
            if byte == op::RETURN && s.frames.len() > 0 {
                call_ended(s, t)
            } else {
                same_calls(s, t) || call_began(s, t)
            }
        }),
{
    if byte == op::CALL {
        lemma_call_begins(s);
    } else if byte == op::INVOKE {
        lemma_invoke_begins(s);
    } else if byte == op::SUPER_INVOKE {
        lemma_super_invoke_begins(s);
    } else if byte == op::CLOSURE {
        lemma_closure_only_captures(s);
    } else if byte != op::RETURN {
        assert(same_calls(s, instruction(s, byte).state));
    }
}

/// A program ends at a return that no call waits for, and nowhere else.
pub proof fn law_end(s: State, byte: u8)
    ensures
        instruction(s, byte).verdict == Ok::<Step, (Report, Span)>(Step::Finished) <==> byte
            == op::RETURN && deep(s, 1) && s.frames.len() == 0,
{
}

spec fn left_alone(s: State, outcome: Outcome) -> bool {
    is_stuck(outcome) || {
        &&& outcome.state.globals == s.globals
        &&& outcome.state.open_upvalues == s.open_upvalues
        &&& outcome.state.init == s.init
    }
}

proof fn lemma_call_value_leaves_alone(s: State, callee: Value, argc: int)
    ensures
        left_alone(s, semantics::call_value(s, callee, argc)),
{
}

proof fn lemma_calls_leave_alone(s: State)
    ensures
        left_alone(s, semantics::call(s)),
        left_alone(s, semantics::invoke(s)),
        left_alone(s, semantics::super_invoke(s)),
{
    let argc = semantics::operand(s, 0) as int;
    lemma_call_value_leaves_alone(skip(s, 1), semantics::peek(s, argc), argc);
    if let Some(name) = semantics::name(s) {
        let argc = semantics::operand(s, 1) as int;
        let t = skip(s, 2);
        if let Value::Object(instance) = semantics::peek(t, argc) {
            if let Some(Obj::Instance { fields, .. }) = at(t.heap, instance) {
                if let Some(value) = semantics::lookup(fields, name) {
                    lemma_call_value_leaves_alone(t, value, argc);
                }
            }
        }
    }
}

/// Whether the instruction with the byte can add an object, and so collect.
pub open spec fn may_collect(byte: u8) -> bool {
    ||| byte == op::ARRAY
    ||| byte == op::GET_ARRAY
    ||| byte == op::GET_SUPER
    ||| byte == op::GET_FIELD
    ||| byte == op::STRUCT
    ||| byte == op::CONCAT
    ||| byte == op::CLOSURE
    ||| byte == op::CALL
    ||| byte == op::INVOKE
}

/// Only the two instructions that write globals change them; the upvalues that
/// are open change only when a closure is made, and then become more; the name
/// of constructors never changes; and the threshold of the collector changes
/// only with instructions that add objects.
pub proof fn law_what_is_left_alone(s: State, byte: u8)
    requires
        !is_stuck(instruction(s, byte)),
    ensures
        ({
            let t = instruction(s, byte).state;
            &&& byte != op::DEFINE_GLOBAL && byte != op::SET_GLOBAL ==> t.globals == s.globals
            &&& byte != op::CLOSURE ==> t.open_upvalues == s.open_upvalues
            &&& s.open_upvalues.is_prefix_of(t.open_upvalues)
            &&& t.init == s.init
            &&& !may_collect(byte) ==> t.next_gc == s.next_gc
        }),
{
    if byte == op::CALL || byte == op::INVOKE || byte == op::SUPER_INVOKE {
        lemma_calls_leave_alone(s);
    } else if byte == op::CLOSURE {
        lemma_closure_only_captures(s);
    } else if byte != op::DEFINE_GLOBAL && byte != op::SET_GLOBAL {
        assert(left_alone(s, instruction(s, byte)));
    }
}

} // verus!
