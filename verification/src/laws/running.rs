//! What it is to take a step, to run, to start, and to be new.
use crate::frame::CallFrame;
use crate::heap::{added, at, heap_bytes, interned, new_place, Cells};
use crate::laws::doubles::{amount, is_finite, law_count_is_a_number};
use crate::laws::memory::{law_added_is_there, lemma_added_interned};
use crate::laws::plain::{asks, byte, done, function, further, holds, obj, ready};
use crate::object::{Native, Obj};
use crate::op;
use crate::semantics::{
    advance, are_rolls, dispatch, fresh, gc, instruction, started, step, State, Step,
};
use crate::table::no_entries;
use crate::value::Value;
use vstd::arithmetic::power2::pow2;
use vstd::prelude::*;

verus! {

/// A step reads the byte at hand and does its instruction. Where that asks for
/// a random number, the one that has come out is pushed. Where there is no
/// byte to read, the machine is stuck.
pub proof fn law_step_does_the_instruction_at_hand(s: State, roll: u64)
    ensures
        ready(s, 1) ==> {
            let o = instruction(State { frame: further(s, 1), ..s }, byte(s, 0));
            &&& dispatch(s) == o
            &&& !asks(o, Step::Random) ==> step(s, roll) == o
            &&& asks(o, Step::Random) && holds(o.state, 0) && o.state.top < 16384 && roll
                <= 0x20_0000_0000_0000 ==> {
                let t = step(s, roll).state;
                &&& done(step(s, roll))
                &&& t.stack[o.state.top] matches Value::Number(bits) && amount(bits) == roll
                    * pow2(1074) && is_finite(bits)
                &&& t == (State {
                    stack: o.state.stack.update(o.state.top, t.stack[o.state.top]),
                    top: o.state.top + 1,
                    ..o.state
                })
            }
        },
        function(s, s.frame.closure) matches Some(f) && s.frame.ip >= f.code.len() ==> asks(
            step(s, roll),
            Step::Stuck,
        ),
        function(s, s.frame.closure) is None ==> asks(step(s, roll), Step::Stuck),
{
    if roll <= 0x20_0000_0000_0000 {
        law_count_is_a_number(roll);
    }
}

/// A byte that stands for no instruction gets the machine stuck.
pub proof fn law_other_bytes_mean_nothing(s: State, b: u8)
    requires
        !seq![
            op::ARRAY_ACCESS,
            op::ARRAY_ACCESS_ASSIGN,
            op::ARRAY,
            op::GET_ARRAY,
            op::GET_SUPER,
            op::INHERIT,
            op::SUPER_INVOKE,
            op::INVOKE,
            op::SET_FIELD,
            op::GET_FIELD,
            op::FIELD,
            op::STRUCT,
            op::METHOD,
            op::CECILE_CONSTANT,
            op::ADD,
            op::CONCAT,
            op::SUB,
            op::MUL,
            op::DIV,
            op::EQUAL,
            op::NOT_EQUAL,
            op::NEG,
            op::MODULO,
            op::GREATER_THAN,
            op::GREATER_THAN_EQUAL,
            op::PRINT,
            op::PRINT_LN,
            op::CALL,
            op::CLOSURE,
            op::LOOP,
            op::JUMP,
            op::JUMP_IF_FALSE,
            op::GET_LOCAL,
            op::SET_LOCAL,
            op::SET_UPVALUE,
            op::GET_UPVALUE,
            op::SET_GLOBAL,
            op::LESS_THAN,
            op::LESS_THAN_EQUAL,
            op::GET_GLOBAL,
            op::DEFINE_GLOBAL,
            op::TRUE,
            op::FALSE,
            op::NIL,
            op::CLOSE_UPVALUE,
            op::POP,
            op::RETURN,
        ].contains(b),
    ensures
        asks(instruction(s, b), Step::Stuck),
{
}

/// The random numbers of a run are as many as its steps, each from 1 to 100.
pub proof fn law_rolls_lie_between_1_and_100(rolls: Seq<u64>, n: nat)
    ensures
        are_rolls(rolls, n) <==> rolls.len() == n && forall|i: int|
            0 <= i < rolls.len() ==> 1 <= #[trigger] rolls[i] && rolls[i] <= 100,
{
}

/// A run takes one step after another, each in the state that the one before
/// has left, as long as they ask for nothing; its end is that of the last.
pub proof fn law_run_takes_step_after_step(s: State, rolls: Seq<u64>)
    ensures
        rolls.len() == 0 ==> done(advance(s, rolls)) && advance(s, rolls).state == s,
        rolls.len() > 0 && done(step(s, rolls[0])) ==> advance(s, rolls) == advance(
            step(s, rolls[0]).state,
            rolls.subrange(1, rolls.len() as int),
        ),
        rolls.len() > 0 && !done(step(s, rolls[0])) ==> advance(s, rolls) == step(s, rolls[0]),
{
    if rolls.len() > 0 {
        assert(rolls.drop_first() =~= rolls.subrange(1, rolls.len() as int));
    }
}

/// A run starts with a new closure of the function, without upvalues, at its
/// first byte; with nothing on the stack and no call that waits; and with all
/// else as it was.
pub proof fn law_run_starts_at_the_first_byte(s: State, made_of: usize)
    requires
        s.heap.len() <= usize::MAX,
    ensures
        started(s, made_of) == (State {
            heap: s.heap.push(
                Some(Obj::Closure { function: made_of, upvalues: Seq::empty() }),
            ),
            top: 0,
            frames: Seq::empty(),
            frame: CallFrame { closure: s.heap.len() as usize, ip: 0, stack: 0 },
            ..s
        }),
{
}

/// The threshold after a collection is twice the number of bytes in use, where
/// that can be counted.
pub proof fn law_threshold_is_twice_the_bytes(s: State)
    ensures
        2 * heap_bytes(gc(s).heap) <= usize::MAX ==> gc(s).next_gc == 2 * heap_bytes(gc(s).heap),
{
}

/// Whether the globals are two, each a string and the native function that it
/// names.
pub open spec fn has_the_natives(
    s: State,
    clock_name: usize,
    clock: usize,
    random_name: usize,
    random: usize,
) -> bool {
    &&& s.globals == Map::<usize, Value>::empty().insert(
        clock_name,
        Value::Object(clock),
    ).insert(random_name, Value::Object(random))
    &&& obj(s, clock_name) == Some(Obj::String { text: "clock"@ })
    &&& obj(s, clock) == Some(Obj::Native { native: Native::Clock })
    &&& obj(s, random_name) == Some(Obj::String { text: "random_number"@ })
    &&& obj(s, random) == Some(Obj::Native { native: Native::RandomNumber })
}

/// A new machine has `nil` in every slot of an empty stack, no call, no open
/// upvalue, the two native functions as its globals, and the heap that it was
/// given, with nothing in it changed.
pub proof fn law_new_machine_is_empty(heap: Cells)
    requires
        interned(heap),
        heap.len() + 5 <= usize::MAX,
    ensures
        ({
            let s = fresh(heap);
            &&& s.stack.len() == 16384
            &&& forall|i: int| 0 <= i < 16384 ==> #[trigger] s.stack[i] == Value::Nil
            &&& s.top == 0
            &&& s.frames.len() == 0
            &&& s.open_upvalues.len() == 0
            &&& obj(s, s.frame.closure) is None
            &&& s.frame.ip == 0
            &&& s.frame.stack == 0
            &&& s.next_gc == 1024 * 1024
            &&& obj(s, s.init) == Some(Obj::String { text: "new"@ })
            &&& exists|a: usize, b: usize, c: usize, d: usize| #[trigger]
                has_the_natives(s, a, b, c, d)
            &&& heap.len() <= s.heap.len()
            &&& forall|i: int| 0 <= i < heap.len() ==> #[trigger] s.heap[i] == heap[i]
        }),
{
    let clock_name = Obj::String { text: "clock"@ };
    let random_name = Obj::String { text: "random_number"@ };
    let clock = Obj::Native { native: Native::Clock };
    let random = Obj::Native { native: Native::RandomNumber };
    let init = Obj::String { text: "new"@ };
    let heap1 = added(heap, clock_name);
    let heap2 = added(heap1, random_name);
    let heap3 = added(heap2, clock);
    let heap4 = added(heap3, random);
    law_added_is_there(heap, clock_name);
    law_added_is_there(heap1, random_name);
    law_added_is_there(heap2, clock);
    law_added_is_there(heap3, random);
    law_added_is_there(heap4, init);
    lemma_added_interned(heap, clock_name);
    let s = fresh(heap);
    let a = new_place(heap, clock_name);
    let b = new_place(heap2, clock);
    let c = new_place(heap1, random_name);
    let d = new_place(heap3, random);
    assert(no_entries() =~= Map::<usize, Value>::empty());
    assert(at(s.heap, a) == Some(clock_name));
    assert(at(s.heap, b) == Some(clock));
    assert(at(s.heap, c) == Some(random_name));
    assert(at(s.heap, d) == Some(random));
    assert(has_the_natives(s, a, b, c, d));
}

} // verus!
