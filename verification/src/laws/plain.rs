//! The words in which the laws of the instructions are put: what a state holds,
//! slot by slot, object by object and byte by byte, and how two states differ.
use crate::error::{Report, Span};
use crate::frame::CallFrame;
use crate::laws::doubles::same_number;
use crate::object::{Function, Obj};
use crate::semantics::{gc, Outcome, State, Step, Verdict};
use crate::value::Value;
use vstd::prelude::*;

verus! {

/// The object at a place of the heap.
pub open spec fn obj(s: State, place: usize) -> Option<Obj> {
    if place < s.heap.len() {
        s.heap[place as int]
    } else {
        None
    }
}

/// The function of a closure.
pub open spec fn function(s: State, closure: usize) -> Option<Function> {
    match obj(s, closure) {
        Some(Obj::Closure { function, .. }) => match obj(s, function) {
            Some(Obj::Function { function }) => Some(function),
            _ => None,
        },
        _ => None,
    }
}

/// The function whose code runs.
pub open spec fn code(s: State) -> Function {
    function(s, s.frame.closure)->0
}

/// Whether there are so many bytes to read.
pub open spec fn ready(s: State, n: int) -> bool {
    &&& function(s, s.frame.closure) is Some
    &&& code(s).code.len() <= usize::MAX
    &&& s.frame.ip + n <= code(s).code.len()
}

/// The byte at a distance from the next one.
pub open spec fn byte(s: State, distance: int) -> u8 {
    code(s).code[s.frame.ip + distance]
}

/// The frame that runs, with the next byte so much further on.
pub open spec fn further(s: State, n: int) -> CallFrame {
    CallFrame { closure: s.frame.closure, ip: (s.frame.ip + n) as usize, stack: s.frame.stack }
}

/// Whether the next byte names the string at a place among the constants.
pub open spec fn names(s: State, place: usize) -> bool {
    &&& ready(s, 1)
    &&& byte(s, 0) < code(s).constants.len()
    &&& code(s).constants[byte(s, 0) as int] == Value::Object(place)
    &&& obj(s, place) matches Some(Obj::String { .. })
}

/// The text of the string at a place.
pub open spec fn letters(s: State, place: usize) -> Seq<char> {
    obj(s, place)->0->text
}

/// Whether the stack has its size, and holds at least so many values.
pub open spec fn holds(s: State, n: int) -> bool {
    s.stack.len() == 16384 && 0 <= n <= s.top <= 16384
}

/// The value at a distance from the topmost one.
pub open spec fn under(s: State, distance: int) -> Value {
    s.stack[s.top - 1 - distance]
}

/// Whether an instruction is done, and nothing is asked for.
pub open spec fn done(outcome: Outcome) -> bool {
    outcome.verdict == Ok::<Step, (Report, Span)>(Step::Next)
}

/// Whether an instruction asks for something.
pub open spec fn asks(outcome: Outcome, step: Step) -> bool {
    outcome.verdict == Ok::<Step, (Report, Span)>(step)
}

/// Whether the source of the byte that was read last, `n` bytes on, is known.
pub open spec fn known(s: State, n: int) -> bool {
    &&& function(s, s.frame.closure) is Some
    &&& 0 < s.frame.ip + n <= code(s).spans.len()
    &&& s.frame.ip + n <= usize::MAX
}

/// Whether an error is raised, with the source of that byte.
pub open spec fn raises(s: State, n: int, outcome: Outcome, report: Report) -> bool {
    let verdict: Verdict = Err((report, code(s).spans[s.frame.ip + n - 1]));
    outcome.verdict == verdict && outcome.state.frame == further(s, n)
}

/// Whether nothing has changed but the stack and the next byte.
pub open spec fn else_same(s: State, t: State) -> bool {
    &&& t.heap == s.heap
    &&& same_but_heap(s, t)
    &&& t.next_gc == s.next_gc
}

/// The same, the heap and the threshold left aside.
pub open spec fn same_but_heap(s: State, t: State) -> bool {
    &&& t.frames == s.frames
    &&& t.globals == s.globals
    &&& t.open_upvalues == s.open_upvalues
    &&& t.init == s.init
}

/// Whether the topmost `n` values have gone.
pub open spec fn dropped(s: State, t: State, n: int) -> bool {
    t.stack == s.stack && t.top == s.top - n
}

/// Whether a value has come in the place of the topmost `n` values.
pub open spec fn replaced(s: State, t: State, n: int, value: Value) -> bool {
    t.stack == s.stack.update(s.top - n, value) && t.top == s.top - n + 1
}

/// Whether the heap holds a string.
pub open spec fn has_string(s: State, text: Seq<char>) -> bool {
    exists|i: int| 0 <= i < s.heap.len() && #[trigger] s.heap[i] == Some(Obj::String { text })
}

/// Whether an object has been added at a place, after a collection: a string
/// that the heap holds is not added once more, and everything else goes to a
/// place that was not there before.
pub open spec fn made(s: State, t: State, new: Obj, place: usize) -> bool {
    let u = gc(s);
    &&& t.next_gc == u.next_gc
    &&& if new is String && has_string(u, new->text) {
        t.heap == u.heap && obj(u, place) == Some(new)
    } else {
        place == u.heap.len() && t.heap == u.heap.push(Some(new))
    }
}

/// Whether the object at a place has become another.
pub open spec fn changed(s: State, t: State, place: usize, later: Obj) -> bool {
    t.heap == s.heap.update(place as int, Some(later)) && t.next_gc == s.next_gc
}

/// Whether a call of a closure has begun: the frame that ran, `n` bytes
/// further on, waits; the closure runs from its first byte; and the frame
/// begins with the callee, its arguments as they are on the stack.
pub open spec fn began(s: State, t: State, n: int, closure: usize, argc: int) -> bool {
    &&& t.stack == s.stack
    &&& t.top == s.top
    &&& t.heap == s.heap
    &&& t.frames == s.frames.push(further(s, n))
    &&& t.frame == (CallFrame { closure, ip: 0, stack: (s.top - argc - 1) as usize })
    &&& t.globals == s.globals
    &&& t.open_upvalues == s.open_upvalues
    &&& t.init == s.init
    &&& t.next_gc == s.next_gc
}

/// Whether a call of a closure with so many arguments can begin.
pub open spec fn can_begin(s: State, closure: usize, argc: int) -> bool {
    &&& function(s, closure) matches Some(f) && f.arity == argc
    &&& s.frames.len() < 64
    &&& holds(s, argc + 1)
}

/// Whether two values are equal.
pub open spec fn same_value(a: Value, b: Value) -> bool {
    match (a, b) {
        (Value::Nil, Value::Nil) => true,
        (Value::Bool(x), Value::Bool(y)) => x == y,
        (Value::Number(x), Value::Number(y)) => same_number(x, y),
        (Value::Object(x), Value::Object(y)) => x == y,
        _ => false,
    }
}

/// The name of a value's type.
pub open spec fn kind(s: State, value: Value) -> Option<Seq<char>> {
    match value {
        Value::Nil => Some("nil"@),
        Value::Bool(_) => Some("bool"@),
        Value::Number(_) => Some("int"@),
        Value::Object(place) => match obj(s, place) {
            Some(Obj::String { .. }) => Some("string"@),
            Some(Obj::Function { .. }) => Some("function"@),
            Some(Obj::Closure { .. }) => Some("function"@),
            Some(Obj::Upvalue { .. }) => Some("upvalue"@),
            Some(Obj::Struct { .. }) => Some("struct"@),
            Some(Obj::Instance { .. }) => Some("instance"@),
            Some(Obj::BoundMethod { .. }) => Some("function"@),
            Some(Obj::Array { .. }) => Some("array"@),
            Some(Obj::BoundArrayMethod { .. }) => Some("function"@),
            Some(Obj::Native { .. }) => Some("function"@),
            None => None,
        },
    }
}

} // verus!
