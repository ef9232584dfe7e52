//! What closures capture, upvalue by upvalue.
use crate::laws::collection::{is_held, law_collection_keeps_what_is_needed, needs};
use crate::laws::doubles::law_order_of_numbers;
use crate::laws::effects::{law_upvalues_go_by_their_index, lemma_made};
use crate::laws::plain::{
    byte, code, done, else_same, function, further, holds, made, obj, ready, replaced, same_value,
};
use crate::object::Obj;
use crate::op;
use crate::semantics;
use crate::semantics::{
    captured, find_open, gc, instruction, next_upvalue, next_upvalues, State,
};
use crate::value::{equal, Value};
use vstd::prelude::*;

verus! {

/// Whether all upvalues that are open are upvalues.
pub open spec fn opens_are_upvalues(s: State) -> bool {
    forall|i: int|
        0 <= i < s.open_upvalues.len() ==> (obj(s, #[trigger] s.open_upvalues[i]) matches Some(
            Obj::Upvalue { .. },
        ))
}

/// Whether the open upvalue at an index holds a value that equals the given
/// one.
pub open spec fn holds_equal(s: State, i: int, value: Value) -> bool {
    &&& 0 <= i < s.open_upvalues.len()
    &&& same_value(obj(s, s.open_upvalues[i])->0->Upvalue_value, value)
}

proof fn lemma_equal(a: Value, b: Value)
    ensures
        equal(a, b) == same_value(a, b),
{
    if let (Value::Number(x), Value::Number(y)) = (a, b) {
        law_order_of_numbers(x, y);
    }
}

proof fn lemma_find_open(s: State, value: Value, from: int)
    requires
        opens_are_upvalues(s),
        0 <= from <= s.open_upvalues.len(),
    ensures
        match find_open(s, value, from) {
            Some(Some(place)) => exists|i: int| #[trigger]
                holds_equal(s, i, value) && from <= i && place == s.open_upvalues[i] && forall|
                    j: int,
                |
                    from <= j < i ==> !#[trigger] holds_equal(s, j, value),
            Some(None) => forall|i: int| from <= i ==> !#[trigger] holds_equal(s, i, value),
            None => false,
        },
    decreases s.open_upvalues.len() - from,
{
    if from < s.open_upvalues.len() {
        let open = s.open_upvalues[from];
        assert(obj(s, open) matches Some(Obj::Upvalue { .. }));
        lemma_equal(obj(s, open)->0->Upvalue_value, value);
        if holds_equal(s, from, value) {
        } else {
            lemma_find_open(s, value, from + 1);
            if let Some(Some(place)) = find_open(s, value, from + 1) {
                let i = choose|i: int| #[trigger]
                    holds_equal(s, i, value) && from + 1 <= i && place == s.open_upvalues[i]
                        && forall|j: int|
                        from + 1 <= j < i ==> !#[trigger] holds_equal(s, j, value);
                assert forall|j: int| from <= j < i implies !#[trigger] holds_equal(
                    s,
                    j,
                    value,
                ) by {
                    if j > from {
                        assert(from + 1 <= j < i);
                    }
                }
            } else {
                assert forall|j: int| from <= j implies !#[trigger] holds_equal(s, j, value) by {
                    if j > from {
                        assert(from + 1 <= j);
                    }
                }
            }
        }
    }
}

/// A value that an open upvalue holds is captured in the first that does, and
/// nothing changes; any other value is captured in a new upvalue that holds
/// it, and which becomes the last of those that are open.
pub proof fn law_capture_takes_the_first_equal(s: State, value: Value)
    requires
        opens_are_upvalues(s),
        s.heap.len() <= usize::MAX,
    ensures
        captured(s, value) is Some,
        ({
            let (t, place) = captured(s, value)->0;
            if exists|i: int| #[trigger] holds_equal(s, i, value) {
                &&& t == s
                &&& exists|i: int| #[trigger]
                    holds_equal(s, i, value) && place == s.open_upvalues[i] && forall|j: int|
                        j < i ==> !#[trigger] holds_equal(s, j, value)
            } else {
                &&& made(s, t, Obj::Upvalue { value }, place)
                &&& t.open_upvalues == s.open_upvalues.push(place)
                &&& t == (State {
                    heap: t.heap,
                    next_gc: t.next_gc,
                    open_upvalues: t.open_upvalues,
                    ..s
                })
            }
        }),
{
    lemma_find_open(s, value, 0);
    if let Some(Some(place)) = find_open(s, value, 0) {
        let i = choose|i: int| #[trigger]
            holds_equal(s, i, value) && 0 <= i && place == s.open_upvalues[i] && forall|j: int|
                0 <= j < i ==> !#[trigger] holds_equal(s, j, value);
        assert(holds_equal(s, i, value));
    } else {
        assert(!exists|i: int| #[trigger] holds_equal(s, i, value)) by {
            if exists|i: int| #[trigger] holds_equal(s, i, value) {
                let i = choose|i: int| #[trigger] holds_equal(s, i, value);
                assert(0 <= i);
            }
        }
        lemma_made(s, s, Obj::Upvalue { value });
    }
}

/// The byte that says whether the upvalue at an index is captured from a slot;
/// the first pair begins at a distance from the next byte.
pub open spec fn from_slot(s: State, begin: int, i: int) -> bool {
    byte(s, begin + 2 * i) != 0
}

/// Which slot, or which upvalue of the maker, the upvalue at an index is.
pub open spec fn which(s: State, begin: int, i: int) -> int {
    byte(s, begin + 2 * i + 1) as int
}

/// The upvalues of the closure that runs.
pub open spec fn own_upvalues(s: State) -> Seq<usize> {
    obj(s, s.frame.closure)->0->Closure_upvalues
}

/// Whether the code describes so many upvalues, each of which there is.
pub open spec fn describes(s: State, begin: int, n: int) -> bool {
    &&& ready(s, begin + 2 * n)
    &&& forall|i: int| #![trigger from_slot(s, begin, i)]
        0 <= i < n ==> if from_slot(s, begin, i) {
            s.frame.stack + which(s, begin, i) < 16384
        } else {
            which(s, begin, i) < own_upvalues(s).len()
        }
}

/// Whether an upvalue is the one that the code describes at an index: it holds
/// the value of the slot, or it is the maker's.
pub open spec fn is_described(s: State, begin: int, i: int, t: State, upvalue: usize) -> bool {
    if from_slot(s, begin, i) {
        let value = s.stack[s.frame.stack + which(s, begin, i)];
        obj(t, upvalue) matches Some(Obj::Upvalue { value: held }) && (held == value || same_value(
            held,
            value,
        ))
    } else {
        upvalue == own_upvalues(s)[which(s, begin, i)]
    }
}

/// Whether objects of the heap have gone at most, and others have come, but
/// none has changed.
pub open spec fn only_swept(s: State, t: State) -> bool {
    &&& s.heap.len() <= t.heap.len()
    &&& forall|i: int|
        0 <= i < s.heap.len() ==> #[trigger] t.heap[i] == s.heap[i] || t.heap[i] is None
}

/// What holds while upvalues are captured.
spec fn while_captured(s: State, t: State, n: int) -> bool {
    &&& t.stack == s.stack
    &&& t.top == s.top
    &&& t.frames == s.frames
    &&& t.globals == s.globals
    &&& t.init == s.init
    &&& t.frame == further(s, 2 * n)
    &&& obj(t, s.frame.closure) == obj(s, s.frame.closure)
    &&& function(t, s.frame.closure) == function(s, s.frame.closure)
    &&& s.open_upvalues.len() <= t.open_upvalues.len()
    &&& forall|i: int|
        0 <= i < s.open_upvalues.len() ==> #[trigger] t.open_upvalues[i] == s.open_upvalues[i]
    &&& forall|i: int|
        0 <= i < s.open_upvalues.len() ==> obj(t, #[trigger] s.open_upvalues[i]) == obj(
            s,
            s.open_upvalues[i],
        )
    &&& opens_are_upvalues(t)
    &&& only_swept(s, t)
    &&& t.heap.len() <= s.heap.len() + n
}

proof fn lemma_gc_keeps(s: State)
    requires
        function(s, s.frame.closure) is Some,
    ensures
        obj(gc(s), s.frame.closure) == obj(s, s.frame.closure),
        function(gc(s), s.frame.closure) == function(s, s.frame.closure),
        forall|i: int|
            0 <= i < s.open_upvalues.len() ==> obj(gc(s), #[trigger] s.open_upvalues[i]) == obj(
                s,
                s.open_upvalues[i],
            ),
        only_swept(s, gc(s)),
{
    law_collection_keeps_what_is_needed(s);
    assert(is_held(s, s.frame.closure));
    let place = obj(s, s.frame.closure)->0->Closure_function;
    assert(needs(obj(gc(s), s.frame.closure)->0, place));
    assert forall|i: int| 0 <= i < s.open_upvalues.len() implies obj(
        gc(s),
        #[trigger] s.open_upvalues[i],
    ) == obj(s, s.open_upvalues[i]) by {
        assert(is_held(s, s.open_upvalues[i]));
    }
}

proof fn lemma_next(s: State)
    requires
        describes(s, 0, 1),
        opens_are_upvalues(s),
        s.heap.len() < usize::MAX,
    ensures
        next_upvalue(s) is Some,
        ({
            let (t, place) = next_upvalue(s)->0;
            &&& while_captured(s, t, 1)
            &&& is_described(s, 0, 0, t, place)
            &&& from_slot(s, 0, 0) ==> t.open_upvalues.contains(place)
        }),
{
    let u = semantics::skip(s, 2);
    assert(from_slot(s, 0, 0) == (byte(s, 0) != 0));
    assert(which(s, 0, 0) == byte(s, 1));
    assert(opens_are_upvalues(u));
    if from_slot(s, 0, 0) {
        let value = s.stack[s.frame.stack + which(s, 0, 0)];
        law_capture_takes_the_first_equal(u, value);
        let (t, place) = captured(u, value)->0;
        assert(next_upvalue(s) == Some((t, place)));
        if exists|i: int| #[trigger] holds_equal(u, i, value) {
            let i = choose|i: int| #[trigger]
                holds_equal(u, i, value) && place == u.open_upvalues[i] && forall|j: int|
                    j < i ==> !#[trigger] holds_equal(u, j, value);
            assert(t.open_upvalues[i] == place);
            assert(obj(u, u.open_upvalues[i]) matches Some(Obj::Upvalue { .. }));
        } else {
            lemma_gc_keeps(u);
            assert(t.heap == gc(u).heap.push(Some(Obj::Upvalue { value })));
            assert(t.open_upvalues[u.open_upvalues.len() as int] == place);
            assert forall|i: int| 0 <= i < t.open_upvalues.len() implies obj(
                t,
                #[trigger] t.open_upvalues[i],
            ) matches Some(Obj::Upvalue { .. }) by {
                if i < u.open_upvalues.len() {
                    let open = u.open_upvalues[i];
                    assert(obj(u, open) matches Some(Obj::Upvalue { .. }));
                    assert(obj(gc(u), open) == obj(u, open));
                }
            }
            assert forall|i: int| 0 <= i < s.open_upvalues.len() implies obj(
                t,
                #[trigger] s.open_upvalues[i],
            ) == obj(s, s.open_upvalues[i]) by {
                assert(obj(u, u.open_upvalues[i]) matches Some(Obj::Upvalue { .. }));
                assert(obj(gc(u), u.open_upvalues[i]) == obj(u, u.open_upvalues[i]));
            }
            assert forall|i: int| 0 <= i < s.heap.len() implies #[trigger] t.heap[i] == s.heap[i]
                || t.heap[i] is None by {
                assert(t.heap[i] == gc(u).heap[i]);
            }
        }
    }
}

proof fn lemma_next_all(s: State, taken: Seq<usize>, n: nat)
    requires
        describes(s, 0, n as int),
        opens_are_upvalues(s),
        s.heap.len() + n <= usize::MAX,
    ensures
        next_upvalues(s, taken, n) is Some,
        ({
            let (t, upvalues) = next_upvalues(s, taken, n)->0;
            &&& while_captured(s, t, n as int)
            &&& upvalues.len() == taken.len() + n
            &&& upvalues.take(taken.len() as int) == taken
            &&& forall|i: int|
                0 <= i < n ==> #[trigger] is_described(s, 0, i, t, upvalues[taken.len() + i])
                    && (from_slot(s, 0, i) ==> t.open_upvalues.contains(
                    upvalues[taken.len() + i],
                ))
        }),
    decreases n,
{
    if n == 0 {
        assert(taken.take(taken.len() as int) =~= taken);
    } else {
        assert(from_slot(s, 0, 0) || true);
        lemma_next(s);
        let (u, place) = next_upvalue(s)->0;
        let longer = taken.push(place);
        let rest = (n - 1) as nat;
        assert forall|i: int| #![trigger from_slot(u, 0, i)] 0 <= i < rest implies if from_slot(
            u,
            0,
            i,
        ) {
            u.frame.stack + which(u, 0, i) < 16384
        } else {
            which(u, 0, i) < own_upvalues(u).len()
        } by {
            assert(from_slot(u, 0, i) == from_slot(s, 0, i + 1));
            assert(which(u, 0, i) == which(s, 0, i + 1));
        }
        lemma_next_all(u, longer, rest);
        let (t, upvalues) = next_upvalues(u, longer, rest)->0;
        assert(next_upvalues(s, taken, n) == Some((t, upvalues)));
        assert(upvalues.take(taken.len() as int) =~= taken) by {
            assert(upvalues.take(longer.len() as int) == longer);
            assert forall|k: int| 0 <= k < taken.len() implies upvalues[k] == taken[k] by {
                assert(upvalues.take(longer.len() as int)[k] == longer[k]);
            }
        }
        assert(upvalues[taken.len() as int] == place) by {
            assert(upvalues.take(longer.len() as int)[taken.len() as int] == place);
        }
        assert forall|i: int| 0 <= i < n implies #[trigger] is_described(
            s,
            0,
            i,
            t,
            upvalues[taken.len() + i],
        ) && (from_slot(s, 0, i) ==> t.open_upvalues.contains(upvalues[taken.len() + i])) by {
            if i == 0 {
                if from_slot(s, 0, 0) {
                    let k = choose|k: int|
                        0 <= k < u.open_upvalues.len() && u.open_upvalues[k] == place;
                    assert(t.open_upvalues[k] == u.open_upvalues[k]);
                    assert(obj(t, u.open_upvalues[k]) == obj(u, u.open_upvalues[k]));
                }
            } else {
                assert(is_described(u, 0, i - 1, t, upvalues[longer.len() + (i - 1)]));
                assert(from_slot(u, 0, i - 1) == from_slot(s, 0, i));
                assert(which(u, 0, i - 1) == which(s, 0, i));
            }
        }
        assert forall|i: int| 0 <= i < s.open_upvalues.len() implies #[trigger] t.open_upvalues[i]
            == s.open_upvalues[i] by {
            assert(u.open_upvalues[i] == s.open_upvalues[i]);
        }
        assert forall|i: int| 0 <= i < s.open_upvalues.len() implies obj(
            t,
            #[trigger] s.open_upvalues[i],
        ) == obj(s, s.open_upvalues[i]) by {
            assert(u.open_upvalues[i] == s.open_upvalues[i]);
            assert(obj(t, u.open_upvalues[i]) == obj(u, u.open_upvalues[i]));
        }
        assert forall|i: int| 0 <= i < s.heap.len() implies #[trigger] t.heap[i] == s.heap[i]
            || t.heap[i] is None by {
            assert(u.heap[i] == s.heap[i] || u.heap[i] is None);
        }
    }
}

/// A closure is made of the function that the next byte names, and has as its
/// upvalues, in the order in which the bytes behind describe them, those that
/// hold the values of the slots named and those of the closure that makes it.
/// Every upvalue that was open is as it was.
pub proof fn law_closure_has_what_it_captured(s: State, made_of: usize)
    requires
        holds(s, 0),
        s.top < 16384,
        ready(s, 1),
        byte(s, 0) < code(s).constants.len(),
        code(s).constants[byte(s, 0) as int] == Value::Object(made_of),
        obj(s, made_of) matches Some(Obj::Function { function: f }) && describes(
            s,
            1,
            f.upvalues as int,
        ),
        opens_are_upvalues(s),
        s.heap.len() + 65536 <= usize::MAX,
    ensures
        ({
            let o = instruction(s, op::CLOSURE);
            let n = obj(s, made_of)->0->Function_function.upvalues as int;
            &&& done(o)
            &&& s.stack.update(s.top, o.state.stack[s.top]) == o.state.stack
            &&& o.state.top == s.top + 1
            &&& o.state.frame == further(s, 1 + 2 * n)
            &&& o.state.frames == s.frames
            &&& o.state.globals == s.globals
            &&& o.state.init == s.init
            &&& only_swept(s, o.state)
            &&& forall|i: int|
                0 <= i < s.open_upvalues.len() ==> obj(o.state, #[trigger] s.open_upvalues[i])
                    == obj(s, s.open_upvalues[i])
            &&& o.state.stack[s.top] matches Value::Object(place) && (obj(
                o.state,
                place,
            ) matches Some(Obj::Closure { function, upvalues }) && {
                &&& function == made_of
                &&& upvalues.len() == n
                &&& forall|i: int|
                    0 <= i < n ==> #[trigger] is_described(s, 1, i, o.state, upvalues[i])
            })
        }),
{
    let n = obj(s, made_of)->0->Function_function.upvalues as nat;
    let u = semantics::skip(s, 1);
    assert forall|i: int| #![trigger from_slot(u, 0, i)] 0 <= i < n implies if from_slot(u, 0, i) {
        u.frame.stack + which(u, 0, i) < 16384
    } else {
        which(u, 0, i) < own_upvalues(u).len()
    } by {
        assert(from_slot(u, 0, i) == from_slot(s, 1, i));
        assert(which(u, 0, i) == which(s, 1, i));
    }
    assert(opens_are_upvalues(u));
    lemma_next_all(u, Seq::empty(), n);
    let (v, upvalues) = next_upvalues(u, Seq::empty(), n)->0;
    let closure = Obj::Closure { function: made_of, upvalues };
    lemma_made(v, v, closure);
    lemma_gc_keeps(v);
    let o = instruction(s, op::CLOSURE);
    assert(o == semantics::closure(s));
    assert(o == semantics::push_new(v, closure));
    assert(o.state.heap == gc(v).heap.push(Some(closure)));
    assert forall|i: int| 0 <= i < n implies #[trigger] is_described(
        s,
        1,
        i,
        o.state,
        upvalues[i],
    ) by {
        assert(is_described(u, 0, i, v, upvalues[0 + i]));
        assert(from_slot(u, 0, i) == from_slot(s, 1, i));
        assert(which(u, 0, i) == which(s, 1, i));
        if from_slot(u, 0, i) {
            let k = choose|k: int|
                0 <= k < v.open_upvalues.len() && v.open_upvalues[k] == upvalues[i];
            assert(obj(gc(v), v.open_upvalues[k]) == obj(v, v.open_upvalues[k]));
        }
    }
    assert forall|i: int| 0 <= i < s.open_upvalues.len() implies obj(
        o.state,
        #[trigger] s.open_upvalues[i],
    ) == obj(s, s.open_upvalues[i]) by {
        assert(v.open_upvalues[i] == u.open_upvalues[i]);
        assert(obj(v, u.open_upvalues[i]) == obj(u, u.open_upvalues[i]));
        assert(obj(gc(v), v.open_upvalues[i]) == obj(v, v.open_upvalues[i]));
        assert(obj(u, u.open_upvalues[i]) matches Some(Obj::Upvalue { .. }));
    }
    assert forall|i: int| 0 <= i < s.heap.len() implies #[trigger] o.state.heap[i] == s.heap[i]
        || o.state.heap[i] is None by {
        assert(v.heap[i] == u.heap[i] || v.heap[i] is None);
        assert(gc(v).heap[i] == v.heap[i] || gc(v).heap[i] is None);
        assert(o.state.heap[i] == gc(v).heap[i]);
    }
}

/// A closure that runs reads, under an index, what it captured at that index.
/// `later` is the state in which it does, with no object written since.
pub proof fn law_callee_reads_what_was_captured(
    s: State,
    made_of: usize,
    later: State,
    i: int,
)
    requires
        holds(s, 0),
        s.top < 16384,
        ready(s, 1),
        byte(s, 0) < code(s).constants.len(),
        code(s).constants[byte(s, 0) as int] == Value::Object(made_of),
        obj(s, made_of) matches Some(Obj::Function { function: f }) && describes(
            s,
            1,
            f.upvalues as int,
        ) && 0 <= i < f.upvalues,
        from_slot(s, 1, i),
        opens_are_upvalues(s),
        s.heap.len() + 65536 <= usize::MAX,
        later.heap == instruction(s, op::CLOSURE).state.heap,
        Value::Object(later.frame.closure) == instruction(s, op::CLOSURE).state.stack[s.top],
        holds(later, 0),
        later.top < 16384,
        ready(later, 1),
        byte(later, 0) == i,
    ensures
        ({
            let o = instruction(later, op::GET_UPVALUE);
            let value = s.stack[s.frame.stack + which(s, 1, i)];
            let read = o.state.stack[later.top];
            &&& done(o)
            &&& read == value || same_value(read, value)
            &&& replaced(later, o.state, 0, read)
            &&& else_same(later, o.state)
        }),
{
    law_closure_has_what_it_captured(s, made_of);
    let o = instruction(s, op::CLOSURE);
    let place = o.state.stack[s.top]->Object_0;
    let upvalues = obj(o.state, place)->0->Closure_upvalues;
    assert(is_described(s, 1, i, o.state, upvalues[i]));
    assert(obj(later, upvalues[i]) == obj(o.state, upvalues[i]));
    law_upvalues_go_by_their_index(
        later,
        upvalues,
        obj(o.state, upvalues[i])->0->Upvalue_value,
    );
}

} // verus!
