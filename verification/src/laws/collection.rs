//! What a collection keeps and what it takes away, object by object.
use crate::heap::{
    edge, lemma_closed_holds_reachable, lemma_root_reachable, lemma_step_reachable, reachable,
};
use crate::laws::plain::obj;
use crate::object::Obj;
use crate::semantics::{gc, is_root, roots, State};
use crate::value::Value;
use vstd::prelude::*;

verus! {

/// Whether a table has the place as a name, or as the object of a name.
pub open spec fn in_table(table: Map<usize, Value>, place: usize) -> bool {
    table.contains_key(place) || exists|name: usize| #[trigger]
        table.contains_key(name) && table[name] == Value::Object(place)
}

/// Whether values have the object at a place among them.
pub open spec fn in_values(values: Seq<Value>, place: usize) -> bool {
    exists|i: int| 0 <= i < values.len() && #[trigger] values[i] == Value::Object(place)
}

/// Whether an object needs the one at a place: a function its name and its
/// constants, a closure its function and its upvalues, an upvalue and an array
/// what they hold, a struct its name, its methods and its fields with their
/// names, an instance its struct and its fields, and what is bound to a
/// receiver both.
pub open spec fn needs(o: Obj, place: usize) -> bool {
    match o {
        Obj::String { .. } => false,
        Obj::Function { function } => place == function.name || in_values(
            function.constants,
            place,
        ),
        Obj::Closure { function, upvalues } => place == function || exists|i: int|
            0 <= i < upvalues.len() && #[trigger] upvalues[i] == place,
        Obj::Upvalue { value } => value == Value::Object(place),
        Obj::Struct { name, methods, fields } => place == name || in_table(methods, place)
            || in_table(fields, place),
        Obj::Instance { struct_, fields } => place == struct_ || in_table(fields, place),
        Obj::BoundMethod { receiver, method } => place == receiver || place == method,
        Obj::Array { values, .. } => in_values(values, place),
        Obj::BoundArrayMethod { array, .. } => place == array,
        Obj::Native { .. } => false,
    }
}

/// Whether the machine needs the object at a place, whatever else is there: it
/// is a global or the name of one, an open upvalue, or the closure of a call.
pub open spec fn is_held(s: State, place: usize) -> bool {
    ||| in_table(s.globals, place)
    ||| s.frame.closure == place
    ||| exists|i: int| 0 <= i < s.frames.len() && (#[trigger] s.frames[i]).closure == place
    ||| exists|i: int| 0 <= i < s.open_upvalues.len() && #[trigger] s.open_upvalues[i] == place
}

proof fn lemma_needs(s: State, from: usize, to: usize)
    ensures
        edge(s.heap, from, to) == (obj(s, from) matches Some(o) && needs(o, to)),
{
}

proof fn lemma_held(s: State, place: usize)
    ensures
        roots(s).contains(place) == is_held(s, place),
{
    assert(roots(s).contains(place) == is_root(s, place));
}

/// A collection keeps what the machine holds, and with every object that it
/// keeps all that the object needs. What it keeps it leaves as it was, at its
/// place.
pub proof fn law_collection_keeps_what_is_needed(s: State)
    ensures
        gc(s).heap.len() == s.heap.len(),
        forall|i: int|
            0 <= i < s.heap.len() ==> #[trigger] gc(s).heap[i] == s.heap[i] || gc(
                s,
            ).heap[i] is None,
        forall|p: usize| #[trigger] is_held(s, p) ==> obj(gc(s), p) == obj(s, p),
        forall|p: usize, q: usize|
            obj(gc(s), p) is Some && #[trigger] needs(obj(gc(s), p)->0, q) ==> obj(gc(s), q)
                == obj(s, q),
{
    let set = roots(s);
    assert forall|p: usize| #[trigger] is_held(s, p) implies obj(gc(s), p) == obj(s, p) by {
        lemma_held(s, p);
        lemma_root_reachable(s.heap, set, p);
    }
    assert forall|p: usize, q: usize|
        obj(gc(s), p) is Some && #[trigger] needs(obj(gc(s), p)->0, q) implies obj(gc(s), q)
        == obj(s, q) by {
        assert(reachable(s.heap, set, p));
        lemma_needs(s, p, q);
        lemma_step_reachable(s.heap, set, p, q);
    }
}

/// A collection keeps nothing else: whatever places are chosen so that what
/// the machine holds is among them, and with every object all that it needs,
/// what a collection keeps is among them too.
pub proof fn law_collection_keeps_nothing_else(s: State, chosen: spec_fn(usize) -> bool)
    requires
        forall|p: usize| #[trigger] is_held(s, p) ==> chosen(p),
        forall|p: usize, q: usize|
            chosen(p) && obj(s, p) is Some && #[trigger] needs(obj(s, p)->0, q) ==> chosen(q),
    ensures
        forall|p: usize| #[trigger] obj(gc(s), p) is Some ==> chosen(p),
{
    let set = roots(s);
    assert forall|p: usize| #[trigger] set.contains(p) implies chosen(p) by {
        lemma_held(s, p);
    }
    assert forall|p: usize, q: usize| chosen(p) && #[trigger] edge(s.heap, p, q) implies chosen(
        q,
    ) by {
        lemma_needs(s, p, q);
        assert(needs(obj(s, p)->0, q));
    }
    lemma_closed_holds_reachable(s.heap, set, chosen);
    assert forall|p: usize| #[trigger] obj(gc(s), p) is Some implies chosen(p) by {
        assert(reachable(s.heap, set, p));
    }
}

/// A collection touches neither the stack nor the calls nor the globals nor
/// the upvalues that are open.
pub proof fn law_collection_touches_the_heap_alone(s: State)
    ensures
        gc(s) == (State { heap: gc(s).heap, next_gc: gc(s).next_gc, ..s }),
{
}

} // verus!
