//! Laws of the collector and of the strings.
use crate::heap::{
    added, at, collected, edge, has_text, heap_bytes, interned, is_known,
    lemma_closed_holds_reachable, lemma_root_reachable, lemma_step_reachable, new_place, reachable,
    Cells,
};
use crate::object::{capped, Obj};
use crate::semantics::{function_of, gc, is_root, roots, running, upvalues_here, State};
use crate::value::{equal, Value};
use vstd::prelude::*;

verus! {

/// A collection keeps an object, as it is, where it can be reached from a
/// root, and takes it away where it cannot.
pub proof fn law_gc_keeps_what_is_reached(s: State, place: usize)
    ensures
        at(gc(s).heap, place) == (if reachable(s.heap, roots(s), place) {
            at(s.heap, place)
        } else {
            None
        }),
{
}

/// A collection changes nothing but the heap and the threshold, which becomes
/// twice the number of bytes that are left in use.
pub proof fn law_gc_sets_the_threshold(s: State)
    ensures
        gc(s) == (State {
            heap: gc(s).heap,
            next_gc: capped(2 * heap_bytes(gc(s).heap)) as int,
            ..s
        }),
{
}

proof fn lemma_fewer_bytes(before: Cells, after: Cells)
    requires
        before.len() == after.len(),
        forall|i: int|
            0 <= i < before.len() ==> #[trigger] after[i] == before[i] || after[i] is None,
    ensures
        heap_bytes(after) <= heap_bytes(before),
    decreases before.len(),
{
    if before.len() > 0 {
        assert forall|i: int| 0 <= i < before.len() - 1 implies #[trigger] after.drop_last()[i]
            == before.drop_last()[i] || after.drop_last()[i] is None by {
            assert(after[i] == before[i] || after[i] is None);
        }
        lemma_fewer_bytes(before.drop_last(), after.drop_last());
        let last = before.len() - 1;
        assert(after[last] == before[last] || after[last] is None);
    }
}

/// After a collection no more bytes are in use than before it.
pub proof fn law_gc_frees_bytes(s: State)
    ensures
        heap_bytes(gc(s).heap) <= heap_bytes(s.heap),
{
    lemma_fewer_bytes(s.heap, gc(s).heap);
}

/// What can be reached after a collection is what could be reached before it.
pub proof fn law_gc_keeps_reachability(cells: Cells, roots: Set<usize>, place: usize)
    ensures
        reachable(collected(cells, roots), roots, place) == reachable(cells, roots, place),
{
    let after = collected(cells, roots);
    let before_kept = |p: usize| reachable(cells, roots, p);
    assert forall|a: usize, b: usize| before_kept(a) && #[trigger] edge(after, a, b) implies
        before_kept(b) by {
        assert(edge(cells, a, b));
        lemma_step_reachable(cells, roots, a, b);
    }
    assert forall|root: usize| #[trigger] roots.contains(root) implies before_kept(root) by {
        lemma_root_reachable(cells, roots, root);
    }
    lemma_closed_holds_reachable(after, roots, before_kept);
    let after_kept = |p: usize| reachable(after, roots, p);
    assert forall|a: usize, b: usize| after_kept(a) && #[trigger] edge(cells, a, b) implies
        after_kept(b) by {
        assert(before_kept(a));
        assert(edge(after, a, b));
        lemma_step_reachable(after, roots, a, b);
    }
    assert forall|root: usize| #[trigger] roots.contains(root) implies after_kept(root) by {
        lemma_root_reachable(after, roots, root);
    }
    lemma_closed_holds_reachable(cells, roots, after_kept);
    assert(reachable(after, roots, place) ==> before_kept(place));
    assert(reachable(cells, roots, place) ==> after_kept(place));
}

pub proof fn lemma_same_roots(s: State, t: State)
    requires
        s.globals == t.globals,
        s.frame.closure == t.frame.closure,
        s.frames == t.frames,
        s.open_upvalues == t.open_upvalues,
    ensures
        roots(s) == roots(t),
{
    assert forall|p: usize| roots(s).contains(p) == roots(t).contains(p) by {
        assert(is_root(s, p) == is_root(t, p));
    }
    assert(roots(s) =~= roots(t));
}

/// A second collection finds nothing to take away.
pub proof fn law_gc_is_idempotent(s: State)
    ensures
        gc(gc(s)) == gc(s),
{
    lemma_same_roots(s, gc(s));
    assert forall|i: int| 0 <= i < s.heap.len() implies #[trigger] gc(gc(s)).heap[i]
        == gc(s).heap[i] by {
        law_gc_keeps_reachability(s.heap, roots(s), i as usize);
    }
    assert(gc(gc(s)).heap =~= gc(s).heap);
}

/// A collection takes nothing away from under the call that runs: neither its
/// function nor its upvalues.
pub proof fn law_gc_keeps_the_running_call(s: State)
    requires
        running(s) is Some,
    ensures
        running(gc(s)) == running(s),
        upvalues_here(gc(s)) == upvalues_here(s),
        forall|i: int|
            0 <= i < upvalues_here(s).len() ==> at(
                gc(s).heap,
                #[trigger] upvalues_here(s)[i],
            ) == at(s.heap, upvalues_here(s)[i]),
{
    let closure = s.frame.closure;
    let set = roots(s);
    lemma_root_reachable(s.heap, set, closure);
    let function = at(s.heap, closure)->0->Closure_function;
    assert(edge(s.heap, closure, function));
    lemma_step_reachable(s.heap, set, closure, function);
    assert forall|i: int| 0 <= i < upvalues_here(s).len() implies at(
        gc(s).heap,
        #[trigger] upvalues_here(s)[i],
    ) == at(s.heap, upvalues_here(s)[i]) by {
        assert(edge(s.heap, closure, upvalues_here(s)[i]));
        lemma_step_reachable(s.heap, set, closure, upvalues_here(s)[i]);
    }
}

/// A collection takes nothing away from under a call that waits.
pub proof fn law_gc_keeps_the_waiting_calls(s: State, i: int)
    requires
        0 <= i < s.frames.len(),
        function_of(s.heap, s.frames[i].closure) is Some,
    ensures
        function_of(gc(s).heap, s.frames[i].closure) == function_of(s.heap, s.frames[i].closure),
{
    let closure = s.frames[i].closure;
    lemma_root_reachable(s.heap, roots(s), closure);
    let function = at(s.heap, closure)->0->Closure_function;
    assert(edge(s.heap, closure, function));
    lemma_step_reachable(s.heap, roots(s), closure, function);
}

/// A collection takes away neither the name nor the object of a global.
pub proof fn law_gc_keeps_the_globals(s: State, name: usize)
    requires
        s.globals.contains_key(name),
    ensures
        at(gc(s).heap, name) == at(s.heap, name),
        s.globals[name] matches Value::Object(place) ==> at(gc(s).heap, place) == at(
            s.heap,
            place,
        ),
{
    lemma_root_reachable(s.heap, roots(s), name);
    if let Value::Object(place) = s.globals[name] {
        assert(s.globals.contains_value(Value::Object(place)));
        lemma_root_reachable(s.heap, roots(s), place);
    }
}

/// A collection takes away no upvalue that is open.
pub proof fn law_gc_keeps_the_open_upvalues(s: State, i: int)
    requires
        0 <= i < s.open_upvalues.len(),
    ensures
        at(gc(s).heap, s.open_upvalues[i]) == at(s.heap, s.open_upvalues[i]),
{
    assert(s.open_upvalues.contains(s.open_upvalues[i]));
    lemma_root_reachable(s.heap, roots(s), s.open_upvalues[i]);
}

/// What the stack holds makes no difference to a collection.
pub proof fn law_gc_passes_over_the_stack(s: State, stack: Seq<Value>, top: int)
    ensures
        gc(State { stack, top, ..s }).heap == gc(s).heap,
{
    lemma_same_roots(s, State { stack, top, ..s });
}

pub proof fn lemma_added_interned(cells: Cells, obj: Obj)
    requires
        interned(cells),
    ensures
        interned(added(cells, obj)),
{
    let after = added(cells, obj);
    if !is_known(cells, obj) {
        assert(after == cells.push(Some(obj)));
    }
    assert forall|i: int, j: int, text: Seq<char>|
        has_text(after, i, text) && has_text(after, j, text) implies i == j by {
        assert(i < cells.len() ==> has_text(cells, i, text));
        assert(j < cells.len() ==> has_text(cells, j, text));
        if obj is String && obj->text == text {
            assert(i < cells.len() ==> has_text(cells, i, obj->text));
            assert(j < cells.len() ==> has_text(cells, j, obj->text));
        }
    }
}

pub proof fn lemma_collected_interned(cells: Cells, roots: Set<usize>)
    requires
        interned(cells),
    ensures
        interned(collected(cells, roots)),
{
    let after = collected(cells, roots);
    assert forall|i: int, j: int, text: Seq<char>|
        has_text(after, i, text) && has_text(after, j, text) implies i == j by {
        assert(has_text(cells, i, text));
        assert(has_text(cells, j, text));
    }
}

/// An object that was added is where it was put.
pub proof fn law_added_is_there(cells: Cells, obj: Obj)
    requires
        cells.len() <= usize::MAX,
    ensures
        at(added(cells, obj), new_place(cells, obj)) == Some(obj),
        forall|place: usize| place < cells.len() ==> #[trigger] at(added(cells, obj), place) == at(
            cells,
            place,
        ),
{
    if is_known(cells, obj) {
        let i = choose|i: int| has_text(cells, i, obj->text);
        assert(has_text(cells, i, obj->text));
    }
}

/// Two strings that are added to a heap become one if and only if their texts
/// are the same.
pub proof fn law_strings_are_held_once(cells: Cells, a: Seq<char>, b: Seq<char>)
    requires
        interned(cells),
        cells.len() < usize::MAX,
    ensures
        (new_place(cells, Obj::String { text: a }) == new_place(
            added(cells, Obj::String { text: a }),
            Obj::String { text: b },
        )) == (a == b),
{
    let first = Obj::String { text: a };
    let second = Obj::String { text: b };
    let between = added(cells, first);
    law_added_is_there(cells, first);
    law_added_is_there(between, second);
    lemma_added_interned(cells, first);
    let p = new_place(cells, first);
    let q = new_place(between, second);
    assert(has_text(between, p as int, a));
    if a == b {
        assert(has_text(between, p as int, second->text));
        assert(is_known(between, second));
        assert(has_text(between, q as int, b));
    } else if p == q {
        assert(at(added(between, second), p) == at(between, p));
    }
}

/// Two strings are equal as values if and only if their texts are the same.
pub proof fn law_string_equality(cells: Cells, a: usize, b: usize)
    requires
        interned(cells),
        at(cells, a) matches Some(Obj::String { .. }),
        at(cells, b) matches Some(Obj::String { .. }),
    ensures
        equal(Value::Object(a), Value::Object(b)) == (at(cells, a)->0->text == at(
            cells,
            b,
        )->0->text),
{
    let text = at(cells, a)->0->text;
    assert(has_text(cells, a as int, text));
    if at(cells, b)->0->text == text {
        assert(has_text(cells, b as int, text));
    }
}

} // verus!
