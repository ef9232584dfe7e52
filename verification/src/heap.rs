//! The heap: objects by their places, strings held once, and the collector.
use crate::object::{
    add_capped, capped, lemma_capped_sum, mentions, object_bytes, Obj, Object,
};
use crate::value::Value;
use vstd::prelude::*;

verus! {

/// What a heap holds: an object at each place, or nothing where the object was
/// swept away.
pub type Cells = Seq<Option<Obj>>;

/// The object at a place.
pub open spec fn at(cells: Cells, place: usize) -> Option<Obj> {
    if place < cells.len() {
        cells[place as int]
    } else {
        None
    }
}

/// The heap with another object at a place.
pub open spec fn store(cells: Cells, place: usize, obj: Obj) -> Cells {
    cells.update(place as int, Some(obj))
}

/// Whether the string with the text is at a place.
pub open spec fn has_text(cells: Cells, place: int, text: Seq<char>) -> bool {
    0 <= place < cells.len() && cells[place] == Some(Obj::String { text })
}

/// Whether no two strings of the heap have the same text.
pub open spec fn interned(cells: Cells) -> bool {
    forall|i: int, j: int, text: Seq<char>|
        has_text(cells, i, text) && has_text(cells, j, text) ==> i == j
}

/// Whether the heap holds the object already: a string is held once.
pub open spec fn is_known(cells: Cells, obj: Obj) -> bool {
    obj matches Obj::String { text } && exists|i: int| has_text(cells, i, text)
}

/// Where a new object goes: a string whose text the heap holds already is that
/// string, and everything else comes after all that there is.
pub open spec fn new_place(cells: Cells, obj: Obj) -> usize {
    if is_known(cells, obj) {
        (choose|i: int| has_text(cells, i, obj->text)) as usize
    } else {
        cells.len() as usize
    }
}

/// The heap after an object was added.
pub open spec fn added(cells: Cells, obj: Obj) -> Cells {
    if is_known(cells, obj) {
        cells
    } else {
        cells.push(Some(obj))
    }
}

/// Whether the object at the first place refers to the second.
pub open spec fn edge(cells: Cells, from: usize, to: usize) -> bool {
    at(cells, from) matches Some(obj) && mentions(obj, to)
}

/// Whether each place of the path refers to the next.
pub open spec fn is_path(cells: Cells, path: Seq<usize>) -> bool {
    forall|i: int| 0 <= i < path.len() - 1 ==> edge(cells, #[trigger] path[i], path[i + 1])
}

/// Whether a path leads from the first place to the second.
pub open spec fn leads(cells: Cells, path: Seq<usize>, from: usize, to: usize) -> bool {
    path.len() > 0 && path[0] == from && path.last() == to && is_path(cells, path)
}

/// Whether a place can be reached from one of the roots.
pub open spec fn reachable(cells: Cells, roots: Set<usize>, place: usize) -> bool {
    exists|path: Seq<usize>, root: usize| #[trigger]
        leads(cells, path, root, place) && roots.contains(root)
}

/// The heap without the objects that cannot be reached from the roots.
pub open spec fn collected(cells: Cells, roots: Set<usize>) -> Cells {
    Seq::new(
        cells.len(),
        |i: int|
            if reachable(cells, roots, i as usize) {
                cells[i]
            } else {
                None
            },
    )
}

/// How many bytes the objects of a heap take up.
pub open spec fn heap_bytes(cells: Cells) -> nat
    decreases cells.len(),
{
    if cells.len() == 0 {
        0
    } else {
        heap_bytes(cells.drop_last()) + match cells.last() {
            Some(obj) => object_bytes(obj),
            None => 0,
        }
    }
}

/// The heap of a machine.
pub struct Heap {
    slots: Vec<Option<Object>>,
}

spec fn cell(slot: Option<Object>) -> Option<Obj> {
    match slot {
        Some(object) => Some(object@),
        None => None,
    }
}

impl View for Heap {
    type V = Cells;

    closed spec fn view(&self) -> Cells {
        self.slots@.map_values(|slot: Option<Object>| cell(slot))
    }
}

pub proof fn lemma_root_reachable(cells: Cells, roots: Set<usize>, root: usize)
    requires
        roots.contains(root),
    ensures
        reachable(cells, roots, root),
{
    assert(leads(cells, seq![root], root, root));
}

pub proof fn lemma_step_reachable(cells: Cells, roots: Set<usize>, from: usize, to: usize)
    requires
        reachable(cells, roots, from),
        edge(cells, from, to),
    ensures
        reachable(cells, roots, to),
{
    let (path, root) = choose|path: Seq<usize>, root: usize| #[trigger]
        leads(cells, path, root, from) && roots.contains(root);
    let longer = path.push(to);
    assert forall|i: int| 0 <= i < longer.len() - 1 implies edge(
        cells,
        #[trigger] longer[i],
        longer[i + 1],
    ) by {
        if i < path.len() - 1 {
            assert(edge(cells, path[i], path[i + 1]));
        }
    }
    assert(leads(cells, longer, root, to));
}

/// A set of places that holds the roots and is closed under reference holds
/// all that can be reached.
proof fn lemma_closed_holds_path(
    cells: Cells,
    kept: spec_fn(usize) -> bool,
    path: Seq<usize>,
    n: int,
)
    requires
        0 <= n < path.len(),
        is_path(cells, path),
        kept(path[0]),
        forall|a: usize, b: usize| kept(a) && #[trigger] edge(cells, a, b) ==> kept(b),
    ensures
        kept(path[n]),
    decreases n,
{
    if n > 0 {
        lemma_closed_holds_path(cells, kept, path, n - 1);
        assert(edge(cells, path[n - 1], path[n - 1 + 1]));
    }
}

pub proof fn lemma_closed_holds_reachable(
    cells: Cells,
    roots: Set<usize>,
    kept: spec_fn(usize) -> bool,
)
    requires
        forall|root: usize| #[trigger] roots.contains(root) ==> kept(root),
        forall|a: usize, b: usize| kept(a) && #[trigger] edge(cells, a, b) ==> kept(b),
    ensures
        forall|place: usize| #[trigger] reachable(cells, roots, place) ==> kept(place),
{
    assert forall|place: usize| #[trigger] reachable(cells, roots, place) implies kept(place) by {
        let (path, root) = choose|path: Seq<usize>, root: usize| #[trigger]
            leads(cells, path, root, place) && roots.contains(root);
        lemma_closed_holds_path(cells, kept, path, path.len() - 1);
    }
}

/// How many of the first `n` marks are not set.
spec fn unmarked(marks: Seq<bool>, n: nat) -> nat
    decreases n,
{
    if n == 0 {
        0
    } else if marks[n - 1] {
        unmarked(marks, (n - 1) as nat)
    } else {
        1 + unmarked(marks, (n - 1) as nat)
    }
}

proof fn lemma_mark_counts(marks: Seq<bool>, n: nat, place: int)
    requires
        n <= marks.len(),
        0 <= place < marks.len(),
        !marks[place],
    ensures
        unmarked(marks.update(place, true), n) == (if place < n {
            unmarked(marks, n) - 1
        } else {
            unmarked(marks, n) as int
        }),
        place < n ==> unmarked(marks, n) > 0,
    decreases n,
{
    if n > 0 {
        lemma_mark_counts(marks, (n - 1) as nat, place);
    }
}

/// Whether the place is marked; places beyond the heap count as marked.
spec fn is_marked(marks: Seq<bool>, place: usize) -> bool {
    place < marks.len() ==> marks[place as int]
}

pub proof fn lemma_store_interned(cells: Cells, place: usize, obj: Obj)
    requires
        interned(cells),
        place < cells.len(),
        !(obj is String),
    ensures
        interned(store(cells, place, obj)),
{
    let after = store(cells, place, obj);
    assert forall|i: int, j: int, text: Seq<char>|
        has_text(after, i, text) && has_text(after, j, text) implies i == j by {
        assert(has_text(cells, i, text));
        assert(has_text(cells, j, text));
    }
}

impl Heap {
    /// Whether strings are held once.
    pub open spec fn wf(&self) -> bool {
        interned(self@)
    }

    /// An empty heap.
    pub fn new() -> (heap: Heap)
        ensures
            heap.wf(),
            heap@ == Cells::empty(),
    {
        let heap = Heap { slots: Vec::new() };
        assert(heap@ =~= Cells::empty());
        heap
    }

    /// How many places there are.
    pub fn len(&self) -> (len: usize)
        ensures
            len == self@.len(),
    {
        self.slots.len()
    }

    /// How many bytes the objects take up, as far as that can be counted.
    pub fn allocated_bytes(&self) -> (bytes: usize)
        ensures
            bytes == capped(heap_bytes(self@)),
    {
        let mut bytes: usize = 0;
        let mut i: usize = 0;
        while i < self.slots.len()
            invariant
                i <= self.slots.len(),
                bytes == capped(heap_bytes(self@.take(i as int))),
            decreases self.slots.len() - i,
        {
            assert(self@.take(i + 1).drop_last() =~= self@.take(i as int));
            assert(self@.take(i + 1).last() == self@[i as int]);
            if let Some(object) = &self.slots[i] {
                proof {
                    lemma_capped_sum(heap_bytes(self@.take(i as int)), object_bytes(object@));
                }
                bytes = add_capped(bytes, object.bytes());
            }
            i = i + 1;
        }
        assert(self@.take(i as int) =~= self@);
        bytes
    }

    /// The object at a place.
    pub fn get(&self, place: usize) -> (object: Option<&Object>)
        ensures
            match object {
                Some(object) => at(self@, place) == Some(object@),
                None => at(self@, place) is None,
            },
    {
        if place < self.slots.len() {
            match &self.slots[place] {
                Some(object) => Some(object),
                None => None,
            }
        } else {
            None
        }
    }

    /// The text of the string at a place.
    pub fn text(&self, place: usize) -> (text: Option<String>)
        ensures
            match text {
                Some(text) => at(self@, place) == Some(Obj::String { text: text@ }),
                None => !(at(self@, place) matches Some(Obj::String { .. })),
            },
    {
        match self.get(place) {
            Some(Object::String(string)) => Some(string.value.clone()),
            _ => None,
        }
    }

    /// The string with the text, if the heap holds it.
    fn find_text(&self, text: &String) -> (place: Option<usize>)
        ensures
            match place {
                Some(place) => has_text(self@, place as int, text@),
                None => forall|i: int| !has_text(self@, i, text@),
            },
    {
        let mut i: usize = 0;
        while i < self.slots.len()
            invariant
                i <= self.slots.len(),
                forall|j: int| 0 <= j < i ==> !has_text(self@, j, text@),
            decreases self.slots.len() - i,
        {
            if let Some(Object::String(string)) = &self.slots[i] {
                if string.value == *text {
                    return Some(i);
                }
            }
            i = i + 1;
        }
        None
    }

    /// Adds an object.
    pub fn allocate(&mut self, object: Object) -> (place: usize)
        requires
            old(self).wf(),
        ensures
            final(self).wf(),
            final(self)@ == added(old(self)@, object@),
            place == new_place(old(self)@, object@),
    {
        if let Object::String(string) = &object {
            if let Some(place) = self.find_text(&string.value) {
                assert(has_text(self@, place as int, object@->text));
                return place;
            }
        }
        let place: usize = self.slots.len();
        let ghost before = self@;
        self.slots.push(Some(object));
        assert(self@ =~= before.push(Some(object@)));
        proof {
            assert forall|i: int, j: int, text: Seq<char>|
                has_text(self@, i, text) && has_text(self@, j, text) implies i == j by {
                assert(i < before.len() ==> has_text(before, i, text));
                assert(j < before.len() ==> has_text(before, j, text));
            }
        }
        place
    }

    /// Marks a place, and puts it on the list of those whose objects are still
    /// to be looked at.
    fn mark(marks: &mut Vec<bool>, todo: &mut Vec<usize>, place: usize)
        ensures
            final(marks).len() == old(marks).len(),
            is_marked(final(marks)@, place),
            forall|p: usize| #[trigger]
                is_marked(old(marks)@, p) ==> is_marked(final(marks)@, p),
            forall|p: usize| #[trigger]
                is_marked(final(marks)@, p) ==> is_marked(old(marks)@, p) || (p == place
                    && final(todo)@.contains(p)),
            forall|p: usize| old(todo)@.contains(p) ==> #[trigger] final(todo)@.contains(p),
            forall|p: usize| #[trigger]
                final(todo)@.contains(p) ==> old(todo)@.contains(p) || (p == place && p
                    < old(marks).len()),
            unmarked(final(marks)@, final(marks).len() as nat) + final(todo).len() == unmarked(
                old(marks)@,
                old(marks).len() as nat,
            ) + old(todo).len(),
            unmarked(final(marks)@, final(marks).len() as nat) <= unmarked(
                old(marks)@,
                old(marks).len() as nat,
            ),
    {
        if place < marks.len() && !marks[place] {
            let ghost todo_before = todo@;
            proof {
                lemma_mark_counts(marks@, marks.len() as nat, place as int);
            }
            marks.set(place, true);
            todo.push(place);
            proof {
                assert(todo@[todo_before.len() as int] == place);
                assert forall|p: usize| todo_before.contains(p) implies #[trigger] todo@.contains(
                    p,
                ) by {
                    let i = choose|i: int| 0 <= i < todo_before.len() && todo_before[i] == p;
                    assert(todo@[i] == p);
                }
            }
        }
    }

    /// The places that can be reached from the roots, as marks.
    fn trace(&self, roots: &Vec<usize>) -> (marks: Vec<bool>)
        ensures
            marks.len() == self@.len(),
            forall|p: usize|
                p < marks.len() ==> #[trigger] marks@[p as int] == reachable(
                    self@,
                    roots@.to_set(),
                    p,
                ),
    {
        let ghost cells = self@;
        let ghost root_set = roots@.to_set();
        let n: usize = self.slots.len();
        let mut marks: Vec<bool> = Vec::new();
        let mut i: usize = 0;
        while i < n
            invariant
                i <= n,
                marks.len() == i,
                forall|j: int| 0 <= j < i ==> !marks@[j],
            decreases n - i,
        {
            marks.push(false);
            i = i + 1;
        }
        let mut todo: Vec<usize> = Vec::new();
        let mut k: usize = 0;
        while k < roots.len()
            invariant
                k <= roots.len(),
                marks.len() == n,
                root_set == roots@.to_set(),
                forall|j: int| 0 <= j < k ==> is_marked(marks@, #[trigger] roots@[j]),
                forall|p: usize|
                    p < n && #[trigger] is_marked(marks@, p) ==> todo@.contains(p),
                forall|p: usize| #[trigger]
                    todo@.contains(p) ==> p < n && root_set.contains(p),
            decreases roots.len() - k,
        {
            let root: usize = roots[k];
            assert(root_set.contains(root));
            Self::mark(&mut marks, &mut todo, root);
            k = k + 1;
        }
        proof {
            assert forall|root: usize| #[trigger] root_set.contains(root) implies is_marked(
                marks@,
                root,
            ) by {
                let j = choose|j: int| 0 <= j < roots@.len() && roots@[j] == root;
                assert(is_marked(marks@, roots@[j]));
            }
            assert forall|p: usize| p < n && #[trigger] is_marked(marks@, p) implies reachable(
                cells,
                root_set,
                p,
            ) by {
                assert(todo@.contains(p));
                lemma_root_reachable(cells, root_set, p);
            }
        }
        while todo.len() > 0
            invariant
                cells == self@,
                n == self.slots.len(),
                marks.len() == n,
                forall|root: usize| #[trigger] root_set.contains(root) ==> is_marked(marks@, root),
                forall|p: usize|
                    p < n && #[trigger] is_marked(marks@, p) ==> reachable(cells, root_set, p),
                forall|p: usize| #[trigger] todo@.contains(p) ==> p < n && is_marked(marks@, p),
                forall|a: usize, b: usize|
                    is_marked(marks@, a) && !todo@.contains(a) && #[trigger] edge(cells, a, b)
                        ==> is_marked(marks@, b),
            decreases unmarked(marks@, n as nat) + todo.len(),
        {
            let ghost todo_before = todo@;
            let ghost marks_before = marks@;
            let place: usize = todo.pop().unwrap();
            let ghost todo_rest = todo@;
            assert(todo_before.contains(place)) by {
                assert(todo_before[todo_before.len() - 1] == place);
            }
            proof {
                assert forall|p: usize| #[trigger] todo_before.contains(p) implies p == place
                    || todo_rest.contains(p) by {
                    let i = choose|i: int| 0 <= i < todo_before.len() && todo_before[i] == p;
                    if i < todo_rest.len() {
                        assert(todo_rest[i] == p);
                    }
                }
                assert forall|p: usize| #[trigger]
                    todo_rest.contains(p) implies todo_before.contains(p) by {
                    let i = choose|i: int| 0 <= i < todo_rest.len() && todo_rest[i] == p;
                    assert(todo_before[i] == p);
                }
            }
            if let Some(object) = &self.slots[place] {
                let next = object.places();
                assert(at(cells, place) == Some(object@));
                let mut j: usize = 0;
                while j < next.len()
                    invariant
                        j <= next.len(),
                        cells == self@,
                        n == self.slots.len(),
                        marks.len() == n,
                        place < n,
                        at(cells, place) == Some(object@),
                        is_marked(marks@, place),
                        reachable(cells, root_set, place),
                        forall|p: usize| #[trigger] next@.contains(p) <==> mentions(object@, p),
                        forall|root: usize| #[trigger]
                            root_set.contains(root) ==> is_marked(marks@, root),
                        forall|p: usize|
                            p < n && #[trigger] is_marked(marks@, p) ==> reachable(
                                cells,
                                root_set,
                                p,
                            ),
                        forall|p: usize| #[trigger]
                            todo@.contains(p) ==> p < n && is_marked(marks@, p),
                        forall|a: usize, b: usize|
                            is_marked(marks@, a) && a != place && !todo@.contains(a)
                                && #[trigger] edge(cells, a, b) ==> is_marked(marks@, b),
                        forall|i: int| 0 <= i < j ==> is_marked(marks@, #[trigger] next@[i]),
                        unmarked(marks@, n as nat) + todo.len() + 1 == unmarked(
                            marks_before,
                            n as nat,
                        ) + todo_before.len(),
                    decreases next.len() - j,
                {
                    let child: usize = next[j];
                    assert(next@.contains(child));
                    assert(edge(cells, place, child));
                    proof {
                        lemma_step_reachable(cells, root_set, place, child);
                    }
                    Self::mark(&mut marks, &mut todo, child);
                    j = j + 1;
                }
                proof {
                    assert forall|b: usize| #[trigger] edge(cells, place, b) implies is_marked(
                        marks@,
                        b,
                    ) by {
                        assert(next@.contains(b));
                        let i = choose|i: int| 0 <= i < next@.len() && next@[i] == b;
                        assert(is_marked(marks@, next@[i]));
                    }
                }
            } else {
                assert(at(cells, place) is None);
            }
        }
        proof {
            let kept = |p: usize| is_marked(marks@, p);
            lemma_closed_holds_reachable(cells, root_set, kept);
            assert forall|p: usize| p < n implies #[trigger] marks@[p as int] == reachable(
                cells,
                root_set,
                p,
            ) by {
                assert(is_marked(marks@, p) == marks@[p as int]);
                if reachable(cells, root_set, p) {
                    assert(kept(p));
                }
            }
        }
        marks
    }

    /// Takes away every object that cannot be reached from the roots.
    pub fn collect(&mut self, roots: &Vec<usize>)
        requires
            old(self).wf(),
        ensures
            final(self).wf(),
            final(self)@ == collected(old(self)@, roots@.to_set()),
    {
        let ghost cells = self@;
        let ghost root_set = roots@.to_set();
        let marks = self.trace(roots);
        let mut i: usize = 0;
        while i < self.slots.len()
            invariant
                i <= self.slots.len(),
                self@.len() == cells.len(),
                marks.len() == cells.len(),
                forall|p: usize|
                    p < marks.len() ==> #[trigger] marks@[p as int] == reachable(
                        cells,
                        root_set,
                        p,
                    ),
                forall|j: int|
                    0 <= j < i ==> #[trigger] self@[j] == collected(cells, root_set)[j],
                forall|j: int| i <= j < cells.len() ==> #[trigger] self@[j] == cells[j],
            decreases self.slots.len() - i,
        {
            let ghost before = self@;
            if !marks[i] {
                self.slots.set(i, None);
                assert(self@ =~= before.update(i as int, None));
            }
            i = i + 1;
        }
        assert(self@ =~= collected(cells, root_set));
        proof {
            assert forall|i: int, j: int, text: Seq<char>|
                has_text(self@, i, text) && has_text(self@, j, text) implies i == j by {
                assert(has_text(cells, i, text));
                assert(has_text(cells, j, text));
            }
        }
    }

    /// Appends to the array at a place.
    pub(crate) fn push_element(&mut self, place: usize, value: Value)
        requires
            old(self).wf(),
            at(old(self)@, place) matches Some(Obj::Array { .. }),
        ensures
            final(self).wf(),
            at(old(self)@, place) matches Some(Obj::Array { values, value_type }) && final(self)@
                == store(old(self)@, place, Obj::Array { values: values.push(value), value_type }),
    {
        if let Some(Object::Array(array)) = &mut self.slots[place] {
            array.values.push(value);
        }
        proof {
            lemma_store_interned(old(self)@, place, self@[place as int]->0);
            assert(self@ =~= store(old(self)@, place, self@[place as int]->0));
        }
    }

    /// Takes the last element of the array at a place.
    pub(crate) fn pop_element(&mut self, place: usize) -> (value: Option<Value>)
        requires
            old(self).wf(),
            at(old(self)@, place) matches Some(Obj::Array { .. }),
        ensures
            final(self).wf(),
            at(old(self)@, place) matches Some(Obj::Array { values, value_type }) && (if 0
                == values.len() {
                value is None && final(self)@ == old(self)@
            } else {
                value == Some(values.last()) && final(self)@ == store(
                    old(self)@,
                    place,
                    Obj::Array { values: values.drop_last(), value_type },
                )
            }),
    {
        let mut value = None;
        if let Some(Object::Array(array)) = &mut self.slots[place] {
            value = array.values.pop();
        }
        proof {
            lemma_store_interned(old(self)@, place, self@[place as int]->0);
            if value is None {
                assert(self@ =~= old(self)@);
            } else {
                assert(self@ =~= store(old(self)@, place, self@[place as int]->0));
            }
        }
        value
    }

    /// Writes an element of the array at a place.
    pub(crate) fn set_element(&mut self, place: usize, index: usize, value: Value)
        requires
            old(self).wf(),
            at(old(self)@, place) matches Some(Obj::Array { values, .. }) && index < values.len(),
        ensures
            final(self).wf(),
            at(old(self)@, place) matches Some(Obj::Array { values, value_type }) && final(self)@
                == store(
                old(self)@,
                place,
                Obj::Array { values: values.update(index as int, value), value_type },
            ),
    {
        if let Some(Object::Array(array)) = &mut self.slots[place] {
            array.values.set(index, value);
        }
        proof {
            lemma_store_interned(old(self)@, place, self@[place as int]->0);
            assert(self@ =~= store(old(self)@, place, self@[place as int]->0));
        }
    }

    /// Writes the upvalue at a place.
    pub(crate) fn set_upvalue(&mut self, place: usize, value: Value)
        requires
            old(self).wf(),
            at(old(self)@, place) matches Some(Obj::Upvalue { .. }),
        ensures
            final(self).wf(),
            final(self)@ == store(old(self)@, place, Obj::Upvalue { value }),
    {
        if let Some(Object::Upvalue(upvalue)) = &mut self.slots[place] {
            upvalue.value = value;
        }
        proof {
            lemma_store_interned(old(self)@, place, self@[place as int]->0);
            assert(self@ =~= store(old(self)@, place, self@[place as int]->0));
        }
    }

    /// Gives a field of the struct at a place a value.
    pub(crate) fn set_field(&mut self, place: usize, name: usize, value: Value)
        requires
            old(self).wf(),
            at(old(self)@, place) matches Some(Obj::Struct { .. }),
        ensures
            final(self).wf(),
            at(old(self)@, place) matches Some(Obj::Struct { name: struct_name, methods, fields })
                && final(self)@ == store(
                old(self)@,
                place,
                Obj::Struct { name: struct_name, methods, fields: fields.insert(name, value) },
            ),
    {
        if let Some(Object::Struct(cstruct)) = &mut self.slots[place] {
            cstruct.fields.insert(name, value);
        }
        proof {
            lemma_store_interned(old(self)@, place, self@[place as int]->0);
            assert(self@ =~= store(old(self)@, place, self@[place as int]->0));
        }
    }

    /// Gives the struct at a place a method.
    pub(crate) fn set_method(&mut self, place: usize, name: usize, method: usize)
        requires
            old(self).wf(),
            at(old(self)@, place) matches Some(Obj::Struct { .. }),
        ensures
            final(self).wf(),
            at(old(self)@, place) matches Some(Obj::Struct { name: struct_name, methods, fields })
                && final(self)@ == store(
                old(self)@,
                place,
                Obj::Struct {
                    name: struct_name,
                    methods: methods.insert(name, Value::Object(method)),
                    fields,
                },
            ),
    {
        if let Some(Object::Struct(cstruct)) = &mut self.slots[place] {
            cstruct.methods.insert(name, Value::Object(method));
        }
        proof {
            lemma_store_interned(old(self)@, place, self@[place as int]->0);
            assert(self@ =~= store(old(self)@, place, self@[place as int]->0));
        }
    }

    /// Gives the struct at a place the methods of another, in place of its own.
    pub(crate) fn inherit(&mut self, place: usize, super_: usize)
        requires
            old(self).wf(),
            at(old(self)@, place) matches Some(Obj::Struct { .. }),
            at(old(self)@, super_) matches Some(Obj::Struct { .. }),
        ensures
            final(self).wf(),
            at(old(self)@, place) matches Some(Obj::Struct { name, fields, .. }) && at(
                old(self)@,
                super_,
            ) matches Some(Obj::Struct { methods, .. }) && final(self)@ == store(
                old(self)@,
                place,
                Obj::Struct { name, methods, fields },
            ),
    {
        if let Some(Object::Struct(parent)) = &self.slots[super_] {
            let methods = parent.methods.duplicate();
            if let Some(Object::Struct(cstruct)) = &mut self.slots[place] {
                cstruct.methods = methods;
            }
        }
        proof {
            lemma_store_interned(old(self)@, place, self@[place as int]->0);
            assert(self@ =~= store(old(self)@, place, self@[place as int]->0));
        }
    }
}

} // verus!
