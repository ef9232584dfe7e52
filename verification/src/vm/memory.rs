//! The machine's side of the collector.
use crate::error::ErrorS;
use crate::frame::{frame_slice, waiting};
use crate::heap::heap_bytes;
use crate::object::{add_capped, add_table, add_value, lemma_capped_sum, table_mentions, Object};
use crate::semantics;
use crate::semantics::{agrees, is_root, Step};
use crate::value::Value;
use crate::vm::VM;
use vstd::prelude::*;

verus! {

impl VM {
    /// The places that the collector starts from.
    fn root_places(&self) -> (places: Vec<usize>)
        ensures
            places@.to_set() == semantics::roots(self@),
    {
        let mut places: Vec<usize> = Vec::new();
        add_table(&mut places, &self.globals);
        add_value(&mut places, Value::Object(self.frame.closure));
        let ghost before = places@;
        let frames = frame_slice(&self.frames);
        let mut i: usize = 0;
        while i < frames.len()
            invariant
                i <= frames.len(),
                frames@ == waiting(self.frames),
                forall|p: usize| #[trigger]
                    places@.contains(p) <==> before.contains(p) || exists|j: int|
                        0 <= j < i && (#[trigger] frames@[j]).closure == p,
            decreases frames.len() - i,
        {
            let ghost last = places@;
            add_value(&mut places, Value::Object(frames[i].closure));
            proof {
                assert forall|p: usize| #[trigger] places@.contains(p) <==> before.contains(p)
                    || exists|j: int| 0 <= j < i + 1 && (#[trigger] frames@[j]).closure == p by {
                    assert(places@.contains(p) <==> last.contains(p) || frames@[i as int].closure
                        == p);
                }
            }
            i = i + 1;
        }
        let ghost middle = places@;
        assert(frames@ == self@.frames);
        assert(forall|p: usize| #[trigger]
            middle.contains(p) <==> before.contains(p) || exists|j: int|
                0 <= j < frames@.len() && (#[trigger] frames@[j]).closure == p);
        let mut k: usize = 0;
        while k < self.open_upvalues.len()
            invariant
                k <= self.open_upvalues.len(),
                forall|p: usize| #[trigger]
                    places@.contains(p) <==> middle.contains(p) || exists|j: int|
                        0 <= j < k && #[trigger] self.open_upvalues@[j] == p,
            decreases self.open_upvalues.len() - k,
        {
            let ghost last = places@;
            add_value(&mut places, Value::Object(self.open_upvalues[k]));
            proof {
                assert forall|p: usize| #[trigger] places@.contains(p) <==> middle.contains(p)
                    || exists|j: int| 0 <= j < k + 1 && #[trigger] self.open_upvalues@[j] == p by {
                    assert(places@.contains(p) <==> last.contains(p)
                        || self.open_upvalues@[k as int] == p);
                }
            }
            k = k + 1;
        }
        proof {
            assert forall|p: usize| places@.to_set().contains(p) == semantics::roots(
                self@,
            ).contains(p) by {
                let s = self@;
                assert(before.contains(p) <==> table_mentions(s.globals, p) || p
                    == s.frame.closure);
                assert(middle.contains(p) <==> before.contains(p) || exists|j: int|
                    0 <= j < s.frames.len() && (#[trigger] s.frames[j]).closure == p);
                assert(places@.contains(p) <==> middle.contains(p) || s.open_upvalues.contains(p));
                assert(places@.contains(p) == is_root(s, p));
            }
            assert(places@.to_set() =~= semantics::roots(self@));
        }
        places
    }

    /// Takes away the objects that can be reached neither from the globals nor
    /// from a call nor from an open upvalue, and sets the threshold to twice
    /// the number of bytes that are left in use.
    pub fn gc(&mut self)
        requires
            old(self).wf(),
        ensures
            final(self).wf(),
            final(self)@ == semantics::gc(old(self)@),
    {
        let places = self.root_places();
        self.allocator.collect(&places);
        let bytes: usize = self.allocator.allocated_bytes();
        proof {
            lemma_capped_sum(heap_bytes(self.allocator@), heap_bytes(self.allocator@));
        }
        self.next_gc = add_capped(bytes, bytes);
    }

    /// Adds an object to the heap, after a collection.
    pub fn allocate(&mut self, object: Object) -> (place: usize)
        requires
            old(self).wf(),
        ensures
            final(self).wf(),
            final(self)@ == semantics::allocated(old(self)@, object@),
            place == semantics::allocated_at(old(self)@, object@),
    {
        self.gc();
        self.allocator.allocate(object)
    }

    /// Adds an object to the heap, after a collection, and pushes it.
    pub fn push_new(&mut self, object: Object) -> (result: Result<Step, ErrorS>)
        requires
            old(self).wf(),
        ensures
            final(self).wf(),
            agrees(final(self)@, result, semantics::push_new(old(self)@, object@)),
    {
        let place: usize = self.allocate(object);
        self.push_checked(Value::Object(place))
    }
}

} // verus!
