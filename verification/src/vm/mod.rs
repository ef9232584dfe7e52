//! The virtual machine.
pub use crate::frame::CallFrame;
use crate::frame::{frame_slice, waiting, FRAMES_MAX};
use crate::heap::Heap;
use crate::semantics::{valid, State};
use crate::table::Table;
use crate::value::Value;
use arrayvec::ArrayVec;
use vstd::prelude::*;

pub mod arrays;
pub mod basics;
pub mod calls;
pub mod machine;
pub mod memory;
pub mod operators;
pub mod structs;
pub mod variables;

verus! {

/// A machine: its stack, its calls, its globals and its heap.
pub struct VM {
    stack_top: usize,
    stack: Vec<Value>,
    frames: ArrayVec<CallFrame, FRAMES_MAX>,
    frame: CallFrame,
    allocator: Heap,
    next_gc: usize,
    globals: Table,
    open_upvalues: Vec<usize>,
    struct_init_method: usize,
}

impl View for VM {
    type V = State;

    closed spec fn view(&self) -> State {
        State {
            heap: self.allocator@,
            stack: self.stack@,
            top: self.stack_top as int,
            frames: waiting(self.frames),
            frame: self.frame,
            globals: self.globals@,
            open_upvalues: self.open_upvalues@,
            init: self.struct_init_method,
            next_gc: self.next_gc as int,
        }
    }
}

impl VM {
    /// What holds of every machine.
    pub open spec fn wf(&self) -> bool {
        valid(self@)
    }

    /// All slots of the stack, those above its top too.
    pub fn stack(&self) -> (stack: &[Value])
        ensures
            stack@ == self@.stack,
    {
        self.stack.as_slice()
    }

    /// The number of slots in use.
    pub fn stack_top(&self) -> (top: usize)
        ensures
            top == self@.top,
    {
        self.stack_top
    }

    /// The call that runs.
    pub fn frame(&self) -> (frame: CallFrame)
        ensures
            frame == self@.frame,
    {
        self.frame
    }

    /// The calls that wait for their callees.
    pub fn frames(&self) -> (frames: &[CallFrame])
        ensures
            frames@ == self@.frames,
    {
        frame_slice(&self.frames)
    }

    /// The upvalues that are open.
    pub fn open_upvalues(&self) -> (upvalues: &[usize])
        ensures
            upvalues@ == self@.open_upvalues,
    {
        self.open_upvalues.as_slice()
    }

    /// The threshold that the last collection has set.
    pub fn next_gc(&self) -> (bytes: usize)
        ensures
            bytes == self@.next_gc,
    {
        self.next_gc
    }

    /// The heap.
    pub fn allocator(&self) -> (heap: &Heap)
        ensures
            heap@ == self@.heap,
    {
        &self.allocator
    }

    /// The heap, for a compiler to add to. The machine stays valid as long as
    /// the heap does.
    pub fn allocator_mut(&mut self) -> (heap: &mut Heap)
        ensures
            heap@ == old(self)@.heap,
            final(self)@ == (State { heap: final(heap)@, ..old(self)@ }),
    {
        &mut self.allocator
    }
}

} // verus!
