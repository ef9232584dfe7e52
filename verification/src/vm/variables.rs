//! The instructions on values, variables and upvalues.
use crate::error::ErrorS;
use crate::object::{ClosureObject, Object, UpvalueObject};
use crate::semantics;
use crate::semantics::{agrees, Step, STACK_MAX};
use crate::value::Value;
use crate::vm::VM;
use vstd::prelude::*;

verus! {

impl VM {
    /// Pops a value to be printed.
    pub fn op_print(&mut self) -> (result: Result<Step, ErrorS>)
        requires
            old(self).wf(),
        ensures
            final(self).wf(),
            agrees(final(self)@, result, semantics::print(old(self)@, false)),
    {
        if !self.deep(1) {
            return Ok(Step::Stuck);
        }
        let value = self.pop();
        Ok(Step::Print { value, newline: false })
    }

    /// Pops a value to be printed on a line of its own.
    pub fn op_print_ln(&mut self) -> (result: Result<Step, ErrorS>)
        requires
            old(self).wf(),
        ensures
            final(self).wf(),
            agrees(final(self)@, result, semantics::print(old(self)@, true)),
    {
        if !self.deep(1) {
            return Ok(Step::Stuck);
        }
        let value = self.pop();
        Ok(Step::Print { value, newline: true })
    }

    /// Pops a value.
    pub fn op_pop(&mut self) -> (result: Result<Step, ErrorS>)
        requires
            old(self).wf(),
        ensures
            final(self).wf(),
            agrees(final(self)@, result, semantics::pop(old(self)@)),
    {
        if !self.deep(1) {
            return Ok(Step::Stuck);
        }
        self.pop();
        Ok(Step::Next)
    }

    /// Pops a value that an upvalue holds too.
    pub fn close_upvalue(&mut self) -> (result: Result<Step, ErrorS>)
        requires
            old(self).wf(),
        ensures
            final(self).wf(),
            agrees(final(self)@, result, semantics::pop(old(self)@)),
    {
        self.op_pop()
    }

    /// Pushes the constant that the next byte names.
    pub fn c_constant(&mut self) -> (result: Result<Step, ErrorS>)
        requires
            old(self).wf(),
        ensures
            final(self).wf(),
            agrees(final(self)@, result, semantics::push_constant(old(self)@)),
    {
        if !self.has_constant() {
            return Ok(Step::Stuck);
        }
        let constant = self.read_constant();
        self.push_checked(constant)
    }

    /// Pushes `nil`.
    pub fn op_nil(&mut self) -> (result: Result<Step, ErrorS>)
        requires
            old(self).wf(),
        ensures
            final(self).wf(),
            agrees(final(self)@, result, semantics::push(old(self)@, Value::Nil)),
    {
        self.push_checked(Value::Nil)
    }

    /// Pushes `true`.
    pub fn op_true(&mut self) -> (result: Result<Step, ErrorS>)
        requires
            old(self).wf(),
        ensures
            final(self).wf(),
            agrees(final(self)@, result, semantics::push(old(self)@, Value::Bool(true))),
    {
        self.push_checked(Value::Bool(true))
    }

    /// Pushes `false`.
    pub fn op_false(&mut self) -> (result: Result<Step, ErrorS>)
        requires
            old(self).wf(),
        ensures
            final(self).wf(),
            agrees(final(self)@, result, semantics::push(old(self)@, Value::Bool(false))),
    {
        self.push_checked(Value::Bool(false))
    }

    /// The upvalue of the closure that runs at an index.
    fn upvalue_at(&self, index: usize) -> (upvalue: Option<usize>)
        ensures
            upvalue == (if index < semantics::upvalues_here(self@).len() {
                Some(semantics::upvalues_here(self@)[index as int])
            } else {
                None
            }),
    {
        match self.allocator.get(self.frame.closure) {
            Some(Object::Closure(closure)) => if index < closure.upvalues.len() {
                Some(closure.upvalues[index])
            } else {
                None
            },
            _ => None,
        }
    }

    /// The upvalues of the closure that runs.
    pub fn get_current_closure_upvalues(&self) -> (upvalues: Vec<usize>)
        ensures
            upvalues@ == semantics::upvalues_here(self@),
    {
        match self.allocator.get(self.frame.closure) {
            Some(Object::Closure(closure)) => {
                let upvalues = closure.upvalues.clone();
                assert(upvalues@ =~= closure.upvalues@);
                upvalues
            },
            _ => Vec::new(),
        }
    }

    /// The name of the function that runs.
    pub fn get_current_closure_name(&self) -> (name: String)
        requires
            semantics::running(self@) matches Some(f) && semantics::is_string(self@.heap, f.name),
        ensures
            name@ == semantics::text(self@.heap, semantics::running(self@)->0.name),
    {
        match self.running() {
            Some(function) => self.text(function.name),
            None => String::new(),
        }
    }

    /// Writes the topmost value to the upvalue that the next byte names.
    pub fn set_upvalue(&mut self) -> (result: Result<Step, ErrorS>)
        requires
            old(self).wf(),
        ensures
            final(self).wf(),
            agrees(final(self)@, result, semantics::set_upvalue(old(self)@)),
    {
        if !self.operands(1) || !self.deep(1) {
            return Ok(Step::Stuck);
        }
        let upvalue_idx: usize = self.read_u8() as usize;
        let upvalue: usize = match self.upvalue_at(upvalue_idx) {
            Some(upvalue) => upvalue,
            None => return Ok(Step::Stuck),
        };
        match self.allocator.get(upvalue) {
            Some(Object::Upvalue(_)) => {},
            _ => return Ok(Step::Stuck),
        }
        let value = self.peek(0);
        self.allocator.set_upvalue(upvalue, value);
        Ok(Step::Next)
    }

    /// Pushes the upvalue that the next byte names.
    pub fn get_upvalue(&mut self) -> (result: Result<Step, ErrorS>)
        requires
            old(self).wf(),
        ensures
            final(self).wf(),
            agrees(final(self)@, result, semantics::get_upvalue(old(self)@)),
    {
        if !self.operands(1) {
            return Ok(Step::Stuck);
        }
        let upvalue_idx: usize = self.read_u8() as usize;
        let upvalue: usize = match self.upvalue_at(upvalue_idx) {
            Some(upvalue) => upvalue,
            None => return Ok(Step::Stuck),
        };
        let value = match self.allocator.get(upvalue) {
            Some(Object::Upvalue(upvalue)) => upvalue.value,
            _ => return Ok(Step::Stuck),
        };
        self.push_checked(value)
    }

    /// The upvalue for a value: the first open one that holds an equal value,
    /// or else a new one.
    pub fn capture_upvalue(&mut self, location: Value) -> (upvalue: Option<usize>)
        requires
            old(self).wf(),
        ensures
            final(self).wf(),
            match (upvalue, semantics::captured(old(self)@, location)) {
                (Some(place), Some(captured)) => place == captured.1 && final(self)@ == captured.0,
                (None, None) => true,
                _ => false,
            },
    {
        let ghost s = self@;
        let mut i: usize = 0;
        while i < self.open_upvalues.len()
            invariant
                self@ == s,
                self.wf(),
                i <= self.open_upvalues.len(),
                semantics::find_open(s, location, 0) == semantics::find_open(
                    s,
                    location,
                    i as int,
                ),
            decreases self.open_upvalues.len() - i,
        {
            let place: usize = self.open_upvalues[i];
            match self.allocator.get(place) {
                Some(Object::Upvalue(upvalue)) => if upvalue.value.equals(&location) {
                    return Some(place);
                },
                _ => return None,
            }
            i = i + 1;
        }
        let place: usize = self.allocate(Object::Upvalue(UpvalueObject { value: location }));
        self.open_upvalues.push(place);
        Some(place)
    }

    /// The upvalue that the next two bytes describe.
    pub fn next_upvalue(&mut self) -> (upvalue: Option<usize>)
        requires
            old(self).wf(),
        ensures
            final(self).wf(),
            match (upvalue, semantics::next_upvalue(old(self)@)) {
                (Some(place), Some(taken)) => place == taken.1 && final(self)@ == taken.0,
                (None, None) => true,
                _ => false,
            },
    {
        if !self.operands(2) {
            return None;
        }
        let ghost s = self@;
        let is_local: u8 = self.read_u8();
        let upvalue_idx: usize = self.read_u8() as usize;
        assert(self@ =~= semantics::skip(s, 2));
        if is_local != 0 {
            if upvalue_idx < STACK_MAX - self.frame.stack {
                let location = self.stack[self.frame.stack + upvalue_idx];
                self.capture_upvalue(location)
            } else {
                None
            }
        } else {
            self.upvalue_at(upvalue_idx)
        }
    }

    /// The upvalues that the next bytes describe.
    pub fn next_upvalues(&mut self, count: usize) -> (upvalues: Option<Vec<usize>>)
        requires
            old(self).wf(),
        ensures
            final(self).wf(),
            match (upvalues, semantics::next_upvalues(old(self)@, Seq::empty(), count as nat)) {
                (Some(upvalues), Some(taken)) => upvalues@ == taken.1 && final(self)@ == taken.0,
                (None, None) => true,
                _ => false,
            },
    {
        let mut upvalues: Vec<usize> = Vec::new();
        let mut i: usize = 0;
        assert(upvalues@ =~= Seq::empty());
        while i < count
            invariant
                self.wf(),
                i <= count,
                semantics::next_upvalues(old(self)@, Seq::empty(), count as nat)
                    == semantics::next_upvalues(self@, upvalues@, (count - i) as nat),
            decreases count - i,
        {
            match self.next_upvalue() {
                Some(upvalue) => upvalues.push(upvalue),
                None => return None,
            }
            i = i + 1;
        }
        Some(upvalues)
    }

    /// Makes a closure of the function that the next byte names.
    pub fn closure(&mut self) -> (result: Result<Step, ErrorS>)
        requires
            old(self).wf(),
        ensures
            final(self).wf(),
            agrees(final(self)@, result, semantics::closure(old(self)@)),
    {
        if !self.has_constant() {
            return Ok(Step::Stuck);
        }
        let function: usize = match self.read_constant() {
            Value::Object(place) => place,
            _ => return Ok(Step::Stuck),
        };
        let upvalue_count: usize = match self.allocator.get(function) {
            Some(Object::Function(function)) => function.upvalue_count as usize,
            _ => return Ok(Step::Stuck),
        };
        match self.next_upvalues(upvalue_count) {
            Some(upvalues) => self.push_new(
                Object::Closure(ClosureObject { function, upvalues }),
            ),
            None => Ok(Step::Stuck),
        }
    }

    /// Pushes the slot of the frame that the next byte names.
    pub fn get_local(&mut self) -> (result: Result<Step, ErrorS>)
        requires
            old(self).wf(),
        ensures
            final(self).wf(),
            agrees(final(self)@, result, semantics::get_local(old(self)@)),
    {
        if !self.operands(1) {
            return Ok(Step::Stuck);
        }
        let stack_idx: usize = self.read_u8() as usize;
        if stack_idx >= STACK_MAX - self.frame.stack {
            return Ok(Step::Stuck);
        }
        let local = self.stack[self.frame.stack + stack_idx];
        self.push_checked(local)
    }

    /// Writes the topmost value to the slot of the frame that the next byte
    /// names.
    pub fn set_local(&mut self) -> (result: Result<Step, ErrorS>)
        requires
            old(self).wf(),
        ensures
            final(self).wf(),
            agrees(final(self)@, result, semantics::set_local(old(self)@)),
    {
        if !self.operands(1) || !self.deep(1) {
            return Ok(Step::Stuck);
        }
        let stack_idx: usize = self.read_u8() as usize;
        if stack_idx >= STACK_MAX - self.frame.stack {
            return Ok(Step::Stuck);
        }
        let value = self.peek(0);
        let local: usize = self.frame.stack + stack_idx;
        self.stack.set(local, value);
        Ok(Step::Next)
    }

    /// Gives a global that there is the topmost value.
    pub fn set_global(&mut self) -> (result: Result<Step, ErrorS>)
        requires
            old(self).wf(),
        ensures
            final(self).wf(),
            agrees(final(self)@, result, semantics::set_global(old(self)@)),
    {
        let name: usize = match self.read_name() {
            Some(name) => name,
            None => return Ok(Step::Stuck),
        };
        if !self.deep(1) {
            return Ok(Step::Stuck);
        }
        let value = self.peek(0);
        match self.globals.get(name) {
            Some(_) => {
                self.globals.insert(name, value);
                Ok(Step::Next)
            },
            None => Ok(Step::Stuck),
        }
    }

    /// Pushes a global.
    pub fn get_global(&mut self) -> (result: Result<Step, ErrorS>)
        requires
            old(self).wf(),
        ensures
            final(self).wf(),
            agrees(final(self)@, result, semantics::get_global(old(self)@)),
    {
        let name: usize = match self.read_name() {
            Some(name) => name,
            None => return Ok(Step::Stuck),
        };
        match self.globals.get(name) {
            Some(value) => self.push_checked(value),
            None => Ok(Step::Stuck),
        }
    }

    /// Pops a value, and gives it to a global, which need not be there yet.
    pub fn define_global(&mut self) -> (result: Result<Step, ErrorS>)
        requires
            old(self).wf(),
        ensures
            final(self).wf(),
            agrees(final(self)@, result, semantics::define_global(old(self)@)),
    {
        let name: usize = match self.read_name() {
            Some(name) => name,
            None => return Ok(Step::Stuck),
        };
        if !self.deep(1) {
            return Ok(Step::Stuck);
        }
        let value = self.pop();
        self.globals.insert(name, value);
        Ok(Step::Next)
    }
}

} // verus!
