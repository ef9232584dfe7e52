//! Jumps, calls and returns.
use crate::error::{Error, ErrorS, IndexError, OverflowError, TypeError};
use crate::frame::{frame_slice, pop_frame, push_frame, CallFrame, FRAMES_MAX};
use crate::number;
use crate::object::{ArrayMethod, InstanceObject, Native, Object, StringObject};
use crate::semantics;
use crate::semantics::{agrees, verdict_of, Step};
use crate::table::Table;
use crate::value::{Type, Value};
use crate::vm::structs::find_method;
use crate::vm::VM;
use vstd::prelude::*;

verus! {

impl VM {
    /// Jumps forward over the code behind the offset.
    fn jump_by(&mut self, offset: usize) -> (result: Result<Step, ErrorS>)
        requires
            old(self).wf(),
            semantics::operands(old(self)@, 0),
        ensures
            final(self).wf(),
            agrees(final(self)@, result, semantics::jump_by(old(self)@, offset as int)),
    {
        if !self.operands(offset) {
            return Ok(Step::Stuck);
        }
        match self.running() {
            Some(function) => {
                assert(self.frame.ip + offset <= function.chunk.code.len());
            },
            None => {},
        }
        self.frame.ip = self.frame.ip + offset;
        Ok(Step::Next)
    }

    /// Jumps forward.
    pub fn jump(&mut self) -> (result: Result<Step, ErrorS>)
        requires
            old(self).wf(),
        ensures
            final(self).wf(),
            agrees(final(self)@, result, semantics::jump(old(self)@)),
    {
        if !self.operands(2) {
            return Ok(Step::Stuck);
        }
        let offset: usize = self.read_u16() as usize;
        self.jump_by(offset)
    }

    /// Jumps forward where the topmost value is not true.
    pub fn jump_if_false(&mut self) -> (result: Result<Step, ErrorS>)
        requires
            old(self).wf(),
        ensures
            final(self).wf(),
            agrees(final(self)@, result, semantics::jump_if_false(old(self)@)),
    {
        if !self.operands(2) || !self.deep(1) {
            return Ok(Step::Stuck);
        }
        let offset: usize = self.read_u16() as usize;
        if !self.peek(0).to_bool() {
            self.jump_by(offset)
        } else {
            Ok(Step::Next)
        }
    }

    /// Jumps backward.
    pub fn loop_(&mut self) -> (result: Result<Step, ErrorS>)
        requires
            old(self).wf(),
        ensures
            final(self).wf(),
            agrees(final(self)@, result, semantics::loop_back(old(self)@)),
    {
        if !self.operands(2) {
            return Ok(Step::Stuck);
        }
        let offset: usize = self.read_u16() as usize;
        if offset > self.frame.ip {
            return Ok(Step::Stuck);
        }
        self.frame.ip = self.frame.ip - offset;
        Ok(Step::Next)
    }

    /// Raises that a method of arrays or a native function got the wrong
    /// number of arguments.
    fn wrong_arity(&self, name: &str, expected: usize, actual: usize) -> (result: Result<
        Step,
        ErrorS,
    >)
        ensures
            verdict_of(result) == semantics::wrong_arity(
                self@,
                name@,
                expected as int,
                actual as int,
            ).verdict,
    {
        self.err(
            Error::TypeError(
                TypeError::ArityMisMatch { name: name.to_string(), expected, actual },
            ),
        )
    }

    /// Begins a call of a closure.
    pub fn call_closure(&mut self, closure: usize, arg_count: usize) -> (result: Result<
        Step,
        ErrorS,
    >)
        requires
            old(self).wf(),
        ensures
            final(self).wf(),
            agrees(
                final(self)@,
                result,
                semantics::call_closure(old(self)@, closure, arg_count as int),
            ),
    {
        let function = match self.allocator.get(closure) {
            Some(Object::Closure(closure)) => match self.allocator.get(closure.function) {
                Some(Object::Function(function)) => function,
                _ => return Ok(Step::Stuck),
            },
            _ => return Ok(Step::Stuck),
        };
        if arg_count != function.arity_count as usize {
            return match self.allocator.text(function.name) {
                Some(name) => self.err(
                    Error::TypeError(
                        TypeError::ArityMisMatch {
                            name,
                            expected: function.arity_count as usize,
                            actual: arg_count,
                        },
                    ),
                ),
                None => Ok(Step::Stuck),
            };
        }
        if frame_slice(&self.frames).len() == FRAMES_MAX {
            return self.err(Error::OverflowError(OverflowError::StackOverflow));
        }
        if self.stack_top <= arg_count {
            return Ok(Step::Stuck);
        }
        let frame = CallFrame { closure, ip: 0, stack: self.stack_top - arg_count - 1 };
        let caller = self.frame;
        push_frame(&mut self.frames, caller);
        self.frame = frame;
        Ok(Step::Next)
    }

    /// Makes an instance of a struct, and begins a call of its constructor, if
    /// it has one.
    pub fn call_struct(&mut self, cstruct: usize, arg_count: usize) -> (result: Result<
        Step,
        ErrorS,
    >)
        requires
            old(self).wf(),
        ensures
            final(self).wf(),
            agrees(
                final(self)@,
                result,
                semantics::call_struct(old(self)@, cstruct, arg_count as int),
            ),
    {
        if self.stack_top <= arg_count {
            return Ok(Step::Stuck);
        }
        let fields = Table::with_capacity(0);
        let instance: usize = self.allocate(
            Object::Instance(InstanceObject { struct_: cstruct, fields }),
        );
        self.poke(arg_count, Value::Object(instance));
        match self.allocator.get(cstruct) {
            Some(Object::Struct(object)) => match find_method(
                &object.methods,
                self.struct_init_method,
            ) {
                Some(method) => self.call_closure(method, arg_count),
                None => if arg_count != 0 {
                    match self.allocator.text(object.name) {
                        Some(name) => self.err(
                            Error::TypeError(
                                TypeError::ArityMisMatch { name, expected: 0, actual: arg_count },
                            ),
                        ),
                        None => Ok(Step::Stuck),
                    }
                } else {
                    Ok(Step::Next)
                },
            },
            _ => Ok(Step::Stuck),
        }
    }

    /// Begins a call of a method on the receiver that it is bound to.
    pub fn call_bound_method(&mut self, method: usize, arg_count: usize) -> (result: Result<
        Step,
        ErrorS,
    >)
        requires
            old(self).wf(),
        ensures
            final(self).wf(),
            agrees(
                final(self)@,
                result,
                semantics::call_bound_method(old(self)@, method, arg_count as int),
            ),
    {
        let (receiver, closure): (usize, usize) = match self.allocator.get(method) {
            Some(Object::BoundMethod(bound)) => (bound.receiver, bound.method),
            _ => return Ok(Step::Stuck),
        };
        if self.stack_top <= arg_count {
            return Ok(Step::Stuck);
        }
        self.poke(arg_count, Value::Object(receiver));
        self.call_closure(closure, arg_count)
    }

    fn call_array_push(&mut self, array: usize, arg_count: usize) -> (result: Result<Step, ErrorS>)
        requires
            old(self).wf(),
        ensures
            final(self).wf(),
            agrees(
                final(self)@,
                result,
                semantics::call_array_push(old(self)@, array, arg_count as int),
            ),
    {
        if arg_count != 1 {
            return self.wrong_arity("push", 1, arg_count);
        }
        if !self.deep(1) {
            return Ok(Step::Stuck);
        }
        let value = self.pop();
        let value_type = match self.allocator.get(array) {
            Some(Object::Array(object)) => object.value_type,
            _ => return Ok(Step::Stuck),
        };
        let type_ = match self.type_of(value) {
            Some(type_) => type_,
            None => return Ok(Step::Stuck),
        };
        if value_type != type_ {
            return self.err(
                Error::TypeError(
                    TypeError::ArrayValueTypeMismatch {
                        expected: value_type.text(),
                        actual: type_.text(),
                    },
                ),
            );
        }
        self.allocator.push_element(array, value);
        Ok(Step::Next)
    }

    fn call_array_pop(&mut self, array: usize, arg_count: usize) -> (result: Result<Step, ErrorS>)
        requires
            old(self).wf(),
        ensures
            final(self).wf(),
            agrees(
                final(self)@,
                result,
                semantics::call_array_pop(old(self)@, array, arg_count as int),
            ),
    {
        if !self.deep(1) {
            return Ok(Step::Stuck);
        }
        self.pop();
        if arg_count != 0 {
            return self.wrong_arity("pop", 0, arg_count);
        }
        match self.allocator.get(array) {
            Some(Object::Array(_)) => {},
            _ => return Ok(Step::Stuck),
        }
        match self.allocator.pop_element(array) {
            Some(value) => self.push_checked(value),
            None => self.err(Error::IndexError(IndexError::IndexOutOfRange { index: 0, len: 0 })),
        }
    }

    fn call_array_get(&mut self, array: usize, arg_count: usize) -> (result: Result<Step, ErrorS>)
        requires
            old(self).wf(),
        ensures
            final(self).wf(),
            agrees(
                final(self)@,
                result,
                semantics::call_array_get(old(self)@, array, arg_count as int),
            ),
    {
        if !self.deep(1) {
            return Ok(Step::Stuck);
        }
        self.pop();
        if arg_count != 1 {
            return self.wrong_arity("get", 1, arg_count);
        }
        if !self.deep(1) {
            return Ok(Step::Stuck);
        }
        let index = self.pop();
        match index {
            Value::Number(_) => {},
            _ => return Ok(Step::Stuck),
        }
        let value = match self.allocator.get(array) {
            Some(Object::Array(object)) => match self.position(&object.values, index) {
                Ok(i) => object.values[i],
                Err(result) => return result,
            },
            _ => return Ok(Step::Stuck),
        };
        self.push_checked(value)
    }

    fn call_array_len(&mut self, array: usize, arg_count: usize) -> (result: Result<Step, ErrorS>)
        requires
            old(self).wf(),
        ensures
            final(self).wf(),
            agrees(
                final(self)@,
                result,
                semantics::call_array_len(old(self)@, array, arg_count as int),
            ),
    {
        if !self.deep(1) {
            return Ok(Step::Stuck);
        }
        self.pop();
        if arg_count != 0 {
            return self.wrong_arity("len", 0, arg_count);
        }
        let len: usize = match self.allocator.get(array) {
            Some(Object::Array(object)) => object.values.len(),
            _ => return Ok(Step::Stuck),
        };
        self.push_checked(Value::Number(number::from_count(len as u64)))
    }

    fn call_array_type(&mut self, array: usize, arg_count: usize) -> (result: Result<Step, ErrorS>)
        requires
            old(self).wf(),
        ensures
            final(self).wf(),
            agrees(
                final(self)@,
                result,
                semantics::call_array_type(old(self)@, array, arg_count as int),
            ),
    {
        if !self.deep(1) {
            return Ok(Step::Stuck);
        }
        self.pop();
        if arg_count != 0 {
            return self.wrong_arity("type", 0, arg_count);
        }
        match self.allocator.get(array) {
            Some(Object::Array(_)) => {},
            _ => return Ok(Step::Stuck),
        }
        self.push_new(Object::String(StringObject { value: Type::Array.text() }))
    }

    /// Calls a method of an array.
    pub fn call_bound_arr_method(
        &mut self,
        bound_arr_method: usize,
        arg_count: usize,
    ) -> (result: Result<Step, ErrorS>)
        requires
            old(self).wf(),
        ensures
            final(self).wf(),
            agrees(
                final(self)@,
                result,
                semantics::call_bound_arr_method(
                    old(self)@,
                    bound_arr_method,
                    arg_count as int,
                ),
            ),
    {
        let (array, method): (usize, ArrayMethod) = match self.allocator.get(bound_arr_method) {
            Some(Object::BoundArrayMethod(bound)) => (bound.array, bound.method),
            _ => return Ok(Step::Stuck),
        };
        match method {
            ArrayMethod::Push => self.call_array_push(array, arg_count),
            ArrayMethod::Pop => self.call_array_pop(array, arg_count),
            ArrayMethod::Get => self.call_array_get(array, arg_count),
            ArrayMethod::Len => self.call_array_len(array, arg_count),
            ArrayMethod::Type => self.call_array_type(array, arg_count),
        }
    }

    /// Calls a function that the machine brings along, up to the point at
    /// which its value is to be pushed.
    pub fn call_native(&mut self, native: Native, arg_count: usize) -> (result: Result<
        Step,
        ErrorS,
    >)
        requires
            old(self).wf(),
        ensures
            final(self).wf(),
            agrees(
                final(self)@,
                result,
                semantics::call_native(old(self)@, native, arg_count as int),
            ),
    {
        if !self.deep(1) {
            return Ok(Step::Stuck);
        }
        self.pop();
        match native {
            Native::Clock => if arg_count != 0 {
                self.wrong_arity("clock", 0, arg_count)
            } else {
                Ok(Step::Clock)
            },
            Native::RandomNumber => if arg_count != 0 {
                self.wrong_arity("random_number", 0, arg_count)
            } else {
                Ok(Step::Random)
            },
        }
    }

    /// Calls a value with the arguments on top of the stack.
    pub fn call_value(&mut self, callee: Value, arg_count: usize) -> (result: Result<Step, ErrorS>)
        requires
            old(self).wf(),
        ensures
            final(self).wf(),
            agrees(
                final(self)@,
                result,
                semantics::call_value(old(self)@, callee, arg_count as int),
            ),
    {
        match callee {
            Value::Object(place) => match self.allocator.get(place) {
                Some(Object::Closure(_)) => self.call_closure(place, arg_count),
                Some(Object::Struct(_)) => self.call_struct(place, arg_count),
                Some(Object::BoundMethod(_)) => self.call_bound_method(place, arg_count),
                Some(Object::BoundArrayMethod(_)) => self.call_bound_arr_method(place, arg_count),
                Some(Object::Native(native)) => {
                    let native = *native;
                    self.call_native(native, arg_count)
                },
                _ => self.not_callable(callee),
            },
            _ => self.not_callable(callee),
        }
    }

    /// Calls the value below the arguments, as many as the next byte says.
    pub fn call(&mut self) -> (result: Result<Step, ErrorS>)
        requires
            old(self).wf(),
        ensures
            final(self).wf(),
            agrees(final(self)@, result, semantics::call(old(self)@)),
    {
        if !self.operands(1) {
            return Ok(Step::Stuck);
        }
        let arg_count: usize = self.read_u8() as usize;
        if !self.deep(arg_count + 1) {
            return Ok(Step::Stuck);
        }
        let callee = self.peek(arg_count);
        self.call_value(callee, arg_count)
    }

    /// Returns the topmost value to the call that waits.
    pub fn op_return(&mut self) -> (result: Result<Step, ErrorS>)
        requires
            old(self).wf(),
        ensures
            final(self).wf(),
            agrees(final(self)@, result, semantics::return_value(old(self)@)),
    {
        if !self.deep(1) {
            return Ok(Step::Stuck);
        }
        let value = self.pop();
        self.stack_top = self.frame.stack;
        match pop_frame(&mut self.frames) {
            Some(frame) => {
                self.frame = frame;
                self.push_checked(value)
            },
            None => Ok(Step::Finished),
        }
    }
}

} // verus!
