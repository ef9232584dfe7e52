//! What the instructions are made of: the stack, the bytes of the code, and
//! the errors.
use crate::error::{AttributeError, Error, ErrorS, TypeError};
use crate::object::{Object, ObjectFunction};
use crate::semantics;
use crate::semantics::{agrees, verdict_of, Step, STACK_MAX};
use crate::value::{Type, Value};
use crate::vm::VM;
use vstd::prelude::*;

verus! {

impl VM {
    /// Whether so many slots of the stack are in use.
    pub fn deep(&self, n: usize) -> (deep: bool)
        ensures
            deep == semantics::deep(self@, n as int),
    {
        n <= self.stack_top
    }

    /// Pushes a value.
    pub fn push_to_stack(&mut self, value: Value)
        requires
            old(self).wf(),
            old(self)@.top < STACK_MAX,
        ensures
            final(self).wf(),
            final(self)@ == semantics::pushed(old(self)@, value),
    {
        self.stack.set(self.stack_top, value);
        self.stack_top = self.stack_top + 1;
    }

    /// Pushes a value, if the stack has room for it.
    pub fn push_checked(&mut self, value: Value) -> (result: Result<Step, ErrorS>)
        requires
            old(self).wf(),
        ensures
            final(self).wf(),
            agrees(final(self)@, result, semantics::push(old(self)@, value)),
    {
        if self.stack_top < STACK_MAX {
            self.push_to_stack(value);
            Ok(Step::Next)
        } else {
            Ok(Step::Stuck)
        }
    }

    /// Pops the topmost value.
    pub fn pop(&mut self) -> (value: Value)
        requires
            old(self).wf(),
            semantics::deep(old(self)@, 1),
        ensures
            final(self).wf(),
            final(self)@ == semantics::pops(old(self)@, 1),
            value == semantics::peek(old(self)@, 0),
    {
        self.stack_top = self.stack_top - 1;
        self.stack[self.stack_top]
    }

    /// The value at a distance from the topmost one.
    pub fn peek(&self, distance: usize) -> (value: Value)
        requires
            self.wf(),
            semantics::deep(self@, distance + 1),
        ensures
            value == semantics::peek(self@, distance as int),
    {
        self.stack[self.stack_top - 1 - distance]
    }

    /// Writes the value at a distance from the topmost one.
    pub fn poke(&mut self, distance: usize, value: Value)
        requires
            old(self).wf(),
            semantics::deep(old(self)@, distance + 1),
        ensures
            final(self).wf(),
            final(self)@ == semantics::poked(old(self)@, distance as int, value),
    {
        let slot: usize = self.stack_top - 1 - distance;
        self.stack.set(slot, value);
    }

    /// The function that runs.
    pub fn running(&self) -> (function: Option<&ObjectFunction>)
        ensures
            match function {
                Some(function) => semantics::running(self@) == Some(function@),
                None => semantics::running(self@) is None,
            },
    {
        match self.allocator.get(self.frame.closure) {
            Some(Object::Closure(closure)) => match self.allocator.get(closure.function) {
                Some(Object::Function(function)) => Some(function),
                _ => None,
            },
            _ => None,
        }
    }

    /// Whether so many bytes of code are left to read.
    pub fn operands(&self, n: usize) -> (left: bool)
        ensures
            left == semantics::operands(self@, n as int),
    {
        match self.running() {
            Some(function) => {
                let len: usize = function.chunk.code.len();
                self.frame.ip <= len && n <= len - self.frame.ip
            },
            None => false,
        }
    }

    /// Reads a byte of the code.
    pub fn read_u8(&mut self) -> (byte: u8)
        requires
            old(self).wf(),
            semantics::operands(old(self)@, 1),
        ensures
            final(self).wf(),
            final(self)@ == semantics::skip(old(self)@, 1),
            final(self)@.frame.ip == old(self)@.frame.ip + 1,
            byte == semantics::operand(old(self)@, 0),
    {
        let byte: u8 = match self.running() {
            Some(function) => {
                assert(self.frame.ip < function.chunk.code.len());
                function.chunk.code[self.frame.ip]
            },
            None => 0,
        };
        self.frame.ip = self.frame.ip + 1;
        byte
    }

    /// Reads a number of two bytes, the higher one first.
    pub fn read_u16(&mut self) -> (number: u16)
        requires
            old(self).wf(),
            semantics::operands(old(self)@, 2),
        ensures
            final(self).wf(),
            final(self)@ == semantics::skip(old(self)@, 2),
            final(self)@.frame.ip == old(self)@.frame.ip + 2,
            number == semantics::operand_u16(old(self)@),
    {
        let byte1: u8 = self.read_u8();
        let byte2: u8 = self.read_u8();
        byte1 as u16 * 256 + byte2 as u16
    }

    /// Whether the next byte names a constant.
    pub fn has_constant(&self) -> (named: bool)
        ensures
            named == (semantics::constant(self@) is Some),
    {
        match self.running() {
            Some(function) => self.operands(1) && (function.chunk.code[self.frame.ip] as usize)
                < function.chunk.constants.len(),
            None => false,
        }
    }

    /// Reads the constant that the next byte names.
    pub fn read_constant(&mut self) -> (value: Value)
        requires
            old(self).wf(),
            semantics::constant(old(self)@) is Some,
        ensures
            final(self).wf(),
            final(self)@ == semantics::skip(old(self)@, 1),
            final(self)@.frame.ip == old(self)@.frame.ip + 1,
            Some(value) == semantics::constant(old(self)@),
    {
        let index: usize = self.read_u8() as usize;
        match self.running() {
            Some(function) => function.chunk.constants[index],
            None => Value::Nil,
        }
    }

    /// Reads the string that the next byte names, if it names one.
    pub fn read_name(&mut self) -> (name: Option<usize>)
        requires
            old(self).wf(),
        ensures
            final(self).wf(),
            name == semantics::name(old(self)@),
            name is Some ==> final(self)@ == semantics::skip(old(self)@, 1)
                && final(self)@.frame.ip == old(self)@.frame.ip + 1,
    {
        if !self.has_constant() {
            return None;
        }
        match self.read_constant() {
            Value::Object(place) => match self.allocator.get(place) {
                Some(Object::String(_)) => Some(place),
                _ => None,
            },
            _ => None,
        }
    }

    /// The text of the string at a place.
    pub fn text(&self, place: usize) -> (text: String)
        requires
            semantics::is_string(self@.heap, place),
        ensures
            text@ == semantics::text(self@.heap, place),
    {
        match self.allocator.text(place) {
            Some(text) => text,
            None => String::new(),
        }
    }

    /// The type of a value, unless it is an object that is gone.
    pub fn type_of(&self, value: Value) -> (type_: Option<Type>)
        ensures
            type_ == semantics::type_of(self@.heap, value),
    {
        match value {
            Value::Nil => Some(Type::Nil),
            Value::Bool(_) => Some(Type::Bool),
            Value::Number(_) => Some(Type::Int),
            Value::Object(place) => match self.allocator.get(place) {
                Some(object) => Some(object.type_()),
                None => None,
            },
        }
    }

    /// Raises an error at the source of the byte that was read last.
    pub fn err(&self, error: Error) -> (result: Result<Step, ErrorS>)
        ensures
            verdict_of(result) == semantics::raise(self@, error@).verdict,
    {
        match self.running() {
            Some(function) => if 0 < self.frame.ip && self.frame.ip <= function.chunk.spans.len() {
                Err((error, function.chunk.spans[self.frame.ip - 1]))
            } else {
                Ok(Step::Stuck)
            },
            None => Ok(Step::Stuck),
        }
    }

    /// Raises that a value has no attribute of a name.
    pub fn no_attribute(&self, value: Value, name: usize) -> (result: Result<Step, ErrorS>)
        requires
            semantics::is_string(self@.heap, name),
        ensures
            agrees(self@, result, semantics::no_attribute(self@, value, name)),
    {
        match self.type_of(value) {
            Some(type_) => self.err(
                Error::AttributeError(
                    AttributeError::NoSuchAttribute { type_: type_.text(), name: self.text(name) },
                ),
            ),
            None => Ok(Step::Stuck),
        }
    }

    /// Raises that the struct named so has no attribute of a name.
    pub fn struct_lacks(&self, struct_name: usize, name: usize) -> (result: Result<Step, ErrorS>)
        requires
            semantics::is_string(self@.heap, name),
        ensures
            agrees(self@, result, semantics::struct_lacks(self@, struct_name, name)),
    {
        match self.allocator.text(struct_name) {
            Some(type_) => self.err(
                Error::AttributeError(
                    AttributeError::NoSuchAttribute { type_, name: self.text(name) },
                ),
            ),
            None => Ok(Step::Stuck),
        }
    }

    /// Raises that a value cannot be called.
    pub fn not_callable(&self, value: Value) -> (result: Result<Step, ErrorS>)
        ensures
            agrees(self@, result, semantics::not_callable(self@, value)),
    {
        match self.type_of(value) {
            Some(type_) => self.err(
                Error::TypeError(TypeError::NotCallable { type_: type_.text() }),
            ),
            None => Ok(Step::Stuck),
        }
    }
}

} // verus!
