//! The instructions on arrays.
use crate::error::{Error, ErrorS, IndexError, Report, TypeError};
use crate::number;
use crate::object::{get_method, ArrayObject, BoundArrayMethodObject, Object};
use crate::semantics;
use crate::semantics::{agrees, verdict_of, Step};
use crate::value::{type_text, Type, Value};
use crate::vm::VM;
use vstd::prelude::*;

verus! {

impl VM {
    /// Raises that a value cannot be indexed.
    pub fn not_indexable(&self, type_: Type) -> (result: Result<Step, ErrorS>)
        ensures
            verdict_of(result) == semantics::raise(
                self@,
                Report::NotIndexable { type_: type_text(type_) },
            ).verdict,
    {
        self.err(Error::TypeError(TypeError::NotIndexable { type_: type_.text() }))
    }

    /// The position that an index names in an array, or what comes of an index
    /// that names none.
    pub fn position(&self, values: &Vec<Value>, index: Value) -> (position: Result<
        usize,
        Result<Step, ErrorS>,
    >)
        ensures
            match (position, semantics::position(self@, values@, index)) {
                (Ok(i), Ok(j)) => i == j,
                (Err(result), Err(outcome)) => agrees(self@, result, outcome),
                _ => false,
            },
    {
        let len: usize = values.len();
        match index {
            Value::Number(bits) => {
                let i: usize = number::to_index(bits);
                if i < len {
                    Ok(i)
                } else if len == 0 {
                    Err(Ok(Step::Stuck))
                } else {
                    let error = IndexError::IndexOutOfRange { index: i, len: len - 1 };
                    Err(self.err(Error::IndexError(error)))
                }
            },
            _ => Err(self.not_indexable(Type::Array)),
        }
    }

    /// Pops an index and an array, and pushes the element.
    pub fn op_array_access(&mut self) -> (result: Result<Step, ErrorS>)
        requires
            old(self).wf(),
        ensures
            final(self).wf(),
            agrees(final(self)@, result, semantics::array_access(old(self)@)),
    {
        if !self.deep(2) {
            return Ok(Step::Stuck);
        }
        let index = self.pop();
        let array = self.pop();
        let place: usize = match array {
            Value::Object(place) => place,
            _ => return Ok(Step::Stuck),
        };
        let value = match self.allocator.get(place) {
            Some(Object::Array(array)) => match self.position(&array.values, index) {
                Ok(i) => array.values[i],
                Err(result) => return result,
            },
            Some(object) => return self.not_indexable(object.type_()),
            None => return Ok(Step::Stuck),
        };
        self.push_checked(value)
    }

    /// Pops a value, an index and an array, writes the element, and pushes the
    /// value.
    pub fn op_array_access_assign(&mut self) -> (result: Result<Step, ErrorS>)
        requires
            old(self).wf(),
        ensures
            final(self).wf(),
            agrees(final(self)@, result, semantics::array_access_assign(old(self)@)),
    {
        if !self.deep(3) {
            return Ok(Step::Stuck);
        }
        let value = self.pop();
        let index = self.pop();
        let array = self.pop();
        let place: usize = match array {
            Value::Object(place) => place,
            _ => return Ok(Step::Stuck),
        };
        let i: usize = match self.allocator.get(place) {
            Some(Object::Array(array)) => match self.position(&array.values, index) {
                Ok(i) => i,
                Err(result) => return result,
            },
            Some(object) => return self.not_indexable(object.type_()),
            None => return Ok(Step::Stuck),
        };
        self.allocator.set_element(place, i, value);
        self.push_checked(value)
    }

    /// The type that an array's elements get from the last of them.
    fn element_type(&self, last: Value) -> (type_: Option<Type>)
        ensures
            type_ == semantics::element_type(self@.heap, last),
    {
        match last {
            Value::Number(_) => Some(Type::Int),
            Value::Object(place) => match self.allocator.get(place) {
                Some(Object::Array(array)) => Some(array.value_type),
                _ => None,
            },
            _ => None,
        }
    }

    /// Whether an array can be made of the topmost values, as many as the next
    /// byte says.
    pub fn array_is_given(&self) -> (given: bool)
        requires
            self.wf(),
        ensures
            given == semantics::array_is_given(self@),
    {
        match self.running() {
            Some(function) => {
                if !self.operands(1) {
                    return false;
                }
                let arg_count: usize = function.chunk.code[self.frame.ip] as usize;
                1 <= arg_count && arg_count <= self.stack_top && self.element_type(
                    self.peek(0),
                ).is_some()
            },
            None => false,
        }
    }

    /// Makes an array of the topmost values, as many as the next byte says.
    pub fn op_array(&mut self) -> (result: Result<Step, ErrorS>)
        requires
            old(self).wf(),
            semantics::array_is_given(old(self)@),
        ensures
            final(self).wf(),
            agrees(final(self)@, result, semantics::array(old(self)@)),
            result == Ok::<Step, ErrorS>(Step::Next),
    {
        let value_type = match self.element_type(self.peek(0)) {
            Some(value_type) => value_type,
            None => Type::Nil,
        };
        let arg_count: usize = self.read_u8() as usize;
        let ghost s = self@;
        let base: usize = self.stack_top - arg_count;
        let mut values: Vec<Value> = Vec::new();
        let mut i: usize = 0;
        while i < arg_count
            invariant
                self@ == s,
                self.wf(),
                i <= arg_count <= self.stack_top,
                base == self.stack_top - arg_count,
                values@ == s.stack.subrange(base as int, base + i),
            decreases arg_count - i,
        {
            values.push(self.stack[base + i]);
            i = i + 1;
        }
        self.stack_top = base;
        self.push_new(Object::Array(ArrayObject { values, value_type }))
    }

    /// Puts the method of the array on top, which the next byte names, in the
    /// array's place.
    pub fn op_get_array(&mut self) -> (result: Result<Step, ErrorS>)
        requires
            old(self).wf(),
        ensures
            final(self).wf(),
            agrees(final(self)@, result, semantics::get_array(old(self)@)),
    {
        let name: usize = match self.read_name() {
            Some(name) => name,
            None => return Ok(Step::Stuck),
        };
        if !self.deep(1) {
            return Ok(Step::Stuck);
        }
        let value = self.peek(0);
        let array: usize = match value {
            Value::Object(place) => match self.allocator.get(place) {
                Some(Object::Array(_)) => place,
                _ => return self.no_attribute(value, name),
            },
            _ => return self.no_attribute(value, name),
        };
        let method = match get_method(&self.text(name)) {
            Some(method) => method,
            None => return self.no_attribute(value, name),
        };
        let bound: usize = self.allocate(
            Object::BoundArrayMethod(BoundArrayMethodObject { array, method }),
        );
        self.pop();
        self.push_checked(Value::Object(bound))
    }
}

} // verus!
