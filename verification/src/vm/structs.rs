//! The instructions on structs and their instances.
use crate::error::{AttributeError, Error, ErrorS};
use crate::object::{BoundMethodObject, Object, StructObject};
use crate::semantics;
use crate::semantics::{agrees, Step};
use crate::table::Table;
use crate::value::Value;
use crate::vm::VM;
use vstd::prelude::*;

verus! {

/// The closure of a method.
pub fn find_method(methods: &Table, name: usize) -> (method: Option<usize>)
    ensures
        method == semantics::lookup_method(methods@, name),
{
    match methods.get(name) {
        Some(Value::Object(method)) => Some(method),
        _ => None,
    }
}

impl VM {
    /// Puts a method that is bound to its receiver where the topmost value is.
    pub fn bind(&mut self, receiver: usize, method: usize) -> (result: Result<Step, ErrorS>)
        requires
            old(self).wf(),
            semantics::deep(old(self)@, 1),
        ensures
            final(self).wf(),
            agrees(final(self)@, result, semantics::bind(old(self)@, receiver, method)),
    {
        let bound: usize = self.allocate(
            Object::BoundMethod(BoundMethodObject { receiver, method }),
        );
        self.pop();
        self.push_checked(Value::Object(bound))
    }

    /// Pops a struct, and binds its method that the next byte names to the
    /// instance below.
    pub fn op_get_super(&mut self) -> (result: Result<Step, ErrorS>)
        requires
            old(self).wf(),
        ensures
            final(self).wf(),
            agrees(final(self)@, result, semantics::get_super(old(self)@)),
    {
        let name: usize = match self.read_name() {
            Some(name) => name,
            None => return Ok(Step::Stuck),
        };
        if !self.deep(1) {
            return Ok(Step::Stuck);
        }
        let super_: usize = match self.pop() {
            Value::Object(place) => place,
            _ => return Ok(Step::Stuck),
        };
        let method: usize = match self.allocator.get(super_) {
            Some(Object::Struct(cstruct)) => match find_method(&cstruct.methods, name) {
                Some(method) => method,
                None => return self.struct_lacks(cstruct.name, name),
            },
            _ => return Ok(Step::Stuck),
        };
        if !self.deep(1) {
            return Ok(Step::Stuck);
        }
        match self.peek(0) {
            Value::Object(receiver) => self.bind(receiver, method),
            _ => Ok(Step::Stuck),
        }
    }

    /// Pops a struct, and gives it the methods of the struct below.
    pub fn op_inherit(&mut self) -> (result: Result<Step, ErrorS>)
        requires
            old(self).wf(),
        ensures
            final(self).wf(),
            agrees(final(self)@, result, semantics::inherit(old(self)@)),
    {
        if !self.deep(2) {
            return Ok(Step::Stuck);
        }
        let sub = self.pop();
        let value = self.peek(0);
        let super_: usize = match value {
            Value::Object(place) => match self.allocator.get(place) {
                Some(Object::Struct(_)) => place,
                _ => return self.not_callable(value),
            },
            _ => return self.not_callable(value),
        };
        let cstruct: usize = match sub {
            Value::Object(place) => match self.allocator.get(place) {
                Some(Object::Struct(_)) => place,
                _ => return Ok(Step::Stuck),
            },
            _ => return Ok(Step::Stuck),
        };
        self.allocator.inherit(cstruct, super_);
        Ok(Step::Next)
    }

    /// Calls the method of a struct on the instance below the arguments. An
    /// error of the call is not raised.
    pub fn op_super_invoke(&mut self) -> (result: Result<Step, ErrorS>)
        requires
            old(self).wf(),
        ensures
            final(self).wf(),
            agrees(final(self)@, result, semantics::super_invoke(old(self)@)),
    {
        if !self.operands(2) {
            return Ok(Step::Stuck);
        }
        let ghost s = self@;
        let name: usize = match self.read_name() {
            Some(name) => name,
            None => return Ok(Step::Stuck),
        };
        let arg_count: usize = self.read_u8() as usize;
        assert(self@ =~= semantics::skip(s, 2));
        if !self.deep(arg_count + 2) {
            return Ok(Step::Stuck);
        }
        let super_: usize = match self.pop() {
            Value::Object(place) => place,
            _ => return Ok(Step::Stuck),
        };
        let result = match self.allocator.get(super_) {
            Some(Object::Struct(cstruct)) => match find_method(&cstruct.methods, name) {
                Some(method) => self.call_closure(method, arg_count),
                None => self.struct_lacks(cstruct.name, name),
            },
            _ => Ok(Step::Stuck),
        };
        match result {
            Ok(step) => Ok(step),
            Err(_) => Ok(Step::Next),
        }
    }

    /// Calls the field or the method of the instance below the arguments. An
    /// error of the call is not raised.
    pub fn op_invoke(&mut self) -> (result: Result<Step, ErrorS>)
        requires
            old(self).wf(),
        ensures
            final(self).wf(),
            agrees(final(self)@, result, semantics::invoke(old(self)@)),
    {
        if !self.operands(2) {
            return Ok(Step::Stuck);
        }
        let ghost s = self@;
        let name: usize = match self.read_name() {
            Some(name) => name,
            None => return Ok(Step::Stuck),
        };
        let arg_count: usize = self.read_u8() as usize;
        assert(self@ =~= semantics::skip(s, 2));
        if !self.deep(arg_count + 1) {
            return Ok(Step::Stuck);
        }
        let instance: usize = match self.peek(arg_count) {
            Value::Object(place) => place,
            _ => return Ok(Step::Stuck),
        };
        let result = match self.allocator.get(instance) {
            Some(Object::Instance(instance)) => match instance.fields.get(name) {
                Some(value) => self.call_value(value, arg_count),
                None => match self.allocator.get(instance.struct_) {
                    Some(Object::Struct(cstruct)) => match find_method(&cstruct.methods, name) {
                        Some(method) => self.call_closure(method, arg_count),
                        None => self.struct_lacks(cstruct.name, name),
                    },
                    _ => Ok(Step::Stuck),
                },
            },
            _ => Ok(Step::Stuck),
        };
        match result {
            Ok(step) => Ok(step),
            Err(_) => Ok(Step::Next),
        }
    }

    /// Pops an instance, and gives the field of its struct that the next byte
    /// names the value below.
    pub fn op_set_field(&mut self) -> (result: Result<Step, ErrorS>)
        requires
            old(self).wf(),
        ensures
            final(self).wf(),
            agrees(final(self)@, result, semantics::set_field(old(self)@)),
    {
        let name: usize = match self.read_name() {
            Some(name) => name,
            None => return Ok(Step::Stuck),
        };
        if !self.deep(1) {
            return Ok(Step::Stuck);
        }
        let popped = self.pop();
        let struct_: usize = match popped {
            Value::Object(place) => match self.allocator.get(place) {
                Some(Object::Instance(instance)) => instance.struct_,
                _ => return self.no_attribute(popped, name),
            },
            _ => return self.no_attribute(popped, name),
        };
        match self.allocator.get(struct_) {
            Some(Object::Struct(_)) => {},
            _ => return Ok(Step::Stuck),
        }
        if !self.deep(1) {
            return Ok(Step::Stuck);
        }
        let value = self.peek(0);
        self.allocator.set_field(struct_, name, value);
        Ok(Step::Next)
    }

    /// Puts the field of the instance on top, or else its method, which the
    /// next byte names, in the instance's place.
    pub fn op_get_field(&mut self) -> (result: Result<Step, ErrorS>)
        requires
            old(self).wf(),
        ensures
            final(self).wf(),
            agrees(final(self)@, result, semantics::get_field(old(self)@)),
    {
        let name: usize = match self.read_name() {
            Some(name) => name,
            None => return Ok(Step::Stuck),
        };
        if !self.deep(1) {
            return Ok(Step::Stuck);
        }
        let value = self.peek(0);
        let (place, struct_): (usize, usize) = match value {
            Value::Object(place) => match self.allocator.get(place) {
                Some(Object::Instance(instance)) => (place, instance.struct_),
                _ => return self.no_attribute(value, name),
            },
            _ => return self.no_attribute(value, name),
        };
        match self.allocator.get(struct_) {
            Some(Object::Struct(cstruct)) => match cstruct.fields.get(name) {
                Some(field) => {
                    self.pop();
                    self.push_checked(field)
                },
                None => match find_method(&cstruct.methods, name) {
                    Some(method) => self.bind(place, method),
                    None => self.err(
                        Error::AttributeError(
                            AttributeError::NoSuchAttribute {
                                type_: "instance".to_string(),
                                name: self.text(name),
                            },
                        ),
                    ),
                },
            },
            _ => Ok(Step::Stuck),
        }
    }

    /// Gives the struct on top a field without a value.
    pub fn op_field(&mut self) -> (result: Result<Step, ErrorS>)
        requires
            old(self).wf(),
        ensures
            final(self).wf(),
            agrees(final(self)@, result, semantics::field(old(self)@)),
    {
        let name: usize = match self.read_name() {
            Some(name) => name,
            None => return Ok(Step::Stuck),
        };
        if !self.deep(1) {
            return Ok(Step::Stuck);
        }
        let cstruct: usize = match self.peek(0) {
            Value::Object(place) => match self.allocator.get(place) {
                Some(Object::Struct(_)) => place,
                _ => return Ok(Step::Stuck),
            },
            _ => return Ok(Step::Stuck),
        };
        self.allocator.set_field(cstruct, name, Value::Nil);
        Ok(Step::Next)
    }

    /// Makes a struct with the name that the next byte names.
    pub fn op_cstruct(&mut self) -> (result: Result<Step, ErrorS>)
        requires
            old(self).wf(),
        ensures
            final(self).wf(),
            agrees(final(self)@, result, semantics::cstruct(old(self)@)),
    {
        let name: usize = match self.read_name() {
            Some(name) => name,
            None => return Ok(Step::Stuck),
        };
        let methods = Table::with_capacity(0);
        let fields = Table::with_capacity(0);
        self.push_new(Object::Struct(StructObject { name, methods, fields }))
    }

    /// Pops a closure, and makes it a method of the struct below.
    pub fn op_method(&mut self) -> (result: Result<Step, ErrorS>)
        requires
            old(self).wf(),
        ensures
            final(self).wf(),
            agrees(final(self)@, result, semantics::method(old(self)@)),
    {
        let name: usize = match self.read_name() {
            Some(name) => name,
            None => return Ok(Step::Stuck),
        };
        if !self.deep(2) {
            return Ok(Step::Stuck);
        }
        let method: usize = match self.pop() {
            Value::Object(place) => place,
            _ => return Ok(Step::Stuck),
        };
        let cstruct: usize = match self.peek(0) {
            Value::Object(place) => match self.allocator.get(place) {
                Some(Object::Struct(_)) => place,
                _ => return Ok(Step::Stuck),
            },
            _ => return Ok(Step::Stuck),
        };
        self.allocator.set_method(cstruct, name, method);
        Ok(Step::Next)
    }
}

} // verus!
