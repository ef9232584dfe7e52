//! The values that the machine computes with.
use crate::number;
use vstd::prelude::*;

verus! {

/// What a slot of the stack, a constant, a field or an element holds.
///
/// A number is the bits of a double; an object is its place in the heap.
#[derive(Clone, Copy, Debug, PartialEq, Eq, Structural)]
pub enum Value {
    Nil,
    Bool(bool),
    Number(u64),
    Object(usize),
}

/// The type of a value, as programs and error messages see it.
#[derive(Clone, Copy, Debug, PartialEq, Eq, Structural)]
pub enum Type {
    Nil,
    Bool,
    Int,
    String,
    Function,
    Upvalue,
    Struct,
    Instance,
    Array,
}

/// The text of a type.
pub open spec fn type_text(type_: Type) -> Seq<char> {
    match type_ {
        Type::Nil => "nil"@,
        Type::Bool => "bool"@,
        Type::Int => "int"@,
        Type::String => "string"@,
        Type::Function => "function"@,
        Type::Upvalue => "upvalue"@,
        Type::Struct => "struct"@,
        Type::Instance => "instance"@,
        Type::Array => "array"@,
    }
}

/// Whether a condition that holds the value is met: all but `nil` and `false`
/// are true.
pub open spec fn truthy(value: Value) -> bool {
    value != Value::Nil && value != Value::Bool(false)
}

/// Whether two values are equal: numbers by what they stand for, strings and
/// other objects by being the same object, the rest by what they are.
pub open spec fn equal(a: Value, b: Value) -> bool {
    match (a, b) {
        (Value::Number(x), Value::Number(y)) => number::spec_eq(x, y),
        _ => a == b,
    }
}

impl Type {
    /// The text of a type.
    pub fn text(&self) -> (text: String)
        ensures
            text@ == type_text(*self),
    {
        match self {
            Type::Nil => "nil".to_string(),
            Type::Bool => "bool".to_string(),
            Type::Int => "int".to_string(),
            Type::String => "string".to_string(),
            Type::Function => "function".to_string(),
            Type::Upvalue => "upvalue".to_string(),
            Type::Struct => "struct".to_string(),
            Type::Instance => "instance".to_string(),
            Type::Array => "array".to_string(),
        }
    }
}

impl Value {
    /// Whether a condition that holds the value is met.
    pub fn to_bool(&self) -> (truth: bool)
        ensures
            truth == truthy(*self),
    {
        match self {
            Value::Nil => false,
            Value::Bool(truth) => *truth,
            _ => true,
        }
    }

    /// Whether two values are equal.
    pub fn equals(&self, other: &Value) -> (same: bool)
        ensures
            same == equal(*self, *other),
    {
        match (*self, *other) {
            (Value::Nil, Value::Nil) => true,
            (Value::Bool(x), Value::Bool(y)) => x == y,
            (Value::Number(x), Value::Number(y)) => number::eq(x, y),
            (Value::Object(x), Value::Object(y)) => x == y,
            _ => false,
        }
    }
}

/// A value equals itself, unless it is the number that is none; and which of
/// two values stands first does not matter.
pub proof fn law_equality(a: Value, b: Value)
    ensures
        equal(a, a) == !(a matches Value::Number(x) && number::is_nan(x)),
        equal(a, b) == equal(b, a),
{
}

} // verus!
