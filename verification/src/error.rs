//! The errors that a program can raise.
use vstd::prelude::*;

verus! {

/// A stretch of the program's source.
#[derive(Clone, Copy, Debug, PartialEq, Eq, Structural)]
pub struct Span {
    pub start: usize,
    pub end: usize,
}

#[derive(Debug, PartialEq, Eq)]
pub enum AttributeError {
    NoSuchAttribute { type_: String, name: String },
}

#[derive(Debug, PartialEq, Eq)]
pub enum IndexError {
    IndexOutOfRange { index: usize, len: usize },
}

#[derive(Debug, PartialEq, Eq)]
pub enum OverflowError {
    StackOverflow,
}

#[allow(inconsistent_fields)]
#[derive(Debug, PartialEq, Eq)]
pub enum TypeError {
    NotIndexable { type_: String },
    NotCallable { type_: String },
    ArityMisMatch { name: String, expected: usize, actual: usize },
    ArrayValueTypeMismatch { expected: String, actual: String },
    UnsupportedOperandInfix { op: String, lt_type: String, rt_type: String },
}

/// An error that a program raises.
#[derive(Debug, PartialEq, Eq)]
pub enum Error {
    AttributeError(AttributeError),
    IndexError(IndexError),
    OverflowError(OverflowError),
    TypeError(TypeError),
}

/// An error and where in the source it was raised.
pub type ErrorS = (Error, Span);

/// What an error says.
#[allow(inconsistent_fields)]
#[verifier::ext_equal]
pub enum Report {
    NoSuchAttribute { type_: Seq<char>, name: Seq<char> },
    IndexOutOfRange { index: int, len: int },
    StackOverflow,
    NotIndexable { type_: Seq<char> },
    NotCallable { type_: Seq<char> },
    ArityMisMatch { name: Seq<char>, expected: int, actual: int },
    ArrayValueTypeMismatch { expected: Seq<char>, actual: Seq<char> },
    UnsupportedOperandInfix { op: Seq<char>, lt_type: Seq<char>, rt_type: Seq<char> },
}

impl View for Error {
    type V = Report;

    open spec fn view(&self) -> Report {
        match self {
            Error::AttributeError(AttributeError::NoSuchAttribute { type_, name }) => {
                Report::NoSuchAttribute { type_: type_@, name: name@ }
            },
            Error::IndexError(IndexError::IndexOutOfRange { index, len }) => {
                Report::IndexOutOfRange { index: *index as int, len: *len as int }
            },
            Error::OverflowError(OverflowError::StackOverflow) => Report::StackOverflow,
            Error::TypeError(TypeError::NotIndexable { type_ }) => {
                Report::NotIndexable { type_: type_@ }
            },
            Error::TypeError(TypeError::NotCallable { type_ }) => {
                Report::NotCallable { type_: type_@ }
            },
            Error::TypeError(TypeError::ArityMisMatch { name, expected, actual }) => {
                Report::ArityMisMatch {
                    name: name@,
                    expected: *expected as int,
                    actual: *actual as int,
                }
            },
            Error::TypeError(TypeError::ArrayValueTypeMismatch { expected, actual }) => {
                Report::ArrayValueTypeMismatch { expected: expected@, actual: actual@ }
            },
            Error::TypeError(TypeError::UnsupportedOperandInfix { op, lt_type, rt_type }) => {
                Report::UnsupportedOperandInfix { op: op@, lt_type: lt_type@, rt_type: rt_type@ }
            },
        }
    }
}

} // verus!
