//! What the results, the errors and the objects of the machine say.
use crate::error::{
    AttributeError, Error, ErrorS, IndexError, OverflowError, Report, TypeError,
};
use crate::object::{Function, Obj, Object};
use crate::semantics::{agrees, Outcome, State, Step};
use crate::vm::machine::run_agrees;
use vstd::prelude::*;

verus! {

/// Whether a result is the one that an outcome has: the same step, or the same
/// error at the same source.
pub open spec fn is_the_result(result: Result<Step, ErrorS>, outcome: Outcome) -> bool {
    match (result, outcome.verdict) {
        (Ok(step), Ok(other)) => step == other,
        (Err((error, span)), Err((report, place))) => error@ == report && span == place,
        _ => false,
    }
}

/// A function of the machine that does what it is to do gives the result of
/// the outcome and leaves its state; only of a state in which it is stuck
/// nothing is said.
pub proof fn law_agreement_is_in_all(state: State, result: Result<Step, ErrorS>, outcome: Outcome)
    ensures
        agrees(state, result, outcome) <==> is_the_result(result, outcome) && (result == Ok::<
            Step,
            ErrorS,
        >(Step::Stuck) || state == outcome.state),
{
}

/// A run that does what it is to do gives the same, with an error alone in its
/// list.
pub proof fn law_run_reports_one_error(
    state: State,
    result: Result<Step, Vec<ErrorS>>,
    outcome: Outcome,
)
    ensures
        run_agrees(state, result, outcome) <==> match result {
            Ok(step) => agrees(state, Ok(step), outcome),
            Err(errors) => errors@.len() == 1 && agrees(state, Err(errors@[0]), outcome),
        },
{
}

/// An error says what it holds.
pub proof fn law_errors_say_what_they_hold(error: Error)
    ensures
        match error {
            Error::AttributeError(AttributeError::NoSuchAttribute { type_, name }) => error@ == (
            Report::NoSuchAttribute { type_: type_@, name: name@ }),
            Error::IndexError(IndexError::IndexOutOfRange { index, len }) => error@ == (
            Report::IndexOutOfRange { index: index as int, len: len as int }),
            Error::OverflowError(OverflowError::StackOverflow) => error@ == Report::StackOverflow,
            Error::TypeError(TypeError::NotIndexable { type_ }) => error@ == (
            Report::NotIndexable { type_: type_@ }),
            Error::TypeError(TypeError::NotCallable { type_ }) => error@ == (Report::NotCallable {
                type_: type_@,
            }),
            Error::TypeError(TypeError::ArityMisMatch { name, expected, actual }) => error@ == (
            Report::ArityMisMatch {
                name: name@,
                expected: expected as int,
                actual: actual as int,
            }),
            Error::TypeError(TypeError::ArrayValueTypeMismatch { expected, actual }) => error@ == (
            Report::ArrayValueTypeMismatch { expected: expected@, actual: actual@ }),
            Error::TypeError(TypeError::UnsupportedOperandInfix { op, lt_type, rt_type }) => error@
                == (Report::UnsupportedOperandInfix {
                op: op@,
                lt_type: lt_type@,
                rt_type: rt_type@,
            }),
        },
{
}

/// An object holds what its fields hold, in their order.
pub proof fn law_objects_hold_their_fields(object: Object)
    ensures
        match object {
            Object::String(o) => object@ == (Obj::String { text: o.value@ }),
            Object::Function(o) => object@ == (Obj::Function {
                function: Function {
                    name: o.name,
                    arity: o.arity_count,
                    upvalues: o.upvalue_count,
                    code: o.chunk.code@,
                    constants: o.chunk.constants@,
                    spans: o.chunk.spans@,
                },
            }),
            Object::Closure(o) => object@ == (Obj::Closure {
                function: o.function,
                upvalues: o.upvalues@,
            }),
            Object::Upvalue(o) => object@ == (Obj::Upvalue { value: o.value }),
            Object::Struct(o) => object@ == (Obj::Struct {
                name: o.name,
                methods: o.methods@,
                fields: o.fields@,
            }),
            Object::Instance(o) => object@ == (Obj::Instance {
                struct_: o.struct_,
                fields: o.fields@,
            }),
            Object::BoundMethod(o) => object@ == (Obj::BoundMethod {
                receiver: o.receiver,
                method: o.method,
            }),
            Object::Array(o) => object@ == (Obj::Array {
                values: o.values@,
                value_type: o.value_type,
            }),
            Object::BoundArrayMethod(o) => object@ == (Obj::BoundArrayMethod {
                array: o.array,
                method: o.method,
            }),
            Object::Native(native) => object@ == (Obj::Native { native }),
        },
{
}

} // verus!
