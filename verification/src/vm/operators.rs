//! The operators.
use crate::error::{Error, ErrorS, TypeError};
use crate::number;
use crate::object::{Object, StringObject};
use crate::semantics;
use crate::semantics::{agrees, Arithmetic, Comparison, Step};
use crate::value::Value;
use crate::vm::VM;
use vstd::prelude::*;
use vstd::string::StringExecFns;

verus! {

impl VM {
    /// Raises that an operator does not take its operands.
    fn unsupported(&self, op: &str, lhs: Value, rhs: Value) -> (result: Result<Step, ErrorS>)
        ensures
            agrees(self@, result, semantics::unsupported(self@, op@, lhs, rhs)),
    {
        match (self.type_of(lhs), self.type_of(rhs)) {
            (Some(lt), Some(rt)) => self.err(
                Error::TypeError(
                    TypeError::UnsupportedOperandInfix {
                        op: op.to_string(),
                        lt_type: lt.text(),
                        rt_type: rt.text(),
                    },
                ),
            ),
            _ => Ok(Step::Stuck),
        }
    }

    /// Pops two numbers for an operation, whose name in an error is `symbol`.
    fn arithmetic(&mut self, op: Arithmetic, symbol: &str) -> (result: Result<Step, ErrorS>)
        requires
            old(self).wf(),
        ensures
            final(self).wf(),
            agrees(final(self)@, result, semantics::arithmetic(old(self)@, op, symbol@)),
    {
        if !self.deep(2) {
            return Ok(Step::Stuck);
        }
        let b = self.pop();
        let a = self.pop();
        match (a, b) {
            (Value::Number(lhs), Value::Number(rhs)) => Ok(Step::Compute { op, lhs, rhs }),
            _ => self.unsupported(symbol, a, b),
        }
    }

    /// Pops two numbers, and pushes whether the comparison holds of them.
    pub fn binary_op_number(&mut self, comparison: Comparison) -> (result: Result<Step, ErrorS>)
        requires
            old(self).wf(),
        ensures
            final(self).wf(),
            agrees(final(self)@, result, semantics::comparison(old(self)@, comparison)),
    {
        if !self.deep(2) {
            return Ok(Step::Stuck);
        }
        let b = self.pop();
        let a = self.pop();
        match (a, b) {
            (Value::Number(lhs), Value::Number(rhs)) => {
                let truth = match comparison {
                    Comparison::Greater => number::lt(rhs, lhs),
                    Comparison::GreaterEqual => number::le(rhs, lhs),
                    Comparison::Less => number::lt(lhs, rhs),
                    Comparison::LessEqual => number::le(lhs, rhs),
                };
                self.push_checked(Value::Bool(truth))
            },
            _ => self.unsupported("+", a, b),
        }
    }

    /// Pops two numbers to be added.
    pub fn op_binary_add(&mut self) -> (result: Result<Step, ErrorS>)
        requires
            old(self).wf(),
        ensures
            final(self).wf(),
            agrees(
                final(self)@,
                result,
                semantics::arithmetic(old(self)@, Arithmetic::Add, "+"@),
            ),
    {
        self.arithmetic(Arithmetic::Add, "+")
    }

    /// Pops two numbers, the topmost one to be taken from the deeper one.
    pub fn sub(&mut self) -> (result: Result<Step, ErrorS>)
        requires
            old(self).wf(),
        ensures
            final(self).wf(),
            agrees(
                final(self)@,
                result,
                semantics::arithmetic(old(self)@, Arithmetic::Sub, "+"@),
            ),
    {
        self.arithmetic(Arithmetic::Sub, "+")
    }

    /// Pops two numbers to be multiplied.
    pub fn mul(&mut self) -> (result: Result<Step, ErrorS>)
        requires
            old(self).wf(),
        ensures
            final(self).wf(),
            agrees(
                final(self)@,
                result,
                semantics::arithmetic(old(self)@, Arithmetic::Mul, "+"@),
            ),
    {
        self.arithmetic(Arithmetic::Mul, "+")
    }

    /// Pops two numbers, the deeper one to be divided by the topmost one.
    pub fn div(&mut self) -> (result: Result<Step, ErrorS>)
        requires
            old(self).wf(),
        ensures
            final(self).wf(),
            agrees(
                final(self)@,
                result,
                semantics::arithmetic(old(self)@, Arithmetic::Div, "+"@),
            ),
    {
        self.arithmetic(Arithmetic::Div, "+")
    }

    /// Pops two numbers, the deeper one to be divided by the topmost one for its remainder.
    pub fn modulo(&mut self) -> (result: Result<Step, ErrorS>)
        requires
            old(self).wf(),
        ensures
            final(self).wf(),
            agrees(
                final(self)@,
                result,
                semantics::arithmetic(old(self)@, Arithmetic::Rem, "%"@),
            ),
    {
        self.arithmetic(Arithmetic::Rem, "%")
    }

    /// Pops two numbers, and pushes whether the deeper one is greater.
    pub fn greater(&mut self) -> (result: Result<Step, ErrorS>)
        requires
            old(self).wf(),
        ensures
            final(self).wf(),
            agrees(
                final(self)@,
                result,
                semantics::comparison(old(self)@, Comparison::Greater),
            ),
    {
        self.binary_op_number(Comparison::Greater)
    }

    /// Pops two numbers, and pushes whether the deeper one is greater or equal.
    pub fn greater_equal(&mut self) -> (result: Result<Step, ErrorS>)
        requires
            old(self).wf(),
        ensures
            final(self).wf(),
            agrees(
                final(self)@,
                result,
                semantics::comparison(old(self)@, Comparison::GreaterEqual),
            ),
    {
        self.binary_op_number(Comparison::GreaterEqual)
    }

    /// Pops two numbers, and pushes whether the deeper one is less.
    pub fn less(&mut self) -> (result: Result<Step, ErrorS>)
        requires
            old(self).wf(),
        ensures
            final(self).wf(),
            agrees(final(self)@, result, semantics::comparison(old(self)@, Comparison::Less)),
    {
        self.binary_op_number(Comparison::Less)
    }

    /// Pops two numbers, and pushes whether the deeper one is less or equal.
    pub fn less_equal(&mut self) -> (result: Result<Step, ErrorS>)
        requires
            old(self).wf(),
        ensures
            final(self).wf(),
            agrees(
                final(self)@,
                result,
                semantics::comparison(old(self)@, Comparison::LessEqual),
            ),
    {
        self.binary_op_number(Comparison::LessEqual)
    }

    /// Pops two values, and pushes whether they are equal.
    pub fn equal(&mut self) -> (result: Result<Step, ErrorS>)
        requires
            old(self).wf(),
        ensures
            final(self).wf(),
            agrees(final(self)@, result, semantics::equality(old(self)@, true)),
    {
        if !self.deep(2) {
            return Ok(Step::Stuck);
        }
        let rhs = self.pop();
        let lhs = self.pop();
        let truth = rhs.equals(&lhs);
        self.push_checked(Value::Bool(truth))
    }

    /// Pops two values, and pushes whether they differ.
    pub fn not_equal(&mut self) -> (result: Result<Step, ErrorS>)
        requires
            old(self).wf(),
        ensures
            final(self).wf(),
            agrees(final(self)@, result, semantics::equality(old(self)@, false)),
    {
        if !self.deep(2) {
            return Ok(Step::Stuck);
        }
        let rhs = self.pop();
        let lhs = self.pop();
        let truth = !rhs.equals(&lhs);
        self.push_checked(Value::Bool(truth))
    }

    /// Changes the sign of the topmost number.
    pub fn negate(&mut self) -> (result: Result<Step, ErrorS>)
        requires
            old(self).wf(),
        ensures
            final(self).wf(),
            agrees(final(self)@, result, semantics::negate(old(self)@)),
    {
        if !self.deep(1) {
            return Ok(Step::Stuck);
        }
        match self.pop() {
            Value::Number(bits) => self.push_checked(Value::Number(number::neg(bits))),
            _ => Ok(Step::Stuck),
        }
    }

    /// Pops two strings, and pushes the one behind the other.
    pub fn op_concat(&mut self) -> (result: Result<Step, ErrorS>)
        requires
            old(self).wf(),
        ensures
            final(self).wf(),
            agrees(final(self)@, result, semantics::concat(old(self)@)),
    {
        if !self.deep(2) {
            return Ok(Step::Stuck);
        }
        let b = self.pop();
        let a = self.pop();
        let (lhs, rhs): (usize, usize) = match (a, b) {
            (Value::Object(lhs), Value::Object(rhs)) => (lhs, rhs),
            _ => return Ok(Step::Stuck),
        };
        match (self.allocator.text(lhs), self.allocator.text(rhs)) {
            (Some(left), Some(right)) => {
                let mut value = left;
                value.append(right.as_str());
                self.push_new(Object::String(StringObject { value }))
            },
            _ => self.unsupported("+", a, b),
        }
    }
}

} // verus!
