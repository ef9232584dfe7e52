//! What the instructions on values, variables, jumps and operators do, slot by
//! slot.
use crate::error::Report;
use crate::heap::{has_text, is_known};
use crate::laws::doubles::{amount, is_a_number, law_negated_number, law_order_of_numbers};
use crate::laws::memory::{law_added_is_there, lemma_same_roots};
use crate::laws::plain::{
    asks, byte, changed, code, done, dropped, else_same, further, has_string, holds, kind, known,
    made, names, obj, raises, ready, replaced, same_but_heap, same_value, under,
};
use crate::object::Obj;
use crate::op;
use crate::semantics;
use crate::semantics::{gc, instruction, pops, Arithmetic, State, Step};
use crate::value::Value;
use vstd::prelude::*;

verus! {

/// The instructions for `nil`, `true` and `false` push what they are named
/// after.
pub proof fn law_literals_push_themselves(s: State, b: u8, value: Value)
    requires
        holds(s, 0),
        s.top < 16384,
        (b == op::NIL && value == Value::Nil) || (b == op::TRUE && value == Value::Bool(true)) || (b
            == op::FALSE && value == Value::Bool(false)),
    ensures
        ({
            let o = instruction(s, b);
            &&& done(o)
            &&& replaced(s, o.state, 0, value)
            &&& o.state.frame == s.frame
            &&& else_same(s, o.state)
        }),
{
}

/// A constant is pushed, the one that the byte names.
pub proof fn law_constant_is_pushed(s: State)
    requires
        holds(s, 0),
        s.top < 16384,
        ready(s, 1),
        byte(s, 0) < code(s).constants.len(),
    ensures
        ({
            let o = instruction(s, op::CECILE_CONSTANT);
            &&& done(o)
            &&& replaced(s, o.state, 0, code(s).constants[byte(s, 0) as int])
            &&& o.state.frame == further(s, 1)
            &&& else_same(s, o.state)
        }),
{
}

/// Popping and closing an upvalue take away the topmost value and nothing
/// else.
pub proof fn law_pop_takes_one(s: State, b: u8)
    requires
        holds(s, 1),
        b == op::POP || b == op::CLOSE_UPVALUE,
    ensures
        ({
            let o = instruction(s, b);
            &&& done(o)
            &&& dropped(s, o.state, 1)
            &&& o.state.frame == s.frame
            &&& else_same(s, o.state)
        }),
{
}

/// Printing asks for the topmost value to be printed, with an end of the line
/// or without, and takes it away.
pub proof fn law_print_asks_for_the_topmost(s: State)
    requires
        holds(s, 1),
    ensures
        ({
            let o = instruction(s, op::PRINT);
            &&& asks(o, Step::Print { value: under(s, 0), newline: false })
            &&& dropped(s, o.state, 1)
            &&& o.state.frame == s.frame
            &&& else_same(s, o.state)
        }),
        ({
            let o = instruction(s, op::PRINT_LN);
            &&& asks(o, Step::Print { value: under(s, 0), newline: true })
            &&& dropped(s, o.state, 1)
            &&& o.state.frame == s.frame
            &&& else_same(s, o.state)
        }),
{
}

/// A local is a slot of the frame that runs: it is read without being changed,
/// and written without the topmost value being taken away.
pub proof fn law_locals_are_slots(s: State)
    requires
        holds(s, 0),
        ready(s, 1),
        s.frame.stack + byte(s, 0) < 16384,
    ensures
        s.top < 16384 ==> {
            let o = instruction(s, op::GET_LOCAL);
            &&& done(o)
            &&& replaced(s, o.state, 0, s.stack[s.frame.stack + byte(s, 0)])
            &&& o.state.frame == further(s, 1)
            &&& else_same(s, o.state)
        },
        s.top >= 1 ==> {
            let o = instruction(s, op::SET_LOCAL);
            &&& done(o)
            &&& o.state.stack == s.stack.update(s.frame.stack + byte(s, 0), under(s, 0))
            &&& o.state.top == s.top
            &&& o.state.frame == further(s, 1)
            &&& else_same(s, o.state)
        },
{
}

/// A global has the value that was defined or written last: a definition takes
/// the value away, a write leaves it, and neither touches another global.
pub proof fn law_globals_have_their_values(s: State, name: usize)
    requires
        holds(s, 0),
        names(s, name),
    ensures
        s.top >= 1 ==> {
            let t = instruction(s, op::DEFINE_GLOBAL).state;
            &&& done(instruction(s, op::DEFINE_GLOBAL))
            &&& t.globals == s.globals.insert(name, under(s, 0))
            &&& dropped(s, t, 1)
            &&& t.frame == further(s, 1)
            &&& else_same(s, State { globals: s.globals, ..t })
        },
        s.top >= 1 && s.globals.contains_key(name) ==> {
            let t = instruction(s, op::SET_GLOBAL).state;
            &&& done(instruction(s, op::SET_GLOBAL))
            &&& t.globals == s.globals.insert(name, under(s, 0))
            &&& dropped(s, t, 0)
            &&& t.frame == further(s, 1)
            &&& else_same(s, State { globals: s.globals, ..t })
        },
        s.top < 16384 && s.globals.contains_key(name) ==> {
            let o = instruction(s, op::GET_GLOBAL);
            &&& done(o)
            &&& replaced(s, o.state, 0, s.globals[name])
            &&& o.state.frame == further(s, 1)
            &&& else_same(s, o.state)
        },
        !s.globals.contains_key(name) ==> asks(instruction(s, op::SET_GLOBAL), Step::Stuck)
            && asks(instruction(s, op::GET_GLOBAL), Step::Stuck),
{
}

/// The upvalue that a byte names is the one at that index among those of the
/// closure that runs: it is read without being changed, and written without
/// the topmost value being taken away or another object being touched.
pub proof fn law_upvalues_go_by_their_index(s: State, upvalues: Seq<usize>, held: Value)
    requires
        holds(s, 0),
        ready(s, 1),
        obj(s, s.frame.closure) matches Some(Obj::Closure { upvalues: here, .. }) && here
            == upvalues,
        byte(s, 0) < upvalues.len(),
        obj(s, upvalues[byte(s, 0) as int]) == Some(Obj::Upvalue { value: held }),
    ensures
        s.top < 16384 ==> {
            let o = instruction(s, op::GET_UPVALUE);
            &&& done(o)
            &&& replaced(s, o.state, 0, held)
            &&& o.state.frame == further(s, 1)
            &&& else_same(s, o.state)
        },
        s.top >= 1 ==> {
            let t = instruction(s, op::SET_UPVALUE).state;
            &&& done(instruction(s, op::SET_UPVALUE))
            &&& changed(
                s,
                t,
                upvalues[byte(s, 0) as int],
                Obj::Upvalue { value: under(s, 0) },
            )
            &&& dropped(s, t, 0)
            &&& t.frame == further(s, 1)
            &&& same_but_heap(s, t)
        },
{
}

/// A jump goes on behind its operand and as many bytes further as the operand
/// says, a loop as many bytes back; nothing else changes.
pub proof fn law_jumps_move_the_next_byte(s: State)
    requires
        ready(s, 2),
    ensures
        ready(s, 2 + byte(s, 0) * 256 + byte(s, 1)) ==> {
            let o = instruction(s, op::JUMP);
            &&& done(o)
            &&& o.state == (State { frame: further(s, 2 + byte(s, 0) * 256 + byte(s, 1)), ..s })
        },
        byte(s, 0) * 256 + byte(s, 1) <= s.frame.ip + 2 ==> {
            let o = instruction(s, op::LOOP);
            &&& done(o)
            &&& o.state == (State { frame: further(s, 2 - byte(s, 0) * 256 - byte(s, 1)), ..s })
        },
{
}

/// A conditional jump is taken if and only if the topmost value is `nil` or
/// `false`. Whether it is taken or not, nothing changes but the next byte: the
/// value stays where it is.
pub proof fn law_condition_stays_on_the_stack(s: State)
    requires
        holds(s, 1),
        ready(s, 2),
    ensures
        ({
            let o = instruction(s, op::JUMP_IF_FALSE);
            let taken = under(s, 0) == Value::Nil || under(s, 0) == Value::Bool(false);
            let offset = byte(s, 0) * 256 + byte(s, 1);
            taken ==> ready(s, 2 + offset) ==> {
                &&& done(o)
                &&& o.state.top == s.top
                &&& o.state.stack == s.stack
                &&& else_same(s, o.state)
                &&& o.state.frame.closure == s.frame.closure
                &&& o.state.frame.stack == s.frame.stack
                &&& o.state.frame.ip == s.frame.ip + 2 + offset
            }
        }),
        ({
            let o = instruction(s, op::JUMP_IF_FALSE);
            let taken = under(s, 0) == Value::Nil || under(s, 0) == Value::Bool(false);
            !taken ==> {
                &&& done(o)
                &&& o.state.top == s.top
                &&& o.state.stack == s.stack
                &&& else_same(s, o.state)
                &&& o.state.frame.closure == s.frame.closure
                &&& o.state.frame.stack == s.frame.stack
                &&& o.state.frame.ip == s.frame.ip + 2
            }
        }),
{
}

/// The byte of an operation on numbers, and its sign in an error.
pub open spec fn is_operation(b: u8, operation: Arithmetic, sign: Seq<char>) -> bool {
    ||| b == op::ADD && operation == Arithmetic::Add && sign == "+"@
    ||| b == op::SUB && operation == Arithmetic::Sub && sign == "+"@
    ||| b == op::MUL && operation == Arithmetic::Mul && sign == "+"@
    ||| b == op::DIV && operation == Arithmetic::Div && sign == "+"@
    ||| b == op::MODULO && operation == Arithmetic::Rem && sign == "%"@
}

/// An operation takes two numbers away and asks for itself on them, the one
/// that was pushed first to the left. Of other values it raises the types, in
/// the same order.
pub proof fn law_operations_take_their_operands(
    s: State,
    b: u8,
    operation: Arithmetic,
    sign: Seq<char>,
)
    requires
        holds(s, 2),
        is_operation(b, operation, sign),
    ensures
        under(s, 1) is Number && under(s, 0) is Number ==> asks(
            instruction(s, b),
            Step::Compute {
                op: operation,
                lhs: under(s, 1)->Number_0,
                rhs: under(s, 0)->Number_0,
            },
        ),
        !(under(s, 1) is Number && under(s, 0) is Number) && known(s, 0) && kind(
            s,
            under(s, 1),
        ) is Some && kind(s, under(s, 0)) is Some ==> raises(
            s,
            0,
            instruction(s, b),
            Report::UnsupportedOperandInfix {
                op: sign,
                lt_type: kind(s, under(s, 1))->0,
                rt_type: kind(s, under(s, 0))->0,
            },
        ),
        !asks(instruction(s, b), Step::Stuck) ==> dropped(s, instruction(s, b).state, 2)
            && instruction(s, b).state.frame == s.frame && else_same(s, instruction(s, b).state),
{
}

/// Whether a comparison holds of two numbers.
pub open spec fn is_comparison(b: u8, lhs: int, rhs: int, holds: bool) -> bool {
    ||| b == op::LESS_THAN && holds == (lhs < rhs)
    ||| b == op::LESS_THAN_EQUAL && holds == (lhs <= rhs)
    ||| b == op::GREATER_THAN && holds == (lhs > rhs)
    ||| b == op::GREATER_THAN_EQUAL && holds == (lhs >= rhs)
}

/// A comparison puts its answer in the place of two numbers: whether it holds
/// of what they stand for, the one that was pushed first to the left, and
/// `false` where one of them is no number. Of other values it raises the
/// types.
pub proof fn law_comparisons_answer_for_amounts(s: State, b: u8, answer: bool)
    requires
        holds(s, 2),
        b == op::LESS_THAN || b == op::LESS_THAN_EQUAL || b == op::GREATER_THAN || b
            == op::GREATER_THAN_EQUAL,
    ensures
        under(s, 1) matches Value::Number(x) ==> under(s, 0) matches Value::Number(y) ==> {
            let o = instruction(s, b);
            &&& is_a_number(x) && is_a_number(y) && is_comparison(b, amount(x), amount(y), answer)
                ==> replaced(s, o.state, 2, Value::Bool(answer))
            &&& !is_a_number(x) || !is_a_number(y) ==> replaced(
                s,
                o.state,
                2,
                Value::Bool(false),
            )
            &&& done(o)
            &&& o.state.frame == s.frame
            &&& else_same(s, o.state)
        },
        !(under(s, 1) is Number && under(s, 0) is Number) && known(s, 0) && kind(
            s,
            under(s, 1),
        ) is Some && kind(s, under(s, 0)) is Some ==> raises(
            s,
            0,
            instruction(s, b),
            Report::UnsupportedOperandInfix {
                op: "+"@,
                lt_type: kind(s, under(s, 1))->0,
                rt_type: kind(s, under(s, 0))->0,
            },
        ) && dropped(s, instruction(s, b).state, 2) && else_same(s, instruction(s, b).state),
{
    if let (Value::Number(x), Value::Number(y)) = (under(s, 1), under(s, 0)) {
        law_order_of_numbers(x, y);
        law_order_of_numbers(y, x);
    }
}

/// Equality and its opposite put their answers in the place of two values.
pub proof fn law_equality_answers(s: State)
    requires
        holds(s, 2),
    ensures
        ({
            let o = instruction(s, op::EQUAL);
            &&& done(o)
            &&& replaced(s, o.state, 2, Value::Bool(same_value(under(s, 1), under(s, 0))))
            &&& o.state.frame == s.frame
            &&& else_same(s, o.state)
        }),
        ({
            let o = instruction(s, op::NOT_EQUAL);
            &&& done(o)
            &&& replaced(s, o.state, 2, Value::Bool(!same_value(under(s, 1), under(s, 0))))
            &&& o.state.frame == s.frame
            &&& else_same(s, o.state)
        }),
{
    if let (Value::Number(x), Value::Number(y)) = (under(s, 1), under(s, 0)) {
        law_order_of_numbers(x, y);
        law_order_of_numbers(y, x);
    }
}

/// A negation puts the opposite in the place of a number.
pub proof fn law_negation_gives_the_opposite(s: State)
    requires
        holds(s, 1),
        under(s, 0) is Number,
    ensures
        ({
            let o = instruction(s, op::NEG);
            let x = under(s, 0)->Number_0;
            &&& done(o)
            &&& o.state.top == s.top
            &&& under(o.state, 0) matches Value::Number(y) && {
                &&& amount(y) == -amount(x)
                &&& is_a_number(y) == is_a_number(x)
                &&& (y < 0x8000_0000_0000_0000) != (x < 0x8000_0000_0000_0000)
                &&& y as int % 0x8000_0000_0000_0000 == x as int % 0x8000_0000_0000_0000
            }
            &&& replaced(s, o.state, 1, under(o.state, 0))
            &&& o.state.frame == s.frame
            &&& else_same(s, o.state)
        }),
{
    law_negated_number(under(s, 0)->Number_0);
}

/// Two strings are joined, the one that was pushed first in front: the joined
/// string comes in their place. Of other objects the types are raised.
pub proof fn law_strings_are_joined(s: State, left: usize, right: usize)
    requires
        holds(s, 2),
        under(s, 1) == Value::Object(left),
        under(s, 0) == Value::Object(right),
        s.heap.len() <= usize::MAX,
    ensures
        obj(s, left) matches Some(Obj::String { text: a }) ==> obj(s, right) matches Some(
            Obj::String { text: b },
        ) ==> {
            let o = instruction(s, op::CONCAT);
            &&& done(o)
            &&& under(o.state, 0) matches Value::Object(place) && made(
                s,
                o.state,
                Obj::String { text: a + b },
                place,
            )
            &&& replaced(s, o.state, 2, under(o.state, 0))
            &&& o.state.frame == s.frame
            &&& same_but_heap(s, o.state)
        },
        obj(s, left) is Some && obj(s, right) is Some && !(obj(s, left)->0 is String && obj(
            s,
            right,
        )->0 is String) && known(s, 0) ==> raises(
            s,
            0,
            instruction(s, op::CONCAT),
            Report::UnsupportedOperandInfix {
                op: "+"@,
                lt_type: kind(s, under(s, 1))->0,
                rt_type: kind(s, under(s, 0))->0,
            },
        ) && dropped(s, instruction(s, op::CONCAT).state, 2) && else_same(
            s,
            instruction(s, op::CONCAT).state,
        ),
{
    if let (Some(Obj::String { text: a }), Some(Obj::String { text: b })) = (
        obj(s, left),
        obj(s, right),
    ) {
        lemma_made(s, pops(s, 2), Obj::String { text: a + b });
    }
}

/// Adding an object to a state with the same roots makes it.
pub proof fn lemma_made(s: State, u: State, new: Obj)
    requires
        s.heap == u.heap,
        s.globals == u.globals,
        s.frame.closure == u.frame.closure,
        s.frames == u.frames,
        s.open_upvalues == u.open_upvalues,
        s.heap.len() <= usize::MAX,
    ensures
        made(s, semantics::allocated(u, new), new, semantics::allocated_at(u, new)),
{
    lemma_same_roots(s, u);
    let cells = gc(s).heap;
    assert(cells == gc(u).heap);
    law_added_is_there(cells, new);
    if new is String {
        if has_string(gc(s), new->text) {
            let i = choose|i: int|
                0 <= i < cells.len() && #[trigger] cells[i] == Some(
                    Obj::String { text: new->text },
                );
            assert(has_text(cells, i, new->text));
            assert(is_known(cells, new));
            let j = choose|j: int| has_text(cells, j, new->text);
            assert(has_text(cells, j, new->text));
        } else if is_known(cells, new) {
            let j = choose|j: int| has_text(cells, j, new->text);
            assert(cells[j] == Some(Obj::String { text: new->text }));
            assert(false);
        }
    }
}

} // verus!
