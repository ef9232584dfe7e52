//! The machine: how it is set up, and how it runs.
use crate::error::ErrorS;
use crate::frame::{clear_frames, no_frames, CallFrame};
use crate::heap::Heap;
use crate::number;
use crate::object::{ClosureObject, Native, Object, StringObject};
use crate::op;
use crate::random::random_in;
use crate::semantics;
use crate::semantics::{advance, agrees, are_rolls, Outcome, State, Step, FIRST_GC, STACK_MAX};
use crate::table::Table;
use crate::value::Value;
use crate::vm::VM;
use vstd::prelude::*;

verus! {

/// Whether [`VM::run`] did what it was to do; an error that was raised stands
/// alone. Of the state in which a program got stuck nothing is said.
pub open spec fn run_agrees(
    state: State,
    result: Result<Step, Vec<ErrorS>>,
    outcome: Outcome,
) -> bool {
    match result {
        Ok(step) => agrees(state, Ok(step), outcome),
        Err(errors) => errors@.len() == 1 && agrees(state, Err(errors@[0]), outcome),
    }
}

impl VM {
    /// A machine over a heap.
    pub fn new(allocator: Heap) -> (vm: VM)
        requires
            allocator.wf(),
        ensures
            vm.wf(),
            vm@ == semantics::fresh(allocator@),
    {
        let mut allocator = allocator;
        let mut globals = Table::with_capacity(256);
        let clock_string: usize = allocator.allocate(
            Object::String(StringObject { value: "clock".to_string() }),
        );
        let random_number: usize = allocator.allocate(
            Object::String(StringObject { value: "random_number".to_string() }),
        );
        let clock_native: usize = allocator.allocate(Object::Native(Native::Clock));
        let random_number_native: usize = allocator.allocate(Object::Native(Native::RandomNumber));
        let struct_init_method: usize = allocator.allocate(
            Object::String(StringObject { value: "new".to_string() }),
        );
        globals.insert(clock_string, Value::Object(clock_native));
        globals.insert(random_number, Value::Object(random_number_native));
        let stack = vec![Value::Nil; STACK_MAX];
        VM {
            stack_top: 0,
            stack,
            frames: no_frames(),
            frame: CallFrame { closure: usize::MAX, ip: 0, stack: 0 },
            allocator,
            next_gc: FIRST_GC,
            globals,
            open_upvalues: Vec::new(),
            struct_init_method,
        }
    }

    /// Does what the instruction with the byte does, once the byte has been
    /// read.
    fn instruction(&mut self, byte: u8) -> (result: Result<Step, ErrorS>)
        requires
            old(self).wf(),
        ensures
            final(self).wf(),
            agrees(final(self)@, result, semantics::instruction(old(self)@, byte)),
    {
        match byte {
            op::ARRAY_ACCESS => self.op_array_access(),
            op::ARRAY_ACCESS_ASSIGN => self.op_array_access_assign(),
            op::ARRAY => if self.array_is_given() {
                self.op_array()
            } else {
                Ok(Step::Stuck)
            },
            op::GET_ARRAY => self.op_get_array(),
            op::GET_SUPER => self.op_get_super(),
            op::INHERIT => self.op_inherit(),
            op::SUPER_INVOKE => self.op_super_invoke(),
            op::INVOKE => self.op_invoke(),
            op::SET_FIELD => self.op_set_field(),
            op::GET_FIELD => self.op_get_field(),
            op::FIELD => self.op_field(),
            op::STRUCT => self.op_cstruct(),
            op::METHOD => self.op_method(),
            op::CECILE_CONSTANT => self.c_constant(),
            op::ADD => self.op_binary_add(),
            op::CONCAT => self.op_concat(),
            op::SUB => self.sub(),
            op::MUL => self.mul(),
            op::DIV => self.div(),
            op::EQUAL => self.equal(),
            op::NOT_EQUAL => self.not_equal(),
            op::NEG => self.negate(),
            op::MODULO => self.modulo(),
            op::GREATER_THAN => self.greater(),
            op::GREATER_THAN_EQUAL => self.greater_equal(),
            op::PRINT => self.op_print(),
            op::PRINT_LN => self.op_print_ln(),
            op::CALL => self.call(),
            op::CLOSURE => self.closure(),
            op::LOOP => self.loop_(),
            op::JUMP => self.jump(),
            op::JUMP_IF_FALSE => self.jump_if_false(),
            op::GET_LOCAL => self.get_local(),
            op::SET_LOCAL => self.set_local(),
            op::SET_UPVALUE => self.set_upvalue(),
            op::GET_UPVALUE => self.get_upvalue(),
            op::SET_GLOBAL => self.set_global(),
            op::LESS_THAN => self.less(),
            op::LESS_THAN_EQUAL => self.less_equal(),
            op::GET_GLOBAL => self.get_global(),
            op::DEFINE_GLOBAL => self.define_global(),
            op::TRUE => self.op_true(),
            op::FALSE => self.op_false(),
            op::NIL => self.op_nil(),
            op::CLOSE_UPVALUE => self.close_upvalue(),
            op::POP => self.op_pop(),
            op::RETURN => self.op_return(),
            _ => Ok(Step::Stuck),
        }
    }

    /// Does the instruction at hand, up to the point at which something from
    /// outside is needed.
    pub fn dispatch(&mut self) -> (result: Result<Step, ErrorS>)
        requires
            old(self).wf(),
        ensures
            final(self).wf(),
            agrees(final(self)@, result, semantics::dispatch(old(self)@)),
    {
        if !self.operands(1) {
            return Ok(Step::Stuck);
        }
        let byte: u8 = self.read_u8();
        self.instruction(byte)
    }

    /// Pushes a random number that has come out.
    pub fn push_random(&mut self, roll: u64) -> (result: Result<Step, ErrorS>)
        requires
            old(self).wf(),
        ensures
            final(self).wf(),
            agrees(
                final(self)@,
                result,
                semantics::push(old(self)@, Value::Number(number::spec_from_count(roll))),
            ),
    {
        self.push_checked(Value::Number(number::from_count(roll)))
    }

    /// Does the instruction at hand, with a random number from 1 to 100 where
    /// it asks for one.
    pub fn step(&mut self) -> (result: Result<Step, ErrorS>)
        requires
            old(self).wf(),
        ensures
            final(self).wf(),
            exists|roll: u64|
                1 <= roll <= 100 && agrees(
                    final(self)@,
                    result,
                    #[trigger] semantics::step(old(self)@, roll),
                ),
    {
        match self.dispatch() {
            Ok(Step::Random) => {
                let roll: u64 = random_in(1, 100);
                let result = self.push_random(roll);
                assert(agrees(self@, result, semantics::step(old(self)@, roll)));
                result
            },
            result => {
                assert(agrees(self@, result, semantics::step(old(self)@, 1)));
                result
            },
        }
    }

    /// Runs on for so many instructions, or until the program ends, raises an
    /// error, gets stuck or asks for something. The answer to what it asked
    /// for is to be pushed before it is resumed.
    pub fn resume(&mut self, count: usize) -> (result: Result<Step, ErrorS>)
        requires
            old(self).wf(),
        ensures
            final(self).wf(),
            exists|rolls: Seq<u64>| #[trigger]
                are_rolls(rolls, count as nat) && agrees(
                    final(self)@,
                    result,
                    advance(old(self)@, rolls),
                ),
    {
        let ghost rolls = Seq::<u64>::empty();
        let mut done: usize = 0;
        proof {
            assert forall|rest: Seq<u64>| are_rolls(rest, count as nat) implies #[trigger] advance(
                self@,
                rolls + rest,
            ) == advance(self@, rest) by {
                assert(rolls + rest =~= rest);
            }
        }
        while done < count
            invariant
                self.wf(),
                done <= count,
                are_rolls(rolls, done as nat),
                forall|rest: Seq<u64>|
                    are_rolls(rest, (count - done) as nat) ==> #[trigger] advance(
                        old(self)@,
                        rolls + rest,
                    ) == advance(self@, rest),
            decreases count - done,
        {
            let ghost s = self@;
            let result = self.step();
            let ghost roll = choose|roll: u64|
                1 <= roll <= 100 && agrees(self@, result, #[trigger] semantics::step(s, roll));
            let ghost longer = rolls.push(roll);
            proof {
                assert forall|rest: Seq<u64>|
                    are_rolls(rest, (count - done - 1) as nat) implies advance(
                    old(self)@,
                    #[trigger] (longer + rest),
                ) == advance(s, seq![roll] + rest) by {
                    let later = seq![roll] + rest;
                    assert(are_rolls(later, (count - done) as nat));
                    assert(longer + rest =~= rolls + later);
                }
            }
            match result {
                Ok(Step::Next) => {},
                _ => {
                    proof {
                        let rest = Seq::new((count - done - 1) as nat, |i: int| 1u64);
                        assert(are_rolls(rest, (count - done - 1) as nat));
                        assert(are_rolls(longer + rest, count as nat));
                        assert((seq![roll] + rest)[0] == roll);
                    }
                    return result;
                },
            }
            proof {
                assert forall|rest: Seq<u64>|
                    are_rolls(rest, (count - done - 1) as nat) implies #[trigger] advance(
                    old(self)@,
                    longer + rest,
                ) == advance(self@, rest) by {
                    let later = seq![roll] + rest;
                    assert(later[0] == roll);
                    assert(later.drop_first() =~= rest);
                }
                rolls = longer;
            }
            done = done + 1;
        }
        proof {
            let none = Seq::<u64>::empty();
            assert(are_rolls(none, 0));
            assert(advance(old(self)@, rolls + none) == advance(self@, none));
            assert(rolls + none =~= rolls);
        }
        Ok(Step::Next)
    }

    /// Begins to run a function.
    pub fn start(&mut self, function: usize)
        requires
            old(self).wf(),
        ensures
            final(self).wf(),
            final(self)@ == semantics::started(old(self)@, function),
    {
        self.stack_top = 0;
        clear_frames(&mut self.frames);
        let upvalues: Vec<usize> = Vec::new();
        let closure: usize = self.allocator.allocate(
            Object::Closure(ClosureObject { function, upvalues }),
        );
        self.frame = CallFrame { closure, ip: 0, stack: 0 };
    }

    /// Runs a function for so many instructions, or until the program ends,
    /// raises an error, gets stuck or asks for something; [`VM::resume`] goes
    /// on from there.
    pub fn run_function(&mut self, function: usize, count: usize) -> (result: Result<Step, ErrorS>)
        requires
            old(self).wf(),
        ensures
            final(self).wf(),
            exists|rolls: Seq<u64>| #[trigger]
                are_rolls(rolls, count as nat) && agrees(
                    final(self)@,
                    result,
                    advance(semantics::started(old(self)@, function), rolls),
                ),
    {
        self.start(function);
        self.resume(count)
    }

    /// Runs what a compiler made of a program. The errors of the compiler come
    /// back as they are, and nothing is run then.
    pub fn run(&mut self, compiled: Result<usize, Vec<ErrorS>>, count: usize) -> (result: Result<
        Step,
        Vec<ErrorS>,
    >)
        requires
            old(self).wf(),
        ensures
            final(self).wf(),
            match compiled {
                Ok(function) => exists|rolls: Seq<u64>| #[trigger]
                    are_rolls(rolls, count as nat) && run_agrees(
                        final(self)@,
                        result,
                        advance(semantics::started(old(self)@, function), rolls),
                    ),
                Err(errors) => result == Err::<Step, Vec<ErrorS>>(errors) && final(self)@ == old(
                    self,
                )@,
            },
    {
        match compiled {
            Ok(function) => match self.run_function(function, count) {
                Ok(step) => Ok(step),
                Err(error) => Err(vec![error]),
            },
            Err(errors) => Err(errors),
        }
    }
}

} // verus!
