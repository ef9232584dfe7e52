//! The bytes that stand for the instructions.
use vstd::prelude::*;

verus! {

pub const ARRAY_ACCESS: u8 = 0;

pub const ARRAY_ACCESS_ASSIGN: u8 = 1;

pub const ARRAY: u8 = 2;

pub const GET_ARRAY: u8 = 3;

pub const GET_SUPER: u8 = 4;

pub const INHERIT: u8 = 5;

pub const SUPER_INVOKE: u8 = 6;

pub const INVOKE: u8 = 7;

pub const SET_FIELD: u8 = 8;

pub const GET_FIELD: u8 = 9;

pub const FIELD: u8 = 10;

pub const STRUCT: u8 = 11;

pub const METHOD: u8 = 12;

pub const CECILE_CONSTANT: u8 = 13;

pub const ADD: u8 = 14;

pub const CONCAT: u8 = 15;

pub const SUB: u8 = 16;

pub const MUL: u8 = 17;

pub const DIV: u8 = 18;

pub const EQUAL: u8 = 19;

pub const NOT_EQUAL: u8 = 20;

pub const NEG: u8 = 21;

pub const MODULO: u8 = 22;

pub const GREATER_THAN: u8 = 23;

pub const GREATER_THAN_EQUAL: u8 = 24;

pub const PRINT: u8 = 25;

pub const PRINT_LN: u8 = 26;

pub const CALL: u8 = 27;

pub const CLOSURE: u8 = 28;

pub const LOOP: u8 = 29;

pub const JUMP: u8 = 30;

pub const JUMP_IF_FALSE: u8 = 31;

pub const GET_LOCAL: u8 = 32;

pub const SET_LOCAL: u8 = 33;

pub const SET_UPVALUE: u8 = 34;

pub const GET_UPVALUE: u8 = 35;

pub const SET_GLOBAL: u8 = 36;

pub const LESS_THAN: u8 = 37;

pub const LESS_THAN_EQUAL: u8 = 38;

pub const GET_GLOBAL: u8 = 39;

pub const DEFINE_GLOBAL: u8 = 40;

pub const TRUE: u8 = 41;

pub const FALSE: u8 = 42;

pub const NIL: u8 = 43;

pub const CLOSE_UPVALUE: u8 = 44;

pub const POP: u8 = 45;

pub const RETURN: u8 = 46;

} // verus!
