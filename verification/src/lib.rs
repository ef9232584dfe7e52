//! A virtual machine for compiled programs.
//!
//! [`semantics`] says what each instruction does, [`vm`] does it, and [`laws`]
//! states what follows for the machine as a whole.
pub mod error;
pub mod frame;
pub mod heap;
pub mod laws;
pub mod number;
pub mod object;
pub mod op;
mod random;
pub mod semantics;
pub mod table;
pub mod value;
pub mod vm;
