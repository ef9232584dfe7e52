//! What holds of the machine as a whole.
pub mod afresh;
pub mod calls;
pub mod closures;
pub mod collection;
pub mod doubles;
pub mod effects;
pub mod invocations;
pub mod members;
pub mod memory;
pub mod objects;
pub mod plain;
pub mod running;
pub mod steps;
pub mod unchanged;
pub mod variables;
pub mod views;
