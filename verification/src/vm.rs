//! Bytecode, runtime values and the stack machine that executes them.

pub mod bytecode;
pub mod calls;
pub mod checked;
pub mod compiler;
pub mod jumps;
pub mod lowering;
pub mod model;
pub mod safety;
pub mod scope;
pub mod scoping;
pub mod stacking;
pub mod value;
pub mod vm;
