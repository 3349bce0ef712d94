//! A small bytecode virtual machine: a slot-addressed value stack with linked
//! call frames, an interpreter over a fixed instruction set, and a debugger
//! that drives the interpreter step by step.

pub mod fault;
pub mod opcodes;
pub mod runtime;
pub mod util;
pub mod value;
