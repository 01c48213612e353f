//! Runtime core of a small Lisp-family language: a stack-based bytecode
//! virtual machine with tagged values, an append-only object heap,
//! closures with captured upvalues, and a tree-walking reference
//! evaluator.
#![verifier::loop_isolation(false)]

pub mod static_stack;
pub mod bytecode;
pub mod value;
pub mod fmt;
pub mod vm;
pub mod sexpr;
pub mod evaluator;
