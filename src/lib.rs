//! Back end of a small stack language: a single-pass compiler from an
//! expression tree to bytecode, and a stack machine that runs the bytecode.
pub mod bytecode;
pub mod vm;
pub mod ir;
