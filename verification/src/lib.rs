//! A small stack-based virtual machine front end: a type system, a textual
//! assembly parser, a bytecode verifier, a translation into a register based
//! intermediate form (MIR), and the analyses and optimizations that run on
//! it (basic blocks, control flow, liveness, null-check elision, peephole
//! rewriting and linear-scan register allocation).
#![allow(unused_imports)]

pub mod text;
pub mod model;
pub mod parser;
pub mod compiler;
pub mod mir;
pub mod analysis;
pub mod optimization;
pub mod engine;
