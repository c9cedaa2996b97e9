//! The parts of the native-code compiler that do not depend on the target
//! instruction encoder: machine names, calling conventions, stack layout,
//! the lowering of MIR to the low-level representation (with every
//! register in its stack slot, or after register allocation) and the
//! bookkeeping of executable memory.
use vstd::prelude::*;
use crate::model::function::FunctionSignature;

pub mod ir;
pub mod stack_layout;
pub mod calling_conventions;
pub mod register_call_arguments;
pub mod float_register_call_arguments;
pub mod temp_registers;
pub mod allocator;
pub mod allocated_compiler;
pub mod frame_compiler;

verus! {

/// How a call instruction addresses its target.
#[derive(Clone, Copy, Debug, PartialEq, Eq, Structural)]
pub enum FunctionCallType {
    Relative,
    Absolute,
}

/// The machine code of a function and, for each of its instructions, the
/// offset where its code starts.
pub struct CodeGeneratorResult {
    pub code_bytes: Vec<u8>,
    pub instructions_offsets: Vec<(usize, usize)>,
}

/// A call in generated code whose target address is filled in once the
/// callee has been compiled.
pub struct UnresolvedFunctionCall {
    pub call_type: FunctionCallType,
    pub call_offset: usize,
    pub signature: FunctionSignature,
}

} // verus!
