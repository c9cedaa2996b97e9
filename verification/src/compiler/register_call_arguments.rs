//! Integer (and reference) arguments are passed in the first six integer
//! argument registers; the others go on the stack.
use vstd::prelude::*;
use crate::compiler::ir::HardwareRegisterExplicit;
use crate::model::typesystem::{TypeId, TypeIdView, types_view};

verus! {

/// The number of integer argument registers.
pub const NUM_ARGUMENTS: usize = 6;

/// The number of parameters among the first `n` that are not `Float`.
pub open spec fn non_float_count(parameters: Seq<TypeIdView>, n: int) -> nat
    decreases n,
{
    if n <= 0 {
        0
    } else {
        non_float_count(parameters, n - 1) + if parameters[n - 1] is Float32 {
            0nat
        } else {
            1nat
        }
    }
}

/// The position of argument `argument_index` among the integer arguments:
/// how many parameters before it are not `Float`.
pub fn get_relative_index(parameters: &Vec<TypeId>, argument_index: usize) -> (r: usize)
    ensures
        r == non_float_count(
            types_view(parameters@),
            if argument_index < parameters@.len() {
                argument_index as int
            } else {
                parameters@.len() as int
            },
        ),
{
    let mut relative_argument_index: usize = 0;
    let mut index: usize = 0;
    while index < parameters.len() && index < argument_index
        invariant
            index <= parameters@.len(),
            index <= argument_index,
            relative_argument_index == non_float_count(types_view(parameters@), index as int),
            relative_argument_index <= index,
        decreases parameters@.len() - index,
    {
        match &parameters[index] {
            TypeId::Float32 => {},
            _ => {
                relative_argument_index = relative_argument_index + 1;
            },
        }
        index = index + 1;
    }
    relative_argument_index
}

/// The integer argument register at position `index`.
pub open spec fn argument_register(index: int) -> HardwareRegisterExplicit {
    if index == 0 {
        HardwareRegisterExplicit::Rdi
    } else if index == 1 {
        HardwareRegisterExplicit::Rsi
    } else if index == 2 {
        HardwareRegisterExplicit::Rdx
    } else if index == 3 {
        HardwareRegisterExplicit::Rcx
    } else if index == 4 {
        HardwareRegisterExplicit::R8
    } else {
        HardwareRegisterExplicit::R9
    }
}

/// The integer argument register at position `index`.
pub fn get_argument(index: usize) -> (r: HardwareRegisterExplicit)
    requires
        index < NUM_ARGUMENTS,
    ensures
        r == argument_register(index as int),
{
    if index == 0 {
        HardwareRegisterExplicit::Rdi
    } else if index == 1 {
        HardwareRegisterExplicit::Rsi
    } else if index == 2 {
        HardwareRegisterExplicit::Rdx
    } else if index == 3 {
        HardwareRegisterExplicit::Rcx
    } else if index == 4 {
        HardwareRegisterExplicit::R8
    } else {
        HardwareRegisterExplicit::R9
    }
}

} // verus!
