//! `Float` arguments are passed in the first eight float argument
//! registers; the others go on the stack.
use vstd::prelude::*;
use crate::compiler::ir::HardwareRegisterExplicit;
use crate::model::typesystem::{TypeId, TypeIdView, types_view};

verus! {

/// The number of float argument registers.
pub const NUM_ARGUMENTS: usize = 8;

/// The number of parameters among the first `n` that are `Float`.
pub open spec fn float_count(parameters: Seq<TypeIdView>, n: int) -> nat
    decreases n,
{
    if n <= 0 {
        0
    } else {
        float_count(parameters, n - 1) + if parameters[n - 1] is Float32 {
            1nat
        } else {
            0nat
        }
    }
}

/// The position of argument `argument_index` among the float arguments:
/// how many parameters before it are `Float`.
pub fn get_relative_index(parameters: &Vec<TypeId>, argument_index: usize) -> (r: usize)
    ensures
        r == float_count(
            types_view(parameters@),
            if argument_index < parameters@.len() {
                argument_index as int
            } else {
                parameters@.len() as int
            },
        ),
{
    let mut float_argument_index: usize = 0;
    let mut index: usize = 0;
    while index < parameters.len() && index < argument_index
        invariant
            index <= parameters@.len(),
            index <= argument_index,
            float_argument_index == float_count(types_view(parameters@), index as int),
            float_argument_index <= index,
        decreases parameters@.len() - index,
    {
        match &parameters[index] {
            TypeId::Float32 => {
                float_argument_index = float_argument_index + 1;
            },
            _ => {},
        }
        index = index + 1;
    }
    float_argument_index
}

/// The float argument register at position `index`.
pub open spec fn argument_register(index: int) -> HardwareRegisterExplicit {
    if index == 0 {
        HardwareRegisterExplicit::Xmm0
    } else if index == 1 {
        HardwareRegisterExplicit::Xmm1
    } else if index == 2 {
        HardwareRegisterExplicit::Xmm2
    } else if index == 3 {
        HardwareRegisterExplicit::Xmm3
    } else if index == 4 {
        HardwareRegisterExplicit::Xmm4
    } else if index == 5 {
        HardwareRegisterExplicit::Xmm5
    } else if index == 6 {
        HardwareRegisterExplicit::Xmm6
    } else {
        HardwareRegisterExplicit::Xmm7
    }
}

/// The float argument register at position `index`.
pub fn get_argument(index: usize) -> (r: HardwareRegisterExplicit)
    requires
        index < NUM_ARGUMENTS,
    ensures
        r == argument_register(index as int),
{
    if index == 0 {
        HardwareRegisterExplicit::Xmm0
    } else if index == 1 {
        HardwareRegisterExplicit::Xmm1
    } else if index == 2 {
        HardwareRegisterExplicit::Xmm2
    } else if index == 3 {
        HardwareRegisterExplicit::Xmm3
    } else if index == 4 {
        HardwareRegisterExplicit::Xmm4
    } else if index == 5 {
        HardwareRegisterExplicit::Xmm5
    } else if index == 6 {
        HardwareRegisterExplicit::Xmm6
    } else {
        HardwareRegisterExplicit::Xmm7
    }
}

} // verus!
