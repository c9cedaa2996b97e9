//! Layout of a compiled function's stack frame: below the saved frame
//! pointer come the arguments, then one 8-byte slot per register.
use vstd::prelude::*;
use crate::model::function::Function;
use crate::mir::compiler::MIRCompilationResult;

verus! {

/// The size of a stack slot, in bytes.
pub const STACK_ENTRY_SIZE: i32 = 8;

/// Slots between the frame pointer and the first argument.
pub const STACK_OFFSET: u32 = 1;

/// Integer division rounding toward zero, as machine division does.
pub open spec fn div_toward_zero(a: int, b: int) -> int {
    if a >= 0 {
        a / b
    } else {
        -((-a) / b)
    }
}

/// `size` rounded up to a multiple of 16 (toward zero for negative sizes).
pub open spec fn aligned_size(size: int) -> int {
    div_toward_zero(size + 15, 16) * 16
}

pub fn align_size(size: i32) -> (r: i32)
    requires
        size <= i32::MAX - 15,
    ensures
        r == aligned_size(size as int),
{
    let q = (size + 15) / 16;
    assert(q == div_toward_zero(size + 15, 16));
    assert(-134217728 <= q <= 134217727);
    q * 16
}

/// The bytes that the arguments and registers need.
pub open spec fn needed_stack_size_spec(num_parameters: int, num_virtual_registers: int) -> int {
    (num_parameters + num_virtual_registers) * 8
}

pub fn needed_stack_size(function: &Function, compilation_result: &MIRCompilationResult) -> (r: i32)
    requires
        function.spec_declaration().spec_parameters().len() + compilation_result.num_virtual_registers <= 268_435_455,
    ensures
        r == needed_stack_size_spec(
            function.spec_declaration().spec_parameters().len() as int,
            compilation_result.num_virtual_registers as int,
        ),
{
    let count = function.declaration().parameters().len() + compilation_result.num_virtual_registers;
    (count as i32) * 8
}

/// The size of the frame: the needed bytes rounded up to a multiple of 16.
pub fn stack_size(function: &Function, compilation_result: &MIRCompilationResult) -> (r: i32)
    requires
        function.spec_declaration().spec_parameters().len() + compilation_result.num_virtual_registers <= 268_435_454,
    ensures
        r == aligned_size(
            needed_stack_size_spec(
                function.spec_declaration().spec_parameters().len() as int,
                compilation_result.num_virtual_registers as int,
            ),
        ),
{
    align_size(needed_stack_size(function, compilation_result))
}

/// The offset from the frame pointer of argument `index`.
pub fn argument_stack_offset(_function: &Function, index: u32) -> (r: i32)
    requires
        index < 268_435_456,
    ensures
        r == -8 * (1 + index),
{
    let slots = (1 + index) as i32;
    0 - 8 * (slots - 1) - 8
}

/// The offset from the frame pointer of local `index`.
pub fn local_stack_offset(function: &Function, index: u32) -> (r: i32)
    requires
        function.spec_declaration().spec_parameters().len() + index < 268_435_456,
    ensures
        r == -8 * (1 + function.spec_declaration().spec_parameters().len() + index),
{
    let num_parameters = function.declaration().parameters().len() as u32;
    let slots = (1 + num_parameters + index) as i32;
    0 - 8 * (slots - 1) - 8
}

/// The offset from the frame pointer of operand stack slot `index`.
pub fn operand_stack_offset(function: &Function, index: u32) -> (r: i32)
    requires
        function.spec_declaration().spec_parameters().len() + function.spec_locals().len() + index < 268_435_456,
    ensures
        r == -8 * (1 + function.spec_declaration().spec_parameters().len() + function.spec_locals().len() + index),
{
    let num_parameters = function.declaration().parameters().len() as i32;
    let num_locals = function.locals().len() as i32;
    let slots = 1 + num_parameters + num_locals + index as i32;
    0 - 8 * (slots - 1) - 8
}

/// The offset from the frame pointer of the slot of register `number`.
pub fn virtual_register_stack_offset(function: &Function, number: u32) -> (r: i32)
    requires
        function.spec_declaration().spec_parameters().len() + number < 268_435_456,
    ensures
        r == -8 * (1 + function.spec_declaration().spec_parameters().len() + number),
{
    let num_parameters = function.declaration().parameters().len() as u32;
    let slots = (1 + num_parameters + number) as i32;
    0 - 8 * (slots - 1) - 8
}

/// The offset of value `value_index` pushed below the frame.
pub fn stack_value_offset(function: &Function, compilation_result: &MIRCompilationResult, value_index: u32) -> (r: i32)
    requires
        function.spec_declaration().spec_parameters().len() + compilation_result.num_virtual_registers <= 268_435_454,
        aligned_size(
            needed_stack_size_spec(
                function.spec_declaration().spec_parameters().len() as int,
                compilation_result.num_virtual_registers as int,
            ),
        ) / 8 + value_index < 268_435_456,
    ensures
        r == -8 * (1 + aligned_size(
            needed_stack_size_spec(
                function.spec_declaration().spec_parameters().len() as int,
                compilation_result.num_virtual_registers as int,
            ),
        ) / 8 + value_index),
{
    let size = stack_size(function, compilation_result);
    let frame_slots = (size / 8) as u32;
    let slots = (1 + frame_slots + value_index) as i32;
    0 - 8 * (slots - 1) - 8
}


/// The frame is the needed size rounded up to the next multiple of 16 (the
/// stack alignment of calls), and every slot of an argument or a register,
/// the `k`-th at offset `-8 * (1 + k)`, lies within it.
pub proof fn law_frame_holds_slots(num_parameters: int, num_virtual_registers: int, k: int)
    requires
        0 <= num_parameters,
        0 <= num_virtual_registers,
        0 <= k < num_parameters + num_virtual_registers,
    ensures
        ({
            let needed = needed_stack_size_spec(num_parameters, num_virtual_registers);
            let size = aligned_size(needed);
            &&& size % 16 == 0
            &&& needed <= size < needed + 16
            &&& -size <= -8 * (1 + k) <= -8
        }),
{
    let needed = needed_stack_size_spec(num_parameters, num_virtual_registers);
    assert(needed >= 0) by (nonlinear_arith)
        requires
            needed == (num_parameters + num_virtual_registers) * 8,
            0 <= num_parameters,
            0 <= num_virtual_registers,
    ;
    assert(8 * (1 + k) <= needed) by (nonlinear_arith)
        requires
            needed == (num_parameters + num_virtual_registers) * 8,
            0 <= k < num_parameters + num_virtual_registers,
    ;
    let q = (needed + 15) / 16;
    assert(aligned_size(needed) == q * 16);
    assert(q * 16 % 16 == 0) by (nonlinear_arith);
    assert(needed <= q * 16 < needed + 16) by (nonlinear_arith)
        requires
            q == (needed + 15) / 16,
            needed >= 0,
    ;
}

} // verus!
