//! Which arguments of a call go in registers and which on the stack.
use vstd::prelude::*;
use crate::model::typesystem::{TypeId, TypeIdView, types_view};
use crate::model::function::{Function, FunctionDeclaration};
use crate::compiler::register_call_arguments;
use crate::compiler::register_call_arguments::non_float_count;
use crate::compiler::float_register_call_arguments;
use crate::compiler::float_register_call_arguments::float_count;
use crate::compiler::ir::{HardwareRegisterExplicit, InstructionIR, Variable, move_to_explicit_spec, move_from_explicit_spec, move_to_stack_spec, return_register, get_return_register};
use crate::compiler::stack_layout;
use crate::model::function::FunctionSignature;

verus! {

/// Whether parameter `i` is passed on the stack: its position among the
/// parameters of its kind is past the argument registers of that kind.
pub open spec fn passed_on_stack(parameters: Seq<TypeIdView>, i: int) -> bool {
    if parameters[i] is Float32 {
        float_count(parameters, i) >= 8
    } else {
        non_float_count(parameters, i) >= 6
    }
}

/// How many of the first `n` parameters are passed on the stack.
pub open spec fn stack_argument_count(parameters: Seq<TypeIdView>, n: int) -> nat
    decreases n,
{
    if n <= 0 {
        0
    } else {
        stack_argument_count(parameters, n - 1) + if passed_on_stack(parameters, n - 1) {
            1nat
        } else {
            0nat
        }
    }
}

/// The instructions that pass argument `k` from `source`: into its
/// argument register, or pushed on the stack.
pub open spec fn argument_passing(parameters: Seq<TypeIdView>, k: int, source: Variable) -> Seq<InstructionIR> {
    match call_register(parameters, k, parameters[k]) {
        Some(x) => seq![move_to_explicit_spec(source, x)],
        None => move_to_stack_spec(source),
    }
}

/// The instructions that pass the first `k` arguments, last first.
pub open spec fn arguments_passing(parameters: Seq<TypeIdView>, sources: Seq<Variable>, k: int) -> Seq<InstructionIR>
    decreases k,
{
    if k <= 0 {
        Seq::empty()
    } else {
        argument_passing(parameters, k - 1, sources[k - 1]) + arguments_passing(parameters, sources, k - 1)
    }
}

/// The instructions that store argument `k` of `f`, on entry, in its slot:
/// from its argument register, or from the caller's stack through RAX.
pub open spec fn argument_arrival(f: Function, k: int) -> Seq<InstructionIR> {
    let parameters = types_view(f.spec_declaration().spec_parameters());
    let offset = (-8 * (1 + k)) as i32;
    match call_register(parameters, k, parameters[k]) {
        Some(x) => seq![InstructionIR::StoreFrameMemoryExplicit(offset, x)],
        None => seq![
            InstructionIR::LoadFrameMemoryExplicit(
                HardwareRegisterExplicit::Rax,
                (8 * (2 + stack_argument_count(parameters, k))) as i32,
            ),
            InstructionIR::StoreFrameMemoryExplicit(offset, HardwareRegisterExplicit::Rax),
        ],
    }
}

/// The instructions that store the first `k` arguments of `f`, last first.
pub open spec fn arguments_arrival(f: Function, k: int) -> Seq<InstructionIR>
    decreases k,
{
    if k <= 0 {
        Seq::empty()
    } else {
        argument_arrival(f, k - 1) + arguments_arrival(f, k - 1)
    }
}

/// The register that parameter `index` of `parameters` is passed in, or
/// `None` where it goes on the stack.
fn parameter_register(parameters: &Vec<TypeId>, index: usize) -> (r: Option<HardwareRegisterExplicit>)
    requires
        index < parameters@.len(),
    ensures
        r == call_register(types_view(parameters@), index as int, parameters@[index as int]@),
{
    match &parameters[index] {
        TypeId::Float32 => {
            let relative_index = float_register_call_arguments::get_relative_index(parameters, index);
            if relative_index < float_register_call_arguments::NUM_ARGUMENTS {
                return Some(float_register_call_arguments::get_argument(relative_index));
            }
        },
        _ => {
            let relative_index = register_call_arguments::get_relative_index(parameters, index);
            if relative_index < register_call_arguments::NUM_ARGUMENTS {
                return Some(register_call_arguments::get_argument(relative_index));
            }
        },
    }
    None
}

proof fn lemma_stack_argument_count_bounded(parameters: Seq<TypeIdView>, n: int)
    requires
        0 <= n,
    ensures
        stack_argument_count(parameters, n) <= n,
    decreases n,
{
    if n > 0 {
        lemma_stack_argument_count_bounded(parameters, n - 1);
    }
}

/// The calling convention of compiled code.
pub struct CallingConventions {}

impl CallingConventions {
    pub fn new() -> (r: CallingConventions)
        ensures
            r == (CallingConventions {}),
    {
        CallingConventions {}
    }

    fn passes_on_stack(&self, parameters: &Vec<TypeId>, parameter_index: usize) -> (r: bool)
        requires
            parameter_index < parameters@.len(),
        ensures
            r == passed_on_stack(types_view(parameters@), parameter_index as int),
    {
        match &parameters[parameter_index] {
            TypeId::Float32 => float_register_call_arguments::get_relative_index(parameters, parameter_index)
                >= float_register_call_arguments::NUM_ARGUMENTS,
            _ => register_call_arguments::get_relative_index(parameters, parameter_index)
                >= register_call_arguments::NUM_ARGUMENTS,
        }
    }

    /// Passes argument `argument_index` of a call of `function_to_call`
    /// from its source: into its argument register, or pushed.
    pub fn call_function_argument(
        &self,
        function_to_call: &FunctionSignature,
        arguments: &Vec<Variable>,
        argument_index: usize,
        instructions: &mut Vec<InstructionIR>,
    )
        requires
            argument_index < function_to_call.parameters@.len(),
            argument_index < arguments@.len(),
        ensures
            final(instructions)@ == old(instructions)@ + argument_passing(
                types_view(function_to_call.parameters@),
                argument_index as int,
                arguments@[argument_index as int],
            ),
    {
        let source = &arguments[argument_index];
        match parameter_register(&function_to_call.parameters, argument_index) {
            Some(x) => {
                source.move_to_explicit(x, instructions);
            },
            None => {
                source.move_to_stack(instructions);
            },
        }
    }

    /// Passes the arguments of a call of `function_to_call`, last first.
    pub fn call_function_arguments(
        &self,
        function_to_call: &FunctionSignature,
        arguments: &Vec<Variable>,
        instructions: &mut Vec<InstructionIR>,
    )
        requires
            function_to_call.parameters@.len() <= arguments@.len(),
        ensures
            final(instructions)@ == old(instructions)@ + arguments_passing(
                types_view(function_to_call.parameters@),
                arguments@,
                function_to_call.parameters@.len() as int,
            ),
    {
        let ghost params = types_view(function_to_call.parameters@);
        let ghost n = function_to_call.parameters@.len() as int;
        let mut i: usize = function_to_call.parameters.len();
        while i > 0
            invariant
                i <= n,
                n == function_to_call.parameters@.len(),
                n <= arguments@.len(),
                params == types_view(function_to_call.parameters@),
                old(instructions)@ + arguments_passing(params, arguments@, n) == instructions@ + arguments_passing(
                    params,
                    arguments@,
                    i as int,
                ),
            decreases i,
        {
            let ghost before = instructions@;
            self.call_function_argument(function_to_call, arguments, i - 1, instructions);
            assert(before + arguments_passing(params, arguments@, i as int) =~= instructions@ + arguments_passing(
                params,
                arguments@,
                i - 1,
            ));
            i = i - 1;
        }
        assert(instructions@ + arguments_passing(params, arguments@, 0) =~= instructions@);
    }

    /// Stores each argument of `function`, on entry, in its slot, last first.
    pub fn move_arguments_to_stack(&self, function: &Function, instructions: &mut Vec<InstructionIR>)
        requires
            function.spec_declaration().spec_parameters().len() < 268_435_456,
        ensures
            final(instructions)@ == old(instructions)@ + arguments_arrival(
                *function,
                function.spec_declaration().spec_parameters().len() as int,
            ),
    {
        let ghost n = function.spec_declaration().spec_parameters().len() as int;
        let parameters = function.declaration().parameters();
        let mut i: usize = parameters.len();
        while i > 0
            invariant
                i <= n,
                n == parameters@.len(),
                parameters@ == function.spec_declaration().spec_parameters(),
                n < 268_435_456,
                old(instructions)@ + arguments_arrival(*function, n) == instructions@ + arguments_arrival(*function, i as int),
            decreases i,
        {
            let k = i - 1;
            let ghost before = instructions@;
            let offset = stack_layout::argument_stack_offset(function, k as u32);
            match parameter_register(parameters, k) {
                Some(x) => {
                    instructions.push(InstructionIR::StoreFrameMemoryExplicit(offset, x));
                },
                None => {
                    let stack_index = self.get_stack_argument_index(function, k);
                    proof {
                        lemma_stack_argument_count_bounded(types_view(parameters@), k as int);
                    }
                    instructions.push(
                        InstructionIR::LoadFrameMemoryExplicit(HardwareRegisterExplicit::Rax, (8 * (2 + stack_index)) as i32),
                    );
                    instructions.push(InstructionIR::StoreFrameMemoryExplicit(offset, HardwareRegisterExplicit::Rax));
                },
            }
            assert(before + arguments_arrival(*function, i as int) =~= instructions@ + arguments_arrival(*function, k as int));
            i = k;
        }
        assert(instructions@ + arguments_arrival(*function, 0) =~= instructions@);
    }

    /// Moves the result of a call of `func_to_call` from its return
    /// register into `variable`.
    pub fn handle_return_value(
        &self,
        _function: &Function,
        variable: &Variable,
        func_to_call: &FunctionDeclaration,
        instructions: &mut Vec<InstructionIR>,
    )
        ensures
            final(instructions)@ == old(instructions)@ + match return_register(func_to_call.spec_return_type()) {
                Some(x) => seq![move_from_explicit_spec(*variable, x)],
                None => Seq::empty(),
            },
    {
        match get_return_register(func_to_call.return_type()) {
            Some(x) => variable.move_from_explicit(x, instructions),
            None => {},
        }
        assert(final(instructions)@ =~= old(instructions)@ + match return_register(func_to_call.spec_return_type()) {
            Some(x) => seq![move_from_explicit_spec(*variable, x)],
            None => Seq::empty(),
        });
    }

    /// Moves the return value of `function` from `variable` into its return
    /// register.
    pub fn make_return_value(&self, function: &Function, variable: &Variable, instructions: &mut Vec<InstructionIR>)
        ensures
            final(instructions)@ == old(instructions)@ + match return_register(
                function.spec_declaration().spec_return_type(),
            ) {
                Some(x) => seq![move_to_explicit_spec(*variable, x)],
                None => Seq::empty(),
            },
    {
        match get_return_register(function.declaration().return_type()) {
            Some(x) => variable.move_to_explicit(x, instructions),
            None => {},
        }
        assert(final(instructions)@ =~= old(instructions)@ + match return_register(
            function.spec_declaration().spec_return_type(),
        ) {
            Some(x) => seq![move_to_explicit_spec(*variable, x)],
            None => Seq::empty(),
        });
    }

    /// How many parameters before `argument_index` are passed on the stack.
    pub fn get_stack_argument_index(&self, function: &Function, argument_index: usize) -> (r: usize)
        ensures
            r == stack_argument_count(
                types_view(function.spec_declaration().spec_parameters()),
                if argument_index < function.spec_declaration().spec_parameters().len() {
                    argument_index as int
                } else {
                    function.spec_declaration().spec_parameters().len() as int
                },
            ),
    {
        let parameters = function.declaration().parameters();
        let mut stack_argument_index: usize = 0;
        let mut index: usize = 0;
        while index < parameters.len() && index < argument_index
            invariant
                index <= parameters@.len(),
                index <= argument_index,
                parameters@ == function.spec_declaration().spec_parameters(),
                stack_argument_index == stack_argument_count(types_view(parameters@), index as int),
                stack_argument_index <= index,
            decreases parameters@.len() - index,
        {
            if self.passes_on_stack(parameters, index) {
                stack_argument_index = stack_argument_index + 1;
            }
            index = index + 1;
        }
        stack_argument_index
    }

    /// How many of the parameters are passed on the stack.
    pub fn num_stack_arguments(&self, parameters: &Vec<TypeId>) -> (r: usize)
        ensures
            r == stack_argument_count(types_view(parameters@), parameters@.len() as int),
    {
        let mut num_stack_arguments: usize = 0;
        let mut parameter_index: usize = 0;
        while parameter_index < parameters.len()
            invariant
                parameter_index <= parameters@.len(),
                num_stack_arguments == stack_argument_count(types_view(parameters@), parameter_index as int),
                num_stack_arguments <= parameter_index,
            decreases parameters@.len() - parameter_index,
        {
            if self.passes_on_stack(parameters, parameter_index) {
                num_stack_arguments = num_stack_arguments + 1;
            }
            parameter_index = parameter_index + 1;
        }
        num_stack_arguments
    }

    /// The padding, in bytes, that keeps the stack 16-byte aligned at a call
    /// of `func_to_call` after `num_saved` registers were pushed: one slot
    /// when the stack arguments and saved registers are odd in number.
    pub fn stack_alignment(&self, func_to_call: &FunctionDeclaration, num_saved: usize) -> (r: i32)
        requires
            stack_argument_count(types_view(func_to_call.spec_parameters()), func_to_call.spec_parameters().len() as int)
                + num_saved <= usize::MAX,
        ensures
            r == ((stack_argument_count(types_view(func_to_call.spec_parameters()), func_to_call.spec_parameters().len() as int)
                + num_saved) % 2) * 8,
    {
        let count = self.num_stack_arguments(func_to_call.parameters()) + num_saved;
        ((count % 2) as i32) * 8
    }
}

/// The register that argument `index` of type `t` is passed in, for a
/// function with parameters `parameters`, or `None` where it goes on the
/// stack.
pub open spec fn call_register(parameters: Seq<TypeIdView>, index: int, t: TypeIdView) -> Option<HardwareRegisterExplicit> {
    let n = if index < parameters.len() { index } else { parameters.len() as int };
    if t is Float32 {
        if float_count(parameters, n) < 8 {
            Some(float_register_call_arguments::argument_register(float_count(parameters, n) as int))
        } else {
            None
        }
    } else {
        if non_float_count(parameters, n) < 6 {
            Some(register_call_arguments::argument_register(non_float_count(parameters, n) as int))
        } else {
            None
        }
    }
}

/// The register that argument `index` of type `argument_type` is passed
/// in when calling `func_to_call`, or `None` where it goes on the stack.
pub fn get_call_register(func_to_call: &FunctionDeclaration, index: usize, argument_type: &TypeId) -> (r: Option<
    HardwareRegisterExplicit,
>)
    ensures
        r == call_register(types_view(func_to_call.spec_parameters()), index as int, argument_type@),
{
    match argument_type {
        TypeId::Float32 => {
            let relative_index = float_register_call_arguments::get_relative_index(func_to_call.parameters(), index);
            if relative_index < float_register_call_arguments::NUM_ARGUMENTS {
                return Some(float_register_call_arguments::get_argument(relative_index));
            }
        },
        _ => {
            let relative_index = register_call_arguments::get_relative_index(func_to_call.parameters(), index);
            if relative_index < register_call_arguments::NUM_ARGUMENTS {
                return Some(register_call_arguments::get_argument(relative_index));
            }
        },
    }
    None
}


/// The System V order of argument registers: the `k`-th integer or
/// reference argument goes in `RDI, RSI, RDX, RCX, R8, R9` and the `k`-th
/// float argument in `XMM0` to `XMM7`, counting each kind separately; the
/// arguments of a kind past its registers go on the stack.
pub proof fn law_argument_register_order(parameters: Seq<TypeIdView>, i: int)
    requires
        0 <= i < parameters.len(),
    ensures
        ({
            let ints = seq![
                HardwareRegisterExplicit::Rdi,
                HardwareRegisterExplicit::Rsi,
                HardwareRegisterExplicit::Rdx,
                HardwareRegisterExplicit::Rcx,
                HardwareRegisterExplicit::R8,
                HardwareRegisterExplicit::R9,
            ];
            let floats = seq![
                HardwareRegisterExplicit::Xmm0,
                HardwareRegisterExplicit::Xmm1,
                HardwareRegisterExplicit::Xmm2,
                HardwareRegisterExplicit::Xmm3,
                HardwareRegisterExplicit::Xmm4,
                HardwareRegisterExplicit::Xmm5,
                HardwareRegisterExplicit::Xmm6,
                HardwareRegisterExplicit::Xmm7,
            ];
            let r = call_register(parameters, i, parameters[i]);
            if parameters[i] is Float32 {
                if float_count(parameters, i) < 8 {
                    r == Some(floats[float_count(parameters, i) as int])
                } else {
                    r is None && passed_on_stack(parameters, i)
                }
            } else {
                if non_float_count(parameters, i) < 6 {
                    r == Some(ints[non_float_count(parameters, i) as int])
                } else {
                    r is None && passed_on_stack(parameters, i)
                }
            }
        }),
{
}

proof fn lemma_non_float_count_grows(parameters: Seq<TypeIdView>, i: int, j: int)
    requires
        0 <= i < j <= parameters.len(),
        !(parameters[i] is Float32),
    ensures
        non_float_count(parameters, i) < non_float_count(parameters, j),
    decreases j - i,
{
    if j > i + 1 {
        lemma_non_float_count_grows(parameters, i, j - 1);
    }
}

proof fn lemma_float_count_grows(parameters: Seq<TypeIdView>, i: int, j: int)
    requires
        0 <= i < j <= parameters.len(),
        parameters[i] is Float32,
    ensures
        float_count(parameters, i) < float_count(parameters, j),
    decreases j - i,
{
    if j > i + 1 {
        lemma_float_count_grows(parameters, i, j - 1);
    }
}

proof fn lemma_stack_argument_count_grows(parameters: Seq<TypeIdView>, i: int, j: int)
    requires
        0 <= i < j <= parameters.len(),
        passed_on_stack(parameters, i),
    ensures
        stack_argument_count(parameters, i) < stack_argument_count(parameters, j),
    decreases j - i,
{
    if j > i + 1 {
        lemma_stack_argument_count_grows(parameters, i, j - 1);
    }
}

/// No two arguments of a call share a place: two arguments passed in
/// registers are passed in different registers, and two arguments passed
/// on the stack are read from different slots of the caller's frame.
pub proof fn law_arguments_apart(parameters: Seq<TypeIdView>, i: int, j: int)
    requires
        0 <= i < j < parameters.len(),
    ensures
        call_register(parameters, i, parameters[i]) is Some && call_register(parameters, j, parameters[j]) is Some
            ==> call_register(parameters, i, parameters[i]) != call_register(parameters, j, parameters[j]),
        passed_on_stack(parameters, i) && passed_on_stack(parameters, j) ==> stack_argument_count(parameters, i)
            < stack_argument_count(parameters, j),
{
    if parameters[i] is Float32 {
        lemma_float_count_grows(parameters, i, j);
    } else {
        lemma_non_float_count_grows(parameters, i, j);
    }
    if passed_on_stack(parameters, i) {
        lemma_stack_argument_count_grows(parameters, i, j);
    }
}

} // verus!
