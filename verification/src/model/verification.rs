//! The bytecode verifier: checks that every instruction finds operands of
//! the right types on the operand stack, records the operand types before
//! each instruction and the largest operand stack, and checks that branches
//! agree with their targets on the operand stack.
use vstd::prelude::*;
use crate::model::typesystem::{TypeId, TypeIdView, TypeStorage, types_view, clone_types};
use crate::model::class::{Class, last_field_named};
use crate::model::function::{Function, FunctionSignature};
use crate::model::instruction::Instruction;
use crate::model::binder::Binder;

verus! {

/// A verification error and, when it is tied to one, the index of the instruction.
#[derive(Debug, PartialEq, Eq)]
pub struct VerifyError {
    pub index: Option<usize>,
    pub message: VerifyErrorMessage,
}

#[derive(Debug, PartialEq, Eq)]
pub enum VerifyErrorMessage {
    EmptyOperandStack,
    NonEmptyOperandStackOnReturn,
    LocalIndexOutOfRange,
    ArgumentIndexOutOfRange,
    WrongType(TypeId, TypeId),
    WrongArithmeticOperands,
    FunctionNotDefined(FunctionSignature),
    ExpectedNumberOfOperands(usize),
    ParameterCannotBeVoid,
    LocalCannotBeVoid,
    InvalidBranchTarget,
    BranchDifferentNumberOfOperands(usize, usize),
    ExpectedComparableType,
    ExpectedArrayReference,
    ClassNotDefined(String),
    FieldNotDefined(String, String),
}

/// The mathematical form of a [`VerifyErrorMessage`].
pub enum MessageView {
    EmptyOperandStack,
    NonEmptyOperandStackOnReturn,
    LocalIndexOutOfRange,
    ArgumentIndexOutOfRange,
    WrongType(TypeIdView, TypeIdView),
    WrongArithmeticOperands,
    FunctionNotDefined((Seq<char>, Seq<TypeIdView>)),
    ExpectedNumberOfOperands(nat),
    ParameterCannotBeVoid,
    LocalCannotBeVoid,
    InvalidBranchTarget,
    BranchDifferentNumberOfOperands(nat, nat),
    ExpectedComparableType,
    ExpectedArrayReference,
    ClassNotDefined(Seq<char>),
    FieldNotDefined(Seq<char>, Seq<char>),
}

/// The mathematical form of a [`VerifyError`].
pub struct ErrorView {
    pub index: Option<int>,
    pub message: MessageView,
}

impl View for VerifyErrorMessage {
    type V = MessageView;

    open spec fn view(&self) -> MessageView {
        match *self {
            VerifyErrorMessage::EmptyOperandStack => MessageView::EmptyOperandStack,
            VerifyErrorMessage::NonEmptyOperandStackOnReturn => MessageView::NonEmptyOperandStackOnReturn,
            VerifyErrorMessage::LocalIndexOutOfRange => MessageView::LocalIndexOutOfRange,
            VerifyErrorMessage::ArgumentIndexOutOfRange => MessageView::ArgumentIndexOutOfRange,
            VerifyErrorMessage::WrongType(a, b) => MessageView::WrongType(a@, b@),
            VerifyErrorMessage::WrongArithmeticOperands => MessageView::WrongArithmeticOperands,
            VerifyErrorMessage::FunctionNotDefined(s) => MessageView::FunctionNotDefined(s@),
            VerifyErrorMessage::ExpectedNumberOfOperands(n) => MessageView::ExpectedNumberOfOperands(n as nat),
            VerifyErrorMessage::ParameterCannotBeVoid => MessageView::ParameterCannotBeVoid,
            VerifyErrorMessage::LocalCannotBeVoid => MessageView::LocalCannotBeVoid,
            VerifyErrorMessage::InvalidBranchTarget => MessageView::InvalidBranchTarget,
            VerifyErrorMessage::BranchDifferentNumberOfOperands(a, b) => MessageView::BranchDifferentNumberOfOperands(
                a as nat,
                b as nat,
            ),
            VerifyErrorMessage::ExpectedComparableType => MessageView::ExpectedComparableType,
            VerifyErrorMessage::ExpectedArrayReference => MessageView::ExpectedArrayReference,
            VerifyErrorMessage::ClassNotDefined(c) => MessageView::ClassNotDefined(c@),
            VerifyErrorMessage::FieldNotDefined(c, f) => MessageView::FieldNotDefined(c@, f@),
        }
    }
}

impl View for VerifyError {
    type V = ErrorView;

    open spec fn view(&self) -> ErrorView {
        ErrorView {
            index: match self.index {
                Some(i) => Some(i as int),
                None => None,
            },
            message: self.message@,
        }
    }
}

impl VerifyError {
    pub fn new(message: VerifyErrorMessage) -> (r: VerifyError)
        ensures
            r.index is None,
            r.message == message,
    {
        VerifyError { index: None, message }
    }

    pub fn with_index(index: usize, message: VerifyErrorMessage) -> (r: VerifyError)
        ensures
            r.index == Some(index),
            r.message == message,
    {
        VerifyError { index: Some(index), message }
    }
}

pub type VerifyResult<T> = Result<T, VerifyError>;

/// A branch recorded by the verifier: source index, target index and the
/// operand types at the branch (after its operands were taken).
pub type BranchRecord = (int, int, Seq<TypeIdView>);

pub open spec fn error_at(i: int, message: MessageView) -> ErrorView {
    ErrorView { index: Some(i), message }
}

pub open spec fn error_without_index(message: MessageView) -> ErrorView {
    ErrorView { index: None, message }
}

/// The outcome of one instruction on the operand types and the recorded branches.
pub type StepResult = Result<(Seq<TypeIdView>, Seq<BranchRecord>), ErrorView>;

pub open spec fn is_comparable(t: TypeIdView) -> bool {
    t is Int32 || t is Float32
}

/// The largest `k < j` at which `params` and `args` disagree.
pub open spec fn last_argument_mismatch(params: Seq<TypeIdView>, args: Seq<TypeIdView>, j: int) -> Option<int>
    decreases j,
{
    if j <= 0 {
        None
    } else if params[j - 1] != args[j - 1] {
        Some(j - 1)
    } else {
        last_argument_mismatch(params, args, j - 1)
    }
}

/// The type of field `field` of class `class` in the storage, or the error
/// when the class or the field is not defined.
pub open spec fn field_type_spec(ts: TypeStorage, class: Seq<char>, field: Seq<char>) -> Result<TypeIdView, MessageView> {
    match ts.index_of(TypeIdView::Class(class)) {
        None => Err(MessageView::ClassNotDefined(class)),
        Some(i) => match ts.types()[i].class {
            None => Err(MessageView::ClassNotDefined(class)),
            Some(c) => match last_field_named(c.spec_fields(), field, c.spec_fields().len() as int) {
                None => Err(MessageView::FieldNotDefined(class, field)),
                Some(k) => Ok(c.spec_fields()[k].spec_field_type()@),
            },
        },
    }
}

/// The top operand of a non-empty operand stack.
pub open spec fn top(stack: Seq<TypeIdView>) -> TypeIdView {
    stack[stack.len() - 1]
}

pub open spec fn wrong_type(i: int, expected: TypeIdView, actual: TypeIdView) -> ErrorView {
    error_at(i, MessageView::WrongType(expected, actual))
}

pub open spec fn step_load_local(locals: Seq<TypeIdView>, i: int, index: int, stack: Seq<TypeIdView>) -> Result<Seq<TypeIdView>, ErrorView> {
    if index < locals.len() {
        Ok(stack.push(locals[index]))
    } else {
        Err(error_at(i, MessageView::LocalIndexOutOfRange))
    }
}

pub open spec fn step_store_local(locals: Seq<TypeIdView>, i: int, index: int, stack: Seq<TypeIdView>) -> Result<Seq<TypeIdView>, ErrorView> {
    if stack.len() < 1 {
        Err(error_at(i, MessageView::EmptyOperandStack))
    } else if index >= locals.len() {
        Err(error_at(i, MessageView::LocalIndexOutOfRange))
    } else if locals[index] != top(stack) {
        Err(wrong_type(i, locals[index], top(stack)))
    } else {
        Ok(stack.drop_last())
    }
}

pub open spec fn step_arithmetic(i: int, stack: Seq<TypeIdView>) -> Result<Seq<TypeIdView>, ErrorView> {
    if stack.len() < 2 {
        Err(error_at(i, MessageView::EmptyOperandStack))
    } else {
        let op2 = stack[stack.len() - 1];
        let op1 = stack[stack.len() - 2];
        if (op1 is Int32 && op2 is Int32) || (op1 is Float32 && op2 is Float32) {
            Ok(stack.take(stack.len() - 2).push(op1))
        } else {
            Err(error_at(i, MessageView::WrongArithmeticOperands))
        }
    }
}

pub open spec fn step_call(b: Binder, i: int, signature: (Seq<char>, Seq<TypeIdView>), stack: Seq<TypeIdView>) -> Result<Seq<TypeIdView>, ErrorView> {
    match b.lookup(signature) {
        None => Err(error_at(i, MessageView::FunctionNotDefined(signature))),
        Some(d) => {
            let params = types_view(d.spec_parameters());
            let count = params.len();
            if stack.len() < count {
                Err(error_at(i, MessageView::ExpectedNumberOfOperands(count)))
            } else {
                let rest = stack.take(stack.len() - count);
                let args = stack.skip(stack.len() - count);
                match last_argument_mismatch(params, args, count as int) {
                    Some(k) => Err(wrong_type(i, params[k], args[k])),
                    None => if d.spec_return_type()@ is Void {
                        Ok(rest)
                    } else {
                        Ok(rest.push(d.spec_return_type()@))
                    },
                }
            }
        },
    }
}

pub open spec fn step_load_argument(parameters: Seq<TypeIdView>, i: int, index: int, stack: Seq<TypeIdView>) -> Result<Seq<TypeIdView>, ErrorView> {
    if index < parameters.len() {
        Ok(stack.push(parameters[index]))
    } else {
        Err(error_at(i, MessageView::ArgumentIndexOutOfRange))
    }
}

pub open spec fn step_return(return_type: TypeIdView, i: int, stack: Seq<TypeIdView>) -> Result<Seq<TypeIdView>, ErrorView> {
    if return_type is Void {
        Ok(stack)
    } else if stack.len() < 1 {
        Err(error_at(i, MessageView::EmptyOperandStack))
    } else if return_type != top(stack) {
        Err(wrong_type(i, return_type, top(stack)))
    } else {
        Ok(stack.drop_last())
    }
}

pub open spec fn step_new_array(element: TypeIdView, i: int, stack: Seq<TypeIdView>) -> Result<Seq<TypeIdView>, ErrorView> {
    if stack.len() < 1 {
        Err(error_at(i, MessageView::EmptyOperandStack))
    } else if !(top(stack) is Int32) {
        Err(wrong_type(i, TypeIdView::Int32, top(stack)))
    } else {
        Ok(stack.drop_last().push(TypeIdView::Array(Box::new(element))))
    }
}

pub open spec fn step_load_element(element: TypeIdView, i: int, stack: Seq<TypeIdView>) -> Result<Seq<TypeIdView>, ErrorView> {
    if stack.len() < 2 {
        Err(error_at(i, MessageView::EmptyOperandStack))
    } else {
        let index = stack[stack.len() - 1];
        let array = stack[stack.len() - 2];
        let array_type = TypeIdView::Array(Box::new(element));
        if !(index is Int32) {
            Err(wrong_type(i, TypeIdView::Int32, index))
        } else if array_type != array {
            Err(wrong_type(i, array_type, array))
        } else {
            Ok(stack.take(stack.len() - 2).push(element))
        }
    }
}

pub open spec fn step_store_element(element: TypeIdView, i: int, stack: Seq<TypeIdView>) -> Result<Seq<TypeIdView>, ErrorView> {
    if stack.len() < 3 {
        Err(error_at(i, MessageView::EmptyOperandStack))
    } else {
        let value = stack[stack.len() - 1];
        let index = stack[stack.len() - 2];
        let array = stack[stack.len() - 3];
        let array_type = TypeIdView::Array(Box::new(element));
        if !(index is Int32) {
            Err(wrong_type(i, TypeIdView::Int32, index))
        } else if array_type != array {
            Err(wrong_type(i, array_type, array))
        } else if value != element {
            Err(wrong_type(i, value, element))
        } else {
            Ok(stack.take(stack.len() - 3))
        }
    }
}

pub open spec fn step_load_array_length(i: int, stack: Seq<TypeIdView>) -> Result<Seq<TypeIdView>, ErrorView> {
    if stack.len() < 1 {
        Err(error_at(i, MessageView::EmptyOperandStack))
    } else if !(top(stack) is Array) {
        Err(error_at(i, MessageView::ExpectedArrayReference))
    } else {
        Ok(stack.drop_last().push(TypeIdView::Int32))
    }
}

pub open spec fn step_load_field(ts: TypeStorage, i: int, class: Seq<char>, field: Seq<char>, stack: Seq<TypeIdView>) -> Result<Seq<TypeIdView>, ErrorView> {
    if stack.len() < 1 {
        Err(error_at(i, MessageView::EmptyOperandStack))
    } else if TypeIdView::Class(class) != top(stack) {
        Err(wrong_type(i, TypeIdView::Class(class), top(stack)))
    } else {
        match field_type_spec(ts, class, field) {
            Err(m) => Err(error_at(i, m)),
            Ok(t) => Ok(stack.drop_last().push(t)),
        }
    }
}

pub open spec fn step_store_field(ts: TypeStorage, i: int, class: Seq<char>, field: Seq<char>, stack: Seq<TypeIdView>) -> Result<Seq<TypeIdView>, ErrorView> {
    if stack.len() < 2 {
        Err(error_at(i, MessageView::EmptyOperandStack))
    } else {
        let value = stack[stack.len() - 1];
        let object = stack[stack.len() - 2];
        if TypeIdView::Class(class) != object {
            Err(wrong_type(i, TypeIdView::Class(class), object))
        } else {
            match field_type_spec(ts, class, field) {
                Err(m) => Err(error_at(i, m)),
                Ok(t) => if t != value {
                    Err(wrong_type(i, t, value))
                } else {
                    Ok(stack.take(stack.len() - 2))
                },
            }
        }
    }
}

/// A conditional branch: takes two operands of the same type (which must
/// be comparable when `ordered`), checks the target and records the branch.
pub open spec fn step_conditional_branch(
    n: int,
    i: int,
    target: int,
    ordered: bool,
    stack: Seq<TypeIdView>,
    branches: Seq<BranchRecord>,
) -> StepResult {
    if stack.len() < 2 {
        Err(error_at(i, MessageView::EmptyOperandStack))
    } else {
        let op2 = stack[stack.len() - 1];
        let op1 = stack[stack.len() - 2];
        let rest = stack.take(stack.len() - 2);
        if op1 != op2 {
            Err(wrong_type(i, op1, op2))
        } else if target >= n {
            Err(error_at(i, MessageView::InvalidBranchTarget))
        } else if ordered && !is_comparable(op1) {
            Err(error_at(i, MessageView::ExpectedComparableType))
        } else {
            Ok((rest, branches.push((i, target, rest))))
        }
    }
}

pub open spec fn with_branches(r: Result<Seq<TypeIdView>, ErrorView>, branches: Seq<BranchRecord>) -> StepResult {
    match r {
        Ok(s) => Ok((s, branches)),
        Err(e) => Err(e),
    }
}

/// The effect of the instruction at index `i` of `f` on the operand types
/// `stack` and the recorded branches `branches`.
pub open spec fn step_spec(
    f: Function,
    b: Binder,
    ts: TypeStorage,
    i: int,
    stack: Seq<TypeIdView>,
    branches: Seq<BranchRecord>,
) -> StepResult {
    let n = f.spec_instructions().len() as int;
    let locals = types_view(f.spec_locals());
    let parameters = types_view(f.spec_declaration().spec_parameters());
    let return_type = f.spec_declaration().spec_return_type()@;
    match f.spec_instructions()[i] {
        Instruction::LoadInt32(_) => Ok((stack.push(TypeIdView::Int32), branches)),
        Instruction::LoadFloat32(_) => Ok((stack.push(TypeIdView::Float32), branches)),
        Instruction::LoadNull(t) => Ok((stack.push(t@), branches)),
        Instruction::NewObject(c) => Ok((stack.push(TypeIdView::Class(c@)), branches)),
        Instruction::LoadLocal(index) => with_branches(step_load_local(locals, i, index as int, stack), branches),
        Instruction::StoreLocal(index) => with_branches(step_store_local(locals, i, index as int, stack), branches),
        Instruction::Add => with_branches(step_arithmetic(i, stack), branches),
        Instruction::Sub => with_branches(step_arithmetic(i, stack), branches),
        Instruction::Call(signature) => with_branches(step_call(b, i, signature@, stack), branches),
        Instruction::LoadArgument(index) => with_branches(step_load_argument(parameters, i, index as int, stack), branches),
        Instruction::Return => with_branches(step_return(return_type, i, stack), branches),
        Instruction::NewArray(element) => with_branches(step_new_array(element@, i, stack), branches),
        Instruction::LoadElement(element) => with_branches(step_load_element(element@, i, stack), branches),
        Instruction::StoreElement(element) => with_branches(step_store_element(element@, i, stack), branches),
        Instruction::LoadArrayLength => with_branches(step_load_array_length(i, stack), branches),
        Instruction::LoadField(c, field) => with_branches(step_load_field(ts, i, c@, field@, stack), branches),
        Instruction::StoreField(c, field) => with_branches(step_store_field(ts, i, c@, field@, stack), branches),
        Instruction::Branch(target) => if target >= n {
            Err(error_at(i, MessageView::InvalidBranchTarget))
        } else {
            Ok((stack, branches.push((i, target as int, stack))))
        },
        Instruction::BranchEqual(target) => step_conditional_branch(n, i, target as int, false, stack, branches),
        Instruction::BranchNotEqual(target) => step_conditional_branch(n, i, target as int, false, stack, branches),
        Instruction::BranchGreaterThan(target) => step_conditional_branch(n, i, target as int, true, stack, branches),
        Instruction::BranchGreaterThanOrEqual(target) => step_conditional_branch(n, i, target as int, true, stack, branches),
        Instruction::BranchLessThan(target) => step_conditional_branch(n, i, target as int, true, stack, branches),
        Instruction::BranchLessThanOrEqual(target) => step_conditional_branch(n, i, target as int, true, stack, branches),
    }
}

/// The verifier's state after the first `k` instructions.
pub struct VerifyState {
    pub stack: Seq<TypeIdView>,
    pub branches: Seq<BranchRecord>,
    pub max: nat,
}

pub open spec fn max_nat(a: nat, b: nat) -> nat {
    if a >= b { a } else { b }
}

/// Runs the first `k` instructions of `f` from an empty operand stack.
/// `max` is the largest operand stack met before any of them.
pub open spec fn run_spec(f: Function, b: Binder, ts: TypeStorage, k: int) -> Result<VerifyState, ErrorView>
    decreases k,
{
    if k <= 0 {
        Ok(VerifyState { stack: Seq::empty(), branches: Seq::empty(), max: 0 })
    } else {
        match run_spec(f, b, ts, k - 1) {
            Err(e) => Err(e),
            Ok(s) => match step_spec(f, b, ts, k - 1, s.stack, s.branches) {
                Err(e) => Err(e),
                Ok((stack, branches)) => Ok(VerifyState { stack, branches, max: max_nat(s.max, s.stack.len()) }),
            },
        }
    }
}

/// The operand types before instruction `k`.
pub open spec fn operand_types_before(f: Function, b: Binder, ts: TypeStorage, k: int) -> Seq<TypeIdView> {
    run_spec(f, b, ts, k)->Ok_0.stack
}

/// The first index `k < j` where the two sequences of types differ.
pub open spec fn first_mismatch(a: Seq<TypeIdView>, c: Seq<TypeIdView>, j: int) -> Option<int>
    decreases j,
{
    if j <= 0 {
        None
    } else {
        match first_mismatch(a, c, j - 1) {
            Some(k) => Some(k),
            None => if a[j - 1] != c[j - 1] {
                Some(j - 1)
            } else {
                None
            },
        }
    }
}

/// Whether the branch disagrees with the operand types at its target.
pub open spec fn branch_error(f: Function, b: Binder, ts: TypeStorage, branch: BranchRecord) -> Option<ErrorView> {
    let target = operand_types_before(f, b, ts, branch.1);
    let source = branch.2;
    if source.len() == target.len() {
        match first_mismatch(source, target, source.len() as int) {
            Some(k) => Some(error_at(branch.0, MessageView::WrongType(source[k], target[k]))),
            None => None,
        }
    } else {
        Some(error_at(branch.0, MessageView::BranchDifferentNumberOfOperands(source.len(), target.len())))
    }
}

/// The error of the first of the first `k` branches that disagrees with its target.
pub open spec fn branches_error(f: Function, b: Binder, ts: TypeStorage, branches: Seq<BranchRecord>, k: int) -> Option<ErrorView>
    decreases k,
{
    if k <= 0 {
        None
    } else {
        match branches_error(f, b, ts, branches, k - 1) {
            Some(e) => Some(e),
            None => branch_error(f, b, ts, branches[k - 1]),
        }
    }
}

/// The outcome of verifying `f`: its parameters and locals may not be
/// `Void`, every instruction must type-check, every branch must agree with
/// its target, and the operand stack must be empty at the end.
pub open spec fn verify_spec(f: Function, b: Binder, ts: TypeStorage) -> Result<(), ErrorView> {
    let n = f.spec_instructions().len() as int;
    if exists|k: int| 0 <= k < f.spec_declaration().spec_parameters().len() && (#[trigger] f.spec_declaration().spec_parameters()[k]) is Void {
        Err(error_without_index(MessageView::ParameterCannotBeVoid))
    } else {
        match run_spec(f, b, ts, n) {
            Err(e) => Err(e),
            Ok(s) => if exists|k: int| 0 <= k < f.spec_locals().len() && (#[trigger] f.spec_locals()[k]) is Void {
                Err(error_without_index(MessageView::LocalCannotBeVoid))
            } else {
                match branches_error(f, b, ts, s.branches, s.branches.len() as int) {
                    Some(e) => Err(e),
                    None => if s.stack.len() != 0 {
                        Err(error_without_index(MessageView::NonEmptyOperandStackOnReturn))
                    } else {
                        Ok(())
                    },
                }
            },
        }
    }
}

/// A prefix of a successful run succeeds too.
pub proof fn lemma_run_prefix(f: Function, b: Binder, ts: TypeStorage, k: int, j: int)
    requires
        0 <= j <= k,
        run_spec(f, b, ts, k) is Ok,
    ensures
        run_spec(f, b, ts, j) is Ok,
    decreases k - j,
{
    if j < k {
        lemma_run_prefix(f, b, ts, k - 1, j);
    }
}

pub open spec fn branches_view(branches: Seq<(usize, usize, Vec<TypeId>)>) -> Seq<BranchRecord> {
    branches.map_values(|br: (usize, usize, Vec<TypeId>)| (br.0 as int, br.1 as int, types_view(br.2@)))
}

pub open spec fn result_view(r: VerifyResult<()>) -> Result<(), ErrorView> {
    match r {
        Ok(()) => Ok(()),
        Err(e) => Err(e@),
    }
}

/// Verifies functions against the declarations of a binder and the
/// classes of a type storage.
pub struct Verifier<'a> {
    function: &'a mut Function,
    binder: &'a Binder,
    type_storage: &'a TypeStorage,
    operand_stack: Vec<TypeId>,
    branches: Vec<(usize, usize, Vec<TypeId>)>,
}

impl<'a> Verifier<'a> {
    /// The function under verification.
    pub closed spec fn function(&self) -> &'a mut Function {
        self.function
    }

    pub closed spec fn binder(&self) -> Binder {
        *self.binder
    }

    pub closed spec fn type_storage(&self) -> TypeStorage {
        *self.type_storage
    }

    /// A verifier that has not run yet.
    pub closed spec fn is_fresh(&self) -> bool {
        self.operand_stack@.len() == 0 && self.branches@.len() == 0
    }

    pub fn new(binder: &'a Binder, type_storage: &'a TypeStorage, function: &'a mut Function) -> (r: Verifier<'a>)
        ensures
            *r.function() == *old(function),
            *final(r.function()) == *final(function),
            r.binder() == *binder,
            r.type_storage() == *type_storage,
            r.is_fresh(),
    {
        Verifier { function, binder, type_storage, operand_stack: Vec::new(), branches: Vec::new() }
    }

    /// Verifies the function. On success every instruction's operand types
    /// and the largest operand stack are recorded in the function.
    pub fn verify(&mut self) -> (r: VerifyResult<()>)
        requires
            old(self).is_fresh(),
            old(self).function().wf(),
            old(self).binder().wf(),
            old(self).type_storage().wf(),
        ensures
            result_view(r) == verify_spec(*old(self).function(), old(self).binder(), old(self).type_storage()),
            *final(final(self).function()) == *final(old(self).function()),
            final(self).function().wf(),
            final(self).function().same_body(*old(self).function()),
            r is Ok ==> verified_records(*final(self).function(), *old(self).function(), old(self).binder(), old(self).type_storage()),
    {
        if has_void(self.function.declaration().parameters()) {
            return Err(VerifyError::new(VerifyErrorMessage::ParameterCannotBeVoid));
        }
        let ghost original = *self.function;
        let ghost b = *self.binder;
        let ghost ts = *self.type_storage;
        let ghost n = original.spec_instructions().len() as int;
        match self.verify_instructions() {
            Ok(()) => {},
            Err(e) => {
                return Err(e);
            },
        }
        let ghost s = run_spec(original, b, ts, n)->Ok_0;
        if has_void(self.function.locals()) {
            return Err(VerifyError::new(VerifyErrorMessage::LocalCannotBeVoid));
        }
        match self.verify_branches(Ghost(original)) {
            Ok(()) => {},
            Err(e) => {
                return Err(e);
            },
        }
        if self.operand_stack.len() != 0 {
            return Err(VerifyError::new(VerifyErrorMessage::NonEmptyOperandStackOnReturn));
        }
        Ok(())
    }

    /// Verifies `function` against the binder and the type storage, and
    /// leaves in it what verification records: on success every
    /// instruction's operand types and the largest operand stack.
    pub fn verify_function(binder: &Binder, type_storage: &TypeStorage, function: &mut Function) -> (r: VerifyResult<()>)
        requires
            old(function).wf(),
            binder.wf(),
            type_storage.wf(),
        ensures
            result_view(r) == verify_spec(*old(function), *binder, *type_storage),
            final(function).wf(),
            final(function).same_body(*old(function)),
            r is Ok ==> verified_records(*final(function), *old(function), *binder, *type_storage),
    {
        let mut verifier = Verifier::new(binder, type_storage, function);
        verifier.verify()
    }

    fn verify_step(&mut self, i: usize, Ghost(original): Ghost<Function>) -> (r: VerifyResult<()>)
        requires
            old(self).function.wf(),
            old(self).function.same_body(original),
            old(self).binder.wf(),
            old(self).type_storage.wf(),
            i < original.spec_instructions().len(),
            run_spec(original, *old(self).binder, *old(self).type_storage, i as int) is Ok,
            types_view(old(self).operand_stack@) == run_spec(original, *old(self).binder, *old(self).type_storage, i as int)->Ok_0.stack,
            branches_view(old(self).branches@) == run_spec(original, *old(self).binder, *old(self).type_storage, i as int)->Ok_0.branches,
        ensures
            *final(final(self).function) == *final(old(self).function),
            final(self).binder == old(self).binder,
            final(self).type_storage == old(self).type_storage,
            final(self).function.wf(),
            final(self).function.same_body(original),
            final(self).function.spec_operand_stack_size() == old(self).function.spec_operand_stack_size(),
            types_view(final(self).function.spec_operand_types(i as int)) == types_view(old(self).operand_stack@),
            forall|j: int| #![trigger final(self).function.spec_operand_types(j)]
                0 <= j < original.spec_instructions().len() && j != i ==> final(self).function.spec_operand_types(j)
                    == old(self).function.spec_operand_types(j),
            match run_spec(original, *old(self).binder, *old(self).type_storage, i + 1) {
                Err(e) => r is Err && r->Err_0@ == e,
                Ok(s) => r is Ok && types_view(final(self).operand_stack@) == s.stack && branches_view(final(self).branches@)
                    == s.branches,
            },
    {
        let recorded = clone_types(&self.operand_stack);
        self.function.set_instruction_operand_types(i, recorded);
        let f: &Function = &*self.function;
        proof {
            lemma_step_same_body(
                *f,
                original,
                *self.binder,
                *self.type_storage,
                i as int,
                types_view(self.operand_stack@),
                branches_view(self.branches@),
            );
        }
        verify_instruction(f, self.binder, self.type_storage, i, &f.instructions()[i], &mut self.operand_stack, &mut self.branches)
    }

    fn verify_instructions(&mut self) -> (r: VerifyResult<()>)
        requires
            old(self).is_fresh(),
            old(self).function.wf(),
            old(self).binder.wf(),
            old(self).type_storage.wf(),
        ensures
            *final(final(self).function) == *final(old(self).function),
            final(self).binder == old(self).binder,
            final(self).type_storage == old(self).type_storage,
            final(self).function.wf(),
            final(self).function.same_body(*old(self).function),
            match run_spec(*old(self).function, *old(self).binder, *old(self).type_storage, old(self).function.spec_instructions().len() as int) {
                Err(e) => r is Err && r->Err_0@ == e,
                Ok(s) => {
                    &&& r is Ok
                    &&& types_view(final(self).operand_stack@) == s.stack
                    &&& branches_view(final(self).branches@) == s.branches
                    &&& verified_records(*final(self).function, *old(self).function, *old(self).binder, *old(self).type_storage)
                },
            },
    {
        let ghost original = *self.function;
        let ghost b = *self.binder;
        let ghost ts = *self.type_storage;
        let n = self.function.instructions().len();
        let mut max_stack_size: usize = 0;
        let mut i: usize = 0;
        assert(branches_view(self.branches@) =~= Seq::<BranchRecord>::empty());
        assert(types_view(self.operand_stack@) =~= Seq::<TypeIdView>::empty());
        while i < n
            invariant
                n == original.spec_instructions().len(),
                i <= n,
                *final(self.function) == *final(old(self).function),
                self.binder == old(self).binder,
                self.type_storage == old(self).type_storage,
                b == *self.binder,
                ts == *self.type_storage,
                b.wf(),
                ts.wf(),
                self.function.wf(),
                self.function.same_body(original),
                self.function.spec_operand_stack_size() == original.spec_operand_stack_size(),
                original == *old(self).function,
                run_spec(original, b, ts, i as int) is Ok,
                types_view(self.operand_stack@) == run_spec(original, b, ts, i as int)->Ok_0.stack,
                branches_view(self.branches@) == run_spec(original, b, ts, i as int)->Ok_0.branches,
                max_stack_size == run_spec(original, b, ts, i as int)->Ok_0.max,
                forall|j: int| #![trigger self.function.spec_operand_types(j)]
                    0 <= j < i ==> types_view(self.function.spec_operand_types(j)) == operand_types_before(original, b, ts, j),
            decreases n - i,
        {
            if self.operand_stack.len() > max_stack_size {
                max_stack_size = self.operand_stack.len();
            }
            let result = self.verify_step(i, Ghost(original));
            match result {
                Ok(()) => {},
                Err(e) => {
                    proof {
                        assert(run_spec(original, b, ts, i + 1) is Err);
                        lemma_run_fails_later(original, b, ts, i + 1, n as int);
                        assert(self.function.same_body(original));
                        assert(original == *old(self).function);
                    }
                    return Err(e);
                },
            }
            i = i + 1;
        }
        self.function.set_operand_stack_size(max_stack_size);
        Ok(())
    }

    #[verifier::loop_isolation(false)]
    fn verify_branches(&self, Ghost(original): Ghost<Function>) -> (r: VerifyResult<()>)
        requires
            self.function.wf(),
            self.function.spec_instructions() == original.spec_instructions(),
            run_spec(original, *self.binder, *self.type_storage, original.spec_instructions().len() as int) is Ok,
            branches_view(self.branches@) == run_spec(original, *self.binder, *self.type_storage, original.spec_instructions().len() as int)->Ok_0.branches,
            forall|j: int| #![trigger self.function.spec_operand_types(j)]
                0 <= j < original.spec_instructions().len() ==> types_view(self.function.spec_operand_types(j))
                    == operand_types_before(original, *self.binder, *self.type_storage, j),
        ensures
            match branches_error(original, *self.binder, *self.type_storage, branches_view(self.branches@), self.branches@.len() as int) {
                Some(e) => r is Err && r->Err_0@ == e,
                None => r is Ok,
            },
    {
        let ghost b = *self.binder;
        let ghost ts = *self.type_storage;
        let ghost n = original.spec_instructions().len() as int;
        let ghost all = branches_view(self.branches@);
        let num_branches = self.branches.len();
        let mut k: usize = 0;
        while k < num_branches
            invariant
                k <= num_branches,
                num_branches == self.branches@.len(),
                b == *self.binder,
                ts == *self.type_storage,
                n == original.spec_instructions().len(),
                self.function.wf(),
                self.function.spec_instructions() == original.spec_instructions(),
                run_spec(original, b, ts, n) is Ok,
                all == branches_view(self.branches@),
                all == run_spec(original, b, ts, n)->Ok_0.branches,
                forall|j: int| #![trigger self.function.spec_operand_types(j)]
                    0 <= j < n ==> types_view(self.function.spec_operand_types(j)) == operand_types_before(original, b, ts, j),
                branches_error(original, b, ts, all, k as int) is None,
            decreases num_branches - k,
        {
            let branch = &self.branches[k];
            let source = branch.0;
            let target = branch.1;
            proof {
                lemma_branch_target_valid(original, b, ts, n, k as int);
                assert(all[k as int] == (source as int, target as int, types_view(branch.2@)));
            }
            let source_operands = &branch.2;
            let target_operands = self.function.instruction_operand_types(target);
            let ghost sv = types_view(source_operands@);
            let ghost tv = types_view(target_operands@);
            assert(tv == operand_types_before(original, b, ts, target as int));
            if source_operands.len() == target_operands.len() {
                let mut j: usize = 0;
                while j < source_operands.len()
                    invariant
                        j <= source_operands@.len(),
                        source_operands@.len() == target_operands@.len(),
                        sv == types_view(source_operands@),
                        tv == types_view(target_operands@),
                        first_mismatch(sv, tv, j as int) is None,
                    decreases source_operands@.len() - j,
                {
                    if !source_operands[j].is_same_type(&target_operands[j]) {
                        proof {
                            assert(first_mismatch(sv, tv, j + 1) == Some(j as int));
                            lemma_first_mismatch_stable(sv, tv, j + 1, sv.len() as int);
                            assert(all.len() == num_branches);
                            assert(branch_error(original, b, ts, all[k as int]) == Some(
                                error_at(source as int, MessageView::WrongType(sv[j as int], tv[j as int])),
                            ));
                            assert(branches_error(original, b, ts, all, k + 1) == Some(
                                error_at(source as int, MessageView::WrongType(sv[j as int], tv[j as int])),
                            ));
                            lemma_branches_error_stable(original, b, ts, all, k + 1, all.len() as int);
                        }
                        return Err(VerifyError::with_index(
                            source,
                            VerifyErrorMessage::WrongType(source_operands[j].clone(), target_operands[j].clone()),
                        ));
                    }
                    j = j + 1;
                }
                proof {
                    assert(branches_error(original, b, ts, all, k + 1) is None);
                }
            } else {
                proof {
                    assert(all.len() == num_branches);
                    assert(branch_error(original, b, ts, all[k as int]) == Some(
                        error_at(source as int, MessageView::BranchDifferentNumberOfOperands(sv.len(), tv.len())),
                    ));
                    assert(branches_error(original, b, ts, all, k + 1) == Some(
                        error_at(source as int, MessageView::BranchDifferentNumberOfOperands(sv.len(), tv.len())),
                    ));
                    lemma_branches_error_stable(original, b, ts, all, k + 1, all.len() as int);
                }
                return Err(VerifyError::with_index(
                    source,
                    VerifyErrorMessage::BranchDifferentNumberOfOperands(source_operands.len(), target_operands.len()),
                ));
            }
            k = k + 1;
        }
        Ok(())
    }
}

/// Whether one of the types is `Void`.
fn has_void(types: &Vec<TypeId>) -> (r: bool)
    ensures
        r == exists|k: int| 0 <= k < types@.len() && (#[trigger] types@[k]) is Void,
{
    let mut k: usize = 0;
    while k < types.len()
        invariant
            k <= types@.len(),
            forall|j: int| 0 <= j < k ==> !(types@[j] is Void),
        decreases types@.len() - k,
    {
        if types[k].is_void() {
            return true;
        }
        k = k + 1;
    }
    false
}

/// The effect of an instruction depends only on the body of the function.
proof fn lemma_step_same_body(
    f1: Function,
    f2: Function,
    b: Binder,
    ts: TypeStorage,
    i: int,
    stack: Seq<TypeIdView>,
    branches: Seq<BranchRecord>,
)
    requires
        f1.same_body(f2),
    ensures
        step_spec(f1, b, ts, i, stack, branches) == step_spec(f2, b, ts, i, stack, branches),
{
}

proof fn lemma_first_mismatch_stable(a: Seq<TypeIdView>, c: Seq<TypeIdView>, j: int, m: int)
    requires
        0 <= j <= m,
        first_mismatch(a, c, j) is Some,
    ensures
        first_mismatch(a, c, m) == first_mismatch(a, c, j),
    decreases m - j,
{
    if j < m {
        lemma_first_mismatch_stable(a, c, j, m - 1);
    }
}

proof fn lemma_branches_error_stable(f: Function, b: Binder, ts: TypeStorage, branches: Seq<BranchRecord>, j: int, m: int)
    requires
        0 <= j <= m,
        branches_error(f, b, ts, branches, j) is Some,
    ensures
        branches_error(f, b, ts, branches, m) == branches_error(f, b, ts, branches, j),
    decreases m - j,
{
    if j < m {
        lemma_branches_error_stable(f, b, ts, branches, j, m - 1);
    }
}

/// What a successful verification records in the function: the operand
/// types before every instruction and the size of the largest operand stack.
pub open spec fn verified_records(after: Function, before: Function, b: Binder, ts: TypeStorage) -> bool {
    let n = before.spec_instructions().len() as int;
    &&& run_spec(before, b, ts, n) is Ok
    &&& after.spec_operand_stack_size() == run_spec(before, b, ts, n)->Ok_0.max
    &&& forall|j: int| #![trigger after.spec_operand_types(j)]
        0 <= j < n ==> types_view(after.spec_operand_types(j)) == operand_types_before(before, b, ts, j)
}

/// Once a run fails, every longer run fails with the same error.
pub proof fn lemma_run_fails_later(f: Function, b: Binder, ts: TypeStorage, k: int, m: int)
    requires
        0 <= k <= m,
        run_spec(f, b, ts, k) is Err,
    ensures
        run_spec(f, b, ts, m) == run_spec(f, b, ts, k),
    decreases m - k,
{
    if k < m {
        lemma_run_fails_later(f, b, ts, k, m - 1);
    }
}

/// Every recorded branch targets an instruction of the function.
proof fn lemma_branch_target_valid(f: Function, b: Binder, ts: TypeStorage, n: int, k: int)
    requires
        n == f.spec_instructions().len(),
        run_spec(f, b, ts, n) is Ok,
        0 <= k < run_spec(f, b, ts, n)->Ok_0.branches.len(),
    ensures
        0 <= run_spec(f, b, ts, n)->Ok_0.branches[k].1 < n,
        0 <= run_spec(f, b, ts, n)->Ok_0.branches[k].0 < n,
{
    lemma_branches_valid(f, b, ts, n, n);
}

proof fn lemma_branches_valid(f: Function, b: Binder, ts: TypeStorage, n: int, m: int)
    requires
        n == f.spec_instructions().len(),
        0 <= m <= n,
        run_spec(f, b, ts, m) is Ok,
    ensures
        forall|k: int| 0 <= k < run_spec(f, b, ts, m)->Ok_0.branches.len() ==> {
            &&& 0 <= (#[trigger] run_spec(f, b, ts, m)->Ok_0.branches[k]).1 < n
            &&& 0 <= run_spec(f, b, ts, m)->Ok_0.branches[k].0 < m
        },
    decreases m,
{
    if m > 0 {
        lemma_branches_valid(f, b, ts, n, m - 1);
    }
}

fn pop_operand(stack: &mut Vec<TypeId>, i: usize) -> (r: VerifyResult<TypeId>)
    ensures
        old(stack)@.len() == 0 ==> r is Err && r->Err_0@ == error_at(i as int, MessageView::EmptyOperandStack),
        old(stack)@.len() > 0 ==> r == Ok::<TypeId, VerifyError>(old(stack)@.last()) && final(stack)@ == old(stack)@.drop_last(),
{
    match stack.pop() {
        Some(t) => Ok(t),
        None => Err(VerifyError::with_index(i, VerifyErrorMessage::EmptyOperandStack)),
    }
}

fn same_type(i: usize, expected: &TypeId, actual: &TypeId) -> (r: VerifyResult<()>)
    ensures
        expected@ == actual@ ==> r is Ok,
        expected@ != actual@ ==> r is Err && r->Err_0@ == wrong_type(i as int, expected@, actual@),
{
    if expected.is_same_type(actual) {
        Ok(())
    } else {
        Err(VerifyError::with_index(i, VerifyErrorMessage::WrongType(expected.clone(), actual.clone())))
    }
}

/// The type of field `field` of class `class`, or the error when the class
/// or the field is not defined.
fn field_type(ts: &TypeStorage, i: usize, class: &String, field: &String) -> (r: VerifyResult<TypeId>)
    requires
        ts.wf(),
    ensures
        match field_type_spec(*ts, class@, field@) {
            Ok(t) => r is Ok && r->Ok_0@ == t,
            Err(m) => r is Err && r->Err_0@ == error_at(i as int, m),
        },
{
    let class_type = TypeId::Class(class.clone());
    match ts.get(&class_type) {
        None => Err(VerifyError::with_index(i, VerifyErrorMessage::ClassNotDefined(class.clone()))),
        Some(t) => match &t.class {
            None => Err(VerifyError::with_index(i, VerifyErrorMessage::ClassNotDefined(class.clone()))),
            Some(c) => match c.get_field(field.as_str()) {
                None => Err(VerifyError::with_index(i, VerifyErrorMessage::FieldNotDefined(class.clone(), field.clone()))),
                Some(fd) => Ok(fd.field_type().clone()),
            },
        },
    }
}

pub broadcast proof fn lemma_types_view_push(s: Seq<TypeId>, t: TypeId)
    ensures
        #[trigger] types_view(s.push(t)) == types_view(s).push(t@),
{
    assert(types_view(s.push(t)) =~= types_view(s).push(t@));
}

pub broadcast proof fn lemma_types_view_drop_last(s: Seq<TypeId>)
    requires
        s.len() > 0,
    ensures
        #[trigger] types_view(s.drop_last()) == types_view(s).drop_last(),
{
    assert(types_view(s.drop_last()) =~= types_view(s).drop_last());
}

pub broadcast proof fn lemma_types_view_take(s: Seq<TypeId>, k: int)
    requires
        0 <= k <= s.len(),
    ensures
        #[trigger] types_view(s.take(k)) == types_view(s).take(k),
{
    assert(types_view(s.take(k)) =~= types_view(s).take(k));
}

pub broadcast proof fn lemma_branches_view_push(s: Seq<(usize, usize, Vec<TypeId>)>, br: (usize, usize, Vec<TypeId>))
    ensures
        #[trigger] branches_view(s.push(br)) == branches_view(s).push((br.0 as int, br.1 as int, types_view(br.2@))),
{
    assert(branches_view(s.push(br)) =~= branches_view(s).push((br.0 as int, br.1 as int, types_view(br.2@))));
}

/// Whether `r` and the new operand types `after` match the specified outcome.
pub open spec fn stack_outcome(r: VerifyResult<()>, expected: Result<Seq<TypeIdView>, ErrorView>, after: Seq<TypeId>) -> bool {
    match expected {
        Err(e) => r is Err && r->Err_0@ == e,
        Ok(s) => r is Ok && types_view(after) == s,
    }
}

fn check_load_local(locals: &Vec<TypeId>, i: usize, index: u32, stack: &mut Vec<TypeId>) -> (r: VerifyResult<()>)
    ensures
        stack_outcome(r, step_load_local(types_view(locals@), i as int, index as int, types_view(old(stack)@)), final(stack)@),
{
    broadcast use lemma_types_view_push;
    let index = index as usize;
    if index < locals.len() {
        stack.push(locals[index].clone());
        Ok(())
    } else {
        Err(VerifyError::with_index(i, VerifyErrorMessage::LocalIndexOutOfRange))
    }
}

fn check_store_local(locals: &Vec<TypeId>, i: usize, index: u32, stack: &mut Vec<TypeId>) -> (r: VerifyResult<()>)
    ensures
        stack_outcome(r, step_store_local(types_view(locals@), i as int, index as int, types_view(old(stack)@)), final(stack)@),
{
    broadcast use lemma_types_view_drop_last;
    let operand = pop_operand(stack, i)?;
    let index = index as usize;
    if index >= locals.len() {
        return Err(VerifyError::with_index(i, VerifyErrorMessage::LocalIndexOutOfRange));
    }
    same_type(i, &locals[index], &operand)?;
    Ok(())
}

fn check_arithmetic(i: usize, stack: &mut Vec<TypeId>) -> (r: VerifyResult<()>)
    ensures
        stack_outcome(r, step_arithmetic(i as int, types_view(old(stack)@)), final(stack)@),
{
    broadcast use lemma_types_view_push, lemma_types_view_take;
    let ghost s0 = stack@;
    let op2 = pop_operand(stack, i)?;
    let op1 = pop_operand(stack, i)?;
    let ok = match (&op1, &op2) {
        (TypeId::Int32, TypeId::Int32) => true,
        (TypeId::Float32, TypeId::Float32) => true,
        _ => false,
    };
    if !ok {
        return Err(VerifyError::with_index(i, VerifyErrorMessage::WrongArithmeticOperands));
    }
    proof {
        assert(stack@ =~= s0.take(s0.len() - 2));
    }
    stack.push(op1);
    Ok(())
}

#[verifier::loop_isolation(false)]
fn check_call(b: &Binder, i: usize, signature: &FunctionSignature, stack: &mut Vec<TypeId>) -> (r: VerifyResult<()>)
    requires
        b.wf(),
    ensures
        stack_outcome(r, step_call(*b, i as int, signature@, types_view(old(stack)@)), final(stack)@),
{
    broadcast use lemma_types_view_push, lemma_types_view_take;
    let ghost s0 = stack@;
    let ghost sv = types_view(stack@);
    let declaration = match b.get(signature) {
        Some(d) => d,
        None => {
            return Err(VerifyError::with_index(i, VerifyErrorMessage::FunctionNotDefined(signature.clone())));
        },
    };
    let parameters = declaration.parameters();
    let count = parameters.len();
    if stack.len() < count {
        return Err(VerifyError::with_index(i, VerifyErrorMessage::ExpectedNumberOfOperands(count)));
    }
    let ghost params = types_view(parameters@);
    let ghost args = sv.skip(sv.len() - count);
    let mut j: usize = count;
    while j > 0
        invariant
            j <= count,
            count == parameters@.len(),
            params == types_view(parameters@),
            s0.len() >= count,
            sv == types_view(s0),
            stack@ == s0.take(s0.len() - count + j),
            args == sv.skip(sv.len() - count),
            last_argument_mismatch(params, args, count as int) == last_argument_mismatch(params, args, j as int),
        decreases j,
    {
        j = j - 1;
        let operand = stack.pop().unwrap();
        assert(operand@ == args[j as int]);
        assert(params[j as int] == parameters@[j as int]@);
        let checked = same_type(i, &parameters[j], &operand);
        if checked.is_err() {
            proof {
                assert(last_argument_mismatch(params, args, j + 1) == Some(j as int));
                assert(b.lookup(signature@) == Some(*declaration));
                assert(step_call(*b, i as int, signature@, sv) == Err::<Seq<TypeIdView>, ErrorView>(
                    wrong_type(i as int, params[j as int], args[j as int]),
                ));
            }
            return checked;
        }
        assert(stack@ =~= s0.take(s0.len() - count + j));
    }
    if !declaration.return_type().is_void() {
        stack.push(declaration.return_type().clone());
    }
    Ok(())
}

fn check_load_argument(parameters: &Vec<TypeId>, i: usize, index: u32, stack: &mut Vec<TypeId>) -> (r: VerifyResult<()>)
    ensures
        stack_outcome(r, step_load_argument(types_view(parameters@), i as int, index as int, types_view(old(stack)@)), final(stack)@),
{
    broadcast use lemma_types_view_push;
    let index = index as usize;
    if index < parameters.len() {
        stack.push(parameters[index].clone());
        Ok(())
    } else {
        Err(VerifyError::with_index(i, VerifyErrorMessage::ArgumentIndexOutOfRange))
    }
}

fn check_return(return_type: &TypeId, i: usize, stack: &mut Vec<TypeId>) -> (r: VerifyResult<()>)
    ensures
        stack_outcome(r, step_return(return_type@, i as int, types_view(old(stack)@)), final(stack)@),
{
    broadcast use lemma_types_view_drop_last;
    if !return_type.is_void() {
        let operand = pop_operand(stack, i)?;
        same_type(i, return_type, &operand)?;
    }
    Ok(())
}

fn check_new_array(element: &TypeId, i: usize, stack: &mut Vec<TypeId>) -> (r: VerifyResult<()>)
    ensures
        stack_outcome(r, step_new_array(element@, i as int, types_view(old(stack)@)), final(stack)@),
{
    broadcast use lemma_types_view_push, lemma_types_view_drop_last;
    let length = pop_operand(stack, i)?;
    same_type(i, &TypeId::Int32, &length)?;
    stack.push(TypeId::Array(Box::new(element.clone())));
    Ok(())
}

fn check_load_element(element: &TypeId, i: usize, stack: &mut Vec<TypeId>) -> (r: VerifyResult<()>)
    ensures
        stack_outcome(r, step_load_element(element@, i as int, types_view(old(stack)@)), final(stack)@),
{
    broadcast use lemma_types_view_push, lemma_types_view_take;
    let ghost s0 = stack@;
    let array_index = pop_operand(stack, i)?;
    let array_reference = pop_operand(stack, i)?;
    let array_reference_type = TypeId::Array(Box::new(element.clone()));
    same_type(i, &TypeId::Int32, &array_index)?;
    same_type(i, &array_reference_type, &array_reference)?;
    proof {
        assert(stack@ =~= s0.take(s0.len() - 2));
    }
    stack.push(element.clone());
    Ok(())
}

fn check_store_element(element: &TypeId, i: usize, stack: &mut Vec<TypeId>) -> (r: VerifyResult<()>)
    ensures
        stack_outcome(r, step_store_element(element@, i as int, types_view(old(stack)@)), final(stack)@),
{
    broadcast use lemma_types_view_take;
    let ghost s0 = stack@;
    let array_value = pop_operand(stack, i)?;
    let array_index = pop_operand(stack, i)?;
    let array_reference = pop_operand(stack, i)?;
    let array_reference_type = TypeId::Array(Box::new(element.clone()));
    same_type(i, &TypeId::Int32, &array_index)?;
    same_type(i, &array_reference_type, &array_reference)?;
    same_type(i, &array_value, element)?;
    proof {
        assert(stack@ =~= s0.take(s0.len() - 3));
    }
    Ok(())
}

fn check_load_array_length(i: usize, stack: &mut Vec<TypeId>) -> (r: VerifyResult<()>)
    ensures
        stack_outcome(r, step_load_array_length(i as int, types_view(old(stack)@)), final(stack)@),
{
    broadcast use lemma_types_view_push, lemma_types_view_drop_last;
    let array_reference = pop_operand(stack, i)?;
    if !array_reference.is_array() {
        return Err(VerifyError::with_index(i, VerifyErrorMessage::ExpectedArrayReference));
    }
    stack.push(TypeId::Int32);
    Ok(())
}

fn check_load_field(ts: &TypeStorage, i: usize, class: &String, field: &String, stack: &mut Vec<TypeId>) -> (r: VerifyResult<()>)
    requires
        ts.wf(),
    ensures
        stack_outcome(r, step_load_field(*ts, i as int, class@, field@, types_view(old(stack)@)), final(stack)@),
{
    broadcast use lemma_types_view_push, lemma_types_view_drop_last;
    let object = pop_operand(stack, i)?;
    same_type(i, &TypeId::Class(class.clone()), &object)?;
    let t = field_type(ts, i, class, field)?;
    stack.push(t);
    Ok(())
}

fn check_store_field(ts: &TypeStorage, i: usize, class: &String, field: &String, stack: &mut Vec<TypeId>) -> (r: VerifyResult<()>)
    requires
        ts.wf(),
    ensures
        stack_outcome(r, step_store_field(*ts, i as int, class@, field@, types_view(old(stack)@)), final(stack)@),
{
    broadcast use lemma_types_view_take;
    let ghost s0 = stack@;
    let value = pop_operand(stack, i)?;
    let object = pop_operand(stack, i)?;
    same_type(i, &TypeId::Class(class.clone()), &object)?;
    let t = field_type(ts, i, class, field)?;
    same_type(i, &t, &value)?;
    proof {
        assert(stack@ =~= s0.take(s0.len() - 2));
    }
    Ok(())
}

/// Whether `r`, the new operand types and the new branches match the specified outcome.
pub open spec fn step_outcome(
    r: VerifyResult<()>,
    expected: StepResult,
    after: Seq<TypeId>,
    branches_after: Seq<(usize, usize, Vec<TypeId>)>,
) -> bool {
    match expected {
        Err(e) => r is Err && r->Err_0@ == e,
        Ok((s, brs)) => r is Ok && types_view(after) == s && branches_view(branches_after) == brs,
    }
}

fn check_conditional_branch(
    n: usize,
    i: usize,
    target: u32,
    ordered: bool,
    stack: &mut Vec<TypeId>,
    branches: &mut Vec<(usize, usize, Vec<TypeId>)>,
) -> (r: VerifyResult<()>)
    ensures
        step_outcome(
            r,
            step_conditional_branch(n as int, i as int, target as int, ordered, types_view(old(stack)@), branches_view(old(branches)@)),
            final(stack)@,
            final(branches)@,
        ),
{
    broadcast use lemma_types_view_take, lemma_branches_view_push;
    let ghost s0 = stack@;
    let op2 = pop_operand(stack, i)?;
    let op1 = pop_operand(stack, i)?;
    same_type(i, &op1, &op2)?;
    if target as usize >= n {
        return Err(VerifyError::with_index(i, VerifyErrorMessage::InvalidBranchTarget));
    }
    let comparable = match op1 {
        TypeId::Int32 | TypeId::Float32 => true,
        _ => false,
    };
    if ordered && !comparable {
        return Err(VerifyError::with_index(i, VerifyErrorMessage::ExpectedComparableType));
    }
    proof {
        assert(stack@ =~= s0.take(s0.len() - 2));
    }
    let operands = clone_types(stack);
    branches.push((i, target as usize, operands));
    Ok(())
}

fn check_branch(
    n: usize,
    i: usize,
    target: u32,
    stack: &Vec<TypeId>,
    branches: &mut Vec<(usize, usize, Vec<TypeId>)>,
) -> (r: VerifyResult<()>)
    ensures
        step_outcome(
            r,
            if target >= n {
                Err(error_at(i as int, MessageView::InvalidBranchTarget))
            } else {
                Ok((types_view(stack@), branches_view(old(branches)@).push((i as int, target as int, types_view(stack@)))))
            },
            stack@,
            final(branches)@,
        ),
{
    broadcast use lemma_branches_view_push;
    if target as usize >= n {
        return Err(VerifyError::with_index(i, VerifyErrorMessage::InvalidBranchTarget));
    }
    let operands = clone_types(stack);
    branches.push((i, target as usize, operands));
    Ok(())
}

/// Checks one instruction against the operand types and records branches.
fn verify_instruction(
    f: &Function,
    b: &Binder,
    ts: &TypeStorage,
    i: usize,
    instruction: &Instruction,
    stack: &mut Vec<TypeId>,
    branches: &mut Vec<(usize, usize, Vec<TypeId>)>,
) -> (r: VerifyResult<()>)
    requires
        b.wf(),
        ts.wf(),
        i < f.spec_instructions().len(),
        *instruction == f.spec_instructions()[i as int],
    ensures
        step_outcome(r, step_spec(*f, *b, *ts, i as int, types_view(old(stack)@), branches_view(old(branches)@)), final(stack)@, final(branches)@),
{
    broadcast use lemma_types_view_push;
    let n = f.instructions().len();
    match instruction {
        Instruction::LoadInt32(_) => {
            stack.push(TypeId::Int32);
            Ok(())
        },
        Instruction::LoadFloat32(_) => {
            stack.push(TypeId::Float32);
            Ok(())
        },
        Instruction::LoadNull(null_type) => {
            stack.push(null_type.clone());
            Ok(())
        },
        Instruction::NewObject(class) => {
            stack.push(TypeId::Class(class.clone()));
            Ok(())
        },
        Instruction::LoadLocal(index) => check_load_local(f.locals(), i, *index, stack),
        Instruction::StoreLocal(index) => check_store_local(f.locals(), i, *index, stack),
        Instruction::Add | Instruction::Sub => check_arithmetic(i, stack),
        Instruction::Call(signature) => check_call(b, i, signature, stack),
        Instruction::LoadArgument(index) => check_load_argument(f.declaration().parameters(), i, *index, stack),
        Instruction::Return => check_return(f.declaration().return_type(), i, stack),
        Instruction::NewArray(element) => check_new_array(element, i, stack),
        Instruction::LoadElement(element) => check_load_element(element, i, stack),
        Instruction::StoreElement(element) => check_store_element(element, i, stack),
        Instruction::LoadArrayLength => check_load_array_length(i, stack),
        Instruction::LoadField(class, field) => check_load_field(ts, i, class, field, stack),
        Instruction::StoreField(class, field) => check_store_field(ts, i, class, field, stack),
        Instruction::Branch(target) => check_branch(n, i, *target, stack, branches),
        Instruction::BranchEqual(target) | Instruction::BranchNotEqual(target) => check_conditional_branch(
            n,
            i,
            *target,
            false,
            stack,
            branches,
        ),
        Instruction::BranchGreaterThan(target)
        | Instruction::BranchGreaterThanOrEqual(target)
        | Instruction::BranchLessThan(target)
        | Instruction::BranchLessThanOrEqual(target) => check_conditional_branch(n, i, *target, true, stack, branches),
    }
}


/// A function that verifies stores into an array only values of the
/// array's element type: before every `StoreElement(e)` the value on top of
/// the operand stack has type `e`, below it an `Int32` index and an array of `e`.
pub proof fn law_store_element_stores_element_type(f: Function, b: Binder, ts: TypeStorage, i: int)
    requires
        verify_spec(f, b, ts) is Ok,
        0 <= i < f.spec_instructions().len(),
        f.spec_instructions()[i] is StoreElement,
    ensures
        ({
            let stack = operand_types_before(f, b, ts, i);
            let e = f.spec_instructions()[i]->StoreElement_0@;
            &&& stack.len() >= 3
            &&& stack[stack.len() - 1] == e
            &&& stack[stack.len() - 2] == TypeIdView::Int32
            &&& stack[stack.len() - 3] == TypeIdView::Array(Box::new(e))
        }),
{
    let n = f.spec_instructions().len() as int;
    if run_spec(f, b, ts, i + 1) is Err {
        lemma_run_fails_later(f, b, ts, i + 1, n);
    }
    lemma_run_prefix(f, b, ts, i + 1, i);
}

/// Storing a value of another type than the array's element type is
/// refused: where the run reaches a `StoreElement(e)` with an `Int32` index
/// and an array of `e` under a value of type `v != e`, verification fails at
/// that instruction with `WrongType(v, e)`.
pub proof fn law_store_element_wrong_value_refused(f: Function, b: Binder, ts: TypeStorage, i: int)
    requires
        0 <= i < f.spec_instructions().len(),
        f.spec_instructions()[i] is StoreElement,
        forall|k: int| 0 <= k < f.spec_declaration().spec_parameters().len()
            ==> !((#[trigger] f.spec_declaration().spec_parameters()[k]) is Void),
        run_spec(f, b, ts, i) is Ok,
        ({
            let stack = operand_types_before(f, b, ts, i);
            let e = f.spec_instructions()[i]->StoreElement_0@;
            &&& stack.len() >= 3
            &&& stack[stack.len() - 1] != e
            &&& stack[stack.len() - 2] == TypeIdView::Int32
            &&& stack[stack.len() - 3] == TypeIdView::Array(Box::new(e))
        }),
    ensures
        ({
            let stack = operand_types_before(f, b, ts, i);
            let e = f.spec_instructions()[i]->StoreElement_0@;
            verify_spec(f, b, ts) == Err::<(), ErrorView>(ErrorView {
                index: Some(i),
                message: MessageView::WrongType(stack[stack.len() - 1], e),
            })
        }),
{
    let n = f.spec_instructions().len() as int;
    lemma_run_fails_later(f, b, ts, i + 1, n);
}


/// What an instruction needs of the operand types before it, and of the
/// function around it: the types that it takes must be the ones that it is
/// defined on, and the locals, arguments, fields, functions and branch
/// targets that it names must exist.
pub open spec fn operand_requirements(f: Function, b: Binder, ts: TypeStorage, i: int, stack: Seq<TypeIdView>) -> bool {
    let n = f.spec_instructions().len() as int;
    let len = stack.len() as int;
    let locals = types_view(f.spec_locals());
    let parameters = types_view(f.spec_declaration().spec_parameters());
    let return_type = f.spec_declaration().spec_return_type()@;
    let two_equal = len >= 2 && stack[len - 1] == stack[len - 2];
    let numeric = len >= 1 && (stack[len - 1] == TypeIdView::Int32 || stack[len - 1] == TypeIdView::Float32);
    match f.spec_instructions()[i] {
        Instruction::LoadLocal(x) => x < locals.len(),
        Instruction::StoreLocal(x) => len >= 1 && x < locals.len() && stack[len - 1] == locals[x as int],
        Instruction::LoadArgument(x) => x < parameters.len(),
        Instruction::Add => two_equal && numeric,
        Instruction::Sub => two_equal && numeric,
        Instruction::Return => return_type == TypeIdView::Void || (len >= 1 && stack[len - 1] == return_type),
        Instruction::NewArray(_) => len >= 1 && stack[len - 1] == TypeIdView::Int32,
        Instruction::LoadElement(e) => len >= 2 && stack[len - 1] == TypeIdView::Int32 && stack[len - 2]
            == TypeIdView::Array(Box::new(e@)),
        Instruction::StoreElement(e) => len >= 3 && stack[len - 1] == e@ && stack[len - 2] == TypeIdView::Int32 && stack[len
            - 3] == TypeIdView::Array(Box::new(e@)),
        Instruction::LoadArrayLength => len >= 1 && stack[len - 1] is Array,
        Instruction::LoadField(c, field) => len >= 1 && stack[len - 1] == TypeIdView::Class(c@) && field_type_spec(
            ts,
            c@,
            field@,
        ) is Ok,
        Instruction::StoreField(c, field) => len >= 2 && stack[len - 2] == TypeIdView::Class(c@) && field_type_spec(
            ts,
            c@,
            field@,
        ) == Ok::<TypeIdView, MessageView>(stack[len - 1]),
        Instruction::Call(signature) => b.lookup(signature@) is Some && {
            let params = types_view(b.lookup(signature@)->0.spec_parameters());
            len >= params.len() && stack.skip(len - params.len()) == params
        },
        Instruction::Branch(target) => target < n,
        Instruction::BranchEqual(target) => two_equal && target < n,
        Instruction::BranchNotEqual(target) => two_equal && target < n,
        Instruction::BranchGreaterThan(target) => two_equal && numeric && target < n,
        Instruction::BranchGreaterThanOrEqual(target) => two_equal && numeric && target < n,
        Instruction::BranchLessThan(target) => two_equal && numeric && target < n,
        Instruction::BranchLessThanOrEqual(target) => two_equal && numeric && target < n,
        _ => true,
    }
}

/// Where no argument disagrees with its parameter, the arguments are the
/// parameters.
proof fn lemma_no_argument_mismatch(params: Seq<TypeIdView>, args: Seq<TypeIdView>, j: int)
    requires
        0 <= j <= params.len(),
        j <= args.len(),
        last_argument_mismatch(params, args, j) is None,
    ensures
        forall|k: int| 0 <= k < j ==> params[k] == args[k],
    decreases j,
{
    if j > 0 {
        lemma_no_argument_mismatch(params, args, j - 1);
    }
}

/// A function that verifies is well typed: before each of its
/// instructions the operand types are those that the instruction is
/// defined on, and everything that it names exists.
pub proof fn law_verified_well_typed(f: Function, b: Binder, ts: TypeStorage, i: int)
    requires
        verify_spec(f, b, ts) is Ok,
        0 <= i < f.spec_instructions().len(),
    ensures
        operand_requirements(f, b, ts, i, operand_types_before(f, b, ts, i)),
{
    let n = f.spec_instructions().len() as int;
    if run_spec(f, b, ts, i + 1) is Err {
        lemma_run_fails_later(f, b, ts, i + 1, n);
    }
    lemma_run_prefix(f, b, ts, i + 1, i);
    let stack = operand_types_before(f, b, ts, i);
    if let Instruction::Call(signature) = f.spec_instructions()[i] {
        let params = types_view(b.lookup(signature@)->0.spec_parameters());
        let args = stack.skip(stack.len() - params.len());
        lemma_no_argument_mismatch(params, args, params.len() as int);
        assert(args =~= params);
    }
}


/// The branches recorded by a run are kept by every longer run, and a run
/// records the branch of instruction `k` right after it.
proof fn lemma_run_branches_kept(f: Function, b: Binder, ts: TypeStorage, k: int, m: int)
    requires
        0 <= k <= m,
        run_spec(f, b, ts, m) is Ok,
    ensures
        run_spec(f, b, ts, k) is Ok,
        run_spec(f, b, ts, k)->Ok_0.branches.len() <= run_spec(f, b, ts, m)->Ok_0.branches.len(),
        forall|j: int|
            0 <= j < run_spec(f, b, ts, k)->Ok_0.branches.len() ==> #[trigger] run_spec(f, b, ts, m)->Ok_0.branches[j]
                == run_spec(f, b, ts, k)->Ok_0.branches[j],
    decreases m - k,
{
    lemma_run_prefix(f, b, ts, m, k);
    if k < m {
        lemma_run_branches_kept(f, b, ts, k + 1, m);
        lemma_run_prefix(f, b, ts, m, k + 1);
        let before = run_spec(f, b, ts, k)->Ok_0;
        let after = run_spec(f, b, ts, k + 1)->Ok_0;
        assert(after.branches.len() >= before.branches.len());
        assert forall|j: int| 0 <= j < before.branches.len() implies #[trigger] after.branches[j] == before.branches[j] by {
            assert(after.branches == before.branches || after.branches == before.branches.push(after.branches.last()));
        }
    }
}

proof fn lemma_branches_error_none(f: Function, b: Binder, ts: TypeStorage, branches: Seq<BranchRecord>, k: int)
    requires
        branches_error(f, b, ts, branches, k) is None,
    ensures
        forall|j: int| 0 <= j < k ==> #[trigger] branch_error(f, b, ts, branches[j]) is None,
    decreases k,
{
    if k > 0 {
        lemma_branches_error_none(f, b, ts, branches, k - 1);
    }
}

proof fn lemma_first_mismatch_none(a: Seq<TypeIdView>, c: Seq<TypeIdView>, j: int)
    requires
        first_mismatch(a, c, j) is None,
    ensures
        forall|k: int| 0 <= k < j ==> a[k] == c[k],
    decreases j,
{
    if j > 0 {
        lemma_first_mismatch_none(a, c, j - 1);
    }
}

/// In a function that verifies, every branch agrees with its target: the
/// operand types that an unconditional branch leaves, and those that a
/// conditional branch leaves after taking its two operands, are the operand
/// types before the target instruction.
pub proof fn law_verified_branches_agree(f: Function, b: Binder, ts: TypeStorage, i: int)
    requires
        verify_spec(f, b, ts) is Ok,
        0 <= i < f.spec_instructions().len(),
    ensures
        ({
            let stack = operand_types_before(f, b, ts, i);
            match f.spec_instructions()[i] {
                Instruction::Branch(t) => operand_types_before(f, b, ts, t as int) == stack,
                Instruction::BranchEqual(t) => operand_types_before(f, b, ts, t as int) == stack.take(stack.len() - 2),
                Instruction::BranchNotEqual(t) => operand_types_before(f, b, ts, t as int) == stack.take(stack.len() - 2),
                Instruction::BranchGreaterThan(t) => operand_types_before(f, b, ts, t as int) == stack.take(stack.len() - 2),
                Instruction::BranchGreaterThanOrEqual(t) => operand_types_before(f, b, ts, t as int) == stack.take(
                    stack.len() - 2,
                ),
                Instruction::BranchLessThan(t) => operand_types_before(f, b, ts, t as int) == stack.take(stack.len() - 2),
                Instruction::BranchLessThanOrEqual(t) => operand_types_before(f, b, ts, t as int) == stack.take(
                    stack.len() - 2,
                ),
                _ => true,
            }
        }),
{
    let n = f.spec_instructions().len() as int;
    if run_spec(f, b, ts, i + 1) is Err {
        lemma_run_fails_later(f, b, ts, i + 1, n);
    }
    lemma_run_branches_kept(f, b, ts, i + 1, n);
    lemma_run_prefix(f, b, ts, i + 1, i);
    let st = run_spec(f, b, ts, i)->Ok_0;
    let next = run_spec(f, b, ts, i + 1)->Ok_0;
    let all = run_spec(f, b, ts, n)->Ok_0.branches;
    lemma_branches_error_none(f, b, ts, all, all.len() as int);
    if next.branches.len() > st.branches.len() {
        let j = next.branches.len() - 1;
        let br = next.branches[j];
        assert(all[j] == br);
        assert(branch_error(f, b, ts, br) is None);
        let target = operand_types_before(f, b, ts, br.1);
        lemma_first_mismatch_none(br.2, target, br.2.len() as int);
        assert(br.2 =~= target);
    }
}

} // verus!
