//! The stack-machine instruction set.
use vstd::prelude::*;
use crate::model::function::{FunctionSignature, signature_text, push_signature};
use crate::model::typesystem::{TypeId, TypeIdView, type_text, push_type};
use crate::text::{decimal, push_decimal, push_str, string_from_chars};

verus! {

/// Index of the instruction that a branch jumps to.
pub type BranchTarget = u32;

/// An instruction of the stack machine. `LoadFloat32` carries its 32-bit
/// float constant as decimal text (digits with one decimal point), which
/// code generation converts to the machine value.
#[derive(Debug, PartialEq)]
pub enum Instruction {
    LoadInt32(i32),
    LoadFloat32(String),
    LoadNull(TypeId),
    LoadLocal(u32),
    StoreLocal(u32),
    Add,
    Sub,
    Call(FunctionSignature),
    LoadArgument(u32),
    Return,
    NewArray(TypeId),
    LoadElement(TypeId),
    StoreElement(TypeId),
    LoadArrayLength,
    NewObject(String),
    LoadField(String, String),
    StoreField(String, String),
    Branch(BranchTarget),
    BranchEqual(BranchTarget),
    BranchNotEqual(BranchTarget),
    BranchGreaterThan(BranchTarget),
    BranchGreaterThanOrEqual(BranchTarget),
    BranchLessThan(BranchTarget),
    BranchLessThanOrEqual(BranchTarget),
}

/// The mathematical form of an [`Instruction`].
pub enum InstructionView {
    LoadInt32(i32),
    LoadFloat32(Seq<char>),
    LoadNull(TypeIdView),
    LoadLocal(u32),
    StoreLocal(u32),
    Add,
    Sub,
    Call((Seq<char>, Seq<TypeIdView>)),
    LoadArgument(u32),
    Return,
    NewArray(TypeIdView),
    LoadElement(TypeIdView),
    StoreElement(TypeIdView),
    LoadArrayLength,
    NewObject(Seq<char>),
    LoadField(Seq<char>, Seq<char>),
    StoreField(Seq<char>, Seq<char>),
    Branch(BranchTarget),
    BranchEqual(BranchTarget),
    BranchNotEqual(BranchTarget),
    BranchGreaterThan(BranchTarget),
    BranchGreaterThanOrEqual(BranchTarget),
    BranchLessThan(BranchTarget),
    BranchLessThanOrEqual(BranchTarget),
}

impl View for Instruction {
    type V = InstructionView;

    open spec fn view(&self) -> InstructionView {
        match *self {
            Instruction::LoadInt32(v) => InstructionView::LoadInt32(v),
            Instruction::LoadFloat32(t) => InstructionView::LoadFloat32(t@),
            Instruction::LoadNull(t) => InstructionView::LoadNull(t@),
            Instruction::LoadLocal(i) => InstructionView::LoadLocal(i),
            Instruction::StoreLocal(i) => InstructionView::StoreLocal(i),
            Instruction::Add => InstructionView::Add,
            Instruction::Sub => InstructionView::Sub,
            Instruction::Call(s) => InstructionView::Call(s@),
            Instruction::LoadArgument(i) => InstructionView::LoadArgument(i),
            Instruction::Return => InstructionView::Return,
            Instruction::NewArray(t) => InstructionView::NewArray(t@),
            Instruction::LoadElement(t) => InstructionView::LoadElement(t@),
            Instruction::StoreElement(t) => InstructionView::StoreElement(t@),
            Instruction::LoadArrayLength => InstructionView::LoadArrayLength,
            Instruction::NewObject(c) => InstructionView::NewObject(c@),
            Instruction::LoadField(c, f) => InstructionView::LoadField(c@, f@),
            Instruction::StoreField(c, f) => InstructionView::StoreField(c@, f@),
            Instruction::Branch(t) => InstructionView::Branch(t),
            Instruction::BranchEqual(t) => InstructionView::BranchEqual(t),
            Instruction::BranchNotEqual(t) => InstructionView::BranchNotEqual(t),
            Instruction::BranchGreaterThan(t) => InstructionView::BranchGreaterThan(t),
            Instruction::BranchGreaterThanOrEqual(t) => InstructionView::BranchGreaterThanOrEqual(t),
            Instruction::BranchLessThan(t) => InstructionView::BranchLessThan(t),
            Instruction::BranchLessThanOrEqual(t) => InstructionView::BranchLessThanOrEqual(t),
        }
    }
}

/// The views of a sequence of instructions.
pub open spec fn instructions_view(s: Seq<Instruction>) -> Seq<InstructionView> {
    s.map_values(|i: Instruction| i@)
}

/// The target of a branch instruction; `None` for every other instruction.
pub open spec fn spec_branch_target(instruction: Instruction) -> Option<BranchTarget> {
    match instruction {
        Instruction::Branch(t) => Some(t),
        Instruction::BranchEqual(t) => Some(t),
        Instruction::BranchNotEqual(t) => Some(t),
        Instruction::BranchGreaterThan(t) => Some(t),
        Instruction::BranchGreaterThanOrEqual(t) => Some(t),
        Instruction::BranchLessThan(t) => Some(t),
        Instruction::BranchLessThanOrEqual(t) => Some(t),
        _ => None,
    }
}

impl Instruction {
    pub fn branch_target(&self) -> (r: Option<BranchTarget>)
        ensures
            r == spec_branch_target(*self),
    {
        match self {
            Instruction::Branch(target)
            | Instruction::BranchEqual(target)
            | Instruction::BranchNotEqual(target)
            | Instruction::BranchGreaterThan(target)
            | Instruction::BranchGreaterThanOrEqual(target)
            | Instruction::BranchLessThan(target)
            | Instruction::BranchLessThanOrEqual(target) => Some(*target),
            _ => None,
        }
    }
}

/// The text of an instruction: its name, then its operand where it has one.
pub open spec fn instruction_text(i: InstructionView) -> Seq<char> {
    match i {
        InstructionView::LoadInt32(value) => "LoadInt32 "@ + decimal(value as int),
        InstructionView::LoadFloat32(value) => "LoadFloat32 "@ + value,
        InstructionView::LoadNull(_) => "LoadNull"@,
        InstructionView::LoadLocal(index) => "LoadLocal "@ + decimal(index as int),
        InstructionView::StoreLocal(index) => "StoreLocal "@ + decimal(index as int),
        InstructionView::Add => "Add"@,
        InstructionView::Sub => "Sub"@,
        InstructionView::Call(signature) => "Call "@ + signature_text(signature),
        InstructionView::LoadArgument(argument) => "LoadArgument "@ + decimal(argument as int),
        InstructionView::Return => "Return"@,
        InstructionView::NewArray(element) => "NewArray "@ + type_text(element),
        InstructionView::LoadElement(element) => "LoadElement "@ + type_text(element),
        InstructionView::StoreElement(element) => "StoreElement "@ + type_text(element),
        InstructionView::NewObject(class_type) => "NewObject "@ + class_type,
        InstructionView::LoadField(class_type, field) => "LoadField "@ + class_type + "::"@ + field,
        InstructionView::StoreField(class_type, field) => "StoreField "@ + class_type + "::"@ + field,
        InstructionView::LoadArrayLength => "LoadArrayLength"@,
        InstructionView::Branch(target) => "Branch "@ + decimal(target as int),
        InstructionView::BranchEqual(target) => "BranchEqual "@ + decimal(target as int),
        InstructionView::BranchNotEqual(target) => "BranchNotEqual "@ + decimal(target as int),
        InstructionView::BranchGreaterThan(target) => "BranchGreaterThan "@ + decimal(target as int),
        InstructionView::BranchGreaterThanOrEqual(target) => "BranchGreaterThanOrEqual "@ + decimal(target as int),
        InstructionView::BranchLessThan(target) => "BranchLessThan "@ + decimal(target as int),
        InstructionView::BranchLessThanOrEqual(target) => "BranchLessThanOrEqual "@ + decimal(target as int),
    }
}

impl Instruction {
    /// The text of the instruction (see [`instruction_text`]).
    pub fn to_string(&self) -> (r: String)
        ensures
            r@ == instruction_text(self@),
    {
        let mut out: Vec<char> = Vec::new();
        match self {
            Instruction::LoadInt32(value) => {
                push_str(&mut out, "LoadInt32 ");
                push_decimal(&mut out, *value as i64);
            },
            Instruction::LoadFloat32(value) => {
                push_str(&mut out, "LoadFloat32 ");
                push_str(&mut out, value.as_str());
            },
            Instruction::LoadNull(_) => push_str(&mut out, "LoadNull"),
            Instruction::LoadLocal(index) => {
                push_str(&mut out, "LoadLocal ");
                push_decimal(&mut out, *index as i64);
            },
            Instruction::StoreLocal(index) => {
                push_str(&mut out, "StoreLocal ");
                push_decimal(&mut out, *index as i64);
            },
            Instruction::Add => push_str(&mut out, "Add"),
            Instruction::Sub => push_str(&mut out, "Sub"),
            Instruction::Call(signature) => {
                push_str(&mut out, "Call ");
                push_signature(&mut out, signature);
            },
            Instruction::LoadArgument(argument) => {
                push_str(&mut out, "LoadArgument ");
                push_decimal(&mut out, *argument as i64);
            },
            Instruction::Return => push_str(&mut out, "Return"),
            Instruction::NewArray(element) => {
                push_str(&mut out, "NewArray ");
                push_type(&mut out, element);
            },
            Instruction::LoadElement(element) => {
                push_str(&mut out, "LoadElement ");
                push_type(&mut out, element);
            },
            Instruction::StoreElement(element) => {
                push_str(&mut out, "StoreElement ");
                push_type(&mut out, element);
            },
            Instruction::NewObject(class_type) => {
                push_str(&mut out, "NewObject ");
                push_str(&mut out, class_type.as_str());
            },
            Instruction::LoadField(class_type, field) => {
                push_str(&mut out, "LoadField ");
                push_str(&mut out, class_type.as_str());
                push_str(&mut out, "::");
                push_str(&mut out, field.as_str());
            },
            Instruction::StoreField(class_type, field) => {
                push_str(&mut out, "StoreField ");
                push_str(&mut out, class_type.as_str());
                push_str(&mut out, "::");
                push_str(&mut out, field.as_str());
            },
            Instruction::LoadArrayLength => push_str(&mut out, "LoadArrayLength"),
            Instruction::Branch(target) => {
                push_str(&mut out, "Branch ");
                push_decimal(&mut out, *target as i64);
            },
            Instruction::BranchEqual(target) => {
                push_str(&mut out, "BranchEqual ");
                push_decimal(&mut out, *target as i64);
            },
            Instruction::BranchNotEqual(target) => {
                push_str(&mut out, "BranchNotEqual ");
                push_decimal(&mut out, *target as i64);
            },
            Instruction::BranchGreaterThan(target) => {
                push_str(&mut out, "BranchGreaterThan ");
                push_decimal(&mut out, *target as i64);
            },
            Instruction::BranchGreaterThanOrEqual(target) => {
                push_str(&mut out, "BranchGreaterThanOrEqual ");
                push_decimal(&mut out, *target as i64);
            },
            Instruction::BranchLessThan(target) => {
                push_str(&mut out, "BranchLessThan ");
                push_decimal(&mut out, *target as i64);
            },
            Instruction::BranchLessThanOrEqual(target) => {
                push_str(&mut out, "BranchLessThanOrEqual ");
                push_decimal(&mut out, *target as i64);
            },
        }
        assert(out@ =~= instruction_text(self@));
        string_from_chars(out.as_slice())
    }
}

} // verus!
