//! The register-based intermediate representation (MIR): every operand
//! stack slot and every local becomes a numbered, typed register.
use vstd::prelude::*;
use crate::model::typesystem::{TypeId, TypeIdView};
use crate::model::function::FunctionSignature;
use crate::compiler::ir::{BranchLabel, Condition};
use crate::analysis::{VirtualRegister, virtual_register_of};

pub mod branches;
pub mod compiler;

verus! {

/// A typed register of the intermediate representation.
#[derive(Debug, PartialEq, Eq, Hash)]
pub struct RegisterMIR {
    pub number: u32,
    pub value_type: TypeId,
}

/// The mathematical form of a [`RegisterMIR`].
pub struct RegisterMIRView {
    pub number: u32,
    pub value_type: TypeIdView,
}

impl View for RegisterMIR {
    type V = RegisterMIRView;

    open spec fn view(&self) -> RegisterMIRView {
        RegisterMIRView { number: self.number, value_type: self.value_type@ }
    }
}

impl Clone for RegisterMIR {
    fn clone(&self) -> (r: Self)
        ensures
            r == *self,
    {
        RegisterMIR { number: self.number, value_type: self.value_type.clone() }
    }
}

impl RegisterMIR {
    pub fn new(number: u32, value_type: TypeId) -> (r: RegisterMIR)
        ensures
            r.number == number,
            r.value_type == value_type,
    {
        RegisterMIR { number, value_type }
    }

    /// Whether both registers have the same number and type.
    pub fn is_same(&self, other: &RegisterMIR) -> (r: bool)
        ensures
            r == (self@ == other@),
    {
        self.number == other.number && self.value_type.is_same_type(&other.value_type)
    }
}

pub open spec fn registers_view(s: Seq<RegisterMIR>) -> Seq<RegisterMIRView> {
    s.map_values(|r: RegisterMIR| r@)
}

pub open spec fn option_register_view(r: Option<RegisterMIR>) -> Option<RegisterMIRView> {
    match r {
        Some(x) => Some(x@),
        None => None,
    }
}

pub fn clone_option_register(r: &Option<RegisterMIR>) -> (c: Option<RegisterMIR>)
    ensures
        c == *r,
{
    match r {
        Some(x) => Some(x.clone()),
        None => None,
    }
}

/// Copies a vector of registers.
pub fn clone_registers(v: &Vec<RegisterMIR>) -> (r: Vec<RegisterMIR>)
    ensures
        r@ == v@,
{
    let mut r: Vec<RegisterMIR> = Vec::new();
    let mut i: usize = 0;
    while i < v.len()
        invariant
            i <= v@.len(),
            r@ == v@.subrange(0, i as int),
        decreases v@.len() - i,
    {
        r.push(v[i].clone());
        i = i + 1;
        assert(r@ =~= v@.subrange(0, i as int));
    }
    assert(r@ =~= v@);
    r
}

/// An instruction of the intermediate representation together with the
/// index of the stack-machine instruction that it was compiled from.
#[derive(Debug, PartialEq)]
pub struct InstructionMIR {
    pub index: usize,
    pub data: InstructionMIRData,
}

/// The mathematical form of an [`InstructionMIR`].
pub struct InstructionMIRView {
    pub index: int,
    pub data: InstructionMIRDataView,
}

impl View for InstructionMIR {
    type V = InstructionMIRView;

    open spec fn view(&self) -> InstructionMIRView {
        InstructionMIRView { index: self.index as int, data: self.data@ }
    }
}

pub open spec fn mir_view(s: Seq<InstructionMIR>) -> Seq<InstructionMIRView> {
    s.map_values(|i: InstructionMIR| i@)
}

impl InstructionMIR {
    pub fn new(index: usize, data: InstructionMIRData) -> (r: InstructionMIR)
        ensures
            r.index == index,
            r.data == data,
    {
        InstructionMIR { index, data }
    }

    pub fn name(&self) -> (r: String)
        ensures
            r@ == name_spec(self.data@),
    {
        self.data.name()
    }
}

impl InstructionMIRData {
    /// The register that the instruction writes, as a register of the allocator.
    pub fn assign_virtual_register(&self) -> (r: Option<VirtualRegister>)
        ensures
            r == (match assign_register_spec(self@) {
                Some(x) => Some(virtual_register_of(x)),
                None => None,
            }),
    {
        match self.assign_register() {
            Some(register) => Some(VirtualRegister::from(&register)),
            None => None,
        }
    }

    /// The registers that the instruction reads, as registers of the allocator.
    pub fn use_virtual_registers(&self) -> (r: Vec<VirtualRegister>)
        ensures
            r@ == virtual_uses(self@),
    {
        let registers = self.use_registers();
        let mut r: Vec<VirtualRegister> = Vec::new();
        let mut i: usize = 0;
        while i < registers.len()
            invariant
                i <= registers@.len(),
                r@ == registers_view(registers@).subrange(0, i as int).map_values(|x: RegisterMIRView| virtual_register_of(x)),
            decreases registers@.len() - i,
        {
            r.push(VirtualRegister::from(&registers[i]));
            i = i + 1;
            assert(r@ =~= registers_view(registers@).subrange(0, i as int).map_values(|x: RegisterMIRView| virtual_register_of(x)));
        }
        assert(registers_view(registers@).subrange(0, i as int) =~= registers_view(registers@));
        r
    }
}

/// The registers that the instruction reads, as registers of the allocator.
pub open spec fn virtual_uses(d: InstructionMIRDataView) -> Seq<VirtualRegister> {
    use_registers_spec(d).map_values(|x: RegisterMIRView| virtual_register_of(x))
}

/// An instruction of the register-based intermediate representation.
#[derive(Debug, PartialEq)]
pub enum InstructionMIRData {
    LoadInt32(RegisterMIR, i32),
    LoadFloat32(RegisterMIR, String),
    LoadBool(RegisterMIR, bool),
    Move(RegisterMIR, RegisterMIR),
    AddInt32(RegisterMIR, RegisterMIR, RegisterMIR),
    AddInt32Constant(RegisterMIR, RegisterMIR, i32),
    SubInt32(RegisterMIR, RegisterMIR, RegisterMIR),
    SubInt32Constant(RegisterMIR, RegisterMIR, i32),
    MultiplyInt32(RegisterMIR, RegisterMIR, RegisterMIR),
    AddFloat32(RegisterMIR, RegisterMIR, RegisterMIR),
    SubFloat32(RegisterMIR, RegisterMIR, RegisterMIR),
    MultiplyFloat32(RegisterMIR, RegisterMIR, RegisterMIR),
    DivideFloat32(RegisterMIR, RegisterMIR, RegisterMIR),
    AndBool(RegisterMIR, RegisterMIR, RegisterMIR),
    OrBool(RegisterMIR, RegisterMIR, RegisterMIR),
    Return(Option<RegisterMIR>),
    Call(FunctionSignature, Option<RegisterMIR>, Vec<RegisterMIR>),
    LoadArgument(u32, RegisterMIR),
    LoadNull(RegisterMIR),
    NewArray(TypeId, RegisterMIR, RegisterMIR),
    LoadElement(TypeId, RegisterMIR, RegisterMIR, RegisterMIR),
    StoreElement(TypeId, RegisterMIR, RegisterMIR, RegisterMIR),
    LoadArrayLength(RegisterMIR, RegisterMIR),
    NewObject(TypeId, RegisterMIR),
    LoadField(TypeId, String, RegisterMIR, RegisterMIR),
    StoreField(TypeId, String, RegisterMIR, RegisterMIR),
    GarbageCollect,
    PrintStackFrame,
    BranchLabel(BranchLabel),
    Branch(BranchLabel),
    BranchCondition(Condition, TypeId, BranchLabel, RegisterMIR, RegisterMIR),
    Compare(Condition, TypeId, RegisterMIR, RegisterMIR, RegisterMIR),
}

/// The mathematical form of an [`InstructionMIRData`].
pub enum InstructionMIRDataView {
    LoadInt32(RegisterMIRView, i32),
    LoadFloat32(RegisterMIRView, Seq<char>),
    LoadBool(RegisterMIRView, bool),
    Move(RegisterMIRView, RegisterMIRView),
    AddInt32(RegisterMIRView, RegisterMIRView, RegisterMIRView),
    AddInt32Constant(RegisterMIRView, RegisterMIRView, i32),
    SubInt32(RegisterMIRView, RegisterMIRView, RegisterMIRView),
    SubInt32Constant(RegisterMIRView, RegisterMIRView, i32),
    MultiplyInt32(RegisterMIRView, RegisterMIRView, RegisterMIRView),
    AddFloat32(RegisterMIRView, RegisterMIRView, RegisterMIRView),
    SubFloat32(RegisterMIRView, RegisterMIRView, RegisterMIRView),
    MultiplyFloat32(RegisterMIRView, RegisterMIRView, RegisterMIRView),
    DivideFloat32(RegisterMIRView, RegisterMIRView, RegisterMIRView),
    AndBool(RegisterMIRView, RegisterMIRView, RegisterMIRView),
    OrBool(RegisterMIRView, RegisterMIRView, RegisterMIRView),
    Return(Option<RegisterMIRView>),
    Call((Seq<char>, Seq<TypeIdView>), Option<RegisterMIRView>, Seq<RegisterMIRView>),
    LoadArgument(u32, RegisterMIRView),
    LoadNull(RegisterMIRView),
    NewArray(TypeIdView, RegisterMIRView, RegisterMIRView),
    LoadElement(TypeIdView, RegisterMIRView, RegisterMIRView, RegisterMIRView),
    StoreElement(TypeIdView, RegisterMIRView, RegisterMIRView, RegisterMIRView),
    LoadArrayLength(RegisterMIRView, RegisterMIRView),
    NewObject(TypeIdView, RegisterMIRView),
    LoadField(TypeIdView, Seq<char>, RegisterMIRView, RegisterMIRView),
    StoreField(TypeIdView, Seq<char>, RegisterMIRView, RegisterMIRView),
    GarbageCollect,
    PrintStackFrame,
    BranchLabel(BranchLabel),
    Branch(BranchLabel),
    BranchCondition(Condition, TypeIdView, BranchLabel, RegisterMIRView, RegisterMIRView),
    Compare(Condition, TypeIdView, RegisterMIRView, RegisterMIRView, RegisterMIRView),
}

impl View for InstructionMIRData {
    type V = InstructionMIRDataView;

    open spec fn view(&self) -> InstructionMIRDataView {
        match *self {
            InstructionMIRData::LoadInt32(x0, x1) => InstructionMIRDataView::LoadInt32(x0@, x1),
            InstructionMIRData::LoadFloat32(x0, x1) => InstructionMIRDataView::LoadFloat32(x0@, x1@),
            InstructionMIRData::LoadBool(x0, x1) => InstructionMIRDataView::LoadBool(x0@, x1),
            InstructionMIRData::Move(x0, x1) => InstructionMIRDataView::Move(x0@, x1@),
            InstructionMIRData::AddInt32(x0, x1, x2) => InstructionMIRDataView::AddInt32(x0@, x1@, x2@),
            InstructionMIRData::AddInt32Constant(x0, x1, x2) => InstructionMIRDataView::AddInt32Constant(x0@, x1@, x2),
            InstructionMIRData::SubInt32(x0, x1, x2) => InstructionMIRDataView::SubInt32(x0@, x1@, x2@),
            InstructionMIRData::SubInt32Constant(x0, x1, x2) => InstructionMIRDataView::SubInt32Constant(x0@, x1@, x2),
            InstructionMIRData::MultiplyInt32(x0, x1, x2) => InstructionMIRDataView::MultiplyInt32(x0@, x1@, x2@),
            InstructionMIRData::AddFloat32(x0, x1, x2) => InstructionMIRDataView::AddFloat32(x0@, x1@, x2@),
            InstructionMIRData::SubFloat32(x0, x1, x2) => InstructionMIRDataView::SubFloat32(x0@, x1@, x2@),
            InstructionMIRData::MultiplyFloat32(x0, x1, x2) => InstructionMIRDataView::MultiplyFloat32(x0@, x1@, x2@),
            InstructionMIRData::DivideFloat32(x0, x1, x2) => InstructionMIRDataView::DivideFloat32(x0@, x1@, x2@),
            InstructionMIRData::AndBool(x0, x1, x2) => InstructionMIRDataView::AndBool(x0@, x1@, x2@),
            InstructionMIRData::OrBool(x0, x1, x2) => InstructionMIRDataView::OrBool(x0@, x1@, x2@),
            InstructionMIRData::Return(x0) => InstructionMIRDataView::Return(option_register_view(x0)),
            InstructionMIRData::Call(x0, x1, x2) => InstructionMIRDataView::Call(x0@, option_register_view(x1), registers_view(x2@)),
            InstructionMIRData::LoadArgument(x0, x1) => InstructionMIRDataView::LoadArgument(x0, x1@),
            InstructionMIRData::LoadNull(x0) => InstructionMIRDataView::LoadNull(x0@),
            InstructionMIRData::NewArray(x0, x1, x2) => InstructionMIRDataView::NewArray(x0@, x1@, x2@),
            InstructionMIRData::LoadElement(x0, x1, x2, x3) => InstructionMIRDataView::LoadElement(x0@, x1@, x2@, x3@),
            InstructionMIRData::StoreElement(x0, x1, x2, x3) => InstructionMIRDataView::StoreElement(x0@, x1@, x2@, x3@),
            InstructionMIRData::LoadArrayLength(x0, x1) => InstructionMIRDataView::LoadArrayLength(x0@, x1@),
            InstructionMIRData::NewObject(x0, x1) => InstructionMIRDataView::NewObject(x0@, x1@),
            InstructionMIRData::LoadField(x0, x1, x2, x3) => InstructionMIRDataView::LoadField(x0@, x1@, x2@, x3@),
            InstructionMIRData::StoreField(x0, x1, x2, x3) => InstructionMIRDataView::StoreField(x0@, x1@, x2@, x3@),
            InstructionMIRData::GarbageCollect => InstructionMIRDataView::GarbageCollect,
            InstructionMIRData::PrintStackFrame => InstructionMIRDataView::PrintStackFrame,
            InstructionMIRData::BranchLabel(x0) => InstructionMIRDataView::BranchLabel(x0),
            InstructionMIRData::Branch(x0) => InstructionMIRDataView::Branch(x0),
            InstructionMIRData::BranchCondition(x0, x1, x2, x3, x4) => InstructionMIRDataView::BranchCondition(x0, x1@, x2, x3@, x4@),
            InstructionMIRData::Compare(x0, x1, x2, x3, x4) => InstructionMIRDataView::Compare(x0, x1@, x2@, x3@, x4@),
        }
    }
}

/// The name of the instruction.
pub open spec fn name_spec(d: InstructionMIRDataView) -> Seq<char> {
    match d {
        InstructionMIRDataView::LoadInt32(..) => "LoadInt32"@,
        InstructionMIRDataView::LoadFloat32(..) => "LoadFloat32"@,
        InstructionMIRDataView::LoadBool(..) => "LoadBool"@,
        InstructionMIRDataView::Move(..) => "Move"@,
        InstructionMIRDataView::AddInt32(..) => "AddInt32"@,
        InstructionMIRDataView::AddInt32Constant(..) => "AddInt32Constant"@,
        InstructionMIRDataView::SubInt32(..) => "SubInt32"@,
        InstructionMIRDataView::SubInt32Constant(..) => "AddInt32Constant"@,
        InstructionMIRDataView::MultiplyInt32(..) => "MultiplyInt32"@,
        InstructionMIRDataView::AddFloat32(..) => "AddFloat32"@,
        InstructionMIRDataView::SubFloat32(..) => "SubFloat32"@,
        InstructionMIRDataView::MultiplyFloat32(..) => "MultiplyFloat32"@,
        InstructionMIRDataView::DivideFloat32(..) => "DivideFloat32"@,
        InstructionMIRDataView::AndBool(..) => "AndBool"@,
        InstructionMIRDataView::OrBool(..) => "OrBool"@,
        InstructionMIRDataView::Return(..) => "Return"@,
        InstructionMIRDataView::Call(..) => "Call"@,
        InstructionMIRDataView::LoadArgument(..) => "LoadArgument"@,
        InstructionMIRDataView::LoadNull(..) => "LoadNull"@,
        InstructionMIRDataView::NewArray(..) => "NewArray"@,
        InstructionMIRDataView::LoadElement(..) => "LoadElement"@,
        InstructionMIRDataView::StoreElement(..) => "StoreElement"@,
        InstructionMIRDataView::LoadArrayLength(..) => "LoadArrayLength"@,
        InstructionMIRDataView::NewObject(..) => "NewObject"@,
        InstructionMIRDataView::LoadField(..) => "LoadField"@,
        InstructionMIRDataView::StoreField(..) => "StoreField"@,
        InstructionMIRDataView::GarbageCollect => "GarbageCollect"@,
        InstructionMIRDataView::PrintStackFrame => "PrintStackFrame"@,
        InstructionMIRDataView::BranchLabel(..) => "BranchLabel"@,
        InstructionMIRDataView::Branch(..) => "Branch"@,
        InstructionMIRDataView::BranchCondition(..) => "BranchCondition"@,
        InstructionMIRDataView::Compare(..) => "Compare"@,
    }
}

/// The register that the instruction writes, if any.
pub open spec fn assign_register_spec(d: InstructionMIRDataView) -> Option<RegisterMIRView> {
    match d {
        InstructionMIRDataView::LoadInt32(r, _) => Some(r),
        InstructionMIRDataView::LoadFloat32(r, _) => Some(r),
        InstructionMIRDataView::LoadBool(r, _) => Some(r),
        InstructionMIRDataView::Move(r, _) => Some(r),
        InstructionMIRDataView::AddInt32(r, _, _) => Some(r),
        InstructionMIRDataView::AddInt32Constant(r, _, _) => Some(r),
        InstructionMIRDataView::SubInt32(r, _, _) => Some(r),
        InstructionMIRDataView::SubInt32Constant(r, _, _) => Some(r),
        InstructionMIRDataView::MultiplyInt32(r, _, _) => Some(r),
        InstructionMIRDataView::AddFloat32(r, _, _) => Some(r),
        InstructionMIRDataView::SubFloat32(r, _, _) => Some(r),
        InstructionMIRDataView::MultiplyFloat32(r, _, _) => Some(r),
        InstructionMIRDataView::DivideFloat32(r, _, _) => Some(r),
        InstructionMIRDataView::AndBool(r, _, _) => Some(r),
        InstructionMIRDataView::OrBool(r, _, _) => Some(r),
        InstructionMIRDataView::Return(..) => None,
        InstructionMIRDataView::Call(_, r, _) => r,
        InstructionMIRDataView::LoadArgument(_, r) => Some(r),
        InstructionMIRDataView::LoadNull(r) => Some(r),
        InstructionMIRDataView::NewArray(_, r, _) => Some(r),
        InstructionMIRDataView::LoadElement(_, r, _, _) => Some(r),
        InstructionMIRDataView::StoreElement(..) => None,
        InstructionMIRDataView::LoadArrayLength(_, r) => Some(r),
        InstructionMIRDataView::NewObject(_, r) => Some(r),
        InstructionMIRDataView::LoadField(_, _, r, _) => Some(r),
        InstructionMIRDataView::StoreField(..) => None,
        InstructionMIRDataView::GarbageCollect => None,
        InstructionMIRDataView::PrintStackFrame => None,
        InstructionMIRDataView::BranchLabel(..) => None,
        InstructionMIRDataView::Branch(..) => None,
        InstructionMIRDataView::BranchCondition(..) => None,
        InstructionMIRDataView::Compare(_, _, r, _, _) => Some(r),
    }
}

/// The registers that the instruction reads, in operand order.
pub open spec fn use_registers_spec(d: InstructionMIRDataView) -> Seq<RegisterMIRView> {
    match d {
        InstructionMIRDataView::LoadInt32(..) => seq![],
        InstructionMIRDataView::LoadFloat32(..) => seq![],
        InstructionMIRDataView::LoadBool(..) => seq![],
        InstructionMIRDataView::Move(_, o0) => seq![o0],
        InstructionMIRDataView::AddInt32(_, o0, o1) => seq![o0, o1],
        InstructionMIRDataView::AddInt32Constant(_, o0, _) => seq![o0],
        InstructionMIRDataView::SubInt32(_, o0, o1) => seq![o0, o1],
        InstructionMIRDataView::SubInt32Constant(_, o0, _) => seq![o0],
        InstructionMIRDataView::MultiplyInt32(_, o0, o1) => seq![o0, o1],
        InstructionMIRDataView::AddFloat32(_, o0, o1) => seq![o0, o1],
        InstructionMIRDataView::SubFloat32(_, o0, o1) => seq![o0, o1],
        InstructionMIRDataView::MultiplyFloat32(_, o0, o1) => seq![o0, o1],
        InstructionMIRDataView::DivideFloat32(_, o0, o1) => seq![o0, o1],
        InstructionMIRDataView::AndBool(_, o0, o1) => seq![o0, o1],
        InstructionMIRDataView::OrBool(_, o0, o1) => seq![o0, o1],
        InstructionMIRDataView::Return(r) => match r { Some(x) => seq![x], None => seq![] },
        InstructionMIRDataView::Call(_, _, arguments) => arguments,
        InstructionMIRDataView::LoadArgument(..) => seq![],
        InstructionMIRDataView::LoadNull(..) => seq![],
        InstructionMIRDataView::NewArray(_, _, o0) => seq![o0],
        InstructionMIRDataView::LoadElement(_, _, o0, o1) => seq![o0, o1],
        InstructionMIRDataView::StoreElement(_, o0, o1, o2) => seq![o0, o1, o2],
        InstructionMIRDataView::LoadArrayLength(..) => seq![],
        InstructionMIRDataView::NewObject(..) => seq![],
        InstructionMIRDataView::LoadField(_, _, _, o0) => seq![o0],
        InstructionMIRDataView::StoreField(_, _, o0, o1) => seq![o0, o1],
        InstructionMIRDataView::GarbageCollect => seq![],
        InstructionMIRDataView::PrintStackFrame => seq![],
        InstructionMIRDataView::BranchLabel(..) => seq![],
        InstructionMIRDataView::Branch(..) => seq![],
        InstructionMIRDataView::BranchCondition(_, _, _, o0, o1) => seq![o0, o1],
        InstructionMIRDataView::Compare(_, _, _, o0, o1) => seq![o0, o1],
    }
}

impl InstructionMIRData {
    pub fn name(&self) -> (r: String)
        ensures
            r@ == name_spec(self@),
    {
        let r = match self {
            InstructionMIRData::LoadInt32(..) => "LoadInt32".to_owned(),
            InstructionMIRData::LoadFloat32(..) => "LoadFloat32".to_owned(),
            InstructionMIRData::LoadBool(..) => "LoadBool".to_owned(),
            InstructionMIRData::Move(..) => "Move".to_owned(),
            InstructionMIRData::AddInt32(..) => "AddInt32".to_owned(),
            InstructionMIRData::AddInt32Constant(..) => "AddInt32Constant".to_owned(),
            InstructionMIRData::SubInt32(..) => "SubInt32".to_owned(),
            InstructionMIRData::SubInt32Constant(..) => "AddInt32Constant".to_owned(),
            InstructionMIRData::MultiplyInt32(..) => "MultiplyInt32".to_owned(),
            InstructionMIRData::AddFloat32(..) => "AddFloat32".to_owned(),
            InstructionMIRData::SubFloat32(..) => "SubFloat32".to_owned(),
            InstructionMIRData::MultiplyFloat32(..) => "MultiplyFloat32".to_owned(),
            InstructionMIRData::DivideFloat32(..) => "DivideFloat32".to_owned(),
            InstructionMIRData::AndBool(..) => "AndBool".to_owned(),
            InstructionMIRData::OrBool(..) => "OrBool".to_owned(),
            InstructionMIRData::Return(..) => "Return".to_owned(),
            InstructionMIRData::Call(..) => "Call".to_owned(),
            InstructionMIRData::LoadArgument(..) => "LoadArgument".to_owned(),
            InstructionMIRData::LoadNull(..) => "LoadNull".to_owned(),
            InstructionMIRData::NewArray(..) => "NewArray".to_owned(),
            InstructionMIRData::LoadElement(..) => "LoadElement".to_owned(),
            InstructionMIRData::StoreElement(..) => "StoreElement".to_owned(),
            InstructionMIRData::LoadArrayLength(..) => "LoadArrayLength".to_owned(),
            InstructionMIRData::NewObject(..) => "NewObject".to_owned(),
            InstructionMIRData::LoadField(..) => "LoadField".to_owned(),
            InstructionMIRData::StoreField(..) => "StoreField".to_owned(),
            InstructionMIRData::GarbageCollect => "GarbageCollect".to_owned(),
            InstructionMIRData::PrintStackFrame => "PrintStackFrame".to_owned(),
            InstructionMIRData::BranchLabel(..) => "BranchLabel".to_owned(),
            InstructionMIRData::Branch(..) => "Branch".to_owned(),
            InstructionMIRData::BranchCondition(..) => "BranchCondition".to_owned(),
            InstructionMIRData::Compare(..) => "Compare".to_owned(),
        };
        proof {
            reveal_strlit("AddFloat32");
            reveal_strlit("AddInt32");
            reveal_strlit("AddInt32Constant");
            reveal_strlit("AndBool");
            reveal_strlit("Branch");
            reveal_strlit("BranchCondition");
            reveal_strlit("BranchLabel");
            reveal_strlit("Call");
            reveal_strlit("Compare");
            reveal_strlit("DivideFloat32");
            reveal_strlit("GarbageCollect");
            reveal_strlit("LoadArgument");
            reveal_strlit("LoadArrayLength");
            reveal_strlit("LoadBool");
            reveal_strlit("LoadElement");
            reveal_strlit("LoadField");
            reveal_strlit("LoadFloat32");
            reveal_strlit("LoadInt32");
            reveal_strlit("LoadNull");
            reveal_strlit("Move");
            reveal_strlit("MultiplyFloat32");
            reveal_strlit("MultiplyInt32");
            reveal_strlit("NewArray");
            reveal_strlit("NewObject");
            reveal_strlit("OrBool");
            reveal_strlit("PrintStackFrame");
            reveal_strlit("Return");
            reveal_strlit("StoreElement");
            reveal_strlit("StoreField");
            reveal_strlit("SubFloat32");
            reveal_strlit("SubInt32");
        }
        r
    }

    /// The register that the instruction writes, if any.
    pub fn assign_register(&self) -> (r: Option<RegisterMIR>)
        ensures
            option_register_view(r) == assign_register_spec(self@),
    {
        match self {
            InstructionMIRData::LoadInt32(r, _) => Some(r.clone()),
            InstructionMIRData::LoadFloat32(r, _) => Some(r.clone()),
            InstructionMIRData::LoadBool(r, _) => Some(r.clone()),
            InstructionMIRData::Move(r, _) => Some(r.clone()),
            InstructionMIRData::AddInt32(r, _, _) => Some(r.clone()),
            InstructionMIRData::AddInt32Constant(r, _, _) => Some(r.clone()),
            InstructionMIRData::SubInt32(r, _, _) => Some(r.clone()),
            InstructionMIRData::SubInt32Constant(r, _, _) => Some(r.clone()),
            InstructionMIRData::MultiplyInt32(r, _, _) => Some(r.clone()),
            InstructionMIRData::AddFloat32(r, _, _) => Some(r.clone()),
            InstructionMIRData::SubFloat32(r, _, _) => Some(r.clone()),
            InstructionMIRData::MultiplyFloat32(r, _, _) => Some(r.clone()),
            InstructionMIRData::DivideFloat32(r, _, _) => Some(r.clone()),
            InstructionMIRData::AndBool(r, _, _) => Some(r.clone()),
            InstructionMIRData::OrBool(r, _, _) => Some(r.clone()),
            InstructionMIRData::Return(..) => None,
            InstructionMIRData::Call(_, r, _) => clone_option_register(r),
            InstructionMIRData::LoadArgument(_, r) => Some(r.clone()),
            InstructionMIRData::LoadNull(r) => Some(r.clone()),
            InstructionMIRData::NewArray(_, r, _) => Some(r.clone()),
            InstructionMIRData::LoadElement(_, r, _, _) => Some(r.clone()),
            InstructionMIRData::StoreElement(..) => None,
            InstructionMIRData::LoadArrayLength(_, r) => Some(r.clone()),
            InstructionMIRData::NewObject(_, r) => Some(r.clone()),
            InstructionMIRData::LoadField(_, _, r, _) => Some(r.clone()),
            InstructionMIRData::StoreField(..) => None,
            InstructionMIRData::GarbageCollect => None,
            InstructionMIRData::PrintStackFrame => None,
            InstructionMIRData::BranchLabel(..) => None,
            InstructionMIRData::Branch(..) => None,
            InstructionMIRData::BranchCondition(..) => None,
            InstructionMIRData::Compare(_, _, r, _, _) => Some(r.clone()),
        }
    }

    /// The registers that the instruction reads, in operand order.
    pub fn use_registers(&self) -> (r: Vec<RegisterMIR>)
        ensures
            registers_view(r@) == use_registers_spec(self@),
    {
        let r = match self {
            InstructionMIRData::LoadInt32(..) => Vec::new(),
            InstructionMIRData::LoadFloat32(..) => Vec::new(),
            InstructionMIRData::LoadBool(..) => Vec::new(),
            InstructionMIRData::Move(_, o0) => vec![o0.clone()],
            InstructionMIRData::AddInt32(_, o0, o1) => vec![o0.clone(), o1.clone()],
            InstructionMIRData::AddInt32Constant(_, o0, _) => vec![o0.clone()],
            InstructionMIRData::SubInt32(_, o0, o1) => vec![o0.clone(), o1.clone()],
            InstructionMIRData::SubInt32Constant(_, o0, _) => vec![o0.clone()],
            InstructionMIRData::MultiplyInt32(_, o0, o1) => vec![o0.clone(), o1.clone()],
            InstructionMIRData::AddFloat32(_, o0, o1) => vec![o0.clone(), o1.clone()],
            InstructionMIRData::SubFloat32(_, o0, o1) => vec![o0.clone(), o1.clone()],
            InstructionMIRData::MultiplyFloat32(_, o0, o1) => vec![o0.clone(), o1.clone()],
            InstructionMIRData::DivideFloat32(_, o0, o1) => vec![o0.clone(), o1.clone()],
            InstructionMIRData::AndBool(_, o0, o1) => vec![o0.clone(), o1.clone()],
            InstructionMIRData::OrBool(_, o0, o1) => vec![o0.clone(), o1.clone()],
            InstructionMIRData::Return(r) => match r { Some(x) => vec![x.clone()], None => Vec::new() },
            InstructionMIRData::Call(_, _, arguments) => clone_registers(arguments),
            InstructionMIRData::LoadArgument(..) => Vec::new(),
            InstructionMIRData::LoadNull(..) => Vec::new(),
            InstructionMIRData::NewArray(_, _, o0) => vec![o0.clone()],
            InstructionMIRData::LoadElement(_, _, o0, o1) => vec![o0.clone(), o1.clone()],
            InstructionMIRData::StoreElement(_, o0, o1, o2) => vec![o0.clone(), o1.clone(), o2.clone()],
            InstructionMIRData::LoadArrayLength(..) => Vec::new(),
            InstructionMIRData::NewObject(..) => Vec::new(),
            InstructionMIRData::LoadField(_, _, _, o0) => vec![o0.clone()],
            InstructionMIRData::StoreField(_, _, o0, o1) => vec![o0.clone(), o1.clone()],
            InstructionMIRData::GarbageCollect => Vec::new(),
            InstructionMIRData::PrintStackFrame => Vec::new(),
            InstructionMIRData::BranchLabel(..) => Vec::new(),
            InstructionMIRData::Branch(..) => Vec::new(),
            InstructionMIRData::BranchCondition(_, _, _, o0, o1) => vec![o0.clone(), o1.clone()],
            InstructionMIRData::Compare(_, _, _, o0, o1) => vec![o0.clone(), o1.clone()],
        };
        proof {
            assert(registers_view(r@) =~= use_registers_spec(self@));
        }
        r
    }

    /// Makes the instruction write `register` in place of the register it writes.
    pub fn replace_assign_register(&mut self, register: RegisterMIR)
        requires
            assign_register_spec(old(self)@) is Some,
        ensures
            final(self)@ == with_assign_register(old(self)@, register@),
    {
        match self {
            InstructionMIRData::LoadInt32(r, _) => { *r = register; },
            InstructionMIRData::LoadFloat32(r, _) => { *r = register; },
            InstructionMIRData::LoadBool(r, _) => { *r = register; },
            InstructionMIRData::Move(r, _) => { *r = register; },
            InstructionMIRData::AddInt32(r, _, _) => { *r = register; },
            InstructionMIRData::AddInt32Constant(r, _, _) => { *r = register; },
            InstructionMIRData::SubInt32(r, _, _) => { *r = register; },
            InstructionMIRData::SubInt32Constant(r, _, _) => { *r = register; },
            InstructionMIRData::MultiplyInt32(r, _, _) => { *r = register; },
            InstructionMIRData::AddFloat32(r, _, _) => { *r = register; },
            InstructionMIRData::SubFloat32(r, _, _) => { *r = register; },
            InstructionMIRData::MultiplyFloat32(r, _, _) => { *r = register; },
            InstructionMIRData::DivideFloat32(r, _, _) => { *r = register; },
            InstructionMIRData::AndBool(r, _, _) => { *r = register; },
            InstructionMIRData::OrBool(r, _, _) => { *r = register; },
            InstructionMIRData::Call(_, r, _) => { *r = Some(register); },
            InstructionMIRData::LoadArgument(_, r) => { *r = register; },
            InstructionMIRData::LoadNull(r) => { *r = register; },
            InstructionMIRData::NewArray(_, r, _) => { *r = register; },
            InstructionMIRData::LoadElement(_, r, _, _) => { *r = register; },
            InstructionMIRData::LoadArrayLength(_, r) => { *r = register; },
            InstructionMIRData::NewObject(_, r) => { *r = register; },
            InstructionMIRData::LoadField(_, _, r, _) => { *r = register; },
            InstructionMIRData::Compare(_, _, r, _, _) => { *r = register; },
            _ => {},
        }
    }

    /// Makes the instruction read `register` in place of its `k`-th operand register.
    pub fn replace_use_register(&mut self, k: usize, register: RegisterMIR)
        requires
            k < use_registers_spec(old(self)@).len(),
        ensures
            final(self)@ == with_use_register(old(self)@, k as int, register@),
    {
        match self {
            InstructionMIRData::Move(_, o0) => { *o0 = register; },
            InstructionMIRData::AddInt32(_, o0, o1) => {
                if k == 0 { *o0 = register;
                } else { *o1 = register; }
            },
            InstructionMIRData::AddInt32Constant(_, o0, _) => { *o0 = register; },
            InstructionMIRData::SubInt32(_, o0, o1) => {
                if k == 0 { *o0 = register;
                } else { *o1 = register; }
            },
            InstructionMIRData::SubInt32Constant(_, o0, _) => { *o0 = register; },
            InstructionMIRData::MultiplyInt32(_, o0, o1) => {
                if k == 0 { *o0 = register;
                } else { *o1 = register; }
            },
            InstructionMIRData::AddFloat32(_, o0, o1) => {
                if k == 0 { *o0 = register;
                } else { *o1 = register; }
            },
            InstructionMIRData::SubFloat32(_, o0, o1) => {
                if k == 0 { *o0 = register;
                } else { *o1 = register; }
            },
            InstructionMIRData::MultiplyFloat32(_, o0, o1) => {
                if k == 0 { *o0 = register;
                } else { *o1 = register; }
            },
            InstructionMIRData::DivideFloat32(_, o0, o1) => {
                if k == 0 { *o0 = register;
                } else { *o1 = register; }
            },
            InstructionMIRData::AndBool(_, o0, o1) => {
                if k == 0 { *o0 = register;
                } else { *o1 = register; }
            },
            InstructionMIRData::OrBool(_, o0, o1) => {
                if k == 0 { *o0 = register;
                } else { *o1 = register; }
            },
            InstructionMIRData::Return(r) => { *r = Some(register); },
            InstructionMIRData::Call(_, _, arguments) => {
                let ghost before = registers_view(arguments@);
                arguments.set(k, register);
                proof { assert(registers_view(arguments@) =~= before.update(k as int, register@)); }
            },
            InstructionMIRData::NewArray(_, _, o0) => { *o0 = register; },
            InstructionMIRData::LoadElement(_, _, o0, o1) => {
                if k == 0 { *o0 = register;
                } else { *o1 = register; }
            },
            InstructionMIRData::StoreElement(_, o0, o1, o2) => {
                if k == 0 { *o0 = register;
                } else if k == 1 { *o1 = register;
                } else { *o2 = register; }
            },
            InstructionMIRData::LoadField(_, _, _, o0) => { *o0 = register; },
            InstructionMIRData::StoreField(_, _, o0, o1) => {
                if k == 0 { *o0 = register;
                } else { *o1 = register; }
            },
            InstructionMIRData::BranchCondition(_, _, _, o0, o1) => {
                if k == 0 { *o0 = register;
                } else { *o1 = register; }
            },
            InstructionMIRData::Compare(_, _, _, o0, o1) => {
                if k == 0 { *o0 = register;
                } else { *o1 = register; }
            },
            _ => {},
        }
    }
}

/// The instruction with its written register replaced by `r`.
pub open spec fn with_assign_register(d: InstructionMIRDataView, r: RegisterMIRView) -> InstructionMIRDataView {
    match d {
        InstructionMIRDataView::LoadInt32(x0, x1) => InstructionMIRDataView::LoadInt32(r, x1),
        InstructionMIRDataView::LoadFloat32(x0, x1) => InstructionMIRDataView::LoadFloat32(r, x1),
        InstructionMIRDataView::LoadBool(x0, x1) => InstructionMIRDataView::LoadBool(r, x1),
        InstructionMIRDataView::Move(x0, x1) => InstructionMIRDataView::Move(r, x1),
        InstructionMIRDataView::AddInt32(x0, x1, x2) => InstructionMIRDataView::AddInt32(r, x1, x2),
        InstructionMIRDataView::AddInt32Constant(x0, x1, x2) => InstructionMIRDataView::AddInt32Constant(r, x1, x2),
        InstructionMIRDataView::SubInt32(x0, x1, x2) => InstructionMIRDataView::SubInt32(r, x1, x2),
        InstructionMIRDataView::SubInt32Constant(x0, x1, x2) => InstructionMIRDataView::SubInt32Constant(r, x1, x2),
        InstructionMIRDataView::MultiplyInt32(x0, x1, x2) => InstructionMIRDataView::MultiplyInt32(r, x1, x2),
        InstructionMIRDataView::AddFloat32(x0, x1, x2) => InstructionMIRDataView::AddFloat32(r, x1, x2),
        InstructionMIRDataView::SubFloat32(x0, x1, x2) => InstructionMIRDataView::SubFloat32(r, x1, x2),
        InstructionMIRDataView::MultiplyFloat32(x0, x1, x2) => InstructionMIRDataView::MultiplyFloat32(r, x1, x2),
        InstructionMIRDataView::DivideFloat32(x0, x1, x2) => InstructionMIRDataView::DivideFloat32(r, x1, x2),
        InstructionMIRDataView::AndBool(x0, x1, x2) => InstructionMIRDataView::AndBool(r, x1, x2),
        InstructionMIRDataView::OrBool(x0, x1, x2) => InstructionMIRDataView::OrBool(r, x1, x2),
        InstructionMIRDataView::Call(x0, x1, x2) => InstructionMIRDataView::Call(x0, Some(r), x2),
        InstructionMIRDataView::LoadArgument(x0, x1) => InstructionMIRDataView::LoadArgument(x0, r),
        InstructionMIRDataView::LoadNull(x0) => InstructionMIRDataView::LoadNull(r),
        InstructionMIRDataView::NewArray(x0, x1, x2) => InstructionMIRDataView::NewArray(x0, r, x2),
        InstructionMIRDataView::LoadElement(x0, x1, x2, x3) => InstructionMIRDataView::LoadElement(x0, r, x2, x3),
        InstructionMIRDataView::LoadArrayLength(x0, x1) => InstructionMIRDataView::LoadArrayLength(x0, r),
        InstructionMIRDataView::NewObject(x0, x1) => InstructionMIRDataView::NewObject(x0, r),
        InstructionMIRDataView::LoadField(x0, x1, x2, x3) => InstructionMIRDataView::LoadField(x0, x1, r, x3),
        InstructionMIRDataView::Compare(x0, x1, x2, x3, x4) => InstructionMIRDataView::Compare(x0, x1, r, x3, x4),
        _ => d,
    }
}

/// The instruction with its `k`-th read register replaced by `r`.
pub open spec fn with_use_register(d: InstructionMIRDataView, k: int, r: RegisterMIRView) -> InstructionMIRDataView {
    match d {
        InstructionMIRDataView::Move(x0, x1) => InstructionMIRDataView::Move(x0, r),
        InstructionMIRDataView::AddInt32(x0, x1, x2) => if k == 0 { InstructionMIRDataView::AddInt32(x0, r, x2) } else { InstructionMIRDataView::AddInt32(x0, x1, r) },
        InstructionMIRDataView::AddInt32Constant(x0, x1, x2) => InstructionMIRDataView::AddInt32Constant(x0, r, x2),
        InstructionMIRDataView::SubInt32(x0, x1, x2) => if k == 0 { InstructionMIRDataView::SubInt32(x0, r, x2) } else { InstructionMIRDataView::SubInt32(x0, x1, r) },
        InstructionMIRDataView::SubInt32Constant(x0, x1, x2) => InstructionMIRDataView::SubInt32Constant(x0, r, x2),
        InstructionMIRDataView::MultiplyInt32(x0, x1, x2) => if k == 0 { InstructionMIRDataView::MultiplyInt32(x0, r, x2) } else { InstructionMIRDataView::MultiplyInt32(x0, x1, r) },
        InstructionMIRDataView::AddFloat32(x0, x1, x2) => if k == 0 { InstructionMIRDataView::AddFloat32(x0, r, x2) } else { InstructionMIRDataView::AddFloat32(x0, x1, r) },
        InstructionMIRDataView::SubFloat32(x0, x1, x2) => if k == 0 { InstructionMIRDataView::SubFloat32(x0, r, x2) } else { InstructionMIRDataView::SubFloat32(x0, x1, r) },
        InstructionMIRDataView::MultiplyFloat32(x0, x1, x2) => if k == 0 { InstructionMIRDataView::MultiplyFloat32(x0, r, x2) } else { InstructionMIRDataView::MultiplyFloat32(x0, x1, r) },
        InstructionMIRDataView::DivideFloat32(x0, x1, x2) => if k == 0 { InstructionMIRDataView::DivideFloat32(x0, r, x2) } else { InstructionMIRDataView::DivideFloat32(x0, x1, r) },
        InstructionMIRDataView::AndBool(x0, x1, x2) => if k == 0 { InstructionMIRDataView::AndBool(x0, r, x2) } else { InstructionMIRDataView::AndBool(x0, x1, r) },
        InstructionMIRDataView::OrBool(x0, x1, x2) => if k == 0 { InstructionMIRDataView::OrBool(x0, r, x2) } else { InstructionMIRDataView::OrBool(x0, x1, r) },
        InstructionMIRDataView::Return(x0) => InstructionMIRDataView::Return(Some(r)),
        InstructionMIRDataView::Call(x0, x1, x2) => InstructionMIRDataView::Call(x0, x1, x2.update(k, r)),
        InstructionMIRDataView::NewArray(x0, x1, x2) => InstructionMIRDataView::NewArray(x0, x1, r),
        InstructionMIRDataView::LoadElement(x0, x1, x2, x3) => if k == 0 { InstructionMIRDataView::LoadElement(x0, x1, r, x3) } else { InstructionMIRDataView::LoadElement(x0, x1, x2, r) },
        InstructionMIRDataView::StoreElement(x0, x1, x2, x3) => if k == 0 { InstructionMIRDataView::StoreElement(x0, r, x2, x3) } else if k == 1 { InstructionMIRDataView::StoreElement(x0, x1, r, x3) } else { InstructionMIRDataView::StoreElement(x0, x1, x2, r) },
        InstructionMIRDataView::LoadField(x0, x1, x2, x3) => InstructionMIRDataView::LoadField(x0, x1, x2, r),
        InstructionMIRDataView::StoreField(x0, x1, x2, x3) => if k == 0 { InstructionMIRDataView::StoreField(x0, x1, r, x3) } else { InstructionMIRDataView::StoreField(x0, x1, x2, r) },
        InstructionMIRDataView::BranchCondition(x0, x1, x2, x3, x4) => if k == 0 { InstructionMIRDataView::BranchCondition(x0, x1, x2, r, x4) } else { InstructionMIRDataView::BranchCondition(x0, x1, x2, x3, r) },
        InstructionMIRDataView::Compare(x0, x1, x2, x3, x4) => if k == 0 { InstructionMIRDataView::Compare(x0, x1, x2, r, x4) } else { InstructionMIRDataView::Compare(x0, x1, x2, x3, r) },
        _ => d,
    }
}

/// Replacing a read register changes that operand alone and keeps the written register.
pub proof fn lemma_with_use_register(d: InstructionMIRDataView, k: int, r: RegisterMIRView)
    requires
        0 <= k < use_registers_spec(d).len(),
    ensures
        use_registers_spec(with_use_register(d, k, r)) == use_registers_spec(d).update(k, r),
        assign_register_spec(with_use_register(d, k, r)) == assign_register_spec(d),
{
    assert(use_registers_spec(with_use_register(d, k, r)) =~= use_registers_spec(d).update(k, r));
}

} // verus!
