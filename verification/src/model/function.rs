//! Function declarations, signatures and function bodies.
use vstd::prelude::*;
use crate::model::typesystem::{TypeId, TypeIdView, clone_types, types_view, type_text, push_type};
use crate::text::{push_str, string_from_chars};
use crate::model::instruction::{Instruction, InstructionView, instructions_view};

verus! {

/// Address of compiled or native code of a function.
pub type FunctionAddress = usize;

#[derive(Debug, PartialEq, Eq)]
pub enum FunctionType {
    External,
    Managed,
}

/// The name and parameter types that identify a function.
#[derive(Debug, PartialEq, Eq, Hash)]
pub struct FunctionSignature {
    pub name: String,
    pub parameters: Vec<TypeId>,
}

impl View for FunctionSignature {
    type V = (Seq<char>, Seq<TypeIdView>);

    open spec fn view(&self) -> (Seq<char>, Seq<TypeIdView>) {
        (self.name@, types_view(self.parameters@))
    }
}

impl Clone for FunctionSignature {
    fn clone(&self) -> (r: Self)
        ensures
            r.name == self.name,
            r.parameters@ == self.parameters@,
    {
        FunctionSignature { name: self.name.clone(), parameters: clone_types(&self.parameters) }
    }
}

impl FunctionSignature {
    pub fn new(name: String, parameters: Vec<TypeId>) -> (r: FunctionSignature)
        ensures
            r.name == name,
            r.parameters == parameters,
    {
        FunctionSignature { name, parameters }
    }

    /// Whether both signatures have the same name and parameter types.
    pub fn is_same(&self, other: &FunctionSignature) -> (r: bool)
        ensures
            r == (self@ == other@),
    {
        let same_name = self.name == other.name;
        if !same_name {
            return false;
        }
        if self.parameters.len() != other.parameters.len() {
            assert(types_view(self.parameters@).len() != types_view(other.parameters@).len());
            return false;
        }
        let mut i: usize = 0;
        while i < self.parameters.len()
            invariant
                self.parameters@.len() == other.parameters@.len(),
                i <= self.parameters@.len(),
                forall|j: int| 0 <= j < i ==> self.parameters@[j]@ == other.parameters@[j]@,
            decreases self.parameters@.len() - i,
        {
            if !self.parameters[i].is_same_type(&other.parameters[i]) {
                assert(types_view(self.parameters@)[i as int] != types_view(other.parameters@)[i as int]);
                return false;
            }
            i = i + 1;
        }
        assert(types_view(self.parameters@) =~= types_view(other.parameters@));
        true
    }
}

/// A function's kind, name, parameter types, return type and code address.
#[derive(Debug)]
pub struct FunctionDeclaration {
    function_type: FunctionType,
    name: String,
    parameters: Vec<TypeId>,
    return_type: TypeId,
    address: Option<FunctionAddress>,
}

impl FunctionDeclaration {
    pub closed spec fn spec_function_type(&self) -> FunctionType {
        self.function_type
    }

    pub closed spec fn spec_name(&self) -> Seq<char> {
        self.name@
    }

    pub closed spec fn spec_parameters(&self) -> Seq<TypeId> {
        self.parameters@
    }

    pub closed spec fn spec_return_type(&self) -> TypeId {
        self.return_type
    }

    pub closed spec fn spec_address(&self) -> Option<FunctionAddress> {
        self.address
    }

    /// The signature of the declaration, as a view.
    pub open spec fn signature_view(&self) -> (Seq<char>, Seq<TypeIdView>) {
        (self.spec_name(), types_view(self.spec_parameters()))
    }

    /// A function implemented outside the virtual machine, at `address`.
    pub fn with_external(name: String, parameters: Vec<TypeId>, return_type: TypeId, address: FunctionAddress) -> (r: FunctionDeclaration)
        ensures
            r.spec_function_type() == FunctionType::External,
            r.spec_name() == name@,
            r.spec_parameters() == parameters@,
            r.spec_return_type() == return_type,
            r.spec_address() == Some(address),
    {
        FunctionDeclaration { function_type: FunctionType::External, name, parameters, return_type, address: Some(address) }
    }

    /// A function whose code the virtual machine compiles; it has no address yet.
    pub fn with_manager(name: String, parameters: Vec<TypeId>, return_type: TypeId) -> (r: FunctionDeclaration)
        ensures
            r.spec_function_type() == FunctionType::Managed,
            r.spec_name() == name@,
            r.spec_parameters() == parameters@,
            r.spec_return_type() == return_type,
            r.spec_address() is None,
    {
        FunctionDeclaration { function_type: FunctionType::Managed, name, parameters, return_type, address: None }
    }

    /// Same as [`FunctionDeclaration::with_external`].
    pub fn new_external(name: String, parameters: Vec<TypeId>, return_type: TypeId, address: FunctionAddress) -> (r: FunctionDeclaration)
        ensures
            r.spec_function_type() == FunctionType::External,
            r.spec_name() == name@,
            r.spec_parameters() == parameters@,
            r.spec_return_type() == return_type,
            r.spec_address() == Some(address),
    {
        FunctionDeclaration::with_external(name, parameters, return_type, address)
    }

    /// Same as [`FunctionDeclaration::with_manager`].
    pub fn new_managed(name: String, parameters: Vec<TypeId>, return_type: TypeId) -> (r: FunctionDeclaration)
        ensures
            r.spec_function_type() == FunctionType::Managed,
            r.spec_name() == name@,
            r.spec_parameters() == parameters@,
            r.spec_return_type() == return_type,
            r.spec_address() is None,
    {
        FunctionDeclaration::with_manager(name, parameters, return_type)
    }

    pub fn function_type(&self) -> (r: &FunctionType)
        ensures
            *r == self.spec_function_type(),
    {
        &self.function_type
    }

    pub fn name(&self) -> (r: &str)
        ensures
            r@ == self.spec_name(),
    {
        self.name.as_str()
    }

    pub fn parameters(&self) -> (r: &Vec<TypeId>)
        ensures
            r@ == self.spec_parameters(),
    {
        &self.parameters
    }

    pub fn return_type(&self) -> (r: &TypeId)
        ensures
            *r == self.spec_return_type(),
    {
        &self.return_type
    }

    pub fn address(&self) -> (r: Option<FunctionAddress>)
        ensures
            r == self.spec_address(),
    {
        self.address
    }

    pub fn signature(&self) -> (r: FunctionSignature)
        ensures
            r.name@ == self.spec_name(),
            r.parameters@ == self.spec_parameters(),
            r@ == self.signature_view(),
    {
        FunctionSignature::new(self.name.clone(), clone_types(&self.parameters))
    }

    pub fn set_address(&mut self, address: FunctionAddress)
        ensures
            final(self).spec_address() == Some(address),
            final(self).spec_function_type() == old(self).spec_function_type(),
            final(self).spec_name() == old(self).spec_name(),
            final(self).spec_parameters() == old(self).spec_parameters(),
            final(self).spec_return_type() == old(self).spec_return_type(),
    {
        self.address = Some(address);
    }

    /// A managed function `main` without parameters that returns an `Int`.
    pub fn is_entry_point(&self) -> (r: bool)
        ensures
            r == (self.spec_function_type() == FunctionType::Managed && self.spec_name() == seq!['m', 'a', 'i', 'n']
                && self.spec_parameters().len() == 0 && self.spec_return_type() is Int32),
    {
        let managed = match self.function_type {
            FunctionType::Managed => true,
            FunctionType::External => false,
        };
        let main_name = "main".to_owned();
        proof {
            reveal_strlit("main");
        }
        let is_main = self.name == main_name;
        assert(main_name@ =~= seq!['m', 'a', 'i', 'n']);
        let is_int = match self.return_type {
            TypeId::Int32 => true,
            _ => false,
        };
        managed && is_main && self.parameters.len() == 0 && is_int
    }
}

impl Clone for FunctionDeclaration {
    fn clone(&self) -> (r: Self)
        ensures
            r.spec_function_type() == self.spec_function_type(),
            r.spec_name() == self.spec_name(),
            r.spec_parameters() == self.spec_parameters(),
            r.spec_return_type() == self.spec_return_type(),
            r.spec_address() == self.spec_address(),
    {
        let function_type = match self.function_type {
            FunctionType::External => FunctionType::External,
            FunctionType::Managed => FunctionType::Managed,
        };
        FunctionDeclaration {
            function_type,
            name: self.name.clone(),
            parameters: clone_types(&self.parameters),
            return_type: self.return_type.clone(),
            address: self.address,
        }
    }
}

/// The mathematical form of a function body: name, parameter types,
/// return type, local types and instructions.
pub struct FunctionView {
    pub name: Seq<char>,
    pub parameters: Seq<TypeIdView>,
    pub return_type: TypeIdView,
    pub locals: Seq<TypeIdView>,
    pub instructions: Seq<InstructionView>,
}

/// The body of a function as a [`FunctionView`].
pub open spec fn function_view(f: Function) -> FunctionView {
    FunctionView {
        name: f.spec_declaration().spec_name(),
        parameters: types_view(f.spec_declaration().spec_parameters()),
        return_type: f.spec_declaration().spec_return_type()@,
        locals: types_view(f.spec_locals()),
        instructions: instructions_view(f.spec_instructions()),
    }
}

/// A managed function: its declaration, typed locals and instructions, plus
/// the operand types before each instruction and the operand stack size
/// that verification records.
pub struct Function {
    declaration: FunctionDeclaration,
    locals: Vec<TypeId>,
    instructions: Vec<Instruction>,
    instruction_operand_types: Vec<Vec<TypeId>>,
    operand_stack_size: usize,
}

impl Function {
    pub closed spec fn spec_declaration(&self) -> FunctionDeclaration {
        self.declaration
    }

    pub closed spec fn spec_locals(&self) -> Seq<TypeId> {
        self.locals@
    }

    pub closed spec fn spec_instructions(&self) -> Seq<Instruction> {
        self.instructions@
    }

    /// The operand types recorded before the instruction at `index`.
    pub closed spec fn spec_operand_types(&self, index: int) -> Seq<TypeId> {
        self.instruction_operand_types@[index]@
    }

    pub closed spec fn spec_operand_stack_size(&self) -> nat {
        self.operand_stack_size as nat
    }

    /// One operand-type record per instruction.
    pub closed spec fn wf(&self) -> bool {
        self.instruction_operand_types@.len() == self.instructions@.len()
    }

    /// A managed function that has not been verified yet: no operand types
    /// are recorded and the operand stack size is zero.
    pub open spec fn is_fresh_managed(&self) -> bool {
        &&& self.wf()
        &&& self.spec_declaration().spec_function_type() == FunctionType::Managed
        &&& self.spec_declaration().spec_address() is None
        &&& self.spec_operand_stack_size() == 0
        &&& forall|i: int| 0 <= i < self.spec_instructions().len() ==> (#[trigger] self.spec_operand_types(i)).len() == 0
    }

    /// The body is the same as in `other`: declaration, locals and instructions.
    pub open spec fn same_body(&self, other: Function) -> bool {
        &&& self.spec_declaration() == other.spec_declaration()
        &&& self.spec_locals() == other.spec_locals()
        &&& self.spec_instructions() == other.spec_instructions()
    }

    pub fn new(declaration: FunctionDeclaration, locals: Vec<TypeId>, instructions: Vec<Instruction>) -> (r: Function)
        ensures
            r.wf(),
            r.spec_declaration() == declaration,
            r.spec_locals() == locals@,
            r.spec_instructions() == instructions@,
            forall|i: int| 0 <= i < instructions@.len() ==> r.spec_operand_types(i).len() == 0,
            r.spec_operand_stack_size() == 0,
    {
        let num_instructions = instructions.len();
        let mut instruction_operand_types: Vec<Vec<TypeId>> = Vec::new();
        let mut i: usize = 0;
        while i < num_instructions
            invariant
                i <= num_instructions,
                instruction_operand_types@.len() == i,
                forall|j: int| 0 <= j < i ==> instruction_operand_types@[j]@.len() == 0,
            decreases num_instructions - i,
        {
            instruction_operand_types.push(Vec::new());
            i = i + 1;
        }
        Function { declaration, locals, instructions, instruction_operand_types, operand_stack_size: 0 }
    }

    pub fn declaration(&self) -> (r: &FunctionDeclaration)
        ensures
            *r == self.spec_declaration(),
    {
        &self.declaration
    }

    pub fn locals(&self) -> (r: &Vec<TypeId>)
        ensures
            r@ == self.spec_locals(),
    {
        &self.locals
    }

    pub fn operand_stack_size(&self) -> (r: usize)
        ensures
            r == self.spec_operand_stack_size(),
    {
        self.operand_stack_size
    }

    pub fn set_operand_stack_size(&mut self, value: usize)
        ensures
            final(self).spec_operand_stack_size() == value,
            final(self).same_body(*old(self)),
            final(self).wf() == old(self).wf(),
            forall|i: int| #![trigger final(self).spec_operand_types(i)]
                0 <= i < old(self).spec_instructions().len() ==> final(self).spec_operand_types(i) == old(self).spec_operand_types(i),
    {
        self.operand_stack_size = value;
    }

    pub fn instructions(&self) -> (r: &Vec<Instruction>)
        ensures
            r@ == self.spec_instructions(),
    {
        &self.instructions
    }

    pub fn instruction_operand_types(&self, index: usize) -> (r: &Vec<TypeId>)
        requires
            self.wf(),
            index < self.spec_instructions().len(),
        ensures
            r@ == self.spec_operand_types(index as int),
    {
        &self.instruction_operand_types[index]
    }

    /// Replaces the operand types recorded for the instruction at `index`.
    pub fn set_instruction_operand_types(&mut self, index: usize, types: Vec<TypeId>)
        requires
            old(self).wf(),
            index < old(self).spec_instructions().len(),
        ensures
            final(self).wf(),
            final(self).same_body(*old(self)),
            final(self).spec_operand_stack_size() == old(self).spec_operand_stack_size(),
            final(self).spec_operand_types(index as int) == types@,
            forall|i: int| #![trigger final(self).spec_operand_types(i)]
                0 <= i < old(self).spec_instructions().len() && i != index ==> final(self).spec_operand_types(i)
                    == old(self).spec_operand_types(i),
    {
        self.instruction_operand_types.set(index, types);
    }
}

/// Storage of the functions of a program.
pub struct FunctionStorage {
    functions: Vec<Box<Function>>,
}

impl FunctionStorage {
    pub closed spec fn spec_functions(&self) -> Seq<Function> {
        self.functions@.map_values(|f: Box<Function>| *f)
    }

    pub fn new() -> (r: FunctionStorage)
        ensures
            r.spec_functions() == Seq::<Function>::empty(),
    {
        let r = FunctionStorage { functions: Vec::new() };
        assert(r.spec_functions() =~= Seq::<Function>::empty());
        r
    }

    pub fn add_function(&mut self, function: Function)
        ensures
            final(self).spec_functions() == old(self).spec_functions().push(function),
    {
        self.functions.push(Box::new(function));
        assert(self.spec_functions() =~= old(self).spec_functions().push(function));
    }

    /// The first stored function whose declaration has the signature.
    pub fn get_function(&self, signature: &FunctionSignature) -> (r: Option<&Function>)
        ensures
            match r {
                Some(f) => exists|i: int|
                    0 <= i < self.spec_functions().len() && self.spec_functions()[i] == *f
                        && f.spec_declaration().signature_view() == signature@
                        && forall|j: int| 0 <= j < i ==> self.spec_functions()[j].spec_declaration().signature_view() != signature@,
                None => forall|i: int|
                    0 <= i < self.spec_functions().len() ==> self.spec_functions()[i].spec_declaration().signature_view() != signature@,
            },
    {
        let mut i: usize = 0;
        while i < self.functions.len()
            invariant
                i <= self.functions@.len(),
                self.spec_functions().len() == self.functions@.len(),
                forall|j: int| 0 <= j < i ==> self.spec_functions()[j].spec_declaration().signature_view() != signature@,
            decreases self.functions@.len() - i,
        {
            let f: &Function = &self.functions[i];
            if f.declaration().signature().is_same(signature) {
                assert(self.spec_functions()[i as int] == *f);
                return Some(f);
            }
            i = i + 1;
        }
        None
    }
}

/// The texts of the types, separated by spaces.
pub open spec fn types_text(types: Seq<TypeIdView>) -> Seq<char>
    decreases types.len(),
{
    if types.len() == 0 {
        Seq::empty()
    } else if types.len() == 1 {
        type_text(types[0])
    } else {
        types_text(types.drop_last()) + " "@ + type_text(types.last())
    }
}

/// The text of a signature: its name, then its parameter types in parentheses.
pub open spec fn signature_text(signature: (Seq<char>, Seq<TypeIdView>)) -> Seq<char> {
    signature.0 + "("@ + types_text(signature.1) + ")"@
}

/// Appends the text of a signature.
pub fn push_signature(out: &mut Vec<char>, signature: &FunctionSignature)
    ensures
        final(out)@ == old(out)@ + signature_text(signature@),
{
    let ghost start = out@;
    let ghost types = types_view(signature.parameters@);
    push_str(out, signature.name.as_str());
    push_str(out, "(");
    let ghost head = out@;
    let mut i: usize = 0;
    while i < signature.parameters.len()
        invariant
            i <= signature.parameters@.len(),
            types == types_view(signature.parameters@),
            out@ == head + types_text(types.take(i as int)),
        decreases signature.parameters@.len() - i,
    {
        if i > 0 {
            push_str(out, " ");
        }
        push_type(out, &signature.parameters[i]);
        proof {
            assert(types.take(i + 1).drop_last() =~= types.take(i as int));
            assert(types.take(i + 1).last() == signature.parameters@[i as int]@);
            if i == 0 {
                assert(types.take(0) =~= Seq::<TypeIdView>::empty());
            }
            assert(out@ =~= head + types_text(types.take(i + 1)));
        }
        i = i + 1;
    }
    push_str(out, ")");
    assert(types.take(i as int) =~= types);
    assert(out@ =~= start + signature_text(signature@));
}

impl FunctionSignature {
    /// The text of the signature (see [`signature_text`]).
    pub fn to_string(&self) -> (r: String)
        ensures
            r@ == signature_text(self@),
    {
        let mut out: Vec<char> = Vec::new();
        push_signature(&mut out, self);
        assert(out@ =~= signature_text(self@));
        string_from_chars(out.as_slice())
    }
}

impl FunctionDeclaration {
    /// The text of the declaration: its signature, then its return type.
    pub fn to_string(&self) -> (r: String)
        ensures
            r@ == signature_text(self.signature_view()) + " "@ + type_text(self.spec_return_type()@),
    {
        let mut out: Vec<char> = Vec::new();
        let signature = self.signature();
        push_signature(&mut out, &signature);
        push_str(&mut out, " ");
        push_type(&mut out, self.return_type());
        assert(out@ =~= signature_text(self.signature_view()) + " "@ + type_text(self.spec_return_type()@));
        string_from_chars(out.as_slice())
    }
}

} // verus!
