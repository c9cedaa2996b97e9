//! The binder: the declarations of all callable functions, by signature.
use vstd::prelude::*;
use crate::model::typesystem::{TypeId, TypeIdView};
use crate::model::function::{FunctionDeclaration, FunctionSignature, FunctionAddress};

verus! {

/// The declared functions, at most one per signature.
pub struct Binder {
    functions: Vec<FunctionDeclaration>,
}

impl Binder {
    /// The declarations, in the order in which their signatures were first defined.
    pub closed spec fn declarations(&self) -> Seq<FunctionDeclaration> {
        self.functions@
    }

    /// No signature is declared twice.
    pub open spec fn wf(&self) -> bool {
        forall|i: int, j: int|
            0 <= i < j < self.declarations().len() ==> #[trigger] self.declarations()[i].signature_view()
                != #[trigger] self.declarations()[j].signature_view()
    }

    /// Position of the declaration with the signature `signature`, if any.
    pub open spec fn index_of(&self, signature: (Seq<char>, Seq<TypeIdView>)) -> Option<int> {
        if exists|i: int| 0 <= i < self.declarations().len() && self.declarations()[i].signature_view() == signature {
            Some(choose|i: int| 0 <= i < self.declarations().len() && self.declarations()[i].signature_view() == signature)
        } else {
            None
        }
    }

    /// The declaration with the signature `signature`, if any.
    pub open spec fn lookup(&self, signature: (Seq<char>, Seq<TypeIdView>)) -> Option<FunctionDeclaration> {
        match self.index_of(signature) {
            Some(i) => Some(self.declarations()[i]),
            None => None,
        }
    }

    /// A binder that declares the two runtime functions `std.gc.collect`
    /// and `std.gc.print_stack_frame`, both without parameters and returning `Void`.
    pub fn new() -> (r: Binder)
        ensures
            r.wf(),
            r.declarations().len() == 2,
            r.declarations()[0].spec_name() == "std.gc.collect"@,
            r.declarations()[1].spec_name() == "std.gc.print_stack_frame"@,
            forall|i: int| 0 <= i < 2 ==> {
                &&& #[trigger] r.declarations()[i].spec_parameters().len() == 0
                &&& r.declarations()[i].spec_return_type() is Void
                &&& r.declarations()[i].spec_address() == Some(0usize)
            },
    {
        let mut binder = Binder { functions: Vec::new() };
        let collect = "std.gc.collect".to_owned();
        let print_stack_frame = "std.gc.print_stack_frame".to_owned();
        proof {
            reveal_strlit("std.gc.collect");
            reveal_strlit("std.gc.print_stack_frame");
        }
        assert(collect@ != print_stack_frame@) by {
            assert(collect@.len() != print_stack_frame@.len());
        }
        binder.functions.push(FunctionDeclaration::new_external(collect, Vec::new(), TypeId::Void, 0));
        binder.functions.push(FunctionDeclaration::new_external(print_stack_frame, Vec::new(), TypeId::Void, 0));
        assert(binder.declarations()[0].signature_view() != binder.declarations()[1].signature_view());
        binder
    }

    fn find(&self, signature: &FunctionSignature) -> (r: Option<usize>)
        ensures
            match r {
                Some(i) => i < self.declarations().len() && self.declarations()[i as int].signature_view() == signature@,
                None => forall|i: int|
                    0 <= i < self.declarations().len() ==> self.declarations()[i].signature_view() != signature@,
            },
    {
        let mut i: usize = 0;
        while i < self.functions.len()
            invariant
                i <= self.functions@.len(),
                forall|j: int| 0 <= j < i ==> self.functions@[j].signature_view() != signature@,
            decreases self.functions@.len() - i,
        {
            let s = self.functions[i].signature();
            if s.is_same(signature) {
                return Some(i);
            }
            i = i + 1;
        }
        None
    }

    /// Declares the function; a declaration with the same signature is replaced.
    pub fn define(&mut self, definition: FunctionDeclaration)
        requires
            old(self).wf(),
        ensures
            final(self).wf(),
            final(self).lookup(definition.signature_view()) == Some(definition),
            forall|s: (Seq<char>, Seq<TypeIdView>)|
                s != definition.signature_view() ==> #[trigger] final(self).lookup(s) == old(self).lookup(s),
    {
        let signature = definition.signature();
        match self.find(&signature) {
            Some(i) => {
                self.functions.set(i, definition);
                proof {
                    assert forall|s: (Seq<char>, Seq<TypeIdView>)|
                        s != definition.signature_view() implies #[trigger] self.lookup(s) == old(self).lookup(s) by {
                        if old(self).index_of(s) is Some {
                            let k = old(self).index_of(s)->0;
                            assert(self.declarations()[k].signature_view() == s);
                        }
                        if self.index_of(s) is Some {
                            let k = self.index_of(s)->0;
                            assert(old(self).declarations()[k].signature_view() == s);
                        }
                    }
                    assert(self.declarations()[i as int].signature_view() == definition.signature_view());
                }
            },
            None => {
                self.functions.push(definition);
                proof {
                    let n = old(self).declarations().len();
                    assert(self.declarations()[n as int] == definition);
                    assert forall|s: (Seq<char>, Seq<TypeIdView>)|
                        s != definition.signature_view() implies #[trigger] self.lookup(s) == old(self).lookup(s) by {
                        if old(self).index_of(s) is Some {
                            let k = old(self).index_of(s)->0;
                            assert(self.declarations()[k].signature_view() == s);
                        }
                        if self.index_of(s) is Some {
                            let k = self.index_of(s)->0;
                            assert(k < n);
                            assert(old(self).declarations()[k].signature_view() == s);
                        }
                    }
                }
            },
        }
    }

    /// The declaration with the signature, if any.
    pub fn get(&self, signature: &FunctionSignature) -> (r: Option<&FunctionDeclaration>)
        requires
            self.wf(),
        ensures
            match self.lookup(signature@) {
                Some(d) => r == Some(&d),
                None => r is None,
            },
    {
        match self.find(signature) {
            Some(i) => Some(&self.functions[i]),
            None => None,
        }
    }

    /// Sets the code address of the declared function with the signature.
    pub fn set_address(&mut self, signature: &FunctionSignature, address: FunctionAddress)
        requires
            old(self).wf(),
            old(self).lookup(signature@) is Some,
        ensures
            final(self).wf(),
            final(self).declarations().len() == old(self).declarations().len(),
            ({
                let i = old(self).index_of(signature@)->0;
                let d = final(self).declarations()[i];
                let o = old(self).declarations()[i];
                &&& d.spec_address() == Some(address)
                &&& d.spec_function_type() == o.spec_function_type()
                &&& d.spec_name() == o.spec_name()
                &&& d.spec_parameters() == o.spec_parameters()
                &&& d.spec_return_type() == o.spec_return_type()
                &&& forall|j: int| 0 <= j < final(self).declarations().len() && j != i ==> final(self).declarations()[j]
                    == old(self).declarations()[j]
            }),
    {
        let i = self.find(signature).unwrap();
        let mut declaration = self.functions[i].clone();
        declaration.set_address(address);
        self.functions.set(i, declaration);
    }
}

} // verus!
