//! Classes: named records of typed fields laid out one after another.
use vstd::prelude::*;
use crate::model::typesystem::{TypeId, type_size};

verus! {

/// A field of a class: its name, its type and its byte offset in an object.
#[derive(Debug)]
pub struct Field {
    name: String,
    field_type: TypeId,
    offset: usize,
}

impl Clone for Field {
    fn clone(&self) -> (r: Self)
        ensures
            r == *self,
    {
        Field { name: self.name.clone(), field_type: self.field_type.clone(), offset: self.offset }
    }
}

impl Field {
    pub closed spec fn spec_name(&self) -> Seq<char> {
        self.name@
    }

    pub closed spec fn spec_field_type(&self) -> TypeId {
        self.field_type
    }

    pub closed spec fn spec_offset(&self) -> nat {
        self.offset as nat
    }

    pub fn new(name: String, field_type: TypeId) -> (r: Field)
        ensures
            r.spec_name() == name@,
            r.spec_field_type() == field_type,
            r.spec_offset() == 0,
    {
        Field { name, field_type, offset: 0 }
    }

    pub fn name(&self) -> (r: &str)
        ensures
            r@ == self.spec_name(),
    {
        self.name.as_str()
    }

    pub fn field_type(&self) -> (r: &TypeId)
        ensures
            *r == self.spec_field_type(),
    {
        &self.field_type
    }

    pub fn offset(&self) -> (r: usize)
        ensures
            r == self.spec_offset(),
    {
        self.offset
    }
}

/// Total size of the first `n` fields.
pub open spec fn fields_size(fields: Seq<Field>, n: int) -> nat
    decreases n,
{
    if n <= 0 {
        0
    } else {
        fields_size(fields, n - 1) + type_size(fields[n - 1].spec_field_type()@)
    }
}

/// Index of the last of the first `n` fields that is called `name`.
pub open spec fn last_field_named(fields: Seq<Field>, name: Seq<char>, n: int) -> Option<int>
    decreases n,
{
    if n <= 0 {
        None
    } else if fields[n - 1].spec_name() == name {
        Some(n - 1)
    } else {
        last_field_named(fields, name, n - 1)
    }
}

/// A class: its name, its fields in declaration order, and the size of an object.
#[derive(Debug)]
pub struct Class {
    name: String,
    fields: Vec<Field>,
    memory_size: usize,
}

impl Clone for Class {
    fn clone(&self) -> (r: Self)
        ensures
            r.spec_name() == self.spec_name(),
            r.spec_fields() == self.spec_fields(),
            r.spec_memory_size() == self.spec_memory_size(),
    {
        let mut fields: Vec<Field> = Vec::new();
        let mut i: usize = 0;
        while i < self.fields.len()
            invariant
                i <= self.fields@.len(),
                fields@ == self.fields@.subrange(0, i as int),
            decreases self.fields@.len() - i,
        {
            fields.push(self.fields[i].clone());
            i = i + 1;
            assert(fields@ =~= self.fields@.subrange(0, i as int));
        }
        assert(fields@ =~= self.fields@);
        Class { name: self.name.clone(), fields, memory_size: self.memory_size }
    }
}

impl Class {
    pub closed spec fn spec_name(&self) -> Seq<char> {
        self.name@
    }

    pub closed spec fn spec_fields(&self) -> Seq<Field> {
        self.fields@
    }

    pub closed spec fn spec_memory_size(&self) -> nat {
        self.memory_size as nat
    }

    /// Lays the fields out in declaration order: each field starts where
    /// the previous one ends, and the object size is the sum of the sizes.
    pub fn new(name: String, fields: Vec<Field>) -> (r: Class)
        requires
            fields@.len() * 8 <= usize::MAX,
        ensures
            r.spec_name() == name@,
            r.spec_fields().len() == fields@.len(),
            forall|i: int|
                #![trigger r.spec_fields()[i]]
                0 <= i < fields@.len() ==> {
                    &&& r.spec_fields()[i].spec_name() == fields@[i].spec_name()
                    &&& r.spec_fields()[i].spec_field_type() == fields@[i].spec_field_type()
                    &&& r.spec_fields()[i].spec_offset() == fields_size(fields@, i)
                },
            r.spec_memory_size() == fields_size(fields@, fields@.len() as int),
    {
        let mut fields = fields;
        let ghost original = fields@;
        let mut offset: usize = 0;
        let mut i: usize = 0;
        while i < fields.len()
            invariant
                i <= fields@.len(),
                fields@.len() == original.len(),
                original.len() * 8 <= usize::MAX,
                offset == fields_size(original, i as int),
                offset <= 8 * i,
                forall|j: int|
                    #![trigger fields@[j]]
                    0 <= j < fields@.len() ==> {
                        &&& fields@[j].spec_name() == original[j].spec_name()
                        &&& fields@[j].spec_field_type() == original[j].spec_field_type()
                    },
                forall|j: int| #![trigger fields@[j]] 0 <= j < i ==> fields@[j].spec_offset() == fields_size(original, j),
            decreases fields@.len() - i,
        {
            let size = fields[i].field_type.size();
            let field_type = fields[i].field_type.clone();
            assert(field_type == fields@[i as int].field_type);
            let field = Field { name: fields[i].name.clone(), field_type, offset };
            assert(field.spec_field_type() == original[i as int].spec_field_type());
            let ghost before = fields@;
            fields.set(i, field);
            assert(fields@[i as int].spec_field_type() == original[i as int].spec_field_type());
            assert(fields_size(original, i + 1) == fields_size(original, i as int) + type_size(
                original[i as int].spec_field_type()@,
            ));
            assert(forall|j: int| 0 <= j < fields@.len() && j != i ==> fields@[j] == before[j]);
            offset = offset + size;
            i = i + 1;
        }
        Class { name, fields, memory_size: offset }
    }

    pub fn name(&self) -> (r: &str)
        ensures
            r@ == self.spec_name(),
    {
        self.name.as_str()
    }

    pub fn fields(&self) -> (r: &Vec<Field>)
        ensures
            r@ == self.spec_fields(),
    {
        &self.fields
    }

    /// The field called `name`; when several fields share the name, the last one.
    pub fn get_field(&self, name: &str) -> (r: Option<&Field>)
        ensures
            match last_field_named(self.spec_fields(), name@, self.spec_fields().len() as int) {
                Some(i) => r == Some(&self.spec_fields()[i]),
                None => r is None,
            },
    {
        let mut i: usize = self.fields.len();
        while i > 0
            invariant
                i <= self.fields@.len(),
                last_field_named(self.fields@, name@, self.fields@.len() as int) == last_field_named(
                    self.fields@,
                    name@,
                    i as int,
                ),
            decreases i,
        {
            i = i - 1;
            if str_equal(self.fields[i].name.as_str(), name) {
                return Some(&self.fields[i]);
            }
        }
        None
    }

    pub fn memory_size(&self) -> (r: usize)
        ensures
            r == self.spec_memory_size(),
    {
        self.memory_size
    }
}

/// Compares two strings character by character.
pub fn str_equal(a: &str, b: &str) -> (r: bool)
    ensures
        r == (a@ == b@),
{
    let a_owned = a.to_owned();
    let b_owned = b.to_owned();
    a_owned == b_owned
}

} // verus!
