//! Value types of the virtual machine and the storage of class types.
use vstd::prelude::*;
use crate::text::{str_to_chars, string_from_chars, has_prefix_at, occurs_at, push_str};
use crate::model::class::Class;

verus! {

/// The type of a value on the operand stack, in a local or in a field.
#[derive(Debug, PartialEq, Eq, Hash, PartialOrd, Ord)]
pub enum TypeId {
    Void,
    Int32,
    Float32,
    Bool,
    Array(Box<TypeId>),
    Class(String),
}

/// The mathematical form of a [`TypeId`]: class names as character sequences.
pub enum TypeIdView {
    Void,
    Int32,
    Float32,
    Bool,
    Array(Box<TypeIdView>),
    Class(Seq<char>),
}

pub open spec fn type_id_view(t: TypeId) -> TypeIdView
    decreases t,
{
    match t {
        TypeId::Void => TypeIdView::Void,
        TypeId::Int32 => TypeIdView::Int32,
        TypeId::Float32 => TypeIdView::Float32,
        TypeId::Bool => TypeIdView::Bool,
        TypeId::Array(element) => TypeIdView::Array(Box::new(type_id_view(*element))),
        TypeId::Class(name) => TypeIdView::Class(name@),
    }
}

impl View for TypeId {
    type V = TypeIdView;

    open spec fn view(&self) -> TypeIdView {
        type_id_view(*self)
    }
}

/// Size in bytes of a value of the type.
pub open spec fn type_size(t: TypeIdView) -> nat {
    match t {
        TypeIdView::Void => 0,
        TypeIdView::Int32 => 4,
        TypeIdView::Float32 => 4,
        TypeIdView::Bool => 1,
        TypeIdView::Array(_) => 8,
        TypeIdView::Class(_) => 8,
    }
}

pub open spec fn is_reference_type(t: TypeIdView) -> bool {
    t is Array || t is Class
}

impl Clone for TypeId {
    fn clone(&self) -> (r: Self)
        ensures
            r == *self,
        decreases self,
    {
        match self {
            TypeId::Void => TypeId::Void,
            TypeId::Int32 => TypeId::Int32,
            TypeId::Float32 => TypeId::Float32,
            TypeId::Bool => TypeId::Bool,
            TypeId::Array(element) => {
                let e: &TypeId = element;
                TypeId::Array(Box::new(e.clone()))
            },
            TypeId::Class(name) => TypeId::Class(name.clone()),
        }
    }
}

/// The views of a sequence of types.
pub open spec fn types_view(s: Seq<TypeId>) -> Seq<TypeIdView> {
    s.map_values(|t: TypeId| t@)
}

/// Copies a vector of types.
pub fn clone_types(v: &Vec<TypeId>) -> (r: Vec<TypeId>)
    ensures
        r@ == v@,
{
    let mut r: Vec<TypeId> = Vec::new();
    let mut i: usize = 0;
    while i < v.len()
        invariant
            i <= v@.len(),
            r@ == v@.subrange(0, i as int),
        decreases v@.len() - i,
    {
        r.push(v[i].clone());
        i = i + 1;
        assert(r@ =~= v@.subrange(0, i as int));
    }
    assert(r@ =~= v@);
    r
}

/// Characters of the textual name of each primitive type.
pub open spec fn void_chars() -> Seq<char> { seq!['V', 'o', 'i', 'd'] }
pub open spec fn int_chars() -> Seq<char> { seq!['I', 'n', 't'] }
pub open spec fn float_chars() -> Seq<char> { seq!['F', 'l', 'o', 'a', 't'] }
pub open spec fn bool_chars() -> Seq<char> { seq!['B', 'o', 'o', 'l'] }
pub open spec fn ref_array_chars() -> Seq<char> { seq!['R', 'e', 'f', '.', 'A', 'r', 'r', 'a', 'y', '['] }
pub open spec fn ref_chars() -> Seq<char> { seq!['R', 'e', 'f', '.'] }

/// Position of the first `]` in `text` at or after `from`, or the length of `text`.
pub open spec fn class_name_end(text: Seq<char>, from: int) -> int
    decreases text.len() - from,
{
    if from >= text.len() {
        text.len() as int
    } else if text[from] == ']' {
        from
    } else {
        class_name_end(text, from + 1)
    }
}

/// The type that the text starting at `start` denotes. A type name is
/// recognized by its prefix: `Void`, `Int`, `Float`, `Bool`,
/// `Ref.Array[<element>` and `Ref.<class name>`, where the class name runs
/// up to the first `]` or to the end of the text.
pub open spec fn parse_type_spec(text: Seq<char>, start: int) -> Option<TypeIdView>
    decreases text.len() - start,
{
    if start < 0 || start >= text.len() {
        None
    } else if occurs_at(text, start, void_chars()) {
        Some(TypeIdView::Void)
    } else if occurs_at(text, start, int_chars()) {
        Some(TypeIdView::Int32)
    } else if occurs_at(text, start, float_chars()) {
        Some(TypeIdView::Float32)
    } else if occurs_at(text, start, bool_chars()) {
        Some(TypeIdView::Bool)
    } else if occurs_at(text, start, ref_array_chars()) {
        match parse_type_spec(text, start + 10) {
            Some(element) => Some(TypeIdView::Array(Box::new(element))),
            None => None,
        }
    } else if occurs_at(text, start, ref_chars()) {
        Some(TypeIdView::Class(text.subrange(start + 4, class_name_end(text, start + 4))))
    } else {
        None
    }
}

pub open spec fn option_type_view(t: Option<TypeId>) -> Option<TypeIdView> {
    match t {
        Some(t) => Some(t@),
        None => None,
    }
}

impl TypeId {
    pub fn size(&self) -> (r: usize)
        ensures
            r == type_size(self@),
    {
        match self {
            TypeId::Void => 0,
            TypeId::Int32 => 4,
            TypeId::Float32 => 4,
            TypeId::Bool => 1,
            TypeId::Array(_) => 8,
            TypeId::Class(_) => 8,
        }
    }

    pub fn element_type(&self) -> (r: Option<&TypeId>)
        ensures
            match *self {
                TypeId::Array(element) => r == Some(&*element),
                _ => r is None,
            },
    {
        match self {
            TypeId::Array(element) => Some(element),
            _ => None,
        }
    }

    pub fn class_name(&self) -> (r: Option<&str>)
        ensures
            match *self {
                TypeId::Class(name) => r is Some && r->0@ == name@,
                _ => r is None,
            },
    {
        match self {
            TypeId::Class(class) => Some(class.as_str()),
            _ => None,
        }
    }

    pub fn is_reference(&self) -> (r: bool)
        ensures
            r == is_reference_type(self@),
    {
        match self {
            TypeId::Array(_) => true,
            TypeId::Class(_) => true,
            _ => false,
        }
    }

    pub fn is_array(&self) -> (r: bool)
        ensures
            r == (*self is Array),
    {
        match self {
            TypeId::Array(_) => true,
            _ => false,
        }
    }

    pub fn is_class(&self) -> (r: bool)
        ensures
            r == (*self is Class),
    {
        match self {
            TypeId::Class(_) => true,
            _ => false,
        }
    }

    pub fn is_float(&self) -> (r: bool)
        ensures
            r == (*self is Float32),
    {
        match self {
            TypeId::Float32 => true,
            _ => false,
        }
    }

    pub fn is_void(&self) -> (r: bool)
        ensures
            r == (*self is Void),
            r == (self@ is Void),
    {
        match self {
            TypeId::Void => true,
            _ => false,
        }
    }

    /// Whether the two types are the same (class types compare by name).
    pub fn is_same_type(&self, other: &TypeId) -> (r: bool)
        ensures
            r == (self@ == other@),
        decreases self,
    {
        match (self, other) {
            (TypeId::Void, TypeId::Void) => true,
            (TypeId::Int32, TypeId::Int32) => true,
            (TypeId::Float32, TypeId::Float32) => true,
            (TypeId::Bool, TypeId::Bool) => true,
            (TypeId::Array(a), TypeId::Array(b)) => {
                let a: &TypeId = a;
                let b: &TypeId = b;
                assert(self@ == TypeIdView::Array(Box::new(a@)));
                assert(other@ == TypeIdView::Array(Box::new(b@)));
                a.is_same_type(b)
            },
            (TypeId::Class(a), TypeId::Class(b)) => {
                let r = (*a) == (*b);
                r
            },
            _ => {
                assert(self@ != other@);
                false
            },
        }
    }

    /// Parses the textual name of a type, such as `Int`, `Ref.Point` or
    /// `Ref.Array[Ref.Array[Int]]`.
    pub fn from_str(text: &str) -> (r: Option<TypeId>)
        ensures
            option_type_view(r) == parse_type_spec(text@, 0),
    {
        let chars = str_to_chars(text);
        TypeId::parse_type(&chars, 0)
    }

    fn parse_type(text: &Vec<char>, start: usize) -> (r: Option<TypeId>)
        ensures
            option_type_view(r) == parse_type_spec(text@, start as int),
        decreases text@.len() - start,
    {
        if start >= text.len() {
            return None;
        }
        let void_prefix = vec!['V', 'o', 'i', 'd'];
        let int_prefix = vec!['I', 'n', 't'];
        let float_prefix = vec!['F', 'l', 'o', 'a', 't'];
        let bool_prefix = vec!['B', 'o', 'o', 'l'];
        let ref_array_prefix = vec!['R', 'e', 'f', '.', 'A', 'r', 'r', 'a', 'y', '['];
        let ref_prefix = vec!['R', 'e', 'f', '.'];
        assert(void_prefix@ =~= void_chars());
        assert(int_prefix@ =~= int_chars());
        assert(float_prefix@ =~= float_chars());
        assert(bool_prefix@ =~= bool_chars());
        assert(ref_array_prefix@ =~= ref_array_chars());
        assert(ref_prefix@ =~= ref_chars());

        if has_prefix_at(text, start, &void_prefix) {
            Some(TypeId::Void)
        } else if has_prefix_at(text, start, &int_prefix) {
            Some(TypeId::Int32)
        } else if has_prefix_at(text, start, &float_prefix) {
            Some(TypeId::Float32)
        } else if has_prefix_at(text, start, &bool_prefix) {
            Some(TypeId::Bool)
        } else if has_prefix_at(text, start, &ref_array_prefix) {
            match TypeId::parse_type(text, start + 10) {
                Some(element) => Some(TypeId::Array(Box::new(element))),
                None => None,
            }
        } else if has_prefix_at(text, start, &ref_prefix) {
            let name_start = start + 4;
            let mut end = name_start;
            while end < text.len() && text[end] != ']'
                invariant
                    name_start <= end <= text@.len(),
                    class_name_end(text@, name_start as int) == class_name_end(text@, end as int),
                decreases text@.len() - end,
            {
                end = end + 1;
            }
            let name = string_from_chars(&text.as_slice()[name_start..end]);
            assert(name@ == text@.subrange(name_start as int, end as int));
            Some(TypeId::Class(name))
        } else {
            None
        }
    }
}

/// A type together with its class definition, if it is a class type.
pub struct Type {
    pub id: TypeId,
    pub class: Option<Class>,
}

/// The types known to the virtual machine, at most one entry per type.
pub struct TypeStorage {
    types: Vec<Type>,
}

impl TypeStorage {
    /// The stored types, in insertion order.
    pub closed spec fn types(&self) -> Seq<Type> {
        self.types@
    }

    /// No type is stored twice, and every class type carries its class,
    /// whose name is the type's name.
    pub open spec fn wf(&self) -> bool {
        &&& forall|i: int, j: int|
            0 <= i < j < self.types().len() ==> #[trigger] self.types()[i].id@ != #[trigger] self.types()[j].id@
        &&& forall|i: int| 0 <= i < self.types().len() ==> type_entry_wf(#[trigger] self.types()[i])
    }

    /// Index of the entry for the type `id`, if any.
    pub open spec fn index_of(&self, id: TypeIdView) -> Option<int> {
        if exists|i: int| 0 <= i < self.types().len() && self.types()[i].id@ == id {
            Some(choose|i: int| 0 <= i < self.types().len() && self.types()[i].id@ == id)
        } else {
            None
        }
    }

    pub fn new() -> (r: TypeStorage)
        ensures
            r.types() == Seq::<Type>::empty(),
            r.wf(),
    {
        TypeStorage { types: Vec::new() }
    }

    fn find(&self, id: &TypeId) -> (r: Option<usize>)
        ensures
            match r {
                Some(i) => i < self.types().len() && self.types()[i as int].id@ == id@,
                None => forall|i: int| 0 <= i < self.types().len() ==> self.types()[i].id@ != id@,
            },
    {
        let mut i: usize = 0;
        while i < self.types.len()
            invariant
                i <= self.types@.len(),
                forall|j: int| 0 <= j < i ==> self.types@[j].id@ != id@,
            decreases self.types@.len() - i,
        {
            if self.types[i].id.is_same_type(id) {
                return Some(i);
            }
            i = i + 1;
        }
        None
    }

    /// Adds the class as a class type named after it; a class type of that
    /// name that is already stored stays as it is.
    pub fn add_class(&mut self, class: Class)
        requires
            old(self).wf(),
        ensures
            final(self).wf(),
            old(self).index_of(TypeIdView::Class(class.spec_name())) is Some ==> final(self).types()
                == old(self).types(),
            old(self).index_of(TypeIdView::Class(class.spec_name())) is None ==> {
                &&& final(self).types().len() == old(self).types().len() + 1
                &&& final(self).types().drop_last() == old(self).types()
                &&& final(self).types().last().id@ == TypeIdView::Class(class.spec_name())
                &&& final(self).types().last().class == Some(class)
            },
    {
        let name = class.name().to_owned();
        let type_id = TypeId::Class(name);
        assert(type_id@ == TypeIdView::Class(class.spec_name()));
        match self.find(&type_id) {
            Some(_) => {},
            None => {
                proof {
                    assert(!(exists|i: int| 0 <= i < self.types().len() && self.types()[i].id@ == type_id@));
                }
                self.types.push(Type { id: type_id, class: Some(class) });
            },
        }
    }

    /// The stored type `type_id`, if any.
    pub fn get(&self, type_id: &TypeId) -> (r: Option<&Type>)
        requires
            self.wf(),
        ensures
            match self.index_of(type_id@) {
                Some(i) => r == Some(&self.types()[i]),
                None => r is None,
            },
    {
        match self.find(type_id) {
            Some(i) => Some(&self.types[i]),
            None => None,
        }
    }

    /// The stored type `type_id`; a type that is not a class type is added
    /// (without a class) when it is missing.
    pub fn entry(&mut self, type_id: TypeId) -> (r: &Type)
        requires
            old(self).wf(),
            type_id is Class ==> old(self).index_of(type_id@) is Some,
        ensures
            final(self).wf(),
            r.id@ == type_id@,
            match old(self).index_of(type_id@) {
                Some(i) => final(self).types() == old(self).types() && *r == old(self).types()[i],
                None => final(self).types() == old(self).types().push(*r) && r.class is None,
            },
    {
        match self.find(&type_id) {
            Some(i) => &self.types[i],
            None => {
                proof {
                    assert(!(exists|i: int| 0 <= i < self.types().len() && self.types()[i].id@ == type_id@));
                }
                self.types.push(Type { id: type_id, class: None });
                let n = self.types.len();
                &self.types[n - 1]
            },
        }
    }
}

/// An entry of the storage is well formed when a class type holds the class
/// of that name and any other type holds no class.
pub open spec fn type_entry_wf(t: Type) -> bool {
    match t.id@ {
        TypeIdView::Class(name) => t.class is Some && t.class->0.spec_name() == name,
        _ => t.class is None,
    }
}

/// The text of a type: `Void`, `Int`, `Float`, `Bool`, `Ref.Array[element]`
/// or `Ref.` followed by the class name.
pub open spec fn type_text(t: TypeIdView) -> Seq<char>
    decreases t,
{
    match t {
        TypeIdView::Void => "Void"@,
        TypeIdView::Int32 => "Int"@,
        TypeIdView::Float32 => "Float"@,
        TypeIdView::Bool => "Bool"@,
        TypeIdView::Array(element) => "Ref.Array["@ + type_text(*element) + "]"@,
        TypeIdView::Class(name) => "Ref."@ + name,
    }
}

/// Appends the text of a type.
pub fn push_type(out: &mut Vec<char>, t: &TypeId)
    ensures
        final(out)@ == old(out)@ + type_text(t@),
    decreases t,
{
    match t {
        TypeId::Void => push_str(out, "Void"),
        TypeId::Int32 => push_str(out, "Int"),
        TypeId::Float32 => push_str(out, "Float"),
        TypeId::Bool => push_str(out, "Bool"),
        TypeId::Array(element) => {
            push_str(out, "Ref.Array[");
            push_type(out, &**element);
            push_str(out, "]");
            assert(final(out)@ =~= old(out)@ + type_text(t@));
        },
        TypeId::Class(name) => {
            push_str(out, "Ref.");
            push_str(out, name.as_str());
            assert(final(out)@ =~= old(out)@ + type_text(t@));
        },
    }
}

impl TypeId {
    /// The text of the type (see [`type_text`]).
    pub fn to_string(&self) -> (r: String)
        ensures
            r@ == type_text(self@),
    {
        let mut out: Vec<char> = Vec::new();
        push_type(&mut out, self);
        assert(out@ =~= type_text(self@));
        string_from_chars(out.as_slice())
    }
}

/// A type whose text reads back as the same type: no class name holds a
/// `]` or starts with `Array[`.
pub open spec fn printable_type(t: TypeIdView) -> bool
    decreases t,
{
    match t {
        TypeIdView::Array(element) => printable_type(*element),
        TypeIdView::Class(name) => !name.contains(']') && !(name.len() >= 6 && name.subrange(0, 6) == "Array["@),
        _ => true,
    }
}

proof fn lemma_class_name_end(text: Seq<char>, from: int, end: int)
    requires
        0 <= from <= end <= text.len(),
        forall|i: int| from <= i < end ==> text[i] != ']',
        end == text.len() || text[end] == ']',
    ensures
        class_name_end(text, from) == end,
    decreases end - from,
{
    if from < end {
        lemma_class_name_end(text, from + 1, end);
    }
}

/// The text of a type, followed by nothing or by `]`, parses back as the type.
pub proof fn lemma_parse_type_text(t: TypeIdView, text: Seq<char>, start: int)
    requires
        printable_type(t),
        0 <= start,
        start + type_text(t).len() <= text.len(),
        text.subrange(start, start + type_text(t).len()) == type_text(t),
        start + type_text(t).len() == text.len() || text[start + type_text(t).len()] == ']',
    ensures
        parse_type_spec(text, start) == Some(t),
    decreases t,
{
    reveal_strlit("Void");
    reveal_strlit("Int");
    reveal_strlit("Float");
    reveal_strlit("Bool");
    reveal_strlit("Ref.Array[");
    reveal_strlit("]");
    reveal_strlit("Ref.");
    reveal_strlit("Array[");
    let tt = type_text(t);
    assert forall|i: int| 0 <= i < tt.len() implies text[start + i] == #[trigger] tt[i] by {
        assert(text.subrange(start, start + tt.len())[i] == tt[i]);
    }
    match t {
        TypeIdView::Void => {
            assert(text.subrange(start, start + 4) =~= void_chars());
        },
        TypeIdView::Int32 => {
            assert(tt[0] == 'I');
            assert(text[start + 0] == tt[0]);
            assert(text[start] == 'I');
            assert(text.subrange(start, start + 3) =~= int_chars());
        },
        TypeIdView::Float32 => {
            assert(tt[0] == 'F');
            assert(text[start + 0] == tt[0]);
            assert(text[start] == 'F');
            assert(text.subrange(start, start + 5) =~= float_chars());
        },
        TypeIdView::Bool => {
            assert(tt[0] == 'B');
            assert(text[start + 0] == tt[0]);
            assert(text[start] == 'B');
            assert(text.subrange(start, start + 4) =~= bool_chars());
        },
        TypeIdView::Array(element) => {
            let et = type_text(*element);
            assert(tt =~= "Ref.Array["@ + et + "]"@);
            assert(tt[0] == 'R');
            assert(text[start + 0] == tt[0]);
            assert(text.subrange(start, start + 10) =~= ref_array_chars()) by {
                assert forall|i: int| 0 <= i < 10 implies text.subrange(start, start + 10)[i] == ref_array_chars()[i] by {
                    assert(tt[i] == "Ref.Array["@[i]);
                }
            }
            assert(text.subrange(start + 10, start + 10 + et.len()) =~= et) by {
                assert forall|i: int| 0 <= i < et.len() implies text.subrange(start + 10, start + 10 + et.len())[i] == et[i] by {
                    assert(tt[10 + i] == et[i]);
                }
            }
            assert(text[start + 10 + et.len()] == ']') by {
                assert(tt[10 + et.len() as int] == ']');
            }
            lemma_parse_type_text(*element, text, start + 10);
        },
        TypeIdView::Class(name) => {
            assert(tt =~= "Ref."@ + name);
            assert(tt[0] == 'R');
            assert(text[start + 0] == tt[0]);
            assert(text.subrange(start, start + 4) =~= ref_chars()) by {
                assert forall|i: int| 0 <= i < 4 implies text.subrange(start, start + 4)[i] == ref_chars()[i] by {
                    assert(tt[i] == "Ref."@[i]);
                }
            }
            assert forall|i: int| start + 4 <= i < start + 4 + name.len() implies text[i] != ']' by {
                assert(tt[i - start] == name[i - start - 4]);
                if text[i] == ']' {
                    assert(name.contains(']'));
                }
            }
            lemma_class_name_end(text, start + 4, start + 4 + name.len());
            assert(text.subrange(start + 4, start + 4 + name.len()) =~= name) by {
                assert forall|i: int| 0 <= i < name.len() implies text.subrange(start + 4, start + 4 + name.len())[i] == name[i] by {
                    assert(tt[4 + i] == name[i]);
                }
            }
            if occurs_at(text, start, ref_array_chars()) {
                assert forall|i: int| 0 <= i < 10 implies text[start + i] == #[trigger] ref_array_chars()[i] by {
                    assert(text.subrange(start, start + 10)[i] == ref_array_chars()[i]);
                }
                if name.len() < 6 {
                    let e = start + 4 + name.len();
                    assert(text[e] == ref_array_chars()[4 + name.len() as int]);
                } else {
                    assert(name.subrange(0, 6) =~= "Array["@) by {
                        assert forall|i: int| 0 <= i < 6 implies name.subrange(0, 6)[i] == "Array["@[i] by {
                            assert(tt[4 + i] == name[i]);
                            assert(text[start + 4 + i] == ref_array_chars()[4 + i]);
                        }
                    }
                }
            }
        },
    }
}

/// Parsing the printed text of a type gives the type back.
pub proof fn lemma_type_text_round_trip(t: TypeIdView)
    requires
        printable_type(t),
    ensures
        parse_type_spec(type_text(t), 0) == Some(t),
{
    assert(type_text(t).subrange(0, type_text(t).len() as int) =~= type_text(t));
    lemma_parse_type_text(t, type_text(t), 0);
}

/// A text that starts with none of `Void`, `Int`, `Float`, `Bool` and
/// `Ref.` names no type.
pub proof fn lemma_unknown_prefix(text: Seq<char>)
    requires
        !occurs_at(text, 0, void_chars()),
        !occurs_at(text, 0, int_chars()),
        !occurs_at(text, 0, float_chars()),
        !occurs_at(text, 0, bool_chars()),
        !occurs_at(text, 0, ref_chars()),
    ensures
        parse_type_spec(text, 0) is None,
{
    if occurs_at(text, 0, ref_array_chars()) {
        assert(text.subrange(0, 4) =~= text.subrange(0, 10).subrange(0, 4));
        assert(ref_array_chars().subrange(0, 4) =~= ref_chars());
    }
}

} // verus!
