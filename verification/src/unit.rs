//! The compilation unit carried through the pipeline, together with the
//! constant-pool-derived reference tables it shares with every pass.
use vstd::prelude::*;
use crate::instructions::Instruction;

verus! {

#[derive(Copy, Clone, Debug, PartialEq, Eq, Structural)]
pub enum UnitType {
    Class,
    Interface,
    Enum,
}

#[derive(Copy, Clone, Debug, PartialEq, Eq, Structural)]
pub enum Modifier {
    Public,
    Protected,
    Private,
    Static,
    Abstract,
    Final,
    Native,
    Synchronized,
    Transient,
    Volatile,
    Strictfp,
}

#[derive(Debug, PartialEq)]
pub enum Type {
    Void,
    Boolean,
    Byte,
    Short,
    Char,
    Int,
    Long,
    Float,
    Double,
    Array(Box<Type>),
    Reference(String),
}

#[derive(Debug, PartialEq)]
pub struct Signature {
    pub parameters: Vec<Type>,
    pub return_type: Type,
}

#[derive(Debug, PartialEq)]
pub enum Descriptor {
    Signature(Signature),
    Type(Type),
}

/// A literal resolved from the constant pool.
#[derive(Debug, PartialEq)]
pub enum JavaConstant {
    NullReference,
    Byte(i8),
    Short(i16),
    Integer(i32),
    Long(i64),
    Boolean(bool),
    String(String),
}

#[derive(Debug, PartialEq)]
pub struct ClassRef(pub String);

#[derive(Debug, PartialEq)]
pub struct FieldRef {
    pub class_ref: u16,
    pub name: String,
    pub typ: Type,
}

#[derive(Debug, PartialEq)]
pub struct MethodRef {
    pub class_ref: u16,
    pub name: String,
    pub signature: Signature,
}

#[derive(Debug, PartialEq)]
pub struct NameRef {
    pub name: String,
    pub typ: Descriptor,
}

/// A finite mapping from 16-bit constant-pool indices to resolved entities,
/// stored as an association list with distinct keys.
#[derive(Debug, PartialEq)]
pub struct Table<V> {
    entries: Vec<(u16, V)>,
}

impl<V> Table<V> {
    /// The mathematical map this table stands for.
    pub closed spec fn view(&self) -> Map<u16, V> {
        Self::entries_map(self.entries@)
    }

    pub closed spec fn entries_map(s: Seq<(u16, V)>) -> Map<u16, V>
        decreases s.len(),
    {
        if s.len() == 0 {
            Map::empty()
        } else {
            Self::entries_map(s.drop_last()).insert(s.last().0, s.last().1)
        }
    }

    /// Keys are never repeated, so each lookup has one answer.
    pub closed spec fn wf(&self) -> bool {
        forall|i: int, j: int|
            0 <= i < j < self.entries@.len() ==> (#[trigger] self.entries@[i]).0 != (#[trigger] self.entries@[j]).0
    }

    proof fn lemma_entries_map_contains(s: Seq<(u16, V)>, k: u16)
        ensures
            Self::entries_map(s).dom().contains(k) <==> exists|i: int| 0 <= i < s.len() && (#[trigger] s[i]).0 == k,
        decreases s.len(),
    {
        if s.len() > 0 {
            Self::lemma_entries_map_contains(s.drop_last(), k);
            if s.last().0 == k {
                assert(s[s.len() - 1].0 == k);
            } else {
                if Self::entries_map(s).dom().contains(k) {
                    let i = choose|i: int| 0 <= i < s.drop_last().len() && (#[trigger] s.drop_last()[i]).0 == k;
                    assert(s[i].0 == k);
                }
                if exists|i: int| 0 <= i < s.len() && (#[trigger] s[i]).0 == k {
                    let i = choose|i: int| 0 <= i < s.len() && (#[trigger] s[i]).0 == k;
                    assert(i < s.len() - 1);
                    assert(s.drop_last()[i].0 == k);
                }
            }
        }
    }

    proof fn lemma_entries_map_get(s: Seq<(u16, V)>, i: int)
        requires
            0 <= i < s.len(),
            forall|a: int, b: int| 0 <= a < b < s.len() ==> (#[trigger] s[a]).0 != (#[trigger] s[b]).0,
        ensures
            Self::entries_map(s).dom().contains(s[i].0),
            Self::entries_map(s)[s[i].0] == s[i].1,
        decreases s.len(),
    {
        if i == s.len() - 1 {
            Self::lemma_entries_map_contains(s, s[i].0);
        } else {
            Self::lemma_entries_map_get(s.drop_last(), i);
            assert(s.drop_last()[i] == s[i]);
            assert(s.last().0 != s[i].0);
        }
    }

    pub fn new() -> (r: Table<V>)
        ensures
            r.wf(),
            r@ == Map::<u16, V>::empty(),
    {
        Table { entries: Vec::new() }
    }

    /// Store `v` under `k`; an existing binding of `k` is replaced.
    pub fn insert(&mut self, k: u16, v: V)
        requires
            old(self).wf(),
        ensures
            final(self).wf(),
            final(self)@ == old(self)@.insert(k, v),
    {
        let ghost old_entries = self.entries@;
        let mut i: usize = 0;
        let n = self.entries.len();
        while i < n
            invariant
                self.entries@ == old_entries,
                old_entries == old(self).entries@,
                old(self).wf(),
                n == old_entries.len(),
                0 <= i <= n,
                forall|j: int| 0 <= j < i ==> (#[trigger] old_entries[j]).0 != k,
            decreases n - i,
        {
            if self.entries[i].0 == k {
                proof {
                    assert(forall|a: int, b: int|
                        0 <= a < b < old_entries.len() ==> (#[trigger] old_entries[a]).0 != (#[trigger] old_entries[b]).0);
                }
                self.entries[i] = (k, v);
                proof {
                    Self::lemma_insert_at(old_entries, i as int, k, v);
                    assert(self.entries@ == old_entries.update(i as int, (k, v)));
                    assert forall|a: int, b: int|
                        0 <= a < b < self.entries@.len() implies (#[trigger] self.entries@[a]).0 != (#[trigger] self.entries@[b]).0 by {
                        assert(old_entries[a].0 != old_entries[b].0);
                    }
                }
                return;
            }
            i = i + 1;
        }
        self.entries.push((k, v));
        proof {
            assert(self.entries@.drop_last() =~= old_entries);
        }
    }

    proof fn lemma_insert_at(s: Seq<(u16, V)>, i: int, k: u16, v: V)
        requires
            0 <= i < s.len(),
            s[i].0 == k,
            forall|a: int, b: int| 0 <= a < b < s.len() ==> (#[trigger] s[a]).0 != (#[trigger] s[b]).0,
        ensures
            Self::entries_map(s.update(i, (k, v))) == Self::entries_map(s).insert(k, v),
        decreases s.len(),
    {
        let su = s.update(i, (k, v));
        if i == s.len() - 1 {
            assert(su.drop_last() =~= s.drop_last());
            assert(Self::entries_map(su) =~= Self::entries_map(s).insert(k, v));
        } else {
            Self::lemma_insert_at(s.drop_last(), i, k, v);
            assert(su.drop_last() =~= s.drop_last().update(i, (k, v)));
            assert(su.last() == s.last());
            assert(s.last().0 != k);
            assert(Self::entries_map(su) =~= Self::entries_map(s).insert(k, v));
        }
    }

    /// Look up the entry stored under `k`, if any.
    pub fn get(&self, k: u16) -> (r: Option<&V>)
        requires
            self.wf(),
        ensures
            match r {
                Some(v) => self@.dom().contains(k) && *v == self@[k],
                None => !self@.dom().contains(k),
            },
    {
        let mut i: usize = 0;
        let n = self.entries.len();
        while i < n
            invariant
                n == self.entries@.len(),
                0 <= i <= n,
                self.wf(),
                forall|j: int| 0 <= j < i ==> (#[trigger] self.entries@[j]).0 != k,
            decreases n - i,
        {
            if self.entries[i].0 == k {
                proof {
                    Self::lemma_entries_map_get(self.entries@, i as int);
                }
                return Some(&self.entries[i].1);
            }
            i = i + 1;
        }
        proof {
            Self::lemma_entries_map_contains(self.entries@, k);
        }
        None
    }
}

/// Constant-pool-derived reference tables shared by every pass.
#[derive(Debug, PartialEq)]
pub struct Metadata {
    pub literals: Table<JavaConstant>,
    pub string_constants: Table<String>,
    pub class_refs: Table<ClassRef>,
    pub field_refs: Table<FieldRef>,
    pub method_refs: Table<MethodRef>,
    pub name_refs: Table<NameRef>,
}

impl Metadata {
    pub open spec fn wf(&self) -> bool {
        &&& self.literals.wf()
        &&& self.string_constants.wf()
        &&& self.class_refs.wf()
        &&& self.field_refs.wf()
        &&& self.method_refs.wf()
        &&& self.name_refs.wf()
    }

    /// Empty tables, to be filled from the constant pool.
    pub fn new() -> (r: Metadata)
        ensures
            r.wf(),
            r.literals@ == Map::<u16, JavaConstant>::empty(),
            r.string_constants@ == Map::<u16, String>::empty(),
            r.class_refs@ == Map::<u16, ClassRef>::empty(),
            r.field_refs@ == Map::<u16, FieldRef>::empty(),
            r.method_refs@ == Map::<u16, MethodRef>::empty(),
            r.name_refs@ == Map::<u16, NameRef>::empty(),
    {
        Metadata {
            literals: Table::new(),
            string_constants: Table::new(),
            class_refs: Table::new(),
            field_refs: Table::new(),
            method_refs: Table::new(),
            name_refs: Table::new(),
        }
    }
}

/// A method body before any transformation: the decoded instruction list,
/// each instruction at its byte offset within the original bytecode.
#[derive(Debug, PartialEq)]
pub struct Code {
    pub instructions: Vec<(u16, Instruction)>,
}

#[derive(Debug, PartialEq)]
pub struct Field {
    pub modifiers: Vec<Modifier>,
    pub name: String,
    pub typ: Type,
}

#[derive(Debug, PartialEq)]
pub struct Method<C> {
    pub modifiers: Vec<Modifier>,
    pub name: String,
    pub signature: Signature,
    pub code: Option<C>,
}

#[derive(Debug, PartialEq)]
pub struct Constructor<C> {
    pub modifiers: Vec<Modifier>,
    pub parameters: Vec<Type>,
    pub code: C,
}

#[derive(Debug, PartialEq)]
pub enum Declaration<C> {
    Field(Field),
    Method(Method<C>),
    Constructor(Constructor<C>),
}

/// A class, interface or enum; the parameter is the current representation
/// of each method body.
#[derive(Debug, PartialEq)]
pub struct CompilationUnit<C> {
    pub typ: UnitType,
    pub modifiers: Vec<Modifier>,
    pub name: String,
    pub metadata: Metadata,
    pub declarations: Vec<Declaration<C>>,
}

} // verus!

verus! {

// ------------------------------------------------------------------
// Mathematical models.  Every contract about values that contain a
// `String` or a `Vec` speaks of these models, where text is a sequence
// of characters and lists are sequences.
// ------------------------------------------------------------------

#[verifier::ext_equal]
pub enum TypeV {
    Void,
    Boolean,
    Byte,
    Short,
    Char,
    Int,
    Long,
    Float,
    Double,
    Array(Box<TypeV>),
    Reference(Seq<char>),
}

#[verifier::ext_equal]
pub struct SignatureV {
    pub parameters: Seq<TypeV>,
    pub return_type: TypeV,
}

#[verifier::ext_equal]
pub enum JavaConstantV {
    NullReference,
    Byte(i8),
    Short(i16),
    Integer(i32),
    Long(i64),
    Boolean(bool),
    String(Seq<char>),
}

#[verifier::ext_equal]
pub struct FieldRefV {
    pub class_ref: u16,
    pub name: Seq<char>,
    pub typ: TypeV,
}

#[verifier::ext_equal]
pub struct MethodRefV {
    pub class_ref: u16,
    pub name: Seq<char>,
    pub signature: SignatureV,
}

#[verifier::ext_equal]
pub enum DescriptorV {
    Signature(SignatureV),
    Type(TypeV),
}

#[verifier::ext_equal]
pub struct NameRefV {
    pub name: Seq<char>,
    pub typ: DescriptorV,
}

pub open spec fn type_model(t: Type) -> TypeV
    decreases t,
{
    match t {
        Type::Void => TypeV::Void,
        Type::Boolean => TypeV::Boolean,
        Type::Byte => TypeV::Byte,
        Type::Short => TypeV::Short,
        Type::Char => TypeV::Char,
        Type::Int => TypeV::Int,
        Type::Long => TypeV::Long,
        Type::Float => TypeV::Float,
        Type::Double => TypeV::Double,
        Type::Array(inner) => TypeV::Array(Box::new(type_model(*inner))),
        Type::Reference(name) => TypeV::Reference(name@),
    }
}

pub open spec fn types_model(s: Seq<Type>) -> Seq<TypeV> {
    Seq::new(s.len(), |i: int| type_model(s[i]))
}

pub open spec fn signature_model(s: Signature) -> SignatureV {
    SignatureV { parameters: types_model(s.parameters@), return_type: type_model(s.return_type) }
}

pub open spec fn java_constant_model(c: JavaConstant) -> JavaConstantV {
    match c {
        JavaConstant::NullReference => JavaConstantV::NullReference,
        JavaConstant::Byte(v) => JavaConstantV::Byte(v),
        JavaConstant::Short(v) => JavaConstantV::Short(v),
        JavaConstant::Integer(v) => JavaConstantV::Integer(v),
        JavaConstant::Long(v) => JavaConstantV::Long(v),
        JavaConstant::Boolean(v) => JavaConstantV::Boolean(v),
        JavaConstant::String(s) => JavaConstantV::String(s@),
    }
}

pub open spec fn class_ref_model(c: ClassRef) -> Seq<char> {
    c.0@
}

pub open spec fn field_ref_model(f: FieldRef) -> FieldRefV {
    FieldRefV { class_ref: f.class_ref, name: f.name@, typ: type_model(f.typ) }
}

pub open spec fn method_ref_model(m: MethodRef) -> MethodRefV {
    MethodRefV { class_ref: m.class_ref, name: m.name@, signature: signature_model(m.signature) }
}

pub open spec fn descriptor_model(d: Descriptor) -> DescriptorV {
    match d {
        Descriptor::Signature(s) => DescriptorV::Signature(signature_model(s)),
        Descriptor::Type(t) => DescriptorV::Type(type_model(t)),
    }
}

pub open spec fn name_ref_model(n: NameRef) -> NameRefV {
    NameRefV { name: n.name@, typ: descriptor_model(n.typ) }
}

// ------------------------------------------------------------------
// Copies.  The derived `Clone` says nothing to the verifier, so the
// types written above get copies whose contracts it can use.
// ------------------------------------------------------------------

impl Clone for Type {
    fn clone(&self) -> (r: Self)
        ensures
            r == *self,
        decreases *self,
    {
        match self {
            Type::Void => Type::Void,
            Type::Boolean => Type::Boolean,
            Type::Byte => Type::Byte,
            Type::Short => Type::Short,
            Type::Char => Type::Char,
            Type::Int => Type::Int,
            Type::Long => Type::Long,
            Type::Float => Type::Float,
            Type::Double => Type::Double,
            Type::Array(t) => Type::Array(Box::new((**t).clone())),
            Type::Reference(s) => Type::Reference(s.clone()),
        }
    }
}

/// Element-wise copy of a parameter list.
pub fn clone_types(v: &Vec<Type>) -> (r: Vec<Type>)
    ensures
        r@ == v@,
{
    let mut r: Vec<Type> = Vec::new();
    let mut i: usize = 0;
    while i < v.len()
        invariant
            0 <= i <= v@.len(),
            r@ =~= v@.subrange(0, i as int),
        decreases v@.len() - i,
    {
        r.push(v[i].clone());
        i = i + 1;
    }
    proof {
        assert(r@ =~= v@);
    }
    r
}

impl Clone for Signature {
    fn clone(&self) -> (r: Self)
        ensures
            r.parameters@ == self.parameters@,
            r.return_type == self.return_type,
    {
        let parameters = clone_types(&self.parameters);
        Signature { parameters, return_type: self.return_type.clone() }
    }
}

impl Clone for Descriptor {
    fn clone(&self) -> (r: Self)
        ensures
            descriptor_model(r) == descriptor_model(*self),
    {
        match self {
            Descriptor::Signature(s) => {
                let r = Descriptor::Signature(s.clone());
                proof {
                    assert(descriptor_model(r) =~~= descriptor_model(*self));
                }
                r
            }
            Descriptor::Type(t) => Descriptor::Type(t.clone()),
        }
    }
}

impl Clone for JavaConstant {
    fn clone(&self) -> (r: Self)
        ensures
            r == *self,
    {
        match self {
            JavaConstant::NullReference => JavaConstant::NullReference,
            JavaConstant::Byte(v) => JavaConstant::Byte(*v),
            JavaConstant::Short(v) => JavaConstant::Short(*v),
            JavaConstant::Integer(v) => JavaConstant::Integer(*v),
            JavaConstant::Long(v) => JavaConstant::Long(*v),
            JavaConstant::Boolean(v) => JavaConstant::Boolean(*v),
            JavaConstant::String(s) => JavaConstant::String(s.clone()),
        }
    }
}

impl Clone for ClassRef {
    fn clone(&self) -> (r: Self)
        ensures
            r == *self,
    {
        ClassRef(self.0.clone())
    }
}

impl Clone for FieldRef {
    fn clone(&self) -> (r: Self)
        ensures
            r == *self,
    {
        FieldRef { class_ref: self.class_ref, name: self.name.clone(), typ: self.typ.clone() }
    }
}

impl Clone for MethodRef {
    fn clone(&self) -> (r: Self)
        ensures
            r.class_ref == self.class_ref,
            r.name == self.name,
            r.signature.parameters@ == self.signature.parameters@,
            r.signature.return_type == self.signature.return_type,
    {
        MethodRef { class_ref: self.class_ref, name: self.name.clone(), signature: self.signature.clone() }
    }
}

impl Clone for NameRef {
    fn clone(&self) -> (r: Self)
        ensures
            name_ref_model(r) == name_ref_model(*self),
    {
        let r = NameRef { name: self.name.clone(), typ: self.typ.clone() };
        proof {
            assert(name_ref_model(r) =~~= name_ref_model(*self));
        }
        r
    }
}

} // verus!
