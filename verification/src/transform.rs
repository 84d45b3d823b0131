//! Resolution of the parsed class binary into a `CompilationUnit`:
//! typed metadata tables, descriptor translation, and per-method
//! disassembly.
use vstd::prelude::*;
use crate::classfile::{
    ClassFile, ConstantInfo, ConstantPool, MethodInfo, AccessFlags,
    ACC_PUBLIC, ACC_PROTECTED, ACC_PRIVATE, ACC_STATIC, ACC_ABSTRACT, ACC_FINAL,
    ACC_SYNCHRONIZED, ACC_NATIVE, ACC_STRICT, ACC_INTERFACE, ACC_ENUM,
};
use crate::errors::Error;
use crate::unit::{
    CompilationUnit, Declaration, Metadata, Method, Modifier, Signature, Type, UnitType,
    JavaConstant, ClassRef, FieldRef, MethodRef, NameRef, Descriptor, Code,
    TypeV, type_model, types_model, signature_model, SignatureV,
};

verus! {

broadcast use vstd::std_specs::vec::group_vec_axioms;

/// Relies on String::push: appends exactly one character.
#[verifier::external_body]
fn string_push(s: &mut String, c: char)
    ensures
        final(s)@ == old(s)@.push(c),
{
    s.push(c);
}

/// A singleton or empty modifier list, depending on one flag bit.
pub open spec fn mod_if(set: bool, m: Modifier) -> Seq<Modifier> {
    if set { seq![m] } else { Seq::empty() }
}

/// The modifiers a class carries for a given flag word.
pub open spec fn spec_class_modifiers(bits: u16) -> Seq<Modifier> {
    mod_if(bits & ACC_PUBLIC == ACC_PUBLIC, Modifier::Public)
        + mod_if(bits & ACC_PROTECTED == ACC_PROTECTED, Modifier::Protected)
        + mod_if(bits & ACC_PRIVATE == ACC_PRIVATE, Modifier::Private)
        + mod_if(bits & ACC_STATIC == ACC_STATIC, Modifier::Static)
        + mod_if(bits & ACC_ABSTRACT == ACC_ABSTRACT, Modifier::Abstract)
        + mod_if(bits & ACC_FINAL == ACC_FINAL, Modifier::Final)
}

/// Translate a class flag word into source modifiers.
pub fn class_flags_to_modifiers(flags: &AccessFlags) -> (r: Vec<Modifier>)
    ensures
        r@ == spec_class_modifiers(flags.bits),
{
    let mut modifiers: Vec<Modifier> = Vec::new();
    if flags.contains(ACC_PUBLIC) {
        modifiers.push(Modifier::Public);
    }
    if flags.contains(ACC_PROTECTED) {
        modifiers.push(Modifier::Protected);
    }
    if flags.contains(ACC_PRIVATE) {
        modifiers.push(Modifier::Private);
    }
    if flags.contains(ACC_STATIC) {
        modifiers.push(Modifier::Static);
    }
    if flags.contains(ACC_ABSTRACT) {
        modifiers.push(Modifier::Abstract);
    }
    if flags.contains(ACC_FINAL) {
        modifiers.push(Modifier::Final);
    }
    proof {
        assert(modifiers@ =~= spec_class_modifiers(flags.bits));
    }
    modifiers
}

/// The modifiers a method carries for a given flag word.
pub open spec fn spec_method_modifiers(bits: u16) -> Seq<Modifier> {
    spec_class_modifiers(bits)
        + mod_if(bits & ACC_SYNCHRONIZED == ACC_SYNCHRONIZED, Modifier::Synchronized)
        + mod_if(bits & ACC_NATIVE == ACC_NATIVE, Modifier::Native)
        + mod_if(bits & ACC_STRICT == ACC_STRICT, Modifier::Strictfp)
}

/// Translate a method flag word into source modifiers.
pub fn method_flags_to_modifiers(flags: &AccessFlags) -> (r: Vec<Modifier>)
    ensures
        r@ == spec_method_modifiers(flags.bits),
{
    let mut modifiers = class_flags_to_modifiers(flags);
    if flags.contains(ACC_SYNCHRONIZED) {
        modifiers.push(Modifier::Synchronized);
    }
    if flags.contains(ACC_NATIVE) {
        modifiers.push(Modifier::Native);
    }
    if flags.contains(ACC_STRICT) {
        modifiers.push(Modifier::Strictfp);
    }
    proof {
        assert(modifiers@ =~= spec_method_modifiers(flags.bits));
    }
    modifiers
}

/// Internal-form class names use slashes; source names use dots.
pub open spec fn dotted(s: Seq<char>) -> Seq<char> {
    s.map(|i: int, c: char| if c == '/' { '.' } else { c })
}

/// Copy a name, replacing each slash by a dot.
pub fn dot_name(s: &str) -> (r: String)
    ensures
        r@ == dotted(s@),
{
    let n = s.unicode_len();
    let mut out = String::new();
    let mut i: usize = 0;
    while i < n
        invariant
            n == s@.len(),
            0 <= i <= n,
            out@ =~= dotted(s@.subrange(0, i as int)),
        decreases n - i,
    {
        let c = s.get_char(i);
        if c == '/' {
            string_push(&mut out, '.');
        } else {
            string_push(&mut out, c);
        }
        proof {
            assert(out@ =~= dotted(s@.subrange(0, i + 1)));
        }
        i = i + 1;
    }
    proof {
        assert(s@.subrange(0, n as int) =~= s@);
    }
    out
}

/// Where the first semicolon at or after `from` sits.
pub open spec fn spec_find_semi(s: Seq<char>, from: int) -> Option<int>
    decreases s.len() - from
        when from >= 0
{
    if from < 0 || from >= s.len() {
        None
    } else if s[from] == ';' {
        Some(from)
    } else {
        spec_find_semi(s, from + 1)
    }
}

/// The type the descriptor grammar reads at `pos`, with the position
/// just past it: `B C D F I J S V Z` are primitives, `L...;` is a
/// reference (slashes read as dots), `[` prefixes an array.
pub open spec fn spec_type_at(s: Seq<char>, pos: int) -> Option<(TypeV, int)>
    decreases s.len() - pos
        when pos >= 0
{
    if pos < 0 || pos >= s.len() {
        None
    } else if s[pos] == 'B' {
        Some((TypeV::Byte, pos + 1))
    } else if s[pos] == 'C' {
        Some((TypeV::Char, pos + 1))
    } else if s[pos] == 'D' {
        Some((TypeV::Double, pos + 1))
    } else if s[pos] == 'F' {
        Some((TypeV::Float, pos + 1))
    } else if s[pos] == 'I' {
        Some((TypeV::Int, pos + 1))
    } else if s[pos] == 'J' {
        Some((TypeV::Long, pos + 1))
    } else if s[pos] == 'S' {
        Some((TypeV::Short, pos + 1))
    } else if s[pos] == 'V' {
        Some((TypeV::Void, pos + 1))
    } else if s[pos] == 'Z' {
        Some((TypeV::Boolean, pos + 1))
    } else if s[pos] == 'L' {
        match spec_find_semi(s, pos + 1) {
            Some(end) => Some((TypeV::Reference(dotted(s.subrange(pos + 1, end))), end + 1)),
            None => None,
        }
    } else if s[pos] == '[' {
        match spec_type_at(s, pos + 1) {
            Some((t, next)) => Some((TypeV::Array(Box::new(t)), next)),
            None => None,
        }
    } else {
        None
    }
}

proof fn lemma_find_semi_bounds(s: Seq<char>, from: int)
    requires
        from >= 0,
    ensures
        spec_find_semi(s, from) matches Some(end) ==> from <= end < s.len() && s[end] == ';'
            && forall|k: int| from <= k < end ==> s[k] != ';',
    decreases s.len() - from,
{
    if 0 <= from < s.len() && s[from] != ';' {
        lemma_find_semi_bounds(s, from + 1);
    }
}

proof fn lemma_type_at_advances(s: Seq<char>, pos: int)
    requires
        pos >= 0,
    ensures
        spec_type_at(s, pos) matches Some((t, next)) ==> pos < next <= s.len(),
    decreases s.len() - pos,
{
    if 0 <= pos < s.len() {
        if s[pos] == 'L' {
            lemma_find_semi_bounds(s, pos + 1);
        }
        if s[pos] == '[' {
            lemma_type_at_advances(s, pos + 1);
        }
    }
}

/// Translate one type of a descriptor, advancing past it.
pub fn descriptor_to_type(s: &str, pos: &mut usize) -> (r: Result<Type, Error>)
    ensures
        match r {
            Ok(t) => {
                &&& spec_type_at(s@, *old(pos) as int) matches Some((tv, next))
                    && type_model(t) == tv && *final(pos) == next
            },
            Err(e) => {
                &&& spec_type_at(s@, *old(pos) as int) is None
                &&& e == Error::MalformedDescriptor
            },
        },
    decreases s@.len() - *old(pos),
{
    let n = s.unicode_len();
    if *pos >= n {
        return Err(Error::MalformedDescriptor);
    }
    let c = s.get_char(*pos);
    if c == 'B' {
        *pos = *pos + 1;
        Ok(Type::Byte)
    } else if c == 'C' {
        *pos = *pos + 1;
        Ok(Type::Char)
    } else if c == 'D' {
        *pos = *pos + 1;
        Ok(Type::Double)
    } else if c == 'F' {
        *pos = *pos + 1;
        Ok(Type::Float)
    } else if c == 'I' {
        *pos = *pos + 1;
        Ok(Type::Int)
    } else if c == 'J' {
        *pos = *pos + 1;
        Ok(Type::Long)
    } else if c == 'S' {
        *pos = *pos + 1;
        Ok(Type::Short)
    } else if c == 'V' {
        *pos = *pos + 1;
        Ok(Type::Void)
    } else if c == 'Z' {
        *pos = *pos + 1;
        Ok(Type::Boolean)
    } else if c == 'L' {
        let start = *pos + 1;
        let mut j: usize = start;
        while j < n && s.get_char(j) != ';'
            invariant
                n == s@.len(),
                start == *pos + 1,
                *pos < n,
                start <= j <= n,
                spec_find_semi(s@, start as int) == spec_find_semi(s@, j as int),
            decreases n - j,
        {
            j = j + 1;
        }
        if j >= n {
            proof {
                assert(spec_find_semi(s@, j as int) is None);
            }
            return Err(Error::MalformedDescriptor);
        }
        proof {
            assert(spec_find_semi(s@, j as int) == Some(j as int));
        }
        let mut name = String::new();
        let mut k: usize = start;
        while k < j
            invariant
                n == s@.len(),
                start <= k <= j < n,
                name@ =~= dotted(s@.subrange(start as int, k as int)),
            decreases j - k,
        {
            let c2 = s.get_char(k);
            if c2 == '/' {
                string_push(&mut name, '.');
            } else {
                string_push(&mut name, c2);
            }
            proof {
                assert(name@ =~= dotted(s@.subrange(start as int, k + 1)));
            }
            k = k + 1;
        }
        *pos = j + 1;
        Ok(Type::Reference(name))
    } else if c == '[' {
        *pos = *pos + 1;
        let inner = descriptor_to_type(s, pos)?;
        proof {
            lemma_type_at_advances(s@, *old(pos) as int + 1);
        }
        Ok(Type::Array(Box::new(inner)))
    } else {
        Err(Error::MalformedDescriptor)
    }
}

/// The parameter types the grammar reads between `(` and `)`.
pub open spec fn spec_params_at(s: Seq<char>, pos: int) -> Option<(Seq<TypeV>, int)>
    decreases s.len() - pos
        when pos >= 0
{
    if pos < 0 || pos >= s.len() {
        None
    } else if s[pos] == ')' {
        Some((Seq::empty(), pos + 1))
    } else {
        match spec_type_at(s, pos) {
            Some((t, next)) => if pos < next <= s.len() {
                match spec_params_at(s, next) {
                    Some((rest, end)) => Some((seq![t] + rest, end)),
                    None => None,
                }
            } else {
                None
            },
            None => None,
        }
    }
}

/// The signature a method descriptor denotes: parameters between
/// parentheses, then the return type.
pub open spec fn spec_signature_of(s: Seq<char>) -> Option<SignatureV> {
    if s.len() == 0 || s[0] != '(' {
        None
    } else {
        match spec_params_at(s, 1) {
            Some((params, after)) => match spec_type_at(s, after) {
                Some((ret, _)) => Some(SignatureV { parameters: params, return_type: ret }),
                None => None,
            },
            None => None,
        }
    }
}

/// Translate a whole method descriptor.
pub fn descriptor_to_signature(s: &str) -> (r: Result<Signature, Error>)
    ensures
        match r {
            Ok(sig) => {
                &&& spec_signature_of(s@) matches Some(sv) && signature_model(sig) == sv
            },
            Err(e) => {
                &&& spec_signature_of(s@) is None
                &&& e == Error::MalformedDescriptor
            },
        },
{
    let n = s.unicode_len();
    if n == 0 {
        return Err(Error::MalformedDescriptor);
    }
    let first = s.get_char(0);
    if first != '(' {
        return Err(Error::MalformedDescriptor);
    }
    let mut params: Vec<Type> = Vec::new();
    let mut pos: usize = 1;
    loop
        invariant_except_break
            1 <= pos <= n,
            spec_params_at(s@, pos as int) matches Some((rest, end2)) ==> (
                spec_params_at(s@, 1) matches Some((all, end))
                    && all == types_model(params@) + rest && end == end2
            ),
            spec_params_at(s@, pos as int) is None ==> spec_params_at(s@, 1) is None,
        invariant
            n == s@.len(),
            s@.len() > 0 && s@[0] == '(',
        ensures
            n == s@.len(),
            1 <= pos <= n + 1,
            spec_params_at(s@, 1) matches Some((all, end))
                && all == types_model(params@) && end == pos,
        decreases n - pos,
    {
        if pos >= n {
            proof {
                assert(spec_params_at(s@, pos as int) is None);
            }
            return Err(Error::MalformedDescriptor);
        }
        if s.get_char(pos) == ')' {
            proof {
                assert(spec_params_at(s@, pos as int) == Some((Seq::<TypeV>::empty(), pos + 1int)));
                assert(types_model(params@) + Seq::<TypeV>::empty() =~= types_model(params@));
            }
            pos = pos + 1;
            break;
        }
        let ghost pos0 = pos as int;
        let ghost params0 = params@;
        let t = descriptor_to_type(s, &mut pos)?;
        proof {
            lemma_type_at_advances(s@, pos0);
        }
        params.push(t);
        proof {
            assert(params@.drop_last() =~= params0);
            assert(types_model(params@) =~= types_model(params0) + seq![type_model(t)]);
            if spec_params_at(s@, pos as int) is Some {
                let (rest2, e2) = spec_params_at(s@, pos as int).unwrap();
                assert(spec_params_at(s@, pos0) == Some((seq![type_model(t)] + rest2, e2)));
                let (all, end) = spec_params_at(s@, 1).unwrap();
                assert(all == types_model(params0) + (seq![type_model(t)] + rest2));
                assert(types_model(params0) + (seq![type_model(t)] + rest2)
                    =~= types_model(params@) + rest2);
            } else {
                assert(spec_params_at(s@, pos0) is None);
            }
        }
    }
    let ghost posr = pos as int;
    let return_type = descriptor_to_type(s, &mut pos)?;
    let sig = Signature { parameters: params, return_type };
    proof {
        assert(spec_params_at(s@, 1) is Some);
        let (all, end) = spec_params_at(s@, 1).unwrap();
        assert(all =~= types_model(sig.parameters@));
        assert(spec_type_at(s@, posr) is Some);
        assert(signature_model(sig) =~~= spec_signature_of(s@).unwrap());
    }
    Ok(sig)
}

} // verus!

verus! {

use crate::classfile::ConstantPool as Pool;

/// The text stored under a one-based pool index, when it is UTF-8.
pub open spec fn cp_utf8(pool: Seq<ConstantInfo>, idx: u16) -> Option<Seq<char>> {
    if 1 <= idx <= pool.len() {
        match pool[idx - 1] {
            ConstantInfo::Utf8(s) => Some(s@),
            _ => None,
        }
    } else {
        None
    }
}

/// How one resolved constant-pool entry shows up in the metadata
/// tables.  `index` is the one-based pool index of the entry.
pub open spec fn entry_resolved(pool: Seq<ConstantInfo>, index: u16, md: Metadata) -> bool {
    match pool[index - 1] {
        ConstantInfo::Utf8(s) => md.string_constants@.dom().contains(index)
            && md.string_constants@[index]@ == s@,
        ConstantInfo::Integer(v) => md.literals@.dom().contains(index)
            && md.literals@[index] == JavaConstant::Integer(v as i32),
        ConstantInfo::Class { name_index } => {
            cp_utf8(pool, name_index) matches Some(nm) && md.class_refs@.dom().contains(index)
                && md.class_refs@[index].0@ == dotted(nm)
        },
        ConstantInfo::String { string_index } => {
            &&& cp_utf8(pool, string_index) matches Some(st) && md.literals@.dom().contains(index)
                && (md.literals@[index] matches JavaConstant::String(x) && x@ == st)
        },
        ConstantInfo::FieldRef { class_index, name_and_type_index } => {
            &&& 1 <= name_and_type_index <= pool.len()
            &&& pool[name_and_type_index - 1] matches ConstantInfo::NameAndType { name_index, descriptor_index }
                && cp_utf8(pool, name_index) matches Some(nm)
                && cp_utf8(pool, descriptor_index) matches Some(ds)
                && spec_type_at(ds, 0) matches Some((tv, _))
                && md.field_refs@.dom().contains(index)
                && crate::unit::field_ref_model(md.field_refs@[index]) == (crate::unit::FieldRefV {
                    class_ref: class_index,
                    name: nm,
                    typ: tv,
                })
        },
        ConstantInfo::MethodRef { class_index, name_and_type_index } => {
            &&& 1 <= name_and_type_index <= pool.len()
            &&& pool[name_and_type_index - 1] matches ConstantInfo::NameAndType { name_index, descriptor_index }
                && cp_utf8(pool, name_index) matches Some(nm)
                && cp_utf8(pool, descriptor_index) matches Some(ds)
                && spec_signature_of(ds) matches Some(sv)
                && md.method_refs@.dom().contains(index)
                && crate::unit::method_ref_model(md.method_refs@[index]) == (crate::unit::MethodRefV {
                    class_ref: class_index,
                    name: nm,
                    signature: sv,
                })
        },
        ConstantInfo::NameAndType { name_index, descriptor_index } => {
            &&& cp_utf8(pool, name_index) matches Some(nm)
            &&& cp_utf8(pool, descriptor_index) matches Some(ds)
            &&& md.name_refs@.dom().contains(index)
            &&& crate::unit::name_ref_model(md.name_refs@[index]).name == nm
            &&& if ds.len() > 0 && ds[0] == '(' {
                spec_signature_of(ds) matches Some(sv)
                    && crate::unit::name_ref_model(md.name_refs@[index]).typ
                    == crate::unit::DescriptorV::Signature(sv)
            } else {
                spec_type_at(ds, 0) matches Some((tv, _))
                    && crate::unit::name_ref_model(md.name_refs@[index]).typ
                    == crate::unit::DescriptorV::Type(tv)
            }
        },
    }
}

/// Every entry of the pool is resolved into the tables.
pub open spec fn metadata_matches_pool(pool: Seq<ConstantInfo>, md: Metadata) -> bool {
    forall|i: int| 0 <= i < pool.len() && i + 1 <= u16::MAX ==> #[trigger] entry_resolved(pool, (i + 1) as u16, md)
}

/// Fill the metadata tables from the constant pool, resolving names,
/// descriptors and cross-references.
pub fn process_constant_pool(metadata: &mut Metadata, constant_pool: &Pool) -> (r: Result<(), Error>)
    requires
        old(metadata).wf(),
        constant_pool.constants@.len() <= u16::MAX,
    ensures
        final(metadata).wf(),
        match r {
            Ok(()) => metadata_matches_pool(constant_pool.constants@, *final(metadata)),
            Err(e) => true,
        },
{
    let ghost pool = constant_pool.constants@;
    let n = constant_pool.constants.len();
    let mut i: usize = 0;
    while i < n
        invariant
            metadata.wf(),
            n == pool.len(),
            n <= u16::MAX,
            0 <= i <= n,
            constant_pool.constants@ == pool,
            forall|j: int| 0 <= j < i ==> #[trigger] entry_resolved(pool, (j + 1) as u16, *metadata),
        decreases n - i,
    {
        let index = (i as u16) + 1;
        let ghost md0 = *metadata;
        match constant_pool.lookup(index) {
            ConstantInfo::Utf8(s) => {
                metadata.string_constants.insert(index, s.clone());
            }
            ConstantInfo::Integer(v) => {
                metadata.literals.insert(index, JavaConstant::Integer(#[verifier::truncate] (*v as i32)));
            }
            ConstantInfo::Class { name_index } => {
                let ni = *name_index;
                if !(1 <= ni && ni as usize <= n) {
                    return Err(Error::UnresolvedConstant { index: ni });
                }
                let name = constant_pool.lookup_string(ni)?;
                let dn = dot_name(name.as_str());
                metadata.class_refs.insert(index, ClassRef(dn));
            }
            ConstantInfo::String { string_index } => {
                let si = *string_index;
                if !(1 <= si && si as usize <= n) {
                    return Err(Error::UnresolvedConstant { index: si });
                }
                let st = constant_pool.lookup_string(si)?;
                metadata.literals.insert(index, JavaConstant::String(st.clone()));
            }
            ConstantInfo::FieldRef { class_index, name_and_type_index } => {
                let ci = *class_index;
                let nti = *name_and_type_index;
                if !(1 <= nti && nti as usize <= n) {
                    return Err(Error::UnresolvedConstant { index: nti });
                }
                let (name_index, descriptor_index) = match constant_pool.lookup(nti) {
                    ConstantInfo::NameAndType { name_index, descriptor_index } => (*name_index, *descriptor_index),
                    _ => {
                        return Err(Error::UnresolvedConstant { index: nti });
                    }
                };
                if !(1 <= name_index && name_index as usize <= n) {
                    return Err(Error::UnresolvedConstant { index: name_index });
                }
                if !(1 <= descriptor_index && descriptor_index as usize <= n) {
                    return Err(Error::UnresolvedConstant { index: descriptor_index });
                }
                let name = constant_pool.lookup_string(name_index)?.clone();
                let descriptor = constant_pool.lookup_string(descriptor_index)?;
                let mut dpos: usize = 0;
                let typ = descriptor_to_type(descriptor.as_str(), &mut dpos)?;
                metadata.field_refs.insert(index, FieldRef { class_ref: ci, name, typ });
            }
            ConstantInfo::MethodRef { class_index, name_and_type_index } => {
                let ci = *class_index;
                let nti = *name_and_type_index;
                if !(1 <= nti && nti as usize <= n) {
                    return Err(Error::UnresolvedConstant { index: nti });
                }
                let (name_index, descriptor_index) = match constant_pool.lookup(nti) {
                    ConstantInfo::NameAndType { name_index, descriptor_index } => (*name_index, *descriptor_index),
                    _ => {
                        return Err(Error::UnresolvedConstant { index: nti });
                    }
                };
                if !(1 <= name_index && name_index as usize <= n) {
                    return Err(Error::UnresolvedConstant { index: name_index });
                }
                if !(1 <= descriptor_index && descriptor_index as usize <= n) {
                    return Err(Error::UnresolvedConstant { index: descriptor_index });
                }
                let name = constant_pool.lookup_string(name_index)?.clone();
                let descriptor = constant_pool.lookup_string(descriptor_index)?;
                let signature = descriptor_to_signature(descriptor.as_str())?;
                metadata.method_refs.insert(index, MethodRef { class_ref: ci, name, signature });
            }
            ConstantInfo::NameAndType { name_index, descriptor_index } => {
                let ni = *name_index;
                let di = *descriptor_index;
                if !(1 <= ni && ni as usize <= n) {
                    return Err(Error::UnresolvedConstant { index: ni });
                }
                if !(1 <= di && di as usize <= n) {
                    return Err(Error::UnresolvedConstant { index: di });
                }
                let name = constant_pool.lookup_string(ni)?.clone();
                let descriptor_string = constant_pool.lookup_string(di)?;
                let descriptor = if descriptor_string.as_str().unicode_len() > 0
                    && descriptor_string.as_str().get_char(0) == '(' {
                    Descriptor::Signature(descriptor_to_signature(descriptor_string.as_str())?)
                } else {
                    let mut dpos: usize = 0;
                    Descriptor::Type(descriptor_to_type(descriptor_string.as_str(), &mut dpos)?)
                };
                metadata.name_refs.insert(index, NameRef { name, typ: descriptor });
            }
        }
        proof {
            assert(entry_resolved(pool, index, *metadata));
            assert forall|j: int| 0 <= j < i + 1 implies #[trigger] entry_resolved(pool, (j + 1) as u16, *metadata) by {
                if j < i {
                    assert(entry_resolved(pool, (j + 1) as u16, md0));
                    lemma_entry_resolved_monotonic(pool, (j + 1) as u16, md0, *metadata, index);
                }
            }
        }
        i = i + 1;
    }
    Ok(())
}

/// Inserting an entry under a fresh index leaves earlier entries as
/// they were.
proof fn lemma_entry_resolved_monotonic(pool: Seq<ConstantInfo>, index: u16, md0: Metadata, md1: Metadata, touched: u16)
    requires
        1 <= index <= pool.len(),
        index != touched,
        entry_resolved(pool, index, md0),
        md1.literals@ == md0.literals@ || md1.literals@ == md0.literals@.insert(touched, md1.literals@[touched]),
        md1.string_constants@ == md0.string_constants@ || md1.string_constants@ == md0.string_constants@.insert(touched, md1.string_constants@[touched]),
        md1.class_refs@ == md0.class_refs@ || md1.class_refs@ == md0.class_refs@.insert(touched, md1.class_refs@[touched]),
        md1.field_refs@ == md0.field_refs@ || md1.field_refs@ == md0.field_refs@.insert(touched, md1.field_refs@[touched]),
        md1.method_refs@ == md0.method_refs@ || md1.method_refs@ == md0.method_refs@.insert(touched, md1.method_refs@[touched]),
        md1.name_refs@ == md0.name_refs@ || md1.name_refs@ == md0.name_refs@.insert(touched, md1.name_refs@[touched]),
    ensures
        entry_resolved(pool, index, md1),
{
}

} // verus!

verus! {

use crate::classfile::{AttributeInfo as Attr};
use crate::disassembler::{covers_bytecode, parse_code_attribute, disassemble};
use crate::classfile::spec_u32_at;
use crate::instructions::spec_u16_at;

/// The attribute payload holds a handler-free code attribute whose
/// bytecode disassembles to exactly `c`.
pub open spec fn code_from_attribute(info: Seq<u8>, c: Code) -> bool {
    let len = spec_u32_at(info, 4) as int;
    &&& 8 + len <= info.len()
    &&& spec_u16_at(info, 8 + len) == 0
    &&& covers_bytecode(c.instructions@, info.subrange(8, 8 + len))
}

/// Whether the attribute is named `Code`.
pub open spec fn attr_is_code(pool: Seq<ConstantInfo>, a: Attr) -> bool {
    cp_utf8(pool, a.name_index) == Some("Code"@)
}

/// The attribute is named `Code` and carries exactly `c`.
pub open spec fn code_attr_at(pool: Seq<ConstantInfo>, a: Attr, c: Code) -> bool {
    &&& attr_is_code(pool, a)
    &&& code_from_attribute(a.info@, c)
}

/// How one method of the class binary shows up as a declaration.
pub open spec fn method_decl_matches(pool: Seq<ConstantInfo>, m: MethodInfo, d: Declaration<Code>) -> bool {
    &&& d matches Declaration::Method(meth) && {
        &&& cp_utf8(pool, m.name_index) matches Some(nm) && meth.name@ == nm
        &&& meth.modifiers@ == spec_method_modifiers(m.access_flags.bits)
        &&& cp_utf8(pool, m.descriptor_index) matches Some(ds)
            && spec_signature_of(ds) matches Some(sv)
            && signature_model(meth.signature) == sv
        &&& meth.code matches Some(c) ==> exists|k: int|
            0 <= k < m.attributes@.len() && code_attr_at(pool, #[trigger] m.attributes@[k], c)
        &&& meth.code is None ==> forall|k: int|
            0 <= k < m.attributes@.len() ==> !attr_is_code(pool, #[trigger] m.attributes@[k])
    }
}

/// Translate one method: its header from the pool, its body by
/// disassembling the `Code` attribute, if it has one.
pub fn transform_method(constant_pool: &Pool, method: &MethodInfo) -> (r: Result<Declaration<Code>, Error>)
    ensures
        match r {
            Ok(d) => method_decl_matches(constant_pool.constants@, *method, d),
            Err(e) => true,
        },
{
    let ghost pool = constant_pool.constants@;
    let n = constant_pool.constants.len();
    let code_name = String::from_str("Code");
    let mut code: Option<Code> = None;
    let ghost mut code_k: int = 0;
    let mut a: usize = 0;
    let na = method.attributes.len();
    while a < na
        invariant_except_break
            code is None,
            forall|k: int| 0 <= k < a ==> !attr_is_code(pool, #[trigger] method.attributes@[k]),
        invariant
            na == method.attributes@.len(),
            0 <= a <= na,
            n == pool.len(),
            constant_pool.constants@ == pool,
            code_name@ == "Code"@,
            code matches Some(c) ==> 0 <= code_k < na && code_attr_at(pool, method.attributes@[code_k], c),
        ensures
            code matches Some(c) ==> 0 <= code_k < na && code_attr_at(pool, method.attributes@[code_k], c),
            code is None ==> forall|k: int| 0 <= k < na ==> !attr_is_code(
                pool,
                #[trigger] method.attributes@[k],
            ),
        decreases na - a,
    {
        let attribute = &method.attributes[a];
        if 1 <= attribute.name_index && attribute.name_index as usize <= n {
            let name = constant_pool.lookup_string(attribute.name_index)?;
            proof {
                if name@ != "Code"@ {
                    assert(!attr_is_code(pool, method.attributes@[a as int]));
                }
            }
            if *name == code_name {
                let code_attribute = parse_code_attribute(&attribute.info)?;
                if code_attribute.exception_table.len() != 0 {
                    return Err(Error::ExceptionTableUnsupported);
                }
                let disassembly = disassemble(&code_attribute)?;
                proof {
                    code_k = a as int;
                }
                code = Some(disassembly);
                break;
            }
        }
        a = a + 1;
    }
    proof {
        if code is None {
            assert(forall|k: int| 0 <= k < method.attributes@.len() ==> !attr_is_code(
                pool,
                #[trigger] method.attributes@[k],
            ));
        }
    }
    if !(1 <= method.descriptor_index && method.descriptor_index as usize <= n) {
        return Err(Error::UnresolvedConstant { index: method.descriptor_index });
    }
    if !(1 <= method.name_index && method.name_index as usize <= n) {
        return Err(Error::UnresolvedConstant { index: method.name_index });
    }
    let descriptor = constant_pool.lookup_string(method.descriptor_index)?;
    let signature = descriptor_to_signature(descriptor.as_str())?;
    let name = constant_pool.lookup_string(method.name_index)?.clone();
    Ok(Declaration::Method(Method {
        modifiers: method_flags_to_modifiers(&method.access_flags),
        name,
        signature,
        code,
    }))
}

/// Resolve a parsed class binary into a compilation unit whose method
/// bodies are linear instruction streams.
pub fn transform(class_file: &ClassFile) -> (r: Result<CompilationUnit<Code>, Error>)
    requires
        class_file.constant_pool.constants@.len() <= u16::MAX,
    ensures
        match r {
            Ok(u) => {
                &&& u.metadata.wf()
                &&& metadata_matches_pool(class_file.constant_pool.constants@, u.metadata)
                &&& u.typ == (if class_file.access_flags.bits & ACC_INTERFACE == ACC_INTERFACE {
                        UnitType::Interface
                    } else if class_file.access_flags.bits & ACC_ENUM == ACC_ENUM {
                        UnitType::Enum
                    } else {
                        UnitType::Class
                    })
                &&& u.modifiers@ == spec_class_modifiers(class_file.access_flags.bits)
                &&& u.metadata.class_refs@.dom().contains(class_file.this_class)
                &&& u.name@ == u.metadata.class_refs@[class_file.this_class].0@
                &&& u.declarations@.len() == class_file.methods@.len()
                &&& forall|i: int| 0 <= i < class_file.methods@.len() ==> method_decl_matches(
                        class_file.constant_pool.constants@,
                        class_file.methods@[i],
                        #[trigger] u.declarations@[i],
                    )
            },
            Err(e) => true,
        },
{
    let ghost pool = class_file.constant_pool.constants@;
    let typ = if class_file.access_flags.contains(ACC_INTERFACE) {
        UnitType::Interface
    } else if class_file.access_flags.contains(ACC_ENUM) {
        UnitType::Enum
    } else {
        UnitType::Class
    };
    let modifiers = class_flags_to_modifiers(&class_file.access_flags);
    let mut metadata = Metadata::new();
    process_constant_pool(&mut metadata, &class_file.constant_pool)?;
    let name = match metadata.class_refs.get(class_file.this_class) {
        Some(c) => c.0.clone(),
        None => {
            return Err(Error::UnresolvedConstant { index: class_file.this_class });
        }
    };
    let mut declarations: Vec<Declaration<Code>> = Vec::new();
    let nm = class_file.methods.len();
    let mut i: usize = 0;
    while i < nm
        invariant
            nm == class_file.methods@.len(),
            0 <= i <= nm,
            class_file.constant_pool.constants@ == pool,
            declarations@.len() == i as int,
            forall|j: int| 0 <= j < i ==> method_decl_matches(pool, class_file.methods@[j], #[trigger] declarations@[j]),
        decreases nm - i,
    {
        let transformed = transform_method(&class_file.constant_pool, &class_file.methods[i])?;
        declarations.push(transformed);
        i = i + 1;
    }
    Ok(CompilationUnit { typ, modifiers, name, metadata, declarations })
}

} // verus!
