//! Reader for the class binary: constant pool, field/method tables and
//! attributes, decoded from a byte image.
use vstd::prelude::*;
use crate::errors::Error;
use crate::instructions::spec_u16_at;

verus! {

broadcast use vstd::std_specs::vec::group_vec_axioms;

pub const ACC_PUBLIC: u16 = 0x0001;
pub const ACC_PRIVATE: u16 = 0x0002;
pub const ACC_PROTECTED: u16 = 0x0004;
pub const ACC_STATIC: u16 = 0x0008;
pub const ACC_FINAL: u16 = 0x0010;
pub const ACC_SUPER: u16 = 0x0020;
pub const ACC_SYNCHRONIZED: u16 = 0x0020;
pub const ACC_VOLATILE: u16 = 0x0040;
pub const ACC_TRANSIENT: u16 = 0x0080;
pub const ACC_NATIVE: u16 = 0x0100;
pub const ACC_INTERFACE: u16 = 0x0200;
pub const ACC_ABSTRACT: u16 = 0x0400;
pub const ACC_STRICT: u16 = 0x0800;
pub const ACC_SYNTHETIC: u16 = 0x1000;
pub const ACC_ANNOTATION: u16 = 0x2000;
pub const ACC_ENUM: u16 = 0x4000;

/// The raw access-flag word of a class, field or method.
#[derive(Copy, Clone, Debug, PartialEq, Eq, Structural)]
pub struct AccessFlags {
    pub bits: u16,
}

impl AccessFlags {
    pub fn from_bits(bits: u16) -> (r: AccessFlags)
        ensures
            r.bits == bits,
    {
        AccessFlags { bits }
    }

    /// Whether every bit of `mask` is set.
    pub fn contains(&self, mask: u16) -> (r: bool)
        ensures
            r == (self.bits & mask == mask),
    {
        self.bits & mask == mask
    }
}

/// The big-endian 32-bit value at `pos`.
pub open spec fn spec_u32_at(bytes: Seq<u8>, pos: int) -> u32 {
    (((bytes[pos] as u32) << 24) | ((bytes[pos + 1] as u32) << 16) | ((bytes[pos + 2] as u32) << 8)
        | (bytes[pos + 3] as u32)) as u32
}

/// Read a big-endian 16-bit value and advance past it.
pub fn read_u16(bytes: &Vec<u8>, pos: &mut usize) -> (r: Result<u16, Error>)
    ensures
        match r {
            Ok(v) => {
                &&& *old(pos) + 2 <= bytes@.len()
                &&& v == spec_u16_at(bytes@, *old(pos) as int)
                &&& *final(pos) == *old(pos) + 2
            },
            Err(e) => {
                &&& *old(pos) + 2 > bytes@.len()
                &&& e matches Error::TruncatedInput { .. }
                &&& *final(pos) == *old(pos)
            },
        },
{
    if *pos < bytes.len() && bytes.len() - *pos >= 2 {
        let b1 = bytes[*pos];
        let b2 = bytes[*pos + 1];
        *pos = *pos + 2;
        Ok((b1 as u16) << 8 | (b2 as u16))
    } else {
        Err(Error::TruncatedInput { pc: 0 })
    }
}

/// Read a big-endian 32-bit value and advance past it.
pub fn read_u32(bytes: &Vec<u8>, pos: &mut usize) -> (r: Result<u32, Error>)
    ensures
        match r {
            Ok(v) => {
                &&& *old(pos) + 4 <= bytes@.len()
                &&& v == spec_u32_at(bytes@, *old(pos) as int)
                &&& *final(pos) == *old(pos) + 4
            },
            Err(e) => {
                &&& *old(pos) + 4 > bytes@.len()
                &&& e matches Error::TruncatedInput { .. }
                &&& *final(pos) == *old(pos)
            },
        },
{
    if *pos < bytes.len() && bytes.len() - *pos >= 4 {
        let b1 = bytes[*pos];
        let b2 = bytes[*pos + 1];
        let b3 = bytes[*pos + 2];
        let b4 = bytes[*pos + 3];
        *pos = *pos + 4;
        Ok(((b1 as u32) << 24) | ((b2 as u32) << 16) | ((b3 as u32) << 8) | (b4 as u32))
    } else {
        Err(Error::TruncatedInput { pc: 0 })
    }
}

/// Read one byte and advance past it.
pub fn read_u8(bytes: &Vec<u8>, pos: &mut usize) -> (r: Result<u8, Error>)
    ensures
        match r {
            Ok(v) => {
                &&& *old(pos) + 1 <= bytes@.len()
                &&& v == bytes@[*old(pos) as int]
                &&& *final(pos) == *old(pos) + 1
            },
            Err(e) => {
                &&& *old(pos) + 1 > bytes@.len()
                &&& e matches Error::TruncatedInput { .. }
                &&& *final(pos) == *old(pos)
            },
        },
{
    if *pos < bytes.len() {
        let b = bytes[*pos];
        *pos = *pos + 1;
        Ok(b)
    } else {
        Err(Error::TruncatedInput { pc: 0 })
    }
}

/// One entry of the constant pool, as stored in the class binary.
#[derive(Debug, PartialEq)]
pub enum ConstantInfo {
    Utf8(String),
    Integer(u32),
    Class { name_index: u16 },
    String { string_index: u16 },
    FieldRef { class_index: u16, name_and_type_index: u16 },
    MethodRef { class_index: u16, name_and_type_index: u16 },
    NameAndType { name_index: u16, descriptor_index: u16 },
}

/// The constant pool; entry `i` of the class file is `constants[i - 1]`.
#[derive(Debug, PartialEq)]
pub struct ConstantPool {
    pub constants: Vec<ConstantInfo>,
}

impl ConstantPool {
    /// The pool entry stored under the one-based class-file index.
    pub fn lookup(&self, index: u16) -> (r: &ConstantInfo)
        requires
            1 <= index <= self.constants@.len(),
        ensures
            *r == self.constants@[index as int - 1],
    {
        &self.constants[(index - 1) as usize]
    }

    /// The UTF-8 string stored under the one-based index, or an error
    /// when the entry is of another kind.
    pub fn lookup_string(&self, index: u16) -> (r: Result<&String, Error>)
        requires
            1 <= index <= self.constants@.len(),
        ensures
            match r {
                Ok(s) => self.constants@[index as int - 1] matches ConstantInfo::Utf8(s0) && *s == s0,
                Err(e) => {
                    &&& !(self.constants@[index as int - 1] is Utf8)
                    &&& e == (Error::ExpectedUtf8Constant { index })
                },
            },
    {
        match self.lookup(index) {
            ConstantInfo::Utf8(s) => Ok(s),
            _ => Err(Error::ExpectedUtf8Constant { index }),
        }
    }
}

/// Bytes that std accepts as UTF-8.
pub uninterp spec fn utf8_decodes(bytes: Seq<u8>) -> bool;

/// What a successful UTF-8 decode of `bytes` reads as.
pub uninterp spec fn utf8_view(bytes: Seq<u8>) -> Seq<char>;

/// Relies on String::from_utf8: `Ok` exactly when the bytes are valid
/// UTF-8, and the string then reads as their decoding.
#[verifier::external_body]
fn string_from_utf8(bytes: Vec<u8>) -> (r: Option<String>)
    ensures
        match r {
            Some(s) => utf8_decodes(bytes@) && s@ == utf8_view(bytes@),
            None => !utf8_decodes(bytes@),
        },
{
    match std::string::String::from_utf8(bytes) {
        Ok(s) => Some(s),
        Err(_) => None,
    }
}

/// Copy `count` bytes starting at `pos` and advance past them.
pub fn take_bytes(bytes: &Vec<u8>, pos: &mut usize, count: usize) -> (r: Result<Vec<u8>, Error>)
    ensures
        match r {
            Ok(v) => {
                &&& *old(pos) + count <= bytes@.len()
                &&& v@ == bytes@.subrange(*old(pos) as int, *old(pos) + count)
                &&& *final(pos) == *old(pos) + count
            },
            Err(e) => {
                &&& *old(pos) + count > bytes@.len()
                &&& e matches Error::TruncatedInput { .. }
                &&& *final(pos) == *old(pos)
            },
        },
{
    if *pos <= bytes.len() && bytes.len() - *pos >= count {
        let mut v: Vec<u8> = Vec::new();
        let mut i: usize = 0;
        while i < count
            invariant
                0 <= i <= count,
                bytes@.len() == bytes.len(),
                *pos + count <= bytes@.len(),
                v@ =~= bytes@.subrange(*pos as int, *pos + i as int),
            decreases count - i,
        {
            v.push(bytes[*pos + i]);
            i = i + 1;
        }
        *pos = *pos + count;
        Ok(v)
    } else {
        Err(Error::TruncatedInput { pc: 0 })
    }
}

/// One pool entry reads at `pos` and ends at `next`: a tag byte,
/// then the entry's payload, decoded exactly as stored.
pub open spec fn cp_entry_decodes(bytes: Seq<u8>, pos: int, c: ConstantInfo, next: int) -> bool {
    &&& 0 <= pos < bytes.len()
    &&& {
        let tag = bytes[pos];
        if tag == 1 {
            let len = spec_u16_at(bytes, pos + 1) as int;
            &&& pos + 3 + len <= bytes.len()
            &&& utf8_decodes(bytes.subrange(pos + 3, pos + 3 + len))
            &&& c matches ConstantInfo::Utf8(s) && s@ == utf8_view(
                bytes.subrange(pos + 3, pos + 3 + len),
            )
            &&& next == pos + 3 + len
        } else if tag == 3 {
            &&& pos + 5 <= bytes.len()
            &&& c == ConstantInfo::Integer(spec_u32_at(bytes, pos + 1))
            &&& next == pos + 5
        } else if tag == 7 {
            &&& pos + 3 <= bytes.len()
            &&& c == (ConstantInfo::Class { name_index: spec_u16_at(bytes, pos + 1) })
            &&& next == pos + 3
        } else if tag == 8 {
            &&& pos + 3 <= bytes.len()
            &&& c == (ConstantInfo::String { string_index: spec_u16_at(bytes, pos + 1) })
            &&& next == pos + 3
        } else if tag == 9 {
            &&& pos + 5 <= bytes.len()
            &&& c == (ConstantInfo::FieldRef {
                class_index: spec_u16_at(bytes, pos + 1),
                name_and_type_index: spec_u16_at(bytes, pos + 3),
            })
            &&& next == pos + 5
        } else if tag == 10 {
            &&& pos + 5 <= bytes.len()
            &&& c == (ConstantInfo::MethodRef {
                class_index: spec_u16_at(bytes, pos + 1),
                name_and_type_index: spec_u16_at(bytes, pos + 3),
            })
            &&& next == pos + 5
        } else if tag == 12 {
            &&& pos + 5 <= bytes.len()
            &&& c == (ConstantInfo::NameAndType {
                name_index: spec_u16_at(bytes, pos + 1),
                descriptor_index: spec_u16_at(bytes, pos + 3),
            })
            &&& next == pos + 5
        } else {
            false
        }
    }
}

/// The entries read back to back from `start`, ending at `end`.
pub open spec fn cp_entries_decode(bytes: Seq<u8>, start: int, entries: Seq<ConstantInfo>, end: int) -> bool {
    exists|positions: Seq<int>|
        {
            &&& positions.len() == entries.len() + 1
            &&& positions[0] == start
            &&& positions[entries.len() as int] == end
            &&& forall|i: int| 0 <= i < entries.len() ==> cp_entry_decodes(
                bytes,
                #[trigger] positions[i],
                entries[i],
                positions[i + 1],
            )
        }
}

/// Read the constant pool: a count, then `count - 1` tagged entries,
/// each the exact decoding of the bytes at its position.
pub fn parse_constant_pool(bytes: &Vec<u8>, pos: &mut usize) -> (r: Result<Vec<ConstantInfo>, Error>)
    ensures
        match r {
            Ok(v) => {
                &&& v@.len() == spec_u16_at(bytes@, *old(pos) as int) as int - 1
                    || spec_u16_at(bytes@, *old(pos) as int) == 0
                &&& cp_entries_decode(bytes@, *old(pos) + 2, v@, *final(pos) as int)
            },
            Err(e) => true,
        },
{
    let count = read_u16(bytes, pos)?;
    let mut constant_pool: Vec<ConstantInfo> = Vec::new();
    let ghost mut positions: Seq<int> = seq![*pos as int];
    let mut i: u16 = 1;
    while i < count
        invariant
            1 <= i <= count || (count == 0 && i == 1),
            constant_pool@.len() == if count == 0 { 0int } else { i as int - 1 },
            positions.len() == constant_pool@.len() + 1,
            positions[0] == *old(pos) + 2,
            positions[constant_pool@.len() as int] == *pos as int,
            forall|j: int| 0 <= j < constant_pool@.len() ==> cp_entry_decodes(
                bytes@,
                #[trigger] positions[j],
                constant_pool@[j],
                positions[j + 1],
            ),
        decreases count - i,
    {
        let ghost p0 = *pos as int;
        let tag = read_u8(bytes, pos)?;
        let entry = match tag {
            1 => {
                let length = read_u16(bytes, pos)?;
                let utf8_bytes = take_bytes(bytes, pos, length as usize)?;
                match string_from_utf8(utf8_bytes) {
                    Some(s) => ConstantInfo::Utf8(s),
                    None => {
                        return Err(Error::ExpectedUtf8Constant { index: i });
                    }
                }
            }
            3 => ConstantInfo::Integer(read_u32(bytes, pos)?),
            7 => ConstantInfo::Class { name_index: read_u16(bytes, pos)? },
            8 => ConstantInfo::String { string_index: read_u16(bytes, pos)? },
            9 => {
                let class_index = read_u16(bytes, pos)?;
                let name_and_type_index = read_u16(bytes, pos)?;
                ConstantInfo::FieldRef { class_index, name_and_type_index }
            }
            10 => {
                let class_index = read_u16(bytes, pos)?;
                let name_and_type_index = read_u16(bytes, pos)?;
                ConstantInfo::MethodRef { class_index, name_and_type_index }
            }
            12 => {
                let name_index = read_u16(bytes, pos)?;
                let descriptor_index = read_u16(bytes, pos)?;
                ConstantInfo::NameAndType { name_index, descriptor_index }
            }
            _ => {
                return Err(Error::UnsupportedConstantTag { tag });
            }
        };
        proof {
            assert(cp_entry_decodes(bytes@, p0, entry, *pos as int));
        }
        constant_pool.push(entry);
        proof {
            positions = positions.push(*pos as int);
        }
        i = i + 1;
    }
    proof {
        assert(cp_entries_decode(bytes@, *old(pos) + 2, constant_pool@, *pos as int)) by {
            assert(positions.len() == constant_pool@.len() + 1);
            assert(positions[0] == *old(pos) + 2);
            assert(positions[constant_pool@.len() as int] == *pos as int);
        }
    }
    Ok(constant_pool)
}

/// A named attribute with its raw payload.
#[derive(Debug, PartialEq)]
pub struct AttributeInfo {
    pub name_index: u16,
    pub info: Vec<u8>,
}

/// One attribute reads at `pos` and ends at `next`: a name index, a
/// payload length, then exactly that payload.
pub open spec fn attribute_decodes(bytes: Seq<u8>, pos: int, a: AttributeInfo, next: int) -> bool {
    let len = spec_u32_at(bytes, pos + 2) as int;
    &&& 0 <= pos
    &&& pos + 6 + len <= bytes.len()
    &&& a.name_index == spec_u16_at(bytes, pos)
    &&& a.info@ == bytes.subrange(pos + 6, pos + 6 + len)
    &&& next == pos + 6 + len
}

/// The attributes read back to back from `start`, ending at `end`.
pub open spec fn attributes_decode(bytes: Seq<u8>, start: int, attrs: Seq<AttributeInfo>, end: int) -> bool {
    exists|positions: Seq<int>|
        {
            &&& positions.len() == attrs.len() + 1
            &&& positions[0] == start
            &&& positions[attrs.len() as int] == end
            &&& forall|i: int| 0 <= i < attrs.len() ==> attribute_decodes(
                bytes,
                #[trigger] positions[i],
                attrs[i],
                positions[i + 1],
            )
        }
}

/// Read an attribute table: a count, then name and payload per
/// entry, each the exact decoding of the bytes at its position.
pub fn parse_attributes(bytes: &Vec<u8>, pos: &mut usize) -> (r: Result<Vec<AttributeInfo>, Error>)
    ensures
        match r {
            Ok(v) => {
                &&& v@.len() == spec_u16_at(bytes@, *old(pos) as int) as int
                &&& attributes_decode(bytes@, *old(pos) + 2, v@, *final(pos) as int)
            },
            Err(e) => true,
        },
{
    let count = read_u16(bytes, pos)?;
    let mut attributes: Vec<AttributeInfo> = Vec::new();
    let ghost mut positions: Seq<int> = seq![*pos as int];
    let mut i: u16 = 0;
    while i < count
        invariant
            0 <= i <= count,
            attributes@.len() == i as int,
            positions.len() == attributes@.len() + 1,
            positions[0] == *old(pos) + 2,
            positions[attributes@.len() as int] == *pos as int,
            forall|j: int| 0 <= j < attributes@.len() ==> attribute_decodes(
                bytes@,
                #[trigger] positions[j],
                attributes@[j],
                positions[j + 1],
            ),
        decreases count - i,
    {
        let ghost p0 = *pos as int;
        let attribute_name_index = read_u16(bytes, pos)?;
        let attribute_length = read_u32(bytes, pos)?;
        if attribute_length > usize::MAX as u32 {
            return Err(Error::TruncatedInput { pc: 0 });
        }
        let info = take_bytes(bytes, pos, attribute_length as usize)?;
        let entry = AttributeInfo { name_index: attribute_name_index, info };
        proof {
            assert(attribute_decodes(bytes@, p0, entry, *pos as int));
        }
        attributes.push(entry);
        proof {
            positions = positions.push(*pos as int);
        }
        i = i + 1;
    }
    proof {
        assert(attributes_decode(bytes@, *old(pos) + 2, attributes@, *pos as int)) by {
            assert(positions.len() == attributes@.len() + 1);
            assert(positions[0] == *old(pos) + 2);
            assert(positions[attributes@.len() as int] == *pos as int);
        }
    }
    Ok(attributes)
}

#[derive(Debug, PartialEq)]
pub struct FieldInfo {
    pub access_flags: u16,
    pub name_index: u16,
    pub descriptor_index: u16,
    pub attributes: Vec<AttributeInfo>,
}

#[derive(Debug, PartialEq)]
pub struct MethodInfo {
    pub access_flags: AccessFlags,
    pub name_index: u16,
    pub descriptor_index: u16,
    pub attributes: Vec<AttributeInfo>,
}

/// One method entry reads at `pos` and ends at `next`: a flag word,
/// a name index, a descriptor index, then its attribute table.
pub open spec fn method_info_decodes(bytes: Seq<u8>, pos: int, m: MethodInfo, next: int) -> bool {
    &&& 0 <= pos && pos + 6 <= bytes.len()
    &&& m.access_flags.bits == spec_u16_at(bytes, pos)
    &&& m.name_index == spec_u16_at(bytes, pos + 2)
    &&& m.descriptor_index == spec_u16_at(bytes, pos + 4)
    &&& m.attributes@.len() == spec_u16_at(bytes, pos + 6) as int
    &&& attributes_decode(bytes, pos + 8, m.attributes@, next)
}

/// The method entries read back to back from `start`, ending at `end`.
pub open spec fn methods_decode(bytes: Seq<u8>, start: int, methods: Seq<MethodInfo>, end: int) -> bool {
    exists|positions: Seq<int>|
        {
            &&& positions.len() == methods.len() + 1
            &&& positions[0] == start
            &&& positions[methods.len() as int] == end
            &&& forall|i: int| 0 <= i < methods.len() ==> method_info_decodes(
                bytes,
                #[trigger] positions[i],
                methods[i],
                positions[i + 1],
            )
        }
}

/// Read the method table: a count, then flags, names and attributes,
/// each entry the exact decoding of the bytes at its position.
pub fn parse_methods(bytes: &Vec<u8>, pos: &mut usize) -> (r: Result<Vec<MethodInfo>, Error>)
    ensures
        match r {
            Ok(v) => {
                &&& v@.len() == spec_u16_at(bytes@, *old(pos) as int) as int
                &&& methods_decode(bytes@, *old(pos) + 2, v@, *final(pos) as int)
            },
            Err(e) => true,
        },
{
    let count = read_u16(bytes, pos)?;
    let mut methods: Vec<MethodInfo> = Vec::new();
    let ghost mut positions: Seq<int> = seq![*pos as int];
    let mut i: u16 = 0;
    while i < count
        invariant
            0 <= i <= count,
            methods@.len() == i as int,
            positions.len() == methods@.len() + 1,
            positions[0] == *old(pos) + 2,
            positions[methods@.len() as int] == *pos as int,
            forall|j: int| 0 <= j < methods@.len() ==> method_info_decodes(
                bytes@,
                #[trigger] positions[j],
                methods@[j],
                positions[j + 1],
            ),
        decreases count - i,
    {
        let ghost p0 = *pos as int;
        let access_flags = AccessFlags::from_bits(read_u16(bytes, pos)?);
        let name_index = read_u16(bytes, pos)?;
        let descriptor_index = read_u16(bytes, pos)?;
        let attributes = parse_attributes(bytes, pos)?;
        let entry = MethodInfo { access_flags, name_index, descriptor_index, attributes };
        proof {
            assert(method_info_decodes(bytes@, p0, entry, *pos as int));
        }
        methods.push(entry);
        proof {
            positions = positions.push(*pos as int);
        }
        i = i + 1;
    }
    proof {
        assert(methods_decode(bytes@, *old(pos) + 2, methods@, *pos as int)) by {
            assert(positions.len() == methods@.len() + 1);
            assert(positions[0] == *old(pos) + 2);
            assert(positions[methods@.len() as int] == *pos as int);
        }
    }
    Ok(methods)
}

/// A parsed class binary, before any resolution.
#[derive(Debug, PartialEq)]
pub struct ClassFile {
    pub magic: u32,
    pub minor_version: u16,
    pub major_version: u16,
    pub constant_pool: ConstantPool,
    pub access_flags: AccessFlags,
    pub this_class: u16,
    pub super_class: u16,
    pub interfaces: Vec<u16>,
    pub fields: Vec<FieldInfo>,
    pub methods: Vec<MethodInfo>,
}

/// Read a whole class binary.  Interface and field tables must be
/// empty, as their entries are not supported.
pub fn parse_class_file(bytes: &Vec<u8>) -> (r: Result<ClassFile, Error>)
    ensures
        match r {
            Ok(c) => {
                &&& c.magic == spec_u32_at(bytes@, 0)
                &&& c.minor_version == spec_u16_at(bytes@, 4)
                &&& c.major_version == spec_u16_at(bytes@, 6)
                &&& c.constant_pool.constants@.len() == spec_u16_at(bytes@, 8) as int - 1
                    || spec_u16_at(bytes@, 8) == 0
                &&& exists|end: int| cp_entries_decode(bytes@, 10, c.constant_pool.constants@, end)
                &&& c.interfaces@.len() == 0
                &&& c.fields@.len() == 0
            },
            Err(e) => true,
        },
{
    let mut pos: usize = 0;
    let magic = read_u32(bytes, &mut pos)?;
    let minor_version = read_u16(bytes, &mut pos)?;
    let major_version = read_u16(bytes, &mut pos)?;
    let constant_pool = parse_constant_pool(bytes, &mut pos)?;
    proof {
        assert(cp_entries_decode(bytes@, 10, constant_pool@, pos as int));
    }
    let access_flags = AccessFlags::from_bits(read_u16(bytes, &mut pos)?);
    let this_class = read_u16(bytes, &mut pos)?;
    let super_class = read_u16(bytes, &mut pos)?;
    let interfaces_count = read_u16(bytes, &mut pos)?;
    if interfaces_count != 0 {
        return Err(Error::UnsupportedClassFeature);
    }
    let fields_count = read_u16(bytes, &mut pos)?;
    if fields_count != 0 {
        return Err(Error::UnsupportedClassFeature);
    }
    let methods = parse_methods(bytes, &mut pos)?;
    Ok(ClassFile {
        magic,
        minor_version,
        major_version,
        constant_pool: ConstantPool { constants: constant_pool },
        access_flags,
        this_class,
        super_class,
        interfaces: Vec::new(),
        fields: Vec::new(),
        methods,
    })
}

} // verus!
