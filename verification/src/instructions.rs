//! The linear instruction set decoded from JVM bytecode, and the opcode
//! decoders that produce it.
use vstd::prelude::*;

verus! {

/// Comparison attached to a conditional jump.
#[derive(Copy, Clone, Debug, PartialEq, Eq, Structural)]
pub enum Ordering {
    EQ,
    NE,
    LT,
    GE,
    GT,
    LE,
}

impl Ordering {
    pub open spec fn spec_from_u8(i: nat) -> Ordering {
        if i == 0 { Ordering::EQ }
        else if i == 1 { Ordering::NE }
        else if i == 2 { Ordering::LT }
        else if i == 3 { Ordering::GE }
        else if i == 4 { Ordering::GT }
        else { Ordering::LE }
    }

    /// Decode a comparison from its offset inside an opcode family.
    pub fn from_u8(i: u8) -> (r: Ordering)
        requires
            i < 6,
        ensures
            r == Ordering::spec_from_u8(i as nat),
    {
        match i {
            0 => Ordering::EQ,
            1 => Ordering::NE,
            2 => Ordering::LT,
            3 => Ordering::GE,
            4 => Ordering::GT,
            _ => Ordering::LE,
        }
    }

    /// The source text of this comparison.
    pub open spec fn spec_to_str(self) -> Seq<char> {
        match self {
            Ordering::EQ => "=="@,
            Ordering::NE => "!="@,
            Ordering::LT => "<"@,
            Ordering::GE => ">="@,
            Ordering::GT => ">"@,
            Ordering::LE => "<="@,
        }
    }

    /// The source-language symbol of this comparison.
    pub fn to_str(&self) -> (r: &'static str)
        ensures
            r@ == self.spec_to_str(),
    {
        match *self {
            Ordering::EQ => "==",
            Ordering::NE => "!=",
            Ordering::LT => "<",
            Ordering::GE => ">=",
            Ordering::GT => ">",
            Ordering::LE => "<=",
        }
    }
}

/// Width tag of a typed opcode family.
#[derive(Copy, Clone, Debug, PartialEq, Eq, Structural)]
pub enum Kind {
    B,
    S,
    C,
    I,
    L,
    F,
    D,
    A,
}

/// ID of a variable on the stack.
/// If negative (-i), it refers to the i-th element below the top of the
/// symbolic stack; if non-negative (i), it is the unique index of the
/// variable introduced for this stack location.
pub type StackVarId = isize;

#[derive(Copy, Clone, Debug, PartialEq)]
pub enum LValue {
    Local(usize),
    Stack(StackVarId),
    StaticField { field_ref: u16 },
    InstanceField { object_stack_index: StackVarId, field_ref: u16 },
}

#[derive(Debug, PartialEq)]
pub enum RValue {
    Constant(crate::unit::JavaConstant),
    ConstantRef { const_ref: u16 },
    LValue(LValue),
}

#[derive(Debug, PartialEq)]
pub struct Store(pub LValue);

#[derive(Copy, Clone, Debug, PartialEq, Eq, Structural)]
pub enum UnaryOp {
    Neg,
}

#[derive(Copy, Clone, Debug, PartialEq, Eq, Structural)]
pub enum BinaryOp {
    Add,
    Sub,
    Mul,
    Div,
    Rem,
    Shl,
    Shr,
    Ushr,
    And,
    Or,
    Xor,
}

#[derive(Copy, Clone, Debug, PartialEq, Eq, Structural)]
pub enum Arithm {
    UnaryOp(UnaryOp),
    BinaryOp(BinaryOp),
    IncreaseLocal { local_index: u8, increase: i8 },
}

#[derive(Copy, Clone, Debug, PartialEq, Eq, Structural)]
pub enum TypeConv {
    Unsupported,
}

#[derive(Copy, Clone, Debug, PartialEq, Eq, Structural)]
pub enum ObjManip {
    Unsupported,
}

#[derive(Copy, Clone, Debug, PartialEq, Eq, Structural)]
pub enum StackManage {
    Unsupported,
}

#[derive(Copy, Clone, Debug, PartialEq, Eq, Structural)]
pub enum Synchronized {
    Unsupported,
}

#[derive(Copy, Clone, Debug, PartialEq, Eq, Structural)]
pub enum JumpCondition {
    CmpZero(Ordering),
    Cmp(Ordering),
    CmpRef(Ordering),
}

/// A transfer of control to the instruction at byte offset `address`,
/// unconditional when `condition` is `None`.
#[derive(Copy, Clone, Debug, PartialEq, Eq, Structural)]
pub struct Jump {
    pub address: u16,
    pub condition: Option<JumpCondition>,
}

#[derive(Copy, Clone, Debug, PartialEq, Eq, Structural)]
pub enum InvokeKind {
    Virtual,
    Special,
    Static,
}

#[derive(Copy, Clone, Debug, PartialEq, Eq, Structural)]
pub struct Invoke {
    pub method_index: u16,
    pub kind: InvokeKind,
}

#[derive(Debug, PartialEq)]
pub enum Instruction {
    Nop,
    Load(RValue),
    Store(LValue),
    Arithm(Arithm),
    TypeConv(TypeConv),
    ObjManip(ObjManip),
    StackManage(StackManage),
    Jump(Jump),
    Invoke(Invoke),
    Throw,
    Return(Option<()>),
    Synchronized(Synchronized),
}

} // verus!

verus! {

use crate::errors::Error;
use crate::unit::JavaConstant;

/// The big-endian 16-bit value at `pos`.
pub open spec fn spec_u16_at(bytes: Seq<u8>, pos: int) -> u16 {
    ((bytes[pos] as u16) << 8 | (bytes[pos + 1] as u16)) as u16
}

/// Read a big-endian 16-bit operand and advance past it.
pub fn read_u16_index(bytes: &Vec<u8>, pos: &mut usize) -> (r: Result<u16, Error>)
    ensures
        match r {
            Ok(v) => {
                &&& *old(pos) + 2 <= bytes@.len()
                &&& v == spec_u16_at(bytes@, *old(pos) as int)
                &&& *final(pos) == *old(pos) + 2
            },
            Err(e) => {
                &&& *old(pos) + 2 > bytes@.len()
                &&& e matches Error::TruncatedInput { .. }
                &&& *final(pos) == *old(pos)
            },
        },
{
    if *pos < bytes.len() && bytes.len() - *pos >= 2 {
        let b1 = bytes[*pos];
        let b2 = bytes[*pos + 1];
        *pos = *pos + 2;
        Ok((b1 as u16) << 8 | (b2 as u16))
    } else {
        Err(Error::TruncatedInput { pc: 0 })
    }
}

/// What `decode_load` yields for each opcode of the load family, given
/// the operand bytes that follow it.
pub open spec fn spec_decode_load(opcode: u8, bytes: Seq<u8>, pos: int) -> Option<(RValue, int)> {
    if 0x02 <= opcode <= 0x08 {
        Some((RValue::Constant(JavaConstant::Integer((opcode - 3) as i32)), 0))
    } else if opcode == 0x12 {
        if pos + 1 <= bytes.len() {
            Some((RValue::ConstantRef { const_ref: bytes[pos] as u16 }, 1))
        } else {
            None
        }
    } else if 0x1a <= opcode <= 0x1d {
        Some((RValue::LValue(LValue::Local((opcode - 0x1a) as usize)), 0))
    } else if 0x2a <= opcode <= 0x2d {
        Some((RValue::LValue(LValue::Local((opcode - 0x2a) as usize)), 0))
    } else if opcode == 0xb2 {
        if pos + 2 <= bytes.len() {
            Some((RValue::LValue(LValue::StaticField { field_ref: spec_u16_at(bytes, pos) }), 2))
        } else {
            None
        }
    } else if opcode == 0xb4 {
        if pos + 2 <= bytes.len() {
            Some((
                RValue::LValue(LValue::InstanceField {
                    object_stack_index: -1isize as isize,
                    field_ref: spec_u16_at(bytes, pos),
                }),
                2,
            ))
        } else {
            None
        }
    } else {
        None
    }
}

/// Whether the load family implements this opcode at all.
pub open spec fn load_opcode_supported(opcode: u8) -> bool {
    ||| 0x02 <= opcode <= 0x08
    ||| opcode == 0x12
    ||| 0x1a <= opcode <= 0x1d
    ||| 0x2a <= opcode <= 0x2d
    ||| opcode == 0xb2
    ||| opcode == 0xb4
}

/// Decode one opcode of the load family into the value it pushes.
pub fn decode_load(opcode: u8, pc: u16, bytes: &Vec<u8>, pos: &mut usize) -> (r: Result<RValue, Error>)
    ensures
        match r {
            Ok(rv) => {
                &&& spec_decode_load(opcode, bytes@, *old(pos) as int) matches Some((v, used))
                    && rv == v && *final(pos) == *old(pos) + used
            },
            Err(e) => {
                &&& spec_decode_load(opcode, bytes@, *old(pos) as int) is None
                &&& *final(pos) == *old(pos)
                &&& if load_opcode_supported(opcode) {
                        e matches Error::TruncatedInput { .. }
                    } else {
                        e == (Error::UnsupportedOpcode { opcode, pc })
                    }
            },
        },
{
    if 0x02 <= opcode && opcode <= 0x08 {
        Ok(RValue::Constant(JavaConstant::Integer(opcode as i32 - 3)))
    } else if opcode == 0x12 {
        if *pos < bytes.len() {
            let index = bytes[*pos];
            *pos = *pos + 1;
            Ok(RValue::ConstantRef { const_ref: index as u16 })
        } else {
            Err(Error::TruncatedInput { pc })
        }
    } else if 0x1a <= opcode && opcode <= 0x1d {
        Ok(RValue::LValue(LValue::Local((opcode - 0x1a) as usize)))
    } else if 0x2a <= opcode && opcode <= 0x2d {
        Ok(RValue::LValue(LValue::Local((opcode - 0x2a) as usize)))
    } else if opcode == 0xb2 {
        // getstatic
        let index = read_u16_index(bytes, pos)?;
        Ok(RValue::LValue(LValue::StaticField { field_ref: index }))
    } else if opcode == 0xb4 {
        // getfield
        let index = read_u16_index(bytes, pos)?;
        Ok(RValue::LValue(LValue::InstanceField { object_stack_index: -1, field_ref: index }))
    } else {
        Err(Error::UnsupportedOpcode { opcode, pc })
    }
}

/// What `decode_store` yields for each opcode of the store family.
pub open spec fn spec_decode_store(opcode: u8, bytes: Seq<u8>, pos: int) -> Option<(LValue, int)> {
    if 0x3b <= opcode <= 0x3e {
        Some((LValue::Local((opcode - 0x3b) as usize), 0))
    } else if opcode == 0xb3 {
        if pos + 2 <= bytes.len() {
            Some((LValue::StaticField { field_ref: spec_u16_at(bytes, pos) }, 2))
        } else {
            None
        }
    } else if opcode == 0xb5 {
        if pos + 2 <= bytes.len() {
            Some((
                LValue::InstanceField { object_stack_index: -2isize as isize, field_ref: spec_u16_at(bytes, pos) },
                2,
            ))
        } else {
            None
        }
    } else {
        None
    }
}

pub open spec fn store_opcode_supported(opcode: u8) -> bool {
    ||| 0x3b <= opcode <= 0x3e
    ||| opcode == 0xb3
    ||| opcode == 0xb5
}

/// Decode one opcode of the store family into the location it writes.
pub fn decode_store(opcode: u8, pc: u16, bytes: &Vec<u8>, pos: &mut usize) -> (r: Result<LValue, Error>)
    ensures
        match r {
            Ok(lv) => {
                &&& spec_decode_store(opcode, bytes@, *old(pos) as int) matches Some((v, used))
                    && lv == v && *final(pos) == *old(pos) + used
            },
            Err(e) => {
                &&& spec_decode_store(opcode, bytes@, *old(pos) as int) is None
                &&& *final(pos) == *old(pos)
                &&& if store_opcode_supported(opcode) {
                        e matches Error::TruncatedInput { .. }
                    } else {
                        e == (Error::UnsupportedOpcode { opcode, pc })
                    }
            },
        },
{
    if 0x3b <= opcode && opcode <= 0x3e {
        Ok(LValue::Local((opcode - 0x3b) as usize))
    } else if opcode == 0xb3 {
        // putstatic
        let index = read_u16_index(bytes, pos)?;
        Ok(LValue::StaticField { field_ref: index })
    } else if opcode == 0xb5 {
        // putfield
        let index = read_u16_index(bytes, pos)?;
        Ok(LValue::InstanceField { object_stack_index: -2, field_ref: index })
    } else {
        Err(Error::UnsupportedOpcode { opcode, pc })
    }
}

/// What `decode_arithm` yields for each opcode of the arithmetic family.
pub open spec fn spec_decode_arithm(opcode: u8, bytes: Seq<u8>, pos: int) -> Option<(Arithm, int)> {
    if 0x60 <= opcode <= 0x63 {
        Some((Arithm::BinaryOp(BinaryOp::Add), 0))
    } else if 0x64 <= opcode <= 0x67 {
        Some((Arithm::BinaryOp(BinaryOp::Sub), 0))
    } else if 0x68 <= opcode <= 0x6b {
        Some((Arithm::BinaryOp(BinaryOp::Mul), 0))
    } else if 0x6c <= opcode <= 0x6e {
        Some((Arithm::BinaryOp(BinaryOp::Div), 0))
    } else if 0x70 <= opcode <= 0x73 {
        Some((Arithm::BinaryOp(BinaryOp::Rem), 0))
    } else if 0x74 <= opcode <= 0x77 {
        Some((Arithm::UnaryOp(UnaryOp::Neg), 0))
    } else if 0x78 <= opcode <= 0x79 {
        Some((Arithm::BinaryOp(BinaryOp::Shl), 0))
    } else if 0x7a <= opcode <= 0x7b {
        Some((Arithm::BinaryOp(BinaryOp::Shr), 0))
    } else if 0x7c <= opcode <= 0x7d {
        Some((Arithm::BinaryOp(BinaryOp::Ushr), 0))
    } else if 0x7e <= opcode <= 0x7f {
        Some((Arithm::BinaryOp(BinaryOp::And), 0))
    } else if 0x80 <= opcode <= 0x81 {
        Some((Arithm::BinaryOp(BinaryOp::Or), 0))
    } else if 0x82 <= opcode <= 0x83 {
        Some((Arithm::BinaryOp(BinaryOp::Xor), 0))
    } else if opcode == 0x84 {
        if pos + 2 <= bytes.len() {
            Some((
                Arithm::IncreaseLocal { local_index: bytes[pos], increase: bytes[pos + 1] as i8 },
                2,
            ))
        } else {
            None
        }
    } else {
        None
    }
}

/// Decode one opcode of the arithmetic family.
pub fn decode_arithm(opcode: u8, pc: u16, bytes: &Vec<u8>, pos: &mut usize) -> (r: Result<Arithm, Error>)
    requires
        0x60 <= opcode <= 0x84,
    ensures
        match r {
            Ok(a) => {
                &&& spec_decode_arithm(opcode, bytes@, *old(pos) as int) matches Some((v, used))
                    && a == v && *final(pos) == *old(pos) + used
            },
            Err(e) => {
                &&& spec_decode_arithm(opcode, bytes@, *old(pos) as int) is None
                &&& *final(pos) == *old(pos)
                &&& if opcode == 0x6f {
                        e == (Error::UnsupportedOpcode { opcode, pc })
                    } else {
                        e matches Error::TruncatedInput { .. }
                    }
            },
        },
{
    if opcode == 0x6f {
        // The byte between the int and long division opcodes is no
        // implemented instruction.
        return Err(Error::UnsupportedOpcode { opcode, pc });
    }
    if opcode == 0x84 {
        if *pos < bytes.len() && bytes.len() - *pos >= 2 {
            let index = bytes[*pos];
            let increase = bytes[*pos + 1];
            *pos = *pos + 2;
            Ok(Arithm::IncreaseLocal { local_index: index, increase: increase as i8 })
        } else {
            Err(Error::TruncatedInput { pc })
        }
    } else if opcode <= 0x63 {
        Ok(Arithm::BinaryOp(BinaryOp::Add))
    } else if opcode <= 0x67 {
        Ok(Arithm::BinaryOp(BinaryOp::Sub))
    } else if opcode <= 0x6b {
        Ok(Arithm::BinaryOp(BinaryOp::Mul))
    } else if opcode <= 0x6e {
        Ok(Arithm::BinaryOp(BinaryOp::Div))
    } else if opcode <= 0x73 {
        Ok(Arithm::BinaryOp(BinaryOp::Rem))
    } else if opcode <= 0x77 {
        Ok(Arithm::UnaryOp(UnaryOp::Neg))
    } else if opcode <= 0x79 {
        Ok(Arithm::BinaryOp(BinaryOp::Shl))
    } else if opcode <= 0x7b {
        Ok(Arithm::BinaryOp(BinaryOp::Shr))
    } else if opcode <= 0x7d {
        Ok(Arithm::BinaryOp(BinaryOp::Ushr))
    } else if opcode <= 0x7f {
        Ok(Arithm::BinaryOp(BinaryOp::And))
    } else if opcode <= 0x81 {
        Ok(Arithm::BinaryOp(BinaryOp::Or))
    } else {
        Ok(Arithm::BinaryOp(BinaryOp::Xor))
    }
}

/// Where a jump that sits at `pc` with a signed 16-bit offset lands.
pub open spec fn spec_jump_address(pc: u16, offset: i16) -> u16 {
    (((pc as int) + (offset as int)) % 65536) as u16
}

/// What `decode_jump` yields for each opcode of the jump family.
pub open spec fn spec_decode_jump(opcode: u8, pc: u16, bytes: Seq<u8>, pos: int) -> Option<(Jump, int)> {
    if pos + 2 <= bytes.len() && (0x99 <= opcode <= 0xa7) {
        let address = spec_jump_address(pc, spec_u16_at(bytes, pos) as i16);
        if 0x99 <= opcode <= 0x9e {
            Some((
                Jump {
                    address,
                    condition: Some(JumpCondition::CmpZero(Ordering::spec_from_u8((opcode - 0x99) as nat))),
                },
                2,
            ))
        } else if 0x9f <= opcode <= 0xa4 {
            Some((
                Jump {
                    address,
                    condition: Some(JumpCondition::Cmp(Ordering::spec_from_u8((opcode - 0x9f) as nat))),
                },
                2,
            ))
        } else if 0xa5 <= opcode <= 0xa6 {
            Some((
                Jump {
                    address,
                    condition: Some(JumpCondition::CmpRef(Ordering::spec_from_u8((opcode - 0xa5) as nat))),
                },
                2,
            ))
        } else if opcode == 0xa7 {
            Some((Jump { address, condition: None }, 2))
        } else {
            None
        }
    } else {
        None
    }
}

/// Decode one opcode of the jump family; the operand is a signed offset
/// relative to the jump's own program counter.
pub fn decode_jump(opcode: u8, pc: u16, bytes: &Vec<u8>, pos: &mut usize) -> (r: Result<Jump, Error>)
    requires
        0x99 <= opcode <= 0xab,
    ensures
        match r {
            Ok(j) => {
                &&& spec_decode_jump(opcode, pc, bytes@, *old(pos) as int) matches Some((v, used))
                    && j == v && *final(pos) == *old(pos) + used
            },
            Err(e) => {
                &&& spec_decode_jump(opcode, pc, bytes@, *old(pos) as int) is None
                &&& *final(pos) == *old(pos)
                &&& if opcode > 0xa7 {
                        e == (Error::UnsupportedOpcode { opcode, pc })
                    } else {
                        e matches Error::TruncatedInput { .. }
                    }
            },
        },
{
    if opcode > 0xa7 {
        // jsr, ret, tableswitch, lookupswitch
        return Err(Error::UnsupportedOpcode { opcode, pc });
    }
    let raw = read_u16_index(bytes, pos)?;
    let offset = #[verifier::truncate] (raw as i16);
    let target: i32 = (pc as i32) + (offset as i32);
    let address: u16 = if target < 0 {
        (target + 65536) as u16
    } else if target >= 65536 {
        (target - 65536) as u16
    } else {
        target as u16
    };
    proof {
        assert(address == spec_jump_address(pc, offset));
    }
    let condition = if opcode <= 0x9e {
        Some(JumpCondition::CmpZero(Ordering::from_u8(opcode - 0x99)))
    } else if opcode <= 0xa4 {
        Some(JumpCondition::Cmp(Ordering::from_u8(opcode - 0x9f)))
    } else if opcode <= 0xa6 {
        Some(JumpCondition::CmpRef(Ordering::from_u8(opcode - 0xa5)))
    } else {
        None
    };
    Ok(Jump { address, condition })
}

/// What `decode_invoke` yields for each opcode of the invoke family.
pub open spec fn spec_decode_invoke(opcode: u8, bytes: Seq<u8>, pos: int) -> Option<(Invoke, int)> {
    if pos + 2 <= bytes.len() && 0xb6 <= opcode <= 0xb8 {
        let kind = if opcode == 0xb6 {
            InvokeKind::Virtual
        } else if opcode == 0xb7 {
            InvokeKind::Special
        } else {
            InvokeKind::Static
        };
        Some((Invoke { method_index: spec_u16_at(bytes, pos), kind }, 2))
    } else {
        None
    }
}

/// Decode one opcode of the invoke family.
pub fn decode_invoke(opcode: u8, pc: u16, bytes: &Vec<u8>, pos: &mut usize) -> (r: Result<Invoke, Error>)
    requires
        0xb6 <= opcode <= 0xba,
    ensures
        match r {
            Ok(iv) => {
                &&& spec_decode_invoke(opcode, bytes@, *old(pos) as int) matches Some((v, used))
                    && iv == v && *final(pos) == *old(pos) + used
            },
            Err(e) => {
                &&& spec_decode_invoke(opcode, bytes@, *old(pos) as int) is None
                &&& *final(pos) == *old(pos)
                &&& if opcode > 0xb8 {
                        e == (Error::UnsupportedOpcode { opcode, pc })
                    } else {
                        e matches Error::TruncatedInput { .. }
                    }
            },
        },
{
    if opcode > 0xb8 {
        // invokeinterface, invokedynamic
        return Err(Error::UnsupportedOpcode { opcode, pc });
    }
    let index = read_u16_index(bytes, pos)?;
    let kind = if opcode == 0xb6 {
        InvokeKind::Virtual
    } else if opcode == 0xb7 {
        InvokeKind::Special
    } else {
        InvokeKind::Static
    };
    Ok(Invoke { method_index: index, kind })
}

/// What `decode_instruction` yields for each opcode.
pub open spec fn spec_decode_instruction(opcode: u8, pc: u16, bytes: Seq<u8>, pos: int) -> Option<(Instruction, int)> {
    if opcode == 0x00 {
        Some((Instruction::Nop, 0))
    } else if (0x01 <= opcode <= 0x35) || opcode == 0xb2 || opcode == 0xb4 {
        match spec_decode_load(opcode, bytes, pos) {
            Some((rv, used)) => Some((Instruction::Load(rv), used)),
            None => None,
        }
    } else if (0x36 <= opcode <= 0x56) || opcode == 0xb3 || opcode == 0xb5 {
        match spec_decode_store(opcode, bytes, pos) {
            Some((lv, used)) => Some((Instruction::Store(lv), used)),
            None => None,
        }
    } else if 0x60 <= opcode <= 0x84 {
        match spec_decode_arithm(opcode, bytes, pos) {
            Some((a, used)) => Some((Instruction::Arithm(a), used)),
            None => None,
        }
    } else if 0x99 <= opcode <= 0xab {
        match spec_decode_jump(opcode, pc, bytes, pos) {
            Some((j, used)) => Some((Instruction::Jump(j), used)),
            None => None,
        }
    } else if 0xac <= opcode <= 0xb0 {
        Some((Instruction::Return(Some(())), 0))
    } else if opcode == 0xb1 {
        Some((Instruction::Return(None), 0))
    } else if 0xb6 <= opcode <= 0xba {
        match spec_decode_invoke(opcode, bytes, pos) {
            Some((iv, used)) => Some((Instruction::Invoke(iv), used)),
            None => None,
        }
    } else if opcode == 0xbf {
        Some((Instruction::Throw, 0))
    } else {
        None
    }
}

/// Decode the instruction whose opcode byte sat at program counter `pc`;
/// `pos` stands just past the opcode and is advanced over the operands.
pub fn decode_instruction(opcode: u8, pc: u16, bytes: &Vec<u8>, pos: &mut usize) -> (r: Result<Instruction, Error>)
    ensures
        match r {
            Ok(instr) => {
                &&& spec_decode_instruction(opcode, pc, bytes@, *old(pos) as int) matches Some((v, used))
                    && instr == v && *final(pos) == *old(pos) + used
            },
            Err(e) => {
                &&& spec_decode_instruction(opcode, pc, bytes@, *old(pos) as int) is None
                &&& *final(pos) == *old(pos)
                &&& (0xca <= opcode ==> e == (Error::InvalidOpcode { opcode, pc }))
            },
        },
{
    if opcode == 0x00 {
        Ok(Instruction::Nop)
    } else if (0x01 <= opcode && opcode <= 0x35) || opcode == 0xb2 || opcode == 0xb4 {
        let rv = decode_load(opcode, pc, bytes, pos)?;
        Ok(Instruction::Load(rv))
    } else if (0x36 <= opcode && opcode <= 0x56) || opcode == 0xb3 || opcode == 0xb5 {
        let lv = decode_store(opcode, pc, bytes, pos)?;
        Ok(Instruction::Store(lv))
    } else if 0x60 <= opcode && opcode <= 0x84 {
        let a = decode_arithm(opcode, pc, bytes, pos)?;
        Ok(Instruction::Arithm(a))
    } else if 0x99 <= opcode && opcode <= 0xab {
        let j = decode_jump(opcode, pc, bytes, pos)?;
        Ok(Instruction::Jump(j))
    } else if 0xac <= opcode && opcode <= 0xb0 {
        Ok(Instruction::Return(Some(())))
    } else if opcode == 0xb1 {
        Ok(Instruction::Return(None))
    } else if 0xb6 <= opcode && opcode <= 0xba {
        let iv = decode_invoke(opcode, pc, bytes, pos)?;
        Ok(Instruction::Invoke(iv))
    } else if opcode == 0xbf {
        Ok(Instruction::Throw)
    } else if opcode >= 0xca {
        Err(Error::InvalidOpcode { opcode, pc })
    } else {
        Err(Error::UnsupportedOpcode { opcode, pc })
    }
}

} // verus!

verus! {

impl Clone for RValue {
    fn clone(&self) -> (r: Self)
        ensures
            r == *self,
    {
        match self {
            RValue::Constant(c) => RValue::Constant(c.clone()),
            RValue::ConstantRef { const_ref } => RValue::ConstantRef { const_ref: *const_ref },
            RValue::LValue(lv) => RValue::LValue(*lv),
        }
    }
}

impl Clone for Store {
    fn clone(&self) -> (r: Self)
        ensures
            r == *self,
    {
        Store(self.0)
    }
}

impl Clone for Instruction {
    fn clone(&self) -> (r: Self)
        ensures
            r == *self,
    {
        match self {
            Instruction::Nop => Instruction::Nop,
            Instruction::Load(rv) => Instruction::Load(rv.clone()),
            Instruction::Store(lv) => Instruction::Store(*lv),
            Instruction::Arithm(a) => Instruction::Arithm(*a),
            Instruction::TypeConv(t) => Instruction::TypeConv(*t),
            Instruction::ObjManip(o) => Instruction::ObjManip(*o),
            Instruction::StackManage(sm) => Instruction::StackManage(*sm),
            Instruction::Jump(j) => Instruction::Jump(*j),
            Instruction::Invoke(iv) => Instruction::Invoke(*iv),
            Instruction::Throw => Instruction::Throw,
            Instruction::Return(v) => Instruction::Return(*v),
            Instruction::Synchronized(sy) => Instruction::Synchronized(*sy),
        }
    }
}

} // verus!
