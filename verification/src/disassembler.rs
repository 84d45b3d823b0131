//! From a method's code attribute to its linear instruction stream.
use vstd::prelude::*;
use crate::classfile::{parse_attributes, read_u16, read_u32, AttributeInfo};
use crate::errors::Error;
use crate::instructions::{spec_decode_instruction, Instruction};
use crate::unit::Code;

verus! {

broadcast use vstd::std_specs::vec::group_vec_axioms;

/// The payload of a `Code` attribute: limits, bytecode and handlers.
#[derive(Debug, PartialEq)]
pub struct CodeAttribute {
    pub max_stack: u16,
    pub max_local: u16,
    pub code: Vec<u8>,
    pub exception_table: Vec<ExceptionTableEntry>,
    pub attributes: Vec<AttributeInfo>,
}

#[derive(Copy, Clone, Debug, PartialEq, Eq, Structural)]
pub struct ExceptionTableEntry {
    pub start_pc: u16,
    pub end_pc: u16,
    pub handler_pc: u16,
    pub catch_type: u16,
}

/// Decode the byte image of a `Code` attribute.  The bytecode is at
/// most 65535 bytes, as the class format demands.
pub fn parse_code_attribute(bytes: &Vec<u8>) -> (r: Result<CodeAttribute, Error>)
    ensures
        match r {
            Ok(c) => {
                &&& c.code@.len() <= 65535
                &&& 8 + c.code@.len() <= bytes@.len()
                &&& c.code@.len() == spec_u32_at_disasm(bytes@)
                &&& c.code@ == bytes@.subrange(8, 8 + spec_u32_at_disasm(bytes@))
                &&& c.max_stack == crate::instructions::spec_u16_at(bytes@, 0)
                &&& c.max_local == crate::instructions::spec_u16_at(bytes@, 2)
                &&& c.exception_table@.len() == crate::instructions::spec_u16_at(bytes@, 8 + spec_u32_at_disasm(bytes@)) as int
            },
            Err(e) => true,
        },
{
    let mut pos: usize = 0;
    let max_stack = read_u16(bytes, &mut pos)?;
    let max_local = read_u16(bytes, &mut pos)?;
    let code_length = read_u32(bytes, &mut pos)?;
    if code_length > 65535 {
        return Err(Error::OversizedCode);
    }
    let code = crate::classfile::take_bytes(bytes, &mut pos, code_length as usize)?;
    let exception_table_length = read_u16(bytes, &mut pos)?;
    let mut exception_table: Vec<ExceptionTableEntry> = Vec::new();
    let mut i: u16 = 0;
    while i < exception_table_length
        invariant
            0 <= i <= exception_table_length,
            exception_table@.len() == i as int,
        decreases exception_table_length - i,
    {
        let start_pc = read_u16(bytes, &mut pos)?;
        let end_pc = read_u16(bytes, &mut pos)?;
        let handler_pc = read_u16(bytes, &mut pos)?;
        let catch_type = read_u16(bytes, &mut pos)?;
        exception_table.push(ExceptionTableEntry { start_pc, end_pc, handler_pc, catch_type });
        i = i + 1;
    }
    let attributes = parse_attributes(bytes, &mut pos)?;
    Ok(CodeAttribute { max_stack, max_local, code, exception_table, attributes })
}

/// The code length stored in a code attribute's header.
pub open spec fn spec_u32_at_disasm(bytes: Seq<u8>) -> int {
    crate::classfile::spec_u32_at(bytes, 4) as int
}

/// One instruction decodes at `pc` and the following one starts at `next`.
pub open spec fn decodes_at(bytes: Seq<u8>, pc: int, instr: Instruction, next: int) -> bool {
    &&& 0 <= pc < bytes.len()
    &&& pc < next
    &&& spec_decode_instruction(bytes[pc] as u8, pc as u16, bytes, pc + 1) matches Some((v, used))
        && v == instr && next == pc + 1 + used
}

/// The instruction list covers the bytecode completely: the first
/// instruction sits at offset zero, each decodes at its own counter,
/// and each ends where the next begins.
pub open spec fn covers_bytecode(instrs: Seq<(u16, Instruction)>, bytes: Seq<u8>) -> bool {
    &&& (bytes.len() == 0 <==> instrs.len() == 0)
    &&& (instrs.len() > 0 ==> instrs[0].0 == 0)
    &&& forall|i: int|
        0 <= i < instrs.len() ==> decodes_at(
            bytes,
            (#[trigger] instrs[i]).0 as int,
            instrs[i].1,
            if i + 1 < instrs.len() { instrs[i + 1].0 as int } else { bytes.len() as int },
        )
}

/// Any covering instruction sequence has an instruction starting at
/// `pos`, or `pos` is the end of the stream.
pub open spec fn cover_boundary(instrs: Seq<(u16, Instruction)>, bytes: Seq<u8>, pos: int) -> bool {
    ||| exists|idx: int| 0 <= idx < instrs.len() && (#[trigger] instrs[idx]).0 as int == pos
    ||| pos == bytes.len()
}

/// Decode the whole bytecode of a method into its instruction
/// stream.  An error means no instruction sequence covers the bytes.
pub fn disassemble(code: &CodeAttribute) -> (r: Result<Code, Error>)
    requires
        code.code@.len() <= 65535,
    ensures
        match r {
            Ok(c) => covers_bytecode(c.instructions@, code.code@),
            Err(e) => !(exists|instrs: Seq<(u16, Instruction)>| covers_bytecode(
                instrs,
                code.code@,
            )),
        },
{
    let bytes = &code.code;
    let mut instructions: Vec<(u16, Instruction)> = Vec::new();
    let mut pos: usize = 0;
    proof {
        assert forall|instrs: Seq<(u16, Instruction)>| #[trigger] covers_bytecode(instrs, bytes@)
            implies cover_boundary(instrs, bytes@, 0) by {
            if instrs.len() > 0 {
                assert(instrs[0].0 as int == 0);
            } else {
                assert(bytes@.len() == 0);
            }
        }
    }
    while pos < bytes.len()
        invariant
            bytes@.len() == bytes.len(),
            bytes@ == code.code@,
            bytes@.len() <= 65535,
            0 <= pos <= bytes@.len(),
            pos == 0 <==> instructions@.len() == 0,
            instructions@.len() > 0 ==> instructions@[0].0 == 0,
            forall|i: int|
                0 <= i < instructions@.len() ==> decodes_at(
                    bytes@,
                    (#[trigger] instructions@[i]).0 as int,
                    instructions@[i].1,
                    if i + 1 < instructions@.len() {
                        instructions@[i + 1].0 as int
                    } else {
                        pos as int
                    },
                ),
            forall|instrs: Seq<(u16, Instruction)>| #[trigger] covers_bytecode(instrs, bytes@)
                ==> cover_boundary(instrs, bytes@, pos as int),
        decreases bytes@.len() - pos,
    {
        let pc = pos;
        let opcode = bytes[pos];
        pos = pos + 1;
        let instruction = match crate::instructions::decode_instruction(opcode, pc as u16, bytes, &mut pos) {
            Ok(instr) => instr,
            Err(e) => {
                proof {
                    // Any cover would decode at this very position.
                    assert forall|instrs: Seq<(u16, Instruction)>| !(#[trigger] covers_bytecode(
                        instrs,
                        bytes@,
                    )) by {
                        if covers_bytecode(instrs, bytes@) {
                            assert(cover_boundary(instrs, bytes@, pc as int));
                            let idx = choose|idx: int| 0 <= idx < instrs.len()
                                && (#[trigger] instrs[idx]).0 as int == pc as int;
                            assert(decodes_at(
                                bytes@,
                                pc as int,
                                instrs[idx].1,
                                if idx + 1 < instrs.len() {
                                    instrs[idx + 1].0 as int
                                } else {
                                    bytes@.len() as int
                                },
                            ));
                            assert(false);
                        }
                    }
                }
                return Err(e);
            }
        };
        proof {
            assert forall|instrs: Seq<(u16, Instruction)>| #[trigger] covers_bytecode(
                instrs,
                bytes@,
            ) implies cover_boundary(instrs, bytes@, pos as int) by {
                assert(cover_boundary(instrs, bytes@, pc as int));
                let idx = choose|idx: int| 0 <= idx < instrs.len()
                    && (#[trigger] instrs[idx]).0 as int == pc as int;
                let nxt = if idx + 1 < instrs.len() {
                    instrs[idx + 1].0 as int
                } else {
                    bytes@.len() as int
                };
                assert(decodes_at(bytes@, pc as int, instrs[idx].1, nxt));
                assert(nxt == pos as int);
                if idx + 1 < instrs.len() {
                    assert(instrs[idx + 1].0 as int == pos as int);
                }
            }
        }
        instructions.push((pc as u16, instruction));
    }
    Ok(Code { instructions })
}

} // verus!
