//! What a hook can read of the instruction that it is called for.

use vstd::prelude::*;

verus! {

/// A decoded instruction, as the core shows it to a hook for the length of
/// one call: its opcode tag, its immediate at each width, and its operands.
#[allow(non_camel_case_types)]
#[derive(Clone, Copy, Debug, PartialEq, Eq, Structural)]
pub struct bochscpu_instr_t {
    pub opcode: u32,
    pub imm16: u16,
    pub imm32: u32,
    pub imm64: u64,
    pub src: u32,
    pub dst: u32,
}

/// The opcode tag: `BOCHSCPU_OPCODE_ERROR` where decoding failed,
/// `BOCHSCPU_OPCODE_INSERTED` for an instruction that a hook put in.
pub fn bochscpu_instr_bx_opcode(p: &bochscpu_instr_t) -> (tag: u32)
    ensures
        tag == p.opcode,
{
    p.opcode
}

/// The immediate, read as 16 bits.
pub fn bochscpu_instr_imm16(p: &bochscpu_instr_t) -> (imm: u16)
    ensures
        imm == p.imm16,
{
    p.imm16
}

/// The immediate, read as 32 bits.
pub fn bochscpu_instr_imm32(p: &bochscpu_instr_t) -> (imm: u32)
    ensures
        imm == p.imm32,
{
    p.imm32
}

/// The immediate, read as 64 bits.
pub fn bochscpu_instr_imm64(p: &bochscpu_instr_t) -> (imm: u64)
    ensures
        imm == p.imm64,
{
    p.imm64
}

/// The source operand.
pub fn bochscpu_instr_src(p: &bochscpu_instr_t) -> (operand: u32)
    ensures
        operand == p.src,
{
    p.src
}

/// The destination operand.
pub fn bochscpu_instr_dst(p: &bochscpu_instr_t) -> (operand: u32)
    ensures
        operand == p.dst,
{
    p.dst
}

} // verus!
