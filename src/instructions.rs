use vstd::prelude::*;

verus! {

/// One machine instruction; each variant has a fixed opcode and length.
#[derive(Clone, Copy, Debug, PartialEq, Eq, Structural)]
pub enum Instruction {
    MovImm { reg: u8, imm: u16 },
    Mov { src_reg: u8, dest_reg: u8 },
    Load { reg: u8, addr: u16 },
    Store { addr: u16, reg: u8 },
    Add { dest_reg: u8, src_reg: u8 },
    Sub { dest_reg: u8, src_reg: u8 },
    Compare { reg_1: u8, reg_2: u8 },
    Jump { addr: u16 },
    JumpZ { addr: u16 },
    JumpNZ { addr: u16 },
    Halt,
}

/// High byte of a 16-bit value.
pub open spec fn hi(v: u16) -> u8 {
    (v / 256) as u8
}

/// Low byte of a 16-bit value.
pub open spec fn lo(v: u16) -> u8 {
    (v % 256) as u8
}

/// The 16-bit value of a big-endian byte pair.
pub open spec fn be16(h: u8, l: u8) -> u16 {
    (h * 256 + l) as u16
}

/// Whether a byte is one of the opcodes of the instruction set.
pub open spec fn is_opcode(op: u8) -> bool {
    (0x01 <= op && op <= 0x0A) || op == 0xFF
}

/// Encoded length, opcode byte included, of the instruction with opcode `op`.
pub open spec fn opcode_len(op: u8) -> nat {
    if op == 0x01 || op == 0x03 || op == 0x04 {
        4
    } else if op == 0xFF {
        1
    } else {
        3
    }
}

/// The opcode byte of an instruction.
pub open spec fn opcode_of(i: Instruction) -> u8 {
    match i {
        Instruction::MovImm { .. } => 0x01,
        Instruction::Mov { .. } => 0x02,
        Instruction::Load { .. } => 0x03,
        Instruction::Store { .. } => 0x04,
        Instruction::Add { .. } => 0x05,
        Instruction::Sub { .. } => 0x06,
        Instruction::Compare { .. } => 0x07,
        Instruction::Jump { .. } => 0x08,
        Instruction::JumpZ { .. } => 0x09,
        Instruction::JumpNZ { .. } => 0x0A,
        Instruction::Halt => 0xFF,
    }
}

/// The bytecode of an instruction: its opcode, then its operands in
/// order, 16-bit operands high byte first.
pub open spec fn encode(i: Instruction) -> Seq<u8> {
    match i {
        Instruction::MovImm { reg, imm } => seq![0x01u8, reg, hi(imm), lo(imm)],
        Instruction::Mov { src_reg, dest_reg } => seq![0x02u8, dest_reg, src_reg],
        Instruction::Load { reg, addr } => seq![0x03u8, reg, hi(addr), lo(addr)],
        Instruction::Store { addr, reg } => seq![0x04u8, hi(addr), lo(addr), reg],
        Instruction::Add { dest_reg, src_reg } => seq![0x05u8, dest_reg, src_reg],
        Instruction::Sub { dest_reg, src_reg } => seq![0x06u8, dest_reg, src_reg],
        Instruction::Compare { reg_1, reg_2 } => seq![0x07u8, reg_1, reg_2],
        Instruction::Jump { addr } => seq![0x08u8, hi(addr), lo(addr)],
        Instruction::JumpZ { addr } => seq![0x09u8, hi(addr), lo(addr)],
        Instruction::JumpNZ { addr } => seq![0x0Au8, hi(addr), lo(addr)],
        Instruction::Halt => seq![0xFFu8],
    }
}

/// The encoding starts with the opcode and has the opcode's length.
pub proof fn lemma_encode_shape(i: Instruction)
    ensures
        encode(i).len() == opcode_len(opcode_of(i)),
        encode(i)[0] == opcode_of(i),
        is_opcode(opcode_of(i)),
{
}

/// Splitting a 16-bit value into its bytes and joining them gives it back.
pub proof fn lemma_be16_split(v: u16)
    ensures
        be16(hi(v), lo(v)) == v,
{
}

} // verus!
