use vstd::prelude::*;
use crate::instructions::{Instruction, be16, encode, hi, lo, is_opcode, opcode_len, opcode_of, lemma_encode_shape};

verus! {

/// The operand byte of an instruction that a decoder may find missing.
#[derive(Clone, Copy, Debug, PartialEq, Eq, Structural)]
pub enum Operand {
    Register,
    DestinationRegister,
    SourceRegister,
    FirstRegister,
    SecondRegister,
    ImmediateHigh,
    ImmediateLow,
    AddressHigh,
    AddressLow,
}

/// Why no instruction could be read.
#[derive(Clone, Copy, Debug, PartialEq, Eq, Structural)]
pub enum DecodeError {
    /// The program counter lies past the end of the bytes.
    ProgramCounterOutOfBounds,
    /// The bytes end before the named operand of the instruction.
    MissingOperand(Operand),
    /// The byte at the program counter is no opcode.
    InvalidOpcode(u8),
}

/// An instruction together with the number of bytes it was read from.
pub struct DecodedInstruction {
    pub instr: Instruction,
    pub length: u16,
}

/// The operand found at offset `k` (1 or more) of an instruction with opcode `op`.
pub open spec fn operand_at(op: u8, k: nat) -> Operand {
    if op == 0x01 {
        if k == 1 { Operand::Register } else if k == 2 { Operand::ImmediateHigh } else { Operand::ImmediateLow }
    } else if op == 0x03 {
        if k == 1 { Operand::Register } else if k == 2 { Operand::AddressHigh } else { Operand::AddressLow }
    } else if op == 0x04 {
        if k == 1 { Operand::AddressHigh } else if k == 2 { Operand::AddressLow } else { Operand::Register }
    } else if op == 0x07 {
        if k == 1 { Operand::FirstRegister } else { Operand::SecondRegister }
    } else if op == 0x08 || op == 0x09 || op == 0x0A {
        if k == 1 { Operand::AddressHigh } else { Operand::AddressLow }
    } else {
        if k == 1 { Operand::DestinationRegister } else { Operand::SourceRegister }
    }
}

/// The instruction whose bytecode `b` is, given that `b` starts with the
/// opcode `b[0]` and has that opcode's length.
pub open spec fn instruction_of(b: Seq<u8>) -> Instruction {
    let op = b[0];
    if op == 0x01 {
        Instruction::MovImm { reg: b[1], imm: be16(b[2], b[3]) }
    } else if op == 0x02 {
        Instruction::Mov { dest_reg: b[1], src_reg: b[2] }
    } else if op == 0x03 {
        Instruction::Load { reg: b[1], addr: be16(b[2], b[3]) }
    } else if op == 0x04 {
        Instruction::Store { addr: be16(b[1], b[2]), reg: b[3] }
    } else if op == 0x05 {
        Instruction::Add { dest_reg: b[1], src_reg: b[2] }
    } else if op == 0x06 {
        Instruction::Sub { dest_reg: b[1], src_reg: b[2] }
    } else if op == 0x07 {
        Instruction::Compare { reg_1: b[1], reg_2: b[2] }
    } else if op == 0x08 {
        Instruction::Jump { addr: be16(b[1], b[2]) }
    } else if op == 0x09 {
        Instruction::JumpZ { addr: be16(b[1], b[2]) }
    } else if op == 0x0A {
        Instruction::JumpNZ { addr: be16(b[1], b[2]) }
    } else {
        Instruction::Halt
    }
}

/// Reading one instruction at `pc`: the instruction and its length, or why
/// there is none.
pub open spec fn decode_spec(bytes: Seq<u8>, pc: int) -> Result<(Instruction, nat), DecodeError> {
    if pc < 0 || pc >= bytes.len() {
        Err(DecodeError::ProgramCounterOutOfBounds)
    } else if !is_opcode(bytes[pc]) {
        Err(DecodeError::InvalidOpcode(bytes[pc]))
    } else if pc + opcode_len(bytes[pc]) > bytes.len() {
        Err(DecodeError::MissingOperand(operand_at(bytes[pc], (bytes.len() - pc) as nat)))
    } else {
        Ok((instruction_of(bytes.subrange(pc, pc + opcode_len(bytes[pc]))), opcode_len(bytes[pc])))
    }
}

/// Whether the bytecode of `i` stands in `bytes` from `pc` on.
pub open spec fn encoded_at(bytes: Seq<u8>, pc: int, i: Instruction) -> bool {
    &&& 0 <= pc
    &&& pc + encode(i).len() <= bytes.len()
    &&& bytes.subrange(pc, pc + encode(i).len()) == encode(i)
}

proof fn lemma_be16_bytes(h: u8, l: u8)
    ensures
        hi(be16(h, l)) == h,
        lo(be16(h, l)) == l,
{
}

/// Whatever follows it, the bytecode of an instruction decodes to that
/// instruction and its length.
pub proof fn lemma_decode_encode(bytes: Seq<u8>, pc: int, i: Instruction)
    requires
        encoded_at(bytes, pc, i),
    ensures
        decode_spec(bytes, pc) == Ok::<(Instruction, nat), DecodeError>((i, encode(i).len())),
{
    lemma_encode_shape(i);
    let b = bytes.subrange(pc, pc + encode(i).len());
    assert(b[0] == bytes[pc]);
    match i {
        Instruction::MovImm { reg, imm } => { crate::instructions::lemma_be16_split(imm); }
        Instruction::Load { reg, addr } => { crate::instructions::lemma_be16_split(addr); }
        Instruction::Store { addr, reg } => { crate::instructions::lemma_be16_split(addr); }
        Instruction::Jump { addr } => { crate::instructions::lemma_be16_split(addr); }
        Instruction::JumpZ { addr } => { crate::instructions::lemma_be16_split(addr); }
        Instruction::JumpNZ { addr } => { crate::instructions::lemma_be16_split(addr); }
        _ => {}
    }
}

/// What decodes was read from the bytecode of the instruction it gives.
pub proof fn lemma_decode_sound(bytes: Seq<u8>, pc: int)
    requires
        decode_spec(bytes, pc) is Ok,
    ensures
        encoded_at(bytes, pc, decode_spec(bytes, pc)->Ok_0.0),
        decode_spec(bytes, pc)->Ok_0.1 == encode(decode_spec(bytes, pc)->Ok_0.0).len(),
{
    let b = bytes.subrange(pc, pc + opcode_len(bytes[pc]));
    let i = instruction_of(b);
    if b[0] == 0x01 || b[0] == 0x03 {
        lemma_be16_bytes(b[2], b[3]);
    } else if b[0] == 0x04 || b[0] == 0x08 || b[0] == 0x09 || b[0] == 0x0A {
        lemma_be16_bytes(b[1], b[2]);
    }
    assert(encode(i) =~= b);
}

fn operand_at_exec(op: u8, k: usize) -> (r: Operand)
    ensures
        r == operand_at(op, k as nat),
{
    if op == 0x01 {
        if k == 1 { Operand::Register } else if k == 2 { Operand::ImmediateHigh } else { Operand::ImmediateLow }
    } else if op == 0x03 {
        if k == 1 { Operand::Register } else if k == 2 { Operand::AddressHigh } else { Operand::AddressLow }
    } else if op == 0x04 {
        if k == 1 { Operand::AddressHigh } else if k == 2 { Operand::AddressLow } else { Operand::Register }
    } else if op == 0x07 {
        if k == 1 { Operand::FirstRegister } else { Operand::SecondRegister }
    } else if op == 0x08 || op == 0x09 || op == 0x0A {
        if k == 1 { Operand::AddressHigh } else { Operand::AddressLow }
    } else {
        if k == 1 { Operand::DestinationRegister } else { Operand::SourceRegister }
    }
}

/// Encoded length of the instruction with opcode `op`.
pub fn opcode_length(op: u8) -> (r: u16)
    ensures
        r == opcode_len(op),
{
    if op == 0x01 || op == 0x03 || op == 0x04 {
        4
    } else if op == 0xFF {
        1
    } else {
        3
    }
}

fn join16(h: u8, l: u8) -> (r: u16)
    ensures
        r == be16(h, l),
{
    (h as u16) * 256 + (l as u16)
}

/// Reads the instruction that starts at `pc` in `bytes`, with its encoded
/// length. Reading has no effect: it fails on a program counter past the
/// end, on a byte that is no opcode, and on operand bytes missing at the end.
pub fn decode(bytes: &[u8], pc: u16) -> (r: Result<DecodedInstruction, DecodeError>)
    ensures
        match r {
            Ok(d) => decode_spec(bytes@, pc as int) == Ok::<(Instruction, nat), DecodeError>(
                (d.instr, d.length as nat),
            ),
            Err(e) => decode_spec(bytes@, pc as int) == Err::<(Instruction, nat), DecodeError>(e),
        },
{
    let pc = pc as usize;
    if pc >= bytes.len() {
        return Err(DecodeError::ProgramCounterOutOfBounds);
    }
    let op = bytes[pc];
    if !((0x01 <= op && op <= 0x0A) || op == 0xFF) {
        return Err(DecodeError::InvalidOpcode(op));
    }
    let length = opcode_length(op);
    if length as usize > bytes.len() - pc {
        return Err(DecodeError::MissingOperand(operand_at_exec(op, bytes.len() - pc)));
    }
    let ghost b = bytes@.subrange(pc as int, pc + length);
    let instr = if op == 0x01 {
        Instruction::MovImm { reg: bytes[pc + 1], imm: join16(bytes[pc + 2], bytes[pc + 3]) }
    } else if op == 0x02 {
        Instruction::Mov { dest_reg: bytes[pc + 1], src_reg: bytes[pc + 2] }
    } else if op == 0x03 {
        Instruction::Load { reg: bytes[pc + 1], addr: join16(bytes[pc + 2], bytes[pc + 3]) }
    } else if op == 0x04 {
        Instruction::Store { addr: join16(bytes[pc + 1], bytes[pc + 2]), reg: bytes[pc + 3] }
    } else if op == 0x05 {
        Instruction::Add { dest_reg: bytes[pc + 1], src_reg: bytes[pc + 2] }
    } else if op == 0x06 {
        Instruction::Sub { dest_reg: bytes[pc + 1], src_reg: bytes[pc + 2] }
    } else if op == 0x07 {
        Instruction::Compare { reg_1: bytes[pc + 1], reg_2: bytes[pc + 2] }
    } else if op == 0x08 {
        Instruction::Jump { addr: join16(bytes[pc + 1], bytes[pc + 2]) }
    } else if op == 0x09 {
        Instruction::JumpZ { addr: join16(bytes[pc + 1], bytes[pc + 2]) }
    } else if op == 0x0A {
        Instruction::JumpNZ { addr: join16(bytes[pc + 1], bytes[pc + 2]) }
    } else {
        Instruction::Halt
    };
    assert(instr == instruction_of(b));
    Ok(DecodedInstruction { instr, length })
}

} // verus!
