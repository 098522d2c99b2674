use vstd::prelude::*;
use crate::cpu::CPU;
use crate::decoder::{DecodeError, decode, decode_spec};
use crate::instructions::{Instruction, be16, hi, lo};
use crate::memory::{MEMORY_SIZE, Memory};

verus! {

/// Whether a machine still runs.
#[allow(non_camel_case_types)]
#[derive(Clone, Copy, Debug, PartialEq, Eq, Structural)]
pub enum State {
    HALTED,
    RUNNING,
}

/// Why a machine halted other than on a halt instruction.
#[derive(Clone, Copy, Debug, PartialEq, Eq, Structural)]
pub enum Fault {
    /// No instruction could be read at the program counter.
    Decode(DecodeError),
    /// An instruction names a register past 15.
    RegisterOutOfBounds,
    /// An instruction names an address outside memory.
    AddressOutOfBounds,
}

/// A machine: registers, memory, flags and run state.
pub struct VM {
    pub cpu: CPU,
    pub memory: Memory,
    pub zero_flag: bool,
    pub carry_flag: bool,
    pub state: State,
}

/// The state of a machine, as values.
pub struct Machine {
    pub registers: Seq<u16>,
    pub pc: u16,
    pub memory: Seq<u8>,
    pub zero: bool,
    pub carry: bool,
    pub state: State,
}

impl View for VM {
    type V = Machine;

    open spec fn view(&self) -> Machine {
        Machine {
            registers: self.cpu.registers@,
            pc: self.cpu.pc,
            memory: self.memory.data@,
            zero: self.zero_flag,
            carry: self.carry_flag,
            state: self.state,
        }
    }
}

/// Whether `r` names one of the sixteen registers.
pub open spec fn valid_register(r: u8) -> bool {
    r < 16
}

/// Whether a jump may go to `a`.
pub open spec fn valid_target(a: u16) -> bool {
    a < MEMORY_SIZE
}

/// Whether a two-byte access at `a` stays in memory.
pub open spec fn valid_word_address(a: u16) -> bool {
    a + 1 < MEMORY_SIZE
}

/// The machine halted on a fault, with nothing else changed.
pub open spec fn faulted(m: Machine, f: Fault) -> (Machine, Result<(), Fault>) {
    (Machine { state: State::HALTED, ..m }, Err(f))
}

/// The machine with register `r` set to `v`.
pub open spec fn set_register(m: Machine, r: u8, v: u16) -> Machine {
    Machine { registers: m.registers.update(r as int, v), ..m }
}

/// The low 16 bits of a sum.
pub open spec fn add16(a: u16, b: u16) -> u16 {
    ((a + b) % 0x10000) as u16
}

/// The low 16 bits of a difference.
pub open spec fn sub16(a: u16, b: u16) -> u16 {
    ((a - b + 0x10000) % 0x10000) as u16
}

/// The effect of one instruction on a machine, and whether it faulted. The
/// operands are checked first; a fault halts the machine and changes nothing
/// else. The program counter moves only on a taken jump.
pub open spec fn execute_spec(m: Machine, i: Instruction) -> (Machine, Result<(), Fault>) {
    match i {
        Instruction::MovImm { reg, imm } => {
            if !valid_register(reg) {
                faulted(m, Fault::RegisterOutOfBounds)
            } else {
                (set_register(m, reg, imm), Ok(()))
            }
        },
        Instruction::Mov { src_reg, dest_reg } => {
            if !valid_register(src_reg) || !valid_register(dest_reg) {
                faulted(m, Fault::RegisterOutOfBounds)
            } else {
                (set_register(m, dest_reg, m.registers[src_reg as int]), Ok(()))
            }
        },
        Instruction::Load { reg, addr } => {
            if !valid_register(reg) {
                faulted(m, Fault::RegisterOutOfBounds)
            } else if !valid_word_address(addr) {
                faulted(m, Fault::AddressOutOfBounds)
            } else {
                (set_register(m, reg, be16(m.memory[addr as int], m.memory[addr + 1])), Ok(()))
            }
        },
        Instruction::Store { addr, reg } => {
            if !valid_register(reg) {
                faulted(m, Fault::RegisterOutOfBounds)
            } else if !valid_word_address(addr) {
                faulted(m, Fault::AddressOutOfBounds)
            } else {
                let v = m.registers[reg as int];
                (
                    Machine {
                        memory: m.memory.update(addr as int, hi(v)).update(addr + 1, lo(v)),
                        ..m
                    },
                    Ok(()),
                )
            }
        },
        Instruction::Add { dest_reg, src_reg } => {
            if !valid_register(src_reg) || !valid_register(dest_reg) {
                faulted(m, Fault::RegisterOutOfBounds)
            } else {
                let a = m.registers[dest_reg as int];
                let b = m.registers[src_reg as int];
                let r = add16(a, b);
                (
                    Machine { zero: r == 0, carry: a + b > 0xFFFF, ..set_register(m, dest_reg, r) },
                    Ok(()),
                )
            }
        },
        Instruction::Sub { dest_reg, src_reg } => {
            if !valid_register(src_reg) || !valid_register(dest_reg) {
                faulted(m, Fault::RegisterOutOfBounds)
            } else {
                let a = m.registers[dest_reg as int];
                let b = m.registers[src_reg as int];
                let r = sub16(a, b);
                (Machine { zero: r == 0, carry: a < b, ..set_register(m, dest_reg, r) }, Ok(()))
            }
        },
        Instruction::Compare { reg_1, reg_2 } => {
            if !valid_register(reg_1) || !valid_register(reg_2) {
                faulted(m, Fault::RegisterOutOfBounds)
            } else {
                let a = m.registers[reg_1 as int];
                let b = m.registers[reg_2 as int];
                (Machine { zero: a == b, carry: a < b, ..m }, Ok(()))
            }
        },
        Instruction::Jump { addr } => {
            if !valid_target(addr) {
                faulted(m, Fault::AddressOutOfBounds)
            } else {
                (Machine { pc: addr, ..m }, Ok(()))
            }
        },
        Instruction::JumpZ { addr } => {
            if !valid_target(addr) {
                faulted(m, Fault::AddressOutOfBounds)
            } else if m.zero {
                (Machine { pc: addr, ..m }, Ok(()))
            } else {
                (m, Ok(()))
            }
        },
        Instruction::JumpNZ { addr } => {
            if !valid_target(addr) {
                faulted(m, Fault::AddressOutOfBounds)
            } else if !m.zero {
                (Machine { pc: addr, ..m }, Ok(()))
            } else {
                (m, Ok(()))
            }
        },
        Instruction::Halt => (Machine { state: State::HALTED, ..m }, Ok(())),
    }
}

/// One step of a machine: a halted machine stays as it is; a running one
/// reads the instruction at its program counter (halting if it cannot) and
/// executes it; then, unless it halted or jumped elsewhere, its program
/// counter moves past the instruction.
pub open spec fn step_spec(m: Machine) -> (Machine, Result<(), Fault>) {
    if m.state == State::HALTED {
        (m, Ok(()))
    } else {
        match decode_spec(m.memory, m.pc as int) {
            Err(e) => faulted(m, Fault::Decode(e)),
            Ok((i, len)) => {
                let (n, r) = execute_spec(m, i);
                if n.state == State::HALTED || n.pc != m.pc {
                    (n, r)
                } else {
                    (Machine { pc: (m.pc + len) as u16, ..n }, r)
                }
            },
        }
    }
}

/// Adding sets both the carry and the zero flag exactly when the true sum
/// of the two registers is 0x10000, the one sum that wraps to zero.
pub proof fn lemma_add_carry_and_zero(m: Machine, dest_reg: u8, src_reg: u8)
    requires
        valid_register(dest_reg),
        valid_register(src_reg),
    ensures
        ({
            let n = execute_spec(m, Instruction::Add { dest_reg, src_reg }).0;
            &&& n.carry <==> m.registers[dest_reg as int] + m.registers[src_reg as int] > 0xFFFF
            &&& (n.carry && n.zero) <==> m.registers[dest_reg as int] + m.registers[src_reg as int] == 0x10000
        }),
{
}

/// Subtracting sets the carry flag (a borrow) exactly when the minuend is
/// less than the subtrahend, and the zero flag exactly when they are equal.
pub proof fn lemma_sub_borrow(m: Machine, dest_reg: u8, src_reg: u8)
    requires
        valid_register(dest_reg),
        valid_register(src_reg),
    ensures
        ({
            let n = execute_spec(m, Instruction::Sub { dest_reg, src_reg }).0;
            &&& n.carry <==> m.registers[dest_reg as int] < m.registers[src_reg as int]
            &&& n.zero <==> m.registers[dest_reg as int] == m.registers[src_reg as int]
        }),
{
}

impl VM {
    /// Whether the machine has its full memory.
    pub open spec fn wf(&self) -> bool {
        self.memory.data@.len() == MEMORY_SIZE
    }

    /// A running machine with registers, memory, flags and program counter
    /// all zero.
    pub fn new() -> (r: Self)
        ensures
            r.wf(),
            r@.registers == Seq::new(16, |i: int| 0u16),
            r@.memory == Seq::new(MEMORY_SIZE as nat, |i: int| 0u8),
            r@.pc == 0,
            !r@.zero,
            !r@.carry,
            r@.state == State::RUNNING,
    {
        Self {
            cpu: CPU::new(),
            memory: Memory::new(),
            zero_flag: false,
            carry_flag: false,
            state: State::RUNNING,
        }
    }

    fn fault(&mut self, f: Fault) -> (r: Result<(), Fault>)
        ensures
            (final(self)@, r) == faulted(old(self)@, f),
            final(self).memory == old(self).memory,
    {
        self.state = State::HALTED;
        Err(f)
    }

    /// Executes one instruction, as `execute_spec` describes.
    pub fn execute(&mut self, decoded: Instruction) -> (r: Result<(), Fault>)
        requires
            old(self).wf(),
        ensures
            final(self).wf(),
            (final(self)@, r) == execute_spec(old(self)@, decoded),
    {
        match decoded {
            Instruction::MovImm { reg, imm } => {
                if reg >= 16 {
                    return self.fault(Fault::RegisterOutOfBounds);
                }
                self.cpu.registers[reg as usize] = imm;
            },
            Instruction::Mov { src_reg, dest_reg } => {
                if src_reg >= 16 || dest_reg >= 16 {
                    return self.fault(Fault::RegisterOutOfBounds);
                }
                self.cpu.registers[dest_reg as usize] = self.cpu.registers[src_reg as usize];
            },
            Instruction::Load { reg, addr } => {
                if reg >= 16 {
                    return self.fault(Fault::RegisterOutOfBounds);
                }
                if addr as usize + 1 >= MEMORY_SIZE {
                    return self.fault(Fault::AddressOutOfBounds);
                }
                let h = self.memory.data[addr as usize];
                let l = self.memory.data[addr as usize + 1];
                self.cpu.registers[reg as usize] = (h as u16) * 256 + (l as u16);
            },
            Instruction::Store { addr, reg } => {
                if reg >= 16 {
                    return self.fault(Fault::RegisterOutOfBounds);
                }
                if addr as usize + 1 >= MEMORY_SIZE {
                    return self.fault(Fault::AddressOutOfBounds);
                }
                let v = self.cpu.registers[reg as usize];
                self.memory.data.set(addr as usize, (v / 256) as u8);
                self.memory.data.set(addr as usize + 1, (v % 256) as u8);
            },
            Instruction::Add { dest_reg, src_reg } => {
                if src_reg >= 16 || dest_reg >= 16 {
                    return self.fault(Fault::RegisterOutOfBounds);
                }
                let sum: u32 = self.cpu.registers[dest_reg as usize] as u32
                    + self.cpu.registers[src_reg as usize] as u32;
                let result = (sum % 0x10000) as u16;
                self.carry_flag = sum > 0xFFFF;
                self.cpu.registers[dest_reg as usize] = result;
                self.zero_flag = result == 0;
            },
            Instruction::Sub { dest_reg, src_reg } => {
                if src_reg >= 16 || dest_reg >= 16 {
                    return self.fault(Fault::RegisterOutOfBounds);
                }
                let a = self.cpu.registers[dest_reg as usize];
                let b = self.cpu.registers[src_reg as usize];
                let result = ((a as u32 + 0x10000 - b as u32) % 0x10000) as u16;
                self.carry_flag = a < b;
                self.cpu.registers[dest_reg as usize] = result;
                self.zero_flag = result == 0;
            },
            Instruction::Compare { reg_1, reg_2 } => {
                if reg_1 >= 16 || reg_2 >= 16 {
                    return self.fault(Fault::RegisterOutOfBounds);
                }
                let a = self.cpu.registers[reg_1 as usize];
                let b = self.cpu.registers[reg_2 as usize];
                self.zero_flag = a == b;
                self.carry_flag = a < b;
            },
            Instruction::Jump { addr } => {
                if addr as usize >= MEMORY_SIZE {
                    return self.fault(Fault::AddressOutOfBounds);
                }
                self.cpu.pc = addr;
            },
            Instruction::JumpZ { addr } => {
                if addr as usize >= MEMORY_SIZE {
                    return self.fault(Fault::AddressOutOfBounds);
                }
                if self.zero_flag {
                    self.cpu.pc = addr;
                }
            },
            Instruction::JumpNZ { addr } => {
                if addr as usize >= MEMORY_SIZE {
                    return self.fault(Fault::AddressOutOfBounds);
                }
                if !self.zero_flag {
                    self.cpu.pc = addr;
                }
            },
            Instruction::Halt => {
                self.state = State::HALTED;
            },
        }
        assert(final(self)@.registers =~= execute_spec(old(self)@, decoded).0.registers);
        assert(final(self)@.memory =~= execute_spec(old(self)@, decoded).0.memory);
        Ok(())
    }

    /// Advances the machine by one instruction, as `step_spec` describes.
    pub fn step(&mut self) -> (r: Result<(), Fault>)
        requires
            old(self).wf(),
        ensures
            final(self).wf(),
            (final(self)@, r) == step_spec(old(self)@),
    {
        if self.state == State::HALTED {
            return Ok(());
        }
        match decode(self.memory.data.as_slice(), self.cpu.pc) {
            Err(e) => self.fault(Fault::Decode(e)),
            Ok(d) => {
                let before = self.cpu.pc;
                let r = self.execute(d.instr);
                if self.state == State::RUNNING && self.cpu.pc == before {
                    self.cpu.pc = before + d.length;
                }
                r
            },
        }
    }
}

} // verus!
