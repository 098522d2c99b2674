use risa16::assembler::{assemble, AssemblyError};
use risa16::cpu::CPU;
use risa16::decoder::{decode, DecodeError, Operand};
use risa16::graphics::Framebuffer;
use risa16::instructions::Instruction;
use risa16::memory::{Memory, MEMORY_SIZE};
use risa16::vm::{Fault, State, VM};

fn load(src: &str) -> VM {
    let bytes = assemble(src).expect("assembly failed");
    let mut vm = VM::new();
    vm.memory.data[..bytes.len()].copy_from_slice(&bytes);
    vm
}

fn run(mut vm: VM) -> VM {
    let mut steps = 0;
    while vm.state == State::RUNNING && steps < 10_000 {
        let _ = vm.step();
        steps += 1;
    }
    vm
}

#[test]
fn every_instruction_text_decodes_back() {
    let cases: Vec<(&str, Instruction, u16)> = vec![
        ("movimm r3 0x1234", Instruction::MovImm { reg: 3, imm: 0x1234 }, 4),
        ("mov r1 r7", Instruction::Mov { dest_reg: 1, src_reg: 7 }, 3),
        ("load r2 0x0100", Instruction::Load { reg: 2, addr: 0x0100 }, 4),
        ("store 0x0200 r5", Instruction::Store { addr: 0x0200, reg: 5 }, 4),
        ("add r1 r2", Instruction::Add { dest_reg: 1, src_reg: 2 }, 3),
        ("sub r4 r3", Instruction::Sub { dest_reg: 4, src_reg: 3 }, 3),
        ("cmp r6 r15", Instruction::Compare { reg_1: 6, reg_2: 15 }, 3),
        ("jmp 0x0040", Instruction::Jump { addr: 0x40 }, 3),
        ("jmpz 32", Instruction::JumpZ { addr: 32 }, 3),
        ("jmpnz 0xfff", Instruction::JumpNZ { addr: 0xFFF }, 3),
        ("halt", Instruction::Halt, 1),
    ];
    for (text, instr, len) in cases {
        let bytes = assemble(text).unwrap();
        assert_eq!(bytes.len(), len as usize, "{}", text);
        let d = decode(&bytes, 0).unwrap();
        assert_eq!(d.instr, instr, "{}", text);
        assert_eq!(d.length, len, "{}", text);
    }
}

#[test]
fn registers_r0_to_r15_parse() {
    assert_eq!(assemble("mov r0 r15").unwrap(), vec![0x02, 0x00, 0x0F]);
    assert_eq!(assemble("mov r09 r1").unwrap(), vec![0x02, 0x09, 0x01]);
}

#[test]
fn register_r16_is_out_of_range() {
    assert_eq!(assemble("mov r16 r1"), Err(AssemblyError::RegisterOutOfRange));
    assert_eq!(assemble("mov r1 r300"), Err(AssemblyError::RegisterOutOfRange));
}

#[test]
fn register_without_r_is_malformed() {
    assert_eq!(assemble("mov x1 r1"), Err(AssemblyError::MalformedRegister));
    assert_eq!(assemble("mov R1 r1"), Err(AssemblyError::MalformedRegister));
    assert_eq!(assemble("mov r r1"), Err(AssemblyError::MalformedRegister));
    assert_eq!(assemble("mov r1 r-1"), Err(AssemblyError::MalformedRegister));
}

#[test]
fn numbers_decimal_and_hex() {
    assert_eq!(assemble("movimm r0 65535").unwrap(), vec![0x01, 0x00, 0xFF, 0xFF]);
    assert_eq!(assemble("movimm r0 0xFFFF").unwrap(), vec![0x01, 0x00, 0xFF, 0xFF]);
    assert_eq!(assemble("movimm r0 0xbeef").unwrap(), vec![0x01, 0x00, 0xBE, 0xEF]);
    assert_eq!(assemble("movimm r0 +10").unwrap(), vec![0x01, 0x00, 0x00, 0x0A]);
    assert_eq!(assemble("movimm r0 0").unwrap(), vec![0x01, 0x00, 0x00, 0x00]);
}

#[test]
fn numbers_above_ffff_are_out_of_range() {
    assert_eq!(assemble("movimm r0 65536"), Err(AssemblyError::NumberOutOfRange));
    assert_eq!(assemble("movimm r0 0x10000"), Err(AssemblyError::NumberOutOfRange));
    assert_eq!(assemble("load r0 99999999999999999999"), Err(AssemblyError::NumberOutOfRange));
}

#[test]
fn malformed_numbers_fail() {
    assert_eq!(assemble("movimm r0 abc"), Err(AssemblyError::MalformedNumber));
    assert_eq!(assemble("movimm r0 0x"), Err(AssemblyError::MalformedNumber));
    assert_eq!(assemble("movimm r0 0xg1"), Err(AssemblyError::MalformedNumber));
    assert_eq!(assemble("store -1 r0"), Err(AssemblyError::MalformedNumber));
}

#[test]
fn mnemonics_ignore_case() {
    assert_eq!(assemble("MovImm r1 2\nHALT").unwrap(), vec![0x01, 0x01, 0x00, 0x02, 0xFF]);
}

#[test]
fn comments_and_blank_lines_are_dropped() {
    let src = "// header\n\n   \nadd r1 r2 // sum\nhalt//end\r\n";
    assert_eq!(assemble(src).unwrap(), vec![0x05, 0x01, 0x02, 0xFF]);
}

#[test]
fn empty_source_gives_no_code() {
    assert_eq!(assemble("").unwrap(), Vec::<u8>::new());
    assert_eq!(assemble("\n// nothing\n").unwrap(), Vec::<u8>::new());
}

#[test]
fn wrong_operand_counts_fail() {
    assert_eq!(assemble("add r0"), Err(AssemblyError::WrongOperandCount));
    assert_eq!(assemble("jmp"), Err(AssemblyError::WrongOperandCount));
    assert_eq!(assemble("jmp 1 2"), Err(AssemblyError::WrongOperandCount));
    assert_eq!(assemble("halt r0"), Err(AssemblyError::WrongOperandCount));
}

#[test]
fn unknown_mnemonic_fails_before_any_code() {
    assert_eq!(assemble("halt\nfoo r0 r1"), Err(AssemblyError::UnknownMnemonic));
    assert_eq!(assemble("jmp nowhere\nfoo"), Err(AssemblyError::UnknownMnemonic));
}

#[test]
fn undefined_label_is_reported() {
    assert_eq!(assemble("jmp missing"), Err(AssemblyError::UndefinedLabel));
}

#[test]
fn labels_resolve_forward_and_backward() {
    let src = "jmpz end\nback: add r0 r1\nend:\njmpnz back\nhalt";
    assert_eq!(
        assemble(src).unwrap(),
        vec![0x09, 0x00, 0x06, 0x05, 0x00, 0x01, 0x0A, 0x00, 0x03, 0xFF]
    );
}

#[test]
fn later_label_declaration_wins() {
    let src = "a: halt\na: halt\njmp a";
    assert_eq!(assemble(src).unwrap(), vec![0xFF, 0xFF, 0x08, 0x00, 0x01]);
}

#[test]
fn numeric_jump_target_is_taken_as_address() {
    assert_eq!(assemble("jmp 0x0ABC").unwrap(), vec![0x08, 0x0A, 0xBC]);
}

#[test]
fn decode_errors_name_the_cause() {
    assert!(matches!(decode(&[0xAA], 0), Err(DecodeError::InvalidOpcode(0xAA))));
    assert!(matches!(decode(&[0x01], 10), Err(DecodeError::ProgramCounterOutOfBounds)));
    assert!(matches!(
        decode(&[0x01, 0x02], 0),
        Err(DecodeError::MissingOperand(Operand::ImmediateHigh))
    ));
    assert!(matches!(
        decode(&[0x04, 0x01, 0x02], 0),
        Err(DecodeError::MissingOperand(Operand::Register))
    ));
    assert!(matches!(
        decode(&[0x08, 0x01], 0),
        Err(DecodeError::MissingOperand(Operand::AddressLow))
    ));
    assert!(matches!(decode(&[], 0), Err(DecodeError::ProgramCounterOutOfBounds)));
}

#[test]
fn decode_reads_at_the_program_counter() {
    let d = decode(&[0xFF, 0x07, 0x01, 0x02], 1).unwrap();
    assert_eq!(d.instr, Instruction::Compare { reg_1: 1, reg_2: 2 });
    assert_eq!(d.length, 3);
}

#[test]
fn add_flags_follow_the_true_sum() {
    let mut vm = VM::new();
    vm.cpu.registers[0] = 0xFFFF;
    vm.cpu.registers[1] = 2;
    assert_eq!(vm.execute(Instruction::Add { dest_reg: 0, src_reg: 1 }), Ok(()));
    assert_eq!(vm.cpu.registers[0], 1);
    assert!(vm.carry_flag);
    assert!(!vm.zero_flag);

    vm.cpu.registers[2] = 0;
    vm.cpu.registers[3] = 0;
    let _ = vm.execute(Instruction::Add { dest_reg: 2, src_reg: 3 });
    assert!(!vm.carry_flag);
    assert!(vm.zero_flag);
}

#[test]
fn sub_borrows_when_minuend_is_smaller() {
    let mut vm = VM::new();
    vm.cpu.registers[0] = 3;
    vm.cpu.registers[1] = 7;
    let _ = vm.execute(Instruction::Sub { dest_reg: 0, src_reg: 1 });
    assert_eq!(vm.cpu.registers[0], 0xFFFC);
    assert!(vm.carry_flag);
    assert!(!vm.zero_flag);
}

#[test]
fn moves_leave_flags_alone() {
    let mut vm = VM::new();
    vm.zero_flag = true;
    vm.carry_flag = true;
    let _ = vm.execute(Instruction::MovImm { reg: 0, imm: 5 });
    let _ = vm.execute(Instruction::Mov { src_reg: 0, dest_reg: 1 });
    assert_eq!(vm.cpu.registers[1], 5);
    assert!(vm.zero_flag);
    assert!(vm.carry_flag);
}

#[test]
fn compare_leaves_registers_alone() {
    let mut vm = VM::new();
    vm.cpu.registers[4] = 9;
    vm.cpu.registers[5] = 2;
    let _ = vm.execute(Instruction::Compare { reg_1: 4, reg_2: 5 });
    assert_eq!(vm.cpu.registers[4], 9);
    assert_eq!(vm.cpu.registers[5], 2);
    assert!(!vm.zero_flag);
    assert!(!vm.carry_flag);
}

#[test]
fn faults_halt_and_change_nothing_else() {
    let mut vm = VM::new();
    vm.cpu.registers[0] = 0x1234;
    assert_eq!(
        vm.execute(Instruction::Store { addr: 0x0FFF, reg: 0 }),
        Err(Fault::AddressOutOfBounds)
    );
    assert_eq!(vm.state, State::HALTED);
    assert_eq!(vm.memory.data[0x0FFF], 0);

    let mut vm = VM::new();
    assert_eq!(
        vm.execute(Instruction::Add { dest_reg: 16, src_reg: 0 }),
        Err(Fault::RegisterOutOfBounds)
    );
    assert_eq!(vm.state, State::HALTED);

    let mut vm = VM::new();
    assert_eq!(vm.execute(Instruction::Jump { addr: 4096 }), Err(Fault::AddressOutOfBounds));
    assert_eq!(vm.cpu.pc, 0);
    assert_eq!(vm.state, State::HALTED);
}

#[test]
fn store_at_last_word_address_works() {
    let mut vm = VM::new();
    vm.cpu.registers[3] = 0xA1B2;
    assert_eq!(vm.execute(Instruction::Store { addr: 0x0FFE, reg: 3 }), Ok(()));
    assert_eq!(vm.memory.data[0x0FFE], 0xA1);
    assert_eq!(vm.memory.data[0x0FFF], 0xB2);
}

#[test]
fn step_advances_past_instruction() {
    let mut vm = load("movimm r1 7\njmpz 0\nhalt");
    assert_eq!(vm.step(), Ok(()));
    assert_eq!(vm.cpu.pc, 4);
    assert_eq!(vm.step(), Ok(()));
    assert_eq!(vm.cpu.pc, 7);
    assert_eq!(vm.step(), Ok(()));
    assert_eq!(vm.state, State::HALTED);
    assert_eq!(vm.cpu.pc, 7);
}

#[test]
fn step_on_halted_machine_does_nothing() {
    let mut vm = load("halt\nmovimm r0 1");
    let _ = vm.step();
    assert_eq!(vm.state, State::HALTED);
    assert_eq!(vm.step(), Ok(()));
    assert_eq!(vm.cpu.pc, 0);
    assert_eq!(vm.cpu.registers[0], 0);
}

#[test]
fn step_halts_on_invalid_opcode() {
    let mut vm = VM::new();
    vm.memory.data[0] = 0xAA;
    assert_eq!(vm.step(), Err(Fault::Decode(DecodeError::InvalidOpcode(0xAA))));
    assert_eq!(vm.state, State::HALTED);
}

#[test]
fn step_halts_on_truncated_instruction_at_end_of_memory() {
    let mut vm = VM::new();
    vm.memory.data[MEMORY_SIZE - 1] = 0x08;
    vm.cpu.pc = (MEMORY_SIZE - 1) as u16;
    assert_eq!(
        vm.step(),
        Err(Fault::Decode(DecodeError::MissingOperand(Operand::AddressHigh)))
    );
    assert_eq!(vm.state, State::HALTED);
}

#[test]
fn loop_counts_down_to_zero() {
    let vm = run(load(
        "movimm r0 3\nmovimm r1 1\nmovimm r2 0\nloop: sub r0 r1\ncmp r0 r2\njmpnz loop\nhalt",
    ));
    assert_eq!(vm.state, State::HALTED);
    assert_eq!(vm.cpu.registers[0], 0);
    assert!(vm.zero_flag);
}

#[test]
fn fresh_parts_are_zeroed() {
    let cpu = CPU::new();
    assert_eq!(cpu.registers, [0u16; 16]);
    assert_eq!(cpu.pc, 0);
    let mem = Memory::new();
    assert_eq!(mem.data.len(), MEMORY_SIZE);
    assert!(mem.data.iter().all(|b| *b == 0));
    let fb = Framebuffer::new(4, 3);
    assert_eq!(fb.width, 4);
    assert_eq!(fb.height, 3);
    assert_eq!(fb.pixels, vec![0u8; 12]);
}
