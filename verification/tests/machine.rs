use lc3_vm::console::Console;
use lc3_vm::cpu::{StepOutcome, CPU};
use lc3_vm::memory::Memory;

fn fresh() -> (CPU, Memory, Console) {
    (CPU::new(), Memory::new(), Console::new(Vec::new()))
}

#[test]
fn new_cpu_starts_at_default_origin() {
    let cpu = CPU::new();
    assert_eq!(cpu.pc, 0x3000);
    assert_eq!(cpu.cond, 0);
    assert_eq!(cpu.r0, 0);
    assert_eq!(cpu.r7, 0);
}

#[test]
fn sign_extend_five_bits() {
    let mut v: u16 = 0b11111;
    CPU::sign_extend(&mut v, 5);
    assert_eq!(v, 0xFFFF);
    let mut p: u16 = 0b01111;
    CPU::sign_extend(&mut p, 5);
    assert_eq!(p, 0x000F);
}

#[test]
fn sign_extend_six_bits() {
    let mut v: u16 = 0b111111;
    CPU::sign_extend(&mut v, 6);
    assert_eq!(v, 0xFFFF);
    let mut p: u16 = 0b011111;
    CPU::sign_extend(&mut p, 6);
    assert_eq!(p, 0x001F);
}

#[test]
fn sign_extend_nine_bits() {
    let mut v: u16 = 0x1FF;
    CPU::sign_extend(&mut v, 9);
    assert_eq!(v, 0xFFFF);
    let mut m: u16 = 0x100;
    CPU::sign_extend(&mut m, 9);
    assert_eq!(m, 0xFF00);
    let mut p: u16 = 0x0FF;
    CPU::sign_extend(&mut p, 9);
    assert_eq!(p, 0x00FF);
}

#[test]
fn sign_extend_eleven_bits() {
    let mut v: u16 = 0x7FF;
    CPU::sign_extend(&mut v, 11);
    assert_eq!(v, 0xFFFF);
    let mut p: u16 = 0x3FF;
    CPU::sign_extend(&mut p, 11);
    assert_eq!(p, 0x03FF);
}

#[test]
fn pc_wraps_at_end_of_address_space() {
    let (mut cpu, mut m, mut con) = fresh();
    cpu.pc = 0xFFFF;
    // ADD r0, r0, #0 at the last address; the counter wraps to 0x0000
    m.memory_write(0xFFFF, 0x1000 | (1 << 5));
    assert_eq!(cpu.step(&mut m, &mut con), StepOutcome::Continue);
    assert_eq!(cpu.pc, 0x0000);
    assert_eq!(cpu.r0, 0);
    assert_eq!(cpu.cond, 0b010);
}

#[test]
fn condition_flags_are_one_hot() {
    let mut cpu = CPU::new();
    cpu.set_cond(0);
    assert_eq!(cpu.cond, 0b010);
    cpu.set_cond(0x8000);
    assert_eq!(cpu.cond, 0b100);
    cpu.set_cond(0xFFFF);
    assert_eq!(cpu.cond, 0b100);
    cpu.set_cond(1);
    assert_eq!(cpu.cond, 0b001);
    cpu.set_cond(0x7FFF);
    assert_eq!(cpu.cond, 0b001);
}

#[test]
fn add_immediate_mode() {
    let (mut cpu, mut m, mut con) = fresh();
    cpu.r1 = 10;
    // ADD r2, r1, #5
    m.memory_write(0x3000, 0x1000 | (2 << 9) | (1 << 6) | (1 << 5) | 5);
    let r = cpu.step(&mut m, &mut con);
    assert_eq!(r, StepOutcome::Continue);
    assert_eq!(cpu.r2, 15);
    assert_eq!(cpu.cond, 0b001);
}

#[test]
fn add_register_mode_wraps_around() {
    let (mut cpu, mut m, mut con) = fresh();
    cpu.r1 = 10;
    cpu.r0 = 0xFFFD; // -3 in two's complement
    // ADD r2, r1, r0
    m.memory_write(0x3000, 0x1000 | (2 << 9) | (1 << 6) | 0);
    let r = cpu.step(&mut m, &mut con);
    assert_eq!(r, StepOutcome::Continue);
    assert_eq!(cpu.r2, 7);
    assert_eq!(cpu.cond, 0b001);
}

#[test]
fn add_negative_immediate_sets_negative_flag() {
    let (mut cpu, mut m, mut con) = fresh();
    // ADD r0, r0, #-1 (imm5 = 0b11111)
    m.memory_write(0x3000, 0x1000 | (1 << 5) | 0x1F);
    let r = cpu.step(&mut m, &mut con);
    assert_eq!(r, StepOutcome::Continue);
    assert_eq!(cpu.r0, 0xFFFF);
    assert_eq!(cpu.cond, 0b100);
}

#[test]
fn and_immediate_and_register_modes() {
    let (mut cpu, mut m, mut con) = fresh();
    cpu.r1 = 0b1100;
    // AND r2, r1, #0b0110
    m.memory_write(0x3000, 0x5000 | (2 << 9) | (1 << 6) | (1 << 5) | 0b00110);
    assert_eq!(cpu.step(&mut m, &mut con), StepOutcome::Continue);
    assert_eq!(cpu.r2, 0b0100);
    assert_eq!(cpu.cond, 0b001);

    cpu.r3 = 0xF0F0;
    cpu.r4 = 0x0F0F;
    // AND r5, r3, r4 -> zero
    m.memory_write(0x3001, 0x5000 | (5 << 9) | (3 << 6) | 4);
    assert_eq!(cpu.step(&mut m, &mut con), StepOutcome::Continue);
    assert_eq!(cpu.r5, 0);
    assert_eq!(cpu.cond, 0b010);
}

#[test]
fn not_complements_and_updates_flags() {
    let (mut cpu, mut m, mut con) = fresh();
    cpu.r1 = 0x00FF;
    // NOT r2, r1
    m.memory_write(0x3000, 0x9000 | (2 << 9) | (1 << 6) | 0x3F);
    assert_eq!(cpu.step(&mut m, &mut con), StepOutcome::Continue);
    assert_eq!(cpu.r2, 0xFF00);
    assert_eq!(cpu.cond, 0b100);
}

#[test]
fn branch_taken_is_relative_to_advanced_pc() {
    let (mut cpu, mut m, mut con) = fresh();
    cpu.cond = 0b010;
    // BRz with offset 5, fetched at 0x3000: lands at 0x3001 + 5
    m.memory_write(0x3000, 0x0000 | (0b010 << 9) | 5);
    assert_eq!(cpu.step(&mut m, &mut con), StepOutcome::Continue);
    assert_eq!(cpu.pc, 0x3006);
}

#[test]
fn branch_not_taken_only_advances() {
    let (mut cpu, mut m, mut con) = fresh();
    cpu.cond = 0b001;
    // BRz while the positive flag is set: not taken
    m.memory_write(0x3000, 0x0000 | (0b010 << 9) | 5);
    assert_eq!(cpu.step(&mut m, &mut con), StepOutcome::Continue);
    assert_eq!(cpu.pc, 0x3001);
}

#[test]
fn branch_negative_offset_goes_backwards() {
    let (mut cpu, mut m, mut con) = fresh();
    cpu.cond = 0b001;
    // BRp with offset -2 (0x1FE): 0x3001 - 2
    m.memory_write(0x3000, 0x0000 | (0b001 << 9) | 0x1FE);
    assert_eq!(cpu.step(&mut m, &mut con), StepOutcome::Continue);
    assert_eq!(cpu.pc, 0x2FFF);
}

#[test]
fn jump_loads_pc_from_base_register() {
    let (mut cpu, mut m, mut con) = fresh();
    cpu.r3 = 0x4242;
    // JMP r3
    m.memory_write(0x3000, 0xC000 | (3 << 6));
    assert_eq!(cpu.step(&mut m, &mut con), StepOutcome::Continue);
    assert_eq!(cpu.pc, 0x4242);
}

#[test]
fn jsr_saves_link_then_ret_returns() {
    let (mut cpu, mut m, mut con) = fresh();
    // JSR with offset 0x010 from 0x3000: r7 = 0x3001, pc = 0x3011
    m.memory_write(0x3000, 0x4000 | (1 << 11) | 0x010);
    assert_eq!(cpu.step(&mut m, &mut con), StepOutcome::Continue);
    assert_eq!(cpu.r7, 0x3001);
    assert_eq!(cpu.pc, 0x3011);

    // RET (JMP r7) returns to the saved address
    m.memory_write(0x3011, 0xC000 | (7 << 6));
    assert_eq!(cpu.step(&mut m, &mut con), StepOutcome::Continue);
    assert_eq!(cpu.pc, 0x3001);
}

#[test]
fn jsrr_takes_pc_from_base_register() {
    let (mut cpu, mut m, mut con) = fresh();
    cpu.r2 = 0x5000;
    // JSRR r2
    m.memory_write(0x3000, 0x4000 | (2 << 6));
    assert_eq!(cpu.step(&mut m, &mut con), StepOutcome::Continue);
    assert_eq!(cpu.r7, 0x3001);
    assert_eq!(cpu.pc, 0x5000);
}

#[test]
fn jsrr_through_r7_jumps_to_the_fresh_link() {
    let (mut cpu, mut m, mut con) = fresh();
    cpu.r7 = 0x7777;
    // JSRR r7: the link register is written before the base register is
    // read, so the jump lands on the freshly saved address
    m.memory_write(0x3000, 0x4000 | (7 << 6));
    assert_eq!(cpu.step(&mut m, &mut con), StepOutcome::Continue);
    assert_eq!(cpu.r7, 0x3001);
    assert_eq!(cpu.pc, 0x3001);
}

#[test]
fn load_reads_pc_relative_word() {
    let (mut cpu, mut m, mut con) = fresh();
    m.memory_write(0x3005, 0xBEEF);
    // LD r4, #4: reads 0x3001 + 4
    m.memory_write(0x3000, 0x2000 | (4 << 9) | 4);
    assert_eq!(cpu.step(&mut m, &mut con), StepOutcome::Continue);
    assert_eq!(cpu.r4, 0xBEEF);
    assert_eq!(cpu.cond, 0b100);
}

#[test]
fn load_indirect_round_trip() {
    let (mut cpu, mut m, mut con) = fresh();
    m.memory_write(0x3001, 0x4000);
    m.memory_write(0x4000, 0x2A);
    // LDI r0, #0 at pc 0x3000: the offset is relative to the advanced
    // counter, so the pointer sits at 0x3001 and the value at 0x4000
    m.memory_write(0x3000, 0xA000);
    assert_eq!(cpu.step(&mut m, &mut con), StepOutcome::Continue);
    assert_eq!(cpu.r0, 0x2A);
    assert_eq!(cpu.cond, 0b001);
}

#[test]
fn load_register_uses_base_plus_offset() {
    let (mut cpu, mut m, mut con) = fresh();
    cpu.r1 = 0x4000;
    m.memory_write(0x4003, 0x77);
    // LDR r2, r1, #3
    m.memory_write(0x3000, 0x6000 | (2 << 9) | (1 << 6) | 3);
    assert_eq!(cpu.step(&mut m, &mut con), StepOutcome::Continue);
    assert_eq!(cpu.r2, 0x77);
}

#[test]
fn load_effective_address_is_pc_relative() {
    let (mut cpu, mut m, mut con) = fresh();
    // LEA r6, #0x20: r6 = 0x3001 + 0x20
    m.memory_write(0x3000, 0xE000 | (6 << 9) | 0x020);
    assert_eq!(cpu.step(&mut m, &mut con), StepOutcome::Continue);
    assert_eq!(cpu.r6, 0x3021);
    assert_eq!(cpu.cond, 0b001);
}

#[test]
fn store_writes_pc_relative_word() {
    let (mut cpu, mut m, mut con) = fresh();
    cpu.r3 = 0xCAFE;
    // ST r3, #2: writes 0x3001 + 2
    m.memory_write(0x3000, 0x3000 | (3 << 9) | 2);
    assert_eq!(cpu.step(&mut m, &mut con), StepOutcome::Continue);
    assert_eq!(m.raw()[0x3003], 0xCAFE);
}

#[test]
fn store_indirect_writes_through_pointer() {
    let (mut cpu, mut m, mut con) = fresh();
    cpu.r3 = 0x1234;
    m.memory_write(0x3002, 0x5000);
    // STI r3, #1: the pointer sits at 0x3001 + 1
    m.memory_write(0x3000, 0xB000 | (3 << 9) | 1);
    assert_eq!(cpu.step(&mut m, &mut con), StepOutcome::Continue);
    assert_eq!(m.raw()[0x5000], 0x1234);
}

#[test]
fn store_register_uses_base_plus_offset() {
    let (mut cpu, mut m, mut con) = fresh();
    cpu.r1 = 0x4000;
    cpu.r2 = 0xAB;
    // STR r2, r1, #1
    m.memory_write(0x3000, 0x7000 | (2 << 9) | (1 << 6) | 1);
    assert_eq!(cpu.step(&mut m, &mut con), StepOutcome::Continue);
    assert_eq!(m.raw()[0x4001], 0xAB);
}

#[test]
fn store_does_not_touch_condition_flags() {
    let (mut cpu, mut m, mut con) = fresh();
    cpu.cond = 0b100;
    cpu.r0 = 1;
    m.memory_write(0x3000, 0x3000 | 1);
    assert_eq!(cpu.step(&mut m, &mut con), StepOutcome::Continue);
    assert_eq!(cpu.cond, 0b100);
}

#[test]
fn rti_is_fatal_not_a_noop() {
    let (mut cpu, mut m, mut con) = fresh();
    m.memory_write(0x3000, 0x8000);
    let r = cpu.step(&mut m, &mut con);
    assert_eq!(r, StepOutcome::IllegalOpcode);
    assert_ne!(r, StepOutcome::Continue);
    assert_eq!(cpu.r0, 0);
    assert_eq!(con.output, Vec::<u8>::new());
}

#[test]
fn reserved_opcode_is_fatal() {
    let (mut cpu, mut m, mut con) = fresh();
    m.memory_write(0x3000, 0xD000);
    assert_eq!(cpu.step(&mut m, &mut con), StepOutcome::IllegalOpcode);
}

#[test]
fn invalid_trap_vector_is_fatal() {
    let (mut cpu, mut m, mut con) = fresh();
    m.memory_write(0x3000, 0xF0FF);
    assert_eq!(cpu.step(&mut m, &mut con), StepOutcome::InvalidTrap);
}

#[test]
fn halt_prints_marker_and_stops() {
    let (mut cpu, mut m, mut con) = fresh();
    m.memory_write(0x3000, 0xF025);
    let r = cpu.step(&mut m, &mut con);
    assert_eq!(r, StepOutcome::Halt);
    assert_eq!(con.output, b"HALT".to_vec());
    // the program counter stopped just past the halt trap; nothing else ran
    assert_eq!(cpu.pc, 0x3001);
    assert_eq!(cpu.r0, 0);
}

#[test]
fn getc_stores_byte_without_echo() {
    let (mut cpu, mut m, _) = fresh();
    let mut con = Console::new(vec![0x58]);
    m.memory_write(0x3000, 0xF020);
    assert_eq!(cpu.step(&mut m, &mut con), StepOutcome::Continue);
    assert_eq!(cpu.r0, 0x58);
    assert_eq!(con.output, Vec::<u8>::new());
    assert_eq!(cpu.cond, 0); // traps never touch the flags
}

#[test]
fn getc_blocks_and_leaves_machine_unchanged() {
    let (mut cpu, mut m, mut con) = fresh();
    m.memory_write(0x3000, 0xF020);
    assert_eq!(cpu.step(&mut m, &mut con), StepOutcome::NeedInput);
    assert_eq!(cpu.pc, 0x3000);
    assert_eq!(con.output, Vec::<u8>::new());
    // feeding one byte lets the same step complete
    con.input.push(0x41);
    assert_eq!(cpu.step(&mut m, &mut con), StepOutcome::Continue);
    assert_eq!(cpu.r0, 0x41);
    assert_eq!(cpu.pc, 0x3001);
}

#[test]
fn out_prints_low_byte_of_r0() {
    let (mut cpu, mut m, mut con) = fresh();
    cpu.r0 = 0x3141;
    m.memory_write(0x3000, 0xF021);
    assert_eq!(cpu.step(&mut m, &mut con), StepOutcome::Continue);
    assert_eq!(con.output, vec![0x41]);
}

#[test]
fn puts_prints_one_character_per_word() {
    let (mut cpu, mut m, mut con) = fresh();
    cpu.r0 = 0x4000;
    m.memory_write(0x4000, 'H' as u16);
    m.memory_write(0x4001, 'i' as u16);
    m.memory_write(0x4002, 0);
    m.memory_write(0x3000, 0xF022);
    assert_eq!(cpu.step(&mut m, &mut con), StepOutcome::Continue);
    assert_eq!(con.output, b"Hi".to_vec());
}

#[test]
fn puts_without_terminator_is_fatal() {
    let (mut cpu, mut m, mut con) = fresh();
    cpu.r0 = 0xFFFF;
    m.memory_write(0xFFFF, 'A' as u16);
    m.memory_write(0x3000, 0xF022);
    assert_eq!(cpu.step(&mut m, &mut con), StepOutcome::UnterminatedString);
}

#[test]
fn putsp_unpacks_two_characters_per_word() {
    let (mut cpu, mut m, mut con) = fresh();
    cpu.r0 = 0x4000;
    m.memory_write(0x4000, (('i' as u16) << 8) | ('H' as u16));
    m.memory_write(0x4001, '!' as u16); // high byte zero: one character
    m.memory_write(0x4002, 0);
    m.memory_write(0x3000, 0xF024);
    assert_eq!(cpu.step(&mut m, &mut con), StepOutcome::Continue);
    assert_eq!(con.output, b"Hi!".to_vec());
}

#[test]
fn in_trap_prompts_and_echoes() {
    let (mut cpu, mut m, _) = fresh();
    let mut con = Console::new(vec![0x5A]);
    m.memory_write(0x3000, 0xF023);
    assert_eq!(cpu.step(&mut m, &mut con), StepOutcome::Continue);
    assert_eq!(cpu.r0, 0x5A);
    assert_eq!(con.output, b"Enter a character: Z".to_vec());
}

#[test]
fn keyboard_poll_sets_status_and_data_registers() {
    let (_, mut m, _) = fresh();
    let mut con = Console::new(vec![0x41]);
    assert_eq!(m.memory_read(0xFE00, &mut con), Some(0x8000));
    assert_eq!(m.memory_read(0xFE02, &mut con), Some(0x41));
}

#[test]
fn keyboard_poll_with_no_key_clears_ready_bit() {
    let (_, mut m, _) = fresh();
    let mut con = Console::new(vec![0]);
    m.memory_write(0xFE00, 0x8000);
    assert_eq!(m.memory_read(0xFE00, &mut con), Some(0));
}

#[test]
fn keyboard_poll_blocks_without_input() {
    let (_, mut m, mut con) = fresh();
    assert_eq!(m.memory_read(0xFE00, &mut con), None);
}

#[test]
fn blocked_poll_step_restores_machine_then_resumes() {
    let (mut cpu, mut m, mut con) = fresh();
    cpu.r1 = 0xFE00;
    // LDR r0, r1, #0: polls the keyboard status register
    m.memory_write(0x3000, 0x6000 | (1 << 6));
    assert_eq!(cpu.step(&mut m, &mut con), StepOutcome::NeedInput);
    assert_eq!(cpu.pc, 0x3000);
    assert_eq!(m.raw()[0xFE00], 0);
    con.input.push(0x41);
    assert_eq!(cpu.step(&mut m, &mut con), StepOutcome::Continue);
    assert_eq!(cpu.r0, 0x8000);
    assert_eq!(m.raw()[0xFE02], 0x41);
    assert_eq!(cpu.pc, 0x3001);
}
