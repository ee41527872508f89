//! The LC-3 CPU: eight general-purpose registers, a program counter and a
//! condition-flags register, with the fetch-decode-execute cycle for the
//! sixteen opcodes and the six console trap routines.
//!
//! One call of [`CPU::step`] performs one whole machine cycle: fetch the
//! word at the program counter, advance the counter, decode and execute.
//! Every effect — register writes, memory writes, console bytes consumed
//! and produced — is pinned down by the spec predicates in this module, so
//! the contracts of [`CPU::exec`] and [`CPU::step`] describe the machine's
//! transition relation in full.
use vstd::prelude::*;

use crate::console::Console;
use crate::memory::{Memory, KBSR, KBDR, MEMORY_WORDS, read_ok, mem_after_read, pos_after_read,
    read_result};

verus! {

/// The six console trap routines.
#[derive(Debug, PartialEq, Eq, Structural, Clone, Copy)]
pub enum Trap {
    GetC,
    Out,
    PutS,
    In,
    PutSp,
    Halt,
}

/// The trap routine selected by vector `v` (meaningful for `0x20..=0x25`).
pub open spec fn trap_of(v: u16) -> Trap {
    if v == 0x20 {
        Trap::GetC
    } else if v == 0x21 {
        Trap::Out
    } else if v == 0x22 {
        Trap::PutS
    } else if v == 0x23 {
        Trap::In
    } else if v == 0x24 {
        Trap::PutSp
    } else {
        Trap::Halt
    }
}

impl Trap {
    /// Converts a trap vector to the trap routine it selects.
    /// Vectors outside the six defined ones are rejected by the caller.
    pub fn from(v: u16) -> (t: Trap)
        requires
            0x20 <= v <= 0x25,
        ensures
            t == trap_of(v),
    {
        match v {
            0x20 => Trap::GetC,
            0x21 => Trap::Out,
            0x22 => Trap::PutS,
            0x23 => Trap::In,
            0x24 => Trap::PutSp,
            _ => Trap::Halt,
        }
    }
}

/// The three condition flags; exactly one is active after any instruction
/// that writes a general-purpose register.
#[derive(Debug, PartialEq, Eq, Structural, Clone, Copy)]
pub enum Condition {
    FlPos,
    FlZro,
    FlNeg,
}

impl Condition {
    /// The bit this flag occupies in the condition-flags register.
    pub fn value(&self) -> (r: u16)
        ensures
            r == match self {
                Condition::FlPos => 1u16,
                Condition::FlZro => 2u16,
                Condition::FlNeg => 4u16,
            },
    {
        match self {
            Condition::FlPos => 1,
            Condition::FlZro => 2,
            Condition::FlNeg => 4,
        }
    }

    /// Converts a one-hot flag value to the flag it encodes.
    /// Any other value is rejected by the caller.
    pub fn from(v: u16) -> (c: Condition)
        requires
            v == 1 || v == 2 || v == 4,
        ensures
            v == 1 ==> c == Condition::FlPos,
            v == 2 ==> c == Condition::FlZro,
            v == 4 ==> c == Condition::FlNeg,
    {
        match v {
            1 => Condition::FlPos,
            2 => Condition::FlZro,
            _ => Condition::FlNeg,
        }
    }
}

/// The sixteen LC-3 opcodes, in opcode order `0x0..=0xF`.
#[derive(Debug, PartialEq, Eq, Structural, Clone, Copy)]
pub enum Instruction {
    OpBr,
    OpAdd,
    OpLd,
    OpSt,
    OpJsr,
    OpAnd,
    OpLdr,
    OpStr,
    OpRti,
    OpNot,
    OpLdi,
    OpSti,
    OpJmp,
    OpRes,
    OpLea,
    OpTrap,
}

/// The instruction selected by a 4-bit opcode value.
pub open spec fn instruction_of(v: u8) -> Instruction {
    if v == 0x0 {
        Instruction::OpBr
    } else if v == 0x1 {
        Instruction::OpAdd
    } else if v == 0x2 {
        Instruction::OpLd
    } else if v == 0x3 {
        Instruction::OpSt
    } else if v == 0x4 {
        Instruction::OpJsr
    } else if v == 0x5 {
        Instruction::OpAnd
    } else if v == 0x6 {
        Instruction::OpLdr
    } else if v == 0x7 {
        Instruction::OpStr
    } else if v == 0x8 {
        Instruction::OpRti
    } else if v == 0x9 {
        Instruction::OpNot
    } else if v == 0xA {
        Instruction::OpLdi
    } else if v == 0xB {
        Instruction::OpSti
    } else if v == 0xC {
        Instruction::OpJmp
    } else if v == 0xD {
        Instruction::OpRes
    } else if v == 0xE {
        Instruction::OpLea
    } else {
        Instruction::OpTrap
    }
}

/// The 4-bit opcode value of an instruction.
pub open spec fn instruction_value(i: Instruction) -> u8 {
    match i {
        Instruction::OpBr => 0x0,
        Instruction::OpAdd => 0x1,
        Instruction::OpLd => 0x2,
        Instruction::OpSt => 0x3,
        Instruction::OpJsr => 0x4,
        Instruction::OpAnd => 0x5,
        Instruction::OpLdr => 0x6,
        Instruction::OpStr => 0x7,
        Instruction::OpRti => 0x8,
        Instruction::OpNot => 0x9,
        Instruction::OpLdi => 0xA,
        Instruction::OpSti => 0xB,
        Instruction::OpJmp => 0xC,
        Instruction::OpRes => 0xD,
        Instruction::OpLea => 0xE,
        Instruction::OpTrap => 0xF,
    }
}

impl Instruction {
    /// Converts a 4-bit opcode value to its instruction.
    /// Values above `0xF` are rejected by the caller.
    pub fn from(v: u8) -> (t: Instruction)
        requires
            v <= 0xF,
        ensures
            t == instruction_of(v),
            instruction_value(t) == v,
    {
        match v {
            0x0 => Instruction::OpBr,
            0x1 => Instruction::OpAdd,
            0x2 => Instruction::OpLd,
            0x3 => Instruction::OpSt,
            0x4 => Instruction::OpJsr,
            0x5 => Instruction::OpAnd,
            0x6 => Instruction::OpLdr,
            0x7 => Instruction::OpStr,
            0x8 => Instruction::OpRti,
            0x9 => Instruction::OpNot,
            0xA => Instruction::OpLdi,
            0xB => Instruction::OpSti,
            0xC => Instruction::OpJmp,
            0xD => Instruction::OpRes,
            0xE => Instruction::OpLea,
            _ => Instruction::OpTrap,
        }
    }

    /// The 4-bit opcode value of this instruction.
    pub fn value(&self) -> (r: u8)
        ensures
            r == instruction_value(*self),
            instruction_of(r) == *self,
    {
        match self {
            Instruction::OpBr => 0x0,
            Instruction::OpAdd => 0x1,
            Instruction::OpLd => 0x2,
            Instruction::OpSt => 0x3,
            Instruction::OpJsr => 0x4,
            Instruction::OpAnd => 0x5,
            Instruction::OpLdr => 0x6,
            Instruction::OpStr => 0x7,
            Instruction::OpRti => 0x8,
            Instruction::OpNot => 0x9,
            Instruction::OpLdi => 0xA,
            Instruction::OpSti => 0xB,
            Instruction::OpJmp => 0xC,
            Instruction::OpRes => 0xD,
            Instruction::OpLea => 0xE,
            Instruction::OpTrap => 0xF,
        }
    }
}

/// How one machine cycle ended. `Continue` is the normal case; `NeedInput`
/// means a keyboard read found no pending byte and the machine is unchanged,
/// waiting for the host to supply one; the remaining variants are the fatal
/// conditions a host turns into process termination.
#[derive(Debug, PartialEq, Eq, Structural, Clone, Copy)]
pub enum StepOutcome {
    /// The instruction completed; fetch the next one.
    Continue,
    /// A keyboard read would block: feed a byte and step again.
    NeedInput,
    /// The halt trap ran: stop fetching, the program is done.
    Halt,
    /// One of the two unimplemented opcodes was executed; fatal.
    IllegalOpcode,
    /// A trap vector outside the six defined ones was executed; fatal.
    InvalidTrap,
    /// A trap string ran past the last address without a terminator; fatal.
    UnterminatedString,
}

/// How a trap string-printing run ended.
pub enum StringEnd {
    /// A zero terminator word was read.
    Done,
    /// A keyboard-register read inside the string found no pending byte.
    Blocked,
    /// The string reached the last address with no terminator.
    Overflow,
}

/// The register file: eight general-purpose registers, the program counter
/// and the condition-flags register, each one 16-bit word.
#[derive(Clone, Copy)]
pub struct CPU {
    pub r0: u16,
    pub r1: u16,
    pub r2: u16,
    pub r3: u16,
    pub r4: u16,
    pub r5: u16,
    pub r6: u16,
    pub r7: u16,
    pub pc: u16,
    pub cond: u16,
}

/// One ghost snapshot of the whole machine: register file, memory words,
/// console input bytes with the read cursor, and console output bytes.
#[verifier::ext_equal]
pub struct MachineView {
    pub cpu: CPU,
    pub mem: Seq<u16>,
    pub input: Seq<u8>,
    pub pos: int,
    pub output: Seq<u8>,
}

/// The snapshot of a CPU together with its memory and console.
pub open spec fn mview(cpu: CPU, m: Memory, c: Console) -> MachineView {
    MachineView { cpu, mem: m@, input: c.input@, pos: c.pos as int, output: c.output@ }
}

/// The snapshot of a CPU and its console alone, for the trap routines that
/// never touch memory; the memory words are left empty.
pub open spec fn cview(cpu: CPU, c: Console) -> MachineView {
    MachineView { cpu, mem: Seq::empty(), input: c.input@, pos: c.pos as int, output: c.output@ }
}

/// The condition-flags value recorded after writing `r` to a register:
/// zero gives the zero flag, a set sign bit the negative flag, anything
/// else the positive flag. The result is always exactly one of 1, 2, 4.
pub open spec fn flag_for(r: u16) -> u16 {
    if r == 0 {
        2
    } else if r >= 0x8000 {
        4
    } else {
        1
    }
}

/// Sign extension of the `c` low bits of `v` to a 16-bit word: if bit
/// `c - 1` is set, all bits from `c` upward are set.
pub open spec fn sext_spec(v: u16, c: u32) -> u16
    recommends
        1 <= c <= 15,
{
    if (v >> ((c - 1) as u16)) & 1 == 1 {
        v | (0xFFFFu16 << (c as u16))
    } else {
        v
    }
}

/// Exactly one condition flag is active after any register write: the
/// zero flag for zero, the negative flag when the sign bit is set, the
/// positive flag otherwise.
pub proof fn lemma_condition_flags(r: u16)
    ensures
        flag_for(r) == 1 || flag_for(r) == 2 || flag_for(r) == 4,
        flag_for(r) == 2 <==> r == 0,
        flag_for(r) == 4 <==> r >= 0x8000,
        flag_for(r) == 1 <==> 0 < r < 0x8000,
{
}

/// Sign extension is the two's-complement reading of an `c`-bit pattern:
/// a pattern below `2^(c-1)` keeps its value, and one with the sign bit
/// set denotes `v - 2^c`, which the 16-bit word represents as
/// `v - 2^c + 2^16`.
pub proof fn lemma_sign_extend(v: u16, c: u32)
    requires
        1 <= c <= 15,
        v < (1u32 << c),
    ensures
        v < (1u32 << ((c - 1) as u32)) ==> sext_spec(v, c) == v,
        v >= (1u32 << ((c - 1) as u32)) ==> sext_spec(v, c) == v + 0x10000 - (1u32 << c),
{
    assert(
        (v < (1u32 << ((c - 1) as u32)) ==> sext_spec(v, c) == v)
        && (v >= (1u32 << ((c - 1) as u32)) ==> sext_spec(v, c) == v + 0x10000 - (1u32 << c))
    ) by (bit_vector)
        requires
            1 <= c <= 15,
            v < (1u32 << c),
    ;
}

/// An ADD: the destination gets the first source plus either the
/// sign-extended 5-bit immediate or the second source register, with
/// 16-bit wraparound; the flags are recomputed from the result.
pub open spec fn add_post(pre: CPU, post: CPU, instr: u16) -> bool {
    let dst = ((instr >> 9) & 0x7) as int;
    let left = pre.reg_view(((instr >> 6) & 0x7) as int);
    let rhs = if (instr >> 5) & 0x1 == 1 {
        sext_spec(instr & 0x1F, 5)
    } else {
        pre.reg_view((instr & 0x7) as int)
    };
    let val = left.wrapping_add(rhs);
    &&& post.regs() == pre.regs().update(dst, val)
    &&& post.pc == pre.pc
    &&& post.cond == flag_for(val)
}

/// An AND: like ADD but with bitwise conjunction.
pub open spec fn and_post(pre: CPU, post: CPU, instr: u16) -> bool {
    let dst = ((instr >> 9) & 0x7) as int;
    let left = pre.reg_view(((instr >> 6) & 0x7) as int);
    let rhs = if (instr >> 5) & 0x1 == 1 {
        sext_spec(instr & 0x1F, 5)
    } else {
        pre.reg_view((instr & 0x7) as int)
    };
    let val = left & rhs;
    &&& post.regs() == pre.regs().update(dst, val)
    &&& post.pc == pre.pc
    &&& post.cond == flag_for(val)
}

/// A NOT: the destination gets the bitwise complement of the source.
pub open spec fn not_post(pre: CPU, post: CPU, instr: u16) -> bool {
    let dst = ((instr >> 9) & 0x7) as int;
    let val = !pre.reg_view(((instr >> 6) & 0x7) as int);
    &&& post.regs() == pre.regs().update(dst, val)
    &&& post.pc == pre.pc
    &&& post.cond == flag_for(val)
}

/// A BR: when the current flags meet the 3-bit condition mask, the
/// program counter moves by the sign-extended 9-bit offset.
pub open spec fn br_post(pre: CPU, post: CPU, instr: u16) -> bool {
    let mask = (instr >> 9) & 0x7;
    let taken = pre.cond & mask > 0;
    &&& post.regs() == pre.regs()
    &&& post.cond == pre.cond
    &&& post.pc == if taken {
        pre.pc.wrapping_add(sext_spec(instr & 0x1FF, 9))
    } else {
        pre.pc
    }
}

/// A JMP (or RET): the program counter is loaded from the base register.
pub open spec fn jmp_post(pre: CPU, post: CPU, instr: u16) -> bool {
    &&& post.regs() == pre.regs()
    &&& post.cond == pre.cond
    &&& post.pc == pre.reg_view(((instr >> 6) & 0x7) as int)
}

/// A JSR or JSRR: register 7 receives the (already advanced) program
/// counter first; then the counter either moves by the sign-extended
/// 11-bit offset or is loaded from the base register — read after the
/// link write, so JSRR with base register 7 jumps to the saved counter.
pub open spec fn jsr_post(pre: CPU, post: CPU, instr: u16) -> bool {
    let linked = pre.regs().update(7, pre.pc);
    &&& post.regs() == linked
    &&& post.cond == pre.cond
    &&& post.pc == if (instr >> 11) & 0x1 == 1 {
        pre.pc.wrapping_add(sext_spec(instr & 0x7FF, 11))
    } else {
        linked[((instr >> 6) & 0x7) as int]
    }
}

/// A LEA: the destination gets the program counter plus the sign-extended
/// 9-bit offset; the flags are recomputed from that address value.
pub open spec fn lea_post(pre: CPU, post: CPU, instr: u16) -> bool {
    let dst = ((instr >> 9) & 0x7) as int;
    let val = pre.pc.wrapping_add(sext_spec(instr & 0x1FF, 9));
    &&& post.regs() == pre.regs().update(dst, val)
    &&& post.pc == pre.pc
    &&& post.cond == flag_for(val)
}

/// Memory, console input cursor and console output unchanged between two
/// snapshots (the register-only instructions).
pub open spec fn same_world(pre: MachineView, post: MachineView) -> bool {
    &&& post.mem == pre.mem
    &&& post.input == pre.input
    &&& post.pos == pre.pos
    &&& post.output == pre.output
}

/// A LD: one memory read at the program counter plus the sign-extended
/// 9-bit offset; the destination and flags take the value read. Blocks
/// (machine unchanged) when that read needs an unavailable input byte.
pub open spec fn ld_post(pre: MachineView, post: MachineView, instr: u16, r: StepOutcome) -> bool {
    let dst = ((instr >> 9) & 0x7) as int;
    let addr = pre.cpu.pc.wrapping_add(sext_spec(instr & 0x1FF, 9));
    if !read_ok(pre.input, pre.pos, addr) {
        r == StepOutcome::NeedInput && post == pre
    } else {
        let val = read_result(pre.mem, pre.input, pre.pos, addr);
        &&& r == StepOutcome::Continue
        &&& post.cpu.regs() == pre.cpu.regs().update(dst, val)
        &&& post.cpu.pc == pre.cpu.pc
        &&& post.cpu.cond == flag_for(val)
        &&& post.mem == mem_after_read(pre.mem, pre.input, pre.pos, addr)
        &&& post.pos == pos_after_read(pre.pos, addr)
        &&& post.input == pre.input
        &&& post.output == pre.output
    }
}

/// A LDR: like LD but the address is the base register plus the
/// sign-extended 6-bit offset.
pub open spec fn ldr_post(pre: MachineView, post: MachineView, instr: u16, r: StepOutcome) -> bool {
    let dst = ((instr >> 9) & 0x7) as int;
    let addr = pre.cpu.reg_view(((instr >> 6) & 0x7) as int).wrapping_add(
        sext_spec(instr & 0x3F, 6));
    if !read_ok(pre.input, pre.pos, addr) {
        r == StepOutcome::NeedInput && post == pre
    } else {
        let val = read_result(pre.mem, pre.input, pre.pos, addr);
        &&& r == StepOutcome::Continue
        &&& post.cpu.regs() == pre.cpu.regs().update(dst, val)
        &&& post.cpu.pc == pre.cpu.pc
        &&& post.cpu.cond == flag_for(val)
        &&& post.mem == mem_after_read(pre.mem, pre.input, pre.pos, addr)
        &&& post.pos == pos_after_read(pre.pos, addr)
        &&& post.input == pre.input
        &&& post.output == pre.output
    }
}

/// A LDI: a first read at the program counter plus the sign-extended
/// 9-bit offset yields a pointer; a second read at that pointer yields the
/// value for the destination and flags. Either read may block; a block on
/// the second read keeps the first read's keyboard side effect.
pub open spec fn ldi_post(pre: MachineView, post: MachineView, instr: u16, r: StepOutcome) -> bool {
    let dst = ((instr >> 9) & 0x7) as int;
    let a1 = pre.cpu.pc.wrapping_add(sext_spec(instr & 0x1FF, 9));
    if !read_ok(pre.input, pre.pos, a1) {
        r == StepOutcome::NeedInput && post == pre
    } else {
        let loc = read_result(pre.mem, pre.input, pre.pos, a1);
        let mem1 = mem_after_read(pre.mem, pre.input, pre.pos, a1);
        let pos1 = pos_after_read(pre.pos, a1);
        if !read_ok(pre.input, pos1, loc) {
            &&& r == StepOutcome::NeedInput
            &&& post.cpu == pre.cpu
            &&& post.mem == mem1
            &&& post.pos == pos1
            &&& post.input == pre.input
            &&& post.output == pre.output
        } else {
            let val = read_result(mem1, pre.input, pos1, loc);
            &&& r == StepOutcome::Continue
            &&& post.cpu.regs() == pre.cpu.regs().update(dst, val)
            &&& post.cpu.pc == pre.cpu.pc
            &&& post.cpu.cond == flag_for(val)
            &&& post.mem == mem_after_read(mem1, pre.input, pos1, loc)
            &&& post.pos == pos_after_read(pos1, loc)
            &&& post.input == pre.input
            &&& post.output == pre.output
        }
    }
}

/// A ST: the source register's word is stored at the program counter plus
/// the sign-extended 9-bit offset. No reads, so it never blocks.
pub open spec fn st_post_mem(cpu: CPU, pre_mem: Seq<u16>, post_mem: Seq<u16>, instr: u16) -> bool {
    let src = ((instr >> 9) & 0x7) as int;
    let addr = cpu.pc.wrapping_add(sext_spec(instr & 0x1FF, 9));
    post_mem == pre_mem.update(addr as int, cpu.reg_view(src))
}

/// A STR: like ST but the address is the base register plus the
/// sign-extended 6-bit offset.
pub open spec fn str_post_mem(cpu: CPU, pre_mem: Seq<u16>, post_mem: Seq<u16>, instr: u16) -> bool {
    let src = ((instr >> 9) & 0x7) as int;
    let addr = cpu.reg_view(((instr >> 6) & 0x7) as int).wrapping_add(sext_spec(instr & 0x3F, 6));
    post_mem == pre_mem.update(addr as int, cpu.reg_view(src))
}

/// A STI: a read at the program counter plus the sign-extended 9-bit
/// offset yields the target address, then the source register's word is
/// stored there. Blocks (machine unchanged) when the read would.
pub open spec fn sti_post(pre: MachineView, post: MachineView, instr: u16, r: StepOutcome) -> bool {
    let src = ((instr >> 9) & 0x7) as int;
    let a1 = pre.cpu.pc.wrapping_add(sext_spec(instr & 0x1FF, 9));
    if !read_ok(pre.input, pre.pos, a1) {
        r == StepOutcome::NeedInput && post == pre
    } else {
        let loc = read_result(pre.mem, pre.input, pre.pos, a1);
        let mem1 = mem_after_read(pre.mem, pre.input, pre.pos, a1);
        &&& r == StepOutcome::Continue
        &&& post.cpu == pre.cpu
        &&& post.mem == mem1.update(loc as int, pre.cpu.reg_view(src))
        &&& post.pos == pos_after_read(pre.pos, a1)
        &&& post.input == pre.input
        &&& post.output == pre.output
    }
}

/// The bytes one non-zero string word prints: the low byte alone for the
/// one-character-per-word traps, or the low byte followed by a non-zero
/// high byte for the packed trap.
pub open spec fn word_bytes(w: u16, packed: bool) -> Seq<u8> {
    if !packed {
        seq![w as u8]
    } else if w >> 8 == 0 {
        seq![(w & 0xFF) as u8]
    } else {
        seq![(w & 0xFF) as u8, (w >> 8) as u8]
    }
}

/// A string-printing run that has already read the non-terminator word `c`
/// at address `it`: emit its bytes, stop fatally at the last address, and
/// otherwise read the next word (with any keyboard side effect) and go on.
/// Returns the memory, input cursor, emitted bytes and how the run ended.
pub open spec fn puts_cont(
    mem: Seq<u16>,
    inp: Seq<u8>,
    pos: int,
    it: int,
    c: u16,
    packed: bool,
) -> (Seq<u16>, int, Seq<u8>, StringEnd)
    decreases 0xFFFF - it,
{
    if c == 0 {
        (mem, pos, Seq::<u8>::empty(), StringEnd::Done)
    } else if it < 0 || it >= 0xFFFF {
        (mem, pos, word_bytes(c, packed), StringEnd::Overflow)
    } else {
        let a2 = (it + 1) as u16;
        if !read_ok(inp, pos, a2) {
            (mem, pos, word_bytes(c, packed), StringEnd::Blocked)
        } else {
            let rest = puts_cont(
                mem_after_read(mem, inp, pos, a2),
                inp,
                pos_after_read(pos, a2),
                it + 1,
                read_result(mem, inp, pos, a2),
                packed,
            );
            (rest.0, rest.1, word_bytes(c, packed) + rest.2, rest.3)
        }
    }
}

/// A whole string-printing run starting with the read of the first word at
/// address `it` (the value in register 0).
pub open spec fn puts_run(
    mem: Seq<u16>,
    inp: Seq<u8>,
    pos: int,
    it: u16,
    packed: bool,
) -> (Seq<u16>, int, Seq<u8>, StringEnd) {
    if !read_ok(inp, pos, it) {
        (mem, pos, Seq::<u8>::empty(), StringEnd::Blocked)
    } else {
        puts_cont(
            mem_after_read(mem, inp, pos, it),
            inp,
            pos_after_read(pos, it),
            it as int,
            read_result(mem, inp, pos, it),
            packed,
        )
    }
}

/// A PUTS or PUTSP trap: registers untouched, and the run from register 0
/// determines the new memory, the input cursor, the appended output and
/// the outcome.
pub open spec fn puts_post(
    pre: MachineView,
    post: MachineView,
    packed: bool,
    r: StepOutcome,
) -> bool {
    let run = puts_run(pre.mem, pre.input, pre.pos, pre.cpu.r0, packed);
    &&& post.cpu == pre.cpu
    &&& post.mem == run.0
    &&& post.pos == run.1
    &&& post.input == pre.input
    &&& post.output == pre.output + run.2
    &&& r == match run.3 {
        StringEnd::Done => StepOutcome::Continue,
        StringEnd::Blocked => StepOutcome::NeedInput,
        StringEnd::Overflow => StepOutcome::UnterminatedString,
    }
}

/// A GETC trap: one console byte goes to register 0, zero-extended, with
/// no echo and no flag update. Blocks (machine unchanged) when no byte is
/// pending.
pub open spec fn getc_post(pre: MachineView, post: MachineView, r: StepOutcome) -> bool {
    if pre.pos < pre.input.len() {
        &&& r == StepOutcome::Continue
        &&& post.cpu.regs() == pre.cpu.regs().update(0, pre.input[pre.pos] as u16)
        &&& post.cpu.pc == pre.cpu.pc
        &&& post.cpu.cond == pre.cpu.cond
        &&& post.mem == pre.mem
        &&& post.input == pre.input
        &&& post.pos == pre.pos + 1
        &&& post.output == pre.output
    } else {
        r == StepOutcome::NeedInput && post == pre
    }
}

/// An OUT trap: the low byte of register 0 is printed.
pub open spec fn out_post(pre: MachineView, post: MachineView) -> bool {
    &&& post.cpu == pre.cpu
    &&& post.mem == pre.mem
    &&& post.input == pre.input
    &&& post.pos == pre.pos
    &&& post.output == pre.output.push(pre.cpu.r0 as u8)
}

/// The prompt the IN trap prints before reading.
pub open spec fn in_prompt() -> Seq<u8> {
    seq![0x45u8, 0x6E, 0x74, 0x65, 0x72, 0x20, 0x61, 0x20, 0x63, 0x68, 0x61, 0x72, 0x61, 0x63,
        0x74, 0x65, 0x72, 0x3A, 0x20]
}

/// An IN trap: the prompt is printed, one console byte is echoed and goes
/// to register 0. A block happens after the prompt; the caller unwinds it.
pub open spec fn in_post(pre: MachineView, post: MachineView, r: StepOutcome) -> bool {
    if pre.pos < pre.input.len() {
        let b = pre.input[pre.pos];
        &&& r == StepOutcome::Continue
        &&& post.cpu.regs() == pre.cpu.regs().update(0, b as u16)
        &&& post.cpu.pc == pre.cpu.pc
        &&& post.cpu.cond == pre.cpu.cond
        &&& post.mem == pre.mem
        &&& post.input == pre.input
        &&& post.pos == pre.pos + 1
        &&& post.output == pre.output + in_prompt() + seq![b]
    } else {
        &&& r == StepOutcome::NeedInput
        &&& post.cpu == pre.cpu
        &&& post.mem == pre.mem
        &&& post.input == pre.input
        &&& post.pos == pre.pos
        &&& post.output == pre.output + in_prompt()
    }
}

/// A HALT trap: the machine prints `HALT` and stops; nothing else changes,
/// and in particular no further instruction is fetched or executed.
pub open spec fn halt_post(pre: MachineView, post: MachineView) -> bool {
    &&& post.cpu == pre.cpu
    &&& post.mem == pre.mem
    &&& post.input == pre.input
    &&& post.pos == pre.pos
    &&& post.output == pre.output + seq![0x48u8, 0x41, 0x4C, 0x54]
}

/// The effect of a TRAP instruction with the given 8-bit vector.
pub open spec fn trap_post(
    pre: MachineView,
    post: MachineView,
    vector: u16,
    r: StepOutcome,
) -> bool {
    &&& vector == 0x20 ==> getc_post(pre, post, r)
    &&& vector == 0x21 ==> r == StepOutcome::Continue && out_post(pre, post)
    &&& vector == 0x22 ==> puts_post(pre, post, false, r)
    &&& vector == 0x23 ==> in_post(pre, post, r)
    &&& vector == 0x24 ==> puts_post(pre, post, true, r)
    &&& vector == 0x25 ==> r == StepOutcome::Halt && halt_post(pre, post)
    &&& !(0x20 <= vector <= 0x25) ==> r == StepOutcome::InvalidTrap && post == pre
}

/// The effect of executing one already-fetched instruction word on the
/// machine (the program counter has already been advanced by the fetch).
/// The two unimplemented opcodes fail fatally and change nothing.
pub open spec fn exec_post(
    pre: MachineView,
    post: MachineView,
    instr: u16,
    r: StepOutcome,
) -> bool {
    let op = instr >> 12;
    &&& op == 0x0 ==> r == StepOutcome::Continue && br_post(pre.cpu, post.cpu, instr)
        && same_world(pre, post)
    &&& op == 0x1 ==> r == StepOutcome::Continue && add_post(pre.cpu, post.cpu, instr)
        && same_world(pre, post)
    &&& op == 0x2 ==> ld_post(pre, post, instr, r)
    &&& op == 0x3 ==> r == StepOutcome::Continue && post.cpu == pre.cpu
        && st_post_mem(pre.cpu, pre.mem, post.mem, instr) && post.input == pre.input
        && post.pos == pre.pos && post.output == pre.output
    &&& op == 0x4 ==> r == StepOutcome::Continue && jsr_post(pre.cpu, post.cpu, instr)
        && same_world(pre, post)
    &&& op == 0x5 ==> r == StepOutcome::Continue && and_post(pre.cpu, post.cpu, instr)
        && same_world(pre, post)
    &&& op == 0x6 ==> ldr_post(pre, post, instr, r)
    &&& op == 0x7 ==> r == StepOutcome::Continue && post.cpu == pre.cpu
        && str_post_mem(pre.cpu, pre.mem, post.mem, instr) && post.input == pre.input
        && post.pos == pre.pos && post.output == pre.output
    &&& op == 0x8 ==> r == StepOutcome::IllegalOpcode && post == pre
    &&& op == 0x9 ==> r == StepOutcome::Continue && not_post(pre.cpu, post.cpu, instr)
        && same_world(pre, post)
    &&& op == 0xA ==> ldi_post(pre, post, instr, r)
    &&& op == 0xB ==> sti_post(pre, post, instr, r)
    &&& op == 0xC ==> r == StepOutcome::Continue && jmp_post(pre.cpu, post.cpu, instr)
        && same_world(pre, post)
    &&& op == 0xD ==> r == StepOutcome::IllegalOpcode && post == pre
    &&& op == 0xE ==> r == StepOutcome::Continue && lea_post(pre.cpu, post.cpu, instr)
        && same_world(pre, post)
    &&& op == 0xF ==> trap_post(pre, post, instr & 0xFF, r)
}

/// When an instruction blocks waiting for input, its partial effects are
/// confined: memory outside the two keyboard registers is untouched, the
/// input bytes are intact with the cursor only moved forward, and the old
/// output is a prefix of the new.
pub open spec fn blocked_frame(pre: MachineView, post: MachineView) -> bool {
    &&& post.mem.len() == pre.mem.len()
    &&& forall|a: int|
        0 <= a < pre.mem.len() && a != KBSR as int && a != KBDR as int ==> post.mem[a] == pre.mem[a]
    &&& post.input == pre.input
    &&& pre.pos <= post.pos <= pre.input.len()
    &&& post.output.len() >= pre.output.len()
    &&& post.output.subrange(0, pre.output.len() as int) == pre.output
}

/// The exact conditions under which one machine cycle blocks waiting for
/// console input: either the fetch itself polls the keyboard status
/// register with no byte pending, or the fetched instruction's own
/// console-consuming read finds no byte — a load whose address is the
/// status register, the keyboard-reading traps, or a string trap whose
/// run ends blocked. A cycle that needs no input never satisfies this.
pub open spec fn step_blocks(pre: MachineView) -> bool {
    if !read_ok(pre.input, pre.pos, pre.cpu.pc) {
        true
    } else {
        let instr = read_result(pre.mem, pre.input, pre.pos, pre.cpu.pc);
        let mem1 = mem_after_read(pre.mem, pre.input, pre.pos, pre.cpu.pc);
        let pos1 = pos_after_read(pre.pos, pre.cpu.pc);
        let pc1 = pre.cpu.pc.wrapping_add(1);
        let op = instr >> 12;
        if op == 0x2 {
            !read_ok(pre.input, pos1, pc1.wrapping_add(sext_spec(instr & 0x1FF, 9)))
        } else if op == 0x6 {
            !read_ok(pre.input, pos1, pre.cpu.reg_view(((instr >> 6) & 0x7) as int).wrapping_add(
                sext_spec(instr & 0x3F, 6)))
        } else if op == 0xA {
            let a1 = pc1.wrapping_add(sext_spec(instr & 0x1FF, 9));
            if !read_ok(pre.input, pos1, a1) {
                true
            } else {
                !read_ok(
                    pre.input,
                    pos_after_read(pos1, a1),
                    read_result(mem1, pre.input, pos1, a1),
                )
            }
        } else if op == 0xB {
            !read_ok(pre.input, pos1, pc1.wrapping_add(sext_spec(instr & 0x1FF, 9)))
        } else if op == 0xF {
            let vector = instr & 0xFF;
            if vector == 0x20 || vector == 0x23 {
                pos1 >= pre.input.len()
            } else if vector == 0x22 {
                puts_run(mem1, pre.input, pos1, pre.cpu.r0, false).3 is Blocked
            } else if vector == 0x24 {
                puts_run(mem1, pre.input, pos1, pre.cpu.r0, true).3 is Blocked
            } else {
                false
            }
        } else {
            false
        }
    }
}

/// Executing a fetched instruction reports `NeedInput` exactly when the
/// blocking conditions that [`step_blocks`] computes from the pre-fetch
/// snapshot hold.
proof fn lemma_exec_blocks(
    pre: MachineView,
    mid: MachineView,
    post: MachineView,
    instr: u16,
    r: StepOutcome,
)
    requires
        read_ok(pre.input, pre.pos, pre.cpu.pc),
        instr == read_result(pre.mem, pre.input, pre.pos, pre.cpu.pc),
        mid.cpu == (CPU { pc: pre.cpu.pc.wrapping_add(1), ..pre.cpu }),
        mid.mem == mem_after_read(pre.mem, pre.input, pre.pos, pre.cpu.pc),
        mid.pos == pos_after_read(pre.pos, pre.cpu.pc),
        mid.input == pre.input,
        exec_post(mid, post, instr, r),
    ensures
        r == StepOutcome::NeedInput <==> step_blocks(pre),
{
    assert(instr >> 12 <= 0xF) by (bit_vector);
    assert((instr >> 6) & 0x7 < 8) by (bit_vector);
    let op = instr >> 12;
    let mem1 = mem_after_read(pre.mem, pre.input, pre.pos, pre.cpu.pc);
    let pos1 = pos_after_read(pre.pos, pre.cpu.pc);
    let pc1 = pre.cpu.pc.wrapping_add(1);
    let blocked = step_blocks(pre);
    assert(forall|i: int| 0 <= i < 8 ==> mid.cpu.reg_view(i) == pre.cpu.reg_view(i));
    assert(mid.cpu.r0 == pre.cpu.r0);
    if op == 0x2 {
        assert(blocked <==> r == StepOutcome::NeedInput);
    } else if op == 0x6 {
        assert(blocked <==> r == StepOutcome::NeedInput);
    } else if op == 0xA {
        let a1 = pc1.wrapping_add(sext_spec(instr & 0x1FF, 9));
        if read_ok(pre.input, pos1, a1) {
            let loc = read_result(mem1, pre.input, pos1, a1);
            assert(r == StepOutcome::NeedInput
                <==> !read_ok(pre.input, pos_after_read(pos1, a1), loc));
        }
        assert(blocked <==> r == StepOutcome::NeedInput);
    } else if op == 0xB {
        assert(blocked <==> r == StepOutcome::NeedInput);
    } else if op == 0xF {
        let vector = instr & 0xFF;
        if vector == 0x20 || vector == 0x23 {
            assert(blocked <==> r == StepOutcome::NeedInput);
        } else if vector == 0x22 {
            let run = puts_run(mem1, pre.input, pos1, pre.cpu.r0, false);
            if run.3 is Blocked {
                assert(r == StepOutcome::NeedInput);
            } else {
                assert(r != StepOutcome::NeedInput);
            }
            assert(blocked <==> r == StepOutcome::NeedInput);
        } else if vector == 0x24 {
            let run = puts_run(mem1, pre.input, pos1, pre.cpu.r0, true);
            if run.3 is Blocked {
                assert(r == StepOutcome::NeedInput);
            } else {
                assert(r != StepOutcome::NeedInput);
            }
            assert(blocked <==> r == StepOutcome::NeedInput);
        } else {
            assert(!blocked && r != StepOutcome::NeedInput);
        }
    } else {
        assert(!blocked && r != StepOutcome::NeedInput);
    }
}

/// One whole machine cycle: if the fetch at the program counter can
/// complete, the counter advances by one (with wraparound) and the fetched
/// word executes from that advanced state. `NeedInput` is reported exactly
/// on the cycles that genuinely block for console input ([`step_blocks`]),
/// and such a cycle leaves the machine exactly as it was.
pub open spec fn step_post(pre: MachineView, post: MachineView, r: StepOutcome) -> bool {
    if r == StepOutcome::NeedInput {
        post == pre && step_blocks(pre)
    } else {
        &&& !step_blocks(pre)
        &&& read_ok(pre.input, pre.pos, pre.cpu.pc)
        &&& {
            let instr = read_result(pre.mem, pre.input, pre.pos, pre.cpu.pc);
            let mid = MachineView {
                cpu: CPU { pc: pre.cpu.pc.wrapping_add(1), ..pre.cpu },
                mem: mem_after_read(pre.mem, pre.input, pre.pos, pre.cpu.pc),
                pos: pos_after_read(pre.pos, pre.cpu.pc),
                input: pre.input,
                output: pre.output,
            };
            exec_post(mid, post, instr, r)
        }
    }
}

/// The program counter advances before a PC-relative offset applies: a
/// taken branch whose word was fetched at address `A` lands at
/// `(A + 1) + offset` (mod the address space), not at `A + offset`.
pub proof fn lemma_pc_advance_before_branch(
    pre: MachineView,
    post: MachineView,
    instr: u16,
    r: StepOutcome,
)
    requires
        step_post(pre, post, r),
        r != StepOutcome::NeedInput,
        instr == read_result(pre.mem, pre.input, pre.pos, pre.cpu.pc),
        instr >> 12 == 0x0,
        pre.cpu.cond & ((instr >> 9) & 0x7) > 0,
    ensures
        r == StepOutcome::Continue,
        post.cpu.pc == pre.cpu.pc.wrapping_add(1).wrapping_add(sext_spec(instr & 0x1FF, 9)),
{
}

/// The same advance-before-execute rule seen through LEA: the address it
/// writes is relative to the already-advanced program counter.
pub proof fn lemma_pc_advance_before_lea(
    pre: MachineView,
    post: MachineView,
    instr: u16,
    r: StepOutcome,
)
    requires
        step_post(pre, post, r),
        r != StepOutcome::NeedInput,
        instr == read_result(pre.mem, pre.input, pre.pos, pre.cpu.pc),
        instr >> 12 == 0xE,
    ensures
        r == StepOutcome::Continue,
        post.cpu.regs()[((instr >> 9) & 0x7) as int]
            == pre.cpu.pc.wrapping_add(1).wrapping_add(sext_spec(instr & 0x1FF, 9)),
{
    assert((instr >> 9) & 0x7 < 8) by (bit_vector);
}

/// The halt trap terminates with the distinguished `Halt` outcome, prints
/// only the halt marker and touches no register or memory word, so no
/// further instruction is fetched or executed afterwards.
pub proof fn lemma_halt_stops(pre: MachineView, post: MachineView, instr: u16, r: StepOutcome)
    requires
        step_post(pre, post, r),
        r != StepOutcome::NeedInput,
        instr == read_result(pre.mem, pre.input, pre.pos, pre.cpu.pc),
        instr >> 12 == 0xF,
        instr & 0xFF == 0x25,
    ensures
        r == StepOutcome::Halt,
        post.cpu.regs() == pre.cpu.regs(),
        post.cpu.cond == pre.cpu.cond,
        post.mem == mem_after_read(pre.mem, pre.input, pre.pos, pre.cpu.pc),
        post.output == pre.output + seq![0x48u8, 0x41, 0x4C, 0x54],
{
}

/// Executing either of the two unimplemented opcodes is fatal: the outcome
/// is `IllegalOpcode`, never a silent no-op that continues, and the
/// machine performs no register write, memory write or output.
pub proof fn lemma_illegal_opcode_fatal(
    pre: MachineView,
    post: MachineView,
    instr: u16,
    r: StepOutcome,
)
    requires
        step_post(pre, post, r),
        r != StepOutcome::NeedInput,
        instr == read_result(pre.mem, pre.input, pre.pos, pre.cpu.pc),
        instr >> 12 == 0x8 || instr >> 12 == 0xD,
    ensures
        r == StepOutcome::IllegalOpcode,
        post.cpu.regs() == pre.cpu.regs(),
        post.cpu.cond == pre.cpu.cond,
        post.mem == mem_after_read(pre.mem, pre.input, pre.pos, pre.cpu.pc),
        post.output == pre.output,
{
}

/// After any completed flag-updating instruction (the arithmetic, logic
/// and load instructions), exactly one condition flag is active.
pub proof fn lemma_one_flag_after_update(
    pre: MachineView,
    post: MachineView,
    instr: u16,
    r: StepOutcome,
)
    requires
        step_post(pre, post, r),
        r == StepOutcome::Continue,
        instr == read_result(pre.mem, pre.input, pre.pos, pre.cpu.pc),
        instr >> 12 == 0x1 || instr >> 12 == 0x5 || instr >> 12 == 0x9 || instr >> 12 == 0x2
            || instr >> 12 == 0x6 || instr >> 12 == 0xA || instr >> 12 == 0xE,
    ensures
        post.cpu.cond == 1 || post.cpu.cond == 2 || post.cpu.cond == 4,
{
}

impl CPU {
    /// The eight general-purpose registers as a sequence.
    pub open spec fn regs(&self) -> Seq<u16> {
        seq![self.r0, self.r1, self.r2, self.r3, self.r4, self.r5, self.r6, self.r7]
    }

    /// The register selected by index `i`: 0-7 the general-purpose
    /// registers, 8 the program counter, 9 the condition flags.
    pub open spec fn reg_view(&self, i: int) -> u16 {
        if 0 <= i < 8 {
            self.regs()[i]
        } else if i == 8 {
            self.pc
        } else {
            self.cond
        }
    }

    /// Returns a CPU with every register zero except the program counter,
    /// which starts at the default load origin `0x3000`.
    pub fn new() -> (c: Self)
        ensures
            c.regs() == seq![0u16, 0u16, 0u16, 0u16, 0u16, 0u16, 0u16, 0u16],
            c.pc == 0x3000,
            c.cond == 0,
    {
        CPU { r0: 0, r1: 0, r2: 0, r3: 0, r4: 0, r5: 0, r6: 0, r7: 0, pc: 0x3000, cond: 0 }
    }

    /// Advances the program counter by one, wrapping at the end of the
    /// address space.
    pub fn next_instruction(&mut self)
        ensures
            final(self).regs() == old(self).regs(),
            final(self).cond == old(self).cond,
            final(self).pc == old(self).pc.wrapping_add(1),
    {
        self.pc = self.pc.wrapping_add(1);
        proof {
            assert(self.regs() =~= old(self).regs());
        }
    }

    /// Records the condition flags for a value just written to a register.
    pub fn set_cond(&mut self, r: u16)
        ensures
            final(self).regs() == old(self).regs(),
            final(self).pc == old(self).pc,
            final(self).cond == flag_for(r),
    {
        if r == 0 {
            self.cond = Condition::FlZro.value();
        } else if (r >> 15) & 0x1 == 1 {
            self.cond = Condition::FlNeg.value();
        } else {
            self.cond = Condition::FlPos.value();
        }
        proof {
            assert((r >> 15) & 0x1 == 1 <==> r >= 0x8000) by (bit_vector);
            assert(self.regs() =~= old(self).regs());
        }
    }

    /// Sign-extends the `c` low bits of `v` in place.
    pub fn sign_extend(v: &mut u16, c: u32)
        requires
            1 <= c <= 15,
        ensures
            *final(v) == sext_spec(*old(v), c),
    {
        if (*v >> ((c - 1) as u16)) & 0x1 == 1 {
            *v |= 0xFFFF << (c as u16);
        }
    }

    /// A mutable borrow of the register selected by `i` (0-7 the
    /// general-purpose registers, 8 the program counter, 9 the flags).
    /// Indices above 9 denote no register and are rejected by the caller.
    pub fn register_from_mut(&mut self, i: u8) -> (r: &mut u16)
        requires
            i <= 9,
        ensures
            *r == old(self).reg_view(i as int),
            i < 8 ==> final(self).regs()[i as int] == *final(r)
                && (forall|j: int| 0 <= j < 8 && j != i ==> final(self).regs()[j]
                    == old(self).regs()[j])
                && final(self).pc == old(self).pc
                && final(self).cond == old(self).cond,
            i == 8 ==> final(self).regs() == old(self).regs()
                && final(self).pc == *final(r)
                && final(self).cond == old(self).cond,
            i == 9 ==> final(self).regs() == old(self).regs()
                && final(self).pc == old(self).pc
                && final(self).cond == *final(r),
    {
        match i {
            0 => &mut self.r0,
            1 => &mut self.r1,
            2 => &mut self.r2,
            3 => &mut self.r3,
            4 => &mut self.r4,
            5 => &mut self.r5,
            6 => &mut self.r6,
            7 => &mut self.r7,
            8 => &mut self.pc,
            _ => &mut self.cond,
        }
    }

    /// A shared borrow of the register selected by `i`, numbered as in
    /// `register_from_mut`. Indices above 9 are rejected by the caller.
    pub fn register_from(&self, i: u8) -> (r: &u16)
        requires
            i <= 9,
        ensures
            *r == self.reg_view(i as int),
    {
        match i {
            0 => &self.r0,
            1 => &self.r1,
            2 => &self.r2,
            3 => &self.r3,
            4 => &self.r4,
            5 => &self.r5,
            6 => &self.r6,
            7 => &self.r7,
            8 => &self.pc,
            _ => &self.cond,
        }
    }
}

/// A concatenation starts with its left operand.
pub proof fn lemma_concat_prefix(a: Seq<u8>, b: Seq<u8>)
    ensures
        (a + b).len() == a.len() + b.len(),
        (a + b).subrange(0, a.len() as int) == a,
{
    assert((a + b).subrange(0, a.len() as int) =~= a);
}

/// A sequence of eight words that agrees with `pre` everywhere but at `i`,
/// where it holds `v`, is the update of `pre` at `i`.
pub proof fn lemma_regs_update(pre: Seq<u16>, post: Seq<u16>, i: int, v: u16)
    requires
        pre.len() == 8,
        post.len() == 8,
        0 <= i < 8,
        post[i] == v,
        forall|j: int| 0 <= j < 8 && j != i ==> post[j] == pre[j],
    ensures
        post == pre.update(i, v),
{
    assert(post =~= pre.update(i, v));
}

// The instruction handlers. Each one executes a single already-fetched
// instruction word against the register file (and, where the instruction
// touches memory or the console, against those); its contract is the spec
// predicate of the same name.
impl CPU {
    /// Executes an ADD instruction word.
    pub fn add(&mut self, instr: u16)
        ensures
            add_post(*old(self), *final(self), instr),
    {
        proof {
            assert((instr >> 9) & 0x7 < 8 && (instr >> 6) & 0x7 < 8 && instr & 0x7 < 8)
                by (bit_vector);
        }
        let dst: u8 = ((instr >> 9) & 0x7) as u8;
        let left: u16 = *self.register_from(((instr >> 6) & 0x7) as u8);

        if (instr >> 5) & 0x1 == 1 {
            let mut imm_5: u16 = instr & 0x1F;
            CPU::sign_extend(&mut imm_5, 5);
            *self.register_from_mut(dst) = left.wrapping_add(imm_5);
        } else {
            let right: u16 = *self.register_from((instr & 0x7) as u8);
            *self.register_from_mut(dst) = left.wrapping_add(right);
        }

        let written: u16 = *self.register_from(dst);
        self.set_cond(written);
        proof {
            lemma_regs_update(old(self).regs(), self.regs(), dst as int, written);
        }
    }

    /// Executes an AND instruction word.
    pub fn bitwise_and(&mut self, instr: u16)
        ensures
            and_post(*old(self), *final(self), instr),
    {
        proof {
            assert((instr >> 9) & 0x7 < 8 && (instr >> 6) & 0x7 < 8 && instr & 0x7 < 8)
                by (bit_vector);
        }
        let dst: u8 = ((instr >> 9) & 0x7) as u8;
        let left: u16 = *self.register_from(((instr >> 6) & 0x7) as u8);

        if (instr >> 5) & 0x1 == 1 {
            let mut imm_5: u16 = instr & 0x1F;
            CPU::sign_extend(&mut imm_5, 5);
            *self.register_from_mut(dst) = left & imm_5;
        } else {
            let right: u16 = *self.register_from((instr & 0x7) as u8);
            *self.register_from_mut(dst) = left & right;
        }

        let written: u16 = *self.register_from(dst);
        self.set_cond(written);
        proof {
            lemma_regs_update(old(self).regs(), self.regs(), dst as int, written);
        }
    }

    /// Executes a NOT instruction word.
    pub fn bitwise_not(&mut self, instr: u16)
        ensures
            not_post(*old(self), *final(self), instr),
    {
        proof {
            assert((instr >> 9) & 0x7 < 8 && (instr >> 6) & 0x7 < 8) by (bit_vector);
        }
        let dst: u8 = ((instr >> 9) & 0x7) as u8;
        let left: u16 = *self.register_from(((instr >> 6) & 0x7) as u8);

        *self.register_from_mut(dst) = !left;

        let written: u16 = *self.register_from(dst);
        self.set_cond(written);
        proof {
            lemma_regs_update(old(self).regs(), self.regs(), dst as int, written);
        }
    }

    /// Executes a BR instruction word.
    pub fn branch(&mut self, instr: u16)
        ensures
            br_post(*old(self), *final(self), instr),
    {
        let mut offset: u16 = instr & 0x1FF;
        CPU::sign_extend(&mut offset, 9);

        let cond: u16 = (instr >> 9) & 0x7;

        if (self.cond & cond) > 0x0 {
            self.pc = self.pc.wrapping_add(offset);
        }
    }

    /// Executes a JMP (or RET) instruction word.
    pub fn jump(&mut self, instr: u16)
        ensures
            jmp_post(*old(self), *final(self), instr),
    {
        proof {
            assert((instr >> 6) & 0x7 < 8) by (bit_vector);
        }
        let reg: u8 = ((instr >> 6) & 0x7) as u8;
        self.pc = *self.register_from(reg);
    }

    /// Executes a JSR or JSRR instruction word.
    pub fn jump_register(&mut self, instr: u16)
        ensures
            jsr_post(*old(self), *final(self), instr),
    {
        proof {
            assert((instr >> 6) & 0x7 < 8) by (bit_vector);
        }
        self.r7 = self.pc;
        proof {
            lemma_regs_update(old(self).regs(), self.regs(), 7, old(self).pc);
        }

        if (instr >> 11) & 0x1 == 0x1 {
            let mut offset: u16 = instr & 0x7FF;
            CPU::sign_extend(&mut offset, 11);

            self.pc = self.pc.wrapping_add(offset);
        } else {
            let base: u8 = ((instr >> 6) & 0x7) as u8;
            self.pc = *self.register_from(base);
        }
    }

    /// Executes a LD instruction word against memory.
    pub fn load(&mut self, instr: u16, m: &mut Memory, con: &mut Console) -> (r: StepOutcome)
        requires
            old(m).wf(),
            old(con).wf(),
        ensures
            final(m).wf(),
            final(con).wf(),
            ld_post(
                mview(*old(self), *old(m), *old(con)),
                mview(*final(self), *final(m), *final(con)),
                instr,
                r,
            ),
            r == StepOutcome::NeedInput ==> blocked_frame(
                mview(*old(self), *old(m), *old(con)),
                mview(*final(self), *final(m), *final(con)),
            ),
    {
        proof {
            assert((instr >> 9) & 0x7 < 8) by (bit_vector);
        }
        let dest: u8 = ((instr >> 9) & 0x7) as u8;
        let mut offset: u16 = instr & 0x1FF;
        CPU::sign_extend(&mut offset, 9);
        let addr: u16 = self.pc.wrapping_add(offset);

        match m.memory_read(addr, con) {
            None => {
                proof {
                    assert(con.output@.subrange(0, con.output@.len() as int) =~= con.output@);
                    assert(mview(*self, *m, *con) =~= mview(*old(self), *old(m), *old(con)));
                }
                StepOutcome::NeedInput
            }
            Some(val) => {
                *self.register_from_mut(dest) = val;
                let written: u16 = *self.register_from(dest);
                self.set_cond(written);
                proof {
                    lemma_regs_update(old(self).regs(), self.regs(), dest as int, written);
                }
                StepOutcome::Continue
            }
        }
    }

    /// Executes a LDR instruction word against memory.
    pub fn load_register(&mut self, instr: u16, m: &mut Memory, con: &mut Console) -> (r:
        StepOutcome)
        requires
            old(m).wf(),
            old(con).wf(),
        ensures
            final(m).wf(),
            final(con).wf(),
            ldr_post(
                mview(*old(self), *old(m), *old(con)),
                mview(*final(self), *final(m), *final(con)),
                instr,
                r,
            ),
            r == StepOutcome::NeedInput ==> blocked_frame(
                mview(*old(self), *old(m), *old(con)),
                mview(*final(self), *final(m), *final(con)),
            ),
    {
        proof {
            assert((instr >> 9) & 0x7 < 8 && (instr >> 6) & 0x7 < 8) by (bit_vector);
        }
        let dest: u8 = ((instr >> 9) & 0x7) as u8;
        let base_reg: u8 = ((instr >> 6) & 0x7) as u8;
        let mut offset: u16 = instr & 0x3F;
        CPU::sign_extend(&mut offset, 6);
        let addr: u16 = self.register_from(base_reg).wrapping_add(offset);

        match m.memory_read(addr, con) {
            None => {
                proof {
                    assert(con.output@.subrange(0, con.output@.len() as int) =~= con.output@);
                    assert(mview(*self, *m, *con) =~= mview(*old(self), *old(m), *old(con)));
                }
                StepOutcome::NeedInput
            }
            Some(val) => {
                *self.register_from_mut(dest) = val;
                let written: u16 = *self.register_from(dest);
                self.set_cond(written);
                proof {
                    lemma_regs_update(old(self).regs(), self.regs(), dest as int, written);
                }
                StepOutcome::Continue
            }
        }
    }

    /// Executes a LDI instruction word against memory.
    pub fn load_indirect(&mut self, instr: u16, m: &mut Memory, con: &mut Console) -> (r:
        StepOutcome)
        requires
            old(m).wf(),
            old(con).wf(),
        ensures
            final(m).wf(),
            final(con).wf(),
            ldi_post(
                mview(*old(self), *old(m), *old(con)),
                mview(*final(self), *final(m), *final(con)),
                instr,
                r,
            ),
            r == StepOutcome::NeedInput ==> blocked_frame(
                mview(*old(self), *old(m), *old(con)),
                mview(*final(self), *final(m), *final(con)),
            ),
    {
        proof {
            assert((instr >> 9) & 0x7 < 8) by (bit_vector);
        }
        let dst: u8 = ((instr >> 9) & 0x7) as u8;
        let mut offset: u16 = instr & 0x1FF;
        CPU::sign_extend(&mut offset, 9);
        let a1: u16 = self.pc.wrapping_add(offset);

        match m.memory_read(a1, con) {
            None => {
                proof {
                    assert(con.output@.subrange(0, con.output@.len() as int) =~= con.output@);
                    assert(mview(*self, *m, *con) =~= mview(*old(self), *old(m), *old(con)));
                }
                StepOutcome::NeedInput
            }
            Some(loc) => {
                match m.memory_read(loc, con) {
                    None => {
                        proof {
                            assert(con.output@.subrange(0, con.output@.len() as int)
                                =~= con.output@);
                            crate::memory::lemma_read_frame(
                                old(m)@, old(con).input@, old(con).pos as int, a1);
                        }
                        StepOutcome::NeedInput
                    }
                    Some(val) => {
                        *self.register_from_mut(dst) = val;
                        let written: u16 = *self.register_from(dst);
                        self.set_cond(written);
                        proof {
                            lemma_regs_update(
                                old(self).regs(), self.regs(), dst as int, written);
                            crate::memory::lemma_read_frame(
                                old(m)@, old(con).input@, old(con).pos as int, a1);
                        }
                        StepOutcome::Continue
                    }
                }
            }
        }
    }

    /// Executes a LEA instruction word.
    pub fn load_effective_address(&mut self, instr: u16)
        ensures
            lea_post(*old(self), *final(self), instr),
    {
        proof {
            assert((instr >> 9) & 0x7 < 8) by (bit_vector);
        }
        let dest: u8 = ((instr >> 9) & 0x7) as u8;
        let mut offset: u16 = instr & 0x1FF;
        CPU::sign_extend(&mut offset, 9);

        *self.register_from_mut(dest) = self.pc.wrapping_add(offset);
        let written: u16 = *self.register_from(dest);
        self.set_cond(written);
        proof {
            lemma_regs_update(old(self).regs(), self.regs(), dest as int, written);
        }
    }

    /// Executes a ST instruction word against memory.
    pub fn store(&mut self, instr: u16, m: &mut Memory)
        requires
            old(m).wf(),
        ensures
            final(m).wf(),
            *final(self) == *old(self),
            st_post_mem(*old(self), old(m)@, final(m)@, instr),
    {
        proof {
            assert((instr >> 9) & 0x7 < 8) by (bit_vector);
        }
        let src: u8 = ((instr >> 9) & 0x7) as u8;
        let mut offset: u16 = instr & 0x1FF;
        CPU::sign_extend(&mut offset, 9);

        m.memory_write(self.pc.wrapping_add(offset), *self.register_from(src));
    }

    /// Executes a STI instruction word against memory.
    pub fn store_indirect(&mut self, instr: u16, m: &mut Memory, con: &mut Console) -> (r:
        StepOutcome)
        requires
            old(m).wf(),
            old(con).wf(),
        ensures
            final(m).wf(),
            final(con).wf(),
            sti_post(
                mview(*old(self), *old(m), *old(con)),
                mview(*final(self), *final(m), *final(con)),
                instr,
                r,
            ),
            r == StepOutcome::NeedInput ==> blocked_frame(
                mview(*old(self), *old(m), *old(con)),
                mview(*final(self), *final(m), *final(con)),
            ),
    {
        proof {
            assert((instr >> 9) & 0x7 < 8) by (bit_vector);
        }
        let src: u8 = ((instr >> 9) & 0x7) as u8;
        let mut offset: u16 = instr & 0x1FF;
        CPU::sign_extend(&mut offset, 9);
        let a1: u16 = self.pc.wrapping_add(offset);

        match m.memory_read(a1, con) {
            None => {
                proof {
                    assert(con.output@.subrange(0, con.output@.len() as int) =~= con.output@);
                    assert(mview(*self, *m, *con) =~= mview(*old(self), *old(m), *old(con)));
                }
                StepOutcome::NeedInput
            }
            Some(loc) => {
                m.memory_write(loc, *self.register_from(src));
                StepOutcome::Continue
            }
        }
    }

    /// Executes a STR instruction word against memory.
    pub fn store_register(&mut self, instr: u16, m: &mut Memory)
        requires
            old(m).wf(),
        ensures
            final(m).wf(),
            *final(self) == *old(self),
            str_post_mem(*old(self), old(m)@, final(m)@, instr),
    {
        proof {
            assert((instr >> 9) & 0x7 < 8 && (instr >> 6) & 0x7 < 8) by (bit_vector);
        }
        let src: u8 = ((instr >> 9) & 0x7) as u8;
        let base_reg: u8 = ((instr >> 6) & 0x7) as u8;
        let mut offset: u16 = instr & 0x3F;
        CPU::sign_extend(&mut offset, 6);

        m.memory_write(
            self.register_from(base_reg).wrapping_add(offset),
            *self.register_from(src),
        );
    }
}

// The trap routines.
impl CPU {
    /// Shared body of the two string-printing traps: prints the words from
    /// the address in register 0 up to the zero terminator, one character
    /// per word, or two packed characters per word when `packed` is set.
    fn put_string(&self, m: &mut Memory, con: &mut Console, packed: bool) -> (r: StepOutcome)
        requires
            old(m).wf(),
            old(con).wf(),
        ensures
            final(m).wf(),
            final(con).wf(),
            puts_post(
                mview(*self, *old(m), *old(con)),
                mview(*self, *final(m), *final(con)),
                packed,
                r,
            ),
            r == StepOutcome::NeedInput ==> blocked_frame(
                mview(*self, *old(m), *old(con)),
                mview(*self, *final(m), *final(con)),
            ),
    {
        let ghost inp = old(con).input@;
        let ghost pos0 = old(con).pos as int;
        let ghost mem0 = old(m)@;
        let ghost out0 = old(con).output@;
        let ghost len0 = old(con).output@.len() as int;
        let ghost target = puts_run(mem0, inp, pos0, self.r0, packed);
        let ghost mut emitted = Seq::<u8>::empty();

        let it0: u16 = self.r0;
        match m.memory_read(it0, con) {
            None => {
                proof {
                    assert(con.output@.subrange(0, len0) =~= con.output@);
                    assert(con.output@ =~= out0 + Seq::<u8>::empty());
                }
                StepOutcome::NeedInput
            }
            Some(first_c) => {
                let mut it: u16 = it0;
                let mut c: u16 = first_c;
                proof {
                    crate::memory::lemma_read_frame(mem0, inp, pos0, it0);
                    assert(con.output@ =~= out0 + emitted);
                    let cur = puts_cont(m@, inp, con.pos as int, it as int, c, packed);
                    assert(emitted + cur.2 =~= cur.2);
                }
                while c != 0
                    invariant
                        m.wf(),
                        con.wf(),
                        inp == old(con).input@,
                        mem0 == old(m)@,
                        out0 == old(con).output@,
                        pos0 == old(con).pos as int,
                        len0 == out0.len() as int,
                        mem0.len() == MEMORY_WORDS,
                        target == puts_run(mem0, inp, pos0, self.r0, packed),
                        con.input@ == inp,
                        con.output@ == out0 + emitted,
                        pos0 <= con.pos as int <= inp.len(),
                        forall|a: int|
                            0 <= a < m@.len() && a != KBSR as int && a != KBDR as int
                                ==> m@[a] == mem0[a],
                        target == ({
                            let cur = puts_cont(m@, inp, con.pos as int, it as int, c, packed);
                            (cur.0, cur.1, emitted + cur.2, cur.3)
                        }),
                    decreases 0xFFFFu16 - it,
                {
                    let ghost mem_h = m@;
                    let ghost pos_h = con.pos as int;
                    let ghost c_h = c;
                    let ghost emitted_h = emitted;

                    if !packed {
                        con.write_byte(c as u8);
                        proof {
                            emitted = emitted.push(c as u8);
                            assert(con.output@ =~= out0 + emitted);
                        }
                    } else {
                        con.write_byte((c & 0xFF) as u8);
                        proof {
                            emitted = emitted.push((c & 0xFF) as u8);
                            assert(con.output@ =~= out0 + emitted);
                        }
                        let c2: u16 = c >> 8;
                        if c2 != 0 {
                            con.write_byte(c2 as u8);
                            proof {
                                emitted = emitted.push(c2 as u8);
                                assert(con.output@ =~= out0 + emitted);
                            }
                        }
                    }
                    proof {
                        assert(emitted =~= emitted_h + word_bytes(c_h, packed));
                    }

                    if it == 0xFFFF {
                        proof {
                            assert(puts_cont(mem_h, inp, pos_h, it as int, c_h, packed)
                                == (mem_h, pos_h, word_bytes(c_h, packed),
                                    StringEnd::Overflow));
                        }
                        return StepOutcome::UnterminatedString;
                    }
                    it = it + 1;
                    match m.memory_read(it, con) {
                        None => {
                            proof {
                                assert(puts_cont(mem_h, inp, pos_h, it as int - 1, c_h,
                                    packed) == (mem_h, pos_h, word_bytes(c_h, packed),
                                    StringEnd::Blocked));
                                lemma_concat_prefix(out0, emitted);
                            }
                            return StepOutcome::NeedInput;
                        }
                        Some(next_c) => {
                            c = next_c;
                            proof {
                                crate::memory::lemma_read_frame(mem_h, inp, pos_h, it);
                                let rest = puts_cont(
                                    m@, inp, con.pos as int, it as int, c, packed);
                                assert(puts_cont(mem_h, inp, pos_h, it as int - 1, c_h,
                                    packed) == (rest.0, rest.1,
                                    word_bytes(c_h, packed) + rest.2, rest.3));
                                assert(emitted_h + (word_bytes(c_h, packed) + rest.2)
                                    =~= (emitted_h + word_bytes(c_h, packed)) + rest.2);
                            }
                        }
                    }
                }
                proof {
                    let cur = puts_cont(m@, inp, con.pos as int, it as int, c, packed);
                    assert(emitted + cur.2 =~= emitted);
                }
                StepOutcome::Continue
            }
        }
    }

    /// The PUTS trap: prints the string of one character per word starting
    /// at the address in register 0, up to the zero terminator.
    pub fn put_s(&self, m: &mut Memory, con: &mut Console) -> (r: StepOutcome)
        requires
            old(m).wf(),
            old(con).wf(),
        ensures
            final(m).wf(),
            final(con).wf(),
            puts_post(
                mview(*self, *old(m), *old(con)),
                mview(*self, *final(m), *final(con)),
                false,
                r,
            ),
            r == StepOutcome::NeedInput ==> blocked_frame(
                mview(*self, *old(m), *old(con)),
                mview(*self, *final(m), *final(con)),
            ),
    {
        self.put_string(m, con, false)
    }

    /// The PUTSP trap: like PUTS but with two packed characters per word,
    /// low byte first and the high byte only when it is non-zero.
    pub fn put_sp(&self, m: &mut Memory, con: &mut Console) -> (r: StepOutcome)
        requires
            old(m).wf(),
            old(con).wf(),
        ensures
            final(m).wf(),
            final(con).wf(),
            puts_post(
                mview(*self, *old(m), *old(con)),
                mview(*self, *final(m), *final(con)),
                true,
                r,
            ),
            r == StepOutcome::NeedInput ==> blocked_frame(
                mview(*self, *old(m), *old(con)),
                mview(*self, *final(m), *final(con)),
            ),
    {
        self.put_string(m, con, true)
    }

    /// The GETC trap: one console byte goes to register 0, zero-extended,
    /// without echo.
    pub fn get_c(&mut self, con: &mut Console) -> (r: StepOutcome)
        requires
            old(con).wf(),
        ensures
            final(con).wf(),
            getc_post(cview(*old(self), *old(con)), cview(*final(self), *final(con)), r),
            r == StepOutcome::NeedInput ==> *final(self) == *old(self)
                && final(con).input@ == old(con).input@
                && final(con).pos == old(con).pos
                && final(con).output@ == old(con).output@,
    {
        match con.read_byte() {
            None => StepOutcome::NeedInput,
            Some(b) => {
                self.r0 = b as u16;
                proof {
                    lemma_regs_update(old(self).regs(), self.regs(), 0, b as u16);
                }
                StepOutcome::Continue
            }
        }
    }

    /// The OUT trap: prints the low byte of register 0.
    pub fn out(&self, con: &mut Console)
        requires
            old(con).wf(),
        ensures
            final(con).wf(),
            final(con).input@ == old(con).input@,
            final(con).pos == old(con).pos,
            final(con).output@ == old(con).output@.push(self.r0 as u8),
    {
        con.write_byte(self.r0 as u8);
    }

    /// The IN trap: prints a prompt, then reads one console byte, echoes
    /// it and stores it in register 0, zero-extended. When no byte is
    /// pending the prompt has been printed and the machine waits.
    pub fn read(&mut self, con: &mut Console) -> (r: StepOutcome)
        requires
            old(con).wf(),
        ensures
            final(con).wf(),
            in_post(cview(*old(self), *old(con)), cview(*final(self), *final(con)), r),
    {
        con.write_byte(0x45);
        con.write_byte(0x6E);
        con.write_byte(0x74);
        con.write_byte(0x65);
        con.write_byte(0x72);
        con.write_byte(0x20);
        con.write_byte(0x61);
        con.write_byte(0x20);
        con.write_byte(0x63);
        con.write_byte(0x68);
        con.write_byte(0x61);
        con.write_byte(0x72);
        con.write_byte(0x61);
        con.write_byte(0x63);
        con.write_byte(0x74);
        con.write_byte(0x65);
        con.write_byte(0x72);
        con.write_byte(0x3A);
        con.write_byte(0x20);
        proof {
            assert(con.output@ =~= old(con).output@ + in_prompt());
        }

        match con.read_byte() {
            None => StepOutcome::NeedInput,
            Some(b) => {
                con.write_byte(b);
                self.r0 = b as u16;
                proof {
                    lemma_regs_update(old(self).regs(), self.regs(), 0, b as u16);
                    assert(con.output@
                        =~= old(con).output@ + in_prompt() + seq![old(con).input@[old(
                        con).pos as int]]);
                }
                StepOutcome::Continue
            }
        }
    }

    /// The HALT trap: prints `HALT`; the caller stops fetching.
    pub fn halt(&self, con: &mut Console)
        requires
            old(con).wf(),
        ensures
            final(con).wf(),
            final(con).input@ == old(con).input@,
            final(con).pos == old(con).pos,
            final(con).output@ == old(con).output@ + seq![0x48u8, 0x41, 0x4C, 0x54],
    {
        con.write_byte(0x48);
        con.write_byte(0x41);
        con.write_byte(0x4C);
        con.write_byte(0x54);
        proof {
            assert(con.output@ =~= old(con).output@ + seq![0x48u8, 0x41, 0x4C, 0x54]);
        }
    }
}

// The dispatch cycle.
impl CPU {
    /// Decodes and executes one already-fetched instruction word (the
    /// program counter has already been advanced past it). The contract is
    /// the machine's full transition relation, [`exec_post`]; when the
    /// outcome is `NeedInput`, the partial effects are confined as
    /// [`blocked_frame`] states, so a caller can unwind them.
    pub fn exec(&mut self, instruction: u16, m: &mut Memory, con: &mut Console) -> (r:
        StepOutcome)
        requires
            old(m).wf(),
            old(con).wf(),
        ensures
            final(m).wf(),
            final(con).wf(),
            exec_post(
                mview(*old(self), *old(m), *old(con)),
                mview(*final(self), *final(m), *final(con)),
                instruction,
                r,
            ),
            r == StepOutcome::NeedInput ==> blocked_frame(
                mview(*old(self), *old(m), *old(con)),
                mview(*final(self), *final(m), *final(con)),
            ),
    {
        let op_code: u16 = instruction >> 12;
        proof {
            assert(instruction >> 12 <= 0xF) by (bit_vector);
        }

        match Instruction::from(op_code as u8) {
            Instruction::OpBr => {
                self.branch(instruction);
                StepOutcome::Continue
            }
            Instruction::OpAdd => {
                self.add(instruction);
                StepOutcome::Continue
            }
            Instruction::OpLd => self.load(instruction, m, con),
            Instruction::OpSt => {
                self.store(instruction, m);
                StepOutcome::Continue
            }
            Instruction::OpJsr => {
                self.jump_register(instruction);
                StepOutcome::Continue
            }
            Instruction::OpAnd => {
                self.bitwise_and(instruction);
                StepOutcome::Continue
            }
            Instruction::OpLdr => self.load_register(instruction, m, con),
            Instruction::OpStr => {
                self.store_register(instruction, m);
                StepOutcome::Continue
            }
            Instruction::OpRti => StepOutcome::IllegalOpcode,
            Instruction::OpNot => {
                self.bitwise_not(instruction);
                StepOutcome::Continue
            }
            Instruction::OpLdi => self.load_indirect(instruction, m, con),
            Instruction::OpSti => self.store_indirect(instruction, m, con),
            Instruction::OpJmp => {
                self.jump(instruction);
                StepOutcome::Continue
            }
            Instruction::OpRes => StepOutcome::IllegalOpcode,
            Instruction::OpLea => {
                self.load_effective_address(instruction);
                StepOutcome::Continue
            }
            Instruction::OpTrap => {
                let vector: u16 = instruction & 0xFF;
                if 0x20 <= vector && vector <= 0x25 {
                    match Trap::from(vector) {
                        Trap::GetC => {
                            let r = self.get_c(con);
                            proof {
                                if r == StepOutcome::NeedInput {
                                    assert(old(con).output@.subrange(
                                        0, old(con).output@.len() as int)
                                        =~= old(con).output@);
                                    assert(mview(*self, *m, *con)
                                        =~= mview(*old(self), *old(m), *old(con)));
                                }
                            }
                            r
                        }
                        Trap::Out => {
                            self.out(con);
                            StepOutcome::Continue
                        }
                        Trap::PutS => self.put_s(m, con),
                        Trap::In => {
                            let r = self.read(con);
                            proof {
                                if r == StepOutcome::NeedInput {
                                    lemma_concat_prefix(old(con).output@, in_prompt());
                                }
                            }
                            r
                        }
                        Trap::PutSp => self.put_sp(m, con),
                        Trap::Halt => {
                            self.halt(con);
                            StepOutcome::Halt
                        }
                    }
                } else {
                    StepOutcome::InvalidTrap
                }
            }
        }
    }

    /// One whole machine cycle: fetch the word at the program counter,
    /// advance the counter by one (with wraparound) before executing, then
    /// execute the word. A `NeedInput` outcome leaves the machine exactly
    /// as it was, so the caller can feed one input byte and step again; a
    /// `Halt` outcome means no further instruction may be fetched.
    pub fn step(&mut self, m: &mut Memory, con: &mut Console) -> (r: StepOutcome)
        requires
            old(m).wf(),
            old(con).wf(),
        ensures
            final(m).wf(),
            final(con).wf(),
            step_post(
                mview(*old(self), *old(m), *old(con)),
                mview(*final(self), *final(m), *final(con)),
                r,
            ),
    {
        let saved_cpu: CPU = *self;
        let saved_kbsr: u16 = m.0[KBSR as usize];
        let saved_kbdr: u16 = m.0[KBDR as usize];
        let saved_pos: usize = con.pos;
        let saved_outlen: usize = con.output.len();

        match m.memory_read(self.pc, con) {
            None => {
                proof {
                    assert(mview(*self, *m, *con)
                        =~= mview(*old(self), *old(m), *old(con)));
                }
                StepOutcome::NeedInput
            }
            Some(instr) => {
                proof {
                    crate::memory::lemma_read_frame(
                        old(m)@, old(con).input@, old(con).pos as int, old(self).pc);
                }
                self.next_instruction();
                proof {
                    assert(*self == (CPU { pc: old(self).pc.wrapping_add(1), ..*old(self) }));
                }
                let ghost midv = mview(*self, *m, *con);
                let r = self.exec(instr, m, con);
                proof {
                    lemma_exec_blocks(
                        mview(*old(self), *old(m), *old(con)),
                        midv,
                        mview(*self, *m, *con),
                        instr,
                        r,
                    );
                }
                if matches!(r, StepOutcome::NeedInput) {
                    *self = saved_cpu;
                    m.memory_write(KBSR, saved_kbsr);
                    m.memory_write(KBDR, saved_kbdr);
                    con.pos = saved_pos;
                    con.output.truncate(saved_outlen);
                    proof {
                        assert(m@ =~= old(m)@);
                        assert(con.output@ =~= old(con).output@);
                        assert(mview(*self, *m, *con)
                            =~= mview(*old(self), *old(m), *old(con)));
                    }
                }
                r
            }
        }
    }
}

} // verus!
