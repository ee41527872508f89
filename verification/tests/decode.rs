use lc3_vm::console::Console;
use lc3_vm::cpu::{Condition, Instruction, Trap};
use lc3_vm::memory::{MemRegister, Memory};
use lc3_vm::ErrCode;

#[test]
fn instruction_from_value_round_trip() {
    for v in 0u8..16u8 {
        let i = Instruction::from(v);
        assert_eq!(i.value(), v);
    }
}

#[test]
fn instruction_from_maps_opcodes() {
    assert_eq!(Instruction::from(0x0), Instruction::OpBr);
    assert_eq!(Instruction::from(0x1), Instruction::OpAdd);
    assert_eq!(Instruction::from(0x8), Instruction::OpRti);
    assert_eq!(Instruction::from(0xD), Instruction::OpRes);
    assert_eq!(Instruction::from(0xF), Instruction::OpTrap);
}

#[test]
fn trap_from_maps_vectors() {
    assert_eq!(Trap::from(0x20), Trap::GetC);
    assert_eq!(Trap::from(0x21), Trap::Out);
    assert_eq!(Trap::from(0x22), Trap::PutS);
    assert_eq!(Trap::from(0x23), Trap::In);
    assert_eq!(Trap::from(0x24), Trap::PutSp);
    assert_eq!(Trap::from(0x25), Trap::Halt);
}

#[test]
fn condition_from_and_value() {
    assert_eq!(Condition::from(1), Condition::FlPos);
    assert_eq!(Condition::from(2), Condition::FlZro);
    assert_eq!(Condition::from(4), Condition::FlNeg);
    assert_eq!(Condition::FlPos.value(), 1);
    assert_eq!(Condition::FlZro.value(), 2);
    assert_eq!(Condition::FlNeg.value(), 4);
}

#[test]
fn err_code_values() {
    assert_eq!(ErrCode::InvalidArgs.value(), 1);
    assert_eq!(ErrCode::MissingArgs.value(), 2);
    assert_eq!(ErrCode::Halt.value(), 3);
}

#[test]
fn mem_register_addresses() {
    assert_eq!(MemRegister::KBSR.value(), 0xFE00);
    assert_eq!(MemRegister::KBDR.value(), 0xFE02);
}

#[test]
fn memory_starts_zeroed_and_writes_stick() {
    let mut m = Memory::new();
    assert_eq!(m.raw().len(), 1 << 16);
    assert_eq!(m.raw()[0x1234], 0);
    m.memory_write(0x1, 0x5);
    let mut con = Console::new(Vec::new());
    assert_eq!(m.memory_read(0x1, &mut con), Some(0x5));
}

#[test]
fn raw_mut_exposes_the_word_store() {
    let mut m = Memory::new();
    m.raw_mut()[0] = 0x1;
    assert_eq!(m.raw()[0], 0x1);
}

#[test]
fn load_image_places_words_at_origin() {
    let mut m = Memory::new();
    let image: Vec<u8> = vec![0x30, 0x00, 0x12, 0x34, 0xAB, 0xCD];
    assert!(m.load_image(&image));
    assert_eq!(m.raw()[0x3000], 0x1234);
    assert_eq!(m.raw()[0x3001], 0xABCD);
    assert_eq!(m.raw()[0x2FFF], 0);
    assert_eq!(m.raw()[0x3002], 0);
}

#[test]
fn load_image_rejects_malformed_images() {
    let mut m = Memory::new();
    assert!(!m.load_image(&vec![0x30]));
    assert!(!m.load_image(&vec![0x30, 0x00, 0x12]));
    // payload would run past the end of memory
    assert!(!m.load_image(&vec![0xFF, 0xFF, 0x00, 0x01, 0x00, 0x02]));
    assert_eq!(m.raw()[0xFFFF], 0);
}

#[test]
fn console_reads_bytes_in_order_and_records_output() {
    let mut con = Console::new(vec![1, 2]);
    assert_eq!(con.read_byte(), Some(1));
    assert_eq!(con.read_byte(), Some(2));
    assert_eq!(con.read_byte(), None);
    con.write_byte(9);
    con.write_byte(8);
    assert_eq!(con.take_output(), vec![9, 8]);
    assert_eq!(con.take_output(), Vec::<u8>::new());
}
