//! Tests for the unified memory buffer, the double buffer, and the
//! processor register scaffolding.

use vm_glitch::double_buffer::DoubleBuffer;
use vm_glitch::memory::{Area, Memory};
use vm_glitch::processor::{Offsets, Registers};

#[test]
fn memory_length_combines_program_and_samples() {
    // 32 program bytes + 2 frames of 8 bytes each
    let mem = Memory::new(32, 2).unwrap();
    assert_eq!(mem.len(), 48);
    assert!(mem.buffer().iter().all(|b| *b == 0));
}

#[test]
fn memory_rejects_lengths_not_divisible_by_four() {
    assert!(Memory::new(33, 2).is_none());
    assert!(Memory::new(34, 2).is_none());
    assert!(Memory::new(36, 2).is_some());
}

#[test]
fn memory_area_type_splits_at_the_program_boundary() {
    let mem = Memory::new(32, 2).unwrap();
    assert_eq!(mem.area_type(0), Area::Bytecode);
    assert_eq!(mem.area_type(31), Area::Bytecode);
    assert_eq!(mem.area_type(32), Area::Sample);
    assert_eq!(mem.area_type(47), Area::Sample);
}

#[test]
fn memory_byte_reads_are_bounds_checked() {
    let mem = Memory::new(4, 0).unwrap();
    assert_eq!(mem.get_as_byte(3), Some(0));
    assert_eq!(mem.get_as_byte(4), None);
}

#[test]
fn double_buffer_starts_zeroed() {
    let buf = DoubleBuffer::new(4);
    assert_eq!(buf.len(), 4);
    assert_eq!(buf.read_buffer().as_slice(), &[0u8; 4]);
}

#[test]
fn writes_become_readable_only_after_a_swap() {
    let mut buf = DoubleBuffer::new(4);
    buf.write_buffer(&vec![1, 2, 3, 4]);
    // the reader still sees the other slot
    assert_eq!(buf.read_buffer().as_slice(), &[0u8; 4]);
    buf.swap();
    assert_eq!(buf.read_buffer().as_slice(), &[1, 2, 3, 4]);
    // a second swap hands the old slot back
    buf.swap();
    assert_eq!(buf.read_buffer().as_slice(), &[0u8; 4]);
}

#[test]
fn double_buffer_of_length_zero_works() {
    let mut buf = DoubleBuffer::new(0);
    assert_eq!(buf.len(), 0);
    buf.write_buffer(&vec![]);
    buf.swap();
    assert_eq!(buf.read_buffer().len(), 0);
}

#[test]
fn registers_reset_rewinds_only_the_pc() {
    let mut regs = Registers {
        offsets: Offsets::new().with_data_start(64),
        memory_len: 512,
        pc: 37,
    };
    regs.reset();
    assert_eq!(regs.pc, 0);
    assert_eq!(regs.memory_len, 512);
    assert_eq!(regs.offsets.data_start(), 64);
}

#[test]
fn offsets_pack_the_data_start() {
    assert_eq!(Offsets::new().data_start(), 0);
    assert_eq!(Offsets::new().with_data_start(0xFFFF).data_start(), 0xFFFF);
    assert_eq!(Offsets::new().with_data_start(7).data_start(), 7);
}
