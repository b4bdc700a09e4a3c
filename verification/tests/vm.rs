//! Tests for the virtual machine: decoding, self-modification gating,
//! jump semantics, and the instruction cap.

use vm_glitch::backend::{Backend, NoopBackend};
use vm_glitch::interpret::Vm;
use vm_glitch::op::{Op, Opcode};
use vm_glitch::state::VmState;

/// A backend whose audio domain always quantizes to one fixed byte.
struct ConstantBackend(u8);

impl Backend for ConstantBackend {
    fn run(&mut self, _op: Op, _vm_state: &VmState) -> Option<u8> {
        Some(self.0)
    }

    fn notify(&mut self, _vm_state: &VmState) {}
}

/// A backend that counts how often it is notified.
struct CountingBackend(usize);

impl Backend for CountingBackend {
    fn run(&mut self, _op: Op, _vm_state: &VmState) -> Option<u8> {
        None
    }

    fn notify(&mut self, _vm_state: &VmState) {
        self.0 += 1;
    }
}

#[test]
fn test_jumping() {
    let mut vm = Vm::default();
    let mut bytecode = vec![Opcode::Jump.byte(), 2, 0, 0];
    vm.step(&mut bytecode, &mut NoopBackend, true);

    assert_eq!(vm.state.pc, 3);
}

#[test]
fn noop_buffer_is_left_unchanged() {
    let mut vm = Vm::default();
    let mut bytecode = vec![0u8; 64];
    vm.run(&mut bytecode, &mut NoopBackend, true);
    assert_eq!(bytecode, vec![0u8; 64]);
    // one step per byte: the cursor walked the whole buffer
    assert_eq!(vm.state.total_for_run, 64);
    assert_eq!(vm.state.buf_index, 64);
}

#[test]
fn self_modify_false_never_changes_the_bytecode() {
    let mut vm = Vm::default();
    let mut bytecode = vec![0u8; 32];
    // copy, swap and sample instructions that would all mutate the buffer
    bytecode[0] = 1;
    bytecode[1] = 0;
    bytecode[2] = 1;
    bytecode[3] = 6;
    bytecode[4] = 2;
    bytecode[5] = 3;
    bytecode[6] = 5;
    bytecode[7] = 4;
    let before = bytecode.clone();
    vm.run(&mut bytecode, &mut ConstantBackend(0xAB), false);
    assert_eq!(bytecode, before);
    // the cursors still advanced
    assert!(vm.state.total_for_run > 0);
    assert_eq!(vm.state.buf_index, vm.state.total_for_run);
}

#[test]
fn run_performs_at_most_cap_plus_one_steps() {
    let mut vm = Vm::default();
    // jump back forever: only the instruction cap can end this run
    let mut bytecode = Vec::new();
    for _ in 0..8 {
        bytecode.push(4u8);
        bytecode.push(0u8);
    }
    vm.run(&mut bytecode, &mut NoopBackend, false);
    assert_eq!(vm.state.total_for_run, 513);
}

#[test]
fn copy_moves_one_chunk_onto_another() {
    let mut vm = Vm::default();
    // 32 bytes, so each of the 16 registers is a 2-byte chunk
    let mut bytecode = vec![0u8; 32];
    bytecode[0] = 1; // copy
    bytecode[1] = 0; // from register 0
    bytecode[2] = 1; // to register 1
    bytecode[3] = 9;
    vm.step(&mut bytecode, &mut NoopBackend, true);
    // register 1 (bytes 2..4) now holds register 0's bytes [1, 0]
    assert_eq!(&bytecode[..4], &[1, 0, 1, 0]);
}

#[test]
fn copy_from_self_copies_the_cursor_chunk() {
    let mut vm = Vm::default();
    let mut bytecode = vec![0u8; 32];
    bytecode[0] = 2; // copy-from-self at pc 0 (register 0)
    bytecode[1] = 1; // to register 1
    bytecode[2] = 7;
    bytecode[3] = 8;
    vm.step(&mut bytecode, &mut NoopBackend, true);
    assert_eq!(&bytecode[..4], &[2, 1, 2, 1]);
}

#[test]
fn swap_exchanges_two_chunks() {
    let mut vm = Vm::default();
    let mut bytecode = vec![0u8; 32];
    bytecode[0] = 6; // swap
    bytecode[1] = 0; // register 0 (bytes 0..2)
    bytecode[2] = 1; // register 1 (bytes 2..4)
    bytecode[3] = 9;
    vm.step(&mut bytecode, &mut NoopBackend, true);
    assert_eq!(&bytecode[..4], &[1, 9, 6, 0]);
}

#[test]
fn sample_writes_the_backend_byte_under_the_cursor() {
    let mut vm = Vm::default();
    let mut bytecode = vec![0u8; 32];
    bytecode[0] = 5; // sample register 3
    bytecode[1] = 3;
    vm.step(&mut bytecode, &mut ConstantBackend(0xAB), true);
    // the operand byte, now under the cursor, was overwritten
    assert_eq!(bytecode[1], 0xAB);
    assert_eq!(vm.state.pc, 2);

    // without a backend byte the buffer is untouched
    let mut vm = Vm::default();
    let mut bytecode = vec![5u8, 3, 0, 0];
    vm.step(&mut bytecode, &mut NoopBackend, true);
    assert_eq!(bytecode, vec![5, 3, 0, 0]);
}

#[test]
fn operands_reduce_modulo_the_register_count() {
    let mut vm = Vm::default();
    // jump to 18, which reduces to register 2
    let mut bytecode = vec![4u8, 18, 0, 0];
    vm.step(&mut bytecode, &mut NoopBackend, true);
    assert_eq!(vm.state.pc, 3);
}

#[test]
fn truncated_instructions_decode_as_no_ops() {
    // a copy tag with no operands at all
    let mut vm = Vm::default();
    let mut bytecode = vec![1u8];
    vm.step(&mut bytecode, &mut NoopBackend, true);
    assert_eq!(bytecode, vec![1]);
    assert_eq!(vm.state.pc, 1);

    // a swap tag with only one of its two operands
    let mut vm = Vm::default();
    let mut bytecode = vec![6u8, 5];
    vm.step(&mut bytecode, &mut NoopBackend, true);
    assert_eq!(bytecode, vec![6, 5]);
    assert_eq!(vm.state.pc, 2);
}

#[test]
fn garbage_bytecode_runs_to_completion() {
    let mut vm = Vm::default();
    let mut bytecode: Vec<u8> = (0..=255).rev().collect();
    vm.run(&mut bytecode, &mut NoopBackend, true);
    assert_eq!(bytecode.len(), 256);
    for _ in 0..4 {
        vm.run(&mut bytecode, &mut NoopBackend, true);
    }
}

#[test]
fn full_pipeline_from_source_to_execution() {
    // author a program, compile it to fixed-size bytecode, and run it
    let ast = vm_glitch::parse::parse("[2 1>2] .5 ~3").unwrap();
    let mut bytecode = vm_glitch::compile::compile(&ast, 32).unwrap();
    assert_eq!(bytecode.len(), 32);
    let before = bytecode.clone();

    // a read-only playback pass leaves the program intact
    let mut vm = Vm::default();
    vm.run(&mut bytecode, &mut ConstantBackend(0x7F), false);
    assert_eq!(bytecode, before);

    // a self-modification pass may rewrite it, but never resizes it
    vm.run(&mut bytecode, &mut ConstantBackend(0x7F), true);
    assert_eq!(bytecode.len(), 32);
}

#[test]
fn backend_is_notified_once_per_step() {
    let mut vm = Vm::default();
    let mut bytecode = vec![0u8; 16];
    let mut backend = CountingBackend(0);
    vm.run(&mut bytecode, &mut backend, false);
    assert_eq!(backend.0, 16);
}
