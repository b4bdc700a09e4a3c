//! Register-machine scaffolding for a future processor-style VM that runs
//! directly over a unified memory buffer.

use vstd::prelude::*;

verus! {

/// Packed read-only layout offsets: the low half of the word holds the
/// start of the data area; the high half is padding.
#[derive(Clone, Copy, Debug, PartialEq, Eq, Structural)]
pub struct Offsets {
    bits: u32,
}

impl Offsets {
    /// The offset where the data area starts.
    pub closed spec fn spec_data_start(&self) -> u16 {
        (self.bits & 0xFFFF) as u16
    }

    /// An all-zero offsets word.
    pub fn new() -> (r: Self)
        ensures
            r.spec_data_start() == 0,
    {
        proof {
            assert((0u32 & 0xFFFF) as u16 == 0u16) by (bit_vector);
        }
        Offsets { bits: 0 }
    }

    /// Read the data-area start offset.
    pub fn data_start(&self) -> (r: u16)
        ensures
            r == self.spec_data_start(),
    {
        (self.bits & 0xFFFF) as u16
    }

    /// This offsets word with the data-area start replaced.
    pub fn with_data_start(self, value: u16) -> (r: Self)
        ensures
            r.spec_data_start() == value,
    {
        let bits = (self.bits & 0xFFFF0000) | (value as u32);
        proof {
            let b = self.bits;
            assert((((b & 0xFFFF0000) | (value as u32)) & 0xFFFF) as u16 == value)
                by (bit_vector);
        }
        Offsets { bits }
    }
}

/// The register file of the processor-style VM.
#[derive(Clone, Copy, Debug, PartialEq, Eq, Structural)]
pub struct Registers {
    /// Read-only layout offsets.
    pub offsets: Offsets,
    /// Length of the memory buffer the processor runs over.
    pub memory_len: u32,
    /// The program counter.
    pub pc: u32,
}

impl Registers {
    /// Rewind the program counter for a fresh run; the read-only registers
    /// keep their values.
    pub fn reset(&mut self)
        ensures
            final(self).pc == 0,
            final(self).offsets == old(self).offsets,
            final(self).memory_len == old(self).memory_len,
    {
        self.pc = 0;
    }
}

/// A processor-style VM holding only its register file; its execution loop
/// is not implemented yet.
#[derive(Clone, Copy, Debug)]
pub struct VmProcessor {
    /// The register file.
    pub registers: Registers,
}

/// Something that can be rewound and run over a memory buffer.
pub trait Processor {
    /// Rewind to the initial state.
    fn reset(&mut self);

    /// Execute over the given memory buffer.
    fn run(&mut self, memory: &mut Vec<u8>);
}

} // verus!
