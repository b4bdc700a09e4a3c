//! The byte-level instruction encoding and its decoded in-memory form.

use vstd::prelude::*;

verus! {

/// The closed, stable set of byte tags of the wire format.
///
/// The numeric value of each tag (its position in this list, starting at
/// zero) is part of the persisted encoding and must never be reordered.
#[derive(Clone, Copy, Debug, PartialEq, Eq, Structural)]
pub enum Opcode {
    /// Filler; leaves space in the bytecode.
    Noop,
    /// Copy chunk `i` onto chunk `j`, in the bytecode and the audio window.
    Copy,
    /// Copy the chunk holding the program counter onto chunk `j`.
    CopyFromSelf,
    /// Flip the data at `i`.
    Flip,
    /// Set the program counter to `i`.
    Jump,
    /// Quantize audio at chunk `i` into the byte under the program counter.
    Sample,
    /// Exchange chunks `i` and `j`, in the bytecode and the audio window.
    Swap,
}

impl Opcode {
    /// The wire tag value of this opcode.
    pub open spec fn byte_spec(self) -> u8 {
        match self {
            Opcode::Noop => 0,
            Opcode::Copy => 1,
            Opcode::CopyFromSelf => 2,
            Opcode::Flip => 3,
            Opcode::Jump => 4,
            Opcode::Sample => 5,
            Opcode::Swap => 6,
        }
    }

    /// The wire tag value of this opcode.
    pub fn byte(self) -> (r: u8)
        ensures
            r == self.byte_spec(),
    {
        match self {
            Opcode::Noop => 0,
            Opcode::Copy => 1,
            Opcode::CopyFromSelf => 2,
            Opcode::Flip => 3,
            Opcode::Jump => 4,
            Opcode::Sample => 5,
            Opcode::Swap => 6,
        }
    }
}

/// A decoded, bounds-validated runtime instruction.
///
/// Every index has already been reduced into the valid register range by
/// the decoder; see [`Op::valid`].
#[derive(Clone, Copy, Debug, PartialEq, Eq, Structural)]
pub enum Op {
    Copy(usize, usize),
    Flip(usize),
    Jump(usize),
    Sample(usize),
    Swap(usize, usize),
}

impl Op {
    /// All register indices lie below [`crate::REGISTER_COUNT`].
    pub open spec fn valid(self) -> bool {
        match self {
            Op::Copy(i, j) => i < crate::REGISTER_COUNT && j < crate::REGISTER_COUNT,
            Op::Flip(i) => i < crate::REGISTER_COUNT,
            Op::Jump(i) => i < crate::REGISTER_COUNT,
            Op::Sample(i) => i < crate::REGISTER_COUNT,
            Op::Swap(i, j) => i < crate::REGISTER_COUNT && j < crate::REGISTER_COUNT,
        }
    }
}

} // verus!
