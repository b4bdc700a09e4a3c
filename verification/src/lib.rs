//! A tiny generative-glitch language and virtual machine.
//!
//! Source text is parsed into a tree of instruction nodes, statically
//! compiled (repeat groups are unrolled) into a flat instruction list,
//! assembled into a fixed-size byte buffer, and finally executed by a
//! small virtual machine whose program counter doubles as an audio-frame
//! cursor.  The bytecode buffer is simultaneously the program and, when
//! self-modification is enabled, mutable data.  Audio-domain effects are
//! delegated to a pluggable [`backend::Backend`].

use vstd::prelude::*;

pub mod assemble;
pub mod backend;
pub mod compile;
pub mod double_buffer;
pub mod interpret;
pub mod memory;
pub mod op;
pub mod parse;
pub mod processor;
pub mod state;

verus! {

/// Number of equal-size contiguous chunks ("registers") that the bytecode
/// buffer and the audio window are logically partitioned into.
pub const REGISTER_COUNT: usize = 16;

} // verus!
