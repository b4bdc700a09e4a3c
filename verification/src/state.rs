//! Execution-cursor state owned by the virtual machine.

use vstd::prelude::*;

verus! {

/// The cursor state of one VM run, reset to zero at the start of every run.
#[derive(Clone, Copy, Debug, PartialEq, Eq, Structural)]
pub struct VmState {
    /// The current index in both the bytecode and the audio buffer.
    ///
    /// Functions as the program counter for the bytecode and controls
    /// sample output ordering.  It is incremented after each instruction
    /// and can be modified by a jump.
    pub pc: usize,
    /// The monotonically increasing index into the audio buffer as
    /// instructions are run.
    pub buf_index: usize,
    /// The total instructions processed during the current run.
    pub total_for_run: usize,
}

impl Default for VmState {
    fn default() -> (r: Self)
        ensures
            r.pc == 0 && r.buf_index == 0 && r.total_for_run == 0,
    {
        VmState { pc: 0, buf_index: 0, total_for_run: 0 }
    }
}

} // verus!
