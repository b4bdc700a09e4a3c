//! The capability plugged into the VM that realizes an operation's effect
//! on the audio domain.

use vstd::prelude::*;

use crate::op::Op;
use crate::state::VmState;

verus! {

/// The audio-domain effect of each decoded operation.
///
/// Implementations must never block and must complete in time bounded by
/// one chunk, since they execute inside the same real-time budget as the
/// VM step.
pub trait Backend {
    /// Perform the audio-domain effect of one decoded operation.
    ///
    /// For a sample operation the backend returns the byte quantized from
    /// the audio content at the operand register, or `None` when no audio
    /// is available; the VM is the one that writes it into the bytecode.
    /// For every other operation the return value is ignored.
    fn run(&mut self, op: Op, vm_state: &VmState) -> Option<u8>;

    /// Observe the cursor state at the end of one VM step: the hook for
    /// output mapping and best-effort counter publication.
    fn notify(&mut self, vm_state: &VmState);
}

/// A backend with no audio domain: used to mutate bytecode without
/// touching audio, such as on a background program-evolution thread.
pub struct NoopBackend;

impl Backend for NoopBackend {
    fn run(&mut self, _op: Op, _vm_state: &VmState) -> Option<u8> {
        None
    }

    fn notify(&mut self, _vm_state: &VmState) {
    }
}

} // verus!
