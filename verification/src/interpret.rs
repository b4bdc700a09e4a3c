//! The virtual machine: decodes and executes a fixed-length byte buffer
//! instruction by instruction.
//!
//! The program counter doubles as an audio-frame cursor, so a jump causes
//! an audible discontinuity, not just a control-flow change.  Out-of-bounds
//! reads and unknown opcodes degrade to no-ops: decoding never panics, so a
//! corrupted buffer cannot stall or crash the real-time thread.

use vstd::arithmetic::div_mod::lemma_fundamental_div_mod;
use vstd::prelude::*;

use crate::backend::Backend;
use crate::op::{Op, Opcode};
use crate::state::VmState;
use crate::REGISTER_COUNT;

verus! {

/// A buffer consisting entirely of `Noop` (zero) bytes.
pub open spec fn all_noop(b: Seq<u8>) -> bool {
    forall|i: int| 0 <= i < b.len() ==> b[i] == 0u8
}

/// What one decode at `pc` yields: the operation, if any, and the cursor
/// position after the consumed operand bytes.
///
/// Reads beyond the buffer yield no operation; operand bytes are reduced
/// modulo the register count, so every byte value maps to a valid register.
pub open spec fn decode_spec(b: Seq<u8>, pc: nat) -> (Option<Op>, nat) {
    if pc >= b.len() {
        (None, pc)
    } else {
        let tag = b[pc as int];
        if tag == Opcode::Copy.byte_spec() || tag == Opcode::Swap.byte_spec() {
            if pc + 1 >= b.len() {
                (None, pc)
            } else if pc + 2 >= b.len() {
                (None, pc + 1)
            } else {
                let i = ((b[pc as int + 1] as nat) % (REGISTER_COUNT as nat)) as usize;
                let j = ((b[pc as int + 2] as nat) % (REGISTER_COUNT as nat)) as usize;
                if tag == Opcode::Swap.byte_spec() {
                    (Some(Op::Swap(i, j)), pc + 2)
                } else {
                    (Some(Op::Copy(i, j)), pc + 2)
                }
            }
        } else {
            if pc + 1 >= b.len() {
                (None, pc)
            } else {
                let i = ((b[pc as int + 1] as nat) % (REGISTER_COUNT as nat)) as usize;
                if tag == Opcode::Jump.byte_spec() {
                    (Some(Op::Jump(i)), pc + 1)
                } else if tag == Opcode::CopyFromSelf.byte_spec() {
                    (Some(Op::Copy((pc % (REGISTER_COUNT as nat)) as usize, i)), pc + 1)
                } else if tag == Opcode::Flip.byte_spec() {
                    (Some(Op::Flip(i)), pc + 1)
                } else if tag == Opcode::Sample.byte_spec() {
                    (Some(Op::Sample(i)), pc + 1)
                } else {
                    (None, pc)
                }
            }
        }
    }
}

/// The bytecode after copying register chunk `from` onto chunk `to`, with
/// chunk size `cs`.
pub open spec fn chunk_copy(b: Seq<u8>, cs: nat, from: nat, to: nat) -> Seq<u8> {
    Seq::new(b.len(), |x: int|
        if to * cs <= x < to * cs + cs {
            b[x - to * cs + from * cs]
        } else {
            b[x]
        })
}

/// The bytecode after exchanging register chunks `i` and `j`, with chunk
/// size `cs`.
pub open spec fn chunk_swap(b: Seq<u8>, cs: nat, i: nat, j: nat) -> Seq<u8> {
    Seq::new(b.len(), |x: int|
        if i * cs <= x < i * cs + cs {
            b[x - i * cs + j * cs]
        } else if j * cs <= x < j * cs + cs {
            b[x - j * cs + i * cs]
        } else {
            b[x]
        })
}

/// The bytecode after executing `op` at cursor `pc` (the position already
/// past the operand bytes).
///
/// `sample` is the byte the backend quantized for a sample operation, if
/// any.  When self-modification is disabled the buffer is never changed.
pub open spec fn apply_op(b: Seq<u8>, op: Op, pc: nat, self_modify: bool, sample: Option<u8>)
    -> Seq<u8> {
    let cs = b.len() / (REGISTER_COUNT as nat);
    match op {
        Op::Copy(from, to) => if self_modify {
            chunk_copy(b, cs, from as nat, to as nat)
        } else {
            b
        },
        Op::Swap(i, j) => if self_modify {
            chunk_swap(b, cs, i as nat, j as nat)
        } else {
            b
        },
        Op::Sample(_) => if self_modify && sample is Some && pc < b.len() {
            b.update(pc as int, sample->0)
        } else {
            b
        },
        _ => b,
    }
}

/// Decoding is total over every buffer and cursor position: it never
/// rewinds, it consumes operand bytes only while they are in bounds, and
/// every operation it yields carries valid (reduced) register indices.
/// Out-of-bounds and unknown tags yield no operation rather than a fault.
pub proof fn lemma_decode_total(b: Seq<u8>, pc: nat)
    ensures
        ({
            let (op, p2) = decode_spec(b, pc);
            &&& pc <= p2
            &&& (op is Some ==> pc < p2 < b.len())
            &&& (match op {
                Some(o) => o.valid(),
                None => true,
            })
        }),
{
}

/// Executing any operation preserves the bytecode's length.
pub proof fn lemma_apply_op_preserves_len(
    b: Seq<u8>,
    op: Op,
    pc: nat,
    self_modify: bool,
    sample: Option<u8>,
)
    ensures
        apply_op(b, op, pc, self_modify, sample).len() == b.len(),
{
}

/// The one-step transition relation of the VM: decode at `pc`, execute
/// what was decoded, advance the cursor.
///
/// For a sample operation the byte written under the cursor is whatever
/// the backend quantized, so the relation admits every byte; every other
/// operation relates deterministically.
pub open spec fn step_rel(b: Seq<u8>, pc: nat, b2: Seq<u8>, pc2: nat, self_modify: bool) -> bool {
    let (op, p2) = decode_spec(b, pc);
    &&& pc2 == (match op {
        Some(Op::Jump(t)) => t as nat,
        _ => p2,
    }) + 1
    &&& (match op {
        Some(o) => if o is Sample {
            exists|sb: Option<u8>| b2 == apply_op(b, o, p2, self_modify, sb)
        } else {
            b2 == apply_op(b, o, p2, self_modify, None)
        },
        None => b2 == b,
    })
}

/// A buffer of nothing but `Noop` bytes is left unchanged by any VM step,
/// whether or not self-modification is enabled.
pub proof fn lemma_noop_buffer_step_unchanged(
    b: Seq<u8>,
    pc: nat,
    b2: Seq<u8>,
    pc2: nat,
    self_modify: bool,
)
    requires
        all_noop(b),
        step_rel(b, pc, b2, pc2, self_modify),
    ensures
        b2 == b,
{
    if pc < b.len() {
        assert(b[pc as int] == 0u8);
    }
    assert(decode_spec(b, pc).0 is None);
}

/// With self-modification disabled no VM step changes the bytecode,
/// whatever operations it holds.
pub proof fn lemma_read_only_step_unchanged(b: Seq<u8>, pc: nat, b2: Seq<u8>, pc2: nat)
    requires
        step_rel(b, pc, b2, pc2, false),
    ensures
        b2 == b,
{
    let (op, p2) = decode_spec(b, pc);
    match op {
        Some(o) => {
            if o is Sample {
                let sb = choose|sb: Option<u8>| b2 == apply_op(b, o, p2, false, sb);
                assert(b2 == apply_op(b, o, p2, false, sb));
            }
        },
        None => {},
    }
}

/// The state `(b2, pc2)` is reached from `(b, pc)` by exactly `n` VM
/// steps.
pub open spec fn steps(b: Seq<u8>, pc: nat, b2: Seq<u8>, pc2: nat, n: nat, self_modify: bool)
    -> bool
    decreases n,
{
    if n == 0 {
        b2 == b && pc2 == pc
    } else {
        exists|bm: Seq<u8>, pcm: nat|
            step_rel(b, pc, bm, pcm, self_modify)
            && steps(bm, pcm, b2, pc2, (n - 1) as nat, self_modify)
    }
}

/// One more related step extends a chain of steps.
pub proof fn lemma_steps_extend(
    b: Seq<u8>,
    pc: nat,
    b1: Seq<u8>,
    pc1: nat,
    n: nat,
    b2: Seq<u8>,
    pc2: nat,
    self_modify: bool,
)
    requires
        steps(b, pc, b1, pc1, n, self_modify),
        step_rel(b1, pc1, b2, pc2, self_modify),
    ensures
        steps(b, pc, b2, pc2, n + 1, self_modify),
    decreases n,
{
    if n == 0 {
        assert(steps(b2, pc2, b2, pc2, 0, self_modify));
        assert(step_rel(b, pc, b2, pc2, self_modify)
            && steps(b2, pc2, b2, pc2, 0, self_modify));
    } else {
        let (bm, pcm) = choose|bm: Seq<u8>, pcm: nat|
            step_rel(b, pc, bm, pcm, self_modify)
            && steps(bm, pcm, b1, pc1, (n - 1) as nat, self_modify);
        lemma_steps_extend(bm, pcm, b1, pc1, (n - 1) as nat, b2, pc2, self_modify);
        assert(step_rel(b, pc, bm, pcm, self_modify)
            && steps(bm, pcm, b2, pc2, n, self_modify));
    }
}

/// A virtual machine over one mutable byte buffer, delegating audio-domain
/// effects to a pluggable [`Backend`].
#[derive(Clone, Copy, Debug)]
pub struct Vm {
    /// The maximum number of instructions one run may execute.
    ///
    /// When this is reached the VM halts early, so that adversarial or
    /// cyclic jump bytecode can never hang the audio thread.
    pub max_instructions: usize,
    /// The cursor state of the current run.
    pub state: VmState,
}

impl Default for Vm {
    /// A VM with the default instruction cap of 512.
    fn default() -> (r: Self)
        ensures
            r.max_instructions == 512,
            r.state.pc == 0 && r.state.buf_index == 0 && r.state.total_for_run == 0,
    {
        Vm { max_instructions: 512, state: VmState { pc: 0, buf_index: 0, total_for_run: 0 } }
    }
}

/// Copy register chunk `from` onto chunk `to` within the bytecode.
#[verifier::loop_isolation(false)]
fn chunk_copy_exec(bytecode: &mut Vec<u8>, from: usize, to: usize)
    requires
        from < REGISTER_COUNT,
        to < REGISTER_COUNT,
    ensures
        final(bytecode)@ == chunk_copy(
            old(bytecode)@,
            old(bytecode)@.len() / (REGISTER_COUNT as nat),
            from as nat,
            to as nat,
        ),
{
    let len = bytecode.len();
    let cs = len / REGISTER_COUNT;
    proof {
        lemma_fundamental_div_mod(len as int, REGISTER_COUNT as int);
        assert(REGISTER_COUNT as int * cs as int <= len as int);
        assert(from * cs + cs == (from + 1) * cs) by (nonlinear_arith);
        assert(to * cs + cs == (to + 1) * cs) by (nonlinear_arith);
        assert((from + 1) * cs <= REGISTER_COUNT * cs) by (nonlinear_arith)
            requires from + 1 <= REGISTER_COUNT && cs >= 0;
        assert((to + 1) * cs <= REGISTER_COUNT * cs) by (nonlinear_arith)
            requires to + 1 <= REGISTER_COUNT && cs >= 0;
        if from != to {
            assert((from + 1) * cs <= to * cs || (to + 1) * cs <= from * cs)
                by (nonlinear_arith)
                requires from != to && cs >= 0 && from >= 0 && to >= 0;
        }
    }
    let mut x: usize = 0;
    while x < cs
        invariant
            x <= cs,
            bytecode@.len() == old(bytecode)@.len(),
            forall|y: int| 0 <= y < bytecode@.len() ==> bytecode@[y] == (
                if to * cs <= y < to * cs + x {
                    old(bytecode)@[y - to * cs + from * cs]
                } else {
                    old(bytecode)@[y]
                }),
        decreases cs - x,
    {
        let v = bytecode[from * cs + x];
        bytecode[to * cs + x] = v;
        x += 1;
    }
    proof {
        assert(bytecode@ =~= chunk_copy(
            old(bytecode)@,
            old(bytecode)@.len() / (REGISTER_COUNT as nat),
            from as nat,
            to as nat,
        ));
    }
}

/// Exchange register chunks `i` and `j` within the bytecode.
#[verifier::loop_isolation(false)]
fn chunk_swap_exec(bytecode: &mut Vec<u8>, i: usize, j: usize)
    requires
        i < REGISTER_COUNT,
        j < REGISTER_COUNT,
    ensures
        final(bytecode)@ == chunk_swap(
            old(bytecode)@,
            old(bytecode)@.len() / (REGISTER_COUNT as nat),
            i as nat,
            j as nat,
        ),
{
    let len = bytecode.len();
    let cs = len / REGISTER_COUNT;
    proof {
        lemma_fundamental_div_mod(len as int, REGISTER_COUNT as int);
        assert(REGISTER_COUNT as int * cs as int <= len as int);
        assert(i * cs + cs == (i + 1) * cs) by (nonlinear_arith);
        assert(j * cs + cs == (j + 1) * cs) by (nonlinear_arith);
        assert((i + 1) * cs <= REGISTER_COUNT * cs) by (nonlinear_arith)
            requires i + 1 <= REGISTER_COUNT && cs >= 0;
        assert((j + 1) * cs <= REGISTER_COUNT * cs) by (nonlinear_arith)
            requires j + 1 <= REGISTER_COUNT && cs >= 0;
        if i != j {
            assert((i + 1) * cs <= j * cs || (j + 1) * cs <= i * cs)
                by (nonlinear_arith)
                requires i != j && cs >= 0 && i >= 0 && j >= 0;
        }
    }
    let mut x: usize = 0;
    while x < cs
        invariant
            x <= cs,
            bytecode@.len() == old(bytecode)@.len(),
            forall|y: int| 0 <= y < bytecode@.len() ==> bytecode@[y] == (
                if i * cs <= y < i * cs + x {
                    old(bytecode)@[y - i * cs + j * cs]
                } else if j * cs <= y < j * cs + x {
                    old(bytecode)@[y - j * cs + i * cs]
                } else {
                    old(bytecode)@[y]
                }),
        decreases cs - x,
    {
        let a = bytecode[i * cs + x];
        let b = bytecode[j * cs + x];
        bytecode[i * cs + x] = b;
        bytecode[j * cs + x] = a;
        x += 1;
    }
    proof {
        assert(bytecode@ =~= chunk_swap(
            old(bytecode)@,
            old(bytecode)@.len() / (REGISTER_COUNT as nat),
            i as nat,
            j as nat,
        ));
    }
}

impl Vm {
    /// Decode the operation under the program counter, advancing the
    /// counter past any operand bytes that were read.
    fn parse_op(&mut self, bytecode: &Vec<u8>) -> (r: Option<Op>)
        ensures
            final(self).max_instructions == old(self).max_instructions,
            final(self).state.buf_index == old(self).state.buf_index,
            final(self).state.total_for_run == old(self).state.total_for_run,
            ({
                let (op, p2) = decode_spec(bytecode@, old(self).state.pc as nat);
                r == op && final(self).state.pc as nat == p2
            }),
            r matches Some(op) ==> op.valid(),
            r is Some ==> final(self).state.pc < bytecode@.len(),
            old(self).state.pc <= final(self).state.pc,
            bytecode@.len() <= usize::MAX,
            final(self).state.pc > old(self).state.pc ==> final(self).state.pc < bytecode@.len(),
    {
        let pc0 = self.state.pc;
        if pc0 >= bytecode.len() {
            return None;
        }
        let tag = bytecode[pc0];
        if tag == Opcode::Copy.byte() || tag == Opcode::Swap.byte() {
            if pc0 + 1 >= bytecode.len() {
                return None;
            }
            let i = bytecode[pc0 + 1] as usize % REGISTER_COUNT;
            self.state.pc = pc0 + 1;
            if pc0 + 2 >= bytecode.len() {
                return None;
            }
            let j = bytecode[pc0 + 2] as usize % REGISTER_COUNT;
            self.state.pc = pc0 + 2;
            if tag == Opcode::Swap.byte() {
                Some(Op::Swap(i, j))
            } else {
                Some(Op::Copy(i, j))
            }
        } else {
            if pc0 + 1 >= bytecode.len() {
                return None;
            }
            let i = bytecode[pc0 + 1] as usize % REGISTER_COUNT;
            if tag == Opcode::Jump.byte() {
                self.state.pc = pc0 + 1;
                Some(Op::Jump(i))
            } else if tag == Opcode::CopyFromSelf.byte() {
                self.state.pc = pc0 + 1;
                Some(Op::Copy(pc0 % REGISTER_COUNT, i))
            } else if tag == Opcode::Flip.byte() {
                self.state.pc = pc0 + 1;
                Some(Op::Flip(i))
            } else if tag == Opcode::Sample.byte() {
                self.state.pc = pc0 + 1;
                Some(Op::Sample(i))
            } else {
                None
            }
        }
    }

    /// Execute one decoded operation: mutate the bytecode if
    /// self-modification permits, and forward the operation to the backend
    /// for its audio-domain effect.
    fn run_op<B: Backend>(
        &mut self,
        op: Op,
        bytecode: &mut Vec<u8>,
        backend: &mut B,
        self_modify: bool,
    )
        requires
            op.valid(),
            op is Sample ==> old(self).state.pc < old(bytecode)@.len(),
        ensures
            final(self).max_instructions == old(self).max_instructions,
            final(self).state.buf_index == old(self).state.buf_index,
            final(self).state.total_for_run == old(self).state.total_for_run,
            final(self).state.pc == (match op {
                Op::Jump(t) => t,
                _ => old(self).state.pc,
            }),
            final(bytecode)@.len() == old(bytecode)@.len(),
            (match op {
                Op::Sample(_) => exists|sb: Option<u8>|
                    final(bytecode)@ == apply_op(
                        old(bytecode)@,
                        op,
                        old(self).state.pc as nat,
                        self_modify,
                        sb,
                    ),
                _ => final(bytecode)@ == apply_op(
                    old(bytecode)@,
                    op,
                    old(self).state.pc as nat,
                    self_modify,
                    None,
                ),
            }),
            !self_modify ==> final(bytecode)@ == old(bytecode)@,
    {
        match op {
            Op::Copy(from, to) => {
                if self_modify {
                    chunk_copy_exec(bytecode, from, to);
                }
                backend.run(op, &self.state);
            },
            Op::Jump(i) => {
                self.state.pc = i;
                backend.run(op, &self.state);
            },
            Op::Sample(_) => {
                let sampled = backend.run(op, &self.state);
                if self_modify {
                    if let Some(b) = sampled {
                        let pc = self.state.pc;
                        bytecode[pc] = b;
                    }
                }
                proof {
                    assert(bytecode@ == apply_op(
                        old(bytecode)@,
                        op,
                        old(self).state.pc as nat,
                        self_modify,
                        sampled,
                    ));
                }
            },
            Op::Swap(i, j) => {
                if self_modify {
                    chunk_swap_exec(bytecode, i, j);
                }
                backend.run(op, &self.state);
            },
            Op::Flip(_) => {
            },
        }
    }

    /// Advance all three cursors by one.
    fn increment(&mut self)
        requires
            old(self).state.pc < usize::MAX,
            old(self).state.buf_index < usize::MAX,
            old(self).state.total_for_run < usize::MAX,
        ensures
            final(self).max_instructions == old(self).max_instructions,
            final(self).state.pc == old(self).state.pc + 1,
            final(self).state.buf_index == old(self).state.buf_index + 1,
            final(self).state.total_for_run == old(self).state.total_for_run + 1,
    {
        self.state.pc = self.state.pc + 1;
        self.state.total_for_run = self.state.total_for_run + 1;
        self.state.buf_index = self.state.buf_index + 1;
    }

    /// Prepare for the next run.
    fn reset(&mut self)
        ensures
            final(self).max_instructions == old(self).max_instructions,
            final(self).state.pc == 0,
            final(self).state.buf_index == 0,
            final(self).state.total_for_run == 0,
    {
        self.state.pc = 0;
        self.state.total_for_run = 0;
        self.state.buf_index = 0;
    }

    /// Execute one step: decode at the program counter, execute what was
    /// decoded (an out-of-bounds or unknown decode is a no-op), advance
    /// the cursors, and notify the backend.
    ///
    /// A jump sets the counter to its (modulo-reduced) target, which the
    /// trailing advance then moves one past; every other step leaves the
    /// counter strictly beyond where it started.
    pub fn step<B: Backend>(
        &mut self,
        bytecode: &mut Vec<u8>,
        backend: &mut B,
        self_modify: bool,
    )
        requires
            old(self).state.pc < usize::MAX,
            old(self).state.buf_index < usize::MAX,
            old(self).state.total_for_run < usize::MAX,
        ensures
            final(self).max_instructions == old(self).max_instructions,
            final(bytecode)@.len() == old(bytecode)@.len(),
            final(self).state.total_for_run == old(self).state.total_for_run + 1,
            final(self).state.buf_index == old(self).state.buf_index + 1,
            step_rel(
                old(bytecode)@,
                old(self).state.pc as nat,
                final(bytecode)@,
                final(self).state.pc as nat,
                self_modify,
            ),
            ({
                let (op, p2) = decode_spec(old(bytecode)@, old(self).state.pc as nat);
                (match op {
                    Some(o) => !(o is Jump),
                    None => true,
                }) ==> final(self).state.pc > old(self).state.pc
            }),
            !self_modify ==> final(bytecode)@ == old(bytecode)@,
    {
        let op = self.parse_op(bytecode);
        if let Some(op) = op {
            self.run_op(op, bytecode, backend, self_modify);
        }
        self.increment();
        backend.notify(&self.state);
    }

    /// Run the VM over the whole buffer: reset the cursors, then step while
    /// the program counter is inside the buffer and the instruction cap is
    /// not exhausted.
    ///
    /// The final bytecode and cursor are what a chain of exactly
    /// `total_for_run` VM steps from the reset state reaches, and the cap
    /// bounds that work, even under adversarial cyclic jumps, at
    /// `max_instructions + 1` steps.  With self-modification disabled, and
    /// on a buffer of nothing but `Noop` bytes whatever the flag, the
    /// bytecode comes back byte-for-byte unchanged.
    #[verifier::loop_isolation(false)]
    pub fn run<B: Backend>(
        &mut self,
        bytecode: &mut Vec<u8>,
        backend: &mut B,
        self_modify: bool,
    )
        requires
            old(self).max_instructions < usize::MAX,
        ensures
            final(self).max_instructions == old(self).max_instructions,
            final(bytecode)@.len() == old(bytecode)@.len(),
            final(self).state.total_for_run <= final(self).max_instructions + 1,
            final(self).state.buf_index == final(self).state.total_for_run,
            !self_modify ==> final(bytecode)@ == old(bytecode)@,
            all_noop(old(bytecode)@) ==> final(bytecode)@ == old(bytecode)@,
            steps(
                old(bytecode)@,
                0,
                final(bytecode)@,
                final(self).state.pc as nat,
                final(self).state.total_for_run as nat,
                self_modify,
            ),
            !(final(self).state.pc < final(bytecode)@.len()
                && final(self).state.total_for_run <= final(self).max_instructions),
    {
        self.reset();
        while self.state.pc < bytecode.len()
            && self.state.total_for_run <= self.max_instructions
            invariant
                self.max_instructions == old(self).max_instructions,
                bytecode@.len() == old(bytecode)@.len(),
                self.state.total_for_run <= self.max_instructions + 1,
                self.state.buf_index == self.state.total_for_run,
                !self_modify ==> bytecode@ == old(bytecode)@,
                all_noop(old(bytecode)@) ==> bytecode@ == old(bytecode)@,
                steps(
                    old(bytecode)@,
                    0,
                    bytecode@,
                    self.state.pc as nat,
                    self.state.total_for_run as nat,
                    self_modify,
                ),
            decreases self.max_instructions + 1 - self.state.total_for_run,
        {
            proof {
                if all_noop(old(bytecode)@) {
                    assert(bytecode@[self.state.pc as int] == 0u8);
                    assert(decode_spec(bytecode@, self.state.pc as nat).0 is None);
                }
            }
            let ghost pre_b = bytecode@;
            let ghost pre_pc = self.state.pc;
            let ghost pre_total = self.state.total_for_run;
            self.step(bytecode, backend, self_modify);
            proof {
                lemma_steps_extend(
                    old(bytecode)@,
                    0,
                    pre_b,
                    pre_pc as nat,
                    pre_total as nat,
                    bytecode@,
                    self.state.pc as nat,
                    self_modify,
                );
            }
        }
    }
}

} // verus!
