//! Static compilation: repeat groups are unrolled into a flat instruction
//! list, which is then assembled into bytecode.
//!
//! A repeat group of `k` children and `n` iterations expands to `k * n`
//! instructions: the children cycled `n` times, where on repetition `m`
//! every concrete `Idx` operand is incremented by `m`.  `Range` and
//! program-counter atoms are exempt from the rewrite.  Nested groups are
//! unrolled innermost first, so an outer unroll sees only concrete
//! instructions.

use vstd::prelude::*;

use crate::assemble::{assemble, assemble_bytes, assemble_errors, pad_to, AssembleError};
use crate::parse::{Atom, Gtch};

verus! {

/// An `Idx` atom incremented by `k` (saturating at the machine limit);
/// ranges and program-counter atoms are left unmodified.
pub open spec fn shift_atom(a: Atom, k: nat) -> Atom {
    match a {
        Atom::Idx(i) => if i + k > usize::MAX {
            Atom::Idx(usize::MAX)
        } else {
            Atom::Idx((i + k) as usize)
        },
        _ => a,
    }
}

/// A flat instruction with every `Idx` operand incremented by `k`.
pub open spec fn shift_gtch(g: Gtch, k: nat) -> Gtch {
    match g {
        Gtch::Copy(a, b) => Gtch::Copy(shift_atom(a, k), shift_atom(b, k)),
        Gtch::Jump(a) => Gtch::Jump(shift_atom(a, k)),
        Gtch::Sample(a) => Gtch::Sample(shift_atom(a, k)),
        Gtch::Swap(a, b) => Gtch::Swap(shift_atom(a, k), shift_atom(b, k)),
        Gtch::RepeatGroup { .. } => g,
    }
}

/// The `m`-th repetition block: the whole child sequence shifted by `m`.
pub open spec fn repeat_block(children: Seq<Gtch>, m: nat) -> Seq<Gtch> {
    Seq::new(children.len(), |i: int| shift_gtch(children[i], m))
}

/// A repeat group of `children` unrolled `iters` times: blocks for
/// repetitions `0, 1, ..., iters - 1`, concatenated in order.
pub open spec fn unroll_group(children: Seq<Gtch>, iters: nat) -> Seq<Gtch>
    decreases iters,
{
    if iters == 0 {
        Seq::empty()
    } else {
        unroll_group(children, (iters - 1) as nat) + repeat_block(children, (iters - 1) as nat)
    }
}

/// The flat expansion of one instruction node: repeat groups expand
/// bottom-up, everything else passes through unchanged.
pub open spec fn flatten_gtch(g: Gtch) -> Seq<Gtch>
    decreases g, 1int,
{
    match g {
        Gtch::RepeatGroup { max_iters, children } => unroll_group(
            flatten_seq(children@),
            max_iters as nat,
        ),
        _ => seq![g],
    }
}

/// The flat expansion of an instruction sequence, in order.
pub open spec fn flatten_seq(gs: Seq<Gtch>) -> Seq<Gtch>
    decreases gs, 0int,
{
    if gs.len() == 0 {
        Seq::empty()
    } else {
        flatten_gtch(gs[0]) + flatten_seq(gs.drop_first())
    }
}

/// Shifting keeps an instruction flat.
pub proof fn lemma_shift_flat(g: Gtch, k: nat)
    requires
        g.is_flat(),
    ensures
        shift_gtch(g, k).is_flat(),
{
}

/// Every instruction of a flat expansion is flat.
pub proof fn lemma_flatten_gtch_flat(g: Gtch)
    ensures
        forall|i: int| 0 <= i < flatten_gtch(g).len() ==> (#[trigger] flatten_gtch(g)[i]).is_flat(),
    decreases g, 1int,
{
    match g {
        Gtch::RepeatGroup { max_iters, children } => {
            lemma_flatten_seq_flat(children@);
            lemma_unroll_group_flat(flatten_seq(children@), max_iters as nat);
        },
        _ => {},
    }
}

/// Every instruction of a flat sequence expansion is flat.
pub proof fn lemma_flatten_seq_flat(gs: Seq<Gtch>)
    ensures
        forall|i: int| 0 <= i < flatten_seq(gs).len() ==> (#[trigger] flatten_seq(gs)[i]).is_flat(),
    decreases gs, 0int,
{
    if gs.len() > 0 {
        lemma_flatten_gtch_flat(gs[0]);
        lemma_flatten_seq_flat(gs.drop_first());
        let head = flatten_gtch(gs[0]);
        let tail = flatten_seq(gs.drop_first());
        assert forall|i: int| 0 <= i < flatten_seq(gs).len()
            implies (#[trigger] flatten_seq(gs)[i]).is_flat() by {
            if i < head.len() {
                assert(flatten_seq(gs)[i] == head[i]);
            } else {
                assert(flatten_seq(gs)[i] == tail[i - head.len()]);
            }
        }
    }
}

/// Unrolling a flat child sequence yields only flat instructions.
pub proof fn lemma_unroll_group_flat(children: Seq<Gtch>, iters: nat)
    requires
        forall|i: int| 0 <= i < children.len() ==> (#[trigger] children[i]).is_flat(),
    ensures
        forall|i: int| 0 <= i < unroll_group(children, iters).len()
            ==> (#[trigger] unroll_group(children, iters)[i]).is_flat(),
    decreases iters,
{
    if iters > 0 {
        let prev = (iters - 1) as nat;
        lemma_unroll_group_flat(children, prev);
        let head = unroll_group(children, prev);
        let block = repeat_block(children, prev);
        assert forall|i: int| 0 <= i < unroll_group(children, iters).len()
            implies (#[trigger] unroll_group(children, iters)[i]).is_flat() by {
            if i < head.len() {
                assert(unroll_group(children, iters)[i] == head[i]);
            } else {
                assert(unroll_group(children, iters)[i] == block[i - head.len()]);
                lemma_shift_flat(children[i - head.len()], prev);
            }
        }
    }
}

/// Unroll count: a repeat group of `k` children and `n` iterations expands
/// to exactly `k * n` instructions, and the `m`-th block's instructions are
/// the children shifted by `m`.
pub proof fn lemma_unroll_count(children: Seq<Gtch>, iters: nat)
    ensures
        unroll_group(children, iters).len() == children.len() * iters,
        forall|m: nat, i: int| m < iters && 0 <= i < children.len()
            ==> unroll_group(children, iters)[m * children.len() + i]
                == #[trigger] shift_gtch(children[i], m),
    decreases iters,
{
    if iters > 0 {
        let prev = (iters - 1) as nat;
        let len = children.len();
        lemma_unroll_count(children, prev);
        assert(unroll_group(children, iters)
            == unroll_group(children, prev) + repeat_block(children, prev));
        assert(repeat_block(children, prev).len() == len);
        assert(unroll_group(children, iters).len() == len * prev + len);
        assert(len * iters == len * prev + len) by (nonlinear_arith)
            requires iters == prev + 1;
        assert forall|m: nat, i: int| m < iters && 0 <= i < children.len()
            implies unroll_group(children, iters)[m * children.len() + i]
                == #[trigger] shift_gtch(children[i], m) by {
            if m < prev {
                assert(0 <= m * len + i < prev * len) by (nonlinear_arith)
                    requires m < prev && 0 <= i < len;
                assert(prev * len == len * prev) by (nonlinear_arith);
                assert(unroll_group(children, iters)[m * len + i]
                    == unroll_group(children, prev)[m * len + i]);
            } else {
                assert(m == prev);
                assert(m * len == len * prev) by (nonlinear_arith)
                    requires m == prev;
                assert(unroll_group(children, iters)[m * len + i]
                    == repeat_block(children, prev)[i]);
            }
        }
    }
}

/// Expanding one more instruction appends its flat expansion.
pub proof fn lemma_flatten_seq_snoc(gs: Seq<Gtch>, g: Gtch)
    ensures
        flatten_seq(gs.push(g)) == flatten_seq(gs) + flatten_gtch(g),
    decreases gs.len(),
{
    if gs.len() == 0 {
        reveal_with_fuel(flatten_seq, 2);
        assert(gs.push(g)[0] == g);
        assert(gs.push(g).drop_first() =~= Seq::<Gtch>::empty());
        assert(flatten_seq(gs.push(g)) =~= flatten_seq(gs) + flatten_gtch(g));
    } else {
        assert(gs.push(g).drop_first() =~= gs.drop_first().push(g));
        lemma_flatten_seq_snoc(gs.drop_first(), g);
        assert(gs.push(g)[0] == gs[0]);
        assert(flatten_seq(gs.push(g)) =~= flatten_seq(gs) + flatten_gtch(g));
    }
}

/// A flat instruction with every `Idx` operand incremented by `m`,
/// saturating at the machine limit.
fn shift_instr(g: &Gtch, m: usize) -> (r: Gtch)
    requires
        g.is_flat(),
    ensures
        r == shift_gtch(*g, m as nat),
{
    match g {
        Gtch::Copy(a, b) => Gtch::Copy(shift_atom_exec(a, m), shift_atom_exec(b, m)),
        Gtch::Jump(a) => Gtch::Jump(shift_atom_exec(a, m)),
        Gtch::Sample(a) => Gtch::Sample(shift_atom_exec(a, m)),
        Gtch::Swap(a, b) => Gtch::Swap(shift_atom_exec(a, m), shift_atom_exec(b, m)),
        Gtch::RepeatGroup { .. } => unreached(),
    }
}

/// An `Idx` atom incremented by `m`, saturating at the machine limit.
fn shift_atom_exec(a: &Atom, m: usize) -> (r: Atom)
    ensures
        r == shift_atom(*a, m as nat),
{
    match a {
        Atom::Idx(i) => match i.checked_add(m) {
            Some(s) => Atom::Idx(s),
            None => Atom::Idx(usize::MAX),
        },
        Atom::Range(lo, hi) => Atom::Range(*lo, *hi),
        Atom::PC => Atom::PC,
    }
}

/// Append the flat expansion of `g` to `out`.
#[verifier::loop_isolation(false)]
fn flatten_into(g: &Gtch, out: &mut Vec<Gtch>)
    ensures
        final(out)@ == old(out)@ + flatten_gtch(*g),
    decreases *g,
{
    match g {
        Gtch::RepeatGroup { max_iters, children } => {
            let mut base: Vec<Gtch> = Vec::new();
            let mut ci: usize = 0;
            while ci < children.len()
                invariant
                    ci <= children@.len(),
                    base@ == flatten_seq(children@.take(ci as int)),
                decreases children@.len() - ci,
            {
                proof {
                    assert(children@.take(ci + 1)
                        =~= children@.take(ci as int).push(children@[ci as int]));
                    lemma_flatten_seq_snoc(children@.take(ci as int), children@[ci as int]);
                    broadcast use vstd::std_specs::vec::axiom_vec_index_decreases;
                    assert(g->RepeatGroup_children == *children);
                    assert(decreases_to!(*g => g->RepeatGroup_children));
                    assert(decreases_to!(*children => children@[ci as int]));
                }
                flatten_into(&children[ci], &mut base);
                ci += 1;
            }
            proof {
                assert(children@.take(children@.len() as int) =~= children@);
                lemma_flatten_seq_flat(children@);
            }
            let mut m: usize = 0;
            while m < *max_iters
                invariant
                    m <= *max_iters,
                    base@ == flatten_seq(children@),
                    forall|i: int| 0 <= i < base@.len() ==> (#[trigger] base@[i]).is_flat(),
                    out@ == old(out)@ + unroll_group(base@, m as nat),
                decreases *max_iters - m,
            {
                let mut bi: usize = 0;
                while bi < base.len()
                    invariant
                        bi <= base@.len(),
                        m < *max_iters,
                        forall|i: int| 0 <= i < base@.len() ==> (#[trigger] base@[i]).is_flat(),
                        out@ == old(out)@ + unroll_group(base@, m as nat)
                            + repeat_block(base@, m as nat).take(bi as int),
                    decreases base@.len() - bi,
                {
                    let shifted = shift_instr(&base[bi], m);
                    out.push(shifted);
                    proof {
                        assert(repeat_block(base@, m as nat).take(bi + 1)
                            =~= repeat_block(base@, m as nat).take(bi as int)
                                .push(shift_gtch(base@[bi as int], m as nat)));
                        assert(out@ =~= old(out)@ + unroll_group(base@, m as nat)
                            + repeat_block(base@, m as nat).take(bi + 1));
                    }
                    bi += 1;
                }
                proof {
                    assert(repeat_block(base@, m as nat).take(base@.len() as int)
                        =~= repeat_block(base@, m as nat));
                    assert(out@ =~= old(out)@ + unroll_group(base@, (m + 1) as nat));
                }
                m += 1;
            }
        },
        Gtch::Copy(a, b) => {
            out.push(Gtch::Copy(*a, *b));
            proof {
                assert(out@ =~= old(out)@ + flatten_gtch(*g));
            }
        },
        Gtch::Jump(a) => {
            out.push(Gtch::Jump(*a));
            proof {
                assert(out@ =~= old(out)@ + flatten_gtch(*g));
            }
        },
        Gtch::Sample(a) => {
            out.push(Gtch::Sample(*a));
            proof {
                assert(out@ =~= old(out)@ + flatten_gtch(*g));
            }
        },
        Gtch::Swap(a, b) => {
            out.push(Gtch::Swap(*a, *b));
            proof {
                assert(out@ =~= old(out)@ + flatten_gtch(*g));
            }
        },
    }
}

/// Compile an instruction tree: unroll every repeat group into the flat
/// list `flatten_seq(ast)`, then assemble that list into a byte buffer of
/// exactly `bytecode_len` bytes.
pub fn compile(ast: &Vec<Gtch>, bytecode_len: usize) -> (r: Result<Vec<u8>, Vec<AssembleError>>)
    ensures
        assemble_errors(flatten_seq(ast@)).len() == 0 ==> (r matches Ok(b)
            && b@ == pad_to(assemble_bytes(flatten_seq(ast@)), bytecode_len as nat)),
        assemble_errors(flatten_seq(ast@)).len() > 0 ==> (r matches Err(e)
            && e@ == assemble_errors(flatten_seq(ast@))),
        r matches Ok(b) ==> b@.len() == bytecode_len,
{
    let mut ir: Vec<Gtch> = Vec::new();
    let mut i: usize = 0;
    while i < ast.len()
        invariant
            i <= ast@.len(),
            ir@ == flatten_seq(ast@.take(i as int)),
        decreases ast@.len() - i,
    {
        proof {
            assert(ast@.take(i + 1) =~= ast@.take(i as int).push(ast@[i as int]));
            lemma_flatten_seq_snoc(ast@.take(i as int), ast@[i as int]);
        }
        flatten_into(&ast[i], &mut ir);
        i += 1;
    }
    proof {
        assert(ast@.take(ast@.len() as int) =~= ast@);
        lemma_flatten_seq_flat(ast@);
    }
    assemble(&ir, bytecode_len)
}

} // verus!
