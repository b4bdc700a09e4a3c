//! Assembly of a flat instruction list into a fixed-length byte buffer.
//!
//! Every operand is validated against the encoding constraints; errors are
//! collected exhaustively across all instructions.  On success the encoded
//! stream is right-padded with `Noop` bytes (or truncated) to exactly the
//! requested length.

use vstd::prelude::*;

use crate::op::Opcode;
use crate::parse::{Atom, Gtch};

verus! {

/// Why an instruction could not be encoded.
#[derive(Clone, Copy, Debug, PartialEq, Eq, Structural)]
pub enum AssembleError {
    /// An operand kind is illegal for its opcode, such as a range where a
    /// single index is required, or a program-counter atom, which only the
    /// VM can resolve.
    ArgumentKind,
    /// A range used as a copy source is empty.
    EmptyRange,
    /// An operand does not fit in the one byte the wire format allows.
    IndexOverflow,
}

/// The encoding of `Copy(src, dst)`.
///
/// The destination must be a single index; the source may also be a
/// non-empty range, which unrolls into one copy triple per source index.
pub open spec fn encode_copy(src: Atom, dst: Atom) -> Result<Seq<u8>, AssembleError> {
    match dst {
        Atom::Idx(j) => match src {
            Atom::Idx(i) => if i > 255 || j > 255 {
                Err(AssembleError::IndexOverflow)
            } else {
                Ok(seq![Opcode::Copy.byte_spec(), i as u8, j as u8])
            },
            Atom::Range(lo, hi) => if hi <= lo {
                Err(AssembleError::EmptyRange)
            } else if hi - lo + j > 255 || hi > 256 {
                Err(AssembleError::IndexOverflow)
            } else {
                Ok(range_copy_bytes(lo, hi, j))
            },
            Atom::PC => Err(AssembleError::ArgumentKind),
        },
        _ => Err(AssembleError::ArgumentKind),
    }
}

/// The `hi - lo` consecutive copy triples emitted for a range-copy: the
/// `t`-th triple copies source `lo + t` to destination `j + t`.
pub open spec fn range_copy_bytes(lo: usize, hi: usize, j: usize) -> Seq<u8> {
    Seq::new((3 * (hi - lo)) as nat, |n: int|
        if n % 3 == 0 {
            Opcode::Copy.byte_spec()
        } else if n % 3 == 1 {
            (lo + n / 3) as u8
        } else {
            (j + n / 3) as u8
        })
}

/// The encoding of a one-operand instruction (`Jump`, `Sample`).
pub open spec fn encode_single(tag: u8, a: Atom) -> Result<Seq<u8>, AssembleError> {
    match a {
        Atom::Idx(i) => if i > 255 {
            Err(AssembleError::IndexOverflow)
        } else {
            Ok(seq![tag, i as u8])
        },
        _ => Err(AssembleError::ArgumentKind),
    }
}

/// The encoding of `Swap(a, b)`: both operands must be single indices.
pub open spec fn encode_swap(a: Atom, b: Atom) -> Result<Seq<u8>, AssembleError> {
    match a {
        Atom::Idx(i) => match b {
            Atom::Idx(j) => if i > 255 || j > 255 {
                Err(AssembleError::IndexOverflow)
            } else {
                Ok(seq![Opcode::Swap.byte_spec(), i as u8, j as u8])
            },
            _ => Err(AssembleError::ArgumentKind),
        },
        _ => Err(AssembleError::ArgumentKind),
    }
}

/// The encoding of one flat instruction node.
pub open spec fn encode_gtch(g: Gtch) -> Result<Seq<u8>, AssembleError> {
    match g {
        Gtch::Copy(src, dst) => encode_copy(src, dst),
        Gtch::Jump(a) => encode_single(Opcode::Jump.byte_spec(), a),
        Gtch::Sample(a) => encode_single(Opcode::Sample.byte_spec(), a),
        Gtch::Swap(a, b) => encode_swap(a, b),
        Gtch::RepeatGroup { .. } => Err(AssembleError::ArgumentKind),
    }
}

/// Every encoding error of `gs`, in instruction order (one per failing
/// instruction).
pub open spec fn assemble_errors(gs: Seq<Gtch>) -> Seq<AssembleError>
    decreases gs.len(),
{
    if gs.len() == 0 {
        Seq::empty()
    } else {
        match encode_gtch(gs[0]) {
            Ok(_) => assemble_errors(gs.drop_first()),
            Err(e) => seq![e] + assemble_errors(gs.drop_first()),
        }
    }
}

/// The concatenated encodings of `gs`, skipping failing instructions.
pub open spec fn assemble_bytes(gs: Seq<Gtch>) -> Seq<u8>
    decreases gs.len(),
{
    if gs.len() == 0 {
        Seq::empty()
    } else {
        (match encode_gtch(gs[0]) {
            Ok(b) => b,
            Err(_) => Seq::empty(),
        }) + assemble_bytes(gs.drop_first())
    }
}

/// `b` right-padded with `Noop` (zero) bytes, or truncated, to length `len`.
pub open spec fn pad_to(b: Seq<u8>, len: nat) -> Seq<u8> {
    if b.len() >= len {
        b.take(len as int)
    } else {
        b + Seq::new((len - b.len()) as nat, |i: int| 0u8)
    }
}

/// Appending one instruction extends the collected errors and bytes by
/// exactly that instruction's contribution.
pub proof fn lemma_assemble_snoc(gs: Seq<Gtch>, g: Gtch)
    ensures
        assemble_errors(gs.push(g)) == assemble_errors(gs) + (match encode_gtch(g) {
            Ok(_) => Seq::<AssembleError>::empty(),
            Err(e) => seq![e],
        }),
        assemble_bytes(gs.push(g)) == assemble_bytes(gs) + (match encode_gtch(g) {
            Ok(b) => b,
            Err(_) => Seq::<u8>::empty(),
        }),
    decreases gs.len(),
{
    let errtail = (match encode_gtch(g) {
        Ok(_) => Seq::<AssembleError>::empty(),
        Err(e) => seq![e],
    });
    let bytetail = (match encode_gtch(g) {
        Ok(b) => b,
        Err(_) => Seq::<u8>::empty(),
    });
    if gs.len() == 0 {
        reveal_with_fuel(assemble_errors, 2);
        reveal_with_fuel(assemble_bytes, 2);
        assert(gs.push(g)[0] == g);
        assert(gs.push(g).drop_first() =~= Seq::<Gtch>::empty());
        assert(assemble_errors(gs.push(g)) =~= assemble_errors(gs) + errtail);
        assert(assemble_bytes(gs.push(g)) =~= assemble_bytes(gs) + bytetail);
    } else {
        assert(gs.push(g).drop_first() =~= gs.drop_first().push(g));
        lemma_assemble_snoc(gs.drop_first(), g);
        assert(gs.push(g)[0] == gs[0]);
        assert(assemble_errors(gs.push(g)) =~= assemble_errors(gs) + errtail);
        assert(assemble_bytes(gs.push(g)) =~= assemble_bytes(gs) + bytetail);
    }
}

/// Encode one flat instruction, appending its bytes to `out` on success.
fn encode_instr(g: &Gtch, out: &mut Vec<u8>) -> (r: Option<AssembleError>)
    requires
        g.is_flat(),
    ensures
        match encode_gtch(*g) {
            Ok(b) => r is None && final(out)@ == old(out)@ + b,
            Err(e) => r == Some(e) && final(out)@ == old(out)@,
        },
{
    match g {
        Gtch::Copy(src, dst) => {
            let j = match dst {
                Atom::Idx(j) => *j,
                _ => {
                    return Some(AssembleError::ArgumentKind);
                },
            };
            match src {
                Atom::Idx(i) => {
                    if *i > 255 || j > 255 {
                        Some(AssembleError::IndexOverflow)
                    } else {
                        out.push(Opcode::Copy.byte());
                        out.push(*i as u8);
                        out.push(j as u8);
                        proof {
                            assert(out@ =~= old(out)@ + encode_copy(*src, *dst)->Ok_0);
                        }
                        None
                    }
                },
                Atom::Range(lo, hi) => {
                    let lo = *lo;
                    let hi = *hi;
                    if hi <= lo {
                        Some(AssembleError::EmptyRange)
                    } else if hi - lo > 255 || j > 255 - (hi - lo) || hi > 256 {
                        proof {
                            assert(hi - lo + j > 255 || hi > 256);
                        }
                        Some(AssembleError::IndexOverflow)
                    } else {
                        let ghost base = out@;
                        let mut k = lo;
                        while k < hi
                            invariant
                                lo <= k <= hi,
                                hi - lo + j <= 255,
                                hi <= 256,
                                out@ == base + range_copy_bytes(lo, hi, j).take(3 * (k - lo)),
                            decreases hi - k,
                        {
                            let ghost before = out@;
                            out.push(Opcode::Copy.byte());
                            out.push(k as u8);
                            out.push((j + (k - lo)) as u8);
                            proof {
                                let t = k - lo;
                                let full = range_copy_bytes(lo, hi, j);
                                assert(full[3 * t] == Opcode::Copy.byte_spec());
                                assert(full[3 * t + 1] == (lo + t) as u8);
                                assert(full[3 * t + 2] == (j + t) as u8);
                                assert(out@ =~= base + full.take(3 * t + 3));
                            }
                            k += 1;
                        }
                        proof {
                            assert(range_copy_bytes(lo, hi, j).take(3 * (hi - lo))
                                =~= range_copy_bytes(lo, hi, j));
                            assert(out@ =~= base + encode_copy(*src, *dst)->Ok_0);
                        }
                        None
                    }
                },
                Atom::PC => Some(AssembleError::ArgumentKind),
            }
        },
        Gtch::Jump(a) => encode_one_operand(Opcode::Jump, a, out),
        Gtch::Sample(a) => encode_one_operand(Opcode::Sample, a, out),
        Gtch::Swap(a, b) => {
            let i = match a {
                Atom::Idx(i) => *i,
                _ => {
                    return Some(AssembleError::ArgumentKind);
                },
            };
            let j = match b {
                Atom::Idx(j) => *j,
                _ => {
                    return Some(AssembleError::ArgumentKind);
                },
            };
            if i > 255 || j > 255 {
                Some(AssembleError::IndexOverflow)
            } else {
                out.push(Opcode::Swap.byte());
                out.push(i as u8);
                out.push(j as u8);
                proof {
                    assert(out@ =~= old(out)@ + encode_swap(*a, *b)->Ok_0);
                }
                None
            }
        },
        Gtch::RepeatGroup { .. } => {
            proof {
                assert(false);
            }
            Some(AssembleError::ArgumentKind)
        },
    }
}

/// Encode a one-operand instruction (`Jump` or `Sample`).
fn encode_one_operand(tag: Opcode, a: &Atom, out: &mut Vec<u8>) -> (r: Option<AssembleError>)
    ensures
        match encode_single(tag.byte_spec(), *a) {
            Ok(b) => r is None && final(out)@ == old(out)@ + b,
            Err(e) => r == Some(e) && final(out)@ == old(out)@,
        },
{
    match a {
        Atom::Idx(i) => {
            if *i > 255 {
                Some(AssembleError::IndexOverflow)
            } else {
                out.push(tag.byte());
                out.push(*i as u8);
                proof {
                    assert(out@ =~= old(out)@ + encode_single(tag.byte_spec(), *a)->Ok_0);
                }
                None
            }
        },
        _ => Some(AssembleError::ArgumentKind),
    }
}

/// Assemble a flat instruction list into a byte buffer of exactly
/// `bytecode_size` bytes.
///
/// All instructions are encoded independently and concatenated in input
/// order; validation collects every error before returning.  A successful
/// result is right-padded with `Noop` bytes, or truncated, to the target
/// length.
pub fn assemble(gtch: &Vec<Gtch>, bytecode_size: usize) -> (r: Result<Vec<u8>, Vec<AssembleError>>)
    requires
        forall|i: int| 0 <= i < gtch@.len() ==> (#[trigger] gtch@[i]).is_flat(),
    ensures
        assemble_errors(gtch@).len() == 0 ==> (r matches Ok(b)
            && b@ == pad_to(assemble_bytes(gtch@), bytecode_size as nat)),
        assemble_errors(gtch@).len() > 0 ==> (r matches Err(e) && e@ == assemble_errors(gtch@)),
        r matches Ok(b) ==> b@.len() == bytecode_size,
{
    let mut bytes: Vec<u8> = Vec::new();
    let mut errs: Vec<AssembleError> = Vec::new();
    let mut idx: usize = 0;
    while idx < gtch.len()
        invariant
            idx <= gtch@.len(),
            forall|i: int| 0 <= i < gtch@.len() ==> (#[trigger] gtch@[i]).is_flat(),
            errs@ == assemble_errors(gtch@.take(idx as int)),
            bytes@ == assemble_bytes(gtch@.take(idx as int)),
        decreases gtch@.len() - idx,
    {
        proof {
            assert(gtch@.take(idx + 1) =~= gtch@.take(idx as int).push(gtch@[idx as int]));
            lemma_assemble_snoc(gtch@.take(idx as int), gtch@[idx as int]);
        }
        match encode_instr(&gtch[idx], &mut bytes) {
            Some(e) => errs.push(e),
            None => {},
        }
        idx += 1;
    }
    proof {
        assert(gtch@.take(gtch@.len() as int) =~= gtch@);
    }
    if errs.len() > 0 {
        return Err(errs);
    }
    if bytes.len() >= bytecode_size {
        bytes.truncate(bytecode_size);
        proof {
            assert(bytes@ =~= pad_to(assemble_bytes(gtch@), bytecode_size as nat));
        }
    } else {
        let ghost body = bytes@;
        while bytes.len() < bytecode_size
            invariant
                body.len() <= bytes@.len() <= bytecode_size,
                bytes@.take(body.len() as int) == body,
                forall|i: int| body.len() <= i < bytes@.len() ==> bytes@[i] == 0u8,
            decreases bytecode_size - bytes@.len(),
        {
            proof {
                let pre = bytes@;
                assert(pre.push(0u8).take(body.len() as int) =~= pre.take(body.len() as int));
            }
            bytes.push(0u8);
        }
        proof {
            assert(bytes@ =~= pad_to(assemble_bytes(gtch@), bytecode_size as nat));
        }
    }
    Ok(bytes)
}

/// The `t`-th instruction triple of an encoded byte stream: its tag byte
/// and its two operand bytes.
pub open spec fn copy_triple(b: Seq<u8>, t: int) -> (u8, u8, u8) {
    (b[3 * t], b[3 * t + 1], b[3 * t + 2])
}

/// Range-copy contiguity: a successfully encoded `Copy(Range(lo, hi), Idx(j))`
/// consists of exactly `hi - lo` copy triples whose source indices run
/// consecutively from `lo` and whose destination indices run consecutively
/// from `j`.
pub proof fn lemma_range_copy_contiguity(lo: usize, hi: usize, j: usize)
    requires
        encode_copy(Atom::Range(lo, hi), Atom::Idx(j)) is Ok,
    ensures
        ({
            let b = encode_copy(Atom::Range(lo, hi), Atom::Idx(j))->Ok_0;
            &&& lo < hi
            &&& b.len() == 3 * (hi - lo)
            &&& forall|t: int| 0 <= t < hi - lo ==> #[trigger] copy_triple(b, t)
                == (Opcode::Copy.byte_spec(), (lo + t) as u8, (j + t) as u8)
        }),
{
    let b = encode_copy(Atom::Range(lo, hi), Atom::Idx(j))->Ok_0;
    assert forall|t: int| 0 <= t < hi - lo implies #[trigger] copy_triple(b, t)
        == (Opcode::Copy.byte_spec(), (lo + t) as u8, (j + t) as u8) by {
        assert((3 * t) % 3 == 0 && (3 * t) / 3 == t);
        assert((3 * t + 1) % 3 == 1 && (3 * t + 1) / 3 == t);
        assert((3 * t + 2) % 3 == 2 && (3 * t + 2) / 3 == t);
    }
}

/// Assembly rejects invalid copy operands: a copy whose source range is
/// empty, or whose destination is a range, always surfaces an error.
pub proof fn lemma_assemble_rejects_invalid_copy(gs: Seq<Gtch>, i: int)
    requires
        0 <= i < gs.len(),
        gs[i] matches Gtch::Copy(src, dst) && ((src matches Atom::Range(lo, hi) && hi <= lo)
            || dst is Range),
    ensures
        assemble_errors(gs).len() > 0,
    decreases gs.len(),
{
    if i == 0 {
        assert(encode_gtch(gs[0]) is Err);
    } else {
        lemma_assemble_rejects_invalid_copy(gs.drop_first(), i - 1);
    }
}

} // verus!
