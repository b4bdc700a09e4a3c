//! The source language: operand atoms, instruction nodes, and the parser.

use vstd::prelude::*;
use vstd::string::StrSliceExecFns;

verus! {

/// An operand reference.
///
/// Constructed by the parser, consumed and validated by the assembler;
/// never mutated after creation except by the compiler's unrolling
/// offset rewrite.
#[derive(Clone, Copy, Debug, PartialEq, Eq, Structural)]
pub enum Atom {
    /// A single register/chunk number.
    Idx(usize),
    /// A contiguous half-open span `[lo, hi)` of register numbers.
    Range(usize, usize),
    /// Whatever the instruction pointer is at execution time; resolved
    /// only by the VM, never by the assembler.
    PC,
}

/// An instruction node of the source tree.
#[derive(Debug, PartialEq)]
pub enum Gtch {
    Copy(Atom, Atom),
    Jump(Atom),
    Sample(Atom),
    Swap(Atom, Atom),
    /// A bounded repeat group; the compiler eliminates every one of these
    /// before the list reaches the assembler.
    RepeatGroup { max_iters: usize, children: Vec<Gtch> },
}

impl Gtch {
    /// A node that is not a repeat group.
    pub open spec fn is_flat(self) -> bool {
        !(self is RepeatGroup)
    }
}

/// The mathematical shape of an instruction node: the same tree with the
/// children of a repeat group as a sequence.  Spec-level parsing results
/// are stated in this form.
pub enum GtchTree {
    Copy(Atom, Atom),
    Jump(Atom),
    Sample(Atom),
    Swap(Atom, Atom),
    RepeatGroup { max_iters: usize, children: Seq<GtchTree> },
}

/// The shape of an instruction node.
pub open spec fn gtch_deep(g: Gtch) -> GtchTree
    decreases g, 1int,
{
    match g {
        Gtch::Copy(a, b) => GtchTree::Copy(a, b),
        Gtch::Jump(a) => GtchTree::Jump(a),
        Gtch::Sample(a) => GtchTree::Sample(a),
        Gtch::Swap(a, b) => GtchTree::Swap(a, b),
        Gtch::RepeatGroup { max_iters, children } => GtchTree::RepeatGroup {
            max_iters,
            children: deep_seq(children@),
        },
    }
}

/// The shapes of a sequence of instruction nodes, in order.
pub open spec fn deep_seq(gs: Seq<Gtch>) -> Seq<GtchTree>
    decreases gs, 0int,
{
    if gs.len() == 0 {
        Seq::empty()
    } else {
        seq![gtch_deep(gs[0])] + deep_seq(gs.drop_first())
    }
}

/// The shape sequence has one entry per node: the node's own shape.
pub proof fn lemma_deep_seq_props(gs: Seq<Gtch>)
    ensures
        deep_seq(gs).len() == gs.len(),
        forall|i: int| 0 <= i < gs.len() ==> deep_seq(gs)[i] == gtch_deep(#[trigger] gs[i]),
    decreases gs,
{
    if gs.len() > 0 {
        lemma_deep_seq_props(gs.drop_first());
        assert forall|i: int| 0 <= i < gs.len()
            implies deep_seq(gs)[i] == gtch_deep(#[trigger] gs[i]) by {
            if i > 0 {
                assert(deep_seq(gs)[i] == deep_seq(gs.drop_first())[i - 1]);
                assert(gs.drop_first()[i - 1] == gs[i]);
            }
        }
    }
}

/// Why a stretch of source text was rejected.
#[derive(Clone, Copy, Debug, PartialEq, Eq, Structural)]
pub enum ParseReason {
    /// No instruction can start with this character.
    UnexpectedChar,
    /// An operand atom was required here.
    ExpectedAtom,
    /// A copy or swap operator was required after this atom.
    ExpectedOperator,
    /// An integer literal does not fit the machine word.
    IntTooLarge,
    /// A repeat group must open with its iteration count.
    ExpectedIterationCount,
    /// A repeat group was never closed.
    UnclosedGroup,
}

impl ParseReason {
    /// The human-readable reading of this reason.
    pub open spec fn message_spec(self) -> Seq<char> {
        match self {
            ParseReason::UnexpectedChar => "no instruction can start with this character"@,
            ParseReason::ExpectedAtom => "expected an operand atom here"@,
            ParseReason::ExpectedOperator => "expected a copy or swap operator after this atom"@,
            ParseReason::IntTooLarge => "integer literal is too large"@,
            ParseReason::ExpectedIterationCount =>
                "a repeat group must open with its iteration count"@,
            ParseReason::UnclosedGroup => "this repeat group is never closed"@,
        }
    }

    /// The human-readable reading of this reason.
    pub fn message(&self) -> (r: &'static str)
        ensures
            r@ == self.message_spec(),
    {
        match self {
            ParseReason::UnexpectedChar => "no instruction can start with this character",
            ParseReason::ExpectedAtom => "expected an operand atom here",
            ParseReason::ExpectedOperator => "expected a copy or swap operator after this atom",
            ParseReason::IntTooLarge => "integer literal is too large",
            ParseReason::ExpectedIterationCount =>
                "a repeat group must open with its iteration count",
            ParseReason::UnclosedGroup => "this repeat group is never closed",
        }
    }
}

/// One diagnostic: the half-open span of offending characters and the
/// reason they were rejected.
#[derive(Clone, Copy, Debug, PartialEq, Eq, Structural)]
pub struct ParseError {
    pub start: usize,
    pub end: usize,
    pub reason: ParseReason,
}

/// A spec-level position clamped to the machine word.
pub open spec fn clip_usize(n: nat) -> usize {
    if n > usize::MAX {
        usize::MAX
    } else {
        n as usize
    }
}

/// Shorthand for building one diagnostic at a spec-level position.
pub open spec fn perr(start: nat, end: nat, reason: ParseReason) -> ParseError {
    ParseError { start: clip_usize(start), end: clip_usize(end), reason }
}

/// Whitespace between tokens.
pub open spec fn is_ws(c: char) -> bool {
    c == ' ' || c == '\t' || c == '\n' || c == '\r'
}

/// A decimal digit.
pub open spec fn is_digit(c: char) -> bool {
    48 <= c as int <= 57
}

/// The numeric value of a decimal digit.
pub open spec fn digit_val(c: char) -> nat {
    (c as int - 48) as nat
}

/// The first position at or after `pos` that does not hold whitespace.
pub open spec fn spec_skip_ws(s: Seq<char>, pos: nat) -> nat
    decreases s.len() - pos,
{
    if pos < s.len() && is_ws(s[pos as int]) {
        spec_skip_ws(s, pos + 1)
    } else {
        pos
    }
}

/// The first position at or after `pos` that does not hold a digit.
pub open spec fn spec_scan_digits(s: Seq<char>, pos: nat) -> nat
    decreases s.len() - pos,
{
    if pos < s.len() && is_digit(s[pos as int]) {
        spec_scan_digits(s, pos + 1)
    } else {
        pos
    }
}

/// The value of the digit run `s[pos..end)`.
pub open spec fn spec_digits_val(s: Seq<char>, pos: nat, end: nat) -> nat
    decreases end - pos,
{
    if pos < end {
        spec_digits_val(s, pos, (end - 1) as nat) * 10 + digit_val(s[end - 1])
    } else {
        0
    }
}

/// Where the integer literal starting at `pos` ends: a literal is either
/// the single digit `0` or a maximal digit run that does not start with
/// `0`.
pub open spec fn spec_int_end(s: Seq<char>, pos: nat) -> nat {
    if pos < s.len() && s[pos as int] == '0' {
        pos + 1
    } else {
        spec_scan_digits(s, pos)
    }
}

/// What scanning one operand atom at `pos` yields.
pub enum AtomScan {
    /// No atom starts here.
    Missing,
    /// An integer literal at `[start, end)` does not fit the machine word.
    TooLarge { start: nat, end: nat },
    /// The atom, and the position just past it.
    Found { atom: Atom, end: nat },
}

/// Scan one instruction at `pos` (a non-whitespace position): the parsed
/// node if any, the diagnostics it raised, and the position where scanning
/// resumes.
///
/// No node together with no diagnostics means no instruction starts here;
/// the caller reports the character and skips it.
pub open spec fn spec_instr(s: Seq<char>, pos: nat) -> (Option<GtchTree>, Seq<ParseError>, nat)
    decreases s.len() - pos, 1int,
{
    if pos >= s.len() {
        (None, Seq::empty(), pos)
    } else {
        let c = s[pos as int];
        if c == '.' || c == '~' {
            match spec_atom(s, pos + 1) {
                AtomScan::Missing => (
                    None,
                    seq![perr(pos + 1, pos + 2, ParseReason::ExpectedAtom)],
                    pos + 1,
                ),
                AtomScan::TooLarge { start, end } => (
                    None,
                    seq![perr(start, end, ParseReason::IntTooLarge)],
                    end,
                ),
                AtomScan::Found { atom, end } => (
                    Some(if c == '.' {
                        GtchTree::Jump(atom)
                    } else {
                        GtchTree::Sample(atom)
                    }),
                    Seq::empty(),
                    end,
                ),
            }
        } else if c == '[' {
            spec_group(s, pos)
        } else if c == 'i' || is_digit(c) {
            match spec_atom(s, pos) {
                AtomScan::Missing => (None, Seq::empty(), pos),
                AtomScan::TooLarge { start, end } => (
                    None,
                    seq![perr(start, end, ParseReason::IntTooLarge)],
                    end,
                ),
                AtomScan::Found { atom: a, end: e1 } => {
                    if e1 < s.len() && s[e1 as int] == '>' {
                        match spec_atom(s, e1 + 1) {
                            AtomScan::Missing => (
                                None,
                                seq![perr(e1 + 1, e1 + 2, ParseReason::ExpectedAtom)],
                                e1 + 1,
                            ),
                            AtomScan::TooLarge { start, end } => (
                                None,
                                seq![perr(start, end, ParseReason::IntTooLarge)],
                                end,
                            ),
                            AtomScan::Found { atom: b, end: e2 } => (
                                Some(GtchTree::Copy(a, b)),
                                Seq::empty(),
                                e2,
                            ),
                        }
                    } else if e1 + 1 < s.len() && s[e1 as int] == '<'
                        && s[e1 as int + 1] == '>' {
                        match spec_atom(s, e1 + 2) {
                            AtomScan::Missing => (
                                None,
                                seq![perr(e1 + 2, e1 + 3, ParseReason::ExpectedAtom)],
                                e1 + 2,
                            ),
                            AtomScan::TooLarge { start, end } => (
                                None,
                                seq![perr(start, end, ParseReason::IntTooLarge)],
                                end,
                            ),
                            AtomScan::Found { atom: b, end: e2 } => (
                                Some(GtchTree::Swap(a, b)),
                                Seq::empty(),
                                e2,
                            ),
                        }
                    } else {
                        (None, seq![perr(e1, e1 + 1, ParseReason::ExpectedOperator)], e1)
                    }
                },
            }
        } else {
            (None, Seq::empty(), pos)
        }
    }
}

/// Scan one repeat group at `pos` (the opening bracket): its padded
/// iteration count, its child instructions, and the closing bracket.
pub open spec fn spec_group(s: Seq<char>, pos: nat) -> (Option<GtchTree>, Seq<ParseError>, nat)
    decreases s.len() - pos, 0int,
{
    let p1 = spec_skip_ws(s, pos + 1);
    if p1 < s.len() && is_digit(s[p1 as int]) {
        let e1 = spec_int_end(s, p1);
        let v = spec_digits_val(s, p1, e1);
        if v > usize::MAX {
            (None, seq![perr(p1, e1, ParseReason::IntTooLarge)], e1)
        } else if pos < e1 <= s.len() {
            let (children, cerrs, cend) = spec_instrs(s, e1);
            if cend < s.len() && s[cend as int] == ']' {
                (
                    Some(GtchTree::RepeatGroup { max_iters: v as usize, children }),
                    cerrs,
                    cend + 1,
                )
            } else {
                (None, cerrs + seq![perr(cend, cend + 1, ParseReason::UnclosedGroup)], cend)
            }
        } else {
            // integer scanning always moves forward and stays in bounds
            (None, Seq::empty(), pos + 1)
        }
    } else {
        (None, seq![perr(p1, p1 + 1, ParseReason::ExpectedIterationCount)], pos + 1)
    }
}

/// Scan instructions from `pos` until the end of input or a closing
/// bracket, recovering past characters where no instruction starts.
pub open spec fn spec_instrs(s: Seq<char>, pos: nat) -> (Seq<GtchTree>, Seq<ParseError>, nat)
    decreases s.len() - pos, 2int,
{
    let p = spec_skip_ws(s, pos);
    if !(pos <= p <= s.len()) {
        // whitespace skipping always moves forward and stays in bounds
        (Seq::empty(), Seq::empty(), p)
    } else if p >= s.len() || s[p as int] == ']' {
        (Seq::empty(), Seq::empty(), p)
    } else {
        let (og, ierrs, res) = spec_instr(s, p);
        let missing = og is None && ierrs.len() == 0;
        let next = if !missing && res > p {
            res
        } else {
            p + 1
        };
        let here_errs = if missing {
            seq![perr(p, p + 1, ParseReason::UnexpectedChar)]
        } else {
            ierrs
        };
        if next <= s.len() {
            let (gs, rerrs, rend) = spec_instrs(s, next);
            let glist = match og {
                Some(g) => seq![g] + gs,
                None => gs,
            };
            (glist, here_errs + rerrs, rend)
        } else {
            // instruction scanning always stays in bounds
            (
                match og {
                    Some(g) => seq![g],
                    None => Seq::empty(),
                },
                here_errs,
                next,
            )
        }
    }
}

/// Scan a whole program: instruction lists separated by stray closing
/// brackets, each of which is reported and skipped.
pub open spec fn spec_program(s: Seq<char>, pos: nat) -> (Seq<GtchTree>, Seq<ParseError>)
    decreases s.len() - pos,
{
    let (gs, errs, end) = spec_instrs(s, pos);
    if pos <= end < s.len() {
        let (gs2, errs2) = spec_program(s, end + 1);
        (gs + gs2, errs + seq![perr(end, end + 1, ParseReason::UnexpectedChar)] + errs2)
    } else {
        (gs, errs)
    }
}

/// Whitespace skipping moves forward and stays in bounds.
pub proof fn lemma_skip_ws_bounds(s: Seq<char>, pos: nat)
    requires
        pos <= s.len(),
    ensures
        pos <= spec_skip_ws(s, pos) <= s.len(),
    decreases s.len() - pos,
{
    if pos < s.len() && is_ws(s[pos as int]) {
        lemma_skip_ws_bounds(s, pos + 1);
    }
}

/// Digit scanning moves forward and stays in bounds.
pub proof fn lemma_scan_digits_bounds(s: Seq<char>, pos: nat)
    requires
        pos <= s.len(),
    ensures
        pos <= spec_scan_digits(s, pos) <= s.len(),
    decreases s.len() - pos,
{
    if pos < s.len() && is_digit(s[pos as int]) {
        lemma_scan_digits_bounds(s, pos + 1);
    }
}

/// An integer literal occupies at least one character and stays in bounds.
pub proof fn lemma_int_end_bounds(s: Seq<char>, pos: nat)
    requires
        pos < s.len(),
        is_digit(s[pos as int]),
    ensures
        pos < spec_int_end(s, pos) <= s.len(),
{
    if s[pos as int] == '0' {
    } else {
        lemma_scan_digits_bounds(s, pos + 1);
    }
}

/// An atom occupies at least one character and stays in bounds; a too
/// large literal has a non-empty in-bounds span.
pub proof fn lemma_atom_bounds(s: Seq<char>, pos: nat)
    ensures
        match spec_atom(s, pos) {
            AtomScan::Missing => true,
            AtomScan::TooLarge { start, end } => pos <= start < end && end <= s.len(),
            AtomScan::Found { atom, end } => pos < end <= s.len(),
        },
{
    if pos < s.len() && s[pos as int] == 'i' {
    } else if pos < s.len() && is_digit(s[pos as int]) {
        lemma_int_end_bounds(s, pos);
        let e1 = spec_int_end(s, pos);
        if spec_digits_val(s, pos, e1) <= usize::MAX && e1 < s.len() && s[e1 as int] == '-'
            && e1 + 1 < s.len() && is_digit(s[e1 as int + 1]) {
            lemma_int_end_bounds(s, e1 + 1);
        }
    }
}

/// Instruction scanning never moves backwards, stays in bounds, and
/// consumes at least one character whenever it produces a node or a
/// diagnostic.
pub proof fn lemma_instr_bounds(s: Seq<char>, pos: nat)
    requires
        pos <= s.len(),
    ensures
        ({
            let (og, errs, res) = spec_instr(s, pos);
            &&& pos <= res <= s.len()
            &&& (og is Some ==> res > pos)
            &&& (og is None && errs.len() > 0 ==> res > pos)
            &&& (og is None && errs.len() == 0 ==> res == pos)
        }),
    decreases s.len() - pos, 1int,
{
    if pos >= s.len() {
    } else {
        let c = s[pos as int];
        if c == '.' || c == '~' {
            lemma_atom_bounds(s, pos + 1);
        } else if c == '[' {
            lemma_group_bounds(s, pos);
        } else if c == 'i' || is_digit(c) {
            lemma_atom_bounds(s, pos);
            match spec_atom(s, pos) {
                AtomScan::Found { atom: a, end: e1 } => {
                    if e1 < s.len() && s[e1 as int] == '>' {
                        lemma_atom_bounds(s, e1 + 1);
                    } else if e1 + 1 < s.len() && s[e1 as int] == '<'
                        && s[e1 as int + 1] == '>' {
                        lemma_atom_bounds(s, e1 + 2);
                    }
                },
                _ => {},
            }
        }
    }
}

/// Group scanning never moves backwards, stays in bounds, and always
/// consumes at least one character.
pub proof fn lemma_group_bounds(s: Seq<char>, pos: nat)
    requires
        pos < s.len(),
        s[pos as int] == '[',
    ensures
        ({
            let (og, errs, res) = spec_group(s, pos);
            &&& pos < res <= s.len()
            &&& (og is None ==> errs.len() > 0)
        }),
    decreases s.len() - pos, 0int,
{
    lemma_skip_ws_bounds(s, pos + 1);
    let p1 = spec_skip_ws(s, pos + 1);
    if p1 < s.len() && is_digit(s[p1 as int]) {
        lemma_int_end_bounds(s, p1);
        let e1 = spec_int_end(s, p1);
        if spec_digits_val(s, p1, e1) <= usize::MAX {
            lemma_instrs_bounds(s, e1);
        }
    }
}

/// Instruction-list scanning never moves backwards and stays in bounds.
pub proof fn lemma_instrs_bounds(s: Seq<char>, pos: nat)
    requires
        pos <= s.len(),
    ensures
        ({
            let (gs, errs, end) = spec_instrs(s, pos);
            pos <= end <= s.len()
        }),
    decreases s.len() - pos, 2int,
{
    lemma_skip_ws_bounds(s, pos);
    let p = spec_skip_ws(s, pos);
    if p >= s.len() || s[p as int] == ']' {
    } else {
        lemma_instr_bounds(s, p);
        let (og, ierrs, res) = spec_instr(s, p);
        let missing = og is None && ierrs.len() == 0;
        let next = if !missing && res > p {
            res
        } else {
            p + 1
        };
        lemma_instrs_bounds(s, next);
    }
}

/// Appending one node appends its shape.
pub proof fn lemma_deep_seq_snoc(gs: Seq<Gtch>, g: Gtch)
    ensures
        deep_seq(gs.push(g)) == deep_seq(gs) + seq![gtch_deep(g)],
    decreases gs.len(),
{
    if gs.len() == 0 {
        reveal_with_fuel(deep_seq, 2);
        assert(gs.push(g)[0] == g);
        assert(gs.push(g).drop_first() =~= Seq::<Gtch>::empty());
        assert(deep_seq(gs.push(g)) =~= deep_seq(gs) + seq![gtch_deep(g)]);
    } else {
        assert(gs.push(g).drop_first() =~= gs.drop_first().push(g));
        lemma_deep_seq_snoc(gs.drop_first(), g);
        assert(gs.push(g)[0] == gs[0]);
        assert(deep_seq(gs.push(g)) =~= deep_seq(gs) + seq![gtch_deep(g)]);
    }
}

/// The shape of a concatenation is the concatenation of the shapes.
pub proof fn lemma_deep_seq_concat(a: Seq<Gtch>, b: Seq<Gtch>)
    ensures
        deep_seq(a + b) == deep_seq(a) + deep_seq(b),
{
    lemma_deep_seq_props(a);
    lemma_deep_seq_props(b);
    lemma_deep_seq_props(a + b);
    assert forall|i: int| 0 <= i < a.len() + b.len()
        implies deep_seq(a + b)[i] == (deep_seq(a) + deep_seq(b))[i] by {
        if i < a.len() {
            assert((a + b)[i] == a[i]);
        } else {
            assert((a + b)[i] == b[i - a.len()]);
        }
    }
    assert(deep_seq(a + b) =~= deep_seq(a) + deep_seq(b));
}

/// Scan one operand atom at `pos`: the literal `i` (the program counter),
/// two integers joined by `-` (a range), or a single integer (an index).
pub open spec fn spec_atom(s: Seq<char>, pos: nat) -> AtomScan {
    if pos < s.len() && s[pos as int] == 'i' {
        AtomScan::Found { atom: Atom::PC, end: pos + 1 }
    } else if pos < s.len() && is_digit(s[pos as int]) {
        let e1 = spec_int_end(s, pos);
        let v1 = spec_digits_val(s, pos, e1);
        if v1 > usize::MAX {
            AtomScan::TooLarge { start: pos, end: e1 }
        } else if e1 < s.len() && s[e1 as int] == '-' && e1 + 1 < s.len()
            && is_digit(s[e1 as int + 1]) {
            let e2 = spec_int_end(s, e1 + 1);
            let v2 = spec_digits_val(s, e1 + 1, e2);
            if v2 > usize::MAX {
                AtomScan::TooLarge { start: e1 + 1, end: e2 }
            } else {
                AtomScan::Found { atom: Atom::Range(v1 as usize, v2 as usize), end: e2 }
            }
        } else {
            AtomScan::Found { atom: Atom::Idx(v1 as usize), end: e1 }
        }
    } else {
        AtomScan::Missing
    }
}

/// `n + 1`, clamped to the machine word; matches [`clip_usize`] on spans.
fn sat_inc(n: usize) -> (r: usize)
    ensures
        r == clip_usize(n as nat + 1),
{
    if n < usize::MAX {
        n + 1
    } else {
        usize::MAX
    }
}

/// Whether `c` is whitespace between tokens.
fn ws_char(c: char) -> (r: bool)
    ensures
        r == is_ws(c),
{
    c == ' ' || c == '\t' || c == '\n' || c == '\r'
}

/// Whether `c` is a decimal digit.
fn digit_char(c: char) -> (r: bool)
    ensures
        r == is_digit(c),
{
    let u = c as u32;
    48 <= u && u <= 57
}

/// Skip whitespace from `pos`.
#[verifier::loop_isolation(false)]
fn skip_ws(chars: &Vec<char>, pos: usize) -> (r: usize)
    requires
        pos <= chars@.len(),
    ensures
        r as nat == spec_skip_ws(chars@, pos as nat),
        pos <= r <= chars@.len(),
{
    let mut cur = pos;
    while cur < chars.len() && ws_char(chars[cur])
        invariant
            pos <= cur <= chars@.len(),
            spec_skip_ws(chars@, pos as nat) == spec_skip_ws(chars@, cur as nat),
        decreases chars@.len() - cur,
    {
        cur = cur + 1;
    }
    cur
}

/// Scan the integer literal at `pos`: its value, or nothing when it does
/// not fit the machine word, and the position just past it.
#[verifier::loop_isolation(false)]
fn scan_int(chars: &Vec<char>, pos: usize) -> (r: (Option<usize>, usize))
    requires
        pos < chars@.len(),
        is_digit(chars@[pos as int]),
    ensures
        r.1 as nat == spec_int_end(chars@, pos as nat),
        pos < r.1 <= chars@.len(),
        match r.0 {
            Some(v) => v as nat == spec_digits_val(chars@, pos as nat, r.1 as nat),
            None => spec_digits_val(chars@, pos as nat, r.1 as nat) > usize::MAX,
        },
{
    let n = chars.len();
    if chars[pos] == '0' {
        proof {
            reveal_with_fuel(spec_digits_val, 2);
            assert(spec_digits_val(chars@, pos as nat, pos as nat + 1)
                == digit_val(chars@[pos as int]));
        }
        return (Some(0), pos + 1);
    }
    let mut cur = pos;
    let mut acc: Option<usize> = Some(0);
    while cur < chars.len() && digit_char(chars[cur])
        invariant
            pos <= cur <= chars@.len(),
            spec_scan_digits(chars@, pos as nat) == spec_scan_digits(chars@, cur as nat),
            match acc {
                Some(v) => v as nat == spec_digits_val(chars@, pos as nat, cur as nat),
                None => spec_digits_val(chars@, pos as nat, cur as nat) > usize::MAX,
            },
        decreases chars@.len() - cur,
    {
        let u = chars[cur] as u32;
        let d = (u - 48) as usize;
        acc = match acc {
            Some(v) => match v.checked_mul(10) {
                Some(m) => m.checked_add(d),
                None => None,
            },
            None => None,
        };
        proof {
            let prev = spec_digits_val(chars@, pos as nat, cur as nat);
            assert(spec_digits_val(chars@, pos as nat, cur as nat + 1)
                == prev * 10 + digit_val(chars@[cur as int]));
        }
        cur = cur + 1;
    }
    (acc, cur)
}

/// What scanning one operand atom yields, with machine-word positions.
enum AtomHit {
    Missing,
    TooLarge(usize, usize),
    Found(Atom, usize),
}

/// Scan one operand atom at `pos`.
fn parse_atom(chars: &Vec<char>, pos: usize) -> (r: AtomHit)
    requires
        pos <= chars@.len(),
    ensures
        match spec_atom(chars@, pos as nat) {
            AtomScan::Missing => r is Missing,
            AtomScan::TooLarge { start, end } => (r matches AtomHit::TooLarge(s2, e2)
                && s2 as nat == start && e2 as nat == end),
            AtomScan::Found { atom, end } => (r matches AtomHit::Found(a2, e2)
                && a2 == atom && e2 as nat == end),
        },
{
    if pos < chars.len() && chars[pos] == 'i' {
        return AtomHit::Found(Atom::PC, pos + 1);
    }
    if pos < chars.len() && digit_char(chars[pos]) {
        let (v1o, e1) = scan_int(chars, pos);
        let v1 = match v1o {
            Some(v) => v,
            None => {
                return AtomHit::TooLarge(pos, e1);
            },
        };
        if e1 < chars.len() && chars[e1] == '-' && e1 + 1 < chars.len()
            && digit_char(chars[e1 + 1]) {
            let (v2o, e2) = scan_int(chars, e1 + 1);
            match v2o {
                Some(v2) => AtomHit::Found(Atom::Range(v1, v2), e2),
                None => AtomHit::TooLarge(e1 + 1, e2),
            }
        } else {
            AtomHit::Found(Atom::Idx(v1), e1)
        }
    } else {
        AtomHit::Missing
    }
}

/// What scanning one instruction yields, with machine-word positions.
enum InstrOut {
    /// A node, and the position just past it.
    Found(Gtch, usize),
    /// Diagnostics were raised; resume scanning here.
    Bad(usize),
    /// No instruction starts here.
    Missing,
}

/// Scan one instruction at `pos` (a non-whitespace position), appending
/// any diagnostics it raises.
#[verifier::rlimit(50)]
fn parse_instr(chars: &Vec<char>, pos: usize, errs: &mut Vec<ParseError>) -> (r: InstrOut)
    requires
        pos < chars@.len(),
    ensures
        ({
            let (og, serrs, sres) = spec_instr(chars@, pos as nat);
            &&& final(errs)@ == old(errs)@ + serrs
            &&& match r {
                InstrOut::Found(g, res) => og == Some(gtch_deep(g)) && res as nat == sres
                    && pos < res <= chars@.len(),
                InstrOut::Bad(res) => og is None && serrs.len() > 0 && res as nat == sres
                    && pos < res <= chars@.len(),
                InstrOut::Missing => og is None && serrs.len() == 0 && sres == pos,
            }
        }),
    decreases chars@.len() - pos, 1int,
{
    proof {
        lemma_instr_bounds(chars@, pos as nat);
    }
    let n = chars.len();
    let c = chars[pos];
    if c == '.' || c == '~' {
        match parse_atom(chars, pos + 1) {
            AtomHit::Missing => {
                errs.push(ParseError {
                    start: pos + 1,
                    end: sat_inc(pos + 1),
                    reason: ParseReason::ExpectedAtom,
                });
                proof {
                    assert(errs@ =~= old(errs)@ + spec_instr(chars@, pos as nat).1);
                }
                InstrOut::Bad(pos + 1)
            },
            AtomHit::TooLarge(st, en) => {
                errs.push(ParseError { start: st, end: en, reason: ParseReason::IntTooLarge });
                proof {
                    assert(errs@ =~= old(errs)@ + spec_instr(chars@, pos as nat).1);
                }
                InstrOut::Bad(en)
            },
            AtomHit::Found(atom, end) => {
                proof {
                    assert(errs@ =~= old(errs)@ + spec_instr(chars@, pos as nat).1);
                }
                if c == '.' {
                    InstrOut::Found(Gtch::Jump(atom), end)
                } else {
                    InstrOut::Found(Gtch::Sample(atom), end)
                }
            },
        }
    } else if c == '[' {
        parse_group(chars, pos, errs)
    } else if c == 'i' || digit_char(c) {
        match parse_atom(chars, pos) {
            AtomHit::Missing => {
                proof {
                    assert(errs@ =~= old(errs)@ + spec_instr(chars@, pos as nat).1);
                }
                InstrOut::Missing
            },
            AtomHit::TooLarge(st, en) => {
                errs.push(ParseError { start: st, end: en, reason: ParseReason::IntTooLarge });
                proof {
                    assert(errs@ =~= old(errs)@ + spec_instr(chars@, pos as nat).1);
                }
                InstrOut::Bad(en)
            },
            AtomHit::Found(a, e1) => {
                if e1 < chars.len() && chars[e1] == '>' {
                    match parse_atom(chars, e1 + 1) {
                        AtomHit::Missing => {
                            errs.push(ParseError {
                                start: e1 + 1,
                                end: sat_inc(e1 + 1),
                                reason: ParseReason::ExpectedAtom,
                            });
                            proof {
                                assert(errs@ =~= old(errs)@ + spec_instr(chars@, pos as nat).1);
                            }
                            InstrOut::Bad(e1 + 1)
                        },
                        AtomHit::TooLarge(st, en) => {
                            errs.push(ParseError {
                                start: st,
                                end: en,
                                reason: ParseReason::IntTooLarge,
                            });
                            proof {
                                assert(errs@ =~= old(errs)@ + spec_instr(chars@, pos as nat).1);
                            }
                            InstrOut::Bad(en)
                        },
                        AtomHit::Found(b, e2) => {
                            proof {
                                assert(errs@ =~= old(errs)@ + spec_instr(chars@, pos as nat).1);
                            }
                            InstrOut::Found(Gtch::Copy(a, b), e2)
                        },
                    }
                } else if e1 < chars.len() && e1 + 1 < chars.len() && chars[e1] == '<'
                    && chars[e1 + 1] == '>' {
                    match parse_atom(chars, e1 + 2) {
                        AtomHit::Missing => {
                            errs.push(ParseError {
                                start: e1 + 2,
                                end: sat_inc(e1 + 2),
                                reason: ParseReason::ExpectedAtom,
                            });
                            proof {
                                assert(errs@ =~= old(errs)@ + spec_instr(chars@, pos as nat).1);
                            }
                            InstrOut::Bad(e1 + 2)
                        },
                        AtomHit::TooLarge(st, en) => {
                            errs.push(ParseError {
                                start: st,
                                end: en,
                                reason: ParseReason::IntTooLarge,
                            });
                            proof {
                                assert(errs@ =~= old(errs)@ + spec_instr(chars@, pos as nat).1);
                            }
                            InstrOut::Bad(en)
                        },
                        AtomHit::Found(b, e2) => {
                            proof {
                                assert(errs@ =~= old(errs)@ + spec_instr(chars@, pos as nat).1);
                            }
                            InstrOut::Found(Gtch::Swap(a, b), e2)
                        },
                    }
                } else {
                    errs.push(ParseError {
                        start: e1,
                        end: sat_inc(e1),
                        reason: ParseReason::ExpectedOperator,
                    });
                    proof {
                        assert(errs@ =~= old(errs)@ + spec_instr(chars@, pos as nat).1);
                    }
                    InstrOut::Bad(e1)
                }
            },
        }
    } else {
        proof {
            assert(errs@ =~= old(errs)@ + spec_instr(chars@, pos as nat).1);
        }
        InstrOut::Missing
    }
}

/// Scan one repeat group at `pos` (the opening bracket), appending any
/// diagnostics it raises.
#[verifier::rlimit(50)]
fn parse_group(chars: &Vec<char>, pos: usize, errs: &mut Vec<ParseError>) -> (r: InstrOut)
    requires
        pos < chars@.len(),
        chars@[pos as int] == '[',
    ensures
        ({
            let (og, serrs, sres) = spec_group(chars@, pos as nat);
            &&& final(errs)@ == old(errs)@ + serrs
            &&& match r {
                InstrOut::Found(g, res) => og == Some(gtch_deep(g)) && res as nat == sres
                    && pos < res <= chars@.len(),
                InstrOut::Bad(res) => og is None && serrs.len() > 0 && res as nat == sres
                    && pos < res <= chars@.len(),
                InstrOut::Missing => false,
            }
        }),
    decreases chars@.len() - pos, 0int,
{
    proof {
        lemma_group_bounds(chars@, pos as nat);
    }
    let n = chars.len();
    let p1 = skip_ws(chars, pos + 1);
    if p1 < chars.len() && digit_char(chars[p1]) {
        let (vo, e1) = scan_int(chars, p1);
        match vo {
            None => {
                errs.push(ParseError { start: p1, end: e1, reason: ParseReason::IntTooLarge });
                proof {
                    assert(errs@ =~= old(errs)@ + spec_group(chars@, pos as nat).1);
                }
                InstrOut::Bad(e1)
            },
            Some(v) => {
                let mut children: Vec<Gtch> = Vec::new();
                let cend = parse_instrs(chars, e1, &mut children, errs);
                proof {
                    assert(children@.skip(0) =~= children@);
                    assert(deep_seq(children@) == spec_instrs(chars@, e1 as nat).0);
                }
                if cend < chars.len() && chars[cend] == ']' {
                    InstrOut::Found(Gtch::RepeatGroup { max_iters: v, children }, cend + 1)
                } else {
                    errs.push(ParseError {
                        start: cend,
                        end: sat_inc(cend),
                        reason: ParseReason::UnclosedGroup,
                    });
                    proof {
                        assert(errs@ =~= old(errs)@ + spec_group(chars@, pos as nat).1);
                    }
                    InstrOut::Bad(cend)
                }
            },
        }
    } else {
        errs.push(ParseError {
            start: p1,
            end: sat_inc(p1),
            reason: ParseReason::ExpectedIterationCount,
        });
        proof {
            assert(errs@ =~= old(errs)@ + spec_group(chars@, pos as nat).1);
        }
        InstrOut::Bad(pos + 1)
    }
}

/// Scan instructions from `pos` until the end of input or a closing
/// bracket, appending parsed nodes and diagnostics.
#[verifier::loop_isolation(false)]
fn parse_instrs(
    chars: &Vec<char>,
    pos: usize,
    gs: &mut Vec<Gtch>,
    errs: &mut Vec<ParseError>,
) -> (end: usize)
    requires
        pos <= chars@.len(),
    ensures
        ({
            let (sg, serrs, send) = spec_instrs(chars@, pos as nat);
            &&& end as nat == send
            &&& final(gs)@.len() >= old(gs)@.len()
            &&& final(gs)@.take(old(gs)@.len() as int) == old(gs)@
            &&& deep_seq(final(gs)@.skip(old(gs)@.len() as int)) == sg
            &&& final(errs)@ == old(errs)@ + serrs
            &&& pos <= end <= chars@.len()
        }),
    decreases chars@.len() - pos, 2int,
{
    let ghost gs0 = gs@;
    let ghost errs0 = errs@;
    let mut cur = pos;
    loop
        invariant
            pos <= cur <= chars@.len(),
            gs@.len() >= gs0.len(),
            gs@.take(gs0.len() as int) == gs0,
            errs@.len() >= errs0.len(),
            errs@.take(errs0.len() as int) == errs0,
            spec_instrs(chars@, pos as nat).0
                == deep_seq(gs@.skip(gs0.len() as int)) + spec_instrs(chars@, cur as nat).0,
            spec_instrs(chars@, pos as nat).1
                == errs@.skip(errs0.len() as int) + spec_instrs(chars@, cur as nat).1,
            spec_instrs(chars@, pos as nat).2 == spec_instrs(chars@, cur as nat).2,
        decreases chars@.len() - cur,
    {
        let p = skip_ws(chars, cur);
        if p >= chars.len() || chars[p] == ']' {
            proof {
                assert(spec_instrs(chars@, cur as nat).0 =~= Seq::<GtchTree>::empty());
                assert(spec_instrs(chars@, cur as nat)
                    == (Seq::<GtchTree>::empty(), Seq::<ParseError>::empty(), p as nat));
                assert(deep_seq(gs@.skip(gs0.len() as int)) + Seq::<GtchTree>::empty()
                    =~= deep_seq(gs@.skip(gs0.len() as int)));
                assert(errs@.skip(errs0.len() as int) + Seq::<ParseError>::empty()
                    =~= errs@.skip(errs0.len() as int));
                assert(errs@ =~= errs0 + errs@.skip(errs0.len() as int));
            }
            return p;
        }
        proof {
            lemma_instr_bounds(chars@, p as nat);
        }
        let ghost pre_gs = gs@;
        let ghost pre_errs = errs@;
        let ghost cur0 = cur;
        let r = parse_instr(chars, p, errs);
        match r {
            InstrOut::Found(g, res) => {
                proof {
                    lemma_deep_seq_snoc(gs@.skip(gs0.len() as int), g);
                }
                gs.push(g);
                proof {
                    assert(gs@.skip(gs0.len() as int)
                        =~= pre_gs.skip(gs0.len() as int).push(g));
                    assert(gs@.take(gs0.len() as int) =~= gs0);
                }
                cur = res;
            },
            InstrOut::Bad(res) => {
                cur = res;
            },
            InstrOut::Missing => {
                errs.push(ParseError {
                    start: p,
                    end: p + 1,
                    reason: ParseReason::UnexpectedChar,
                });
                cur = p + 1;
            },
        }
        proof {
            let (og, ierrs, ires) = spec_instr(chars@, p as nat);
            assert(errs@.take(errs0.len() as int) =~= errs0);
            assert(errs@.skip(errs0.len() as int)
                =~= pre_errs.skip(errs0.len() as int) + (errs@.skip(pre_errs.len() as int)));
            assert(spec_instrs(chars@, pos as nat).0
                == deep_seq(gs@.skip(gs0.len() as int)) + spec_instrs(chars@, cur as nat).0)
                by {
                match og {
                    Some(gt) => {
                        assert(spec_instrs(chars@, cur0 as nat).0
                            == seq![gt] + spec_instrs(chars@, cur as nat).0);
                        assert(deep_seq(pre_gs.skip(gs0.len() as int))
                            + (seq![gt] + spec_instrs(chars@, cur as nat).0)
                            =~= deep_seq(gs@.skip(gs0.len() as int))
                            + spec_instrs(chars@, cur as nat).0);
                    },
                    None => {
                        assert(spec_instrs(chars@, cur0 as nat).0
                            == spec_instrs(chars@, cur as nat).0);
                    },
                }
            }
            assert(spec_instrs(chars@, pos as nat).1
                == errs@.skip(errs0.len() as int) + spec_instrs(chars@, cur as nat).1)
                by {
                let here = if og is None && ierrs.len() == 0 {
                    seq![perr(p as nat, p as nat + 1, ParseReason::UnexpectedChar)]
                } else {
                    ierrs
                };
                assert(errs@.skip(errs0.len() as int)
                    =~= pre_errs.skip(errs0.len() as int) + here);
                assert(spec_instrs(chars@, cur0 as nat).1
                    == here + spec_instrs(chars@, cur as nat).1);
                assert(pre_errs.skip(errs0.len() as int)
                    + (here + spec_instrs(chars@, cur as nat).1)
                    =~= (pre_errs.skip(errs0.len() as int) + here)
                    + spec_instrs(chars@, cur as nat).1);
            }
        }
    }
}

/// Build the character sequence of a source string.
fn chars_of(s: &str) -> (r: Vec<char>)
    ensures
        r@ == s@,
{
    let n = s.unicode_len();
    let mut v: Vec<char> = Vec::new();
    let mut i: usize = 0;
    while i < n
        invariant
            i <= n,
            n == s@.len(),
            v@ == s@.take(i as int),
        decreases n - i,
    {
        let c = s.get_char(i);
        v.push(c);
        proof {
            assert(v@ =~= s@.take(i + 1));
        }
        i += 1;
    }
    proof {
        assert(v@ =~= s@);
    }
    v
}

/// Parse source text into a tree of instruction nodes.
///
/// Parsing is total: it never panics, collects a diagnostic for every
/// offending span rather than stopping at the first, and returns the
/// parsed tree exactly when there are no diagnostics.  Empty input is a
/// valid empty program.
#[verifier::loop_isolation(false)]
pub fn parse(s: &str) -> (r: Result<Vec<Gtch>, Vec<ParseError>>)
    ensures
        ({
            let (gs, errs) = spec_program(s@, 0);
            &&& (errs.len() == 0 ==> (r matches Ok(g) && deep_seq(g@) == gs))
            &&& (errs.len() > 0 ==> (r matches Err(e) && e@ == errs))
        }),
{
    let chars = chars_of(s);
    let mut gs: Vec<Gtch> = Vec::new();
    let mut errs: Vec<ParseError> = Vec::new();
    let mut cur: usize = 0;
    loop
        invariant
            cur <= chars@.len(),
            chars@ == s@,
            spec_program(s@, 0).0 == deep_seq(gs@) + spec_program(s@, cur as nat).0,
            spec_program(s@, 0).1 == errs@ + spec_program(s@, cur as nat).1,
        decreases chars@.len() - cur,
    {
        let ghost pre_gs = gs@;
        let ghost pre_errs = errs@;
        let ghost cur0 = cur;
        let end = parse_instrs(&chars, cur, &mut gs, &mut errs);
        proof {
            lemma_deep_seq_concat(pre_gs, gs@.skip(pre_gs.len() as int));
            assert(gs@ =~= pre_gs + gs@.skip(pre_gs.len() as int));
        }
        if end >= chars.len() {
            proof {
                let (sg, serrs, send) = spec_instrs(chars@, cur0 as nat);
                assert(spec_program(s@, cur0 as nat) == (sg, serrs));
                assert(deep_seq(pre_gs) + sg =~= deep_seq(gs@));
                assert(pre_errs + serrs =~= errs@);
                assert(spec_program(s@, 0).0 =~= deep_seq(gs@));
                assert(spec_program(s@, 0).1 =~= errs@);
            }
            break;
        }
        errs.push(ParseError {
            start: end,
            end: end + 1,
            reason: ParseReason::UnexpectedChar,
        });
        cur = end + 1;
        proof {
            let (sg, serrs, send) = spec_instrs(chars@, cur0 as nat);
            let stray = perr(send, send + 1, ParseReason::UnexpectedChar);
            assert(spec_program(s@, cur0 as nat).0
                == sg + spec_program(s@, cur as nat).0);
            assert(spec_program(s@, cur0 as nat).1
                == serrs + seq![stray] + spec_program(s@, cur as nat).1);
            assert(deep_seq(pre_gs) + (sg + spec_program(s@, cur as nat).0)
                =~= deep_seq(gs@) + spec_program(s@, cur as nat).0);
            assert(pre_errs + (serrs + seq![stray] + spec_program(s@, cur as nat).1)
                =~= errs@ + spec_program(s@, cur as nat).1);
        }
    }
    if errs.len() == 0 {
        Ok(gs)
    } else {
        Err(errs)
    }
}

} // verus!
