//! Tests for the assembler: encoding, padding, truncation, and operand
//! validation.

use vm_glitch::assemble::{assemble, AssembleError};
use vm_glitch::parse::{Atom, Gtch};

#[test]
fn output_is_exactly_the_requested_length() {
    let code = vec![Gtch::Copy(Atom::Idx(1), Atom::Idx(2))];
    // shorter than the target: right-padded with zero (`Noop`) bytes
    assert_eq!(assemble(&code, 8).unwrap(), vec![1, 1, 2, 0, 0, 0, 0, 0]);
    // longer than the target: truncated, even mid-instruction
    assert_eq!(assemble(&code, 2).unwrap(), vec![1, 1]);
    // a zero-length target is valid
    assert_eq!(assemble(&code, 0).unwrap(), vec![]);
    // the empty program is all padding
    assert_eq!(assemble(&vec![], 4).unwrap(), vec![0, 0, 0, 0]);
}

#[test]
fn encodes_each_opcode() {
    assert_eq!(assemble(&vec![Gtch::Jump(Atom::Idx(3))], 2).unwrap(), vec![4, 3]);
    assert_eq!(assemble(&vec![Gtch::Sample(Atom::Idx(5))], 2).unwrap(), vec![5, 5]);
    assert_eq!(
        assemble(&vec![Gtch::Swap(Atom::Idx(1), Atom::Idx(2))], 3).unwrap(),
        vec![6, 1, 2]
    );
    assert_eq!(
        assemble(&vec![Gtch::Copy(Atom::Idx(9), Atom::Idx(10))], 3).unwrap(),
        vec![1, 9, 10]
    );
}

#[test]
fn instructions_concatenate_in_input_order() {
    let code = vec![
        Gtch::Jump(Atom::Idx(1)),
        Gtch::Sample(Atom::Idx(2)),
        Gtch::Swap(Atom::Idx(3), Atom::Idx(4)),
    ];
    assert_eq!(assemble(&code, 7).unwrap(), vec![4, 1, 5, 2, 6, 3, 4]);
}

#[test]
fn range_copy_unrolls_into_contiguous_triples() {
    let code = vec![Gtch::Copy(Atom::Range(2, 5), Atom::Idx(7))];
    assert_eq!(
        assemble(&code, 9).unwrap(),
        vec![1, 2, 7, 1, 3, 8, 1, 4, 9]
    );
}

#[test]
fn rejects_empty_range_source() {
    let code = vec![Gtch::Copy(Atom::Range(3, 3), Atom::Idx(0))];
    assert_eq!(assemble(&code, 16).unwrap_err(), vec![AssembleError::EmptyRange]);
}

#[test]
fn rejects_range_destination() {
    let code = vec![Gtch::Copy(Atom::Idx(0), Atom::Range(1, 2))];
    assert_eq!(assemble(&code, 16).unwrap_err(), vec![AssembleError::ArgumentKind]);
}

#[test]
fn rejects_range_operands_of_other_opcodes() {
    for code in [
        vec![Gtch::Jump(Atom::Range(0, 2))],
        vec![Gtch::Sample(Atom::Range(0, 2))],
        vec![Gtch::Swap(Atom::Range(0, 2), Atom::Idx(1))],
        vec![Gtch::Swap(Atom::Idx(1), Atom::Range(0, 2))],
    ] {
        assert_eq!(assemble(&code, 16).unwrap_err(), vec![AssembleError::ArgumentKind]);
    }
}

#[test]
fn rejects_program_counter_operands() {
    for code in [
        vec![Gtch::Jump(Atom::PC)],
        vec![Gtch::Sample(Atom::PC)],
        vec![Gtch::Copy(Atom::PC, Atom::Idx(1))],
        vec![Gtch::Copy(Atom::Idx(1), Atom::PC)],
        vec![Gtch::Swap(Atom::PC, Atom::Idx(1))],
    ] {
        assert_eq!(assemble(&code, 16).unwrap_err(), vec![AssembleError::ArgumentKind]);
    }
}

#[test]
fn rejects_operands_beyond_one_byte() {
    assert_eq!(
        assemble(&vec![Gtch::Jump(Atom::Idx(300))], 16).unwrap_err(),
        vec![AssembleError::IndexOverflow]
    );
    // a range whose destinations would run past the wire limit
    let code = vec![Gtch::Copy(Atom::Range(0, 200), Atom::Idx(100))];
    assert_eq!(assemble(&code, 16).unwrap_err(), vec![AssembleError::IndexOverflow]);
    // a range whose sources start beyond the wire limit
    let code = vec![Gtch::Copy(Atom::Range(300, 310), Atom::Idx(0))];
    assert_eq!(assemble(&code, 16).unwrap_err(), vec![AssembleError::IndexOverflow]);
}

#[test]
fn collects_all_errors_across_instructions() {
    let code = vec![
        Gtch::Copy(Atom::Range(3, 3), Atom::Idx(0)),
        Gtch::Jump(Atom::Idx(0)),
        Gtch::Jump(Atom::PC),
        Gtch::Sample(Atom::Idx(999)),
    ];
    assert_eq!(
        assemble(&code, 16).unwrap_err(),
        vec![
            AssembleError::EmptyRange,
            AssembleError::ArgumentKind,
            AssembleError::IndexOverflow,
        ]
    );
}

#[test]
fn boundary_operands_encode() {
    assert_eq!(assemble(&vec![Gtch::Jump(Atom::Idx(255))], 2).unwrap(), vec![4, 255]);
    assert_eq!(assemble(&vec![Gtch::Jump(Atom::Idx(256))], 2).is_err(), true);
    // the widest range that still fits: destinations reach 254
    let code = vec![Gtch::Copy(Atom::Range(254, 256), Atom::Idx(253))];
    assert_eq!(
        assemble(&code, 6).unwrap(),
        vec![1, 254, 253, 1, 255, 254]
    );
}
