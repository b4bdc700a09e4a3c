//! Tests for the source-language parser.

use vm_glitch::parse::{parse, Atom, Gtch, ParseReason};

#[test]
fn test_parsing() {
    parse("1>25").unwrap();
    parse(".2 50>25").unwrap();
}

#[test]
fn test_parsing_ranged() {
    parse("0-200>50").unwrap();
}

#[test]
fn empty_input_is_a_valid_empty_program() {
    assert_eq!(parse("").unwrap(), vec![]);
    assert_eq!(parse("   \t\n ").unwrap(), vec![]);
}

#[test]
fn parses_every_instruction_kind() {
    let got = parse("~3 .i 1<>2 4>5").unwrap();
    assert_eq!(
        got,
        vec![
            Gtch::Sample(Atom::Idx(3)),
            Gtch::Jump(Atom::PC),
            Gtch::Swap(Atom::Idx(1), Atom::Idx(2)),
            Gtch::Copy(Atom::Idx(4), Atom::Idx(5)),
        ]
    );
}

#[test]
fn parses_pc_atoms_in_operand_position() {
    assert_eq!(
        parse("i>1").unwrap(),
        vec![Gtch::Copy(Atom::PC, Atom::Idx(1))]
    );
    assert_eq!(
        parse("1>i").unwrap(),
        vec![Gtch::Copy(Atom::Idx(1), Atom::PC)]
    );
}

#[test]
fn parses_range_atoms_half_open() {
    let got = parse("0-200>50").unwrap();
    assert_eq!(got, vec![Gtch::Copy(Atom::Range(0, 200), Atom::Idx(50))]);
}

#[test]
fn parses_repeat_group() {
    let got = parse("[2 1>2]").unwrap();
    assert_eq!(
        got,
        vec![Gtch::RepeatGroup {
            max_iters: 2,
            children: vec![Gtch::Copy(Atom::Idx(1), Atom::Idx(2))],
        }]
    );
}

#[test]
fn parses_empty_and_nested_repeat_groups() {
    let got = parse("[7]").unwrap();
    assert_eq!(got, vec![Gtch::RepeatGroup { max_iters: 7, children: vec![] }]);

    let got = parse("[2 [3 ~0]]").unwrap();
    assert_eq!(
        got,
        vec![Gtch::RepeatGroup {
            max_iters: 2,
            children: vec![Gtch::RepeatGroup {
                max_iters: 3,
                children: vec![Gtch::Sample(Atom::Idx(0))],
            }],
        }]
    );
}

#[test]
fn whitespace_between_instructions_is_free_form() {
    let a = parse("1>2 .3").unwrap();
    let b = parse("  1>2\n\t.3  ").unwrap();
    assert_eq!(a, b);
    // whitespace is optional: instructions may abut
    let c = parse("1>2.3").unwrap();
    assert_eq!(a, c);
}

#[test]
fn rejects_unexpected_characters_with_spans() {
    let errs = parse("x").unwrap_err();
    assert_eq!(errs.len(), 1);
    assert_eq!(errs[0].reason, ParseReason::UnexpectedChar);
    assert_eq!((errs[0].start, errs[0].end), (0, 1));
}

#[test]
fn collects_every_error_not_just_the_first() {
    let errs = parse("x 1>2 y").unwrap_err();
    assert_eq!(errs.len(), 2);
    assert_eq!(errs[0].reason, ParseReason::UnexpectedChar);
    assert_eq!(errs[0].start, 0);
    assert_eq!(errs[1].reason, ParseReason::UnexpectedChar);
    assert_eq!(errs[1].start, 6);
}

#[test]
fn rejects_missing_operands() {
    let errs = parse("1>").unwrap_err();
    assert_eq!(errs[0].reason, ParseReason::ExpectedAtom);

    let errs = parse(".").unwrap_err();
    assert_eq!(errs[0].reason, ParseReason::ExpectedAtom);

    let errs = parse("5").unwrap_err();
    assert_eq!(errs[0].reason, ParseReason::ExpectedOperator);
}

#[test]
fn rejects_malformed_groups() {
    let errs = parse("[x]").unwrap_err();
    assert!(errs.iter().any(|e| e.reason == ParseReason::ExpectedIterationCount));

    let errs = parse("[2 ~1").unwrap_err();
    assert!(errs.iter().any(|e| e.reason == ParseReason::UnclosedGroup));

    let errs = parse("]").unwrap_err();
    assert_eq!(errs[0].reason, ParseReason::UnexpectedChar);
}

#[test]
fn rejects_oversized_integer_literals() {
    let errs = parse("99999999999999999999999999>1").unwrap_err();
    assert_eq!(errs[0].reason, ParseReason::IntTooLarge);
}

#[test]
fn reasons_have_readable_messages() {
    let errs = parse("x").unwrap_err();
    assert!(!errs[0].reason.message().is_empty());
    assert_ne!(
        ParseReason::UnclosedGroup.message(),
        ParseReason::UnexpectedChar.message()
    );
}
