//! Tests for the compiler: repeat-group unrolling with per-repetition
//! index offsets, and the full text-to-bytecode pipeline.

use vm_glitch::compile::compile;
use vm_glitch::parse::{parse, Atom, Gtch};

#[test]
fn unroll_emits_children_times_iterations() {
    // 1 child, 2 iterations: the second block's indices are offset by 1
    let ast = vec![Gtch::RepeatGroup {
        max_iters: 2,
        children: vec![Gtch::Copy(Atom::Idx(1), Atom::Idx(2))],
    }];
    assert_eq!(compile(&ast, 6).unwrap(), vec![1, 1, 2, 1, 2, 3]);

    // 2 children, 3 iterations: 6 instructions, block m offset by m
    let ast = vec![Gtch::RepeatGroup {
        max_iters: 3,
        children: vec![Gtch::Jump(Atom::Idx(0)), Gtch::Sample(Atom::Idx(5))],
    }];
    assert_eq!(
        compile(&ast, 12).unwrap(),
        vec![4, 0, 5, 5, 4, 1, 5, 6, 4, 2, 5, 7]
    );
}

#[test]
fn unroll_of_zero_iterations_is_empty() {
    let ast = vec![Gtch::RepeatGroup {
        max_iters: 0,
        children: vec![Gtch::Jump(Atom::Idx(1))],
    }];
    assert_eq!(compile(&ast, 4).unwrap(), vec![0, 0, 0, 0]);
}

#[test]
fn ranges_and_pc_atoms_are_exempt_from_the_offset() {
    // the range source stays fixed while the index destination shifts
    let ast = vec![Gtch::RepeatGroup {
        max_iters: 2,
        children: vec![Gtch::Copy(Atom::Range(0, 2), Atom::Idx(5))],
    }];
    assert_eq!(
        compile(&ast, 12).unwrap(),
        vec![1, 0, 5, 1, 1, 6, 1, 0, 6, 1, 1, 7]
    );
}

#[test]
fn non_repeat_instructions_pass_through_in_order() {
    let ast = vec![
        Gtch::Jump(Atom::Idx(1)),
        Gtch::RepeatGroup { max_iters: 1, children: vec![Gtch::Sample(Atom::Idx(2))] },
        Gtch::Swap(Atom::Idx(3), Atom::Idx(4)),
    ];
    assert_eq!(compile(&ast, 7).unwrap(), vec![4, 1, 5, 2, 6, 3, 4]);
}

#[test]
fn nested_groups_unroll_innermost_first() {
    let ast = vec![Gtch::RepeatGroup {
        max_iters: 2,
        children: vec![Gtch::RepeatGroup {
            max_iters: 2,
            children: vec![Gtch::Jump(Atom::Idx(0))],
        }],
    }];
    // inner expansion: Jump 0, Jump 1; outer repetition 1 shifts it by 1
    assert_eq!(compile(&ast, 8).unwrap(), vec![4, 0, 4, 1, 4, 1, 4, 2]);
}

#[test]
fn compile_surfaces_assembly_errors() {
    let ast = vec![Gtch::RepeatGroup {
        max_iters: 1,
        children: vec![Gtch::Jump(Atom::PC)],
    }];
    assert!(compile(&ast, 8).is_err());
}

#[test]
fn parse_then_compile_round_trip() {
    let ast = parse("[2 1>2]").unwrap();
    assert_eq!(compile(&ast, 8).unwrap(), vec![1, 1, 2, 1, 2, 3, 0, 0]);

    let ast = parse(".2 50>25").unwrap();
    assert_eq!(compile(&ast, 8).unwrap(), vec![4, 2, 1, 50, 25, 0, 0, 0]);
}
