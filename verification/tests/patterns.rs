//! Destructuring: declaration-form and assignment-form patterns, rest
//! markers, wildcards, and shape mismatches.

use borrowck::checker::Verifier;
use borrowck::diag::{Violation, ViolationKind};
use borrowck::ir::{Pattern, PatternKind, Place, Shape, Slot, Stmt, StmtKind};
use borrowck::state::Config;

fn decl(name: u32, mutable: bool, shape: Shape, site: u64) -> Stmt {
    Stmt { kind: StmtKind::DeclareBinding { name, mutable, shape }, site }
}

fn read(name: u32, site: u64) -> Stmt {
    Stmt { kind: StmtKind::Read { place: Place { name, field: None } }, site }
}

fn decl_pattern(kind: PatternKind, slots: Vec<Slot>, mutable: bool, source: u32, site: u64) -> Stmt {
    Stmt {
        kind: StmtKind::DeclarePattern { pattern: Pattern { kind, slots, mutable }, source },
        site,
    }
}

fn assign_pattern(kind: PatternKind, slots: Vec<Slot>, source: u32, site: u64) -> Stmt {
    Stmt {
        kind: StmtKind::AssignPattern {
            pattern: Pattern { kind, slots, mutable: false },
            source,
        },
        site,
    }
}

fn viol(kind: ViolationKind, name: u32, site: u64, related: Option<u64>) -> Violation {
    Violation { kind, name, site, related }
}

fn run(program: Vec<Stmt>) -> Vec<Violation> {
    Verifier::run(&program, Config::default())
}

const SRC: u32 = 0;
const A: u32 = 1;
const B: u32 = 2;
const C: u32 = 3;

#[test]
fn array_pattern_with_rest_and_wildcard_fits() {
    let out = run(vec![
        decl(SRC, false, Shape::Array { len: 5 }, 1),
        decl_pattern(
            PatternKind::Array,
            vec![Slot::Named(A), Slot::Rest, Slot::Named(B), Slot::Wildcard],
            false,
            SRC,
            2,
        ),
        read(A, 3),
        read(B, 4),
    ]);
    assert_eq!(out, Vec::new());
}

#[test]
fn array_pattern_longer_than_array_mismatches() {
    let out = run(vec![
        decl(SRC, false, Shape::Array { len: 2 }, 1),
        decl_pattern(
            PatternKind::Array,
            vec![Slot::Named(A), Slot::Named(B), Slot::Named(C)],
            false,
            SRC,
            2,
        ),
        read(SRC, 3),
        read(A, 4),
    ]);
    // The mismatch is reported, the source is still consumed, and the named
    // slots still come up as live bindings for further analysis.
    assert_eq!(
        out,
        vec![
            viol(ViolationKind::ShapeMismatch, SRC, 2, None),
            viol(ViolationKind::UseOfMovedValue, SRC, 3, Some(2)),
        ]
    );
}

#[test]
fn struct_pattern_on_array_mismatches() {
    let out = run(vec![
        decl(SRC, false, Shape::Array { len: 2 }, 1),
        decl_pattern(PatternKind::Struct, vec![Slot::Named(A), Slot::Named(B)], false, SRC, 2),
    ]);
    assert_eq!(out, vec![viol(ViolationKind::ShapeMismatch, SRC, 2, None)]);
}

#[test]
fn scalar_cannot_be_destructured() {
    let out = run(vec![
        decl(SRC, false, Shape::Scalar, 1),
        decl_pattern(PatternKind::Struct, vec![Slot::Named(A)], false, SRC, 2),
    ]);
    assert_eq!(out, vec![viol(ViolationKind::ShapeMismatch, SRC, 2, None)]);
}

#[test]
fn two_rest_markers_mismatch() {
    let out = run(vec![
        decl(SRC, false, Shape::Array { len: 3 }, 1),
        decl_pattern(
            PatternKind::Array,
            vec![Slot::Named(A), Slot::Rest, Slot::Rest],
            false,
            SRC,
            2,
        ),
    ]);
    assert_eq!(out, vec![viol(ViolationKind::ShapeMismatch, SRC, 2, None)]);
}

#[test]
fn wildcard_slot_binds_nothing() {
    let out = run(vec![
        decl(SRC, false, Shape::Struct { fields: 2 }, 1),
        decl_pattern(PatternKind::Struct, vec![Slot::Named(A), Slot::Wildcard], false, SRC, 2),
        read(B, 3),
    ]);
    assert_eq!(out, vec![viol(ViolationKind::UnknownBinding, B, 3, None)]);
}

#[test]
fn assignment_pattern_moves_source_and_fills_targets() {
    let out = run(vec![
        decl(A, true, Shape::Scalar, 1),
        decl(B, true, Shape::Scalar, 2),
        decl(SRC, false, Shape::Struct { fields: 2 }, 3),
        assign_pattern(PatternKind::Struct, vec![Slot::Named(A), Slot::Named(B)], SRC, 4),
        read(A, 5),
        read(B, 6),
        read(SRC, 7),
    ]);
    assert_eq!(out, vec![viol(ViolationKind::UseOfMovedValue, SRC, 7, Some(4))]);
}

#[test]
fn assignment_pattern_needs_existing_targets() {
    let out = run(vec![
        decl(SRC, false, Shape::Struct { fields: 1 }, 1),
        assign_pattern(PatternKind::Struct, vec![Slot::Named(A)], SRC, 2),
    ]);
    assert_eq!(out, vec![viol(ViolationKind::UnknownBinding, A, 2, None)]);
}

#[test]
fn assignment_pattern_into_moved_target_reports_and_revives() {
    let out = run(vec![
        decl(A, true, Shape::Scalar, 1),
        Stmt { kind: StmtKind::Move { place: Place { name: A, field: None } }, site: 2 },
        decl(SRC, false, Shape::Struct { fields: 1 }, 3),
        assign_pattern(PatternKind::Struct, vec![Slot::Named(A)], SRC, 4),
        read(A, 5),
    ]);
    assert_eq!(out, vec![viol(ViolationKind::UseOfMovedValue, A, 4, Some(2))]);
}

#[test]
fn statements_after_root_scope_exit_find_nothing() {
    let out = run(vec![
        Stmt { kind: StmtKind::ExitScope, site: 1 },
        decl(A, false, Shape::Scalar, 2),
        read(A, 3),
    ]);
    assert_eq!(out, vec![viol(ViolationKind::UnknownBinding, A, 3, None)]);
}
