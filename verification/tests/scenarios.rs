//! End-to-end scenarios: whole programs run through the verifier with their
//! exact diagnostic output checked.

use borrowck::checker::Verifier;
use borrowck::diag::{Violation, ViolationKind};
use borrowck::ir::{Pattern, PatternKind, Place, Shape, Slot, Stmt, StmtKind};
use borrowck::state::Config;

fn decl(name: u32, mutable: bool, shape: Shape, site: u64) -> Stmt {
    Stmt { kind: StmtKind::DeclareBinding { name, mutable, shape }, site }
}

fn whole(name: u32) -> Place {
    Place { name, field: None }
}

fn field(name: u32, f: usize) -> Place {
    Place { name, field: Some(f) }
}

fn read(place: Place, site: u64) -> Stmt {
    Stmt { kind: StmtKind::Read { place }, site }
}

fn mov(place: Place, site: u64) -> Stmt {
    Stmt { kind: StmtKind::Move { place }, site }
}

fn borrow_shared(name: u32, via: Option<usize>, site: u64) -> Stmt {
    Stmt { kind: StmtKind::BorrowShared { name, via }, site }
}

fn borrow_exclusive(name: u32, via: Option<usize>, site: u64) -> Stmt {
    Stmt { kind: StmtKind::BorrowExclusive { name, via }, site }
}

fn mutate(name: u32, site: u64) -> Stmt {
    Stmt { kind: StmtKind::Mutate { name }, site }
}

fn enter(site: u64) -> Stmt {
    Stmt { kind: StmtKind::EnterScope, site }
}

fn exit(site: u64) -> Stmt {
    Stmt { kind: StmtKind::ExitScope, site }
}

fn viol(kind: ViolationKind, name: u32, site: u64, related: Option<u64>) -> Violation {
    Violation { kind, name, site, related }
}

fn run(program: Vec<Stmt>) -> Vec<Violation> {
    Verifier::run(&program, Config::default())
}

const X: u32 = 0;
const S: u32 = 0;
const T: u32 = 0;
const A: u32 = 1;
const B: u32 = 2;

#[test]
fn move_then_read_reports_use_of_moved_value() {
    let out = run(vec![
        decl(X, false, Shape::Scalar, 1),
        mov(whole(X), 2),
        read(whole(X), 3),
    ]);
    assert_eq!(out, vec![viol(ViolationKind::UseOfMovedValue, X, 3, Some(2))]);
}

#[test]
fn two_shared_borrows_coexist() {
    let out = run(vec![
        decl(S, true, Shape::Scalar, 1),
        borrow_shared(S, None, 2),
        borrow_shared(S, None, 3),
    ]);
    assert_eq!(out, Vec::new());
}

#[test]
fn shared_then_exclusive_conflicts() {
    let out = run(vec![
        decl(S, true, Shape::Scalar, 1),
        borrow_shared(S, None, 2),
        borrow_exclusive(S, None, 3),
    ]);
    assert_eq!(out, vec![viol(ViolationKind::ConflictingBorrow, S, 3, Some(2))]);
}

#[test]
fn mutate_while_exclusively_borrowed_conflicts() {
    let out = run(vec![
        decl(S, true, Shape::Scalar, 1),
        borrow_exclusive(S, None, 2),
        mutate(S, 3),
    ]);
    assert_eq!(out, vec![viol(ViolationKind::CannotMutateWhileBorrowed, S, 3, Some(2))]);
}

#[test]
fn borrow_through_handle_of_exited_scope_expires() {
    // The dead-handle check wins over UnknownBinding: the handle is examined
    // before the (also gone) binding name is resolved.
    let out = run(vec![
        enter(1),
        decl(S, true, Shape::Scalar, 2),
        borrow_shared(S, None, 3),
        exit(4),
        borrow_shared(S, Some(0), 5),
    ]);
    assert_eq!(out, vec![viol(ViolationKind::UseOfExpiredBorrow, S, 5, Some(3))]);
}

#[test]
fn destructuring_moves_tuple_but_sub_bindings_live() {
    let pattern = Pattern {
        kind: PatternKind::Struct,
        slots: vec![Slot::Named(A), Slot::Named(B)],
        mutable: false,
    };
    let out = run(vec![
        decl(T, false, Shape::Struct { fields: 2 }, 1),
        Stmt { kind: StmtKind::DeclarePattern { pattern, source: T }, site: 2 },
        read(whole(T), 3),
        read(whole(A), 4),
        read(whole(B), 5),
    ]);
    assert_eq!(out, vec![viol(ViolationKind::UseOfMovedValue, T, 3, Some(2))]);
}

#[test]
fn rerunning_the_same_program_is_identical() {
    let build = || {
        vec![
            decl(S, true, Shape::Struct { fields: 2 }, 1),
            borrow_shared(S, None, 2),
            mov(whole(S), 3),
            read(whole(S), 4),
            exit(5),
            read(whole(A), 6),
        ]
    };
    let first = run(build());
    let second = run(build());
    assert_eq!(first, second);
    assert!(!first.is_empty());
}

#[test]
fn exiting_scope_releases_borrows() {
    let out = run(vec![
        decl(S, true, Shape::Scalar, 1),
        enter(2),
        borrow_exclusive(S, None, 3),
        exit(4),
        mutate(S, 5),
    ]);
    assert_eq!(out, Vec::new());
}

#[test]
fn reborrow_through_live_handle_is_granted() {
    let out = run(vec![
        decl(S, true, Shape::Scalar, 1),
        borrow_shared(S, None, 2),
        borrow_shared(S, Some(0), 3),
    ]);
    assert_eq!(out, Vec::new());
}

#[test]
fn shadowing_keeps_outer_binding_independent() {
    let out = run(vec![
        decl(X, false, Shape::Scalar, 1),
        enter(2),
        decl(X, false, Shape::Scalar, 3),
        mov(whole(X), 4),
        exit(5),
        read(whole(X), 6),
    ]);
    assert_eq!(out, Vec::new());
}

#[test]
fn move_while_borrowed_conflicts() {
    let out = run(vec![
        decl(S, true, Shape::Scalar, 1),
        borrow_shared(S, None, 2),
        mov(whole(S), 3),
    ]);
    assert_eq!(out, vec![viol(ViolationKind::CannotMoveWhileBorrowed, S, 3, Some(2))]);
}

#[test]
fn exclusive_then_shared_conflicts() {
    let out = run(vec![
        decl(S, true, Shape::Scalar, 1),
        borrow_exclusive(S, None, 2),
        borrow_shared(S, None, 3),
    ]);
    assert_eq!(out, vec![viol(ViolationKind::ConflictingExclusiveBorrow, S, 3, Some(2))]);
}

#[test]
fn unknown_binding_is_reported() {
    let out = run(vec![read(whole(X), 1)]);
    assert_eq!(out, vec![viol(ViolationKind::UnknownBinding, X, 1, None)]);
}

#[test]
fn partial_move_leaves_other_fields_readable() {
    let out = run(vec![
        decl(T, false, Shape::Struct { fields: 2 }, 1),
        mov(field(T, 0), 2),
        read(field(T, 1), 3),
        read(whole(T), 4),
    ]);
    assert_eq!(out, vec![viol(ViolationKind::UseOfMovedValue, T, 4, Some(2))]);
}

#[test]
fn disabled_partial_moves_treat_field_move_as_whole_move() {
    let program = vec![
        decl(T, false, Shape::Struct { fields: 2 }, 1),
        mov(field(T, 0), 2),
        read(field(T, 1), 3),
    ];
    let config = Config { allow_partial_moves: false, strict_borrow_scoping: true };
    let out = Verifier::run(&program, config);
    assert_eq!(out, vec![viol(ViolationKind::UseOfMovedValue, T, 3, Some(2))]);
}

#[test]
fn moving_same_field_twice_is_a_violation() {
    let out = run(vec![
        decl(T, false, Shape::Struct { fields: 2 }, 1),
        mov(field(T, 0), 2),
        mov(field(T, 0), 3),
    ]);
    assert_eq!(out, vec![viol(ViolationKind::UseOfMovedValue, T, 3, Some(2))]);
}

#[test]
fn field_outside_shape_is_a_shape_mismatch() {
    let out = run(vec![
        decl(T, false, Shape::Struct { fields: 2 }, 1),
        read(field(T, 2), 2),
    ]);
    assert_eq!(out, vec![viol(ViolationKind::ShapeMismatch, T, 2, None)]);
}

#[test]
fn assignment_revives_a_moved_binding() {
    let out = run(vec![
        decl(X, true, Shape::Scalar, 1),
        mov(whole(X), 2),
        Stmt { kind: StmtKind::Assign { name: X, shape: Shape::Scalar }, site: 3 },
        read(whole(X), 4),
    ]);
    assert_eq!(out, Vec::new());
}

#[test]
fn assignment_while_borrowed_conflicts() {
    let out = run(vec![
        decl(X, true, Shape::Scalar, 1),
        borrow_shared(X, None, 2),
        Stmt { kind: StmtKind::Assign { name: X, shape: Shape::Scalar }, site: 3 },
    ]);
    assert_eq!(out, vec![viol(ViolationKind::CannotMutateWhileBorrowed, X, 3, Some(2))]);
}

#[test]
fn borrow_of_moved_value_is_a_violation() {
    let out = run(vec![
        decl(S, true, Shape::Scalar, 1),
        mov(whole(S), 2),
        borrow_shared(S, None, 3),
    ]);
    assert_eq!(out, vec![viol(ViolationKind::UseOfMovedValue, S, 3, Some(2))]);
}

#[test]
fn read_after_recovered_move_violation_still_reports() {
    // After a refused move the binding is treated as moved going forward, so
    // one pass surfaces both defects.
    let out = run(vec![
        decl(S, true, Shape::Scalar, 1),
        borrow_shared(S, None, 2),
        mov(whole(S), 3),
        read(whole(S), 4),
    ]);
    assert_eq!(
        out,
        vec![
            viol(ViolationKind::CannotMoveWhileBorrowed, S, 3, Some(2)),
            viol(ViolationKind::UseOfMovedValue, S, 4, Some(3)),
        ]
    );
}

#[test]
fn mutate_of_moved_binding_is_a_violation() {
    let out = run(vec![
        decl(S, true, Shape::Scalar, 1),
        mov(whole(S), 2),
        mutate(S, 3),
    ]);
    assert_eq!(out, vec![viol(ViolationKind::UseOfMovedValue, S, 3, Some(2))]);
}

#[test]
fn whole_move_of_partially_moved_binding_is_a_violation() {
    let out = run(vec![
        decl(T, false, Shape::Struct { fields: 3 }, 1),
        mov(field(T, 1), 2),
        mov(whole(T), 3),
    ]);
    assert_eq!(out, vec![viol(ViolationKind::UseOfMovedValue, T, 3, Some(2))]);
}

#[test]
fn nested_scopes_release_in_lifo_order() {
    let out = run(vec![
        decl(S, true, Shape::Scalar, 1),
        enter(2),
        borrow_shared(S, None, 3),
        enter(4),
        borrow_shared(S, None, 5),
        exit(6),
        borrow_exclusive(S, None, 7),
        exit(8),
        borrow_exclusive(S, None, 9),
    ]);
    // At site 7 the outer scope's shared borrow (site 3) is still active;
    // after site 8 every borrow is released and the exclusive one succeeds.
    assert_eq!(out, vec![viol(ViolationKind::ConflictingBorrow, S, 7, Some(3))]);
}

#[test]
fn binding_of_inner_scope_is_gone_after_exit() {
    let out = run(vec![
        enter(1),
        decl(X, false, Shape::Scalar, 2),
        exit(3),
        read(whole(X), 4),
    ]);
    assert_eq!(out, vec![viol(ViolationKind::UnknownBinding, X, 4, None)]);
}
