//! The incremental verifier API and the worked example programs.

use borrowck::checker::Verifier;
use borrowck::demos;
use borrowck::diag::{Violation, ViolationKind};
use borrowck::ir::{Place, Shape, Stmt, StmtKind};
use borrowck::state::Config;

const X: u32 = 0;

#[test]
fn reporter_collects_in_order_and_drain_clears() {
    let mut v = Verifier::new(Config::default());
    v.apply(&Stmt {
        kind: StmtKind::DeclareBinding { name: X, mutable: false, shape: Shape::Scalar },
        site: 1,
    });
    assert!(!v.has_errors());
    v.apply(&Stmt { kind: StmtKind::Read { place: Place { name: 9, field: None } }, site: 2 });
    v.apply(&Stmt { kind: StmtKind::Mutate { name: 9 }, site: 3 });
    assert!(v.has_errors());
    let out = v.drain();
    assert_eq!(
        out,
        vec![
            Violation { kind: ViolationKind::UnknownBinding, name: 9, site: 2, related: None },
            Violation { kind: ViolationKind::UnknownBinding, name: 9, site: 3, related: None },
        ]
    );
    assert!(!v.has_errors());
    assert_eq!(v.drain(), Vec::new());
}

#[test]
fn default_config_enables_partial_moves() {
    let c = Config::default();
    assert!(c.allow_partial_moves);
    assert!(c.strict_borrow_scoping);
}

#[test]
fn example_unused_bindings_pass() {
    assert_eq!(demos::unuse_var(), Vec::new());
}

#[test]
fn example_operators_pass() {
    assert_eq!(demos::operate_use(), Vec::new());
}

#[test]
fn example_block_expression_passes() {
    assert_eq!(demos::express_use(), Vec::new());
}

#[test]
fn example_two_scalars_read_pass() {
    assert_eq!(demos::float_use_error_else(), Vec::new());
}

#[test]
fn example_shared_borrow_passes() {
    assert_eq!(demos::borrow_use(), Vec::new());
}

#[test]
fn example_scoped_exclusive_borrow_passes() {
    assert_eq!(demos::change(), Vec::new());
}

#[test]
fn example_mixed_borrows_conflict() {
    assert_eq!(
        demos::borrow_use_3(),
        vec![Violation { kind: ViolationKind::ConflictingBorrow, name: 0, site: 3, related: Some(2) }]
    );
}

#[test]
fn example_addition() {
    assert_eq!(demos::add(2, 3), 5);
    assert_eq!(demos::add(-7, 7), 0);
}
