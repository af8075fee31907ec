//! A static ownership-and-borrow verifier for a small imperative IR.
//!
//! The verifier walks a program (a sequence of [`ir::Stmt`] nodes) in order,
//! tracking for every binding whether it is live, moved, or partially moved,
//! which borrows are active on it, and in which lexical scope it lives. Every
//! rule violation is recorded as a [`diag::Violation`] and analysis continues
//! with a recovered state, so one pass reports as many defects as possible.

pub mod checker;
pub mod demos;
pub mod diag;
pub mod ir;
pub mod laws;
pub mod state;
