//! The intermediate representation the verifier consumes.
//!
//! A program is an ordered sequence of [`Stmt`] nodes. Binding names are
//! interned symbols (`u32`) supplied by the front end that produced the IR,
//! and every statement carries an opaque location token (`u64`) used only for
//! diagnostics. The verifier needs to know of an initializer only its
//! composite shape, so initializers are represented by [`Shape`] values.

use vstd::prelude::*;

verus! {

/// The composite shape of a value, as far as the verifier needs it: a scalar,
/// a struct (or tuple) with a known number of fields, or an array of known
/// length. Shape is tracked one level deep; the fields of a composite are
/// scalars to the verifier.
#[derive(Clone, Copy, PartialEq, Eq, Structural, Debug)]
pub enum Shape {
    Scalar,
    Struct { fields: usize },
    Array { len: usize },
}

impl Shape {
    /// How many destructurable fields a value of this shape has.
    pub open spec fn field_count(self) -> nat {
        match self {
            Shape::Scalar => 0,
            Shape::Struct { fields } => fields as nat,
            Shape::Array { len } => len as nat,
        }
    }
}

/// One slot of a destructuring pattern: a named sub-binding, a wildcard that
/// discards its matched value, or a rest marker that absorbs any number of
/// remaining fields. A well-formed pattern has at most one rest marker.
#[derive(Clone, Copy, PartialEq, Eq, Structural, Debug)]
pub enum Slot {
    Named(u32),
    Wildcard,
    Rest,
}

/// Whether a pattern matches struct/tuple fields or array elements.
#[derive(Clone, Copy, PartialEq, Eq, Structural, Debug)]
pub enum PatternKind {
    Struct,
    Array,
}

/// A destructuring pattern. `mutable` is the mutability that the enclosing
/// `let` form gives to every sub-binding the pattern introduces.
#[derive(Clone, Debug)]
pub struct Pattern {
    pub kind: PatternKind,
    pub slots: Vec<Slot>,
    pub mutable: bool,
}

/// A place a statement reads or moves from: a whole binding, or one field of
/// a composite binding (`field` carries the field's index).
#[derive(Clone, Copy, Debug)]
pub struct Place {
    pub name: u32,
    pub field: Option<usize>,
}

/// One IR statement. Borrow statements may carry `via`, the handle of an
/// earlier borrow they reborrow through; handles are allocated densely, one
/// per borrow statement, in program order.
#[derive(Clone, Debug)]
pub enum StmtKind {
    DeclareBinding { name: u32, mutable: bool, shape: Shape },
    DeclarePattern { pattern: Pattern, source: u32 },
    Assign { name: u32, shape: Shape },
    AssignPattern { pattern: Pattern, source: u32 },
    Read { place: Place },
    Move { place: Place },
    BorrowShared { name: u32, via: Option<usize> },
    BorrowExclusive { name: u32, via: Option<usize> },
    Mutate { name: u32 },
    EnterScope,
    ExitScope,
}

/// A statement together with its location token.
#[derive(Clone, Debug)]
pub struct Stmt {
    pub kind: StmtKind,
    pub site: u64,
}

} // verus!
