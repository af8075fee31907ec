//! Violations and the diagnostic reporter.

use vstd::prelude::*;

verus! {

/// Every rule the verifier can find broken. All of these are static
/// diagnostics; the verifier never aborts on one.
#[derive(Clone, Copy, PartialEq, Eq, Structural, Debug)]
pub enum ViolationKind {
    /// A whole-value use (read, move, borrow, mutate, destructure) of a
    /// binding that is moved or partially moved, or a use of an
    /// already-moved field.
    UseOfMovedValue,
    /// A move out of a binding that has an active borrow.
    CannotMoveWhileBorrowed,
    /// An exclusive borrow requested while any borrow is active.
    ConflictingBorrow,
    /// A shared borrow requested while an exclusive borrow is active.
    ConflictingExclusiveBorrow,
    /// A write through ownership while any borrow is active.
    CannotMutateWhileBorrowed,
    /// A borrow statement reborrowing through a handle whose borrow is no
    /// longer active (its root scope has exited, or it was never granted).
    UseOfExpiredBorrow,
    /// A destructuring pattern that disagrees with the source's shape, or a
    /// field access outside a value's shape.
    ShapeMismatch,
    /// A name that resolves to no live binding: the IR is malformed.
    UnknownBinding,
}

/// An immutable diagnostic record: the broken rule, the offending binding
/// name, the site of the offending statement, and, when one exists, the site
/// of the conflicting prior event (the move site, or the earlier borrow site).
#[derive(Clone, Copy, PartialEq, Eq, Debug)]
pub struct Violation {
    pub kind: ViolationKind,
    pub name: u32,
    pub site: u64,
    pub related: Option<u64>,
}

/// An append-only, ordered log of violations in discovery order.
pub struct Reporter {
    log: Vec<Violation>,
}

impl Reporter {
    pub closed spec fn view(&self) -> Seq<Violation> {
        self.log@
    }

    pub fn new() -> (r: Reporter)
        ensures
            r@ == Seq::<Violation>::empty(),
    {
        Reporter { log: Vec::new() }
    }

    pub fn report(&mut self, v: Violation)
        ensures
            final(self)@ == old(self)@.push(v),
    {
        self.log.push(v);
    }

    pub fn has_errors(&self) -> (r: bool)
        ensures
            r == (self@.len() != 0),
    {
        self.log.len() != 0
    }

    /// Returns the log in discovery order and clears it.
    pub fn drain(&mut self) -> (r: Vec<Violation>)
        ensures
            r@ == old(self)@,
            final(self)@ == Seq::<Violation>::empty(),
    {
        let mut out: Vec<Violation> = Vec::new();
        let mut i: usize = 0;
        while i < self.log.len()
            invariant
                i <= self.log.len(),
                out@ == self.log@.take(i as int),
                self.log@ == old(self)@,
            decreases self.log.len() - i,
        {
            out.push(self.log[i]);
            i = i + 1;
            proof {
                assert(out@ =~= self.log@.take(i as int));
            }
        }
        proof {
            assert(out@ =~= old(self)@);
        }
        self.log = Vec::new();
        out
    }
}

} // verus!
