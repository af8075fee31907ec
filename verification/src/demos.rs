//! Worked example programs, each one small IR sequence run through the
//! verifier with its diagnostic output pinned down exactly. They mirror the
//! little demonstration programs the analysis is meant to accept or reject:
//! plain declarations and reads, scope-bounded borrows, a conflicting borrow,
//! and one plain arithmetic helper.

use vstd::prelude::*;

use crate::diag::{Violation, ViolationKind};
use crate::ir::{Place, Shape, Stmt, StmtKind};
use crate::state::{first_borrow_from, resolve_up_to, Config};
use crate::checker::Verifier;

verus! {

/// Two scalars declared and never used: declaring without using breaks no
/// ownership rule, so the analysis reports nothing.
pub fn unuse_var() -> (r: Vec<Violation>)
    ensures
        r@ == Seq::<Violation>::empty(),
{
    let mut v = Verifier::new(Config::default());
    v.apply(
        &Stmt {
            kind: StmtKind::DeclareBinding { name: 0, mutable: false, shape: Shape::Scalar },
            site: 1,
        },
    );
    v.apply(
        &Stmt {
            kind: StmtKind::DeclareBinding { name: 1, mutable: false, shape: Shape::Scalar },
            site: 2,
        },
    );
    v.drain()
}

/// The five arithmetic results (sum, difference, product, quotient,
/// remainder) declared one after the other: five independent live bindings,
/// no violation.
pub fn operate_use() -> (r: Vec<Violation>)
    ensures
        r@ == Seq::<Violation>::empty(),
{
    let mut v = Verifier::new(Config::default());
    let mut name: u32 = 0;
    while name < 5
        invariant
            v@.viols == Seq::<Violation>::empty(),
        decreases 5 - name,
    {
        v.apply(
            &Stmt {
                kind: StmtKind::DeclareBinding { name, mutable: false, shape: Shape::Scalar },
                site: name as u64,
            },
        );
        name = name + 1;
    }
    v.drain()
}

/// A block expression: an inner scope declares and reads its own binding,
/// the scope closes, and the result initializes an outer binding. All uses
/// are live, so the analysis reports nothing.
pub fn express_use() -> (r: Vec<Violation>)
    ensures
        r@ == Seq::<Violation>::empty(),
{
    let x: u32 = 0;
    let y: u32 = 1;
    let mut v = Verifier::new(Config::default());
    v.apply(&Stmt { kind: StmtKind::EnterScope, site: 1 });
    v.apply(
        &Stmt {
            kind: StmtKind::DeclareBinding { name: x, mutable: false, shape: Shape::Scalar },
            site: 2,
        },
    );
    proof {
        reveal_with_fuel(resolve_up_to, 3);
        assert(v@.stack[1] == 1u64);
        assert(v@.stack.contains(1u64));
    }
    v.apply(&Stmt { kind: StmtKind::Read { place: Place { name: x, field: None } }, site: 3 });
    v.apply(&Stmt { kind: StmtKind::ExitScope, site: 4 });
    v.apply(
        &Stmt {
            kind: StmtKind::DeclareBinding { name: y, mutable: false, shape: Shape::Scalar },
            site: 5,
        },
    );
    v.drain()
}

/// The nearly-equal comparison example reduced to its ownership content:
/// two scalars are declared and then both read. Reading live bindings any
/// number of times is legal.
pub fn float_use_error_else() -> (r: Vec<Violation>)
    ensures
        r@ == Seq::<Violation>::empty(),
{
    let x: u32 = 0;
    let y: u32 = 1;
    let mut v = Verifier::new(Config::default());
    v.apply(
        &Stmt {
            kind: StmtKind::DeclareBinding { name: x, mutable: false, shape: Shape::Scalar },
            site: 1,
        },
    );
    v.apply(
        &Stmt {
            kind: StmtKind::DeclareBinding { name: y, mutable: false, shape: Shape::Scalar },
            site: 2,
        },
    );
    proof {
        reveal_with_fuel(resolve_up_to, 3);
        assert(v@.stack[0] == 0u64);
        assert(v@.stack.contains(0u64));
    }
    v.apply(&Stmt { kind: StmtKind::Read { place: Place { name: x, field: None } }, site: 3 });
    proof {
        reveal_with_fuel(resolve_up_to, 3);
    }
    v.apply(&Stmt { kind: StmtKind::Read { place: Place { name: y, field: None } }, site: 4 });
    v.drain()
}

/// A shared borrow beside the owner: borrow `x`, then read `x` through its
/// ownership. A shared borrow forbids neither another shared borrow nor a
/// read, so the analysis reports nothing.
pub fn borrow_use() -> (r: Vec<Violation>)
    ensures
        r@ == Seq::<Violation>::empty(),
{
    let x: u32 = 0;
    let mut v = Verifier::new(Config::default());
    v.apply(
        &Stmt {
            kind: StmtKind::DeclareBinding { name: x, mutable: false, shape: Shape::Scalar },
            site: 1,
        },
    );
    proof {
        reveal_with_fuel(resolve_up_to, 2);
        reveal_with_fuel(first_borrow_from, 2);
        assert(v@.stack[0] == 0u64);
        assert(v@.stack.contains(0u64));
    }
    v.apply(&Stmt { kind: StmtKind::BorrowShared { name: x, via: None }, site: 2 });
    proof {
        reveal_with_fuel(resolve_up_to, 2);
    }
    v.apply(&Stmt { kind: StmtKind::Read { place: Place { name: x, field: None } }, site: 3 });
    v.drain()
}

/// Mutation through a helper that takes an exclusive borrow: the borrow
/// lives in an inner scope, the scope closes and releases it, and only then
/// is the owner mutated and read again. No borrow is active at the
/// mutation, so the analysis reports nothing.
pub fn change() -> (r: Vec<Violation>)
    ensures
        r@ == Seq::<Violation>::empty(),
{
    let s: u32 = 0;
    let mut v = Verifier::new(Config::default());
    v.apply(
        &Stmt {
            kind: StmtKind::DeclareBinding { name: s, mutable: true, shape: Shape::Scalar },
            site: 1,
        },
    );
    v.apply(&Stmt { kind: StmtKind::EnterScope, site: 2 });
    proof {
        reveal_with_fuel(resolve_up_to, 2);
        reveal_with_fuel(first_borrow_from, 2);
        assert(v@.stack[0] == 0u64);
        assert(v@.stack.contains(0u64));
    }
    v.apply(&Stmt { kind: StmtKind::BorrowExclusive { name: s, via: None }, site: 3 });
    v.apply(&Stmt { kind: StmtKind::ExitScope, site: 4 });
    proof {
        reveal_with_fuel(resolve_up_to, 2);
        reveal_with_fuel(first_borrow_from, 3);
        assert(v@.stack =~= seq![0u64]);
        assert(v@.stack.contains(0u64));
        assert(forall|idx: int| 0 <= idx < v@.stack.len() ==> v@.stack[idx] != 1u64);
        assert(!v@.stack.contains(1u64));
    }
    v.apply(&Stmt { kind: StmtKind::Mutate { name: s }, site: 5 });
    proof {
        reveal_with_fuel(resolve_up_to, 2);
    }
    v.apply(&Stmt { kind: StmtKind::Read { place: Place { name: s, field: None } }, site: 6 });
    v.drain()
}

/// A shared borrow, then an exclusive borrow of the same binding while the
/// shared one is still active: exactly one `ConflictingBorrow` violation,
/// pointing back at the shared borrow's site. A further shared borrow after
/// the refused exclusive one is granted again.
pub fn borrow_use_3() -> (r: Vec<Violation>)
    ensures
        r@ == seq![
            Violation {
                kind: ViolationKind::ConflictingBorrow,
                name: 0,
                site: 3,
                related: Some(2),
            },
        ],
{
    let s: u32 = 0;
    let mut v = Verifier::new(Config::default());
    v.apply(
        &Stmt {
            kind: StmtKind::DeclareBinding { name: s, mutable: true, shape: Shape::Scalar },
            site: 1,
        },
    );
    proof {
        reveal_with_fuel(resolve_up_to, 2);
        reveal_with_fuel(first_borrow_from, 2);
        assert(v@.stack[0] == 0u64);
        assert(v@.stack.contains(0u64));
    }
    v.apply(&Stmt { kind: StmtKind::BorrowShared { name: s, via: None }, site: 2 });
    proof {
        reveal_with_fuel(resolve_up_to, 2);
        reveal_with_fuel(first_borrow_from, 2);
        assert(v@.borrows[0].granted && v@.borrows[0].target == 0 && !v@.borrows[0].exclusive);
    }
    v.apply(&Stmt { kind: StmtKind::BorrowExclusive { name: s, via: None }, site: 3 });
    proof {
        reveal_with_fuel(resolve_up_to, 2);
        reveal_with_fuel(first_borrow_from, 3);
        assert(!v@.borrows[1].granted);
    }
    v.apply(&Stmt { kind: StmtKind::BorrowShared { name: s, via: None }, site: 4 });
    let r = v.drain();
    proof {
        assert(r@ =~= seq![
            Violation { kind: ViolationKind::ConflictingBorrow, name: 0, site: 3, related: Some(2) },
        ]);
    }
    r
}

/// Plain checked addition, kept beside the examples: the sum of two
/// machine integers whose mathematical sum stays in range.
pub fn add(x: i32, y: i32) -> (r: i32)
    requires
        i32::MIN <= x + y <= i32::MAX,
    ensures
        r == x + y,
{
    x + y
}

} // verus!
