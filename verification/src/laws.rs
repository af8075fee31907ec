//! The laws the verifier's semantics obey, stated over [`Model`] and
//! [`step`] and proved for every reachable state and input.

use vstd::prelude::*;

use crate::diag::{Violation, ViolationKind};
use crate::ir::{PatternKind, Place, Shape, Slot, Stmt, StmtKind};
use crate::state::{
    active_on, assigned_one, assigned_slots, borrow_active, cur_scope, declared, declared_slots,
    first_active_borrow, first_active_exclusive, first_borrow_from, init_model,
    lemma_first_borrow_props, lemma_resolve_props, pattern_source_checked, pushed_borrow,
    reported, resolve, resolve_up_to, resolves_at, run_model, scope_open, step, step_assign,
    step_borrow, step_declare_pattern, step_enter, step_exit, step_move, step_mutate, step_read,
    steps, Config, Model, DEAD_SCOPE,
};

verus! {

/// A scope id a record may carry: one that was already handed out, or the
/// dead scope.
pub open spec fn scope_bounded(s: u64, next: u64) -> bool {
    s < next || s == DEAD_SCOPE
}

/// The borrow-exclusivity invariant: whenever two distinct borrows are
/// active on the same binding, both are shared — so a binding's active
/// borrows are all shared, or exactly one exclusive, never a mix and never
/// two exclusives.
pub open spec fn exclusivity_ok(m: Model) -> bool {
    forall|j: int, k: int|
        borrow_active(m, j) && borrow_active(m, k) && j != k && m.borrows[j].target
            == m.borrows[k].target ==> !m.borrows[j].exclusive && !m.borrows[k].exclusive
}

/// Well-formedness of a reachable state: the open scopes are strictly
/// nested (their ids strictly increase towards the top) and were all handed
/// out already; every recorded scope id is one that was handed out or the
/// dead scope, so a closed scope can never reopen; and borrow exclusivity
/// holds.
pub open spec fn wf(m: Model) -> bool {
    &&& forall|a: int, b: int| 0 <= a < b < m.stack.len() ==> m.stack[a] < m.stack[b]
    &&& forall|a: int| 0 <= a < m.stack.len() ==> m.stack[a] < m.next_scope
    &&& forall|j: int|
        0 <= j < m.borrows.len() ==> scope_bounded(m.borrows[j].scope, m.next_scope)
    &&& forall|i: int|
        0 <= i < m.bindings.len() ==> scope_bounded(m.bindings[i].scope, m.next_scope)
    &&& exclusivity_ok(m)
}

/// The fresh state is well formed.
pub proof fn lemma_init_wf(config: Config)
    ensures
        wf(init_model(config)),
{
    let m = init_model(config);
    assert(forall|j: int| 0 <= j < m.borrows.len() ==> scope_bounded(m.borrows[j].scope, 1u64));
}

/// Well-formedness transfers between states that share their scope stack,
/// scope counter, borrow records, and binding owner scopes.
proof fn lemma_wf_same_core(m1: Model, m2: Model)
    requires
        wf(m1),
        m2.stack == m1.stack,
        m2.next_scope == m1.next_scope,
        m2.borrows == m1.borrows,
        m2.bindings.len() == m1.bindings.len(),
        forall|i: int|
            0 <= i < m1.bindings.len() ==> m2.bindings[i].scope == m1.bindings[i].scope,
    ensures
        wf(m2),
{
    assert forall|j: int, k: int|
        borrow_active(m2, j) && borrow_active(m2, k) && j != k && m2.borrows[j].target
            == m2.borrows[k].target implies !m2.borrows[j].exclusive
        && !m2.borrows[k].exclusive by {
        assert(borrow_active(m1, j));
        assert(borrow_active(m1, k));
    }
}

/// Declaring a binding keeps the state well formed: the new record's owner
/// scope is the open top scope or the dead scope.
proof fn lemma_wf_declared(m: Model, name: u32, mutable: bool, shape: Shape)
    requires
        wf(m),
    ensures
        wf(declared(m, name, mutable, shape)),
{
    let m2 = declared(m, name, mutable, shape);
    if m.stack.len() > 0 {
        assert(m.stack[m.stack.len() - 1] < m.next_scope);
    }
    assert(scope_bounded(cur_scope(m), m.next_scope));
    assert forall|j: int, k: int|
        borrow_active(m2, j) && borrow_active(m2, k) && j != k && m2.borrows[j].target
            == m2.borrows[k].target implies !m2.borrows[j].exclusive
        && !m2.borrows[k].exclusive by {
        assert(borrow_active(m, j));
        assert(borrow_active(m, k));
    }
}

/// Appending a borrow record keeps the state well formed, provided a
/// granted exclusive borrow is granted only with no borrow active on its
/// target, and a granted shared one only with no exclusive borrow active.
proof fn lemma_wf_pushed_borrow(m: Model, target: int, exclusive: bool, site: u64, granted: bool)
    requires
        wf(m),
        0 <= target <= usize::MAX,
        granted && exclusive ==> first_active_borrow(m, target) is None,
        granted && !exclusive ==> first_active_exclusive(m, target) is None,
    ensures
        wf(pushed_borrow(m, target, exclusive, site, granted)),
{
    let m2 = pushed_borrow(m, target, exclusive, site, granted);
    let newj = m.borrows.len() as int;
    if m.stack.len() > 0 {
        assert(m.stack[m.stack.len() - 1] < m.next_scope);
    }
    assert(scope_bounded(cur_scope(m), m.next_scope));
    lemma_first_borrow_props(m, target, false, 0);
    lemma_first_borrow_props(m, target, true, 0);
    assert forall|j: int, k: int|
        borrow_active(m2, j) && borrow_active(m2, k) && j != k && m2.borrows[j].target
            == m2.borrows[k].target implies !m2.borrows[j].exclusive
        && !m2.borrows[k].exclusive by {
        if j < newj && k < newj {
            assert(borrow_active(m, j));
            assert(borrow_active(m, k));
        } else {
            let o = if j == newj {
                k
            } else {
                j
            };
            assert(m2.borrows[o] == m.borrows[o]);
            assert(scope_open(m2, m.borrows[o].scope) == scope_open(m, m.borrows[o].scope));
            assert(borrow_active(m, o));
            assert(granted);
            assert((target as usize) as int == target);
            assert(m.borrows[o].target == target as usize);
            assert(active_on(m, o, target));
        }
    }
}

/// Entering a scope keeps the state well formed: the fresh id is larger
/// than every open one, and no recorded scope id can equal it, so the set
/// of active borrows does not change.
proof fn lemma_wf_enter(m: Model)
    requires
        wf(m),
    ensures
        wf(step_enter(m)),
{
    let m2 = step_enter(m);
    if m.next_scope != DEAD_SCOPE {
        assert forall|s: u64|
            scope_bounded(s, m.next_scope) implies scope_open(m2, s) == scope_open(m, s) by {
            if scope_open(m2, s) {
                let idx = choose|idx: int| 0 <= idx < m2.stack.len() && m2.stack[idx] == s;
                if idx < m.stack.len() {
                    assert(m.stack[idx] == s);
                } else {
                    assert(s == m.next_scope);
                }
            } else {
                if scope_open(m, s) {
                    let idx = choose|idx: int| 0 <= idx < m.stack.len() && m.stack[idx] == s;
                    assert(m2.stack[idx] == s);
                }
            }
        }
        assert forall|j: int, k: int|
            borrow_active(m2, j) && borrow_active(m2, k) && j != k && m2.borrows[j].target
                == m2.borrows[k].target implies !m2.borrows[j].exclusive
            && !m2.borrows[k].exclusive by {
            assert(scope_bounded(m.borrows[j].scope, m.next_scope));
            assert(scope_bounded(m.borrows[k].scope, m.next_scope));
            assert(borrow_active(m, j));
            assert(borrow_active(m, k));
        }
    }
}

/// Exiting a scope keeps the state well formed: the set of active borrows
/// only shrinks.
proof fn lemma_wf_exit(m: Model)
    requires
        wf(m),
    ensures
        wf(step_exit(m)),
{
    let m2 = step_exit(m);
    if m.stack.len() > 0 {
        assert forall|s: u64| scope_open(m2, s) implies scope_open(m, s) by {
            let idx = choose|idx: int| 0 <= idx < m2.stack.len() && m2.stack[idx] == s;
            assert(m.stack[idx] == s);
        }
        assert forall|j: int, k: int|
            borrow_active(m2, j) && borrow_active(m2, k) && j != k && m2.borrows[j].target
                == m2.borrows[k].target implies !m2.borrows[j].exclusive
            && !m2.borrows[k].exclusive by {
            assert(borrow_active(m, j));
            assert(borrow_active(m, k));
        }
    }
}

/// The shared source handling of both destructuring forms preserves
/// well-formedness.
proof fn lemma_wf_pattern_source(m: Model, kind: PatternKind, slots: Seq<Slot>, source: u32, site: u64)
    requires
        wf(m),
    ensures
        wf(pattern_source_checked(m, kind, slots, source, site)),
{
    match resolve(m, source) {
        None => {
            lemma_wf_same_core(m, pattern_source_checked(m, kind, slots, source, site));
        },
        Some(i) => {
            lemma_resolve_props(m, source);
            lemma_wf_same_core(m, pattern_source_checked(m, kind, slots, source, site));
        },
    }
}

/// Introducing the sub-bindings of a pattern preserves well-formedness.
proof fn lemma_wf_declared_slots(m: Model, slots: Seq<Slot>, mutable: bool)
    requires
        wf(m),
    ensures
        wf(declared_slots(m, slots, mutable)),
    decreases slots.len(),
{
    if slots.len() == 0 {
    } else {
        let m1 = match slots[0] {
            Slot::Named(nm) => declared(m, nm, mutable, Shape::Scalar),
            _ => m,
        };
        match slots[0] {
            Slot::Named(nm) => lemma_wf_declared(m, nm, mutable, Shape::Scalar),
            _ => {},
        }
        lemma_wf_declared_slots(m1, slots.drop_first(), mutable);
    }
}

/// Assignment-by-move into one target preserves well-formedness.
proof fn lemma_wf_assigned_one(m: Model, nm: u32, site: u64)
    requires
        wf(m),
    ensures
        wf(assigned_one(m, nm, site)),
{
    match resolve(m, nm) {
        None => {
            lemma_wf_same_core(m, assigned_one(m, nm, site));
        },
        Some(t) => {
            lemma_resolve_props(m, nm);
            lemma_wf_same_core(m, assigned_one(m, nm, site));
        },
    }
}

/// Assignment-by-move into every named slot preserves well-formedness.
proof fn lemma_wf_assigned_slots(m: Model, slots: Seq<Slot>, site: u64)
    requires
        wf(m),
    ensures
        wf(assigned_slots(m, slots, site)),
    decreases slots.len(),
{
    if slots.len() == 0 {
    } else {
        let m1 = match slots[0] {
            Slot::Named(nm) => assigned_one(m, nm, site),
            _ => m,
        };
        match slots[0] {
            Slot::Named(nm) => lemma_wf_assigned_one(m, nm, site),
            _ => {},
        }
        lemma_wf_assigned_slots(m1, slots.drop_first(), site);
    }
}

/// Every statement preserves well-formedness — in particular, borrow
/// exclusivity holds in every reachable state: for any binding, the active
/// borrows are all shared or exactly one exclusive, never both kinds
/// together and never two exclusives.
pub proof fn lemma_step_preserves_wf(m: Model, s: Stmt)
    requires
        wf(m),
    ensures
        wf(step(m, s)),
{
    match s.kind {
        StmtKind::DeclareBinding { name, mutable, shape } => {
            lemma_wf_declared(m, name, mutable, shape);
        },
        StmtKind::DeclarePattern { pattern, source } => {
            lemma_wf_pattern_source(m, pattern.kind, pattern.slots@, source, s.site);
            lemma_wf_declared_slots(
                pattern_source_checked(m, pattern.kind, pattern.slots@, source, s.site),
                pattern.slots@,
                pattern.mutable,
            );
        },
        StmtKind::Assign { name, shape } => {
            match resolve(m, name) {
                None => lemma_wf_same_core(m, step_assign(m, name, shape, s.site)),
                Some(i) => {
                    lemma_resolve_props(m, name);
                    lemma_wf_same_core(m, step_assign(m, name, shape, s.site));
                },
            }
        },
        StmtKind::AssignPattern { pattern, source } => {
            lemma_wf_pattern_source(m, pattern.kind, pattern.slots@, source, s.site);
            lemma_wf_assigned_slots(
                pattern_source_checked(m, pattern.kind, pattern.slots@, source, s.site),
                pattern.slots@,
                s.site,
            );
        },
        StmtKind::Read { place } => {
            if resolve(m, place.name) is Some {
                lemma_resolve_props(m, place.name);
            }
            lemma_wf_same_core(m, step_read(m, place, s.site));
        },
        StmtKind::Move { place } => {
            if resolve(m, place.name) is Some {
                lemma_resolve_props(m, place.name);
            }
            lemma_wf_same_core(m, step_move(m, place, s.site));
        },
        StmtKind::BorrowShared { name, via } => {
            lemma_wf_borrow(m, name, via, false, s.site);
        },
        StmtKind::BorrowExclusive { name, via } => {
            lemma_wf_borrow(m, name, via, true, s.site);
        },
        StmtKind::Mutate { name } => {
            lemma_wf_same_core(m, step_mutate(m, name, s.site));
        },
        StmtKind::EnterScope => {
            lemma_wf_enter(m);
        },
        StmtKind::ExitScope => {
            lemma_wf_exit(m);
        },
    }
}

/// A borrow statement preserves well-formedness: it grants only under the
/// exclusivity checks.
proof fn lemma_wf_borrow(m: Model, name: u32, via: Option<usize>, exclusive: bool, site: u64)
    requires
        wf(m),
    ensures
        wf(step_borrow(m, name, via, exclusive, site)),
{
    match via {
        Some(h) if !crate::state::handle_live(m, h) => {
            let mr = reported(
                m,
                ViolationKind::UseOfExpiredBorrow,
                name,
                site,
                crate::state::expired_related(m, h),
            );
            lemma_wf_same_core(m, mr);
            lemma_wf_pushed_borrow(mr, 0, exclusive, site, false);
        },
        _ => {
            match resolve(m, name) {
                None => {
                    let mr = reported(m, ViolationKind::UnknownBinding, name, site, None);
                    lemma_wf_same_core(m, mr);
                    lemma_wf_pushed_borrow(mr, 0, exclusive, site, false);
                },
                Some(i) => {
                    lemma_resolve_props(m, name);
                    let t = (i as usize) as int;
                    let b = m.bindings[i];
                    if crate::state::whole_unusable(b) {
                        let mr = reported(
                            m,
                            ViolationKind::UseOfMovedValue,
                            name,
                            site,
                            b.move_site,
                        );
                        lemma_wf_same_core(m, mr);
                        lemma_wf_pushed_borrow(mr, t, exclusive, site, false);
                    } else if exclusive {
                        match first_active_borrow(m, t) {
                            Some(j) => {
                                let mr = reported(
                                    m,
                                    ViolationKind::ConflictingBorrow,
                                    name,
                                    site,
                                    Some(m.borrows[j].site),
                                );
                                lemma_wf_same_core(m, mr);
                                lemma_first_borrow_x_transfer(m, mr, t);
                                lemma_wf_pushed_borrow(mr, t, exclusive, site, false);
                            },
                            None => {
                                lemma_wf_pushed_borrow(m, t, exclusive, site, true);
                            },
                        }
                    } else {
                        match first_active_exclusive(m, t) {
                            Some(j) => {
                                let mr = reported(
                                    m,
                                    ViolationKind::ConflictingExclusiveBorrow,
                                    name,
                                    site,
                                    Some(m.borrows[j].site),
                                );
                                lemma_wf_same_core(m, mr);
                                lemma_first_borrow_x_transfer(m, mr, t);
                                lemma_wf_pushed_borrow(mr, t, exclusive, site, false);
                            },
                            None => {
                                lemma_wf_pushed_borrow(m, t, exclusive, site, true);
                            },
                        }
                    }
                },
            }
        },
    }
}

/// Borrow searches agree between states with the same borrows and stack.
proof fn lemma_first_borrow_same(m1: Model, m2: Model, b: int, excl_only: bool, j: int)
    requires
        m2.borrows == m1.borrows,
        m2.stack == m1.stack,
        0 <= j,
    ensures
        first_borrow_from(m1, b, excl_only, j) == first_borrow_from(m2, b, excl_only, j),
    decreases m1.borrows.len() - j,
{
    if j >= m1.borrows.len() {
    } else {
        lemma_first_borrow_same(m1, m2, b, excl_only, j + 1);
    }
}

/// Helper: transfers both borrow searches from `m1` to `m2`.
proof fn lemma_first_borrow_x_transfer(m1: Model, m2: Model, b: int)
    requires
        m2.borrows == m1.borrows,
        m2.stack == m1.stack,
    ensures
        first_active_borrow(m2, b) == first_active_borrow(m1, b),
        first_active_exclusive(m2, b) == first_active_exclusive(m1, b),
{
    lemma_first_borrow_same(m1, m2, b, false, 0);
    lemma_first_borrow_same(m1, m2, b, true, 0);
}

/// A whole program preserves well-formedness, so every state the verifier
/// reaches from the fresh state is well formed.
pub proof fn lemma_steps_preserve_wf(m: Model, prog: Seq<Stmt>)
    requires
        wf(m),
    ensures
        wf(steps(m, prog)),
    decreases prog.len(),
{
    if prog.len() == 0 {
    } else {
        lemma_step_preserves_wf(m, prog[0]);
        lemma_steps_preserve_wf(step(m, prog[0]), prog.drop_first());
    }
}

/// In a well-formed state a binding has at most one active exclusive
/// borrow, and never an exclusive borrow together with another borrow.
pub proof fn lemma_active_borrows_exclusive(m: Model, j: int, k: int)
    requires
        wf(m),
        borrow_active(m, j),
        borrow_active(m, k),
        j != k,
        m.borrows[j].target == m.borrows[k].target,
    ensures
        !m.borrows[j].exclusive,
        !m.borrows[k].exclusive,
{
}

/// Name resolution agrees between states with the same stack and the same
/// binding names and owner scopes.
proof fn lemma_resolve_same(m1: Model, m2: Model, name: u32, n: int)
    requires
        m2.stack == m1.stack,
        m2.bindings.len() == m1.bindings.len(),
        forall|i: int|
            0 <= i < m1.bindings.len() ==> m2.bindings[i].name == m1.bindings[i].name
                && m2.bindings[i].scope == m1.bindings[i].scope,
        n <= m1.bindings.len(),
    ensures
        resolve_up_to(m1, name, n) == resolve_up_to(m2, name, n),
    decreases n,
{
    if n <= 0 {
    } else {
        lemma_resolve_same(m1, m2, name, n - 1);
    }
}

/// Reading a whole binding right after moving it, with nothing in between,
/// always reports `UseOfMovedValue` on that binding at the read site, with
/// the move's site attached — whether or not the move itself was already a
/// violation.
pub proof fn lemma_read_right_after_move(m: Model, name: u32, s1: u64, s2: u64)
    requires
        resolve(m, name) is Some,
    ensures
        ({
            let mv = Stmt { kind: StmtKind::Move { place: Place { name, field: None } }, site: s1 };
            let rd = Stmt { kind: StmtKind::Read { place: Place { name, field: None } }, site: s2 };
            let m1 = step(m, mv);
            step(m1, rd).viols == m1.viols.push(
                Violation {
                    kind: ViolationKind::UseOfMovedValue,
                    name,
                    site: s2,
                    related: Some(s1),
                },
            )
        }),
{
    let mv = Stmt { kind: StmtKind::Move { place: Place { name, field: None } }, site: s1 };
    let rd = Stmt { kind: StmtKind::Read { place: Place { name, field: None } }, site: s2 };
    let i = resolve(m, name)->Some_0;
    lemma_resolve_props(m, name);
    let m1 = step(m, mv);
    assert(m1.bindings[i].moved);
    assert(m1.bindings[i].move_site == Some(s1));
    lemma_resolve_same(m, m1, name, m.bindings.len() as int);
    assert(resolve(m1, name) == Some(i));
}

/// Exiting a scope releases every borrow rooted in it: afterwards no such
/// borrow is active, because a closed scope's id never reappears on the
/// stack.
pub proof fn lemma_exit_releases_borrows(m: Model, j: int)
    requires
        wf(m),
        m.stack.len() > 0,
        0 <= j < m.borrows.len(),
        m.borrows[j].scope == m.stack.last(),
    ensures
        !borrow_active(step_exit(m), j),
{
    let m2 = step_exit(m);
    assert forall|idx: int| 0 <= idx < m2.stack.len() implies m2.stack[idx] != m.stack.last() by {
        assert(m.stack[idx] < m.stack[m.stack.len() - 1]);
    }
    assert(!m2.stack.contains(m.borrows[j].scope));
}

/// A borrow statement that reborrows through a handle whose borrow is no
/// longer active reports `UseOfExpiredBorrow` and grants nothing; this
/// check wins over `UnknownBinding` when the binding is gone as well.
pub proof fn lemma_borrow_through_dead_handle(
    m: Model,
    name: u32,
    h: usize,
    exclusive: bool,
    site: u64,
)
    requires
        h < m.borrows.len(),
        !borrow_active(m, h as int),
    ensures
        step_borrow(m, name, Some(h), exclusive, site).viols == m.viols.push(
            Violation {
                kind: ViolationKind::UseOfExpiredBorrow,
                name,
                site,
                related: Some(m.borrows[h as int].site),
            },
        ),
        !step_borrow(m, name, Some(h), exclusive, site).borrows.last().granted,
{
}

/// After a scope exits, reborrowing through any handle rooted in it fails
/// with `UseOfExpiredBorrow`.
pub proof fn lemma_borrow_after_scope_exit(
    m: Model,
    name: u32,
    h: usize,
    exclusive: bool,
    site: u64,
)
    requires
        wf(m),
        m.stack.len() > 0,
        h < m.borrows.len(),
        m.borrows[h as int].scope == m.stack.last(),
    ensures
        step_borrow(step_exit(m), name, Some(h), exclusive, site).viols == step_exit(
            m,
        ).viols.push(
            Violation {
                kind: ViolationKind::UseOfExpiredBorrow,
                name,
                site,
                related: Some(m.borrows[h as int].site),
            },
        ),
{
    lemma_exit_releases_borrows(m, h as int);
    lemma_borrow_through_dead_handle(step_exit(m), name, h, exclusive, site);
}

/// Introducing pattern sub-bindings only appends records whose names come
/// from the pattern's named slots; existing records are untouched.
proof fn lemma_declared_slots_appends(m: Model, slots: Seq<Slot>, mutable: bool)
    ensures
        ({
            let m2 = declared_slots(m, slots, mutable);
            &&& m2.bindings.len() >= m.bindings.len()
            &&& forall|i: int| 0 <= i < m.bindings.len() ==> m2.bindings[i] == m.bindings[i]
            &&& forall|i: int|
                #![trigger m2.bindings[i]]
                m.bindings.len() <= i < m2.bindings.len() ==> (exists|k: int|
                    #![trigger slots[k]]
                    0 <= k < slots.len() && slots[k] == Slot::Named(m2.bindings[i].name))
            &&& m2.stack == m.stack
            &&& m2.viols == m.viols
            &&& m2.borrows == m.borrows
        }),
    decreases slots.len(),
{
    if slots.len() == 0 {
    } else {
        let m1 = match slots[0] {
            Slot::Named(nm) => declared(m, nm, mutable, Shape::Scalar),
            _ => m,
        };
        lemma_declared_slots_appends(m1, slots.drop_first(), mutable);
        let m2 = declared_slots(m, slots, mutable);
        assert forall|i: int|
            #![trigger m2.bindings[i]]
            m.bindings.len() <= i < m2.bindings.len() implies (exists|k: int|
            #![trigger slots[k]]
            0 <= k < slots.len() && slots[k] == Slot::Named(m2.bindings[i].name)) by {
            if i < m1.bindings.len() {
                assert(m2.bindings[i] == m1.bindings[i]);
                assert(slots[0] == Slot::Named(m1.bindings[i].name));
            } else {
                let k = choose|k: int|
                    0 <= k < slots.drop_first().len() && slots.drop_first()[k] == Slot::Named(
                        m2.bindings[i].name,
                    );
                assert(slots[k + 1] == Slot::Named(m2.bindings[i].name));
            }
        }
    }
}

/// Destructuring a composite always moves the whole source and never the
/// reverse: after `DeclarePattern` the source binding is marked moved, and
/// — provided the pattern does not rebind the source's own name — a
/// following whole-value read of the source reports `UseOfMovedValue`,
/// while the sub-bindings are fresh and live.
pub proof fn lemma_destructure_moves_whole_source(
    m: Model,
    kind: PatternKind,
    slots: Seq<Slot>,
    mutable: bool,
    source: u32,
    site: u64,
    s2: u64,
    i: int,
)
    requires
        resolve(m, source) == Some(i),
        forall|k: int| 0 <= k < slots.len() ==> slots[k] != Slot::Named(source),
    ensures
        ({
            let m1 = step_declare_pattern(m, kind, slots, mutable, source, site);
            &&& m1.bindings[i].moved
            &&& resolve(m1, source) == Some(i)
            &&& step_read(m1, Place { name: source, field: None }, s2).viols == m1.viols.push(
                Violation {
                    kind: ViolationKind::UseOfMovedValue,
                    name: source,
                    site: s2,
                    related: Some(site),
                },
            )
        }),
{
    lemma_resolve_props(m, source);
    let mc = pattern_source_checked(m, kind, slots, source, site);
    let m1 = step_declare_pattern(m, kind, slots, mutable, source, site);
    lemma_declared_slots_appends(mc, slots, mutable);
    assert(m1.bindings[i].moved);
    assert(m1.bindings[i].move_site == Some(site));
    assert(resolves_at(m1, source, i));
    lemma_resolve_props(m1, source);
    match resolve(m1, source) {
        None => {
            assert(!resolves_at(m1, source, i));
        },
        Some(ip) => {
            if ip < i {
                assert(!resolves_at(m1, source, i));
            } else if ip > i {
                if ip < m.bindings.len() {
                    assert(resolves_at(m1, source, ip));
                    assert(m1.bindings[ip].name == m.bindings[ip].name);
                    assert(m1.bindings[ip].scope == m.bindings[ip].scope);
                    assert(resolves_at(m, source, ip));
                } else {
                    let k = choose|k: int|
                        0 <= k < slots.len() && slots[k] == Slot::Named(m1.bindings[ip].name);
                    assert(slots[k] != Slot::Named(source));
                }
            }
        },
    }
    assert(resolve(m1, source) == Some(i));
}

/// Re-running the verifier on the same program with the same configuration
/// yields identical diagnostics: the whole run is a function of its input,
/// with no other state. Together with `Verifier::run`'s contract this pins
/// every rerun to the same output sequence.
pub proof fn lemma_rerun_identical(p1: Seq<Stmt>, p2: Seq<Stmt>, c1: Config, c2: Config)
    requires
        p1 == p2,
        c1 == c2,
    ensures
        run_model(p1, c1) == run_model(p2, c2),
{
}

} // verus!
