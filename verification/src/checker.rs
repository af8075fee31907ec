//! The executable verifier: the scope stack, binding table, borrow tracker
//! and diagnostic reporter behind one type, every statement handler proved to
//! make exactly the transition that [`crate::state::step`] defines.

use vstd::prelude::*;
use vstd::pervasive::VecAdditionalExecFns;

use crate::diag::{Reporter, Violation, ViolationKind};
use crate::ir::{Pattern, PatternKind, Place, Shape, Slot, Stmt, StmtKind};
use crate::state::{
    assigned_one, assigned_slots, binding_views, cur_scope, declared_slots, first_borrow_from,
    fresh_fields, init_model, marked_field_moved, marked_whole_moved, Model, partially_moved,
    pattern_source_checked, pushed_borrow, reported, resolve, resolve_up_to, revived,
    revived_same_shape, rest_count, run_model, scope_open, shape_matches, slots_fit, step,
    step_assign, step_borrow, step_declare, step_enter, step_exit, step_move, step_mutate,
    step_read, steps, BindingRec, BorrowRec, Config, DEAD_SCOPE,
};

verus! {

/// A copy of a vector of field flags.
fn copy_bools(v: &Vec<bool>) -> (r: Vec<bool>)
    ensures
        r@ == v@,
{
    let mut r: Vec<bool> = Vec::new();
    let mut i: usize = 0;
    while i < v.len()
        invariant
            i <= v@.len(),
            r@ == v@.take(i as int),
        decreases v@.len() - i,
    {
        r.push(v[i]);
        i = i + 1;
        proof {
            assert(r@ =~= v@.take(i as int));
        }
    }
    proof {
        assert(r@ =~= v@);
    }
    r
}

/// The number of destructurable fields a value of this shape has.
fn field_count_x(shape: Shape) -> (r: usize)
    ensures
        r as nat == shape.field_count(),
{
    match shape {
        Shape::Scalar => 0,
        Shape::Struct { fields } => fields,
        Shape::Array { len } => len,
    }
}

/// The all-live field flags of a fresh value of this shape.
fn fresh_fields_x(shape: Shape) -> (r: Vec<bool>)
    ensures
        r@ == fresh_fields(shape),
{
    let n = field_count_x(shape);
    let mut r: Vec<bool> = Vec::new();
    let mut i: usize = 0;
    while i < n
        invariant
            i <= n,
            r@.len() == i,
            forall|k: int| 0 <= k < i ==> !r@[k],
        decreases n - i,
    {
        r.push(false);
        i = i + 1;
    }
    proof {
        assert(r@ =~= fresh_fields(shape));
    }
    r
}

/// How many rest markers a pattern has.
fn rest_count_x(slots: &Vec<Slot>) -> (r: usize)
    ensures
        r as nat == rest_count(slots@),
{
    let mut c: usize = 0;
    let mut i: usize = 0;
    proof {
        assert(slots@.skip(0) =~= slots@);
    }
    while i < slots.len()
        invariant
            i <= slots@.len(),
            c <= i,
            rest_count(slots@) == c + rest_count(slots@.skip(i as int)),
        decreases slots@.len() - i,
    {
        proof {
            assert(slots@.skip(i as int)[0] == slots@[i as int]);
            assert(slots@.skip(i as int).drop_first() =~= slots@.skip(i as int + 1));
        }
        if matches!(slots[i], Slot::Rest) {
            c = c + 1;
        }
        i = i + 1;
    }
    proof {
        assert(slots@.skip(slots@.len() as int) =~= Seq::<Slot>::empty());
    }
    c
}

/// Whether a pattern with these slots fits a composite of `n` fields.
fn slots_fit_x(slots: &Vec<Slot>, n: usize) -> (r: bool)
    ensures
        r == slots_fit(slots@, n as nat),
{
    let rc = rest_count_x(slots);
    if rc == 0 {
        slots.len() == n
    } else if rc == 1 {
        proof {
            crate::state::lemma_rest_count_le(slots@);
        }
        slots.len() - 1 <= n
    } else {
        false
    }
}

/// Whether a pattern matches the source's shape.
fn shape_matches_x(shape: Shape, pattern: &Pattern) -> (r: bool)
    ensures
        r == shape_matches(shape, pattern.kind, pattern.slots@),
{
    match shape {
        Shape::Scalar => false,
        Shape::Struct { fields } => pattern.kind == PatternKind::Struct && slots_fit_x(
            &pattern.slots,
            fields,
        ),
        Shape::Array { len } => pattern.kind == PatternKind::Array && slots_fit_x(
            &pattern.slots,
            len,
        ),
    }
}

/// One whole analysis: the scope stack and binding table (arena-style: a
/// record is never erased, it only becomes unresolvable), the borrow
/// records, and the diagnostic reporter. Construct it fresh per run; it
/// holds no process-wide state.
pub struct Verifier {
    config: Config,
    bindings: Vec<BindingRec>,
    stack: Vec<u64>,
    next_scope: u64,
    borrows: Vec<BorrowRec>,
    reporter: Reporter,
}

impl View for Verifier {
    type V = Model;

    closed spec fn view(&self) -> Model {
        Model {
            config: self.config,
            bindings: binding_views(self.bindings@),
            stack: self.stack@,
            next_scope: self.next_scope,
            borrows: self.borrows@,
            viols: self.reporter@,
        }
    }
}

impl Verifier {
    /// A fresh analysis with one open root scope.
    pub fn new(config: Config) -> (r: Verifier)
        ensures
            r@ == init_model(config),
    {
        let mut stack: Vec<u64> = Vec::new();
        stack.push(0);
        let r = Verifier {
            config,
            bindings: Vec::new(),
            stack,
            next_scope: 1,
            borrows: Vec::new(),
            reporter: Reporter::new(),
        };
        proof {
            assert(r@.bindings =~= init_model(config).bindings);
            assert(r@.stack =~= init_model(config).stack);
            assert(r@ =~= init_model(config));
        }
        r
    }

    /// Whether scope `s` is open.
    fn scope_open_x(&self, s: u64) -> (r: bool)
        ensures
            r == scope_open(self@, s),
    {
        let mut i: usize = 0;
        while i < self.stack.len()
            invariant
                i <= self.stack@.len(),
                forall|k: int| 0 <= k < i ==> self.stack@[k] != s,
            decreases self.stack@.len() - i,
        {
            if self.stack[i] == s {
                return true;
            }
            i = i + 1;
        }
        proof {
            assert(!self.stack@.contains(s));
        }
        false
    }

    /// The innermost open scope, or [`DEAD_SCOPE`] if none is open.
    fn cur_scope_x(&self) -> (r: u64)
        ensures
            r == cur_scope(self@),
    {
        if self.stack.len() == 0 {
            DEAD_SCOPE
        } else {
            self.stack[self.stack.len() - 1]
        }
    }

    /// `lookup`: the nearest enclosing scope's live binding with this name.
    pub fn lookup(&self, name: u32) -> (r: Option<usize>)
        ensures
            r is None ==> resolve(self@, name) is None,
            r matches Some(i) ==> resolve(self@, name) == Some(i as int) && i
                < self@.bindings.len(),
    {
        let mut n: usize = self.bindings.len();
        while n > 0
            invariant
                n <= self.bindings@.len(),
                resolve(self@, name) == resolve_up_to(self@, name, n as int),
            decreases n,
        {
            let idx = n - 1;
            let nm = self.bindings[idx].name;
            let sc = self.bindings[idx].scope;
            proof {
                assert(self@.bindings[idx as int] == self.bindings@[idx as int]@);
            }
            if nm == name {
                if self.scope_open_x(sc) {
                    return Some(idx);
                }
            }
            n = idx;
        }
        None
    }

    /// Whether some field of binding `i` has been moved out.
    fn partially_moved_x(&self, i: usize) -> (r: bool)
        requires
            i < self@.bindings.len(),
        ensures
            r == partially_moved(self@.bindings[i as int]),
    {
        let mf = &self.bindings[i].moved_fields;
        proof {
            assert(self@.bindings[i as int].moved_fields == mf@);
        }
        let mut f: usize = 0;
        while f < mf.len()
            invariant
                f <= mf@.len(),
                i < self@.bindings.len(),
                self@.bindings[i as int].moved_fields == mf@,
                forall|k: int| 0 <= k < f ==> !mf@[k],
            decreases mf@.len() - f,
        {
            if mf[f] {
                proof {
                    assert(self@.bindings[i as int].moved_fields[f as int]);
                    assert(partially_moved(self@.bindings[i as int]));
                }
                return true;
            }
            f = f + 1;
        }
        false
    }

    /// The earliest-granted borrow still active on binding `b`, restricted
    /// to exclusive borrows when `excl_only` is set.
    fn first_borrow_x(&self, b: usize, excl_only: bool) -> (r: Option<usize>)
        ensures
            r is None ==> first_borrow_from(self@, b as int, excl_only, 0) is None,
            r matches Some(j) ==> first_borrow_from(self@, b as int, excl_only, 0) == Some(
                j as int,
            ) && j < self@.borrows.len(),
    {
        let mut j: usize = 0;
        while j < self.borrows.len()
            invariant
                j <= self.borrows@.len(),
                first_borrow_from(self@, b as int, excl_only, 0) == first_borrow_from(
                    self@,
                    b as int,
                    excl_only,
                    j as int,
                ),
            decreases self.borrows@.len() - j,
        {
            let br = self.borrows[j];
            if br.granted && br.target == b && (!excl_only || br.exclusive) {
                if self.scope_open_x(br.scope) {
                    return Some(j);
                }
            }
            j = j + 1;
        }
        None
    }

    /// Appends one violation to the log.
    fn report_x(&mut self, kind: ViolationKind, name: u32, site: u64, related: Option<u64>)
        ensures
            final(self)@ == reported(old(self)@, kind, name, site, related),
    {
        self.reporter.report(Violation { kind, name, site, related });
        proof {
            assert(self@ =~= reported(old(self)@, kind, name, site, related));
        }
    }

    /// Appends one borrow record, rooted in the innermost open scope.
    fn push_borrow(&mut self, target: usize, exclusive: bool, site: u64, granted: bool)
        ensures
            final(self)@ == pushed_borrow(old(self)@, target as int, exclusive, site, granted),
    {
        let scope = self.cur_scope_x();
        self.borrows.push(BorrowRec { target, exclusive, scope, site, granted });
        proof {
            assert(self@.borrows =~= pushed_borrow(
                old(self)@,
                target as int,
                exclusive,
                site,
                granted,
            ).borrows);
            assert(self@ =~= pushed_borrow(old(self)@, target as int, exclusive, site, granted));
        }
    }

    /// Marks binding `i` wholly moved at `site`.
    fn set_whole_moved(&mut self, i: usize, site: u64)
        requires
            i < old(self)@.bindings.len(),
        ensures
            final(self)@ == marked_whole_moved(old(self)@, i as int, site),
    {
        let name = self.bindings[i].name;
        let mutable = self.bindings[i].mutable;
        let scope = self.bindings[i].scope;
        let shape = self.bindings[i].shape;
        let mf = copy_bools(&self.bindings[i].moved_fields);
        self.bindings.set(
            i,
            BindingRec {
                name,
                mutable,
                scope,
                shape,
                moved: true,
                moved_fields: mf,
                move_site: Some(site),
            },
        );
        proof {
            assert(self@.bindings =~= marked_whole_moved(old(self)@, i as int, site).bindings);
            assert(self@ =~= marked_whole_moved(old(self)@, i as int, site));
        }
    }

    /// Marks field `f` of binding `i` moved at `site` (or the whole binding,
    /// with partial-move tracking off).
    fn set_field_moved(&mut self, i: usize, f: usize, site: u64)
        requires
            i < old(self)@.bindings.len(),
            f < old(self)@.bindings[i as int].moved_fields.len(),
        ensures
            final(self)@ == marked_field_moved(old(self)@, i as int, f as int, site),
    {
        if self.config.allow_partial_moves {
            let name = self.bindings[i].name;
            let mutable = self.bindings[i].mutable;
            let scope = self.bindings[i].scope;
            let shape = self.bindings[i].shape;
            let moved = self.bindings[i].moved;
            let mut mf = copy_bools(&self.bindings[i].moved_fields);
            mf.set(f, true);
            self.bindings.set(
                i,
                BindingRec {
                    name,
                    mutable,
                    scope,
                    shape,
                    moved,
                    moved_fields: mf,
                    move_site: Some(site),
                },
            );
            proof {
                assert(self@.bindings =~= marked_field_moved(
                    old(self)@,
                    i as int,
                    f as int,
                    site,
                ).bindings);
                assert(self@ =~= marked_field_moved(old(self)@, i as int, f as int, site));
            }
        } else {
            self.set_whole_moved(i, site);
        }
    }

    /// Re-initializes binding `i` with a fully live value of `shape`.
    fn set_revived(&mut self, i: usize, shape: Shape)
        requires
            i < old(self)@.bindings.len(),
        ensures
            final(self)@ == revived(old(self)@, i as int, shape),
    {
        let name = self.bindings[i].name;
        let mutable = self.bindings[i].mutable;
        let scope = self.bindings[i].scope;
        let mf = fresh_fields_x(shape);
        self.bindings.set(
            i,
            BindingRec {
                name,
                mutable,
                scope,
                shape,
                moved: false,
                moved_fields: mf,
                move_site: None,
            },
        );
        proof {
            assert(self@.bindings =~= revived(old(self)@, i as int, shape).bindings);
            assert(self@ =~= revived(old(self)@, i as int, shape));
        }
    }

    /// Makes binding `i` fully live again, keeping its declared shape.
    fn set_revived_same_shape(&mut self, i: usize)
        requires
            i < old(self)@.bindings.len(),
        ensures
            final(self)@ == revived_same_shape(old(self)@, i as int),
    {
        let name = self.bindings[i].name;
        let mutable = self.bindings[i].mutable;
        let scope = self.bindings[i].scope;
        let shape = self.bindings[i].shape;
        let n = self.bindings[i].moved_fields.len();
        let mut mf: Vec<bool> = Vec::new();
        let mut k: usize = 0;
        while k < n
            invariant
                k <= n,
                mf@.len() == k,
                forall|q: int| 0 <= q < k ==> !mf@[q],
            decreases n - k,
        {
            mf.push(false);
            k = k + 1;
        }
        proof {
            assert(mf@ =~= Seq::new(
                old(self)@.bindings[i as int].moved_fields.len(),
                |q: int| false,
            ));
        }
        self.bindings.set(
            i,
            BindingRec {
                name,
                mutable,
                scope,
                shape,
                moved: false,
                moved_fields: mf,
                move_site: None,
            },
        );
        proof {
            assert(self@.bindings =~= revived_same_shape(old(self)@, i as int).bindings);
            assert(self@ =~= revived_same_shape(old(self)@, i as int));
        }
    }

    /// `DeclareBinding`.
    pub fn declare_binding(&mut self, name: u32, mutable: bool, shape: Shape)
        ensures
            final(self)@ == step_declare(old(self)@, name, mutable, shape),
    {
        let scope = self.cur_scope_x();
        let mf = fresh_fields_x(shape);
        self.bindings.push(
            BindingRec {
                name,
                mutable,
                scope,
                shape,
                moved: false,
                moved_fields: mf,
                move_site: None,
            },
        );
        proof {
            assert(self@.bindings =~= step_declare(old(self)@, name, mutable, shape).bindings);
            assert(self@ =~= step_declare(old(self)@, name, mutable, shape));
        }
    }

    /// `EnterScope`.
    pub fn enter_scope(&mut self)
        ensures
            final(self)@ == step_enter(old(self)@),
    {
        if self.next_scope != DEAD_SCOPE {
            let ns = self.next_scope;
            self.stack.push(ns);
            self.next_scope = ns + 1;
            proof {
                assert(self@ =~= step_enter(old(self)@));
            }
        }
    }

    /// `ExitScope`.
    pub fn exit_scope(&mut self)
        ensures
            final(self)@ == step_exit(old(self)@),
    {
        if self.stack.len() > 0 {
            self.stack.pop();
            proof {
                assert(self@.stack =~= step_exit(old(self)@).stack);
                assert(self@ =~= step_exit(old(self)@));
            }
        }
    }

    /// `Read`.
    pub fn read(&mut self, place: Place, site: u64)
        ensures
            final(self)@ == step_read(old(self)@, place, site),
    {
        let r = self.lookup(place.name);
        match r {
            None => self.report_x(ViolationKind::UnknownBinding, place.name, site, None),
            Some(i) => {
                proof {
                    assert(self@.bindings[i as int] == self.bindings@[i as int]@);
                }
                let rel = self.bindings[i].move_site;
                match place.field {
                    None => {
                        if self.bindings[i].moved || self.partially_moved_x(i) {
                            self.report_x(ViolationKind::UseOfMovedValue, place.name, site, rel);
                        }
                    },
                    Some(f) => {
                        if self.bindings[i].moved {
                            self.report_x(ViolationKind::UseOfMovedValue, place.name, site, rel);
                        } else if f >= self.bindings[i].moved_fields.len() {
                            self.report_x(ViolationKind::ShapeMismatch, place.name, site, None);
                        } else if self.bindings[i].moved_fields[f] {
                            self.report_x(ViolationKind::UseOfMovedValue, place.name, site, rel);
                        }
                    },
                }
            },
        }
    }

    /// `Move`.
    pub fn move_out(&mut self, place: Place, site: u64)
        ensures
            final(self)@ == step_move(old(self)@, place, site),
    {
        let r = self.lookup(place.name);
        match r {
            None => self.report_x(ViolationKind::UnknownBinding, place.name, site, None),
            Some(i) => {
                proof {
                    assert(self@.bindings[i as int] == self.bindings@[i as int]@);
                }
                let rel = self.bindings[i].move_site;
                match place.field {
                    None => {
                        let moved_bad = self.bindings[i].moved || self.partially_moved_x(i);
                        let fb = self.first_borrow_x(i, false);
                        if moved_bad {
                            self.report_x(ViolationKind::UseOfMovedValue, place.name, site, rel);
                        }
                        match fb {
                            Some(j) => {
                                let bs = self.borrows[j].site;
                                self.report_x(
                                    ViolationKind::CannotMoveWhileBorrowed,
                                    place.name,
                                    site,
                                    Some(bs),
                                );
                            },
                            None => {},
                        }
                        self.set_whole_moved(i, site);
                    },
                    Some(f) => {
                        if f >= self.bindings[i].moved_fields.len() {
                            self.report_x(ViolationKind::ShapeMismatch, place.name, site, None);
                        } else {
                            let moved_bad = self.bindings[i].moved
                                || self.bindings[i].moved_fields[f];
                            let fb = self.first_borrow_x(i, false);
                            if moved_bad {
                                self.report_x(
                                    ViolationKind::UseOfMovedValue,
                                    place.name,
                                    site,
                                    rel,
                                );
                            }
                            match fb {
                                Some(j) => {
                                    let bs = self.borrows[j].site;
                                    self.report_x(
                                        ViolationKind::CannotMoveWhileBorrowed,
                                        place.name,
                                        site,
                                        Some(bs),
                                    );
                                },
                                None => {},
                            }
                            self.set_field_moved(i, f, site);
                        }
                    },
                }
            },
        }
    }

    /// `Mutate`.
    pub fn mutate(&mut self, name: u32, site: u64)
        ensures
            final(self)@ == step_mutate(old(self)@, name, site),
    {
        let r = self.lookup(name);
        match r {
            None => self.report_x(ViolationKind::UnknownBinding, name, site, None),
            Some(i) => {
                proof {
                    assert(self@.bindings[i as int] == self.bindings@[i as int]@);
                }
                let rel = self.bindings[i].move_site;
                let moved_bad = self.bindings[i].moved || self.partially_moved_x(i);
                let fb = self.first_borrow_x(i, false);
                if moved_bad {
                    self.report_x(ViolationKind::UseOfMovedValue, name, site, rel);
                }
                match fb {
                    Some(j) => {
                        let bs = self.borrows[j].site;
                        self.report_x(
                            ViolationKind::CannotMutateWhileBorrowed,
                            name,
                            site,
                            Some(bs),
                        );
                    },
                    None => {},
                }
            },
        }
    }

    /// `Assign`.
    pub fn assign(&mut self, name: u32, shape: Shape, site: u64)
        ensures
            final(self)@ == step_assign(old(self)@, name, shape, site),
    {
        let r = self.lookup(name);
        match r {
            None => self.report_x(ViolationKind::UnknownBinding, name, site, None),
            Some(i) => {
                let fb = self.first_borrow_x(i, false);
                match fb {
                    Some(j) => {
                        let bs = self.borrows[j].site;
                        self.report_x(
                            ViolationKind::CannotMutateWhileBorrowed,
                            name,
                            site,
                            Some(bs),
                        );
                    },
                    None => {},
                }
                self.set_revived(i, shape);
            },
        }
    }

    /// `BorrowShared` / `BorrowExclusive`.
    fn do_borrow(&mut self, name: u32, via: Option<usize>, exclusive: bool, site: u64)
        ensures
            final(self)@ == step_borrow(old(self)@, name, via, exclusive, site),
    {
        let via_dead = match via {
            Some(h) => {
                let live = if h < self.borrows.len() {
                    let br = self.borrows[h];
                    br.granted && self.scope_open_x(br.scope)
                } else {
                    false
                };
                !live
            },
            None => false,
        };
        if via_dead {
            let h = match via {
                Some(h) => h,
                None => 0,
            };
            let rel = if h < self.borrows.len() {
                Some(self.borrows[h].site)
            } else {
                None
            };
            self.report_x(ViolationKind::UseOfExpiredBorrow, name, site, rel);
            self.push_borrow(0, exclusive, site, false);
        } else {
            let r = self.lookup(name);
            match r {
                None => {
                    self.report_x(ViolationKind::UnknownBinding, name, site, None);
                    self.push_borrow(0, exclusive, site, false);
                },
                Some(i) => {
                    proof {
                        assert(self@.bindings[i as int] == self.bindings@[i as int]@);
                    }
                    let rel = self.bindings[i].move_site;
                    if self.bindings[i].moved || self.partially_moved_x(i) {
                        self.report_x(ViolationKind::UseOfMovedValue, name, site, rel);
                        self.push_borrow(i, exclusive, site, false);
                    } else if exclusive {
                        match self.first_borrow_x(i, false) {
                            Some(j) => {
                                let bs = self.borrows[j].site;
                                self.report_x(
                                    ViolationKind::ConflictingBorrow,
                                    name,
                                    site,
                                    Some(bs),
                                );
                                self.push_borrow(i, exclusive, site, false);
                            },
                            None => self.push_borrow(i, exclusive, site, true),
                        }
                    } else {
                        match self.first_borrow_x(i, true) {
                            Some(j) => {
                                let bs = self.borrows[j].site;
                                self.report_x(
                                    ViolationKind::ConflictingExclusiveBorrow,
                                    name,
                                    site,
                                    Some(bs),
                                );
                                self.push_borrow(i, exclusive, site, false);
                            },
                            None => self.push_borrow(i, exclusive, site, true),
                        }
                    }
                },
            }
        }
    }

    /// `BorrowShared`: fails with `ConflictingExclusiveBorrow` while an
    /// exclusive borrow is active; otherwise roots a shared borrow in the
    /// current scope. Either way the statement's handle is allocated.
    pub fn borrow_shared(&mut self, name: u32, via: Option<usize>, site: u64)
        ensures
            final(self)@ == step_borrow(old(self)@, name, via, false, site),
    {
        self.do_borrow(name, via, false, site);
    }

    /// `BorrowExclusive`: fails with `ConflictingBorrow` while any borrow is
    /// active; otherwise roots an exclusive borrow in the current scope.
    pub fn borrow_exclusive(&mut self, name: u32, via: Option<usize>, site: u64)
        ensures
            final(self)@ == step_borrow(old(self)@, name, via, true, site),
    {
        self.do_borrow(name, via, true, site);
    }

    /// The source checks both destructuring forms share.
    fn check_pattern_source(&mut self, pattern: &Pattern, source: u32, site: u64)
        ensures
            final(self)@ == pattern_source_checked(
                old(self)@,
                pattern.kind,
                pattern.slots@,
                source,
                site,
            ),
    {
        let r = self.lookup(source);
        match r {
            None => self.report_x(ViolationKind::UnknownBinding, source, site, None),
            Some(i) => {
                proof {
                    assert(self@.bindings[i as int] == self.bindings@[i as int]@);
                }
                let rel = self.bindings[i].move_site;
                let moved_bad = self.bindings[i].moved || self.partially_moved_x(i);
                let fb = self.first_borrow_x(i, false);
                let shape_ok = shape_matches_x(self.bindings[i].shape, pattern);
                if moved_bad {
                    self.report_x(ViolationKind::UseOfMovedValue, source, site, rel);
                }
                match fb {
                    Some(j) => {
                        let bs = self.borrows[j].site;
                        self.report_x(
                            ViolationKind::CannotMoveWhileBorrowed,
                            source,
                            site,
                            Some(bs),
                        );
                    },
                    None => {},
                }
                if !shape_ok {
                    self.report_x(ViolationKind::ShapeMismatch, source, site, None);
                }
                self.set_whole_moved(i, site);
            },
        }
    }

    /// `DeclarePattern`.
    pub fn declare_pattern(&mut self, pattern: &Pattern, source: u32, site: u64)
        ensures
            final(self)@ == crate::state::step_declare_pattern(
                old(self)@,
                pattern.kind,
                pattern.slots@,
                pattern.mutable,
                source,
                site,
            ),
    {
        self.check_pattern_source(pattern, source, site);
        let ghost m_mid = self@;
        let mut k: usize = 0;
        proof {
            assert(pattern.slots@.skip(0) =~= pattern.slots@);
        }
        while k < pattern.slots.len()
            invariant
                k <= pattern.slots@.len(),
                declared_slots(self@, pattern.slots@.skip(k as int), pattern.mutable)
                    == declared_slots(m_mid, pattern.slots@, pattern.mutable),
            decreases pattern.slots@.len() - k,
        {
            proof {
                assert(pattern.slots@.skip(k as int)[0] == pattern.slots@[k as int]);
                assert(pattern.slots@.skip(k as int).drop_first() =~= pattern.slots@.skip(
                    k as int + 1,
                ));
            }
            match pattern.slots[k] {
                Slot::Named(nm) => {
                    self.declare_binding(nm, pattern.mutable, Shape::Scalar);
                },
                _ => {},
            }
            k = k + 1;
        }
        proof {
            assert(pattern.slots@.skip(pattern.slots@.len() as int) =~= Seq::<Slot>::empty());
        }
    }

    /// Assignment-by-move into one existing target.
    fn do_assign_one(&mut self, nm: u32, site: u64)
        ensures
            final(self)@ == assigned_one(old(self)@, nm, site),
    {
        let r = self.lookup(nm);
        match r {
            None => self.report_x(ViolationKind::UnknownBinding, nm, site, None),
            Some(t) => {
                proof {
                    assert(self@.bindings[t as int] == self.bindings@[t as int]@);
                }
                let rel = self.bindings[t].move_site;
                let moved_bad = self.bindings[t].moved || self.partially_moved_x(t);
                let fb = self.first_borrow_x(t, false);
                if moved_bad {
                    self.report_x(ViolationKind::UseOfMovedValue, nm, site, rel);
                }
                match fb {
                    Some(j) => {
                        let bs = self.borrows[j].site;
                        self.report_x(ViolationKind::CannotMutateWhileBorrowed, nm, site, Some(bs));
                    },
                    None => {},
                }
                self.set_revived_same_shape(t);
            },
        }
    }

    /// `AssignPattern`.
    pub fn assign_pattern(&mut self, pattern: &Pattern, source: u32, site: u64)
        ensures
            final(self)@ == crate::state::step_assign_pattern(
                old(self)@,
                pattern.kind,
                pattern.slots@,
                source,
                site,
            ),
    {
        self.check_pattern_source(pattern, source, site);
        let ghost m_mid = self@;
        let mut k: usize = 0;
        proof {
            assert(pattern.slots@.skip(0) =~= pattern.slots@);
        }
        while k < pattern.slots.len()
            invariant
                k <= pattern.slots@.len(),
                assigned_slots(self@, pattern.slots@.skip(k as int), site) == assigned_slots(
                    m_mid,
                    pattern.slots@,
                    site,
                ),
            decreases pattern.slots@.len() - k,
        {
            proof {
                assert(pattern.slots@.skip(k as int)[0] == pattern.slots@[k as int]);
                assert(pattern.slots@.skip(k as int).drop_first() =~= pattern.slots@.skip(
                    k as int + 1,
                ));
            }
            match pattern.slots[k] {
                Slot::Named(nm) => {
                    self.do_assign_one(nm, site);
                },
                _ => {},
            }
            k = k + 1;
        }
        proof {
            assert(pattern.slots@.skip(pattern.slots@.len() as int) =~= Seq::<Slot>::empty());
        }
    }

    /// Routes one statement to its handler. The verifier never halts on a
    /// violation; it records it and continues from a recovered state.
    pub fn apply(&mut self, s: &Stmt)
        ensures
            final(self)@ == step(old(self)@, *s),
    {
        match &s.kind {
            StmtKind::DeclareBinding { name, mutable, shape } => self.declare_binding(
                *name,
                *mutable,
                *shape,
            ),
            StmtKind::DeclarePattern { pattern, source } => self.declare_pattern(
                pattern,
                *source,
                s.site,
            ),
            StmtKind::Assign { name, shape } => self.assign(*name, *shape, s.site),
            StmtKind::AssignPattern { pattern, source } => self.assign_pattern(
                pattern,
                *source,
                s.site,
            ),
            StmtKind::Read { place } => self.read(*place, s.site),
            StmtKind::Move { place } => self.move_out(*place, s.site),
            StmtKind::BorrowShared { name, via } => self.borrow_shared(*name, *via, s.site),
            StmtKind::BorrowExclusive { name, via } => self.borrow_exclusive(*name, *via, s.site),
            StmtKind::Mutate { name } => self.mutate(*name, s.site),
            StmtKind::EnterScope => self.enter_scope(),
            StmtKind::ExitScope => self.exit_scope(),
        }
    }

    /// Whether any violation has been recorded so far.
    pub fn has_errors(&self) -> (r: bool)
        ensures
            r == (self@.viols.len() != 0),
    {
        self.reporter.has_errors()
    }

    /// Returns the violations in discovery order and clears the log.
    pub fn drain(&mut self) -> (r: Vec<Violation>)
        ensures
            r@ == old(self)@.viols,
            final(self)@ == (Model { viols: Seq::empty(), ..old(self)@ }),
    {
        let out = self.reporter.drain();
        proof {
            assert(self@ =~= (Model { viols: Seq::empty(), ..old(self)@ }));
        }
        out
    }

    /// One whole analysis run: a fresh verifier walks the program in order
    /// and yields every violation found, in discovery order. The result is a
    /// function of the program and the configuration alone.
    pub fn run(program: &Vec<Stmt>, config: Config) -> (r: Vec<Violation>)
        ensures
            r@ == run_model(program@, config),
    {
        let mut v = Verifier::new(config);
        let mut i: usize = 0;
        proof {
            assert(program@.skip(0) =~= program@);
        }
        while i < program.len()
            invariant
                i <= program@.len(),
                steps(v@, program@.skip(i as int)) == steps(init_model(config), program@),
            decreases program@.len() - i,
        {
            proof {
                assert(program@.skip(i as int)[0] == program@[i as int]);
                assert(program@.skip(i as int).drop_first() =~= program@.skip(i as int + 1));
            }
            v.apply(&program[i]);
            i = i + 1;
        }
        proof {
            assert(program@.skip(program@.len() as int) =~= Seq::<Stmt>::empty());
        }
        v.drain()
    }
}

} // verus!
