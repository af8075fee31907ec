//! The mathematical model of the verifier's state and the transition
//! semantics of every IR statement.
//!
//! [`Model`] is the abstract state: binding records (arena-style, never
//! removed, so a shadowed or dead binding stays inspectable), the stack of
//! open scope ids, the borrow records, and the violation log. [`step`] maps a
//! state and one statement to the next state; it is the single definition of
//! what the verifier does, and the executable verifier is proved to follow it
//! exactly.

use vstd::prelude::*;

use crate::diag::{Violation, ViolationKind};
use crate::ir::{PatternKind, Place, Shape, Slot, Stmt, StmtKind};

verus! {

/// A scope id that is never opened; bindings and borrows created while no
/// scope is open are owned by it and are therefore immediately dead.
pub const DEAD_SCOPE: u64 = u64::MAX;

/// Recognized configuration options. `allow_partial_moves` enables
/// `PartiallyMoved` tracking for composites: with it off, moving one field
/// moves the whole binding. `strict_borrow_scoping` pins borrow lifetimes to
/// whole scopes; non-lexical narrowing is not implemented, so the flag is
/// recorded but changes nothing.
#[derive(Clone, Copy, PartialEq, Eq, Structural, Debug)]
pub struct Config {
    pub allow_partial_moves: bool,
    pub strict_borrow_scoping: bool,
}

impl Default for Config {
    fn default() -> (c: Config)
        ensures
            c == (Config { allow_partial_moves: true, strict_borrow_scoping: true }),
    {
        Config { allow_partial_moves: true, strict_borrow_scoping: true }
    }
}

/// One binding record, as the executable verifier stores it. `moved` is the
/// whole-binding moved flag; `moved_fields[f]` says field `f` was moved out
/// (the binding is partially moved when some field flag is set and `moved`
/// is not). `move_site` remembers the most recent move for diagnostics.
/// Declared mutability is recorded as an attribute of the binding; the
/// violation taxonomy holds no immutability rule, so no check consumes it.
pub struct BindingRec {
    pub name: u32,
    pub mutable: bool,
    pub scope: u64,
    pub shape: Shape,
    pub moved: bool,
    pub moved_fields: Vec<bool>,
    pub move_site: Option<u64>,
}

/// The abstract value of a [`BindingRec`].
#[verifier::ext_equal]
pub struct BindingModel {
    pub name: u32,
    pub mutable: bool,
    pub scope: u64,
    pub shape: Shape,
    pub moved: bool,
    pub moved_fields: Seq<bool>,
    pub move_site: Option<u64>,
}

impl View for BindingRec {
    type V = BindingModel;

    open spec fn view(&self) -> BindingModel {
        BindingModel {
            name: self.name,
            mutable: self.mutable,
            scope: self.scope,
            shape: self.shape,
            moved: self.moved,
            moved_fields: self.moved_fields@,
            move_site: self.move_site,
        }
    }
}

/// One borrow record. A borrow statement always allocates a record (its
/// index is the statement's handle); `granted` says whether the borrow was
/// actually given. A granted borrow is active for as long as its root scope
/// is open.
#[derive(Clone, Copy, PartialEq, Eq, Structural, Debug)]
pub struct BorrowRec {
    pub target: usize,
    pub exclusive: bool,
    pub scope: u64,
    pub site: u64,
    pub granted: bool,
}

/// The verifier's abstract state.
#[verifier::ext_equal]
pub struct Model {
    pub config: Config,
    pub bindings: Seq<BindingModel>,
    pub stack: Seq<u64>,
    pub next_scope: u64,
    pub borrows: Seq<BorrowRec>,
    pub viols: Seq<Violation>,
}

/// The abstract values of a sequence of binding records.
pub open spec fn binding_views(v: Seq<BindingRec>) -> Seq<BindingModel> {
    v.map_values(|b: BindingRec| b@)
}

/// The state a fresh analysis starts from: one open root scope, nothing
/// declared, nothing borrowed, nothing reported.
pub open spec fn init_model(config: Config) -> Model {
    Model {
        config,
        bindings: Seq::empty(),
        stack: seq![0u64],
        next_scope: 1,
        borrows: Seq::empty(),
        viols: Seq::empty(),
    }
}

/// Whether scope `s` is currently open.
pub open spec fn scope_open(m: Model, s: u64) -> bool {
    m.stack.contains(s)
}

/// The innermost open scope, or [`DEAD_SCOPE`] if none is open.
pub open spec fn cur_scope(m: Model) -> u64 {
    if m.stack.len() == 0 {
        DEAD_SCOPE
    } else {
        m.stack.last()
    }
}

/// Name resolution over the first `n` binding records: the most recently
/// declared binding with this name whose owner scope is still open. Scanning
/// from the end realizes shadowing, because records are appended in program
/// order.
pub open spec fn resolve_up_to(m: Model, name: u32, n: int) -> Option<int>
    decreases n,
{
    if n <= 0 {
        None
    } else if m.bindings[n - 1].name == name && scope_open(m, m.bindings[n - 1].scope) {
        Some(n - 1)
    } else {
        resolve_up_to(m, name, n - 1)
    }
}

/// Name resolution over the whole binding arena.
pub open spec fn resolve(m: Model, name: u32) -> Option<int> {
    resolve_up_to(m, name, m.bindings.len() as int)
}

/// Whether borrow record `j` is active: granted and rooted in a scope that is
/// still open. Exiting a scope thus releases every borrow rooted in it by
/// definition.
pub open spec fn borrow_active(m: Model, j: int) -> bool {
    0 <= j < m.borrows.len() && m.borrows[j].granted && scope_open(m, m.borrows[j].scope)
}

/// Whether borrow record `j` is active on binding `b`.
pub open spec fn active_on(m: Model, j: int, b: int) -> bool {
    borrow_active(m, j) && m.borrows[j].target == b
}

/// The first borrow record at index `j` or later that is active on binding
/// `b` (restricted to exclusive borrows when `excl_only` is set).
pub open spec fn first_borrow_from(m: Model, b: int, excl_only: bool, j: int) -> Option<int>
    decreases m.borrows.len() - j,
{
    if j < 0 || j >= m.borrows.len() {
        None
    } else if active_on(m, j, b) && (!excl_only || m.borrows[j].exclusive) {
        Some(j)
    } else {
        first_borrow_from(m, b, excl_only, j + 1)
    }
}

/// The earliest-granted borrow still active on binding `b`.
pub open spec fn first_active_borrow(m: Model, b: int) -> Option<int> {
    first_borrow_from(m, b, false, 0)
}

/// The earliest-granted exclusive borrow still active on binding `b`.
pub open spec fn first_active_exclusive(m: Model, b: int) -> Option<int> {
    first_borrow_from(m, b, true, 0)
}

/// Whether some field of the binding has been moved out.
pub open spec fn partially_moved(b: BindingModel) -> bool {
    exists|f: int| 0 <= f < b.moved_fields.len() && b.moved_fields[f]
}

/// Whether a whole-value use of the binding is illegal: it is moved, or some
/// field of it is.
pub open spec fn whole_unusable(b: BindingModel) -> bool {
    b.moved || partially_moved(b)
}

/// The all-live field flags a freshly initialized value of this shape has.
pub open spec fn fresh_fields(shape: Shape) -> Seq<bool> {
    Seq::new(shape.field_count(), |i: int| false)
}

/// The state with one more violation appended to the log.
pub open spec fn reported(m: Model, kind: ViolationKind, name: u32, site: u64, related: Option<
    u64,
>) -> Model {
    Model { viols: m.viols.push(Violation { kind, name, site, related }), ..m }
}

/// The state with a new binding appended, owned by the innermost open scope.
pub open spec fn declared(m: Model, name: u32, mutable: bool, shape: Shape) -> Model {
    Model {
        bindings: m.bindings.push(
            BindingModel {
                name,
                mutable,
                scope: cur_scope(m),
                shape,
                moved: false,
                moved_fields: fresh_fields(shape),
                move_site: None,
            },
        ),
        ..m
    }
}

/// The state with binding `i` marked wholly moved at `site`.
pub open spec fn marked_whole_moved(m: Model, i: int, site: u64) -> Model {
    Model {
        bindings: m.bindings.update(
            i,
            BindingModel { moved: true, move_site: Some(site), ..m.bindings[i] },
        ),
        ..m
    }
}

/// The state with field `f` of binding `i` marked moved at `site`; with
/// partial-move tracking disabled the whole binding is marked instead.
pub open spec fn marked_field_moved(m: Model, i: int, f: int, site: u64) -> Model {
    if m.config.allow_partial_moves {
        Model {
            bindings: m.bindings.update(
                i,
                BindingModel {
                    moved_fields: m.bindings[i].moved_fields.update(f, true),
                    move_site: Some(site),
                    ..m.bindings[i]
                },
            ),
            ..m
        }
    } else {
        marked_whole_moved(m, i, site)
    }
}

/// The state with binding `i` re-initialized to a fully live value of the
/// given shape (assignment through ownership revives a moved binding).
pub open spec fn revived(m: Model, i: int, shape: Shape) -> Model {
    Model {
        bindings: m.bindings.update(
            i,
            BindingModel {
                shape,
                moved: false,
                moved_fields: fresh_fields(shape),
                move_site: None,
                ..m.bindings[i]
            },
        ),
        ..m
    }
}

/// The state with binding `i` fully live again, its declared shape kept
/// (assignment-form destructuring does not re-infer target shapes).
pub open spec fn revived_same_shape(m: Model, i: int) -> Model {
    Model {
        bindings: m.bindings.update(
            i,
            BindingModel {
                moved: false,
                moved_fields: Seq::new(m.bindings[i].moved_fields.len(), |k: int| false),
                move_site: None,
                ..m.bindings[i]
            },
        ),
        ..m
    }
}

/// The state with one more borrow record appended, rooted in the innermost
/// open scope.
pub open spec fn pushed_borrow(m: Model, target: int, exclusive: bool, site: u64, granted: bool) -> Model {
    Model {
        borrows: m.borrows.push(
            BorrowRec { target: target as usize, exclusive, scope: cur_scope(m), site, granted },
        ),
        ..m
    }
}

/// `DeclareBinding`: always succeeds; a re-declared name creates a new record
/// that shadows the old one.
pub open spec fn step_declare(m: Model, name: u32, mutable: bool, shape: Shape) -> Model {
    declared(m, name, mutable, shape)
}

/// `EnterScope`: pushes a fresh scope id. Ids are never reused; at the id
/// space's end (never reached by a program that fits in memory) the statement
/// does nothing.
pub open spec fn step_enter(m: Model) -> Model {
    if m.next_scope == DEAD_SCOPE {
        m
    } else {
        Model { stack: m.stack.push(m.next_scope), next_scope: (m.next_scope + 1) as u64, ..m }
    }
}

/// `ExitScope`: pops the innermost scope. Its bindings become unresolvable
/// and its borrows inactive by definition; no record is erased. Without an
/// open scope the statement does nothing.
pub open spec fn step_exit(m: Model) -> Model {
    if m.stack.len() == 0 {
        m
    } else {
        Model { stack: m.stack.drop_last(), ..m }
    }
}

/// `Read`: a whole-value read needs the whole binding live; reading an
/// unmoved field of a partially moved composite is legal. Reads do not
/// conflict with borrows.
pub open spec fn step_read(m: Model, place: Place, site: u64) -> Model {
    match resolve(m, place.name) {
        None => reported(m, ViolationKind::UnknownBinding, place.name, site, None),
        Some(i) => {
            let b = m.bindings[i];
            match place.field {
                None => if whole_unusable(b) {
                    reported(m, ViolationKind::UseOfMovedValue, place.name, site, b.move_site)
                } else {
                    m
                },
                Some(f) => if b.moved {
                    reported(m, ViolationKind::UseOfMovedValue, place.name, site, b.move_site)
                } else if f >= b.moved_fields.len() {
                    reported(m, ViolationKind::ShapeMismatch, place.name, site, None)
                } else if b.moved_fields[f as int] {
                    reported(m, ViolationKind::UseOfMovedValue, place.name, site, b.move_site)
                } else {
                    m
                },
            }
        },
    }
}

/// `Move`: the place must be live and the binding unborrowed; every
/// violation is reported and the place is marked moved regardless, so that
/// analysis continues with the binding treated as moved.
pub open spec fn step_move(m: Model, place: Place, site: u64) -> Model {
    match resolve(m, place.name) {
        None => reported(m, ViolationKind::UnknownBinding, place.name, site, None),
        Some(i) => {
            let b = m.bindings[i];
            match place.field {
                None => {
                    let m1 = if whole_unusable(b) {
                        reported(m, ViolationKind::UseOfMovedValue, place.name, site, b.move_site)
                    } else {
                        m
                    };
                    let m2 = match first_active_borrow(m, i) {
                        Some(j) => reported(
                            m1,
                            ViolationKind::CannotMoveWhileBorrowed,
                            place.name,
                            site,
                            Some(m.borrows[j].site),
                        ),
                        None => m1,
                    };
                    marked_whole_moved(m2, i, site)
                },
                Some(f) => if f >= b.moved_fields.len() {
                    reported(m, ViolationKind::ShapeMismatch, place.name, site, None)
                } else {
                    let m1 = if b.moved || b.moved_fields[f as int] {
                        reported(m, ViolationKind::UseOfMovedValue, place.name, site, b.move_site)
                    } else {
                        m
                    };
                    let m2 = match first_active_borrow(m, i) {
                        Some(j) => reported(
                            m1,
                            ViolationKind::CannotMoveWhileBorrowed,
                            place.name,
                            site,
                            Some(m.borrows[j].site),
                        ),
                        None => m1,
                    };
                    marked_field_moved(m2, i, f as int, site)
                },
            }
        },
    }
}

/// `Mutate`: a write through ownership that uses the old value in place. It
/// needs the whole binding live and unborrowed; the state is unchanged.
pub open spec fn step_mutate(m: Model, name: u32, site: u64) -> Model {
    match resolve(m, name) {
        None => reported(m, ViolationKind::UnknownBinding, name, site, None),
        Some(i) => {
            let b = m.bindings[i];
            let m1 = if whole_unusable(b) {
                reported(m, ViolationKind::UseOfMovedValue, name, site, b.move_site)
            } else {
                m
            };
            match first_active_borrow(m, i) {
                Some(j) => reported(
                    m1,
                    ViolationKind::CannotMutateWhileBorrowed,
                    name,
                    site,
                    Some(m.borrows[j].site),
                ),
                None => m1,
            }
        },
    }
}

/// `Assign`: re-initializes the binding with a value of the given shape,
/// reviving it if it was moved; illegal only while a borrow is active.
pub open spec fn step_assign(m: Model, name: u32, shape: Shape, site: u64) -> Model {
    match resolve(m, name) {
        None => reported(m, ViolationKind::UnknownBinding, name, site, None),
        Some(i) => {
            let m1 = match first_active_borrow(m, i) {
                Some(j) => reported(
                    m,
                    ViolationKind::CannotMutateWhileBorrowed,
                    name,
                    site,
                    Some(m.borrows[j].site),
                ),
                None => m,
            };
            revived(m1, i, shape)
        },
    }
}

/// Whether handle `h` refers to a borrow that is still active.
pub open spec fn handle_live(m: Model, h: usize) -> bool {
    h < m.borrows.len() && borrow_active(m, h as int)
}

/// The related site reported for an expired handle, when the handle at least
/// refers to a recorded borrow.
pub open spec fn expired_related(m: Model, h: usize) -> Option<u64> {
    if h < m.borrows.len() {
        Some(m.borrows[h as int].site)
    } else {
        None
    }
}

/// `BorrowShared` / `BorrowExclusive`. Checks in order: a reborrow through a
/// dead handle (this check wins over `UnknownBinding`, since the handle is
/// examined before the name is resolved); an unresolvable name; a moved
/// target; an exclusivity conflict. Every borrow statement allocates the next
/// handle, granted only when all checks pass.
pub open spec fn step_borrow(m: Model, name: u32, via: Option<usize>, exclusive: bool, site: u64) -> Model {
    match via {
        Some(h) if !handle_live(m, h) => pushed_borrow(
            reported(m, ViolationKind::UseOfExpiredBorrow, name, site, expired_related(m, h)),
            0,
            exclusive,
            site,
            false,
        ),
        _ => match resolve(m, name) {
            None => pushed_borrow(
                reported(m, ViolationKind::UnknownBinding, name, site, None),
                0,
                exclusive,
                site,
                false,
            ),
            Some(i) => {
                let t = (i as usize) as int;
                let b = m.bindings[i];
                if whole_unusable(b) {
                    pushed_borrow(
                        reported(m, ViolationKind::UseOfMovedValue, name, site, b.move_site),
                        t,
                        exclusive,
                        site,
                        false,
                    )
                } else if exclusive {
                    match first_active_borrow(m, t) {
                        Some(j) => pushed_borrow(
                            reported(
                                m,
                                ViolationKind::ConflictingBorrow,
                                name,
                                site,
                                Some(m.borrows[j].site),
                            ),
                            t,
                            exclusive,
                            site,
                            false,
                        ),
                        None => pushed_borrow(m, t, exclusive, site, true),
                    }
                } else {
                    match first_active_exclusive(m, t) {
                        Some(j) => pushed_borrow(
                            reported(
                                m,
                                ViolationKind::ConflictingExclusiveBorrow,
                                name,
                                site,
                                Some(m.borrows[j].site),
                            ),
                            t,
                            exclusive,
                            site,
                            false,
                        ),
                        None => pushed_borrow(m, t, exclusive, site, true),
                    }
                }
            },
        },
    }
}

/// How many rest markers a pattern has.
pub open spec fn rest_count(slots: Seq<Slot>) -> nat
    decreases slots.len(),
{
    if slots.len() == 0 {
        0
    } else {
        (if slots[0] is Rest {
            1nat
        } else {
            0nat
        }) + rest_count(slots.drop_first())
    }
}

/// Whether a pattern with these slots fits a composite of `n` fields: exact
/// length without a rest marker, at most `n` named-or-wildcard slots with
/// one, never two rest markers.
pub open spec fn slots_fit(slots: Seq<Slot>, n: nat) -> bool {
    if rest_count(slots) == 0 {
        slots.len() == n
    } else if rest_count(slots) == 1 {
        slots.len() - 1 <= n
    } else {
        false
    }
}

/// Whether a pattern matches the source's shape. A scalar cannot be
/// destructured, and the pattern's kind must agree with the shape's.
pub open spec fn shape_matches(shape: Shape, kind: PatternKind, slots: Seq<Slot>) -> bool {
    match shape {
        Shape::Scalar => false,
        Shape::Struct { fields } => kind == PatternKind::Struct && slots_fit(slots, fields as nat),
        Shape::Array { len } => kind == PatternKind::Array && slots_fit(slots, len as nat),
    }
}

/// The checks both destructuring forms make on their source, in order:
/// resolution, liveness, no active borrow (destructuring moves the source),
/// shape agreement — and then the whole source is marked moved, whether or
/// not violations were reported, so analysis continues with it unusable.
pub open spec fn pattern_source_checked(
    m: Model,
    kind: PatternKind,
    slots: Seq<Slot>,
    source: u32,
    site: u64,
) -> Model {
    match resolve(m, source) {
        None => reported(m, ViolationKind::UnknownBinding, source, site, None),
        Some(i) => {
            let b = m.bindings[i];
            let m1 = if whole_unusable(b) {
                reported(m, ViolationKind::UseOfMovedValue, source, site, b.move_site)
            } else {
                m
            };
            let m2 = match first_active_borrow(m, i) {
                Some(j) => reported(
                    m1,
                    ViolationKind::CannotMoveWhileBorrowed,
                    source,
                    site,
                    Some(m.borrows[j].site),
                ),
                None => m1,
            };
            let m3 = if !shape_matches(b.shape, kind, slots) {
                reported(m2, ViolationKind::ShapeMismatch, source, site, None)
            } else {
                m2
            };
            marked_whole_moved(m3, i, site)
        },
    }
}

/// Declaration-form destructuring introduces one fresh, independently owned
/// scalar binding per named slot, in slot order; wildcards and rest markers
/// introduce none.
pub open spec fn declared_slots(m: Model, slots: Seq<Slot>, mutable: bool) -> Model
    decreases slots.len(),
{
    if slots.len() == 0 {
        m
    } else {
        let m1 = match slots[0] {
            Slot::Named(nm) => declared(m, nm, mutable, Shape::Scalar),
            _ => m,
        };
        declared_slots(m1, slots.drop_first(), mutable)
    }
}

/// Assignment-by-move into one existing target: it must resolve, be live,
/// and be unborrowed; it is then fully live again, its declared shape kept.
pub open spec fn assigned_one(m: Model, nm: u32, site: u64) -> Model {
    match resolve(m, nm) {
        None => reported(m, ViolationKind::UnknownBinding, nm, site, None),
        Some(t) => {
            let b = m.bindings[t];
            let m1 = if whole_unusable(b) {
                reported(m, ViolationKind::UseOfMovedValue, nm, site, b.move_site)
            } else {
                m
            };
            let m2 = match first_active_borrow(m, t) {
                Some(j) => reported(
                    m1,
                    ViolationKind::CannotMutateWhileBorrowed,
                    nm,
                    site,
                    Some(m.borrows[j].site),
                ),
                None => m1,
            };
            revived_same_shape(m2, t)
        },
    }
}

/// Assignment-form destructuring assigns into every named slot, in slot
/// order; it introduces no new binding.
pub open spec fn assigned_slots(m: Model, slots: Seq<Slot>, site: u64) -> Model
    decreases slots.len(),
{
    if slots.len() == 0 {
        m
    } else {
        let m1 = match slots[0] {
            Slot::Named(nm) => assigned_one(m, nm, site),
            _ => m,
        };
        assigned_slots(m1, slots.drop_first(), site)
    }
}

/// `DeclarePattern`: the source checks and move, then the new sub-bindings.
pub open spec fn step_declare_pattern(
    m: Model,
    kind: PatternKind,
    slots: Seq<Slot>,
    mutable: bool,
    source: u32,
    site: u64,
) -> Model {
    declared_slots(pattern_source_checked(m, kind, slots, source, site), slots, mutable)
}

/// `AssignPattern`: the source checks and move, then assignment-by-move into
/// every named target.
pub open spec fn step_assign_pattern(
    m: Model,
    kind: PatternKind,
    slots: Seq<Slot>,
    source: u32,
    site: u64,
) -> Model {
    assigned_slots(pattern_source_checked(m, kind, slots, source, site), slots, site)
}

/// The transition one statement makes.
pub open spec fn step(m: Model, s: Stmt) -> Model {
    match s.kind {
        StmtKind::DeclareBinding { name, mutable, shape } => step_declare(m, name, mutable, shape),
        StmtKind::DeclarePattern { pattern, source } => step_declare_pattern(
            m,
            pattern.kind,
            pattern.slots@,
            pattern.mutable,
            source,
            s.site,
        ),
        StmtKind::Assign { name, shape } => step_assign(m, name, shape, s.site),
        StmtKind::AssignPattern { pattern, source } => step_assign_pattern(
            m,
            pattern.kind,
            pattern.slots@,
            source,
            s.site,
        ),
        StmtKind::Read { place } => step_read(m, place, s.site),
        StmtKind::Move { place } => step_move(m, place, s.site),
        StmtKind::BorrowShared { name, via } => step_borrow(m, name, via, false, s.site),
        StmtKind::BorrowExclusive { name, via } => step_borrow(m, name, via, true, s.site),
        StmtKind::Mutate { name } => step_mutate(m, name, s.site),
        StmtKind::EnterScope => step_enter(m),
        StmtKind::ExitScope => step_exit(m),
    }
}

/// The transition a whole program makes, statement by statement.
pub open spec fn steps(m: Model, prog: Seq<Stmt>) -> Model
    decreases prog.len(),
{
    if prog.len() == 0 {
        m
    } else {
        steps(step(m, prog[0]), prog.drop_first())
    }
}

/// The diagnostic output of one whole analysis run: the violation log after
/// every statement was processed, starting from the fresh state. The run's
/// output is a function of the program and the configuration alone, so
/// re-running the verifier on the same input yields identical diagnostics.
pub open spec fn run_model(prog: Seq<Stmt>, config: Config) -> Seq<Violation> {
    steps(init_model(config), prog).viols
}

/// Whether binding record `j` carries this name and a still-open owner
/// scope, so that `name` can resolve to it.
pub open spec fn resolves_at(m: Model, name: u32, j: int) -> bool {
    0 <= j < m.bindings.len() && m.bindings[j].name == name && scope_open(m, m.bindings[j].scope)
}

/// Resolution over the first `n` records finds the largest index that the
/// name can resolve to, or nothing when no record fits.
pub proof fn lemma_resolve_up_to_props(m: Model, name: u32, n: int)
    requires
        n <= m.bindings.len(),
    ensures
        match resolve_up_to(m, name, n) {
            Some(i) => resolves_at(m, name, i) && i < n && (forall|j: int|
                i < j < n ==> !resolves_at(m, name, j)),
            None => forall|j: int| 0 <= j < n ==> !resolves_at(m, name, j),
        },
    decreases n,
{
    if n <= 0 {
    } else if m.bindings[n - 1].name == name && scope_open(m, m.bindings[n - 1].scope) {
    } else {
        lemma_resolve_up_to_props(m, name, n - 1);
    }
}

/// [`lemma_resolve_up_to_props`] applied to the whole arena.
pub proof fn lemma_resolve_props(m: Model, name: u32)
    ensures
        match resolve(m, name) {
            Some(i) => resolves_at(m, name, i) && (forall|j: int|
                i < j < m.bindings.len() ==> !resolves_at(m, name, j)),
            None => forall|j: int| 0 <= j < m.bindings.len() ==> !resolves_at(m, name, j),
        },
{
    lemma_resolve_up_to_props(m, name, m.bindings.len() as int);
}

/// A pattern has no more rest markers than slots.
pub proof fn lemma_rest_count_le(slots: Seq<Slot>)
    ensures
        rest_count(slots) <= slots.len(),
    decreases slots.len(),
{
    if slots.len() == 0 {
    } else {
        lemma_rest_count_le(slots.drop_first());
    }
}

/// The search for the first active borrow finds an active one, with nothing
/// active before it, or rightly reports that none is active at `j0` or
/// later.
pub proof fn lemma_first_borrow_props(m: Model, b: int, excl_only: bool, j0: int)
    requires
        0 <= j0,
    ensures
        match first_borrow_from(m, b, excl_only, j0) {
            Some(j) => j0 <= j && active_on(m, j, b) && (excl_only ==> m.borrows[j].exclusive)
                && (forall|k: int|
                j0 <= k < j ==> !(active_on(m, k, b) && (!excl_only || m.borrows[k].exclusive))),
            None => forall|j: int|
                j0 <= j < m.borrows.len() ==> !(active_on(m, j, b) && (!excl_only
                    || m.borrows[j].exclusive)),
        },
    decreases m.borrows.len() - j0,
{
    if j0 >= m.borrows.len() {
    } else if active_on(m, j0, b) && (!excl_only || m.borrows[j0].exclusive) {
    } else {
        lemma_first_borrow_props(m, b, excl_only, j0 + 1);
    }
}

} // verus!
