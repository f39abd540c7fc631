//! The constraint interface: an AIR declares its width and registers its
//! constraints with a builder, as symbolic expressions over the current row
//! and the next one. The same expressions are then read in two ways: for
//! their degree, and for their value on concrete rows.

use vstd::prelude::*;

use vstd::arithmetic::div_mod::{lemma_mod_self_0, lemma_small_mod};
use vstd::arithmetic::power2::pow2;

use crate::field::{
    canonical,
    fadd,
    field_add,
    field_mul,
    field_pow,
    field_sub,
    finv,
    fmul,
    fpow,
    fsub,
    generator,
    ORDER,
    TWO_ADICITY,
};
use crate::fold::{inverse_generator, pow2_usize};
use crate::query_phase::FriError;

verus! {

/// A polynomial expression over the cells of the current row and of the next.
#[derive(Debug)]
pub enum Expr {
    /// A constant field element.
    Constant(u64),
    /// The cell of the current row in the given column.
    Local(usize),
    /// The cell of the next row in the given column.
    Next(usize),
    /// A sum.
    Sum(Box<Expr>, Box<Expr>),
    /// A difference.
    Difference(Box<Expr>, Box<Expr>),
    /// A product.
    Product(Box<Expr>, Box<Expr>),
}

/// A constraint `lhs = rhs`, required on every row or, where `transition` is
/// set, on every row that has a next row.
#[derive(Debug)]
pub struct Constraint {
    /// The left-hand side.
    pub lhs: Expr,
    /// The right-hand side.
    pub rhs: Expr,
    /// Whether the constraint is gated on the transition rows.
    pub transition: bool,
}

impl Expr {
    /// Whether every column that the expression names is below `width`.
    pub open spec fn within(self, width: nat) -> bool
        decreases self,
    {
        match self {
            Expr::Constant(_) => true,
            Expr::Local(column) => column < width,
            Expr::Next(column) => column < width,
            Expr::Sum(a, b) => a.within(width) && b.within(width),
            Expr::Difference(a, b) => a.within(width) && b.within(width),
            Expr::Product(a, b) => a.within(width) && b.within(width),
        }
    }

    /// The value of the expression on a current row and a next row.
    pub open spec fn value(self, local: Seq<u64>, next: Seq<u64>) -> int
        decreases self,
    {
        match self {
            Expr::Constant(c) => canonical(c as int),
            Expr::Local(column) => canonical(local[column as int] as int),
            Expr::Next(column) => canonical(next[column as int] as int),
            Expr::Sum(a, b) => fadd(a.value(local, next), b.value(local, next)),
            Expr::Difference(a, b) => fsub(a.value(local, next), b.value(local, next)),
            Expr::Product(a, b) => fmul(a.value(local, next), b.value(local, next)),
        }
    }

    /// The degree of the expression as a polynomial in the cells.
    pub open spec fn degree(self) -> nat
        decreases self,
    {
        match self {
            Expr::Constant(_) => 0,
            Expr::Local(_) => 1,
            Expr::Next(_) => 1,
            Expr::Sum(a, b) => if a.degree() >= b.degree() {
                a.degree()
            } else {
                b.degree()
            },
            Expr::Difference(a, b) => if a.degree() >= b.degree() {
                a.degree()
            } else {
                b.degree()
            },
            Expr::Product(a, b) => a.degree() + b.degree(),
        }
    }

    /// Tells whether every column that the expression names is below `width`.
    pub fn check_within(&self, width: usize) -> (ok: bool)
        ensures
            ok == self.within(width as nat),
        decreases self,
    {
        match self {
            Expr::Constant(_) => true,
            Expr::Local(column) => *column < width,
            Expr::Next(column) => *column < width,
            Expr::Sum(a, b) => a.check_within(width) && b.check_within(width),
            Expr::Difference(a, b) => a.check_within(width) && b.check_within(width),
            Expr::Product(a, b) => a.check_within(width) && b.check_within(width),
        }
    }

    /// Evaluates the expression on a current row and a next row. An
    /// expression that names a column beyond one of the rows has no value.
    pub fn evaluate(&self, local: &Vec<u64>, next: &Vec<u64>) -> (r: Option<u64>)
        ensures
            r is Some <==> self.within(local@.len()) && self.within(next@.len()),
            r matches Some(v) ==> v == self.value(local@, next@),
        decreases self,
    {
        match self {
            Expr::Constant(c) => Some(*c % ORDER),
            Expr::Local(column) => if *column < local.len() && *column < next.len() {
                Some(local[*column] % ORDER)
            } else {
                None
            },
            Expr::Next(column) => if *column < local.len() && *column < next.len() {
                Some(next[*column] % ORDER)
            } else {
                None
            },
            Expr::Sum(a, b) => match (a.evaluate(local, next), b.evaluate(local, next)) {
                (Some(x), Some(y)) => Some(field_add(x, y)),
                _ => None,
            },
            Expr::Difference(a, b) => match (a.evaluate(local, next), b.evaluate(local, next)) {
                (Some(x), Some(y)) => Some(field_sub(x, y)),
                _ => None,
            },
            Expr::Product(a, b) => match (a.evaluate(local, next), b.evaluate(local, next)) {
                (Some(x), Some(y)) => Some(field_mul(x, y)),
                _ => None,
            },
        }
    }

    /// Computes the degree of the expression, where it fits a `usize`.
    pub fn compute_degree(&self) -> (r: Option<usize>)
        ensures
            r is Some <==> self.degree() <= usize::MAX,
            r matches Some(d) ==> d == self.degree(),
        decreases self,
    {
        match self {
            Expr::Constant(_) => Some(0),
            Expr::Local(_) => Some(1),
            Expr::Next(_) => Some(1),
            Expr::Sum(a, b) => match (a.compute_degree(), b.compute_degree()) {
                (Some(x), Some(y)) => Some(if x >= y {
                    x
                } else {
                    y
                }),
                _ => None,
            },
            Expr::Difference(a, b) => match (a.compute_degree(), b.compute_degree()) {
                (Some(x), Some(y)) => Some(if x >= y {
                    x
                } else {
                    y
                }),
                _ => None,
            },
            Expr::Product(a, b) => match (a.compute_degree(), b.compute_degree()) {
                (Some(x), Some(y)) => x.checked_add(y),
                _ => None,
            },
        }
    }
}

/// The sum of two expressions.
pub fn sum(a: Expr, b: Expr) -> (r: Expr)
    ensures
        r == Expr::Sum(Box::new(a), Box::new(b)),
{
    Expr::Sum(Box::new(a), Box::new(b))
}

/// The difference of two expressions.
pub fn difference(a: Expr, b: Expr) -> (r: Expr)
    ensures
        r == Expr::Difference(Box::new(a), Box::new(b)),
{
    Expr::Difference(Box::new(a), Box::new(b))
}

/// The product of two expressions.
pub fn product(a: Expr, b: Expr) -> (r: Expr)
    ensures
        r == Expr::Product(Box::new(a), Box::new(b)),
{
    Expr::Product(Box::new(a), Box::new(b))
}

/// What an AIR registers its constraints with.
pub struct ConstraintBuilder {
    /// The number of columns of the trace.
    pub width: usize,
    /// Whether the constraints registered next are gated on the transition rows.
    pub gated: bool,
    /// The constraints registered so far.
    pub constraints: Vec<Constraint>,
}

impl ConstraintBuilder {
    /// A builder for a trace of `width` columns, with no constraint, ungated.
    pub fn new(width: usize) -> (builder: Self)
        ensures
            builder.width == width,
            !builder.gated,
            builder.constraints@.len() == 0,
    {
        ConstraintBuilder { width, gated: false, constraints: Vec::new() }
    }

    /// The cell of the current row in column `column`, as a symbolic value.
    pub fn local(&self, column: usize) -> (r: Expr)
        ensures
            r == Expr::Local(column),
    {
        Expr::Local(column)
    }

    /// The cell of the next row in column `column`, as a symbolic value.
    pub fn next(&self, column: usize) -> (r: Expr)
        ensures
            r == Expr::Next(column),
    {
        Expr::Next(column)
    }

    /// Gates the constraints that follow on the transition rows: the rows
    /// that have a next row, which are all but the last.
    pub fn when_transition(&mut self)
        ensures
            final(self).gated,
            final(self).width == old(self).width,
            final(self).constraints == old(self).constraints,
    {
        self.gated = true;
    }

    /// Ends the scope of `when_transition`: the constraints that follow are
    /// required on every row.
    pub fn on_every_row(&mut self)
        ensures
            !final(self).gated,
            final(self).width == old(self).width,
            final(self).constraints == old(self).constraints,
    {
        self.gated = false;
    }

    /// Registers the constraint `lhs - rhs = 0`, gated or not as the builder
    /// stands.
    pub fn assert_eq(&mut self, lhs: Expr, rhs: Expr)
        ensures
            final(self).constraints@ == old(self).constraints@.push(
                Constraint { lhs, rhs, transition: old(self).gated },
            ),
            final(self).gated == old(self).gated,
            final(self).width == old(self).width,
    {
        let transition = self.gated;
        self.constraints.push(Constraint { lhs, rhs, transition });
    }
}

/// An algebraic intermediate representation: a trace width and a set of
/// constraints, which `eval` registers with the builder it is handed. What an
/// implementation registers is its own affair; the library checks a trace
/// against whatever it finds in the builder afterwards.
pub trait Air {
    /// The number of columns of the trace.
    fn width(&self) -> usize;

    /// Registers the constraints with the builder.
    fn eval(&self, builder: &mut ConstraintBuilder);
}

/// The sum of the degrees of the constraints, the degree of a constraint
/// being the larger of the degrees of its two sides.
pub open spec fn total_degree(constraints: Seq<Constraint>) -> nat
    decreases constraints.len(),
{
    if constraints.len() == 0 {
        0
    } else {
        let last = constraints.last();
        let degree = if last.lhs.degree() >= last.rhs.degree() {
            last.lhs.degree()
        } else {
            last.rhs.degree()
        };
        total_degree(constraints.drop_last()) + degree
    }
}

/// Computes the sum of the degrees of the constraints, which bounds the
/// degree of the quotient, where it fits a `usize`.
pub fn compute_total_degree(constraints: &Vec<Constraint>) -> (r: Option<usize>)
    ensures
        r is Some <==> total_degree(constraints@) <= usize::MAX,
        r matches Some(d) ==> d == total_degree(constraints@),
{
    let mut total: usize = 0;
    let mut k: usize = 0;
    assert(constraints@.take(0) =~= Seq::<Constraint>::empty());
    while k < constraints.len()
        invariant
            k <= constraints@.len(),
            total == total_degree(constraints@.take(k as int)),
        decreases constraints@.len() - k,
    {
        proof {
            assert(constraints@.take(k + 1).drop_last() =~= constraints@.take(k as int));
            lemma_total_degree_grows(constraints@, k + 1);
        }
        let lhs = constraints[k].lhs.compute_degree();
        let rhs = constraints[k].rhs.compute_degree();
        let degree = match (lhs, rhs) {
            (Some(x), Some(y)) => if x >= y {
                x
            } else {
                y
            },
            _ => {
                return None;
            },
        };
        total = match total.checked_add(degree) {
            Some(t) => t,
            None => {
                return None;
            },
        };
        k = k + 1;
    }
    assert(constraints@.take(k as int) =~= constraints@);
    Some(total)
}

/// The degrees of the first `k` constraints sum to no more than the degrees
/// of all.
pub proof fn lemma_total_degree_grows(constraints: Seq<Constraint>, k: int)
    requires
        0 <= k <= constraints.len(),
    ensures
        total_degree(constraints.take(k)) <= total_degree(constraints),
    decreases constraints.len() - k,
{
    if k < constraints.len() {
        assert(constraints.take(k + 1).drop_last() =~= constraints.take(k));
        lemma_total_degree_grows(constraints, k + 1);
    } else {
        assert(constraints.take(k) =~= constraints);
    }
}

/// Why a trace was refused.
#[derive(Clone, Copy, Debug, PartialEq, Eq)]
pub enum ConstraintError {
    /// The trace has no row.
    EmptyTrace,
    /// A row of the trace does not have the width that the AIR declares.
    WidthMismatch,
    /// A constraint names a column beyond the width that the AIR declares.
    MalformedConstraint,
    /// A constraint does not hold on a row it is required on: the first such
    /// row, and on it the first such constraint.
    Unsatisfied { row: usize, constraint: usize },
}

/// The rows of a trace held in memory, as sequences.
pub open spec fn rows(trace: Seq<Vec<u64>>) -> Seq<Seq<u64>> {
    Seq::new(trace.len(), |i: int| trace[i]@)
}

/// Whether every row of the trace has `width` cells.
pub open spec fn rectangular(trace: Seq<Seq<u64>>, width: nat) -> bool {
    forall|i: int| 0 <= i < trace.len() ==> (#[trigger] trace[i]).len() == width
}

/// Whether a constraint names columns below `width` only.
pub open spec fn constraint_within(constraint: Constraint, width: nat) -> bool {
    constraint.lhs.within(width) && constraint.rhs.within(width)
}

/// Whether every constraint names columns below `width` only.
pub open spec fn all_within(constraints: Seq<Constraint>, width: nat) -> bool {
    forall|k: int|
        0 <= k < constraints.len() ==> constraint_within(#[trigger] constraints[k], width)
}

/// Whether a constraint is required on row `row` of a trace of `height`
/// rows: a gated constraint on every row that has a next row, and so not on
/// the last; any other on every row.
pub open spec fn required_at(constraint: Constraint, row: int, height: int) -> bool {
    !constraint.transition || row + 1 < height
}

/// Whether a constraint holds on row `row`. The row after the last is the
/// first.
pub open spec fn holds_at(constraint: Constraint, trace: Seq<Seq<u64>>, row: int) -> bool {
    let next = trace[(row + 1) % (trace.len() as int)];
    constraint.lhs.value(trace[row], next) == constraint.rhs.value(trace[row], next)
}

/// Whether constraint `k` is required on row `row` and does not hold there.
pub open spec fn fails_at(
    constraints: Seq<Constraint>,
    trace: Seq<Seq<u64>>,
    row: int,
    k: int,
) -> bool {
    required_at(constraints[k], row, trace.len() as int) && !holds_at(constraints[k], trace, row)
}

/// Whether no constraint fails on row `row`.
pub open spec fn row_satisfied(constraints: Seq<Constraint>, trace: Seq<Seq<u64>>, row: int) -> bool {
    forall|k: int| 0 <= k < constraints.len() ==> !#[trigger] fails_at(constraints, trace, row, k)
}

/// Whether the trace satisfies every constraint on every row it is required on.
pub open spec fn satisfied(constraints: Seq<Constraint>, trace: Seq<Seq<u64>>) -> bool {
    forall|i: int| 0 <= i < trace.len() ==> #[trigger] row_satisfied(constraints, trace, i)
}

/// The outcome of checking a trace: whether it is accepted, or else the one
/// reason for which it is refused.
pub open spec fn trace_verdict(
    width: nat,
    constraints: Seq<Constraint>,
    trace: Seq<Seq<u64>>,
    r: Result<(), ConstraintError>,
) -> bool {
    match r {
        Ok(_) => trace.len() >= 1 && rectangular(trace, width) && all_within(constraints, width)
            && satisfied(constraints, trace),
        Err(ConstraintError::EmptyTrace) => trace.len() == 0,
        Err(ConstraintError::WidthMismatch) => trace.len() >= 1 && !rectangular(trace, width),
        Err(ConstraintError::MalformedConstraint) => trace.len() >= 1 && rectangular(trace, width)
            && !all_within(constraints, width),
        Err(ConstraintError::Unsatisfied { row, constraint }) => {
            &&& trace.len() >= 1
            &&& rectangular(trace, width)
            &&& all_within(constraints, width)
            &&& row < trace.len()
            &&& constraint < constraints.len()
            &&& fails_at(constraints, trace, row as int, constraint as int)
            &&& forall|i: int| 0 <= i < row ==> #[trigger] row_satisfied(constraints, trace, i)
            &&& forall|k: int|
                0 <= k < constraint ==> !#[trigger] fails_at(constraints, trace, row as int, k)
        },
    }
}

/// A gated constraint asks nothing of the last row, whatever the trace.
pub proof fn lemma_last_row_is_free(constraints: Seq<Constraint>, trace: Seq<Seq<u64>>, k: int)
    requires
        0 <= k < constraints.len(),
        constraints[k].transition,
    ensures
        !fails_at(constraints, trace, trace.len() - 1, k),
{
}

/// A gated constraint is enforced on every row that has a next row, and any
/// other constraint on every row: a trace on which such a constraint does not
/// hold on such a row is refused.
pub proof fn lemma_violation_is_refused(
    width: nat,
    constraints: Seq<Constraint>,
    trace: Seq<Seq<u64>>,
    r: Result<(), ConstraintError>,
    row: int,
    k: int,
)
    requires
        trace_verdict(width, constraints, trace, r),
        0 <= row < trace.len(),
        0 <= k < constraints.len(),
        !constraints[k].transition || row + 1 < trace.len(),
        !holds_at(constraints[k], trace, row),
    ensures
        r is Err,
{
    if r is Ok {
        assert(row_satisfied(constraints, trace, row));
        assert(!fails_at(constraints, trace, row, k));
    }
}

/// A trace of the declared width that satisfies every constraint on every row
/// it is required on is accepted, where the constraints fit the width.
pub proof fn lemma_satisfying_trace_is_accepted(
    width: nat,
    constraints: Seq<Constraint>,
    trace: Seq<Seq<u64>>,
    r: Result<(), ConstraintError>,
)
    requires
        trace_verdict(width, constraints, trace, r),
        trace.len() >= 1,
        rectangular(trace, width),
        all_within(constraints, width),
        satisfied(constraints, trace),
    ensures
        r is Ok,
{
    match r {
        Err(ConstraintError::Unsatisfied { row, constraint }) => {
            assert(row_satisfied(constraints, trace, row as int));
            assert(!fails_at(constraints, trace, row as int, constraint as int));
        },
        _ => {},
    }
}

/// Tells whether every row of the trace has `width` cells.
pub fn check_rectangular(trace: &Vec<Vec<u64>>, width: usize) -> (ok: bool)
    ensures
        ok == rectangular(rows(trace@), width as nat),
{
    let mut i: usize = 0;
    while i < trace.len()
        invariant
            i <= trace@.len(),
            forall|j: int| 0 <= j < i ==> (#[trigger] rows(trace@)[j]).len() == width,
        decreases trace@.len() - i,
    {
        if trace[i].len() != width {
            assert(rows(trace@)[i as int].len() != width);
            return false;
        }
        assert(rows(trace@)[i as int].len() == width);
        i = i + 1;
    }
    true
}

/// Tells whether every constraint names columns below `width` only.
pub fn check_all_within(constraints: &Vec<Constraint>, width: usize) -> (ok: bool)
    ensures
        ok == all_within(constraints@, width as nat),
{
    let mut k: usize = 0;
    while k < constraints.len()
        invariant
            k <= constraints@.len(),
            forall|j: int| 0 <= j < k ==> constraint_within(#[trigger] constraints@[j], width as nat),
        decreases constraints@.len() - k,
    {
        if !constraints[k].lhs.check_within(width) || !constraints[k].rhs.check_within(width) {
            assert(!constraint_within(constraints@[k as int], width as nat));
            return false;
        }
        k = k + 1;
    }
    true
}

/// Finds the first constraint that fails on row `row`, if any.
fn check_row(constraints: &Vec<Constraint>, trace: &Vec<Vec<u64>>, width: usize, row: usize) -> (r:
    Option<usize>)
    requires
        row < trace@.len(),
        rectangular(rows(trace@), width as nat),
        all_within(constraints@, width as nat),
    ensures
        match r {
            None => row_satisfied(constraints@, rows(trace@), row as int),
            Some(k) => k < constraints@.len() && fails_at(
                constraints@,
                rows(trace@),
                row as int,
                k as int,
            ) && forall|j: int|
                0 <= j < k ==> !#[trigger] fails_at(constraints@, rows(trace@), row as int, j),
        },
{
    let height = trace.len();
    let after = if row + 1 < height {
        row + 1
    } else {
        0
    };
    proof {
        if row + 1 < height {
            lemma_small_mod((row + 1) as nat, height as nat);
        } else {
            lemma_mod_self_0(height as int);
        }
        assert(rows(trace@)[row as int] == trace@[row as int]@);
        assert(rows(trace@)[after as int] == trace@[after as int]@);
    }
    let mut k: usize = 0;
    while k < constraints.len()
        invariant
            k <= constraints@.len(),
            row < trace@.len(),
            after < trace@.len(),
            height == trace@.len(),
            after == (row + 1) % (height as int),
            rectangular(rows(trace@), width as nat),
            all_within(constraints@, width as nat),
            rows(trace@)[row as int] == trace@[row as int]@,
            rows(trace@)[after as int] == trace@[after as int]@,
            forall|j: int|
                0 <= j < k ==> !#[trigger] fails_at(constraints@, rows(trace@), row as int, j),
        decreases constraints@.len() - k,
    {
        let constraint = &constraints[k];
        assert(constraint_within(constraints@[k as int], width as nat));
        if !constraint.transition || row + 1 < height {
            let lhs = constraint.lhs.evaluate(&trace[row], &trace[after]);
            let rhs = constraint.rhs.evaluate(&trace[row], &trace[after]);
            match (lhs, rhs) {
                (Some(x), Some(y)) => {
                    if x != y {
                        return Some(k);
                    }
                },
                _ => {
                    assert(false);
                },
            }
        }
        k = k + 1;
    }
    None
}

/// Checks a trace against constraints over `width` columns: every
/// constraint on every row, but a gated constraint not on the last row. The
/// outcome is the one that [`trace_verdict`] allows.
pub fn check_constraints(width: usize, constraints: &Vec<Constraint>, trace: &Vec<Vec<u64>>) -> (r:
    Result<(), ConstraintError>)
    ensures
        trace_verdict(width as nat, constraints@, rows(trace@), r),
{
    if trace.len() == 0 {
        return Err(ConstraintError::EmptyTrace);
    }
    if !check_rectangular(trace, width) {
        return Err(ConstraintError::WidthMismatch);
    }
    if !check_all_within(constraints, width) {
        return Err(ConstraintError::MalformedConstraint);
    }
    let mut i: usize = 0;
    while i < trace.len()
        invariant
            i <= trace@.len(),
            trace@.len() >= 1,
            rectangular(rows(trace@), width as nat),
            all_within(constraints@, width as nat),
            forall|j: int| 0 <= j < i ==> #[trigger] row_satisfied(constraints@, rows(trace@), j),
        decreases trace@.len() - i,
    {
        match check_row(constraints, trace, width, i) {
            Some(k) => {
                return Err(ConstraintError::Unsatisfied { row: i, constraint: k });
            },
            None => {},
        }
        i = i + 1;
    }
    Ok(())
}

/// Checks a trace against an AIR: asks the AIR for its width, hands it a
/// fresh builder for that width, and checks the trace against the constraints
/// found in the builder with [`check_constraints`]. The outcome is the one
/// that [`trace_verdict`] allows for that width and those constraints.
pub fn check_trace<A: Air>(air: &A, trace: &Vec<Vec<u64>>) -> (r: Result<(), ConstraintError>)
    ensures
        exists|width: nat, constraints: Seq<Constraint>|
            trace_verdict(width, constraints, rows(trace@), r),
        r == Err::<(), ConstraintError>(ConstraintError::EmptyTrace) <==> trace@.len() == 0,
{
    let width = air.width();
    let mut builder = ConstraintBuilder::new(width);
    air.eval(&mut builder);
    let r = check_constraints(width, &builder.constraints, trace);
    assert(trace_verdict(width as nat, builder.constraints@, rows(trace@), r));
    r
}

/// The selector of a constraint at the point `x`: a gated constraint is
/// multiplied by `x - last`, with `last` the point of the last row, so that it
/// asks nothing there; any other by one.
pub open spec fn selector(constraint: Constraint, x: int, last: int) -> int {
    if constraint.transition {
        fsub(x, last)
    } else {
        1
    }
}

/// One constraint at a point: the difference of its two sides on the opened
/// rows, times its selector.
pub open spec fn constraint_term(
    constraint: Constraint,
    local: Seq<u64>,
    next: Seq<u64>,
    x: int,
    last: int,
) -> int {
    fmul(
        selector(constraint, x, last),
        fsub(constraint.lhs.value(local, next), constraint.rhs.value(local, next)),
    )
}

/// All constraints at a point, combined with the powers of `alpha`, the first
/// constraint with the highest power.
pub open spec fn combined_constraints(
    constraints: Seq<Constraint>,
    local: Seq<u64>,
    next: Seq<u64>,
    alpha: int,
    x: int,
    last: int,
) -> int
    decreases constraints.len(),
{
    if constraints.len() == 0 {
        0
    } else {
        fadd(
            fmul(combined_constraints(constraints.drop_last(), local, next, alpha, x, last), alpha),
            constraint_term(constraints.last(), local, next, x, last),
        )
    }
}

/// The point of the last row of a trace of `2^log_height` rows: the inverse
/// of the generator of the trace domain.
pub open spec fn last_row_point(log_height: nat) -> int {
    finv(generator(log_height) as int)
}

/// The vanishing polynomial of the trace domain at `x`: `x^(2^log_height) - 1`.
pub open spec fn vanishing(x: int, log_height: nat) -> int {
    fsub(fpow(x, pow2(log_height)), 1)
}

/// Whether the opened rows and the opened quotient value are consistent at
/// the point `x`: the combined constraints equal the quotient times the
/// vanishing polynomial.
pub open spec fn quotient_relation(
    constraints: Seq<Constraint>,
    local: Seq<u64>,
    next: Seq<u64>,
    alpha: u64,
    x: u64,
    log_height: nat,
    quotient: u64,
) -> bool {
    combined_constraints(
        constraints,
        local,
        next,
        alpha as int,
        x as int,
        last_row_point(log_height),
    ) == fmul(quotient as int, vanishing(x as int, log_height))
}

/// On the point of the last row a gated constraint contributes nothing,
/// whatever its two sides are there.
pub proof fn lemma_gated_term_vanishes_on_last_row(
    constraint: Constraint,
    local: Seq<u64>,
    next: Seq<u64>,
    last: int,
)
    requires
        constraint.transition,
    ensures
        constraint_term(constraint, local, next, last, last) == 0,
{
    let d = fsub(constraint.lhs.value(local, next), constraint.rhs.value(local, next));
    assert(fsub(last, last) == 0);
    assert(0 * d == 0);
}

/// Combines the constraints at a point, on the opened rows.
pub fn combine_constraints(
    constraints: &Vec<Constraint>,
    local: &Vec<u64>,
    next: &Vec<u64>,
    alpha: u64,
    x: u64,
    last: u64,
) -> (r: Option<u64>)
    ensures
        r is Some <==> all_within(constraints@, local@.len()) && all_within(
            constraints@,
            next@.len(),
        ),
        r matches Some(v) ==> v == combined_constraints(
            constraints@,
            local@,
            next@,
            alpha as int,
            x as int,
            last as int,
        ),
{
    let mut acc: u64 = 0;
    let mut k: usize = 0;
    assert(constraints@.take(0) =~= Seq::<Constraint>::empty());
    while k < constraints.len()
        invariant
            k <= constraints@.len(),
            forall|j: int|
                0 <= j < k ==> constraint_within(#[trigger] constraints@[j], local@.len())
                    && constraint_within(constraints@[j], next@.len()),
            acc == combined_constraints(
                constraints@.take(k as int),
                local@,
                next@,
                alpha as int,
                x as int,
                last as int,
            ),
        decreases constraints@.len() - k,
    {
        assert(constraints@.take(k + 1).drop_last() =~= constraints@.take(k as int));
        let constraint = &constraints[k];
        let lhs = constraint.lhs.evaluate(local, next);
        let rhs = constraint.rhs.evaluate(local, next);
        let difference = match (lhs, rhs) {
            (Some(a), Some(b)) => field_sub(a, b),
            _ => {
                assert(!constraint_within(constraints@[k as int], local@.len())
                    || !constraint_within(constraints@[k as int], next@.len()));
                return None;
            },
        };
        let factor = if constraint.transition {
            field_sub(x, last)
        } else {
            1
        };
        acc = field_add(field_mul(acc, alpha), field_mul(factor, difference));
        k = k + 1;
    }
    assert(constraints@.take(k as int) =~= constraints@);
    Some(acc)
}

/// Re-evaluates the constraints at an opened point and checks them against
/// the opened quotient value. Rows that the constraints do not fit, or a
/// trace domain beyond the two-adicity of the field, make the opening
/// malformed; a relation that does not hold is a constraint failure.
pub fn check_quotient_relation(
    constraints: &Vec<Constraint>,
    local: &Vec<u64>,
    next: &Vec<u64>,
    alpha: u64,
    x: u64,
    log_height: usize,
    quotient: u64,
) -> (r: Result<(), FriError>)
    ensures
        r == if log_height >= TWO_ADICITY || !all_within(constraints@, local@.len())
            || !all_within(constraints@, next@.len()) {
            Err(FriError::MalformedProof)
        } else if quotient_relation(
            constraints@,
            local@,
            next@,
            alpha,
            x,
            log_height as nat,
            quotient,
        ) {
            Ok(())
        } else {
            Err(FriError::ConstraintFailure)
        },
{
    if log_height >= TWO_ADICITY {
        return Err(FriError::MalformedProof);
    }
    let last = inverse_generator(log_height);
    let combined = match combine_constraints(constraints, local, next, alpha, x, last) {
        Some(v) => v,
        None => {
            return Err(FriError::MalformedProof);
        },
    };
    let height = pow2_usize(log_height);
    let zero_on_domain = field_sub(field_pow(x, height as u64), 1);
    if combined == field_mul(quotient, zero_on_domain) {
        Ok(())
    } else {
        Err(FriError::ConstraintFailure)
    }
}

} // verus!
