use p3_fri::air::{
    check_constraints, check_quotient_relation, check_trace, combine_constraints,
    compute_total_degree, difference, product, sum, Air, Constraint, ConstraintBuilder,
    ConstraintError, Expr,
};
use p3_fri::field::ORDER;
use p3_fri::fold::inverse_generator;
use p3_fri::query_phase::FriError;

struct MulAir;

impl Air for MulAir {
    fn width(&self) -> usize {
        4
    }

    fn eval(&self, builder: &mut ConstraintBuilder) {
        let ab = product(builder.local(0), builder.local(1));
        let cd = product(builder.local(2), builder.local(3));
        builder.when_transition();
        builder.assert_eq(ab, cd);
    }
}

fn mul(a: u64, b: u64) -> u64 {
    ((a as u128 * b as u128) % ORDER as u128) as u64
}

fn satisfying_trace(num_steps: usize) -> Vec<Vec<u64>> {
    let mut state: u64 = 0x2545_f491_4f6c_dd1d;
    let mut draw = || {
        state = state.wrapping_mul(6364136223846793005).wrapping_add(1442695040888963407);
        state % ORDER
    };
    (0..num_steps)
        .map(|_| {
            let (a, b, c) = (draw(), draw(), draw());
            vec![mul(a, c), b, a, mul(b, c)]
        })
        .collect()
}

#[test]
fn trace_that_satisfies_the_relation_is_accepted() {
    let trace = satisfying_trace(8);
    assert_eq!(check_trace(&MulAir, &trace), Ok(()));
}

#[test]
fn bad_witness_is_rejected_on_the_first_row() {
    let trace = vec![vec![0u64, 0, 1, 1]; 8];
    assert_eq!(
        check_trace(&MulAir, &trace),
        Err(ConstraintError::Unsatisfied { row: 0, constraint: 0 })
    );
}

#[test]
fn gated_constraint_asks_nothing_of_the_last_row() {
    for num_steps in [1usize, 2, 3, 4, 7, 8, 16] {
        let mut trace = satisfying_trace(num_steps);
        trace[num_steps - 1] = vec![0, 0, 1, 1];
        assert_eq!(check_trace(&MulAir, &trace), Ok(()));
    }
}

#[test]
fn gated_constraint_is_enforced_on_every_row_but_the_last() {
    for num_steps in [2usize, 3, 4, 7, 8, 16] {
        for bad in 0..num_steps - 1 {
            let mut trace = satisfying_trace(num_steps);
            trace[bad] = vec![0, 0, 1, 1];
            assert_eq!(
                check_trace(&MulAir, &trace),
                Err(ConstraintError::Unsatisfied { row: bad, constraint: 0 })
            );
        }
    }
}

#[test]
fn ungated_constraint_is_enforced_on_the_last_row_too() {
    let mut builder = ConstraintBuilder::new(2);
    builder.assert_eq(builder.local(0), builder.local(1));
    let trace = vec![vec![1u64, 1], vec![2, 2], vec![3, 4]];
    assert_eq!(
        check_constraints(2, &builder.constraints, &trace),
        Err(ConstraintError::Unsatisfied { row: 2, constraint: 0 })
    );
}

#[test]
fn next_row_of_the_last_row_is_the_first() {
    // the counter goes up by one, around the trace
    let mut builder = ConstraintBuilder::new(1);
    builder.assert_eq(builder.next(0), sum(builder.local(0), Expr::Constant(1)));
    let trace = vec![vec![5u64], vec![6], vec![7]];
    assert_eq!(
        check_constraints(1, &builder.constraints, &trace),
        Err(ConstraintError::Unsatisfied { row: 2, constraint: 0 })
    );
    let mut builder = ConstraintBuilder::new(1);
    builder.when_transition();
    builder.assert_eq(builder.next(0), sum(builder.local(0), Expr::Constant(1)));
    assert_eq!(check_constraints(1, &builder.constraints, &trace), Ok(()));
}

#[test]
fn first_failing_constraint_of_the_first_failing_row_is_reported() {
    let mut builder = ConstraintBuilder::new(2);
    builder.assert_eq(builder.local(0), Expr::Constant(1));
    builder.assert_eq(builder.local(1), Expr::Constant(2));
    builder.assert_eq(difference(builder.local(1), builder.local(0)), Expr::Constant(1));
    let trace = vec![vec![1u64, 2], vec![1, 3], vec![0, 0]];
    assert_eq!(
        check_constraints(2, &builder.constraints, &trace),
        Err(ConstraintError::Unsatisfied { row: 1, constraint: 1 })
    );
}

#[test]
fn trace_of_wrong_shape_is_refused() {
    assert_eq!(check_trace(&MulAir, &vec![]), Err(ConstraintError::EmptyTrace));
    let narrow = vec![vec![1u64, 1, 1, 1], vec![1, 1, 1]];
    assert_eq!(check_trace(&MulAir, &narrow), Err(ConstraintError::WidthMismatch));
    let wide = vec![vec![1u64, 1, 1, 1, 1]];
    assert_eq!(check_trace(&MulAir, &wide), Err(ConstraintError::WidthMismatch));
}

#[test]
fn constraint_beyond_the_width_is_refused() {
    let mut builder = ConstraintBuilder::new(2);
    builder.assert_eq(builder.local(2), Expr::Constant(0));
    let trace = vec![vec![0u64, 0]];
    assert_eq!(
        check_constraints(2, &builder.constraints, &trace),
        Err(ConstraintError::MalformedConstraint)
    );
}

#[test]
fn when_transition_scopes_the_constraints_that_follow() {
    let mut builder = ConstraintBuilder::new(1);
    builder.assert_eq(builder.local(0), Expr::Constant(0));
    builder.when_transition();
    builder.assert_eq(builder.local(0), Expr::Constant(1));
    builder.assert_eq(builder.local(0), Expr::Constant(2));
    builder.on_every_row();
    builder.assert_eq(builder.local(0), Expr::Constant(3));
    let gates: Vec<bool> = builder.constraints.iter().map(|c| c.transition).collect();
    assert_eq!(gates, vec![false, true, true, false]);
    assert_eq!(builder.width, 1);
}

#[test]
fn degrees_add_up() {
    let mut builder = ConstraintBuilder::new(4);
    MulAir.eval(&mut builder);
    assert_eq!(builder.constraints[0].lhs.compute_degree(), Some(2));
    assert_eq!(compute_total_degree(&builder.constraints), Some(2));
    builder.assert_eq(
        product(product(builder.local(0), builder.next(1)), sum(builder.local(2), Expr::Constant(3))),
        Expr::Constant(7),
    );
    builder.assert_eq(Expr::Constant(7), difference(builder.local(0), builder.local(1)));
    assert_eq!(compute_total_degree(&builder.constraints), Some(6));
    assert_eq!(compute_total_degree(&vec![]), Some(0));
}

#[test]
fn expressions_evaluate_in_the_field() {
    let local = vec![3u64, ORDER - 1];
    let next = vec![10u64, 20];
    assert_eq!(Expr::Constant(ORDER + 2).evaluate(&local, &next), Some(2));
    assert_eq!(sum(Expr::Local(1), Expr::Local(0)).evaluate(&local, &next), Some(2));
    assert_eq!(difference(Expr::Local(0), Expr::Next(0)).evaluate(&local, &next), Some(ORDER - 7));
    assert_eq!(product(Expr::Local(1), Expr::Next(1)).evaluate(&local, &next), Some(ORDER - 20));
    assert_eq!(Expr::Local(2).evaluate(&local, &next), None);
    assert_eq!(sum(Expr::Local(0), Expr::Next(2)).evaluate(&local, &next), None);
    assert!(Expr::Next(1).check_within(2));
    assert!(!product(Expr::Local(0), Expr::Next(2)).check_within(2));
}

#[test]
fn constraints_combine_with_the_powers_of_alpha() {
    let constraints = vec![
        Constraint { lhs: Expr::Local(0), rhs: Expr::Constant(1), transition: false },
        Constraint { lhs: Expr::Local(1), rhs: Expr::Constant(1), transition: true },
    ];
    // (5 - 1) * alpha + (x - last) * (9 - 1) with alpha = 10, x = 7, last = 4
    let combined = combine_constraints(&constraints, &vec![5, 9], &vec![0, 0], 10, 7, 4);
    assert_eq!(combined, Some(64));
    // on the last row the gated constraint drops out
    let combined = combine_constraints(&constraints, &vec![5, 9], &vec![0, 0], 10, 4, 4);
    assert_eq!(combined, Some(40));
    assert_eq!(combine_constraints(&constraints, &vec![5], &vec![0, 0], 10, 7, 4), None);
}

#[test]
fn quotient_relation_is_checked_at_an_opened_point() {
    let mut builder = ConstraintBuilder::new(4);
    MulAir.eval(&mut builder);
    let constraints = builder.constraints;
    let good = vec![6u64, 2, 3, 4];
    let bad = vec![0u64, 0, 1, 1];
    let next = vec![0u64; 4];
    // a satisfied constraint combines to zero, which any point divides
    assert_eq!(check_quotient_relation(&constraints, &good, &next, 10, 12345, 3, 0), Ok(()));
    assert_eq!(
        check_quotient_relation(&constraints, &bad, &next, 10, 12345, 3, 0),
        Err(FriError::ConstraintFailure)
    );
    // on the point of the last row a gated constraint drops out, and the
    // vanishing polynomial is zero there like everywhere on the trace domain
    let last = inverse_generator(3);
    assert_eq!(check_quotient_relation(&constraints, &bad, &next, 10, last, 3, 77), Ok(()));
    assert_eq!(
        check_quotient_relation(&constraints, &vec![1, 1], &next, 10, 12345, 3, 0),
        Err(FriError::MalformedProof)
    );
    assert_eq!(
        check_quotient_relation(&constraints, &good, &next, 10, 12345, 32, 0),
        Err(FriError::MalformedProof)
    );
}
