use odl::constraints::{
    Constraint, ConstraintSolver, Equation, EquationKind, Line, LineKind, Point, SolveAction, StepKind,
    Variable,
};

fn kinds_and_args(c: Constraint) -> Vec<(EquationKind, Vec<usize>)> {
    c.to_equations().into_iter().map(|e| {
        assert!(!e.solved);
        (e.kind, e.vars)
    }).collect()
}

#[test]
fn point_and_line_new() {
    let p = Point::new(1, 2);
    assert_eq!(p, Point { x: 1, y: 2 });
    let q = Point::new(3, 4);
    let l = Line::new(&p, &q);
    assert_eq!(*l.p0, p);
    assert_eq!(*l.p1, q);
}

#[test]
fn line_constraints_to_equations() {
    let p0 = Point::new(0, 1);
    let p1 = Point::new(2, 3);
    let l = Line::new(&p0, &p1);
    assert_eq!(kinds_and_args(Constraint::LHorizontal { l: &l }), vec![(EquationKind::Equal, vec![1, 3])]);
    assert_eq!(kinds_and_args(Constraint::LVertical { l: &l }), vec![(EquationKind::Equal, vec![0, 2])]);
    // North: p1.y - p0.y > 0, that is p0.y - p1.y < 0, a Less over [p0.y, p1.y];
    // the others alike.
    assert_eq!(kinds_and_args(Constraint::LNorth { l: &l }), vec![(EquationKind::Less, vec![1, 3])]);
    assert_eq!(kinds_and_args(Constraint::LEast { l: &l }), vec![(EquationKind::Less, vec![0, 2])]);
    assert_eq!(kinds_and_args(Constraint::LSouth { l: &l }), vec![(EquationKind::Greater, vec![1, 3])]);
    assert_eq!(kinds_and_args(Constraint::LWest { l: &l }), vec![(EquationKind::Greater, vec![0, 2])]);
    assert_eq!(
        kinds_and_args(Constraint::LDimension { l: &l, d: 9 }),
        vec![(EquationKind::Distance, vec![0, 1, 2, 3, 9])]
    );
    let p2 = Point::new(4, 5);
    let p3 = Point::new(6, 7);
    let m = Line::new(&p2, &p3);
    assert_eq!(
        kinds_and_args(Constraint::LEqual { l0: &l, l1: &m }),
        vec![(EquationKind::EqualDistance, vec![0, 1, 2, 3, 4, 5, 6, 7])]
    );
}

#[test]
fn point_constraints_to_equations() {
    let a = Point::new(0, 1);
    let b = Point::new(2, 3);
    assert_eq!(kinds_and_args(Constraint::PHorizontal { p0: &a, p1: &b }), vec![(EquationKind::Equal, vec![1, 3])]);
    // Two points are vertical when their x coordinates agree.
    assert_eq!(kinds_and_args(Constraint::PVertical { p0: &a, p1: &b }), vec![(EquationKind::Equal, vec![0, 2])]);
    assert_eq!(kinds_and_args(Constraint::PNorth { p0: &a, p1: &b }), vec![(EquationKind::Less, vec![1, 3])]);
    assert_eq!(kinds_and_args(Constraint::PEast { p0: &a, p1: &b }), vec![(EquationKind::Less, vec![0, 2])]);
    assert_eq!(kinds_and_args(Constraint::PSouth { p0: &a, p1: &b }), vec![(EquationKind::Greater, vec![1, 3])]);
    // West, like east, relates the x coordinates.
    assert_eq!(kinds_and_args(Constraint::PWest { p0: &a, p1: &b }), vec![(EquationKind::Greater, vec![0, 2])]);
    assert_eq!(
        kinds_and_args(Constraint::PEqual { p0: &a, p1: &b }),
        vec![(EquationKind::Equal, vec![0, 2]), (EquationKind::Equal, vec![1, 3])]
    );
    assert_eq!(
        kinds_and_args(Constraint::PDimension { p0: &a, x: 7, y: 8 }),
        vec![(EquationKind::Equal, vec![0, 7]), (EquationKind::Equal, vec![1, 8])]
    );
}

#[test]
fn variables_and_points() {
    let mut s = ConstraintSolver::new();
    assert_eq!(s.add_var(), 0);
    assert_eq!(s.add_var_value(1.5f32.to_bits()), 1);
    let p = s.add_point();
    assert_eq!(p, Point { x: 2, y: 3 });
    assert_eq!(s.vars, vec![Variable::Unknown, Variable::Value(1.5f32.to_bits()), Variable::Unknown, Variable::Unknown]);
    assert!(matches!(Variable::new(), Variable::Unknown));
    s.add_polyline(vec![LineKind::Line, LineKind::Arc]);
    assert_eq!(s.vars.len(), 4);
    assert_eq!(s.equations.len(), 0);
}

#[test]
fn add_constraint_appends() {
    let mut s = ConstraintSolver::new();
    let a = s.add_point();
    let b = s.add_point();
    s.add_constraint(Constraint::PEqual { p0: &a, p1: &b });
    let l = Line::new(&a, &b);
    s.add_constraint(Constraint::LHorizontal { l: &l });
    let got: Vec<(EquationKind, Vec<usize>)> = s.equations.iter().map(|e| (e.kind, e.vars.clone())).collect();
    assert_eq!(
        got,
        vec![
            (EquationKind::Equal, vec![0, 2]),
            (EquationKind::Equal, vec![1, 3]),
            (EquationKind::Equal, vec![1, 3]),
        ]
    );
}

#[test]
fn unknown_position() {
    let mut s = ConstraintSolver::new();
    let known = s.add_var_value(0);
    let free = s.add_var();
    let free2 = s.add_var();
    let a = Point::new(known, free);
    let b = Point::new(free2, known);
    s.add_constraint(Constraint::PEqual { p0: &a, p1: &b });
    // x: [known, free2] -> position 1; y: [free, known] -> position 0.
    assert_eq!(s.equations[0].unknown(&s.vars), Some(1));
    assert_eq!(s.equations[1].unknown(&s.vars), Some(0));
    let c = Point::new(free, free2);
    s.add_constraint(Constraint::PHorizontal { p0: &c, p1: &c });
    // Two unknown arguments.
    assert_eq!(s.equations[2].unknown(&s.vars), None);
    let d = Point::new(known, known);
    s.add_constraint(Constraint::PHorizontal { p0: &d, p1: &d });
    // No unknown argument: position 0.
    assert_eq!(s.equations[3].unknown(&s.vars), Some(0));
}

#[test]
fn is_solved_needs_equations_and_values() {
    let mut s = ConstraintSolver::new();
    assert!(s.is_solved());
    let v = s.add_var_value(1);
    assert!(s.is_solved());
    let w = s.add_var();
    assert!(!s.is_solved());
    s.vars[w] = Variable::Value(2);
    let p = Point::new(v, w);
    s.add_constraint(Constraint::PHorizontal { p0: &p, p1: &p });
    assert!(!s.is_solved());
    s.equations[0].solved = true;
    assert!(s.is_solved());
}

/// Runs a solve, working out each `Equal` equation by copying the other
/// argument's value.
fn solve_equalities(s: &mut ConstraintSolver) -> (bool, Vec<(usize, usize)>) {
    let (mut run, mut action) = s.start_solve();
    let mut asked = Vec::new();
    loop {
        match action {
            SolveAction::Finished(b) => return (b, asked),
            SolveAction::Compute { equation, unknown } => {
                asked.push((equation, unknown));
                let e = &s.equations[equation];
                assert_eq!(e.kind, EquationKind::Equal);
                let other = e.vars[1 - unknown];
                let value = s.vars[other].clone();
                action = s.resume_solve(&mut run, value);
            }
        }
    }
}

#[test]
fn solve_propagates_through_a_chain() {
    let mut s = ConstraintSolver::new();
    let a = s.add_var_value(7);
    let b = s.add_var();
    let c = s.add_var();
    // b = c first, then a = b: the first sweep skips b = c (two unknowns),
    // solves a = b, and the second sweep solves b = c.
    let p = Point::new(0, b);
    let q = Point::new(0, c);
    s.add_constraint(Constraint::PHorizontal { p0: &p, p1: &q });
    let r = Point::new(0, a);
    let t = Point::new(0, b);
    s.add_constraint(Constraint::PHorizontal { p0: &r, p1: &t });
    let (done, asked) = solve_equalities(&mut s);
    assert!(done);
    assert_eq!(asked, vec![(1, 1), (0, 1)]);
    assert_eq!(s.vars, vec![Variable::Value(7), Variable::Value(7), Variable::Value(7)]);
    assert!(s.equations.iter().all(|e| e.solved));
}

#[test]
fn solve_gets_stuck() {
    let mut s = ConstraintSolver::new();
    let b = s.add_var();
    let c = s.add_var();
    let p = Point::new(0, b);
    let q = Point::new(0, c);
    s.add_constraint(Constraint::PHorizontal { p0: &p, p1: &q });
    let (done, asked) = solve_equalities(&mut s);
    assert!(!done);
    assert!(asked.is_empty());
    assert_eq!(s.vars, vec![Variable::Unknown, Variable::Unknown]);
}

#[test]
fn solve_finishes_at_once_when_settled() {
    let mut s = ConstraintSolver::new();
    s.add_var_value(3);
    let (run, action) = s.start_solve();
    assert_eq!(action, SolveAction::Finished(true));
    assert!(run.progress);
}

#[test]
fn solved_equation_with_known_arguments_is_still_worked() {
    // An open equation whose arguments all have values is solved for
    // position 0.
    let mut s = ConstraintSolver::new();
    let a = s.add_var_value(1);
    let b = s.add_var_value(2);
    let p = Point::new(0, a);
    let q = Point::new(0, b);
    s.add_constraint(Constraint::PHorizontal { p0: &p, p1: &q });
    let (done, asked) = solve_equalities(&mut s);
    assert!(done);
    assert_eq!(asked, vec![(0, 0)]);
    assert_eq!(s.vars, vec![Variable::Value(2), Variable::Value(2)]);
}

fn step(kind: EquationKind, vars: Vec<usize>, unknown: usize) -> (StepKind, Vec<usize>) {
    let e = Equation { kind, vars, solved: false };
    let s = e.step(unknown);
    (s.kind, s.args)
}

#[test]
fn steps_for_order_equations() {
    let a = vec![10, 11];
    assert_eq!(step(EquationKind::Equal, a.clone(), 0), (StepKind::Copy, vec![11]));
    assert_eq!(step(EquationKind::Equal, a.clone(), 1), (StepKind::Copy, vec![10]));
    // Less: v0 < v1, so v0 lies below v1 and v1 above v0.
    assert_eq!(step(EquationKind::Less, a.clone(), 0), (StepKind::Below, vec![11]));
    assert_eq!(step(EquationKind::Less, a.clone(), 1), (StepKind::Above, vec![10]));
    // Greater: v0 > v1.
    assert_eq!(step(EquationKind::Greater, a.clone(), 0), (StepKind::Above, vec![11]));
    assert_eq!(step(EquationKind::Greater, a.clone(), 1), (StepKind::Below, vec![10]));
    assert_eq!(step(EquationKind::Equal, vec![10, 11, 12], 2), (StepKind::Keep, vec![]));
}

#[test]
fn steps_for_distance_equations() {
    let a: Vec<usize> = (20..28).collect();
    assert_eq!(
        step(EquationKind::EqualDistance, a.clone(), 0),
        (StepKind::OffsetFirst, vec![23, 21, 26, 24, 27, 25, 22])
    );
    assert_eq!(
        step(EquationKind::EqualDistance, a.clone(), 3),
        (StepKind::OffsetFirst, vec![22, 20, 26, 24, 27, 25, 21])
    );
    assert_eq!(
        step(EquationKind::EqualDistance, a.clone(), 5),
        (StepKind::OffsetSecond, vec![22, 20, 23, 21, 26, 24, 27])
    );
    assert_eq!(
        step(EquationKind::EqualDistance, a.clone(), 6),
        (StepKind::OffsetSecond, vec![22, 20, 23, 21, 27, 25, 24])
    );
    let d: Vec<usize> = (30..35).collect();
    assert_eq!(step(EquationKind::Distance, d.clone(), 1), (StepKind::OffsetDimension, vec![32, 30, 34, 33]));
    assert_eq!(step(EquationKind::Distance, d.clone(), 2), (StepKind::OffsetDimension, vec![33, 31, 34, 30]));
    assert_eq!(step(EquationKind::Distance, d.clone(), 4), (StepKind::Length, vec![30, 31, 32, 33]));
}

#[test]
fn step_reads_only_known_variables() {
    // The solver asks for the one unknown argument; the step then reads the
    // others, all of which have values.
    let mut s = ConstraintSolver::new();
    let p0 = s.add_point();
    let p1 = s.add_point();
    let d = s.add_var_value(5.0f32.to_bits());
    s.vars[p0.x] = Variable::Value(0);
    s.vars[p0.y] = Variable::Value(0);
    s.vars[p1.y] = Variable::Value(0);
    let l = Line::new(&p0, &p1);
    s.add_constraint(Constraint::LDimension { l: &l, d });
    let (_, action) = s.start_solve();
    assert_eq!(action, SolveAction::Compute { equation: 0, unknown: 2 });
    let st = s.equations[0].step(2);
    assert_eq!(st.kind, StepKind::OffsetDimension);
    assert_eq!(st.args, vec![p1.y, p0.y, d, p0.x]);
    assert!(st.args.iter().all(|v| matches!(s.vars[*v], Variable::Value(_))));
}

#[test]
fn candidates_narrow_to_a_variable() {
    assert_eq!(Variable::from_candidates(vec![]), Variable::Conflict);
    assert_eq!(Variable::from_candidates(vec![4]), Variable::Value(4));
    assert_eq!(Variable::from_candidates(vec![4, 5]), Variable::Candidates(vec![4, 5]));
}

#[test]
fn sweeps_are_counted() {
    let mut s = ConstraintSolver::new();
    let a = s.add_var_value(7);
    let b = s.add_var();
    let c = s.add_var();
    let p = Point::new(0, b);
    let q = Point::new(0, c);
    s.add_constraint(Constraint::PHorizontal { p0: &p, p1: &q });
    let r = Point::new(0, a);
    let t = Point::new(0, b);
    s.add_constraint(Constraint::PHorizontal { p0: &r, p1: &t });
    let (mut run, mut action) = s.start_solve();
    assert_eq!(run.passes, 1);
    let mut most = run.passes;
    while let SolveAction::Compute { equation, unknown } = action {
        let other = s.equations[equation].vars[1 - unknown];
        let value = s.vars[other].clone();
        action = s.resume_solve(&mut run, value);
        most = most.max(run.passes);
    }
    assert_eq!(action, SolveAction::Finished(true));
    // One sweep solves a = b, the next b = c; no more than open equations + 1.
    assert_eq!(most, 2);
    assert!(most <= 2 + 1);
}

#[test]
fn settled_sketch_begins_no_sweep() {
    let mut s = ConstraintSolver::new();
    s.add_var_value(3);
    let (run, _) = s.start_solve();
    assert_eq!(run.passes, 0);
}

#[test]
fn direction_with_both_ends_known_works_on_the_start() {
    // East with both x coordinates fixed: the equation is solved for its first
    // argument, the start's x, narrowed to lie below the end's x.
    let mut s = ConstraintSolver::new();
    let x0 = s.add_var_value(5.0f32.to_bits());
    let y0 = s.add_var_value(0);
    let x1 = s.add_var_value(3.0f32.to_bits());
    let y1 = s.add_var_value(0);
    let p0 = Point::new(x0, y0);
    let p1 = Point::new(x1, y1);
    let l = Line::new(&p0, &p1);
    s.add_constraint(Constraint::LEast { l: &l });
    let (_, action) = s.start_solve();
    assert_eq!(action, SolveAction::Compute { equation: 0, unknown: 0 });
    assert_eq!(s.equations[0].vars[0], x0);
    let st = s.equations[0].step(0);
    assert_eq!((st.kind, st.args), (StepKind::Below, vec![x1]));
}
