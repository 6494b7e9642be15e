//! The sketch constraint solver.
//!
//! A sketch is a set of variables (point coordinates and dimensions) and a set
//! of constraints between them.  Each constraint becomes one or more
//! equations over variable references.  Solving sweeps over the equations
//! again and again; an open equation whose arguments have at most one unknown
//! variable is solved for that variable, and the solve ends when a sweep makes
//! no progress or everything is settled.
//!
//! Working out an equation's value for its unknown is floating-point
//! arithmetic; the solver here decides which equation to work on next and
//! records each result, and the caller does the arithmetic in between (see
//! `SolveAction`).  Variable values are kept as the `u32` bit patterns of the
//! `f32` numbers they stand for.

use vstd::prelude::*;

verus! {

/// An index into the solver's variables.
pub type VarRef = usize;

/// What is known of a variable; numbers are `f32` bit patterns.
#[derive(Debug, Clone, PartialEq, Eq)]
pub enum Variable {
    Value(u32),
    Candidates(Vec<u32>),
    Range(u32, u32),
    Unknown,
    Conflict,
}

impl Variable {
    pub fn new() -> (v: Variable)
        ensures
            v is Unknown,
    {
        Variable::Unknown
    }

    /// A variable narrowed down to the numbers `ns`: a conflict when there are
    /// none, a value when there is one, and the candidates otherwise.
    pub fn from_candidates(ns: Vec<u32>) -> (v: Variable)
        ensures
            ns@.len() == 0 ==> v == Variable::Conflict,
            ns@.len() == 1 ==> v == Variable::Value(ns@[0]),
            ns@.len() >= 2 ==> (v matches Variable::Candidates(c) && c@ == ns@),
    {
        match ns.len() {
            0 => Variable::Conflict,
            1 => Variable::Value(ns[0]),
            _ => Variable::Candidates(ns),
        }
    }
}

/// The relation an equation states between its arguments `v0, v1, ...`.
#[derive(Debug, Clone, Copy, PartialEq, Eq)]
pub enum EquationKind {
    /// v0 - v1 = 0
    Equal,
    /// v0 - v1 > 0
    Greater,
    /// v0 - v1 < 0
    Less,
    /// (v2-v0)^2 + (v3-v1)^2 - (v6-v4)^2 - (v7-v5)^2 = 0
    EqualDistance,
    /// (v2-v0)^2 + (v3-v1)^2 - v4^2 = 0
    Distance,
}

/// An equation over variable references, and whether it has been solved.
#[derive(Debug)]
pub struct Equation {
    pub kind: EquationKind,
    pub vars: Vec<VarRef>,
    pub solved: bool,
}

/// The kinds of segment a polyline is made of.
#[derive(Debug, Clone, Copy, PartialEq, Eq)]
pub enum LineKind {
    Line,
    Arc,
}

/// A point: the variables of its two coordinates.
#[derive(Debug, Clone, Copy, PartialEq, Eq)]
pub struct Point {
    pub x: VarRef,
    pub y: VarRef,
}

impl Point {
    pub fn new(x: VarRef, y: VarRef) -> (p: Point)
        ensures
            p == (Point { x, y }),
    {
        Point { x, y }
    }
}

/// A line segment between two points.
#[derive(Debug, Clone, Copy)]
pub struct Line<'a> {
    pub p0: &'a Point,
    pub p1: &'a Point,
}

impl<'a> Line<'a> {
    pub fn new(p0: &'a Point, p1: &'a Point) -> (l: Line<'a>)
        ensures
            *l.p0 == *p0,
            *l.p1 == *p1,
    {
        Line { p0, p1 }
    }
}

/// A sketch constraint on lines or points.
///
/// A line runs from `p0` to `p1`; the point forms relate `p1` to `p0` the same
/// way (`PEast`: `p1` lies east of `p0`). The direction constraints become an
/// order equation with the start first: east, `p1.x - p0.x > 0`, is
/// `p0.x - p1.x < 0`, a `Less` over `[p0.x, p1.x]`.
pub enum Constraint<'a> {
    /// Both ends at one height: `p0.y = p1.y`.
    LHorizontal { l: &'a Line<'a> },
    /// Both ends at one x: `p0.x = p1.x`.
    LVertical { l: &'a Line<'a> },
    /// The line runs north: `p1.y - p0.y > 0`.
    LNorth { l: &'a Line<'a> },
    /// The line runs east: `p1.x - p0.x > 0`.
    LEast { l: &'a Line<'a> },
    /// The line runs south: `p1.y - p0.y < 0`.
    LSouth { l: &'a Line<'a> },
    /// The line runs west: `p1.x - p0.x < 0`.
    LWest { l: &'a Line<'a> },
    /// The two lines have equal lengths.
    LEqual { l0: &'a Line<'a>, l1: &'a Line<'a> },
    /// The line's length is the variable `d`.
    LDimension { l: &'a Line<'a>, d: VarRef },
    /// `p0.y = p1.y`.
    PHorizontal { p0: &'a Point, p1: &'a Point },
    /// `p0.x = p1.x`.
    PVertical { p0: &'a Point, p1: &'a Point },
    /// `p1.y - p0.y > 0`.
    PNorth { p0: &'a Point, p1: &'a Point },
    /// `p1.x - p0.x > 0`.
    PEast { p0: &'a Point, p1: &'a Point },
    /// `p1.y - p0.y < 0`.
    PSouth { p0: &'a Point, p1: &'a Point },
    /// `p1.x - p0.x < 0`.
    PWest { p0: &'a Point, p1: &'a Point },
    /// The points coincide.
    PEqual { p0: &'a Point, p1: &'a Point },
    /// The point's coordinates are the variables `x` and `y`.
    PDimension { p0: &'a Point, x: VarRef, y: VarRef },
}

/// The equations (kind and arguments) that a constraint stands for.
pub open spec fn constraint_equations(c: Constraint) -> Seq<(EquationKind, Seq<VarRef>)> {
    match c {
        Constraint::LHorizontal { l } => seq![(EquationKind::Equal, seq![l.p0.y, l.p1.y])],
        Constraint::LVertical { l } => seq![(EquationKind::Equal, seq![l.p0.x, l.p1.x])],
        Constraint::LNorth { l } => seq![(EquationKind::Less, seq![l.p0.y, l.p1.y])],
        Constraint::LEast { l } => seq![(EquationKind::Less, seq![l.p0.x, l.p1.x])],
        Constraint::LSouth { l } => seq![(EquationKind::Greater, seq![l.p0.y, l.p1.y])],
        Constraint::LWest { l } => seq![(EquationKind::Greater, seq![l.p0.x, l.p1.x])],
        Constraint::LEqual { l0, l1 } => seq![
            (
                EquationKind::EqualDistance,
                seq![l0.p0.x, l0.p0.y, l0.p1.x, l0.p1.y, l1.p0.x, l1.p0.y, l1.p1.x, l1.p1.y],
            ),
        ],
        Constraint::LDimension { l, d } => seq![
            (EquationKind::Distance, seq![l.p0.x, l.p0.y, l.p1.x, l.p1.y, d]),
        ],
        Constraint::PHorizontal { p0, p1 } => seq![(EquationKind::Equal, seq![p0.y, p1.y])],
        Constraint::PVertical { p0, p1 } => seq![(EquationKind::Equal, seq![p0.x, p1.x])],
        Constraint::PNorth { p0, p1 } => seq![(EquationKind::Less, seq![p0.y, p1.y])],
        Constraint::PEast { p0, p1 } => seq![(EquationKind::Less, seq![p0.x, p1.x])],
        Constraint::PSouth { p0, p1 } => seq![(EquationKind::Greater, seq![p0.y, p1.y])],
        Constraint::PWest { p0, p1 } => seq![(EquationKind::Greater, seq![p0.x, p1.x])],
        Constraint::PEqual { p0, p1 } => seq![
            (EquationKind::Equal, seq![p0.x, p1.x]),
            (EquationKind::Equal, seq![p0.y, p1.y]),
        ],
        Constraint::PDimension { p0, x, y } => seq![
            (EquationKind::Equal, seq![p0.x, x]),
            (EquationKind::Equal, seq![p0.y, y]),
        ],
    }
}

/// The equations of `eqs` are the open equations `spec` describes.
pub open spec fn equations_are(eqs: Seq<Equation>, spec: Seq<(EquationKind, Seq<VarRef>)>) -> bool {
    &&& eqs.len() == spec.len()
    &&& forall|i: int|
        0 <= i < eqs.len() ==> {
            &&& (#[trigger] eqs[i]).kind == spec[i].0
            &&& eqs[i].vars@ == spec[i].1
            &&& !eqs[i].solved
        }
}

fn equation(kind: EquationKind, vars: Vec<VarRef>) -> (e: Equation)
    ensures
        e.kind == kind,
        e.vars@ == vars@,
        !e.solved,
{
    Equation { kind, vars, solved: false }
}

impl<'a> Constraint<'a> {
    /// The open equations this constraint stands for.
    pub fn to_equations(&self) -> (eqs: Vec<Equation>)
        ensures
            equations_are(eqs@, constraint_equations(*self)),
    {
        match self {
            Constraint::LHorizontal { l } => vec![equation(EquationKind::Equal, vec![l.p0.y, l.p1.y])],
            Constraint::LVertical { l } => vec![equation(EquationKind::Equal, vec![l.p0.x, l.p1.x])],
            Constraint::LNorth { l } => vec![equation(EquationKind::Less, vec![l.p0.y, l.p1.y])],
            Constraint::LEast { l } => vec![equation(EquationKind::Less, vec![l.p0.x, l.p1.x])],
            Constraint::LSouth { l } => vec![equation(EquationKind::Greater, vec![l.p0.y, l.p1.y])],
            Constraint::LWest { l } => vec![equation(EquationKind::Greater, vec![l.p0.x, l.p1.x])],
            Constraint::LEqual { l0, l1 } => vec![
                equation(
                    EquationKind::EqualDistance,
                    vec![l0.p0.x, l0.p0.y, l0.p1.x, l0.p1.y, l1.p0.x, l1.p0.y, l1.p1.x, l1.p1.y],
                ),
            ],
            Constraint::LDimension { l, d } => vec![
                equation(EquationKind::Distance, vec![l.p0.x, l.p0.y, l.p1.x, l.p1.y, *d]),
            ],
            Constraint::PHorizontal { p0, p1 } => vec![equation(EquationKind::Equal, vec![p0.y, p1.y])],
            Constraint::PVertical { p0, p1 } => vec![equation(EquationKind::Equal, vec![p0.x, p1.x])],
            Constraint::PNorth { p0, p1 } => vec![equation(EquationKind::Less, vec![p0.y, p1.y])],
            Constraint::PEast { p0, p1 } => vec![equation(EquationKind::Less, vec![p0.x, p1.x])],
            Constraint::PSouth { p0, p1 } => vec![equation(EquationKind::Greater, vec![p0.y, p1.y])],
            Constraint::PWest { p0, p1 } => vec![equation(EquationKind::Greater, vec![p0.x, p1.x])],
            Constraint::PEqual { p0, p1 } => vec![
                equation(EquationKind::Equal, vec![p0.x, p1.x]),
                equation(EquationKind::Equal, vec![p0.y, p1.y]),
            ],
            Constraint::PDimension { p0, x, y } => vec![
                equation(EquationKind::Equal, vec![p0.x, *x]),
                equation(EquationKind::Equal, vec![p0.y, *y]),
            ],
        }
    }
}

} // verus!

verus! {

/// The positions among the first `n` arguments whose variable has no value yet.
pub open spec fn unknown_positions(args: Seq<VarRef>, vars: Seq<Variable>, n: int) -> Seq<int>
    decreases n,
{
    if n <= 0 {
        seq![]
    } else {
        let before = unknown_positions(args, vars, n - 1);
        if vars[args[n - 1] as int] is Value {
            before
        } else {
            before.push(n - 1)
        }
    }
}

/// The argument position an equation can be solved for: the position of its
/// only unknown argument, position 0 when none is unknown, and `None` when two
/// or more are.
pub open spec fn unknown_of(args: Seq<VarRef>, vars: Seq<Variable>) -> Option<usize> {
    let p = unknown_positions(args, vars, args.len() as int);
    if p.len() == 0 {
        Some(0)
    } else if p.len() == 1 {
        Some(p[0] as usize)
    } else {
        None
    }
}

/// Every equation has arguments, and every argument names an existing variable.
pub open spec fn args_wf(eqs: Seq<Equation>, nvars: int) -> bool {
    &&& forall|i: int| 0 <= i < eqs.len() ==> (#[trigger] eqs[i]).vars@.len() > 0
    &&& forall|i: int, k: int|
        0 <= i < eqs.len() && 0 <= k < eqs[i].vars@.len() ==> #[trigger] eqs[i].vars@[k] < nvars
}

/// Every equation is solved and every variable has a value.
pub open spec fn all_settled(eqs: Seq<Equation>, vars: Seq<Variable>) -> bool {
    &&& forall|i: int| 0 <= i < eqs.len() ==> (#[trigger] eqs[i]).solved
    &&& forall|j: int| 0 <= j < vars.len() ==> (#[trigger] vars[j]) is Value
}

/// An equation the sweep would work on: open, with a position to solve for.
pub open spec fn ready(e: Equation, vars: Seq<Variable>) -> bool {
    !e.solved && unknown_of(e.vars@, vars) is Some
}

/// The number of equations not yet solved.
pub open spec fn open_count(eqs: Seq<Equation>) -> nat
    decreases eqs.len(),
{
    if eqs.len() == 0 {
        0
    } else {
        open_count(eqs.drop_last()) + if eqs.last().solved { 0nat } else { 1nat }
    }
}

/// What the solver asks of its caller next.
#[derive(Debug, Clone, Copy, PartialEq, Eq)]
pub enum SolveAction {
    /// Work out the value of argument `unknown` of equation `equation`, and
    /// hand it back to `ConstraintSolver::resume_solve`.
    Compute { equation: usize, unknown: usize },
    /// The solve is over: `true` when every equation is solved and every
    /// variable has a value, `false` when a whole sweep found nothing to solve.
    Finished(bool),
}

/// Where a solve stands: the next equation of the current sweep, whether the
/// sweep has solved anything yet, and how many sweeps have begun.
#[derive(Debug, Clone, Copy, PartialEq, Eq)]
pub struct SolveRun {
    pub next: usize,
    pub progress: bool,
    pub passes: usize,
}

/// One more sweep counted (the count stops at `usize::MAX`).
pub open spec fn bump(passes: usize) -> usize {
    if passes < usize::MAX {
        (passes + 1) as usize
    } else {
        passes
    }
}

/// From sweep position `next` (with `progress` telling whether the sweep has
/// solved anything, and `passes` sweeps begun), the next thing the solve does:
/// work on the first ready equation at or after `next`; at the end of a sweep,
/// stop with `false` if it made no progress, stop with `true` if everything is
/// settled, and otherwise begin a new sweep from the start.
pub open spec fn next_action(eqs: Seq<Equation>, vars: Seq<Variable>, next: int, progress: bool, passes: usize) -> (
    SolveRun,
    SolveAction,
)
    decreases (if progress { 1int } else { 0int }), eqs.len() - next,
{
    if 0 <= next < eqs.len() {
        if ready(eqs[next], vars) {
            (
                SolveRun { next: next as usize, progress, passes },
                SolveAction::Compute {
                    equation: next as usize,
                    unknown: unknown_of(eqs[next].vars@, vars)->0,
                },
            )
        } else {
            next_action(eqs, vars, next + 1, progress, passes)
        }
    } else if !progress {
        (SolveRun { next: next as usize, progress, passes }, SolveAction::Finished(false))
    } else if all_settled(eqs, vars) {
        (SolveRun { next: next as usize, progress, passes }, SolveAction::Finished(true))
    } else {
        next_action(eqs, vars, 0, false, bump(passes))
    }
}

/// What bounds the sweeps a solve still has to begin: the sweeps begun, one
/// more while the current sweep has solved something, and the open equations.
/// It starts at most one above the open equations and never grows, so a solve
/// begins at most one sweep more than it had open equations.
pub open spec fn pass_measure(run: SolveRun, eqs: Seq<Equation>) -> int {
    run.passes + (if run.progress { 1int } else { 0int }) + open_count(eqs)
}

/// A sketch's variables and equations.
pub struct ConstraintSolver {
    pub vars: Vec<Variable>,
    pub equations: Vec<Equation>,
}

impl Equation {
    /// The argument position this equation can be solved for (see `unknown_of`).
    pub fn unknown(&self, vars: &Vec<Variable>) -> (res: Option<usize>)
        requires
            forall|k: int| 0 <= k < self.vars@.len() ==> #[trigger] self.vars@[k] < vars@.len(),
        ensures
            res == unknown_of(self.vars@, vars@),
    {
        let mut unknown: Option<usize> = Some(0);
        let mut count: usize = 0;
        let mut i: usize = 0;
        while i < self.vars.len()
            invariant
                forall|k: int| 0 <= k < self.vars@.len() ==> #[trigger] self.vars@[k] < vars@.len(),
                i <= self.vars@.len(),
                count == unknown_positions(self.vars@, vars@, i as int).len(),
                count <= 1,
                count == 0 ==> unknown == Some(0usize),
                count == 1 ==> unknown == Some(unknown_positions(self.vars@, vars@, i as int)[0] as usize),
                count == 1 ==> 0 <= unknown_positions(self.vars@, vars@, i as int)[0] < i,
            decreases self.vars@.len() - i,
        {
            let arg = self.vars[i];
            match vars[arg] {
                Variable::Value(_) => (),
                _ => {
                    if count > 0 {
                        proof {
                            lemma_unknown_positions_grow(self.vars@, vars@, i as int + 1, self.vars@.len() as int);
                        }
                        return None;
                    } else {
                        unknown = Some(i);
                        count = count + 1;
                    }
                },
            }
            i = i + 1;
        }
        unknown
    }
}

/// Looking at more arguments never forgets an unknown position.
proof fn lemma_unknown_positions_grow(args: Seq<VarRef>, vars: Seq<Variable>, m: int, n: int)
    requires
        0 <= m <= n,
    ensures
        unknown_positions(args, vars, m).len() <= unknown_positions(args, vars, n).len(),
    decreases n - m,
{
    if m < n {
        lemma_unknown_positions_grow(args, vars, m, n - 1);
    }
}

} // verus!

verus! {

impl ConstraintSolver {
    pub fn new() -> (s: ConstraintSolver)
        ensures
            s.vars@.len() == 0,
            s.equations@.len() == 0,
    {
        ConstraintSolver { vars: Vec::new(), equations: Vec::new() }
    }

    /// Adds an unknown variable and returns its reference.
    pub fn add_var(&mut self) -> (r: VarRef)
        ensures
            final(self).vars@ == old(self).vars@.push(Variable::Unknown),
            final(self).equations@ == old(self).equations@,
            r == old(self).vars@.len(),
    {
        self.vars.push(Variable::new());
        self.vars.len() - 1
    }

    /// Adds a variable holding the number with bit pattern `value` and returns
    /// its reference.
    pub fn add_var_value(&mut self, value: u32) -> (r: VarRef)
        ensures
            final(self).vars@ == old(self).vars@.push(Variable::Value(value)),
            final(self).equations@ == old(self).equations@,
            r == old(self).vars@.len(),
    {
        self.vars.push(Variable::Value(value));
        self.vars.len() - 1
    }

    /// Adds a point with two unknown coordinates.
    pub fn add_point(&mut self) -> (p: Point)
        ensures
            final(self).vars@ == old(self).vars@.push(Variable::Unknown).push(Variable::Unknown),
            final(self).equations@ == old(self).equations@,
            p == (Point { x: old(self).vars@.len() as usize, y: (old(self).vars@.len() + 1) as usize }),
    {
        self.vars.push(Variable::new());
        self.vars.push(Variable::new());
        let idx = self.vars.len();
        Point { x: idx - 2, y: idx - 1 }
    }

    /// Takes a polyline's segments; nothing is recorded for them yet.
    pub fn add_polyline(&mut self, pl: Vec<LineKind>)
        ensures
            final(self).vars@ == old(self).vars@,
            final(self).equations@ == old(self).equations@,
    {
        for line in pl {
            match line {
                LineKind::Arc => {},
                LineKind::Line => {},
            }
        }
    }

    /// Adds the equations of `constraint`, after those already there.
    pub fn add_constraint(&mut self, constraint: Constraint)
        ensures
            final(self).vars@ == old(self).vars@,
            final(self).equations@.len() == old(self).equations@.len() + constraint_equations(constraint).len(),
            final(self).equations@.subrange(0, old(self).equations@.len() as int) == old(self).equations@,
            equations_are(
                final(self).equations@.subrange(old(self).equations@.len() as int, final(self).equations@.len() as int),
                constraint_equations(constraint),
            ),
    {
        let mut new_eqs = constraint.to_equations();
        let ghost added = new_eqs@;
        self.equations.append(&mut new_eqs);
        assert(self.equations@.subrange(old(self).equations@.len() as int, self.equations@.len() as int) =~= added);
        assert(self.equations@.subrange(0, old(self).equations@.len() as int) =~= old(self).equations@);
    }

    /// Whether every equation is solved and every variable has a value.
    pub fn is_solved(&self) -> (b: bool)
        ensures
            b == all_settled(self.equations@, self.vars@),
    {
        let mut i: usize = 0;
        while i < self.equations.len()
            invariant
                i <= self.equations@.len(),
                forall|k: int| 0 <= k < i ==> (#[trigger] self.equations@[k]).solved,
            decreases self.equations@.len() - i,
        {
            if !self.equations[i].solved {
                return false;
            }
            i = i + 1;
        }
        let mut j: usize = 0;
        while j < self.vars.len()
            invariant
                j <= self.vars@.len(),
                forall|k: int| 0 <= k < self.equations@.len() ==> (#[trigger] self.equations@[k]).solved,
                forall|k: int| 0 <= k < j ==> (#[trigger] self.vars@[k]) is Value,
            decreases self.vars@.len() - j,
        {
            if let Variable::Value(_) = self.vars[j] {
            } else {
                return false;
            }
            j = j + 1;
        }
        true
    }

    /// Carries the solve on from `run` to the next thing to do.
    fn advance(&self, run: SolveRun) -> (res: (SolveRun, SolveAction))
        requires
            args_wf(self.equations@, self.vars@.len() as int),
            run.next <= self.equations@.len(),
        ensures
            res == next_action(self.equations@, self.vars@, run.next as int, run.progress, run.passes),
    {
        let ghost target = next_action(self.equations@, self.vars@, run.next as int, run.progress, run.passes);
        let mut next = run.next;
        let mut progress = run.progress;
        let mut passes = run.passes;
        loop
            invariant
                args_wf(self.equations@, self.vars@.len() as int),
                next <= self.equations@.len(),
                next_action(self.equations@, self.vars@, next as int, progress, passes) == target,
                target == next_action(self.equations@, self.vars@, run.next as int, run.progress, run.passes),
            decreases (if progress { 1int } else { 0int }), self.equations@.len() - next,
        {
            if next < self.equations.len() {
                let e = &self.equations[next];
                if !e.solved {
                    if let Some(u) = e.unknown(&self.vars) {
                        return (
                            SolveRun { next, progress, passes },
                            SolveAction::Compute { equation: next, unknown: u },
                        );
                    }
                }
                next = next + 1;
            } else if !progress {
                return (SolveRun { next, progress, passes }, SolveAction::Finished(false));
            } else if self.is_solved() {
                return (SolveRun { next, progress, passes }, SolveAction::Finished(true));
            } else {
                next = 0;
                progress = false;
                if passes < usize::MAX {
                    passes = passes + 1;
                }
            }
        }
    }

    /// Starts a solve: stops at once with `true` if everything is settled,
    /// otherwise begins the first sweep over the equations for one to work on.
    pub fn start_solve(&self) -> (res: (SolveRun, SolveAction))
        requires
            args_wf(self.equations@, self.vars@.len() as int),
        ensures
            res == next_action(self.equations@, self.vars@, self.equations@.len() as int, true, 0),
            pass_measure(res.0, self.equations@) <= open_count(self.equations@) + 1,
    {
        proof {
            lemma_pass_measure(self.equations@, self.vars@, self.equations@.len() as int, true, 0);
        }
        self.advance(SolveRun { next: self.equations.len(), progress: true, passes: 0 })
    }

    /// Records `value` as the new state of the variable that equation
    /// `run.next` is solved for, marks that equation solved, and carries the
    /// sweep on to the next thing to do.
    pub fn resume_solve(&mut self, run: &mut SolveRun, value: Variable) -> (a: SolveAction)
        requires
            args_wf(old(self).equations@, old(self).vars@.len() as int),
            old(run).next < old(self).equations@.len(),
            ready(old(self).equations@[old(run).next as int], old(self).vars@),
        ensures
            ({
                let e = old(self).equations@[old(run).next as int];
                let target = e.vars@[unknown_of(e.vars@, old(self).vars@)->0 as int];
                &&& final(self).vars@ == old(self).vars@.update(target as int, value)
                &&& final(self).equations@.len() == old(self).equations@.len()
                &&& forall|i: int|
                    0 <= i < final(self).equations@.len() ==> {
                        &&& (#[trigger] final(self).equations@[i]).kind == old(self).equations@[i].kind
                        &&& final(self).equations@[i].vars@ == old(self).equations@[i].vars@
                        &&& final(self).equations@[i].solved == (old(self).equations@[i].solved || i
                            == old(run).next)
                    }
                &&& (*final(run), a) == next_action(
                    final(self).equations@,
                    final(self).vars@,
                    old(run).next + 1,
                    true,
                    old(run).passes,
                )
                &&& args_wf(final(self).equations@, final(self).vars@.len() as int)
                &&& open_count(final(self).equations@) + 1 == open_count(old(self).equations@)
                &&& pass_measure(*final(run), final(self).equations@) <= pass_measure(
                    *old(run),
                    old(self).equations@,
                )
            }),
    {
        let n = run.next;
        let len = self.equations.len();
        assert(n + 1 <= len);
        let u = match self.equations[n].unknown(&self.vars) {
            Some(u) => u,
            None => {
                proof {
                    assert(false);
                }
                0
            },
        };
        proof {
            lemma_unknown_in_range(self.equations@[n as int].vars@, self.vars@);
        }
        let target = self.equations[n].vars[u];
        self.vars.set(target, value);
        let ghost before = self.equations@;
        self.set_solved(n);
        proof {
            lemma_open_count_solve(before, self.equations@, n as int);
        }
        proof {
            lemma_pass_measure(self.equations@, self.vars@, n + 1, true, run.passes);
        }
        let (r, a) = self.advance(SolveRun { next: n + 1, progress: true, passes: run.passes });
        *run = r;
        a
    }

    fn set_solved(&mut self, n: usize)
        requires
            n < old(self).equations@.len(),
        ensures
            final(self).vars@ == old(self).vars@,
            final(self).equations@.len() == old(self).equations@.len(),
            forall|i: int|
                0 <= i < final(self).equations@.len() ==> {
                    &&& (#[trigger] final(self).equations@[i]).kind == old(self).equations@[i].kind
                    &&& final(self).equations@[i].vars@ == old(self).equations@[i].vars@
                    &&& final(self).equations@[i].solved == (old(self).equations@[i].solved || i == n)
                },
    {
        let mut e = self.equations.remove(n);
        e.solved = true;
        self.equations.insert(n, e);
        assert forall|i: int| 0 <= i < self.equations@.len() implies {
            &&& (#[trigger] self.equations@[i]).kind == old(self).equations@[i].kind
            &&& self.equations@[i].vars@ == old(self).equations@[i].vars@
            &&& self.equations@[i].solved == (old(self).equations@[i].solved || i == n)
        } by {
            if i < n {
            } else if i > n {
            }
        }
    }
}

/// The position an equation is solved for is one of its argument positions
/// (or 0 for an equation with no arguments).
proof fn lemma_unknown_in_range(args: Seq<VarRef>, vars: Seq<Variable>)
    requires
        unknown_of(args, vars) is Some,
    ensures
        args.len() == 0 || unknown_of(args, vars)->0 < args.len(),
{
    lemma_positions_below(args, vars, args.len() as int);
}

proof fn lemma_positions_below(args: Seq<VarRef>, vars: Seq<Variable>, n: int)
    requires
        0 <= n,
    ensures
        forall|k: int|
            0 <= k < unknown_positions(args, vars, n).len() ==> 0 <= #[trigger] unknown_positions(
                args,
                vars,
                n,
            )[k] < n,
    decreases n,
{
    if n > 0 {
        lemma_positions_below(args, vars, n - 1);
        let p = unknown_positions(args, vars, n - 1);
        let q = unknown_positions(args, vars, n);
        assert forall|k: int| 0 <= k < q.len() implies 0 <= #[trigger] q[k] < n by {
            if k < p.len() {
                assert(q[k] == p[k]);
            }
        }
    }
}

/// Marking one open equation solved lowers the open count by one.
proof fn lemma_open_count_solve(eqs: Seq<Equation>, after: Seq<Equation>, n: int)
    requires
        0 <= n < eqs.len(),
        !eqs[n].solved,
        after.len() == eqs.len(),
        forall|i: int| 0 <= i < eqs.len() ==> (#[trigger] after[i]).solved == (eqs[i].solved || i == n),
    ensures
        open_count(after) + 1 == open_count(eqs),
    decreases eqs.len(),
{
    if n < eqs.len() - 1 {
        assert forall|i: int| 0 <= i < eqs.drop_last().len() implies (#[trigger] after.drop_last()[i]).solved == (
            eqs.drop_last()[i].solved || i == n) by {
            assert(after.drop_last()[i] == after[i]);
            assert(eqs.drop_last()[i] == eqs[i]);
        }
        lemma_open_count_solve(eqs.drop_last(), after.drop_last(), n);
    } else {
        assert forall|i: int| 0 <= i < eqs.drop_last().len() implies (#[trigger] eqs.drop_last()[i]).solved
            == after.drop_last()[i].solved by {
            assert(after.drop_last()[i] == after[i]);
            assert(eqs.drop_last()[i] == eqs[i]);
        }
        lemma_open_count_same(eqs.drop_last(), after.drop_last());
    }
}

proof fn lemma_open_count_same(a: Seq<Equation>, b: Seq<Equation>)
    requires
        a.len() == b.len(),
        forall|i: int| 0 <= i < a.len() ==> (#[trigger] a[i]).solved == b[i].solved,
    ensures
        open_count(a) == open_count(b),
    decreases a.len(),
{
    if a.len() > 0 {
        lemma_open_count_same(a.drop_last(), b.drop_last());
    }
}

} // verus!

verus! {

/// Carrying a solve on never raises the sweep bound: within a sweep nothing
/// it counts changes, and a new sweep is begun only after one that solved
/// something.
proof fn lemma_pass_measure(eqs: Seq<Equation>, vars: Seq<Variable>, k: int, progress: bool, passes: usize)
    requires
        0 <= k,
    ensures
        pass_measure(next_action(eqs, vars, k, progress, passes).0, eqs) <= passes + (if progress {
            1int
        } else {
            0int
        }) + open_count(eqs),
    decreases (if progress { 1int } else { 0int }), eqs.len() - k,
{
    if 0 <= k < eqs.len() {
        if !ready(eqs[k], vars) {
            lemma_pass_measure(eqs, vars, k + 1, progress, passes);
        }
    } else if progress && !all_settled(eqs, vars) {
        lemma_pass_measure(eqs, vars, 0, false, bump(passes));
    }
}

/// Law: a solve begins at most one sweep more than it had open equations.
/// `runs[0]` with `eqss[0]` is where `start_solve` leaves a solve, and each
/// later state is where `resume_solve` leaves the one before (each call keeps
/// the bound `pass_measure` from growing); then no state has begun more than
/// `open_count(eqss[0]) + 1` sweeps.
pub proof fn law_sweeps_bounded(runs: Seq<SolveRun>, eqss: Seq<Seq<Equation>>)
    requires
        runs.len() == eqss.len(),
        runs.len() > 0,
        pass_measure(runs[0], eqss[0]) <= open_count(eqss[0]) + 1,
        forall|i: int|
            0 < i < runs.len() ==> pass_measure(#[trigger] runs[i], eqss[i]) <= pass_measure(runs[i - 1], eqss[i - 1]),
    ensures
        forall|i: int| 0 <= i < runs.len() ==> (#[trigger] runs[i]).passes <= open_count(eqss[0]) + 1,
{
    assert forall|i: int| 0 <= i < runs.len() implies (#[trigger] runs[i]).passes <= open_count(eqss[0]) + 1 by {
        lemma_measure_chain(runs, eqss, i);
    }
}

/// The bound never grows along the chain.
proof fn lemma_measure_chain(runs: Seq<SolveRun>, eqss: Seq<Seq<Equation>>, i: int)
    requires
        runs.len() == eqss.len(),
        0 <= i < runs.len(),
        forall|j: int|
            0 < j < runs.len() ==> pass_measure(#[trigger] runs[j], eqss[j]) <= pass_measure(runs[j - 1], eqss[j - 1]),
    ensures
        pass_measure(runs[i], eqss[i]) <= pass_measure(runs[0], eqss[0]),
    decreases i,
{
    if i > 0 {
        lemma_measure_chain(runs, eqss, i - 1);
        assert(pass_measure(runs[i], eqss[i]) <= pass_measure(runs[i - 1], eqss[i - 1]));
    }
}

proof fn lemma_sweep_without_progress(eqs: Seq<Equation>, vars: Seq<Variable>, k: int, passes: usize)
    requires
        0 <= k <= eqs.len() <= usize::MAX,
    ensures
        match next_action(eqs, vars, k, false, passes).1 {
            SolveAction::Compute { equation, unknown } => {
                &&& k <= equation < eqs.len()
                &&& ready(eqs[equation as int], vars)
                &&& unknown_of(eqs[equation as int].vars@, vars) == Some(unknown)
            },
            SolveAction::Finished(b) => !b && forall|i: int| k <= i < eqs.len() ==> !ready(#[trigger] eqs[i], vars),
        },
    decreases eqs.len() - k,
{
    if k < eqs.len() && !ready(eqs[k], vars) {
        lemma_sweep_without_progress(eqs, vars, k + 1, passes);
        if next_action(eqs, vars, k, false, passes).1 is Finished {
            assert forall|i: int| k <= i < eqs.len() implies !ready(#[trigger] eqs[i], vars) by {
                if i > k {
                }
            }
        }
    }
}

proof fn lemma_sweep_with_progress(eqs: Seq<Equation>, vars: Seq<Variable>, k: int, passes: usize)
    requires
        0 <= k <= eqs.len() <= usize::MAX,
    ensures
        match next_action(eqs, vars, k, true, passes).1 {
            SolveAction::Compute { equation, unknown } => {
                &&& equation < eqs.len()
                &&& ready(eqs[equation as int], vars)
                &&& unknown_of(eqs[equation as int].vars@, vars) == Some(unknown)
            },
            SolveAction::Finished(b) => {
                &&& b == all_settled(eqs, vars)
                &&& !b ==> forall|i: int| 0 <= i < eqs.len() ==> !ready(#[trigger] eqs[i], vars)
            },
        },
    decreases eqs.len() - k,
{
    if k < eqs.len() {
        if !ready(eqs[k], vars) {
            lemma_sweep_with_progress(eqs, vars, k + 1, passes);
        }
    } else if !all_settled(eqs, vars) {
        lemma_sweep_without_progress(eqs, vars, 0, bump(passes));
    }
}

/// Law: from any point of a sweep in which something was solved (and so from
/// the start of a solve), the solver either asks for an equation that is open
/// and has at most one unknown argument, naming the position it is solved
/// for, or finishes; it finishes with `true` exactly when every equation is
/// solved and every variable has a value, and with `false` only when no open
/// equation can be solved.
pub proof fn law_solve_outcome(eqs: Seq<Equation>, vars: Seq<Variable>, k: int, passes: usize)
    requires
        0 <= k <= eqs.len() <= usize::MAX,
    ensures
        match next_action(eqs, vars, k, true, passes).1 {
            SolveAction::Compute { equation, unknown } => {
                &&& equation < eqs.len()
                &&& !eqs[equation as int].solved
                &&& unknown_of(eqs[equation as int].vars@, vars) == Some(unknown)
            },
            SolveAction::Finished(b) => {
                &&& b == all_settled(eqs, vars)
                &&& !b ==> forall|i: int|
                    0 <= i < eqs.len() && !(#[trigger] eqs[i]).solved ==> unknown_of(eqs[i].vars@, vars)
                        is None
            },
        },
{
    lemma_sweep_with_progress(eqs, vars, k, passes);
    if next_action(eqs, vars, k, true, passes).1 matches SolveAction::Finished(false) {
        assert forall|i: int| 0 <= i < eqs.len() && !(#[trigger] eqs[i]).solved implies unknown_of(
            eqs[i].vars@,
            vars,
        ) is None by {
            assert(!ready(eqs[i], vars));
        }
    }
}

} // verus!

verus! {

/// How the value of an equation's unknown is worked out, given the values of
/// the variables the step reads (`SolveStep::args`, in this order).
#[derive(Debug, Clone, Copy, PartialEq, Eq)]
pub enum StepKind {
    /// The unknown takes the value of the one variable read.
    Copy,
    /// The unknown is narrowed to the numbers above the one variable read.
    Above,
    /// The unknown is narrowed to the numbers below the one variable read.
    Below,
    /// Equal lengths, solved for a coordinate of the first line: the unknown is
    /// narrowed to `base ± r`, where `r` is worked out from the first six
    /// variables read and `base` is the seventh.
    OffsetFirst,
    /// Equal lengths, solved for a coordinate of the second line: as
    /// `OffsetFirst`, with the second line's formula.
    OffsetSecond,
    /// A dimension, solved for a coordinate: the unknown is narrowed to
    /// `base ± r`, where `r` is worked out from the first three variables read
    /// and `base` is the fourth.
    OffsetDimension,
    /// A dimension, solved for the length: the unknown takes the distance
    /// between the points `(v0, v1)` and `(v2, v3)` of the four variables read.
    Length,
    /// The unknown is left as it is.
    Keep,
}

/// What solving an equation for one of its argument positions takes.
#[derive(Debug)]
pub struct SolveStep {
    pub kind: StepKind,
    pub args: Vec<VarRef>,
}

/// The step that solves an equation of kind `kind` with arguments `a` for
/// argument position `u`.
pub open spec fn step_of(kind: EquationKind, a: Seq<VarRef>, u: int) -> (StepKind, Seq<VarRef>) {
    match kind {
        EquationKind::Equal => if u == 0 {
            (StepKind::Copy, seq![a[1]])
        } else if u == 1 {
            (StepKind::Copy, seq![a[0]])
        } else {
            (StepKind::Keep, seq![])
        },
        EquationKind::Less => if u == 0 {
            (StepKind::Below, seq![a[1]])
        } else if u == 1 {
            (StepKind::Above, seq![a[0]])
        } else {
            (StepKind::Keep, seq![])
        },
        EquationKind::Greater => if u == 0 {
            (StepKind::Above, seq![a[1]])
        } else if u == 1 {
            (StepKind::Below, seq![a[0]])
        } else {
            (StepKind::Keep, seq![])
        },
        EquationKind::EqualDistance => if u == 0 {
            (StepKind::OffsetFirst, seq![a[3], a[1], a[6], a[4], a[7], a[5], a[2]])
        } else if u == 1 {
            (StepKind::OffsetFirst, seq![a[2], a[0], a[6], a[4], a[7], a[5], a[3]])
        } else if u == 2 {
            (StepKind::OffsetFirst, seq![a[3], a[1], a[6], a[4], a[7], a[5], a[0]])
        } else if u == 3 {
            (StepKind::OffsetFirst, seq![a[2], a[0], a[6], a[4], a[7], a[5], a[1]])
        } else if u == 4 {
            (StepKind::OffsetSecond, seq![a[2], a[0], a[3], a[1], a[7], a[5], a[6]])
        } else if u == 5 {
            (StepKind::OffsetSecond, seq![a[2], a[0], a[3], a[1], a[6], a[4], a[7]])
        } else if u == 6 {
            (StepKind::OffsetSecond, seq![a[2], a[0], a[3], a[1], a[7], a[5], a[4]])
        } else if u == 7 {
            (StepKind::OffsetSecond, seq![a[2], a[0], a[3], a[1], a[6], a[4], a[5]])
        } else {
            (StepKind::Keep, seq![])
        },
        EquationKind::Distance => if u == 0 {
            (StepKind::OffsetDimension, seq![a[3], a[1], a[4], a[2]])
        } else if u == 1 {
            (StepKind::OffsetDimension, seq![a[2], a[0], a[4], a[3]])
        } else if u == 2 {
            (StepKind::OffsetDimension, seq![a[3], a[1], a[4], a[0]])
        } else if u == 3 {
            (StepKind::OffsetDimension, seq![a[2], a[0], a[4], a[1]])
        } else if u == 4 {
            (StepKind::Length, seq![a[0], a[1], a[2], a[3]])
        } else {
            (StepKind::Keep, seq![])
        },
    }
}

/// How many arguments solving an equation of kind `kind` for position `u`
/// reads from: every argument of its kind, or none when `u` is past them.
pub open spec fn args_needed(kind: EquationKind, u: int) -> int {
    let n = match kind {
        EquationKind::Equal | EquationKind::Less | EquationKind::Greater => 2int,
        EquationKind::EqualDistance => 8int,
        EquationKind::Distance => 5int,
    };
    if u < n {
        n
    } else {
        0
    }
}

impl Equation {
    /// The step that solves this equation for argument position `unknown`.
    pub fn step(&self, unknown: usize) -> (s: SolveStep)
        requires
            args_needed(self.kind, unknown as int) <= self.vars@.len(),
        ensures
            (s.kind, s.args@) == step_of(self.kind, self.vars@, unknown as int),
    {
        let a = &self.vars;
        let (kind, args) = match self.kind {
            EquationKind::Equal => match unknown {
                0 => (StepKind::Copy, vec![a[1]]),
                1 => (StepKind::Copy, vec![a[0]]),
                _ => (StepKind::Keep, vec![]),
            },
            EquationKind::Less => match unknown {
                0 => (StepKind::Below, vec![a[1]]),
                1 => (StepKind::Above, vec![a[0]]),
                _ => (StepKind::Keep, vec![]),
            },
            EquationKind::Greater => match unknown {
                0 => (StepKind::Above, vec![a[1]]),
                1 => (StepKind::Below, vec![a[0]]),
                _ => (StepKind::Keep, vec![]),
            },
            EquationKind::EqualDistance => match unknown {
                0 => (StepKind::OffsetFirst, vec![a[3], a[1], a[6], a[4], a[7], a[5], a[2]]),
                1 => (StepKind::OffsetFirst, vec![a[2], a[0], a[6], a[4], a[7], a[5], a[3]]),
                2 => (StepKind::OffsetFirst, vec![a[3], a[1], a[6], a[4], a[7], a[5], a[0]]),
                3 => (StepKind::OffsetFirst, vec![a[2], a[0], a[6], a[4], a[7], a[5], a[1]]),
                4 => (StepKind::OffsetSecond, vec![a[2], a[0], a[3], a[1], a[7], a[5], a[6]]),
                5 => (StepKind::OffsetSecond, vec![a[2], a[0], a[3], a[1], a[6], a[4], a[7]]),
                6 => (StepKind::OffsetSecond, vec![a[2], a[0], a[3], a[1], a[7], a[5], a[4]]),
                7 => (StepKind::OffsetSecond, vec![a[2], a[0], a[3], a[1], a[6], a[4], a[5]]),
                _ => (StepKind::Keep, vec![]),
            },
            EquationKind::Distance => match unknown {
                0 => (StepKind::OffsetDimension, vec![a[3], a[1], a[4], a[2]]),
                1 => (StepKind::OffsetDimension, vec![a[2], a[0], a[4], a[3]]),
                2 => (StepKind::OffsetDimension, vec![a[3], a[1], a[4], a[0]]),
                3 => (StepKind::OffsetDimension, vec![a[2], a[0], a[4], a[1]]),
                4 => (StepKind::Length, vec![a[0], a[1], a[2], a[3]]),
                _ => (StepKind::Keep, vec![]),
            },
        };
        SolveStep { kind, args }
    }
}

} // verus!

verus! {

/// An argument position whose variable has no value is among the unknown
/// positions.
proof fn lemma_unknown_listed(args: Seq<VarRef>, vars: Seq<Variable>, n: int, p: int)
    requires
        0 <= p < n,
        !(vars[args[p] as int] is Value),
    ensures
        unknown_positions(args, vars, n).contains(p),
    decreases n,
{
    if p < n - 1 {
        lemma_unknown_listed(args, vars, n - 1, p);
        let before = unknown_positions(args, vars, n - 1);
        let i = choose|i: int| 0 <= i < before.len() && before[i] == p;
        if !(vars[args[n - 1] as int] is Value) {
            assert(unknown_positions(args, vars, n)[i] == p);
        }
    } else {
        let before = unknown_positions(args, vars, n - 1);
        assert(unknown_positions(args, vars, n)[before.len() as int] == p);
    }
}

/// When an equation can be solved for position `u`, every other argument
/// already has a value.
proof fn lemma_others_known(args: Seq<VarRef>, vars: Seq<Variable>, p: int)
    requires
        unknown_of(args, vars) is Some,
        args.len() <= usize::MAX,
        0 <= p < args.len(),
        p != unknown_of(args, vars)->0 as int,
    ensures
        vars[args[p] as int] is Value,
{
    if !(vars[args[p] as int] is Value) {
        let n = args.len() as int;
        lemma_unknown_listed(args, vars, n, p);
        lemma_positions_below(args, vars, n);
        let list = unknown_positions(args, vars, n);
        let i = choose|i: int| 0 <= i < list.len() && list[i] == p;
        assert(list.len() == 1 && i == 0);
        assert(0 <= list[0] < n);
        assert(unknown_of(args, vars)->0 as int == list[0]);
    }
}

/// Law: when the solver asks for an equation's unknown, every variable the
/// step reads already has a value, so the step works from known numbers only.
pub proof fn law_step_reads_known(kind: EquationKind, args: Seq<VarRef>, vars: Seq<Variable>)
    requires
        args.len() <= usize::MAX,
        unknown_of(args, vars) is Some,
        args_needed(kind, unknown_of(args, vars)->0 as int) <= args.len(),
    ensures
        forall|j: int|
            0 <= j < step_of(kind, args, unknown_of(args, vars)->0 as int).1.len() ==> vars[#[trigger] step_of(
                kind,
                args,
                unknown_of(args, vars)->0 as int,
            ).1[j] as int] is Value,
{
    let u = unknown_of(args, vars)->0 as int;
    let reads = step_of(kind, args, u).1;
    assert forall|j: int| 0 <= j < reads.len() implies vars[#[trigger] reads[j] as int] is Value by {
        let p: int = if kind is Equal || kind is Less || kind is Greater {
            if u == 0 { 1 } else { 0 }
        } else if kind is EqualDistance {
            if u < 4 {
                if u % 2 == 0 {
                    seq![3int, 1, 6, 4, 7, 5, if u == 0 { 2int } else { 0 }][j]
                } else {
                    seq![2int, 0, 6, 4, 7, 5, if u == 1 { 3int } else { 1 }][j]
                }
            } else if u == 4 || u == 6 {
                seq![2int, 0, 3, 1, 7, 5, if u == 4 { 6int } else { 4 }][j]
            } else {
                seq![2int, 0, 3, 1, 6, 4, if u == 5 { 7int } else { 5 }][j]
            }
        } else {
            if u == 4 {
                j
            } else if u % 2 == 0 {
                seq![3int, 1, 4, if u == 0 { 2int } else { 0 }][j]
            } else {
                seq![2int, 0, 4, if u == 1 { 3int } else { 1 }][j]
            }
        };
        assert(reads[j] == args[p]);
        lemma_others_known(args, vars, p);
    }
}

} // verus!

verus! {

/// Law: solving an equation for one argument reads the arguments its meaning
/// calls for.
/// - `Equal` copies the other argument; `Less` (v0 < v1) puts v0 below v1 and
///   v1 above v0; `Greater` the other way round.
/// - `Distance` ((v2-v0)^2 + (v3-v1)^2 = v4^2), solved for a coordinate of one
///   end, offsets from the same coordinate of the other end, by an amount
///   worked out from the other coordinate of both ends and the length; solved
///   for the length, it reads the four coordinates.
/// - `EqualDistance` does the same for a coordinate of either line, with the
///   other line's coordinates.
/// - Past an equation's arguments nothing is read and the unknown is kept.
pub proof fn law_step_reads_the_right_arguments(kind: EquationKind, a: Seq<VarRef>, u: int)
    requires
        0 <= u,
        args_needed(kind, u) <= a.len(),
    ensures
        ({
            let (k, r) = step_of(kind, a, u);
            let o = 1 - u % 2;
            match kind {
                EquationKind::Equal => if u < 2 {
                    k == StepKind::Copy && r == seq![a[1 - u]]
                } else {
                    k == StepKind::Keep && r.len() == 0
                },
                EquationKind::Less => if u < 2 {
                    k == (if u == 0 { StepKind::Below } else { StepKind::Above }) && r == seq![a[1 - u]]
                } else {
                    k == StepKind::Keep && r.len() == 0
                },
                EquationKind::Greater => if u < 2 {
                    k == (if u == 0 { StepKind::Above } else { StepKind::Below }) && r == seq![a[1 - u]]
                } else {
                    k == StepKind::Keep && r.len() == 0
                },
                EquationKind::Distance => if u < 4 {
                    k == StepKind::OffsetDimension && r == seq![a[2 + o], a[o], a[4], a[(u + 2) % 4]]
                } else if u == 4 {
                    k == StepKind::Length && r == a.subrange(0, 4)
                } else {
                    k == StepKind::Keep && r.len() == 0
                },
                EquationKind::EqualDistance => if u < 4 {
                    k == StepKind::OffsetFirst && r == seq![a[2 + o], a[o], a[6], a[4], a[7], a[5], a[(u + 2) % 4]]
                } else if u < 8 {
                    k == StepKind::OffsetSecond && r == seq![
                        a[2],
                        a[0],
                        a[3],
                        a[1],
                        a[6 + o],
                        a[4 + o],
                        a[4 + (u - 2) % 4],
                    ]
                } else {
                    k == StepKind::Keep && r.len() == 0
                },
            }
        }),
{
    let r = step_of(kind, a, u).1;
    if kind is Distance && u == 4 {
        assert(r =~= a.subrange(0, 4));
    }
}

} // verus!

verus! {

/// Whether equation `kind` over arguments `a` holds when each variable `v`
/// has the number `val(v)`, as its kind documents it.
pub open spec fn equation_holds(kind: EquationKind, a: Seq<VarRef>, val: spec_fn(VarRef) -> int) -> bool {
    match kind {
        EquationKind::Equal => val(a[0]) - val(a[1]) == 0,
        EquationKind::Greater => val(a[0]) - val(a[1]) > 0,
        EquationKind::Less => val(a[0]) - val(a[1]) < 0,
        EquationKind::EqualDistance => (val(a[2]) - val(a[0])) * (val(a[2]) - val(a[0])) + (val(a[3]) - val(a[1])) * (
        val(a[3]) - val(a[1])) - (val(a[6]) - val(a[4])) * (val(a[6]) - val(a[4])) - (val(a[7]) - val(a[5])) * (val(
            a[7],
        ) - val(a[5])) == 0,
        EquationKind::Distance => (val(a[2]) - val(a[0])) * (val(a[2]) - val(a[0])) + (val(a[3]) - val(a[1])) * (val(
            a[3],
        ) - val(a[1])) - val(a[4]) * val(a[4]) == 0,
    }
}

/// Whether every equation of `eqs` holds under `val`.
pub open spec fn all_hold(eqs: Seq<(EquationKind, Seq<VarRef>)>, val: spec_fn(VarRef) -> int) -> bool {
    forall|i: int| 0 <= i < eqs.len() ==> equation_holds(#[trigger] eqs[i].0, eqs[i].1, val)
}

/// The squared length of the line from `p` to `q` under `val`.
pub open spec fn length_sq(p: Point, q: Point, val: spec_fn(VarRef) -> int) -> int {
    (val(q.x) - val(p.x)) * (val(q.x) - val(p.x)) + (val(q.y) - val(p.y)) * (val(q.y) - val(p.y))
}

/// What a constraint asks of the sketch when each variable `v` has the number
/// `val(v)`: a line runs from `p0` to `p1`, and a point form relates `p1` to
/// `p0` (horizontal: same y; vertical: same x; north: `p1` higher; east:
/// `p1` further right; south and west the other way; equal: same length or
/// same point; dimension: the length, or the coordinates, given).
pub open spec fn constraint_means(c: Constraint, val: spec_fn(VarRef) -> int) -> bool {
    match c {
        Constraint::LHorizontal { l } => val(l.p0.y) == val(l.p1.y),
        Constraint::LVertical { l } => val(l.p0.x) == val(l.p1.x),
        Constraint::LNorth { l } => val(l.p1.y) - val(l.p0.y) > 0,
        Constraint::LEast { l } => val(l.p1.x) - val(l.p0.x) > 0,
        Constraint::LSouth { l } => val(l.p1.y) - val(l.p0.y) < 0,
        Constraint::LWest { l } => val(l.p1.x) - val(l.p0.x) < 0,
        Constraint::LEqual { l0, l1 } => length_sq(*l0.p0, *l0.p1, val) == length_sq(*l1.p0, *l1.p1, val),
        Constraint::LDimension { l, d } => length_sq(*l.p0, *l.p1, val) == val(d) * val(d),
        Constraint::PHorizontal { p0, p1 } => val(p0.y) == val(p1.y),
        Constraint::PVertical { p0, p1 } => val(p0.x) == val(p1.x),
        Constraint::PNorth { p0, p1 } => val(p1.y) - val(p0.y) > 0,
        Constraint::PEast { p0, p1 } => val(p1.x) - val(p0.x) > 0,
        Constraint::PSouth { p0, p1 } => val(p1.y) - val(p0.y) < 0,
        Constraint::PWest { p0, p1 } => val(p1.x) - val(p0.x) < 0,
        Constraint::PEqual { p0, p1 } => val(p0.x) == val(p1.x) && val(p0.y) == val(p1.y),
        Constraint::PDimension { p0, x, y } => val(p0.x) == val(x) && val(p0.y) == val(y),
    }
}

/// Law: the equations a constraint becomes hold, under any values of the
/// variables, exactly when the constraint itself holds.
pub proof fn law_equations_mean_the_constraint(c: Constraint, val: spec_fn(VarRef) -> int)
    ensures
        all_hold(constraint_equations(c), val) <==> constraint_means(c, val),
{
    let eqs = constraint_equations(c);
    if eqs.len() == 1 {
        if all_hold(eqs, val) {
            assert(equation_holds(eqs[0].0, eqs[0].1, val));
        }
        if constraint_means(c, val) {
            assert forall|i: int| 0 <= i < eqs.len() implies equation_holds(#[trigger] eqs[i].0, eqs[i].1, val) by {
                assert(i == 0);
            }
        }
    } else {
        if all_hold(eqs, val) {
            assert(equation_holds(eqs[0].0, eqs[0].1, val));
            assert(equation_holds(eqs[1].0, eqs[1].1, val));
        }
        if constraint_means(c, val) {
            assert forall|i: int| 0 <= i < eqs.len() implies equation_holds(#[trigger] eqs[i].0, eqs[i].1, val) by {
                assert(i == 0 || i == 1);
            }
        }
    }
}

} // verus!

verus! {

/// The unknown positions are increasing and each names an argument without a
/// value.
proof fn lemma_positions_unknown(args: Seq<VarRef>, vars: Seq<Variable>, n: int)
    requires
        0 <= n <= args.len(),
    ensures
        forall|k: int|
            0 <= k < unknown_positions(args, vars, n).len() ==> {
                let p = #[trigger] unknown_positions(args, vars, n)[k];
                0 <= p < n && !(vars[args[p] as int] is Value)
            },
        forall|j: int, k: int|
            0 <= j < k < unknown_positions(args, vars, n).len() ==> #[trigger] unknown_positions(args, vars, n)[j]
                < #[trigger] unknown_positions(args, vars, n)[k],
    decreases n,
{
    if n > 0 {
        lemma_positions_unknown(args, vars, n - 1);
        let p = unknown_positions(args, vars, n - 1);
        let q = unknown_positions(args, vars, n);
        assert forall|k: int| 0 <= k < q.len() implies {
            let x = #[trigger] q[k];
            0 <= x < n && !(vars[args[x] as int] is Value)
        } by {
            if k < p.len() {
                assert(q[k] == p[k]);
            }
        }
        assert forall|j: int, k: int| 0 <= j < k < q.len() implies #[trigger] q[j] < #[trigger] q[k] by {
            assert(q[j] == p[j]);
            if k < p.len() {
                assert(q[k] == p[k]);
            }
        }
    }
}

/// Law: from the start of a solve (`k` the number of equations) and after
/// each step (`k` just past the equation solved), the solver asks for an
/// equation only when it is open and every
/// argument but the one it is solved for already has a value; it finishes with
/// `true` only when every equation is solved and every variable has a value,
/// and with `false` only when that is not so and every open equation has two
/// arguments without a value.
pub proof fn law_solver_asks_at_one_unknown(eqs: Seq<Equation>, vars: Seq<Variable>, k: int, passes: usize)
    requires
        0 <= k <= eqs.len(),
        eqs.len() <= usize::MAX,
        forall|i: int| 0 <= i < eqs.len() ==> (#[trigger] eqs[i]).vars@.len() <= usize::MAX,
    ensures
        match next_action(eqs, vars, k, true, passes).1 {
            SolveAction::Compute { equation, unknown } => {
                let a = eqs[equation as int].vars@;
                &&& equation < eqs.len()
                &&& !eqs[equation as int].solved
                &&& (a.len() == 0 || unknown < a.len())
                &&& forall|p: int| 0 <= p < a.len() && p != unknown ==> vars[#[trigger] a[p] as int] is Value
            },
            SolveAction::Finished(true) => {
                &&& forall|i: int| 0 <= i < eqs.len() ==> (#[trigger] eqs[i]).solved
                &&& forall|v: int| 0 <= v < vars.len() ==> (#[trigger] vars[v]) is Value
            },
            SolveAction::Finished(false) => {
                &&& !((forall|i: int| 0 <= i < eqs.len() ==> (#[trigger] eqs[i]).solved) && (forall|v: int|
                    0 <= v < vars.len() ==> (#[trigger] vars[v]) is Value))
                &&& forall|i: int|
                    0 <= i < eqs.len() && !(#[trigger] eqs[i]).solved ==> exists|p: int, q: int|
                        0 <= p < q < eqs[i].vars@.len() && !(vars[eqs[i].vars@[p] as int] is Value) && !(
                        vars[eqs[i].vars@[q] as int] is Value)
            },
        },
{
    law_solve_outcome(eqs, vars, k, passes);
    match next_action(eqs, vars, k, true, passes).1 {
        SolveAction::Compute { equation, unknown } => {
            let a = eqs[equation as int].vars@;
            lemma_unknown_in_range(a, vars);
            assert forall|p: int| 0 <= p < a.len() && p != unknown implies vars[#[trigger] a[p] as int] is Value by {
                lemma_others_known(a, vars, p);
            }
        },
        SolveAction::Finished(false) => {
            assert forall|i: int| 0 <= i < eqs.len() && !(#[trigger] eqs[i]).solved implies exists|p: int, q: int|
                0 <= p < q < eqs[i].vars@.len() && !(vars[eqs[i].vars@[p] as int] is Value) && !(
                vars[eqs[i].vars@[q] as int] is Value) by {
                let a = eqs[i].vars@;
                lemma_positions_unknown(a, vars, a.len() as int);
                let l = unknown_positions(a, vars, a.len() as int);
                assert(l.len() >= 2);
                let (p, q) = (l[0], l[1]);
                assert(0 <= p < q < a.len());
                assert(!(vars[a[p] as int] is Value) && !(vars[a[q] as int] is Value));
            }
        },
        _ => {},
    }
}

} // verus!
