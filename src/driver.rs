//! The animation driver: a state machine that a periodic timer advances one
//! tick at a time. Each iteration turns a copy of the curve a little further
//! per tick, then merges it into the curve; after the last merge it reports
//! completion once and stays still.
use vstd::prelude::*;
use crate::curve::{
    copy_points, dragon, lemma_dragon_shape, lemma_pow3_fits, lemma_within_weaken, next_curve,
    next_iteration, pow3, reversed_body, reversed_body_of, Point, COORD_LIMIT,
};

verus! {

/// A full turn of the copy, in thousandths.
pub const PROGRESS_FULL: u32 = 1000;

/// How far one tick turns the copy, in thousandths of a full turn.
pub const PROGRESS_STEP: u32 = 40;

/// The largest number of animated iterations a driver takes: its final merge
/// still builds a curve within `MAX_DEPTH` steps.
pub const MAX_ITERATIONS: u64 = 38;

/// Where the driver stands: not yet started, animating, or finished for good.
#[derive(Clone, Copy, Debug, PartialEq, Eq, Structural)]
pub enum Phase {
    Idle,
    Animating,
    Finished,
}

/// What a tick did.
#[derive(Clone, Copy, Debug, PartialEq, Eq, Structural)]
pub enum TickEvent {
    /// Nothing: the driver is idle or finished.
    Waiting,
    /// The copy turned one step further.
    Turned,
    /// The copy was merged and the next iteration began.
    Merged,
    /// The last copy was merged: the animation is complete.
    Completed,
}

/// The driver's state as mathematics.
pub struct AnimationModel {
    pub points: Seq<Point>,
    pub iteration: nat,
    pub progress: nat,
    pub phase: Phase,
    pub max_iterations: nat,
}

/// How many merge steps the curve of `s` has had.
pub open spec fn merges(s: AnimationModel) -> nat {
    if s.phase == Phase::Finished {
        s.iteration + 1
    } else {
        s.iteration
    }
}

/// The driver's invariant: the curve is the seed merged once per completed
/// iteration (once more when finished), progress stays within a full turn, and
/// the iteration count stays within the configured bound.
pub open spec fn model_wf(s: AnimationModel) -> bool {
    &&& s.max_iterations <= MAX_ITERATIONS
    &&& s.iteration <= s.max_iterations
    &&& s.progress <= PROGRESS_FULL
    &&& s.points == dragon(merges(s))
    &&& s.phase == Phase::Idle ==> s.iteration == 0 && s.progress == 0
    &&& s.phase == Phase::Finished ==> s.iteration == s.max_iterations && s.progress
        == PROGRESS_FULL
}

/// A driver that has not started, with the two-point seed.
pub open spec fn initial(max_iterations: nat) -> AnimationModel {
    AnimationModel {
        points: crate::curve::seed(),
        iteration: 0,
        progress: 0,
        phase: Phase::Idle,
        max_iterations,
    }
}

/// Starting an idle driver sets it animating; anything else stays as it is.
pub open spec fn started(s: AnimationModel) -> AnimationModel {
    if s.phase == Phase::Idle {
        AnimationModel { phase: Phase::Animating, ..s }
    } else {
        s
    }
}

/// `p` advanced by one step, clamped to a full turn.
pub open spec fn advanced(p: nat) -> nat {
    if p + PROGRESS_STEP >= PROGRESS_FULL {
        PROGRESS_FULL as nat
    } else {
        (p + PROGRESS_STEP) as nat
    }
}

/// One tick: the next state and what happened.
pub open spec fn step(s: AnimationModel) -> (AnimationModel, TickEvent) {
    if s.phase != Phase::Animating {
        (s, TickEvent::Waiting)
    } else if s.progress < PROGRESS_FULL {
        (AnimationModel { progress: advanced(s.progress), ..s }, TickEvent::Turned)
    } else if s.iteration < s.max_iterations {
        (
            AnimationModel {
                points: next_curve(s.points),
                iteration: s.iteration + 1,
                progress: 0,
                ..s
            },
            TickEvent::Merged,
        )
    } else {
        (
            AnimationModel { points: next_curve(s.points), phase: Phase::Finished, ..s },
            TickEvent::Completed,
        )
    }
}

/// The state after `n` ticks from `s`.
pub open spec fn run(s: AnimationModel, n: nat) -> AnimationModel
    decreases n,
{
    if n == 0 {
        s
    } else {
        step(run(s, (n - 1) as nat)).0
    }
}

/// How many of the first `n` ticks from `s` reported completion.
pub open spec fn completions(s: AnimationModel, n: nat) -> nat
    decreases n,
{
    if n == 0 {
        0
    } else {
        completions(s, (n - 1) as nat) + if step(run(s, (n - 1) as nat)).1
            == TickEvent::Completed {
            1nat
        } else {
            0nat
        }
    }
}

/// What to draw for one frame.
pub enum Frame {
    /// The curve alone.
    Still { points: Vec<Point> },
    /// The curve, and `copy` turned about `pivot` by `progress` thousandths of a
    /// quarter turn and drawn after it.
    Turning { points: Vec<Point>, copy: Vec<Point>, pivot: Point, progress: u32 },
}

/// The state of one dragon-curve animation.
pub struct DragonState {
    points: Vec<Point>,
    iteration: u64,
    progress: u32,
    phase: Phase,
    max_iterations: u64,
}

impl View for DragonState {
    type V = AnimationModel;

    closed spec fn view(&self) -> AnimationModel {
        AnimationModel {
            points: self.points@,
            iteration: self.iteration as nat,
            progress: self.progress as nat,
            phase: self.phase,
            max_iterations: self.max_iterations as nat,
        }
    }
}

impl DragonState {
    /// See `model_wf`.
    pub open spec fn wf(&self) -> bool {
        model_wf(self@)
    }

    /// An idle driver with the seed `(0, 0), (1, 0)` that animates
    /// `max_iterations` iterations before its final merge.
    pub fn new(max_iterations: u64) -> (r: DragonState)
        requires
            max_iterations <= MAX_ITERATIONS,
        ensures
            r@ == initial(max_iterations as nat),
            r.wf(),
    {
        let points = vec![Point::new(0, 0), Point::new(1, 0)];
        let r = DragonState { points, iteration: 0, progress: 0, phase: Phase::Idle, max_iterations };
        assert(r@.points =~= crate::curve::seed());
        r
    }

    /// Sets an idle driver animating.
    pub fn start(&mut self)
        requires
            old(self).wf(),
        ensures
            final(self)@ == started(old(self)@),
            final(self).wf(),
    {
        if self.phase == Phase::Idle {
            self.phase = Phase::Animating;
        }
    }

    /// Advances the animation by one tick.
    pub fn tick(&mut self) -> (r: TickEvent)
        requires
            old(self).wf(),
        ensures
            (final(self)@, r) == step(old(self)@),
            final(self).wf(),
    {
        if self.phase != Phase::Animating {
            return TickEvent::Waiting;
        }
        if self.progress < PROGRESS_FULL {
            let p = self.progress + PROGRESS_STEP;
            self.progress = if p >= PROGRESS_FULL {
                PROGRESS_FULL
            } else {
                p
            };
            return TickEvent::Turned;
        }
        proof {
            lemma_dragon_shape(self.iteration as nat);
            lemma_pow3_fits(self.iteration as nat);
            lemma_within_weaken(self.points@, pow3(self.iteration as nat), COORD_LIMIT as int);
        }
        self.points = next_iteration(&self.points);
        if self.iteration < self.max_iterations {
            self.iteration = self.iteration + 1;
            self.progress = 0;
            TickEvent::Merged
        } else {
            self.phase = Phase::Finished;
            TickEvent::Completed
        }
    }

    /// What to draw now: the curve alone unless animating, else the curve and
    /// its copy in flight.
    pub fn frame(&self) -> (r: Frame)
        requires
            self.wf(),
        ensures
            match r {
                Frame::Still { points } => self@.phase != Phase::Animating && points@
                    == self@.points,
                Frame::Turning { points, copy, pivot, progress } => {
                    &&& self@.phase == Phase::Animating
                    &&& points@ == self@.points
                    &&& copy@ == reversed_body(self@.points)
                    &&& pivot == self@.points.last()
                    &&& progress == self@.progress
                },
            },
    {
        let points = copy_points(&self.points);
        if self.phase != Phase::Animating {
            return Frame::Still { points };
        }
        proof {
            lemma_dragon_shape(self.iteration as nat);
        }
        let copy = reversed_body_of(&self.points);
        let pivot = self.points[self.points.len() - 1];
        Frame::Turning { points, copy, pivot, progress: self.progress }
    }

    /// The curve as of the last merge.
    pub fn points(&self) -> (r: &Vec<Point>)
        ensures
            r@ == self@.points,
    {
        &self.points
    }

    pub fn iteration(&self) -> (r: u64)
        ensures
            r == self@.iteration,
    {
        self.iteration
    }

    /// The turn of the copy in flight, in thousandths.
    pub fn progress(&self) -> (r: u32)
        ensures
            r == self@.progress,
    {
        self.progress
    }

    pub fn phase(&self) -> (r: Phase)
        ensures
            r == self@.phase,
    {
        self.phase
    }

    pub fn is_animating(&self) -> (r: bool)
        ensures
            r == (self@.phase == Phase::Animating),
    {
        self.phase == Phase::Animating
    }

    pub fn max_iterations(&self) -> (r: u64)
        ensures
            r == self@.max_iterations,
    {
        self.max_iterations
    }
}

/// The ticks that turn a copy from nothing to a full turn.
pub open spec fn turn_ticks() -> nat {
    25
}

/// The ticks that one iteration takes: the turn, then the merge.
pub open spec fn iteration_ticks() -> nat {
    turn_ticks() + 1
}

/// A started driver at the start of iteration `j`.
pub open spec fn iteration_start(max_iterations: nat, j: nat) -> AnimationModel {
    AnimationModel {
        points: dragon(j),
        iteration: j,
        progress: 0,
        phase: Phase::Animating,
        max_iterations,
    }
}

/// A tick keeps the driver well formed.
pub proof fn lemma_step_wf(s: AnimationModel)
    requires
        model_wf(s),
    ensures
        model_wf(step(s).0),
{
}

/// Running `a` ticks then `b` ticks is running `a + b` ticks.
pub proof fn lemma_run_add(s: AnimationModel, a: nat, b: nat)
    ensures
        run(s, a + b) == run(run(s, a), b),
    decreases b,
{
    if b > 0 {
        lemma_run_add(s, a, (b - 1) as nat);
        assert(run(s, a + b) == step(run(s, (a + b - 1) as nat)).0);
        assert((a + b - 1) as nat == a + (b - 1) as nat);
    }
}

/// Running any number of ticks keeps the driver well formed.
pub proof fn lemma_run_wf(s: AnimationModel, n: nat)
    requires
        model_wf(s),
    ensures
        model_wf(run(s, n)),
    decreases n,
{
    if n > 0 {
        lemma_run_wf(s, (n - 1) as nat);
        lemma_step_wf(run(s, (n - 1) as nat));
    }
}

/// A finished driver stays as it is and never reports completion again.
pub proof fn lemma_finished_stays(s: AnimationModel, n: nat)
    requires
        s.phase == Phase::Finished,
    ensures
        run(s, n) == s,
        completions(s, n) == 0,
    decreases n,
{
    if n > 0 {
        lemma_finished_stays(s, (n - 1) as nat);
    }
}

/// Progress never passes a full turn, and from the start of a turn it takes
/// exactly `turn_ticks()` ticks to reach it: after `k` of them it is `k` steps.
pub proof fn lemma_turn(s: AnimationModel, k: nat)
    requires
        model_wf(s),
        s.phase == Phase::Animating,
        s.progress == 0,
        k <= turn_ticks(),
    ensures
        run(s, k) == (AnimationModel { progress: (k * PROGRESS_STEP) as nat, ..s }),
        run(s, k).progress <= PROGRESS_FULL,
        k == turn_ticks() ==> run(s, k).progress == PROGRESS_FULL,
    decreases k,
{
    if k > 0 {
        lemma_turn(s, (k - 1) as nat);
        assert((k - 1) * PROGRESS_STEP + PROGRESS_STEP == k * PROGRESS_STEP) by (nonlinear_arith);
        assert(k * PROGRESS_STEP <= PROGRESS_FULL) by (nonlinear_arith)
            requires
                k <= 25,
        ;
    }
}

/// Completion is reported at most once on any run of a driver that has not
/// finished, and it has been reported exactly when the driver has finished.
pub proof fn lemma_completes_once(s: AnimationModel, n: nat)
    requires
        model_wf(s),
        s.phase != Phase::Finished,
    ensures
        completions(s, n) <= 1,
        completions(s, n) == 1 <==> run(s, n).phase == Phase::Finished,
    decreases n,
{
    if n > 0 {
        lemma_completes_once(s, (n - 1) as nat);
    }
}

/// From the start of iteration `j`, the driver reaches the start of the next
/// iteration, or finishes when `j` is the last, after `iteration_ticks()` ticks;
/// all ticks before that last one turn the copy.
pub proof fn lemma_iteration_run(m: nat, j: nat, k: nat)
    requires
        m <= MAX_ITERATIONS,
        j <= m,
        k <= iteration_ticks(),
    ensures
        k <= turn_ticks() ==> run(iteration_start(m, j), k) == (AnimationModel {
            progress: (k * PROGRESS_STEP) as nat,
            ..iteration_start(m, j)
        }),
        k == iteration_ticks() && j < m ==> run(iteration_start(m, j), k) == iteration_start(
            m,
            j + 1,
        ),
        k == iteration_ticks() && j == m ==> run(iteration_start(m, j), k) == (AnimationModel {
            points: dragon(m + 1),
            progress: PROGRESS_FULL as nat,
            phase: Phase::Finished,
            ..iteration_start(m, j)
        }),
{
    let s = iteration_start(m, j);
    if k <= turn_ticks() {
        lemma_turn(s, k);
    } else {
        lemma_turn(s, turn_ticks());
        assert(run(s, k) == step(run(s, turn_ticks())).0);
    }
}

/// The driver at tick `26 * j` after starting with `m` iterations is at the
/// start of iteration `j`.
pub proof fn lemma_schedule_iterations(m: nat, j: nat)
    requires
        m <= MAX_ITERATIONS,
        j <= m,
    ensures
        run(started(initial(m)), j * iteration_ticks()) == iteration_start(m, j),
    decreases j,
{
    let s0 = started(initial(m));
    if j == 0 {
        assert(s0.points =~= dragon(0));
        assert(s0 == iteration_start(m, 0));
        assert(j * iteration_ticks() == 0) by (nonlinear_arith)
            requires
                j == 0,
        ;
    } else {
        let i = (j - 1) as nat;
        lemma_schedule_iterations(m, i);
        assert(j * iteration_ticks() == i * iteration_ticks() + iteration_ticks()) by (
        nonlinear_arith)
            requires
                i == j - 1,
        ;
        lemma_run_add(s0, i * iteration_ticks(), iteration_ticks());
        lemma_iteration_run(m, i, iteration_ticks());
        assert(run(s0, i * iteration_ticks() + iteration_ticks()) == iteration_start(m, j));
    }
}

/// A driver started with `m` iterations reports completion on exactly one
/// tick, tick number `26 * (m + 1)`: it is finished from then on, and not before.
pub proof fn lemma_completion_tick(m: nat, n: nat)
    requires
        m <= MAX_ITERATIONS,
    ensures
        completions(started(initial(m)), n) == (if n >= (m + 1) * iteration_ticks() {
            1nat
        } else {
            0nat
        }),
        run(started(initial(m)), n).phase == Phase::Finished <==> n >= (m + 1)
            * iteration_ticks(),
{
    let s0 = started(initial(m));
    assert(s0.points =~= dragon(0));
    lemma_completes_once(s0, n);
    let last = m * iteration_ticks();
    lemma_schedule_iterations(m, m);
    lemma_iteration_run(m, m, iteration_ticks());
    let fin = run(iteration_start(m, m), iteration_ticks());
    assert((m + 1) * iteration_ticks() == last + iteration_ticks()) by (nonlinear_arith)
        requires
            last == m * iteration_ticks(),
    ;
    if n >= (m + 1) * iteration_ticks() {
        let rest = (n - (m + 1) * iteration_ticks()) as nat;
        lemma_run_add(s0, last, iteration_ticks());
        lemma_run_add(s0, (m + 1) * iteration_ticks(), rest);
        lemma_finished_stays(fin, rest);
    } else {
        let j = n / iteration_ticks();
        let k = n % iteration_ticks();
        assert(n == j * iteration_ticks() + k && k < iteration_ticks()) by (nonlinear_arith)
            requires
                j == n / 26,
                k == n % 26,
        ;
        assert(j <= m) by (nonlinear_arith)
            requires
                n == j * 26 + k,
                k < 26,
                n < (m + 1) * 26,
        ;
        lemma_schedule_iterations(m, j);
        lemma_run_add(s0, j * iteration_ticks(), k);
        lemma_iteration_run(m, j, k);
        if k > turn_ticks() {
            assert(false);
        }
    }
}

} // verus!
