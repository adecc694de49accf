//! Exercises: electrons injected at set ticks, outputs watched during their
//! windows, and the outcome that decides whether the level goes on.
use vstd::prelude::*;
use crate::components::{
    CellType, Change, ElectronSpawn, Exercise, ExpectedOutput, OutputStatus, Point, fixed_of,
};
use crate::resources::{World, WorldState, copy_exercises, same_exercises};
use crate::rules::{can_change, needs_update, step_all};
use crate::services::{enqueue, exact_changes, point_index};
use crate::resources::{copy_vec, queue_consistent};

verus! {

/// What a tick decided about the running exercise.
#[derive(Clone, Copy, Debug, PartialEq, Eq, Structural)]
pub enum ExerciseOutcome {
    /// No exercise is running.
    Idle,
    /// The exercise goes on.
    Running,
    /// The exercise failed; the first exercise starts again.
    Failed,
    /// The exercise passed and the one with this index started.
    Advanced(usize),
    /// The last exercise passed.
    LevelComplete,
}

/// The changes of one tick and what it decided about the exercise.
#[derive(Debug)]
pub struct TickReport {
    pub changes: Vec<Change>,
    pub outcome: ExerciseOutcome,
}

/// The injections of an exercise as the level states them.
pub open spec fn spawns_of(data: Seq<(Point, usize)>) -> Seq<ElectronSpawn> {
    Seq::new(data.len(), |j: int| ElectronSpawn { position: data[j].0, instant: data[j].1 })
}

/// The outputs of an exercise as the level states them, none looked at yet.
pub open spec fn outputs_of(data: Seq<(Point, usize, usize)>) -> Seq<ExpectedOutput> {
    Seq::new(
        data.len(),
        |j: int|
            ExpectedOutput {
                position: data[j].0,
                from: data[j].1,
                until: data[j].2,
                status: OutputStatus::Inactive,
            },
    )
}

/// Whether the grid holds an electron at `p`; a point outside the grid holds
/// none.
pub open spec fn electron_at(map: Seq<CellType>, w: int, h: int, p: Point) -> bool {
    p.0 < w && p.1 < h && map[point_index(p, w)] is ELECTRON
}

/// The status of output `o` once the exercise has run `ticks` ticks and the
/// grid shows (or not) an electron at its position.
pub open spec fn output_step(o: ExpectedOutput, ticks: int, electron: bool) -> OutputStatus {
    if ticks < o.from {
        OutputStatus::Inactive
    } else if ticks < o.until {
        if electron {
            OutputStatus::Success
        } else if o.status == OutputStatus::Inactive {
            OutputStatus::Waiting
        } else {
            o.status
        }
    } else if o.status != OutputStatus::Success {
        OutputStatus::Fail
    } else {
        OutputStatus::Success
    }
}

/// Whether one of the first `n` injections puts an electron into cell `i` at
/// tick `ticks`.
pub open spec fn fires_at(spawns: Seq<ElectronSpawn>, n: int, ticks: int, w: int, h: int, i: int) -> bool {
    exists|j: int|
        0 <= j < n && (#[trigger] spawns[j]).instant == ticks && spawns[j].position.0 < w
            && spawns[j].position.1 < h && point_index(spawns[j].position, w) == i
}

/// The grid after the first `n` injections of tick `ticks`: each cell hit
/// becomes an electron and keeps its fixed flag.
pub open spec fn injected_by(
    map: Seq<CellType>,
    w: int,
    h: int,
    spawns: Seq<ElectronSpawn>,
    n: int,
    ticks: int,
) -> Seq<CellType> {
    Seq::new(
        map.len(),
        |i: int|
            if fires_at(spawns, n, ticks, w, h, i) {
                CellType::ELECTRON(fixed_of(map[i]))
            } else {
                map[i]
            },
    )
}

/// The grid after all injections of tick `ticks`.
pub open spec fn injected(map: Seq<CellType>, w: int, h: int, spawns: Seq<ElectronSpawn>, ticks: int) -> Seq<
    CellType,
> {
    injected_by(map, w, h, spawns, spawns.len() as int, ticks)
}

/// The outputs once each has looked at the grid `map` at tick `ticks`.
pub open spec fn evaluated(
    outputs: Seq<ExpectedOutput>,
    ticks: int,
    map: Seq<CellType>,
    w: int,
    h: int,
) -> Seq<ExpectedOutput> {
    Seq::new(
        outputs.len(),
        |j: int|
            ExpectedOutput {
                status: output_step(outputs[j], ticks, electron_at(map, w, h, outputs[j].position)),
                ..outputs[j]
            },
    )
}

/// The tick count after one more tick; it stays put at the largest value.
pub open spec fn next_ticks(t: usize) -> usize {
    if t < usize::MAX { (t + 1) as usize } else { t }
}

/// What the outputs decide about exercise `e` of a level of `n` exercises.
pub open spec fn outcome_of(e: Exercise, outputs: Seq<ExpectedOutput>, n: int) -> ExerciseOutcome {
    if any_fail(outputs) || e.ticks > e.timeout {
        ExerciseOutcome::Failed
    } else if all_success(outputs) {
        if e.id + 1 < n {
            ExerciseOutcome::Advanced((e.id + 1) as usize)
        } else {
            ExerciseOutcome::LevelComplete
        }
    } else {
        ExerciseOutcome::Running
    }
}

pub open spec fn any_fail(outputs: Seq<ExpectedOutput>) -> bool {
    exists|j: int| 0 <= j < outputs.len() && (#[trigger] outputs[j]).status == OutputStatus::Fail
}

pub open spec fn all_success(outputs: Seq<ExpectedOutput>) -> bool {
    forall|j: int| 0 <= j < outputs.len() ==> (#[trigger] outputs[j]).status == OutputStatus::Success
}

/// The status of output `o` once it has looked at the grid at ticks
/// `1..=seen.len()`, `seen[t - 1]` telling whether an electron stood at its
/// position at tick `t`.
pub open spec fn watched(o: ExpectedOutput, seen: Seq<bool>) -> OutputStatus
    decreases seen.len(),
{
    if seen.len() == 0 {
        o.status
    } else {
        output_step(
            ExpectedOutput { status: watched(o, seen.drop_last()), ..o },
            seen.len() as int,
            seen.last(),
        )
    }
}

/// An output that sees an electron at a tick of its window succeeds then,
/// and stays successful at every later tick, whatever the grid shows.
pub proof fn lemma_output_success_sticks(o: ExpectedOutput, seen: Seq<bool>, t: int, n: int)
    requires
        o.from <= t < o.until,
        1 <= t <= n <= seen.len(),
        seen[t - 1],
    ensures
        watched(o, seen.subrange(0, n)) == OutputStatus::Success,
    decreases n,
{
    let s = seen.subrange(0, n);
    assert(s.drop_last() =~= seen.subrange(0, n - 1));
    assert(s.last() == seen[n - 1]);
    if n > t {
        lemma_output_success_sticks(o, seen, t, n - 1);
    }
}

/// An output that never sees an electron is inactive before its window,
/// waits during it, and fails from its end on.
pub proof fn lemma_output_fails_at_until(o: ExpectedOutput, seen: Seq<bool>, n: int)
    requires
        o.status == OutputStatus::Inactive,
        1 <= n <= seen.len(),
        forall|t: int| 0 <= t < n ==> !(#[trigger] seen[t]),
    ensures
        watched(o, seen.subrange(0, n)) == if n < o.from {
            OutputStatus::Inactive
        } else if n < o.until {
            OutputStatus::Waiting
        } else {
            OutputStatus::Fail
        },
    decreases n,
{
    let s = seen.subrange(0, n);
    assert(s.drop_last() =~= seen.subrange(0, n - 1));
    assert(s.last() == seen[n - 1]);
    if n > 1 {
        lemma_output_fails_at_until(o, seen, n - 1);
    } else {
        assert(seen.subrange(0, 0) =~= Seq::<bool>::empty());
    }
}

/// What one tick of play (see [`WorldState::step`]) makes of state `old`:
/// the state `new` and the report `report`.
pub open spec fn stepped(old: WorldState, new: WorldState, report: TickReport) -> bool {
    &&& new.size == old.size
    &&& new.exercises == old.exercises
    &&& new.electron_available == old.electron_available
    &&& exact_changes(old.map@, old.width(), old.height(), report.changes@)
    &&& old.exercise is None ==> new.map@ == step_all(old.map@, old.width(), old.height())
        && report.outcome == ExerciseOutcome::Idle && new.exercise is None
    &&& old.exercise matches Some(e) ==> {
        let t = next_ticks(e.ticks);
        let grid = injected(
            step_all(old.map@, old.width(), old.height()),
            old.width(),
            old.height(),
            old.spawns@,
            t as int,
        );
        let looked = evaluated(old.outputs@, t as int, grid, old.width(), old.height());
        &&& report.outcome == outcome_of(
            Exercise { ticks: t, ..e },
            looked,
            old.exercises@.len() as int,
        )
        &&& report.outcome == ExerciseOutcome::Running ==> new.map@ == grid && new.exercise
            == Some(Exercise { ticks: t, ..e }) && new.outputs@ == looked && new.lock == old.lock
        &&& report.outcome == ExerciseOutcome::Failed ==> new.entered(0, grid) && !new.lock
        &&& report.outcome matches ExerciseOutcome::Advanced(next) ==> new.entered(
            next as int,
            grid,
        ) && !new.lock
        &&& report.outcome == ExerciseOutcome::LevelComplete ==> new.map@ == grid
            && new.exercise is None && !new.lock
    }
}

impl WorldState {
    /// Well formed, with the running exercise, if any, one of the level's.
    pub open spec fn ready(&self) -> bool {
        &&& self.wf()
        &&& self.exercise matches Some(e) ==> e.id < self.exercises@.len()
    }

    /// Whether exercise `id` runs from its start.
    pub open spec fn started(&self, id: int) -> bool {
        &&& 0 <= id < self.exercises@.len()
        &&& self.exercise == Some(
            Exercise { id: id as usize, ticks: 0, timeout: self.exercises@[id].timeout },
        )
        &&& self.spawns@ == spawns_of(self.exercises@[id].spawns@)
        &&& self.outputs@ == outputs_of(self.exercises@[id].outputs@)
    }

    /// Whether exercise `id` has just started on grid `before`: its tick
    /// count is zero, its injections for tick zero were made, and its
    /// outputs looked at the grid that resulted.
    pub open spec fn entered(&self, id: int, before: Seq<CellType>) -> bool {
        &&& 0 <= id < self.exercises@.len()
        &&& self.exercise == Some(
            Exercise { id: id as usize, ticks: 0, timeout: self.exercises@[id].timeout },
        )
        &&& self.spawns@ == spawns_of(self.exercises@[id].spawns@)
        &&& self.map@ == injected(before, self.width(), self.height(), self.spawns@, 0)
        &&& self.outputs@ == evaluated(
            outputs_of(self.exercises@[id].outputs@),
            0,
            self.map@,
            self.width(),
            self.height(),
        )
    }

    /// Starts exercise `id` at tick zero (see [`WorldState::entered`]).
    pub fn start_exercise(&mut self, id: usize)
        requires
            old(self).wf(),
            id < old(self).exercises@.len(),
        ensures
            final(self).ready(),
            final(self).entered(id as int, old(self).map@),
            final(self).size == old(self).size,
            final(self).exercises == old(self).exercises,
            final(self).electron_available == old(self).electron_available,
            final(self).lock == old(self).lock,
    {
        self.change_exercise(id);
        self.spawn_electron();
        self.handle_outputs();
    }

    /// Starts exercise `id`: its tick count is zero and its injections and
    /// outputs are made afresh from the level.
    pub fn change_exercise(&mut self, id: usize)
        requires
            old(self).wf(),
            id < old(self).exercises@.len(),
        ensures
            final(self).ready(),
            final(self).started(id as int),
            final(self).map@ == old(self).map@,
            final(self).active@ == old(self).active@,
            final(self).queued@ == old(self).queued@,
            final(self).size == old(self).size,
            final(self).exercises == old(self).exercises,
            final(self).electron_available == old(self).electron_available,
            final(self).lock == old(self).lock,
    {
        let data = &self.exercises[id];
        let mut spawns: Vec<ElectronSpawn> = Vec::new();
        let mut j: usize = 0;
        while j < data.spawns.len()
            invariant
                j <= data.spawns@.len(),
                spawns@ == spawns_of(data.spawns@).subrange(0, j as int),
            decreases data.spawns@.len() - j,
        {
            let (position, instant) = data.spawns[j];
            spawns.push(ElectronSpawn { position, instant });
            j = j + 1;
            assert(spawns@ =~= spawns_of(data.spawns@).subrange(0, j as int));
        }
        let mut outputs: Vec<ExpectedOutput> = Vec::new();
        let mut j: usize = 0;
        while j < data.outputs.len()
            invariant
                j <= data.outputs@.len(),
                outputs@ == outputs_of(data.outputs@).subrange(0, j as int),
            decreases data.outputs@.len() - j,
        {
            let (position, from, until) = data.outputs[j];
            outputs.push(ExpectedOutput { position, from, until, status: OutputStatus::Inactive });
            j = j + 1;
            assert(outputs@ =~= outputs_of(data.outputs@).subrange(0, j as int));
        }
        assert(spawns@ =~= spawns_of(data.spawns@));
        assert(outputs@ =~= outputs_of(data.outputs@));
        let timeout = data.timeout;
        self.exercise = Some(Exercise { id, ticks: 0, timeout });
        self.spawns = spawns;
        self.outputs = outputs;
    }

    /// Injects the electrons that the running exercise schedules for its
    /// current tick.
    pub fn spawn_electron(&mut self)
        requires
            old(self).ready(),
        ensures
            final(self).ready(),
            old(self).exercise matches Some(e) ==> final(self).map@ == injected(
                old(self).map@,
                old(self).width(),
                old(self).height(),
                old(self).spawns@,
                e.ticks as int,
            ),
            old(self).exercise is None ==> final(self).map@ == old(self).map@,
            final(self).size == old(self).size,
            final(self).exercises == old(self).exercises,
            final(self).electron_available == old(self).electron_available,
            final(self).lock == old(self).lock,
            final(self).exercise == old(self).exercise,
            final(self).spawns == old(self).spawns,
            final(self).outputs == old(self).outputs,
    {
        let ticks = match self.exercise {
            Some(e) => e.ticks,
            None => {
                return ;
            },
        };
        let ghost m0 = self.map@;
        let ghost s0 = *self;
        let ghost wi = self.width();
        let ghost hi = self.height();
        let mut j: usize = 0;
        assert(self.map@ =~= injected_by(m0, wi, hi, self.spawns@, 0, ticks as int));
        while j < self.spawns.len()
            invariant
                self.ready(),
                j <= self.spawns@.len(),
                wi == self.width(),
                hi == self.height(),
                m0.len() == self.map@.len(),
                self.size == s0.size,
                self.exercises == s0.exercises,
                self.electron_available == s0.electron_available,
                self.lock == s0.lock,
                self.exercise == s0.exercise,
                self.spawns == s0.spawns,
                self.outputs == s0.outputs,
                self.map@ == injected_by(m0, wi, hi, self.spawns@, j as int, ticks as int),
            decreases self.spawns@.len() - j,
        {
            let s = self.spawns[j];
            let ghost before = self.map@;
            if s.instant == ticks && s.position.0 < self.size.0 && s.position.1 < self.size.1 {
                let i = self.index(&s.position);
                let f = self.map[i].is_fixed();
                self.set_cell(i, CellType::ELECTRON(f));
                assert(self.map@ =~= injected_by(m0, wi, hi, self.spawns@, j + 1, ticks as int)) by {
                    assert forall|x: int| 0 <= x < m0.len() implies self.map@[x] == injected_by(
                        m0, wi, hi, self.spawns@, j + 1, ticks as int)[x] by {
                        if x == i {
                            assert(self.spawns@[j as int] == s);
                            assert(fires_at(self.spawns@, j + 1, ticks as int, wi, hi, x));
                        } else {
                            if fires_at(self.spawns@, j + 1, ticks as int, wi, hi, x) {
                                let t = choose|t: int|
                                    0 <= t < j + 1 && (#[trigger] self.spawns@[t]).instant == ticks
                                        && self.spawns@[t].position.0 < wi && self.spawns@[t].position.1 < hi
                                        && point_index(self.spawns@[t].position, wi) == x;
                                assert(t != j);
                                assert(fires_at(self.spawns@, j as int, ticks as int, wi, hi, x));
                            }
                        }
                    }
                }
            } else {
                assert(self.map@ =~= injected_by(m0, wi, hi, self.spawns@, j + 1, ticks as int)) by {
                    assert forall|x: int| 0 <= x < m0.len() implies self.map@[x] == injected_by(
                        m0, wi, hi, self.spawns@, j + 1, ticks as int)[x] by {
                        if fires_at(self.spawns@, j + 1, ticks as int, wi, hi, x) {
                            let t = choose|t: int|
                                0 <= t < j + 1 && (#[trigger] self.spawns@[t]).instant == ticks
                                    && self.spawns@[t].position.0 < wi && self.spawns@[t].position.1 < hi
                                    && point_index(self.spawns@[t].position, wi) == x;
                            assert(t != j);
                            assert(fires_at(self.spawns@, j as int, ticks as int, wi, hi, x));
                        }
                    }
                }
            }
            j = j + 1;
        }
    }

    /// Looks at each output of the running exercise at its current tick.
    pub fn handle_outputs(&mut self)
        requires
            old(self).ready(),
        ensures
            final(self).ready(),
            old(self).exercise matches Some(e) ==> final(self).outputs@ == evaluated(
                old(self).outputs@,
                e.ticks as int,
                old(self).map@,
                old(self).width(),
                old(self).height(),
            ),
            old(self).exercise is None ==> final(self).outputs@ == old(self).outputs@,
            final(self).map@ == old(self).map@,
            final(self).active@ == old(self).active@,
            final(self).queued@ == old(self).queued@,
            final(self).size == old(self).size,
            final(self).exercises == old(self).exercises,
            final(self).electron_available == old(self).electron_available,
            final(self).lock == old(self).lock,
            final(self).exercise == old(self).exercise,
            final(self).spawns == old(self).spawns,
    {
        let ticks = match self.exercise {
            Some(e) => e.ticks,
            None => {
                return ;
            },
        };
        let ghost o0 = self.outputs@;
        let ghost s0 = *self;
        let mut j: usize = 0;
        while j < self.outputs.len()
            invariant
                self.size == s0.size,
                self.map == s0.map,
                self.active == s0.active,
                self.queued == s0.queued,
                self.exercises == s0.exercises,
                self.electron_available == s0.electron_available,
                self.lock == s0.lock,
                self.exercise == s0.exercise,
                self.spawns == s0.spawns,
                s0.ready(),
                s0.exercise matches Some(e) && e.ticks == ticks,
                self.outputs@.len() == o0.len(),
                j <= o0.len(),
                self.wf(),
                forall|t: int|
                    0 <= t < j ==> self.outputs@[t] == evaluated(
                        o0,
                        ticks as int,
                        self.map@,
                        self.width(),
                        self.height(),
                    )[t],
                forall|t: int| j <= t < o0.len() ==> self.outputs@[t] == o0[t],
            decreases o0.len() - j,
        {
            let mut o = self.outputs[j];
            let p = o.position;
            let electron = if p.0 < self.size.0 && p.1 < self.size.1 {
                self.get_cell(&p).is_electron()
            } else {
                false
            };
            o.status = output_status(&o, ticks, electron);
            self.outputs.set(j, o);
            j = j + 1;
        }
        assert(self.outputs@ =~= evaluated(o0, ticks as int, self.map@, self.width(), self.height()));
    }

    /// Decides the running exercise from its outputs and its tick count: it
    /// fails when an output failed or it ran past its timeout, and then the
    /// first exercise starts again; it passes when every output succeeded,
    /// and then the next exercise starts, if there is one. Either way the
    /// lock is cleared.
    pub fn handle_exercises(&mut self) -> (outcome: ExerciseOutcome)
        requires
            old(self).ready(),
        ensures
            final(self).ready(),
            final(self).size == old(self).size,
            final(self).exercises == old(self).exercises,
            final(self).electron_available == old(self).electron_available,
            old(self).exercise is None ==> outcome == ExerciseOutcome::Idle && *final(self) == *old(
                self,
            ),
            old(self).exercise matches Some(e) ==> outcome == outcome_of(
                e,
                old(self).outputs@,
                old(self).exercises@.len() as int,
            ),
            outcome == ExerciseOutcome::Failed ==> final(self).entered(0, old(self).map@)
                && !final(self).lock,
            outcome matches ExerciseOutcome::Advanced(next) ==> final(self).entered(
                next as int,
                old(self).map@,
            ) && !final(self).lock,
            outcome == ExerciseOutcome::LevelComplete ==> final(self).exercise is None
                && final(self).spawns@.len() == 0 && final(self).outputs@.len() == 0
                && !final(self).lock && final(self).map@ == old(self).map@,
            outcome == ExerciseOutcome::Running ==> *final(self) == *old(self),
    {
        let e = match self.exercise {
            Some(e) => e,
            None => {
                return ExerciseOutcome::Idle;
            },
        };
        assert(e.id < self.exercises@.len());
        let mut failed = e.ticks > e.timeout;
        let mut passed = true;
        let mut j: usize = 0;
        while j < self.outputs.len()
            invariant
                self.ready(),
                self.exercise == Some(e),
                e.id < self.exercises@.len(),
                j <= self.outputs@.len(),
                failed == (e.ticks > e.timeout || exists|t: int|
                    0 <= t < j && (#[trigger] self.outputs@[t]).status == OutputStatus::Fail),
                passed == (forall|t: int|
                    0 <= t < j ==> (#[trigger] self.outputs@[t]).status == OutputStatus::Success),
            decreases self.outputs@.len() - j,
        {
            let status = self.outputs[j].status;
            if status == OutputStatus::Fail {
                failed = true;
            }
            if status != OutputStatus::Success {
                passed = false;
            }
            j = j + 1;
        }
        if failed {
            self.start_exercise(0);
            self.lock = false;
            ExerciseOutcome::Failed
        } else if passed {
            self.lock = false;
            if e.id < self.exercises.len() - 1 {
                self.start_exercise(e.id + 1);
                ExerciseOutcome::Advanced(e.id + 1)
            } else {
                self.exercise = None;
                self.spawns = Vec::new();
                self.outputs = Vec::new();
                ExerciseOutcome::LevelComplete
            }
        } else {
            ExerciseOutcome::Running
        }
    }

    /// One tick of play: the exercise's tick count goes up, the grid takes
    /// its next state, the electrons scheduled for the new tick are injected,
    /// the outputs look at the grid, and the exercise is decided.
    pub fn step(&mut self) -> (report: TickReport)
        requires
            old(self).ready(),
        ensures
            final(self).ready(),
            stepped(*old(self), *final(self), report),
    {
        match self.exercise {
            Some(e) => {
                let ticks = if e.ticks < usize::MAX { e.ticks + 1 } else { e.ticks };
                self.exercise = Some(Exercise { ticks, ..e });
            },
            None => {},
        }
        let changes = self.tick();
        self.spawn_electron();
        self.handle_outputs();
        let outcome = self.handle_exercises();
        TickReport { changes, outcome }
    }

    /// Starts playback: ticks may run, and while the level has exercises the
    /// grid is locked against edits.
    pub fn play(&mut self)
        requires
            old(self).ready(),
        ensures
            final(self).ready(),
            final(self).lock == (old(self).exercises@.len() > 0),
            final(self).map@ == old(self).map@,
            final(self).exercise == old(self).exercise,
    {
        self.lock = self.exercises.len() > 0;
    }

    /// Starts the first exercise again, if the level has one.
    pub fn restart(&mut self)
        requires
            old(self).ready(),
        ensures
            final(self).ready(),
            final(self).lock == old(self).lock,
            old(self).exercises@.len() > 0 ==> final(self).entered(0, old(self).map@),
            old(self).exercises@.len() == 0 ==> *final(self) == *old(self),
    {
        if self.exercises.len() > 0 {
            self.start_exercise(0);
        }
    }
}

/// The state in which a level starts: its cells, a work list of exactly the
/// cells that can change, no lock, and its first exercise started, if it has
/// one.
pub fn spawn_level(world: &World) -> (r: WorldState)
    requires
        world.wf(),
    ensures
        r.ready(),
        r.size == world.size,
        same_exercises(r.exercises@, world.exercises@),
        r.electron_available == world.electron_available,
        !r.lock,
        world.exercises@.len() > 0 ==> r.entered(0, world.map@),
        world.exercises@.len() == 0 ==> {
            &&& r.exercise is None
            &&& r.map@ == world.map@
            &&& forall|i: int|
                0 <= i < r.map@.len() ==> (#[trigger] r.queued@[i] <==> needs_update(
                    r.map@,
                    r.width(),
                    r.height(),
                    i,
                ))
        },
{
    let w = world.size.0;
    let h = world.size.1;
    let map = copy_vec(&world.map);
    let n = map.len();
    let mut queued: Vec<bool> = Vec::new();
    let mut k: usize = 0;
    while k < n
        invariant
            k <= n,
            queued@.len() == k,
            forall|x: int| 0 <= x < k ==> !(#[trigger] queued@[x]),
        decreases n - k,
    {
        queued.push(false);
        k = k + 1;
    }
    let mut active: Vec<usize> = Vec::new();
    assert(queue_consistent(active@, queued@)) by {
        assert forall|x: usize| x < queued@.len() implies (#[trigger] queued@[x as int]
            <==> active@.contains(x)) by {
            assert(!queued@[x as int]);
        }
    }
    let mut i: usize = 0;
    while i < n
        invariant
            world.wf(),
            w == world.size.0,
            h == world.size.1,
            map@ == world.map@,
            n == map@.len(),
            i <= n,
            queued@.len() == n,
            queue_consistent(active@, queued@),
            forall|x: int|
                0 <= x < n ==> (#[trigger] queued@[x] <==> (x < i && needs_update(
                    map@,
                    w as int,
                    h as int,
                    x,
                ))),
        decreases n - i,
    {
        if can_change(&map, w, h, i) {
            enqueue(&mut active, &mut queued, i);
        }
        i = i + 1;
    }
    let mut state = WorldState {
        size: world.size,
        map,
        exercises: copy_exercises(&world.exercises),
        electron_available: world.electron_available,
        lock: false,
        active,
        queued,
        exercise: None,
        spawns: Vec::new(),
        outputs: Vec::new(),
    };
    if world.exercises.len() > 0 {
        state.start_exercise(0);
    }
    state
}

/// The status of output `o` after a look at tick `ticks` (see [`output_step`]).
pub fn output_status(o: &ExpectedOutput, ticks: usize, electron: bool) -> (r: OutputStatus)
    ensures
        r == output_step(*o, ticks as int, electron),
{
    if ticks < o.from {
        OutputStatus::Inactive
    } else if ticks < o.until {
        if electron {
            OutputStatus::Success
        } else if o.status == OutputStatus::Inactive {
            OutputStatus::Waiting
        } else {
            o.status
        }
    } else if o.status != OutputStatus::Success {
        OutputStatus::Fail
    } else {
        OutputStatus::Success
    }
}

} // verus!
