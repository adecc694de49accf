//! The level descriptor and the runtime state of a level being played.
use vstd::prelude::*;
use crate::components::{CellType, ElectronSpawn, Exercise, ExpectedOutput, Point};
use crate::rules::{grid_fits, lemma_index_bound, needs_update, neighbor, neighbor_index};

verus! {

/// One exercise of a level as the level file states it.
#[derive(Debug, Clone)]
pub struct ExerciseData {
    pub description: String,
    pub timeout: usize,
    /// Electron injections: where, and at which tick.
    pub spawns: Vec<(Point, usize)>,
    /// Expected outputs: where, and the window `from..until` of ticks.
    pub outputs: Vec<(Point, usize, usize)>,
}

/// A copy of `v`, element by element.
pub fn copy_vec<T: Copy>(v: &Vec<T>) -> (r: Vec<T>)
    ensures
        r@ == v@,
{
    let mut r: Vec<T> = Vec::new();
    let mut i: usize = 0;
    while i < v.len()
        invariant
            i <= v@.len(),
            r@ == v@.subrange(0, i as int),
        decreases v@.len() - i,
    {
        r.push(v[i]);
        i = i + 1;
    }
    assert(r@ =~= v@);
    r
}

impl View for ExerciseData {
    type V = (Seq<char>, usize, Seq<(Point, usize)>, Seq<(Point, usize, usize)>);

    open spec fn view(&self) -> Self::V {
        (self.description@, self.timeout, self.spawns@, self.outputs@)
    }
}

impl ExerciseData {
    /// A field-by-field copy.
    pub fn duplicate(&self) -> (r: ExerciseData)
        ensures
            r@ == self@,
    {
        let r = ExerciseData {
            description: self.description.clone(),
            timeout: self.timeout,
            spawns: copy_vec(&self.spawns),
            outputs: copy_vec(&self.outputs),
        };
        r
    }
}

/// Whether two lists of exercises hold the same exercises.
pub open spec fn same_exercises(a: Seq<ExerciseData>, b: Seq<ExerciseData>) -> bool {
    a.len() == b.len() && forall|i: int| 0 <= i < a.len() ==> (#[trigger] a[i])@ == b[i]@
}

/// A copy of a list of exercises.
pub fn copy_exercises(v: &Vec<ExerciseData>) -> (r: Vec<ExerciseData>)
    ensures
        same_exercises(r@, v@),
{
    let mut r: Vec<ExerciseData> = Vec::new();
    let mut i: usize = 0;
    while i < v.len()
        invariant
            i <= v@.len(),
            r@.len() == i,
            forall|j: int| 0 <= j < i ==> (#[trigger] r@[j])@ == v@[j]@,
        decreases v@.len() - i,
    {
        r.push(v[i].duplicate());
        i = i + 1;
    }
    r
}

/// A parsed level: the grid's size, its initial cells row by row, whether
/// the player may place electrons, and the exercises in order.
#[derive(Debug)]
pub struct World {
    pub size: (usize, usize),
    pub map: Vec<CellType>,
    pub electron_available: bool,
    pub exercises: Vec<ExerciseData>,
}

impl World {
    /// A well-formed level has one cell per position.
    pub open spec fn wf(&self) -> bool {
        &&& grid_fits(self.size.0 as int, self.size.1 as int)
        &&& self.map@.len() == self.size.0 * self.size.1
    }

    pub fn index(&self, point: &Point) -> (r: usize)
        requires
            self.wf(),
            point.0 < self.size.0,
            point.1 < self.size.1,
        ensures
            r == point.1 * self.size.0 + point.0,
            r < self.map@.len(),
    {
        proof {
            lemma_index_bound(point.0 as int, point.1 as int, self.size.0 as int, self.size.1 as int);
        }
        point.1 * self.size.0 + point.0
    }

    pub fn get_cell(&self, point: &Point) -> (r: CellType)
        requires
            self.wf(),
            point.0 < self.size.0,
            point.1 < self.size.1,
        ensures
            r == self.map@[point.1 * self.size.0 + point.0],
    {
        let i = self.index(point);
        self.map[i]
    }
}

/// The state of a level being played: the live cells, the cells to look at
/// on the next tick, and the running exercise.
#[derive(Debug)]
pub struct WorldState {
    pub size: (usize, usize),
    pub map: Vec<CellType>,
    pub exercises: Vec<ExerciseData>,
    pub electron_available: bool,
    /// Set while playback runs; edits are refused then.
    pub lock: bool,
    /// Indices of the cells to re-evaluate on the next tick, each once.
    pub active: Vec<usize>,
    /// `queued[i]` holds exactly when `active` holds `i`.
    pub queued: Vec<bool>,
    pub exercise: Option<Exercise>,
    pub spawns: Vec<ElectronSpawn>,
    pub outputs: Vec<ExpectedOutput>,
}

/// `active` lists, once each, exactly the indices that `queued` marks.
pub open spec fn queue_consistent(active: Seq<usize>, queued: Seq<bool>) -> bool {
    &&& queued.len() <= usize::MAX
    &&& active.no_duplicates()
    &&& forall|j: int| 0 <= j < active.len() ==> active[j] < queued.len()
    &&& forall|i: usize| i < queued.len() ==> (#[trigger] queued[i as int] <==> active.contains(i))
}

impl WorldState {
    pub open spec fn width(&self) -> int {
        self.size.0 as int
    }

    pub open spec fn height(&self) -> int {
        self.size.1 as int
    }

    /// The cells, row by row.
    pub open spec fn cells(&self) -> Seq<CellType> {
        self.map@
    }

    /// The set of cells to re-evaluate on the next tick.
    pub open spec fn active_set(&self) -> Set<int> {
        Set::new(|i: int| 0 <= i < self.queued@.len() && self.queued@[i])
    }

    /// The grid has one cell per position, the work list is consistent, and
    /// every cell that can change on the next tick is on it.
    pub open spec fn wf(&self) -> bool {
        &&& grid_fits(self.width(), self.height())
        &&& self.map@.len() == self.width() * self.height()
        &&& self.queued@.len() == self.map@.len()
        &&& queue_consistent(self.active@, self.queued@)
        &&& forall|i: int|
            0 <= i < self.map@.len() && #[trigger] needs_update(
                self.map@,
                self.width(),
                self.height(),
                i,
            ) ==> self.queued@[i]
    }

    pub open spec fn in_grid(&self, p: Point) -> bool {
        p.0 < self.size.0 && p.1 < self.size.1
    }

    pub open spec fn index_of(&self, p: Point) -> int {
        p.1 * self.width() + p.0
    }

    pub fn index(&self, point: &Point) -> (r: usize)
        requires
            self.wf(),
            self.in_grid(*point),
        ensures
            r == self.index_of(*point),
            r < self.map@.len(),
    {
        proof {
            lemma_index_bound(point.0 as int, point.1 as int, self.width(), self.height());
        }
        point.1 * self.size.0 + point.0
    }

    pub fn get_cell(&self, point: &Point) -> (r: CellType)
        requires
            self.wf(),
            self.in_grid(*point),
        ensures
            r == self.map@[self.index_of(*point)],
    {
        let i = self.index(point);
        self.map[i]
    }

    /// Indices of the eight cells around `point`, wrapping at the edges.
    pub fn get_cells_around(&self, point: &Point) -> (r: Vec<usize>)
        requires
            self.wf(),
            self.in_grid(*point),
        ensures
            r@.len() == 8,
            forall|k: int|
                0 <= k < 8 ==> r@[k] == neighbor(
                    self.width(),
                    self.height(),
                    self.index_of(*point),
                    k,
                ),
    {
        let i = self.index(point);
        let mut r: Vec<usize> = Vec::new();
        let mut k: usize = 0;
        while k < 8
            invariant
                self.wf(),
                i == self.index_of(*point),
                i < self.map@.len(),
                k <= 8,
                r@.len() == k,
                forall|m: int|
                    0 <= m < k ==> r@[m] == neighbor(self.width(), self.height(), i as int, m),
            decreases 8 - k,
        {
            r.push(neighbor_index(self.size.0, self.size.1, i, k));
            k = k + 1;
        }
        r
    }
}

/// The timer that paces ticks, in milliseconds.
#[derive(Clone, Copy, Debug, PartialEq, Eq, Structural)]
pub struct Counter {
    pub interval_ms: u64,
    pub elapsed_ms: u64,
    pub paused: bool,
}

impl Counter {
    /// A running timer that fires every `interval_ms` milliseconds.
    pub fn new(interval_ms: u64) -> (r: Counter)
        ensures
            r == (Counter { interval_ms, elapsed_ms: 0, paused: false }),
    {
        Counter { interval_ms, elapsed_ms: 0, paused: false }
    }

    pub fn pause(&mut self)
        ensures
            *final(self) == (Counter { paused: true, ..*old(self) }),
    {
        self.paused = true;
    }

    pub fn unpause(&mut self)
        ensures
            *final(self) == (Counter { paused: false, ..*old(self) }),
    {
        self.paused = false;
    }

    /// Changes the interval; the time elapsed so far is kept.
    pub fn set_duration(&mut self, interval_ms: u64)
        ensures
            *final(self) == (Counter { interval_ms, ..*old(self) }),
    {
        self.interval_ms = interval_ms;
    }

    /// Lets `delta_ms` milliseconds pass and says whether the timer fired:
    /// a paused timer stays as it is; a running one fires when the elapsed
    /// time reaches the interval, and keeps the remainder.
    pub fn tick(&mut self, delta_ms: u64) -> (finished: bool)
        ensures
            old(self).paused ==> !finished && *final(self) == *old(self),
            !old(self).paused ==> {
                let sum = old(self).elapsed_ms + delta_ms;
                &&& final(self).interval_ms == old(self).interval_ms
                &&& !final(self).paused
                &&& finished == (sum >= old(self).interval_ms)
                &&& final(self).elapsed_ms == if !finished {
                    sum
                } else if old(self).interval_ms == 0 {
                    0
                } else {
                    sum % (old(self).interval_ms as int)
                }
            },
    {
        if self.paused {
            return false;
        }
        let sum: u128 = self.elapsed_ms as u128 + delta_ms as u128;
        if sum < self.interval_ms as u128 {
            self.elapsed_ms = sum as u64;
            false
        } else {
            if self.interval_ms == 0 {
                self.elapsed_ms = 0;
            } else {
                self.elapsed_ms = (sum % (self.interval_ms as u128)) as u64;
            }
            true
        }
    }
}

/// Which level to load next, if any.
#[derive(Debug)]
pub struct LevelConfig {
    pub level_name: Option<String>,
}

impl LevelConfig {
    pub fn empty() -> (r: LevelConfig)
        ensures
            r.level_name is None,
    {
        LevelConfig { level_name: None }
    }
}

} // verus!
