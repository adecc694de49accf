//! A plain grid of cells without fixed flags, addressed by `Point(row,
//! column)`, that ticks by the same rule as the game's grid.
use vstd::prelude::*;
use crate::components;
use crate::rules::{
    grid_fits, lemma_index_bound, lemma_index_split, next_state, offset_dx, offset_dy, step_all, wrap,
};

verus! {

/// A position: row `.0`, column `.1`.
#[derive(Clone, Copy, Debug, PartialEq, Eq, Hash, Structural)]
pub struct Point(pub usize, pub usize);

#[allow(non_camel_case_types)]
#[derive(Clone, Copy, Debug, PartialEq, Eq, Structural)]
pub enum CellType {
    EMPTY,
    WIRE,
    ELECTRON,
    TAIL,
}

/// A grid of `size.0` columns and `size.1` rows, stored row by row, and
/// the cells that the last tick or the last additions made active.
#[derive(Debug)]
pub struct World {
    pub size: (usize, usize),
    pub next_step: Vec<Point>,
    pub map: Vec<CellType>,
}

/// One cell that a tick changed.
#[derive(Clone, Copy, Debug, PartialEq, Eq, Structural)]
pub struct CellChange {
    pub position: Point,
    pub old_state: CellType,
    pub new_state: CellType,
}

/// A cell with its position.
#[derive(Clone, Copy, Debug, PartialEq, Eq, Structural)]
pub struct Cell {
    pub position: Point,
    pub cell_type: CellType,
}

/// The same state in the game's cells, not fixed.
pub open spec fn lift(c: CellType) -> components::CellType {
    match c {
        CellType::EMPTY => components::CellType::EMPTY(false),
        CellType::WIRE => components::CellType::WIRE(false),
        CellType::ELECTRON => components::CellType::ELECTRON(false),
        CellType::TAIL => components::CellType::TAIL(false),
    }
}

pub open spec fn lower(c: components::CellType) -> CellType {
    match c {
        components::CellType::EMPTY(_) => CellType::EMPTY,
        components::CellType::WIRE(_) => CellType::WIRE,
        components::CellType::ELECTRON(_) => CellType::ELECTRON,
        components::CellType::TAIL(_) => CellType::TAIL,
    }
}

pub open spec fn lift_all(m: Seq<CellType>) -> Seq<components::CellType> {
    m.map_values(|c: CellType| lift(c))
}

/// The grid one tick after `m`, by the game's rule (see [`step_all`]).
pub open spec fn next_grid(m: Seq<CellType>, w: int, h: int) -> Seq<CellType> {
    step_all(lift_all(m), w, h).map_values(|c: components::CellType| lower(c))
}

pub open spec fn position_index(p: Point, w: int) -> int {
    p.0 * w + p.1
}

/// The `k`-th position around `p` on a grid of `w` columns and `h` rows,
/// the offsets taken as (row, column).
pub open spec fn around_position(p: Point, w: int, h: int, k: int) -> Point {
    Point(wrap(p.0 as int, offset_dx(k), h) as usize, wrap(p.1 as int, offset_dy(k), w) as usize)
}

/// The positions among the first `k` around `p` whose cell is `t`, in order.
pub open spec fn matching_around(m: Seq<CellType>, w: int, h: int, p: Point, t: CellType, k: int) -> Seq<
    Point,
>
    decreases k,
{
    if k <= 0 {
        Seq::empty()
    } else {
        let q = around_position(p, w, h, k - 1);
        let rest = matching_around(m, w, h, p, t, k - 1);
        if m[position_index(q, w)] == t {
            rest.push(q)
        } else {
            rest
        }
    }
}

/// Whether the changes stand at strictly increasing positions.
#[verifier::opaque]
pub open spec fn sorted_changes(changes: Seq<CellChange>, w: int) -> bool {
    forall|j1: int, j2: int|
        0 <= j1 < j2 < changes.len() ==> position_index((#[trigger] changes[j1]).position, w)
            < position_index((#[trigger] changes[j2]).position, w)
}

pub proof fn lemma_sorted_empty(w: int)
    ensures
        sorted_changes(Seq::empty(), w),
{
    reveal(sorted_changes);
}

pub proof fn lemma_sorted_unfold(changes: Seq<CellChange>, w: int)
    requires
        sorted_changes(changes, w),
    ensures
        forall|j1: int, j2: int|
            0 <= j1 < j2 < changes.len() ==> position_index((#[trigger] changes[j1]).position, w)
                < position_index((#[trigger] changes[j2]).position, w),
{
    reveal(sorted_changes);
}

pub proof fn lemma_sorted_push(changes: Seq<CellChange>, w: int, c: CellChange)
    requires
        sorted_changes(changes, w),
        forall|j: int|
            0 <= j < changes.len() ==> position_index((#[trigger] changes[j]).position, w)
                < position_index(c.position, w),
    ensures
        sorted_changes(changes.push(c), w),
{
    reveal(sorted_changes);
    let s = changes.push(c);
    assert forall|j1: int, j2: int| 0 <= j1 < j2 < s.len() implies position_index(
        (#[trigger] s[j1]).position,
        w,
    ) < position_index((#[trigger] s[j2]).position, w) by {
        assert(s[j1] == changes[j1]);
        if j2 < changes.len() {
            assert(s[j2] == changes[j2]);
        }
    }
}

/// An electron becomes a tail on the next tick and a wire on the one after,
/// whatever surrounds it.
pub proof fn lemma_world_decay(m: Seq<CellType>, w: int, h: int, i: int)
    requires
        0 <= i < m.len(),
        m[i] == CellType::ELECTRON,
    ensures
        next_grid(m, w, h)[i] == CellType::TAIL,
        next_grid(next_grid(m, w, h), w, h)[i] == CellType::WIRE,
{
    let m1 = next_grid(m, w, h);
    assert(lift_all(m)[i] == components::CellType::ELECTRON(false));
    assert(step_all(lift_all(m), w, h)[i] == components::CellType::TAIL(false));
    assert(m1[i] == CellType::TAIL);
    assert(lift_all(m1)[i] == components::CellType::TAIL(false));
    assert(step_all(lift_all(m1), w, h)[i] == components::CellType::WIRE(false));
}

impl World {
    pub open spec fn wf(&self) -> bool {
        &&& grid_fits(self.size.0 as int, self.size.1 as int)
        &&& self.map@.len() == self.size.0 * self.size.1
    }

    pub open spec fn in_grid(&self, p: Point) -> bool {
        p.0 < self.size.1 && p.1 < self.size.0
    }

    /// An empty grid of `width` columns and `height` rows.
    pub fn new(width: usize, height: usize) -> (r: World)
        requires
            width * height <= usize::MAX,
        ensures
            r.wf(),
            r.size == (width, height),
            r.next_step@.len() == 0,
            r.map@ == Seq::new((width * height) as nat, |i: int| CellType::EMPTY),
    {
        let n = width * height;
        let mut map: Vec<CellType> = Vec::new();
        let mut i: usize = 0;
        while i < n
            invariant
                i <= n,
                map@ == Seq::new(i as nat, |j: int| CellType::EMPTY),
            decreases n - i,
        {
            map.push(CellType::EMPTY);
            i = i + 1;
            assert(map@ =~= Seq::new(i as nat, |j: int| CellType::EMPTY));
        }
        World { size: (width, height), next_step: Vec::new(), map }
    }

    /// Row-major index of a position.
    pub fn index(&self, point: &Point) -> (r: usize)
        requires
            self.wf(),
            self.in_grid(*point),
        ensures
            r == position_index(*point, self.size.0 as int),
            r < self.map@.len(),
    {
        proof {
            lemma_index_bound(point.1 as int, point.0 as int, self.size.0 as int, self.size.1 as int);
        }
        point.0 * self.size.0 + point.1
    }

    /// Puts `cell_type` at `pos`; an electron or a tail becomes active.
    pub fn add_cell(&mut self, pos: Point, cell_type: CellType)
        requires
            old(self).wf(),
            old(self).in_grid(pos),
        ensures
            final(self).wf(),
            final(self).size == old(self).size,
            final(self).map@ == old(self).map@.update(
                position_index(pos, old(self).size.0 as int),
                cell_type,
            ),
            final(self).next_step@ == if cell_type == CellType::ELECTRON || cell_type
                == CellType::TAIL {
                old(self).next_step@.push(pos)
            } else {
                old(self).next_step@
            },
    {
        if cell_type == CellType::ELECTRON || cell_type == CellType::TAIL {
            self.next_step.push(pos);
        }
        let ind = self.index(&pos);
        self.map.set(ind, cell_type);
    }

    /// Empties the cell at `pos`.
    pub fn remove_cell(&mut self, pos: Point)
        requires
            old(self).wf(),
            old(self).in_grid(pos),
        ensures
            final(self).wf(),
            final(self).size == old(self).size,
            final(self).next_step@ == old(self).next_step@,
            final(self).map@ == old(self).map@.update(
                position_index(pos, old(self).size.0 as int),
                CellType::EMPTY,
            ),
    {
        let ind = self.index(&pos);
        self.map.set(ind, CellType::EMPTY);
    }

    /// Every cell with its position, row by row.
    pub fn get_cells(&self) -> (r: Vec<Cell>)
        requires
            self.wf(),
        ensures
            r@.len() == self.map@.len(),
            forall|i: int|
                0 <= i < r@.len() ==> (#[trigger] r@[i]).cell_type == self.map@[i] && r@[i].position
                    == Point((i / self.size.0 as int) as usize, (i % self.size.0 as int) as usize),
    {
        let mut r: Vec<Cell> = Vec::new();
        let mut i: usize = 0;
        while i < self.map.len()
            invariant
                self.wf(),
                i <= self.map@.len(),
                r@.len() == i,
                forall|j: int|
                    0 <= j < i ==> (#[trigger] r@[j]).cell_type == self.map@[j] && r@[j].position
                        == Point(
                        (j / self.size.0 as int) as usize,
                        (j % self.size.0 as int) as usize,
                    ),
            decreases self.map@.len() - i,
        {
            proof {
                lemma_index_split(i as int, self.size.0 as int, self.size.1 as int);
            }
            r.push(Cell { position: Point(i / self.size.0, i % self.size.0), cell_type: self.map[i] });
            i = i + 1;
        }
        r
    }

    /// The positions around `point`, wrapping at the edges, whose cell is
    /// `cell_type`, in the order of the eight offsets.
    pub fn get_cells_around(&self, point: &Point, cell_type: &CellType) -> (r: Vec<Point>)
        requires
            self.wf(),
            self.in_grid(*point),
        ensures
            r@ == matching_around(
                self.map@,
                self.size.0 as int,
                self.size.1 as int,
                *point,
                *cell_type,
                8,
            ),
    {
        let w = self.size.0;
        let h = self.size.1;
        let mut found: Vec<Point> = Vec::new();
        let mut k: usize = 0;
        while k < 8
            invariant
                self.wf(),
                w == self.size.0,
                h == self.size.1,
                self.in_grid(*point),
                k <= 8,
                found@ == matching_around(self.map@, w as int, h as int, *point, *cell_type, k as int),
            decreases 8 - k,
        {
            let dr: usize = if k < 3 { 0 } else if k < 5 { 1 } else { 2 };
            let dc: usize = if k == 0 || k == 3 || k == 5 { 0 } else if k == 1 || k == 6 { 1 } else { 2 };
            let row = if dr == 0 {
                if point.0 == 0 { h - 1 } else { point.0 - 1 }
            } else if dr == 1 {
                point.0
            } else {
                if point.0 + 1 == h { 0 } else { point.0 + 1 }
            };
            let col = if dc == 0 {
                if point.1 == 0 { w - 1 } else { point.1 - 1 }
            } else if dc == 1 {
                point.1
            } else {
                if point.1 + 1 == w { 0 } else { point.1 + 1 }
            };
            let pos = Point(row, col);
            assert(pos == around_position(*point, w as int, h as int, k as int));
            let ind = self.index(&pos);
            if self.map[ind] == *cell_type {
                found.push(pos);
            }
            k = k + 1;
        }
        found
    }

    /// Advances the grid by one tick, every cell taking its next state from
    /// the grid as it was (see [`next_grid`]); returns the cells that
    /// changed, once each, in row-major order; they become the active ones.
    #[verifier::rlimit(40)]
    pub fn tick(&mut self) -> (changes: Vec<CellChange>)
        requires
            old(self).wf(),
        ensures
            final(self).wf(),
            final(self).size == old(self).size,
            final(self).map@ == next_grid(old(self).map@, old(self).size.0 as int, old(self).size.1 as int),
            forall|j: int|
                0 <= j < changes@.len() ==> {
                    let c = #[trigger] changes@[j];
                    let i = position_index(c.position, old(self).size.0 as int);
                    &&& old(self).in_grid(c.position)
                    &&& c.old_state == old(self).map@[i]
                    &&& c.new_state == final(self).map@[i]
                    &&& c.old_state != c.new_state
                },
            forall|i: int|
                0 <= i < old(self).map@.len() && old(self).map@[i] != final(self).map@[i] ==> exists|j: int|
                    0 <= j < changes@.len() && position_index(
                        (#[trigger] changes@[j]).position,
                        old(self).size.0 as int,
                    ) == i,
            forall|j1: int, j2: int|
                0 <= j1 < j2 < changes@.len() ==> position_index(
                    (#[trigger] changes@[j1]).position,
                    old(self).size.0 as int,
                ) < position_index((#[trigger] changes@[j2]).position, old(self).size.0 as int),
            final(self).next_step@.len() == changes@.len(),
            forall|j: int|
                0 <= j < changes@.len() ==> (#[trigger] final(self).next_step@[j])
                    == changes@[j].position,
    {
        let w = self.size.0;
        let h = self.size.1;
        let n = self.map.len();
        let ghost m0 = self.map@;
        let ghost snap = lift_all(m0);
        let mut cells: Vec<components::CellType> = Vec::new();
        let mut i: usize = 0;
        while i < n
            invariant
                n == m0.len(),
                m0 == self.map@,
                i <= n,
                cells@ == snap.subrange(0, i as int),
                snap == lift_all(m0),
            decreases n - i,
        {
            let c = match self.map[i] {
                CellType::EMPTY => components::CellType::EMPTY(false),
                CellType::WIRE => components::CellType::WIRE(false),
                CellType::ELECTRON => components::CellType::ELECTRON(false),
                CellType::TAIL => components::CellType::TAIL(false),
            };
            cells.push(c);
            i = i + 1;
            assert(cells@ =~= snap.subrange(0, i as int));
        }
        assert(cells@ =~= snap);
        let ghost target = next_grid(m0, w as int, h as int);
        let mut changes: Vec<CellChange> = Vec::new();
        let mut next_step: Vec<Point> = Vec::new();
        proof {
            lemma_sorted_empty(w as int);
        }
        let mut i: usize = 0;
        while i < n
            invariant
                grid_fits(w as int, h as int),
                w == self.size.0,
                h == self.size.1,
                n == m0.len(),
                n == w * h,
                cells@ == snap,
                snap == lift_all(m0),
                target == next_grid(m0, w as int, h as int),
                self.size == (w, h),
                i <= n,
                self.map@.len() == n,
                forall|x: int| 0 <= x < i ==> self.map@[x] == target[x],
                forall|x: int| i <= x < n ==> self.map@[x] == m0[x],
                next_step@.len() == changes@.len(),
                forall|j: int|
                    0 <= j < changes@.len() ==> {
                        let c = #[trigger] changes@[j];
                        let x = position_index(c.position, w as int);
                        &&& c.position.0 < h && c.position.1 < w
                        &&& 0 <= x < i
                        &&& c.old_state == m0[x]
                        &&& c.new_state == target[x]
                        &&& c.old_state != c.new_state
                        &&& next_step@[j] == c.position
                    },
                sorted_changes(changes@, w as int),
                forall|x: int|
                    0 <= x < i && m0[x] != target[x] ==> exists|j: int|
                        0 <= j < changes@.len() && position_index(
                            (#[trigger] changes@[j]).position,
                            w as int,
                        ) == x,
            decreases n - i,
        {
            let s = next_state(&cells, w, h, i);
            let new_state = match s {
                components::CellType::EMPTY(_) => CellType::EMPTY,
                components::CellType::WIRE(_) => CellType::WIRE,
                components::CellType::ELECTRON(_) => CellType::ELECTRON,
                components::CellType::TAIL(_) => CellType::TAIL,
            };
            assert(new_state == target[i as int]);
            let old_state = self.map[i];
            if !(new_state == old_state) {
                proof {
                    lemma_index_split(i as int, w as int, h as int);
                }
                let position = Point(i / w, i % w);
                let ghost before = changes@;
                proof {
                    lemma_sorted_push(before, w as int, CellChange { position, old_state, new_state });
                }
                changes.push(CellChange { position, old_state, new_state });
                assert(position_index(position, w as int) == i);
                next_step.push(position);
                assert(changes@[before.len() as int].position == position);
                assert forall|x: int|
                    0 <= x < i + 1 && m0[x] != target[x] implies exists|j: int|
                        0 <= j < changes@.len() && position_index(
                            (#[trigger] changes@[j]).position,
                            w as int,
                        ) == x by {
                    if x < i {
                        let j = choose|j: int|
                            0 <= j < before.len() && position_index(
                                (#[trigger] before[j]).position,
                                w as int,
                            ) == x;
                        assert(changes@[j] == before[j]);
                    } else {
                        assert(position_index(changes@[before.len() as int].position, w as int) == x);
                    }
                }
            }
            self.map.set(i, new_state);
            i = i + 1;
        }
        assert(self.map@ =~= target);
        self.next_step = next_step;
        proof {
            lemma_sorted_unfold(changes@, w as int);
        }
        changes
    }
}

} // verus!
