//! The transition rule of the automaton, stated over sequences of cells laid
//! out row by row (`index(x, y) == y * width + x`), and the laws it obeys.
use vstd::prelude::*;
use vstd::arithmetic::div_mod::lemma_fundamental_div_mod;
use vstd::arithmetic::div_mod::lemma_fundamental_div_mod_converse;
use crate::components::CellType;

verus! {

/// Column offset of the `k`-th neighbour, `k` in `0..8`.
pub open spec fn offset_dx(k: int) -> int {
    if k < 3 { -1 } else if k < 5 { 0 } else { 1 }
}

/// Row offset of the `k`-th neighbour, `k` in `0..8`.
pub open spec fn offset_dy(k: int) -> int {
    if k == 0 || k == 3 || k == 5 { -1 } else if k == 1 || k == 6 { 0 } else { 1 }
}

/// `v + d` taken around a ring of `n` positions, for `0 <= v < n`, `|d| <= 1`.
pub open spec fn wrap(v: int, d: int, n: int) -> int {
    if v + d < 0 { v + d + n } else if v + d >= n { v + d - n } else { v + d }
}

/// Whether `w` by `h` cells can be addressed with `usize` indices.
pub open spec fn grid_fits(w: int, h: int) -> bool {
    0 <= w && 0 <= h && w * h <= usize::MAX
}

/// Index of the `k`-th neighbour of the cell at index `i`, with wraparound.
pub open spec fn neighbor(w: int, h: int, i: int, k: int) -> int {
    wrap(i / w, offset_dy(k), h) * w + wrap(i % w, offset_dx(k), w)
}

pub open spec fn is_hot(c: CellType) -> bool {
    c is ELECTRON || c is TAIL
}

/// Electrons among the first `k` neighbours of cell `i`.
pub open spec fn electrons_among(cells: Seq<CellType>, w: int, h: int, i: int, k: int) -> nat
    decreases k,
{
    if k <= 0 {
        0
    } else {
        electrons_among(cells, w, h, i, k - 1) + if cells[neighbor(w, h, i, k - 1)] is ELECTRON {
            1nat
        } else {
            0nat
        }
    }
}

/// Electrons among the eight neighbours of cell `i`, counted by position.
#[verifier::opaque]
pub open spec fn electron_neighbors(cells: Seq<CellType>, w: int, h: int, i: int) -> nat {
    electrons_among(cells, w, h, i, 8)
}

/// The state of cell `i` one tick after `cells`.
pub open spec fn next_cell(cells: Seq<CellType>, w: int, h: int, i: int) -> CellType {
    match cells[i] {
        CellType::ELECTRON(f) => CellType::TAIL(f),
        CellType::TAIL(f) => CellType::WIRE(f),
        CellType::WIRE(f) => {
            let n = electron_neighbors(cells, w, h, i);
            if n == 1 || n == 2 {
                CellType::ELECTRON(f)
            } else {
                CellType::WIRE(f)
            }
        },
        CellType::EMPTY(f) => CellType::EMPTY(f),
    }
}

/// The whole grid one tick later.
pub open spec fn step_all(cells: Seq<CellType>, w: int, h: int) -> Seq<CellType> {
    Seq::new(cells.len(), |i: int| next_cell(cells, w, h, i))
}

/// The grid after the cells whose indices `active` holds were updated
/// from the snapshot `cells`, and all others were copied.
pub open spec fn apply_active(cells: Seq<CellType>, w: int, h: int, active: Seq<usize>) -> Seq<
    CellType,
> {
    Seq::new(
        cells.len(),
        |i: int|
            if active.contains(i as usize) {
                next_cell(cells, w, h, i)
            } else {
                cells[i]
            },
    )
}

/// Whether cell `i` can change on the next tick.
pub open spec fn needs_update(cells: Seq<CellType>, w: int, h: int, i: int) -> bool {
    is_hot(cells[i]) || (cells[i] is WIRE && electron_neighbors(cells, w, h, i) > 0)
}

pub proof fn lemma_index_bound(x: int, y: int, w: int, h: int)
    requires
        0 <= x < w,
        0 <= y < h,
    ensures
        0 <= y * w + x < w * h,
{
    assert(0 <= y * w + x < w * h) by (nonlinear_arith)
        requires
            0 <= x < w,
            0 <= y < h,
    ;
}

pub proof fn lemma_index_split(i: int, w: int, h: int)
    requires
        0 <= i < w * h,
        0 <= w,
        0 <= h,
    ensures
        0 < w,
        0 <= i % w < w,
        0 <= i / w < h,
        (i / w) * w + i % w == i,
{
    assert(0 < w) by (nonlinear_arith)
        requires
            0 <= i < w * h,
            0 <= h,
    ;
    lemma_fundamental_div_mod(i, w);
    assert(0 <= i % w < w);
    assert(0 <= i / w) by (nonlinear_arith)
        requires
            0 <= i,
            0 < w,
            i == w * (i / w) + i % w,
            i % w < w,
    ;
    assert(i / w < h) by (nonlinear_arith)
        requires
            0 <= i < w * h,
            0 < w,
            i == w * (i / w) + i % w,
            0 <= i % w,
    ;
    assert((i / w) * w == w * (i / w)) by (nonlinear_arith);
}

pub proof fn lemma_index_join(x: int, y: int, w: int, h: int)
    requires
        0 <= x < w,
        0 <= y < h,
    ensures
        (y * w + x) % w == x,
        (y * w + x) / w == y,
        0 <= y * w + x < w * h,
{
    lemma_fundamental_div_mod_converse(y * w + x, w, y, x);
    lemma_index_bound(x, y, w, h);
}

pub proof fn lemma_neighbor_in_grid(w: int, h: int, i: int, k: int)
    requires
        0 <= i < w * h,
        0 <= w,
        0 <= h,
        0 <= k < 8,
    ensures
        0 <= neighbor(w, h, i, k) < w * h,
        neighbor(w, h, i, k) % w == wrap(i % w, offset_dx(k), w),
        neighbor(w, h, i, k) / w == wrap(i / w, offset_dy(k), h),
{
    lemma_index_split(i, w, h);
    lemma_index_join(wrap(i % w, offset_dx(k), w), wrap(i / w, offset_dy(k), h), w, h);
}

/// Neighbourhood is symmetric: the cell `k` steps away sees the first one
/// in the opposite direction.
pub proof fn lemma_neighbor_symmetric(w: int, h: int, i: int, k: int)
    requires
        0 <= i < w * h,
        0 <= w,
        0 <= h,
        0 <= k < 8,
    ensures
        neighbor(w, h, neighbor(w, h, i, k), 7 - k) == i,
{
    lemma_index_split(i, w, h);
    lemma_neighbor_in_grid(w, h, i, k);
}

/// A cell has an electron neighbour exactly when one of the eight positions
/// around it holds an electron.
pub proof fn lemma_has_electron_neighbor(cells: Seq<CellType>, w: int, h: int, i: int)
    ensures
        electron_neighbors(cells, w, h, i) > 0 <==> exists|k: int|
            0 <= k < 8 && (#[trigger] cells[neighbor(w, h, i, k)]) is ELECTRON,
{
    reveal(electron_neighbors);
    lemma_count_positive(cells, w, h, i, 8);
}

/// Electrons among the first `k` neighbours are counted when one of them
/// holds an electron, and only then.
pub proof fn lemma_count_positive(cells: Seq<CellType>, w: int, h: int, i: int, k: int)
    requires
        0 <= k <= 8,
    ensures
        electrons_among(cells, w, h, i, k) > 0 <==> exists|j: int|
            0 <= j < k && (#[trigger] cells[neighbor(w, h, i, j)]) is ELECTRON,
    decreases k,
{
    if k > 0 {
        lemma_count_positive(cells, w, h, i, k - 1);
        if electrons_among(cells, w, h, i, k - 1) > 0 {
            let j = choose|j: int| 0 <= j < k - 1 && (#[trigger] cells[neighbor(w, h, i, j)]) is ELECTRON;
            assert(0 <= j < k && cells[neighbor(w, h, i, j)] is ELECTRON);
        }
    }
}


/// Updating the cells of a work list from one snapshot does not depend on the
/// order of the list, nor on repeated entries: lists that hold the same
/// cells give the same grid.
pub proof fn lemma_snapshot_order_independent(
    cells: Seq<CellType>,
    w: int,
    h: int,
    a1: Seq<usize>,
    a2: Seq<usize>,
)
    requires
        forall|x: usize| a1.contains(x) <==> a2.contains(x),
    ensures
        apply_active(cells, w, h, a1) == apply_active(cells, w, h, a2),
{
    assert(apply_active(cells, w, h, a1) =~= apply_active(cells, w, h, a2));
}

/// A wire ignites exactly when one or two of its eight neighbours hold an
/// electron; with none, or three and more, it stays a wire.
pub proof fn lemma_ignition_threshold(cells: Seq<CellType>, w: int, h: int, i: int, f: bool)
    requires
        0 <= i < cells.len(),
        cells[i] == CellType::WIRE(f),
    ensures
        (electron_neighbors(cells, w, h, i) == 1 || electron_neighbors(cells, w, h, i) == 2)
            ==> step_all(cells, w, h)[i] == CellType::ELECTRON(f),
        (electron_neighbors(cells, w, h, i) == 0 || electron_neighbors(cells, w, h, i) >= 3)
            ==> step_all(cells, w, h)[i] == CellType::WIRE(f),
{
}

/// An electron becomes a tail on the next tick and a wire on the one after,
/// whatever surrounds it.
pub proof fn lemma_decay_cycle(cells: Seq<CellType>, w: int, h: int, i: int, f: bool)
    requires
        0 <= i < cells.len(),
        cells[i] == CellType::ELECTRON(f),
    ensures
        step_all(cells, w, h)[i] == CellType::TAIL(f),
        step_all(step_all(cells, w, h), w, h)[i] == CellType::WIRE(f),
{
}

/// A grid without electrons and tails has no cell that can change, and a
/// tick leaves it as it is.
pub proof fn lemma_quiescent_grid(cells: Seq<CellType>, w: int, h: int)
    requires
        forall|i: int| 0 <= i < cells.len() ==> !is_hot(#[trigger] cells[i]),
        grid_fits(w, h),
        cells.len() == w * h,
    ensures
        forall|i: int| 0 <= i < cells.len() ==> !#[trigger] needs_update(cells, w, h, i),
        step_all(cells, w, h) == cells,
{
    assert forall|i: int| 0 <= i < cells.len() implies !#[trigger] needs_update(cells, w, h, i) by {
        lemma_has_electron_neighbor(cells, w, h, i);
        if electron_neighbors(cells, w, h, i) > 0 {
            let k = choose|k: int| 0 <= k < 8 && (#[trigger] cells[neighbor(w, h, i, k)]) is ELECTRON;
            lemma_neighbor_in_grid(w, h, i, k);
            assert(!is_hot(cells[neighbor(w, h, i, k)]));
        }
    }
    assert forall|i: int| 0 <= i < cells.len() implies step_all(cells, w, h)[i] == cells[i] by {
        assert(!needs_update(cells, w, h, i));
    }
    assert(step_all(cells, w, h) =~= cells);
}

/// Index of the `k`-th neighbour of cell `i` (see [`neighbor`]).
pub fn neighbor_index(w: usize, h: usize, i: usize, k: usize) -> (r: usize)
    requires
        grid_fits(w as int, h as int),
        i < w * h,
        k < 8,
    ensures
        r == neighbor(w as int, h as int, i as int, k as int),
        r < w * h,
{
    proof {
        lemma_index_split(i as int, w as int, h as int);
        lemma_neighbor_in_grid(w as int, h as int, i as int, k as int);
    }
    let x = i % w;
    let y = i / w;
    let nx = if k < 3 {
        if x == 0 { w - 1 } else { x - 1 }
    } else if k < 5 {
        x
    } else {
        if x + 1 == w { 0 } else { x + 1 }
    };
    let ny = if k == 0 || k == 3 || k == 5 {
        if y == 0 { h - 1 } else { y - 1 }
    } else if k == 1 || k == 6 {
        y
    } else {
        if y + 1 == h { 0 } else { y + 1 }
    };
    proof {
        lemma_index_bound(nx as int, ny as int, w as int, h as int);
    }
    ny * w + nx
}

/// Number of electrons around cell `i`.
pub fn count_electrons(cells: &Vec<CellType>, w: usize, h: usize, i: usize) -> (n: usize)
    requires
        grid_fits(w as int, h as int),
        cells@.len() == w * h,
        i < w * h,
    ensures
        n == electron_neighbors(cells@, w as int, h as int, i as int),
        n <= 8,
{
    let mut n: usize = 0;
    let mut k: usize = 0;
    while k < 8
        invariant
            grid_fits(w as int, h as int),
            cells@.len() == w * h,
            i < w * h,
            k <= 8,
            n == electrons_among(cells@, w as int, h as int, i as int, k as int),
            n <= k,
        decreases 8 - k,
    {
        let j = neighbor_index(w, h, i, k);
        if cells[j].is_electron() {
            n = n + 1;
        }
        k = k + 1;
    }
    proof {
        reveal(electron_neighbors);
    }
    n
}

/// The state of cell `i` after one tick (see [`next_cell`]).
pub fn next_state(cells: &Vec<CellType>, w: usize, h: usize, i: usize) -> (r: CellType)
    requires
        grid_fits(w as int, h as int),
        cells@.len() == w * h,
        i < w * h,
    ensures
        r == next_cell(cells@, w as int, h as int, i as int),
{
    match cells[i] {
        CellType::ELECTRON(f) => CellType::TAIL(f),
        CellType::TAIL(f) => CellType::WIRE(f),
        CellType::WIRE(f) => {
            let n = count_electrons(cells, w, h, i);
            if n == 1 || n == 2 {
                CellType::ELECTRON(f)
            } else {
                CellType::WIRE(f)
            }
        },
        CellType::EMPTY(f) => CellType::EMPTY(f),
    }
}

/// Whether cell `i` can change on the next tick (see [`needs_update`]).
pub fn can_change(cells: &Vec<CellType>, w: usize, h: usize, i: usize) -> (r: bool)
    requires
        grid_fits(w as int, h as int),
        cells@.len() == w * h,
        i < w * h,
    ensures
        r == needs_update(cells@, w as int, h as int, i as int),
{
    match cells[i] {
        CellType::ELECTRON(_) => true,
        CellType::TAIL(_) => true,
        CellType::WIRE(_) => count_electrons(cells, w, h, i) > 0,
        CellType::EMPTY(_) => false,
    }
}

} // verus!
