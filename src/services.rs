//! The transition engine: the work list of cells to look at, the tick, and
//! the edits that players and exercises make between ticks.
use vstd::prelude::*;
use crate::components::{CellType, Change, MouseButton, Point, fixed_of};
use crate::resources::{WorldState, queue_consistent};
use crate::rules::{
    apply_active, electron_neighbors, lemma_quiescent_grid, grid_fits, is_hot, lemma_has_electron_neighbor, lemma_index_bound,
    lemma_index_join, lemma_index_split, lemma_neighbor_in_grid, lemma_neighbor_symmetric,
    needs_update, neighbor, neighbor_index, next_cell, next_state, count_electrons, step_all,
};

verus! {

/// Cells that putting the cell at `p` into its current state makes worth a
/// look on the next tick: `p` itself, if it can change, and, when it holds an
/// electron, the wires around it.
pub open spec fn around(map: Seq<CellType>, w: int, h: int, p: int, i: int) -> bool {
    ||| (i == p && needs_update(map, w, h, p))
    ||| (map[p] is ELECTRON && map[i] is WIRE && exists|k: int|
        0 <= k < 8 && #[trigger] neighbor(w, h, p, k) == i)
}

/// Row-major index of a point.
pub open spec fn point_index(p: Point, w: int) -> int {
    p.1 * w + p.0
}

/// Whether one of the first `n` changes makes cell `i` worth a look.
#[verifier::opaque]
pub open spec fn enqueued_by(map: Seq<CellType>, w: int, h: int, changes: Seq<Change>, n: int, i: int) -> bool {
    exists|j: int| 0 <= j < n && #[trigger] around(map, w, h, point_index(changes[j].position, w), i)
}

/// Whether one of `changes` is at cell `i`.
#[verifier::opaque]
pub open spec fn changed_at(changes: Seq<Change>, w: int, i: int) -> bool {
    exists|j: int| 0 <= j < changes.len() && point_index(changes[j].position, w) == i
}

/// `changes` lists, once per cell, each cell of `before` whose state the
/// tick changes: its position, its state in `before` and its next state.
#[verifier::opaque]
pub open spec fn exact_changes(before: Seq<CellType>, w: int, h: int, changes: Seq<Change>) -> bool {
    &&& forall|j: int| 0 <= j < changes.len() ==> {
        let c = #[trigger] changes[j];
        let i = point_index(c.position, w);
        &&& c.position.0 < w && c.position.1 < h
        &&& c.old_state == before[i]
        &&& c.new_state == next_cell(before, w, h, i)
        &&& c.new_state != c.old_state
    }
    &&& forall|j1: int, j2: int|
        0 <= j1 < changes.len() && 0 <= j2 < changes.len() && j1 != j2 ==> point_index(
            #[trigger] changes[j1].position,
            w,
        ) != point_index(#[trigger] changes[j2].position, w)
    &&& forall|i: int|
        0 <= i < before.len() && next_cell(before, w, h, i) != before[i] ==> #[trigger] changed_at(
            changes,
            w,
            i,
        )
}

/// The changes of a tick stand at distinct positions of the grid.
pub proof fn lemma_exact_changes_sites(before: Seq<CellType>, w: int, h: int, changes: Seq<Change>)
    requires
        exact_changes(before, w, h, changes),
    ensures
        forall|j: int|
            0 <= j < changes.len() ==> (#[trigger] changes[j]).position.0 < w
                && changes[j].position.1 < h,
        forall|j1: int, j2: int|
            0 <= j1 < changes.len() && 0 <= j2 < changes.len() && j1 != j2 ==> point_index(
                #[trigger] changes[j1].position,
                w,
            ) != point_index(#[trigger] changes[j2].position, w),
{
    reveal(exact_changes);
}

/// A cell that nothing can change keeps its state on the next tick.
pub proof fn lemma_quiet_cell_keeps(cells: Seq<CellType>, w: int, h: int, i: int)
    requires
        !needs_update(cells, w, h, i),
    ensures
        next_cell(cells, w, h, i) == cells[i],
{
}

/// Updating only the cells of the work list gives the whole next grid, when
/// every cell that can change is on the list.
pub proof fn lemma_active_covers_step(cells: Seq<CellType>, w: int, h: int, active: Seq<usize>)
    requires
        forall|i: int|
            0 <= i < cells.len() && #[trigger] needs_update(cells, w, h, i) ==> active.contains(
                i as usize,
            ),
    ensures
        apply_active(cells, w, h, active) == step_all(cells, w, h),
{
    assert forall|i: int| 0 <= i < cells.len() implies apply_active(cells, w, h, active)[i]
        == step_all(cells, w, h)[i] by {
        if !needs_update(cells, w, h, i) {
            lemma_quiet_cell_keeps(cells, w, h, i);
        }
    }
    assert(apply_active(cells, w, h, active) =~= step_all(cells, w, h));
}

/// Puts `i` on the work list unless it is there already.
pub fn enqueue(active: &mut Vec<usize>, queued: &mut Vec<bool>, i: usize)
    requires
        queue_consistent(old(active)@, old(queued)@),
        i < old(queued)@.len(),
    ensures
        queue_consistent(final(active)@, final(queued)@),
        final(queued)@ == old(queued)@.update(i as int, true),
{
    if !queued[i] {
        let ghost a0 = active@;
        let ghost q0 = queued@;
        active.push(i);
        queued.set(i, true);
        assert(active@ == a0.push(i));
        assert forall|j: usize| j < queued@.len() implies (#[trigger] queued@[j as int]
            <==> active@.contains(j)) by {
            if j == i {
                assert(active@[a0.len() as int] == i);
            } else {
                assert(queued@[j as int] == q0[j as int]);
                if active@.contains(j) {
                    let t = choose|t: int| 0 <= t < active@.len() && active@[t] == j;
                    if t < a0.len() {
                        assert(a0[t] == j);
                    } else {
                        assert(active@[t] == i);
                    }
                }
                if a0.contains(j) {
                    let t = choose|t: int| 0 <= t < a0.len() && a0[t] == j;
                    assert(active@[t] == j);
                }
            }
        }
        assert forall|t: int| 0 <= t < active@.len() implies active@[t] < queued@.len() by {
            if t < a0.len() {
                assert(active@[t] == a0[t]);
            }
        }
        assert(active@.no_duplicates()) by {
            assert forall|x: int, y: int|
                0 <= x < active@.len() && 0 <= y < active@.len() && x != y implies active@[x]
                != active@[y] by {
                if x == a0.len() {
                    assert(!a0.contains(i));
                    assert(a0[y] == active@[y]);
                } else if y == a0.len() {
                    assert(!a0.contains(i));
                    assert(a0[x] == active@[x]);
                } else {
                    assert(a0[x] == active@[x] && a0[y] == active@[y]);
                }
            }
        }
    } else {
        assert(queued@ =~= queued@.update(i as int, true));
    }
}

/// Puts on the work list the cells that the current state of cell `p` makes
/// worth a look (see [`around`]).
pub fn enqueue_around(
    active: &mut Vec<usize>,
    queued: &mut Vec<bool>,
    map: &Vec<CellType>,
    w: usize,
    h: usize,
    p: usize,
)
    requires
        grid_fits(w as int, h as int),
        map@.len() == w * h,
        old(queued)@.len() == map@.len(),
        queue_consistent(old(active)@, old(queued)@),
        p < w * h,
    ensures
        queue_consistent(final(active)@, final(queued)@),
        final(queued)@.len() == old(queued)@.len(),
        forall|i: int|
            0 <= i < map@.len() ==> (#[trigger] final(queued)@[i] <==> (old(queued)@[i] || around(
                map@,
                w as int,
                h as int,
                p as int,
                i,
            ))),
{
    let ghost q0 = queued@;
    let c = map[p];
    let needs = match c {
        CellType::ELECTRON(_) => true,
        CellType::TAIL(_) => true,
        CellType::WIRE(_) => count_electrons(map, w, h, p) > 0,
        CellType::EMPTY(_) => false,
    };
    if needs {
        enqueue(active, queued, p);
    }
    let ghost q1 = queued@;
    if c.is_electron() {
        let mut k: usize = 0;
        while k < 8
            invariant
                grid_fits(w as int, h as int),
                map@.len() == w * h,
                p < w * h,
                map@[p as int] is ELECTRON,
                k <= 8,
                queued@.len() == map@.len(),
                queue_consistent(active@, queued@),
                forall|i: int|
                    0 <= i < map@.len() ==> (#[trigger] queued@[i] <==> (q1[i] || (
                    map@[i] is WIRE && exists|m: int|
                        0 <= m < k && #[trigger] neighbor(w as int, h as int, p as int, m) == i))),
            decreases 8 - k,
        {
            let j = neighbor_index(w, h, p, k);
            let ghost qb = queued@;
            if map[j].is_wire() {
                enqueue(active, queued, j);
            }
            assert forall|i: int| 0 <= i < map@.len() implies (#[trigger] queued@[i] <==> (q1[i] || (
            map@[i] is WIRE && exists|m: int|
                0 <= m < k + 1 && #[trigger] neighbor(w as int, h as int, p as int, m) == i))) by {
                if map@[i] is WIRE && i == j {
                    assert(neighbor(w as int, h as int, p as int, k as int) == i);
                }
                if map@[i] is WIRE && exists|m: int|
                    0 <= m < k + 1 && #[trigger] neighbor(w as int, h as int, p as int, m) == i {
                    let m = choose|m: int|
                        0 <= m < k + 1 && #[trigger] neighbor(w as int, h as int, p as int, m) == i;
                    if m < k {
                        assert(exists|m: int|
                            0 <= m < k && #[trigger] neighbor(w as int, h as int, p as int, m) == i);
                    }
                }
            }
            k = k + 1;
        }
    }
}

/// Empties the work list.
pub fn clear_queue(active: &mut Vec<usize>, queued: &mut Vec<bool>)
    requires
        queue_consistent(old(active)@, old(queued)@),
    ensures
        final(active)@.len() == 0,
        final(queued)@.len() == old(queued)@.len(),
        forall|i: int| 0 <= i < final(queued)@.len() ==> !(#[trigger] final(queued)@[i]),
        queue_consistent(final(active)@, final(queued)@),
{
    let ghost q0 = queued@;
    let mut a: usize = 0;
    assert(active@.subrange(0, active@.len() as int) =~= active@);
    while a < active.len()
        invariant
            queue_consistent(active@, q0),
            queued@.len() == q0.len(),
            a <= active@.len(),
            forall|i: usize|
                i < queued@.len() ==> (#[trigger] queued@[i as int] <==> active@.subrange(
                    a as int,
                    active@.len() as int,
                ).contains(i)),
        decreases active@.len() - a,
    {
        let i = active[a];
        let ghost before = queued@;
        queued.set(i, false);
        assert forall|x: usize| x < queued@.len() implies (#[trigger] queued@[x as int]
            <==> active@.subrange(a + 1, active@.len() as int).contains(x)) by {
            let rest = active@.subrange(a as int, active@.len() as int);
            let rest1 = active@.subrange(a + 1, active@.len() as int);
            if rest1.contains(x) {
                let t = choose|t: int| 0 <= t < rest1.len() && rest1[t] == x;
                assert(rest[t + 1] == x);
                assert(active@[a + 1 + t] == x);
                assert(x != i);
            }
            if x != i && rest.contains(x) {
                let t = choose|t: int| 0 <= t < rest.len() && rest[t] == x;
                assert(t != 0);
                assert(rest1[t - 1] == x);
            }
        }
        a = a + 1;
    }
    *active = Vec::new();
    assert forall|i: int| 0 <= i < queued@.len() implies !(#[trigger] queued@[i]) by {
        assert(queued@[(i as usize) as int] == queued@[i]);
    }
}

/// Writes the new state of each change into `map`.
pub fn commit(map: &mut Vec<CellType>, w: usize, h: usize, changes: &Vec<Change>)
    requires
        grid_fits(w as int, h as int),
        old(map)@.len() == w * h,
        forall|j: int|
            0 <= j < changes@.len() ==> (#[trigger] changes@[j]).position.0 < w
                && changes@[j].position.1 < h,
        forall|j1: int, j2: int|
            0 <= j1 < changes@.len() && 0 <= j2 < changes@.len() && j1 != j2 ==> point_index(
                #[trigger] changes@[j1].position,
                w as int,
            ) != point_index(#[trigger] changes@[j2].position, w as int),
    ensures
        final(map)@.len() == old(map)@.len(),
        forall|j: int|
            0 <= j < changes@.len() ==> final(map)@[point_index(
                (#[trigger] changes@[j]).position,
                w as int,
            )] == changes@[j].new_state,
        forall|i: int|
            0 <= i < old(map)@.len() && !#[trigger] changed_at(changes@, w as int, i)
                ==> final(map)@[i] == old(map)@[i],
{
    let ghost m0 = map@;
    let mut j: usize = 0;
    while j < changes.len()
        invariant
            grid_fits(w as int, h as int),
            map@.len() == m0.len(),
            m0.len() == w * h,
            j <= changes@.len(),
            forall|t: int|
                0 <= t < changes@.len() ==> (#[trigger] changes@[t]).position.0 < w
                    && changes@[t].position.1 < h,
            forall|j1: int, j2: int|
                0 <= j1 < changes@.len() && 0 <= j2 < changes@.len() && j1 != j2 ==> point_index(
                    #[trigger] changes@[j1].position,
                    w as int,
                ) != point_index(#[trigger] changes@[j2].position, w as int),
            forall|t: int|
                0 <= t < j ==> map@[point_index((#[trigger] changes@[t]).position, w as int)]
                    == changes@[t].new_state,
            forall|i: int|
                0 <= i < m0.len() && (forall|t: int|
                    0 <= t < j ==> point_index((#[trigger] changes@[t]).position, w as int) != i)
                    ==> map@[i] == m0[i],
        decreases changes@.len() - j,
    {
        let c = changes[j];
        proof {
            lemma_index_bound(c.position.0 as int, c.position.1 as int, w as int, h as int);
        }
        let i = c.position.1 * w + c.position.0;
        map.set(i, c.new_state);
        assert forall|t: int| 0 <= t < j + 1 implies map@[point_index(
            (#[trigger] changes@[t]).position,
            w as int,
        )] == changes@[t].new_state by {
            lemma_index_bound(
                changes@[t].position.0 as int,
                changes@[t].position.1 as int,
                w as int,
                h as int,
            );
            if t < j {
                assert(point_index(changes@[t].position, w as int) != point_index(
                    changes@[j as int].position,
                    w as int,
                ));
            }
        }
        j = j + 1;
    }
    assert forall|i: int|
        0 <= i < m0.len() && !#[trigger] changed_at(changes@, w as int, i) implies map@[i]
        == m0[i] by {
        reveal(changed_at);
    }
}

/// A cell that a change of the tick puts on the work list can change on the
/// tick after.
pub proof fn lemma_enqueued_needs_update(
    after: Seq<CellType>,
    w: int,
    h: int,
    changes: Seq<Change>,
    i: int,
)
    requires
        grid_fits(w, h),
        after.len() == w * h,
        0 <= i < after.len(),
        forall|j: int|
            0 <= j < changes.len() ==> (#[trigger] changes[j]).position.0 < w
                && changes[j].position.1 < h,
        enqueued_by(after, w, h, changes, changes.len() as int, i),
    ensures
        needs_update(after, w, h, i),
{
    reveal(enqueued_by);
    let j = choose|j: int|
        0 <= j < changes.len() && #[trigger] around(
            after,
            w,
            h,
            point_index(changes[j].position, w),
            i,
        );
    let p = point_index(changes[j].position, w);
    let c = changes[j];
    lemma_index_bound(c.position.0 as int, c.position.1 as int, w, h);
    if !(i == p && needs_update(after, w, h, p)) {
        let k = choose|k: int| 0 <= k < 8 && #[trigger] neighbor(w, h, p, k) == i;
        lemma_neighbor_symmetric(w, h, p, k);
        assert(after[neighbor(w, h, i, 7 - k)] is ELECTRON);
        lemma_has_electron_neighbor(after, w, h, i);
    }
}

/// A cell that can change on the tick after a tick was put on the work list
/// by one of that tick's changes.
pub proof fn lemma_needs_update_enqueued(
    before: Seq<CellType>,
    after: Seq<CellType>,
    w: int,
    h: int,
    changes: Seq<Change>,
    i: int,
)
    requires
        grid_fits(w, h),
        before.len() == w * h,
        after.len() == before.len(),
        forall|x: int| 0 <= x < before.len() ==> #[trigger] after[x] == next_cell(before, w, h, x),
        forall|x: int|
            0 <= x < before.len() && next_cell(before, w, h, x) != before[x] ==> #[trigger] changed_at(
                changes,
                w,
                x,
            ),
        0 <= i < after.len(),
        needs_update(after, w, h, i),
    ensures
        enqueued_by(after, w, h, changes, changes.len() as int, i),
{
    reveal(enqueued_by);
    if is_hot(after[i]) {
        assert(after[i] == next_cell(before, w, h, i));
        assert(next_cell(before, w, h, i) != before[i]);
        assert(changed_at(changes, w, i));
        reveal(changed_at);
        let j = choose|j: int|
            0 <= j < changes.len() && point_index(#[trigger] changes[j].position, w) == i;
        assert(around(after, w, h, point_index(changes[j].position, w), i));
    } else {
        lemma_has_electron_neighbor(after, w, h, i);
        let k = choose|k: int| 0 <= k < 8 && (#[trigger] after[neighbor(w, h, i, k)]) is ELECTRON;
        let e = neighbor(w, h, i, k);
        lemma_neighbor_in_grid(w, h, i, k);
        lemma_neighbor_symmetric(w, h, i, k);
        assert(after[e] == next_cell(before, w, h, e));
        assert(next_cell(before, w, h, e) != before[e]);
        assert(changed_at(changes, w, e));
        reveal(changed_at);
        let j = choose|j: int|
            0 <= j < changes.len() && point_index(#[trigger] changes[j].position, w) == e;
        assert(neighbor(w, h, e, 7 - k) == i);
        assert(around(after, w, h, point_index(changes[j].position, w), i));
    }
}

/// Committing exactly the changes of a tick gives the whole next grid.
pub proof fn lemma_commit_is_step(
    before: Seq<CellType>,
    after: Seq<CellType>,
    w: int,
    h: int,
    changes: Seq<Change>,
)
    requires
        after.len() == before.len(),
        exact_changes(before, w, h, changes),
        forall|j: int|
            0 <= j < changes.len() ==> after[point_index((#[trigger] changes[j]).position, w)]
                == changes[j].new_state,
        forall|i: int|
            0 <= i < before.len() && !#[trigger] changed_at(changes, w, i) ==> after[i] == before[i],
    ensures
        after == step_all(before, w, h),
{
    reveal(exact_changes);
    assert forall|x: int| 0 <= x < before.len() implies after[x] == step_all(before, w, h)[x] by {
        if changed_at(changes, w, x) {
            reveal(changed_at);
            let j = choose|j: int|
                0 <= j < changes.len() && point_index(#[trigger] changes[j].position, w) == x;
            assert(after[point_index(changes[j].position, w)] == changes[j].new_state);
        } else {
            assert(next_cell(before, w, h, x) == before[x]);
        }
    }
    assert(after =~= step_all(before, w, h));
}

/// Puts on the work list the cells that each change makes worth a look.
pub fn enqueue_changes(
    active: &mut Vec<usize>,
    queued: &mut Vec<bool>,
    map: &Vec<CellType>,
    w: usize,
    h: usize,
    changes: &Vec<Change>,
)
    requires
        grid_fits(w as int, h as int),
        map@.len() == w * h,
        old(queued)@.len() == map@.len(),
        queue_consistent(old(active)@, old(queued)@),
        forall|j: int|
            0 <= j < changes@.len() ==> (#[trigger] changes@[j]).position.0 < w
                && changes@[j].position.1 < h,
    ensures
        queue_consistent(final(active)@, final(queued)@),
        final(queued)@.len() == old(queued)@.len(),
        forall|i: int|
            0 <= i < map@.len() ==> (#[trigger] final(queued)@[i] <==> (old(queued)@[i]
                || enqueued_by(map@, w as int, h as int, changes@, changes@.len() as int, i))),
{
    proof {
        reveal(enqueued_by);
    }
    let ghost q0 = queued@;
    let ghost wi = w as int;
    let ghost hi = h as int;
    let mut j: usize = 0;
    while j < changes.len()
        invariant
            grid_fits(wi, hi),
            wi == w as int,
            hi == h as int,
            map@.len() == wi * hi,
            queued@.len() == map@.len(),
            q0.len() == map@.len(),
            queue_consistent(active@, queued@),
            j <= changes@.len(),
            forall|t: int|
                0 <= t < changes@.len() ==> (#[trigger] changes@[t]).position.0 < w
                    && changes@[t].position.1 < h,
            forall|i: int|
                0 <= i < map@.len() ==> (#[trigger] queued@[i] <==> (q0[i] || enqueued_by(
                    map@,
                    wi,
                    hi,
                    changes@,
                    j as int,
                    i,
                ))),
        decreases changes@.len() - j,
    {
        let c = changes[j];
        proof {
            lemma_index_bound(c.position.0 as int, c.position.1 as int, wi, hi);
        }
        let p = c.position.1 * w + c.position.0;
        let ghost q1 = queued@;
        enqueue_around(active, queued, map, w, h, p);
        proof {
            reveal(enqueued_by);
        }
        assert forall|i: int| 0 <= i < map@.len() implies (#[trigger] queued@[i] <==> (q0[i]
            || enqueued_by(map@, wi, hi, changes@, j + 1, i))) by {
            if around(map@, wi, hi, p as int, i) {
                assert(around(map@, wi, hi, point_index(changes@[j as int].position, wi), i));
            }
            if enqueued_by(map@, wi, hi, changes@, j + 1, i) {
                let t = choose|t: int|
                    0 <= t < j + 1 && #[trigger] around(
                        map@,
                        wi,
                        hi,
                        point_index(changes@[t].position, wi),
                        i,
                    );
                if t < j {
                    assert(enqueued_by(map@, wi, hi, changes@, j as int, i));
                }
            }
        }
        j = j + 1;
    }
}

/// The cells that a tick's changes put on the work list are exactly those that
/// can change on the next tick.
pub proof fn lemma_tick_work_list(
    before: Seq<CellType>,
    after: Seq<CellType>,
    w: int,
    h: int,
    changes: Seq<Change>,
)
    requires
        grid_fits(w, h),
        before.len() == w * h,
        exact_changes(before, w, h, changes),
        after == step_all(before, w, h),
    ensures
        forall|i: int|
            0 <= i < after.len() ==> (enqueued_by(after, w, h, changes, changes.len() as int, i)
                <==> #[trigger] needs_update(after, w, h, i)),
{
    reveal(exact_changes);
    assert forall|i: int| 0 <= i < after.len() implies (enqueued_by(
        after,
        w,
        h,
        changes,
        changes.len() as int,
        i,
    ) <==> #[trigger] needs_update(after, w, h, i)) by {
        if enqueued_by(after, w, h, changes, changes.len() as int, i) {
            lemma_enqueued_needs_update(after, w, h, changes, i);
        }
        if needs_update(after, w, h, i) {
            lemma_needs_update_enqueued(before, after, w, h, changes, i);
        }
    }
}

/// Commits the changes of a tick and rebuilds the work list from them.
pub fn update_cells(
    map: &mut Vec<CellType>,
    active: &mut Vec<usize>,
    queued: &mut Vec<bool>,
    w: usize,
    h: usize,
    changes: &Vec<Change>,
)
    requires
        grid_fits(w as int, h as int),
        old(map)@.len() == w * h,
        old(queued)@.len() == old(map)@.len(),
        queue_consistent(old(active)@, old(queued)@),
        exact_changes(old(map)@, w as int, h as int, changes@),
    ensures
        final(map)@ == step_all(old(map)@, w as int, h as int),
        queue_consistent(final(active)@, final(queued)@),
        final(queued)@.len() == old(queued)@.len(),
        forall|i: int|
            0 <= i < final(map)@.len() ==> (#[trigger] final(queued)@[i] <==> needs_update(
                final(map)@,
                w as int,
                h as int,
                i,
            )),
{
    let ghost wi = w as int;
    let ghost hi = h as int;
    let ghost before = map@;
    clear_queue(active, queued);
    proof {
        lemma_exact_changes_sites(before, wi, hi, changes@);
    }
    commit(map, w, h, changes);
    let ghost after = map@;
    proof {
        lemma_commit_is_step(before, after, wi, hi, changes@);
    }
    let ghost cleared = queued@;
    enqueue_changes(active, queued, map, w, h, changes);
    proof {
        lemma_tick_work_list(before, after, wi, hi, changes@);
        assert forall|i: int| 0 <= i < after.len() implies (#[trigger] queued@[i] <==> needs_update(
            after,
            wi,
            hi,
            i,
        )) by {
            assert(!cleared[i]);
            assert(queued@[i] <==> enqueued_by(after, wi, hi, changes@, changes@.len() as int, i));
        }
    }
}

/// After a tick that leaves neither electrons nor tails, the work list is
/// empty and a further tick changes nothing.
pub proof fn lemma_quiet_grid_rests(s: &WorldState)
    requires
        s.wf(),
        forall|i: int|
            0 <= i < s.map@.len() ==> (#[trigger] s.queued@[i] <==> needs_update(
                s.map@,
                s.width(),
                s.height(),
                i,
            )),
        forall|i: int| 0 <= i < s.map@.len() ==> !is_hot(#[trigger] s.map@[i]),
    ensures
        s.active@.len() == 0,
        step_all(s.map@, s.width(), s.height()) == s.map@,
{
    lemma_quiescent_grid(s.map@, s.width(), s.height());
    if s.active@.len() > 0 {
        let x = s.active@[0];
        assert(s.active@.contains(x));
        assert(s.queued@[x as int]);
        assert(!needs_update(s.map@, s.width(), s.height(), x as int));
    }
}

impl WorldState {
    /// Every cell that can change on the next tick is on the work list.
    pub proof fn lemma_wf_active_covers(&self)
        requires
            self.wf(),
        ensures
            forall|i: int|
                0 <= i < self.map@.len() && #[trigger] needs_update(
                    self.map@,
                    self.width(),
                    self.height(),
                    i,
                ) ==> self.active@.contains(i as usize),
    {
        assert forall|i: int|
            0 <= i < self.map@.len() && #[trigger] needs_update(
                self.map@,
                self.width(),
                self.height(),
                i,
            ) implies self.active@.contains(i as usize) by {
            assert(self.queued@[(i as usize) as int]);
        }
    }

    /// The changes that the next tick makes, each evaluated on the current
    /// grid.
    pub fn find_cell_to_update(&self) -> (changes: Vec<Change>)
        requires
            self.wf(),
        ensures
            exact_changes(self.map@, self.width(), self.height(), changes@),
    {
        let w = self.size.0;
        let h = self.size.1;
        let ghost cells = self.map@;
        let ghost wi = w as int;
        let ghost hi = h as int;
        let mut changes: Vec<Change> = Vec::new();
        let mut a: usize = 0;
        while a < self.active.len()
            invariant
                self.wf(),
                w == self.size.0,
                h == self.size.1,
                cells == self.map@,
                wi == w as int,
                hi == h as int,
                a <= self.active@.len(),
                forall|j: int| 0 <= j < changes@.len() ==> {
                    let c = #[trigger] changes@[j];
                    let i = point_index(c.position, wi);
                    &&& c.position.0 < w && c.position.1 < h
                    &&& c.old_state == cells[i]
                    &&& c.new_state == next_cell(cells, wi, hi, i)
                    &&& c.new_state != c.old_state
                    &&& exists|t: int| 0 <= t < a && self.active@[t] == i
                },
                forall|j1: int, j2: int|
                    0 <= j1 < changes@.len() && 0 <= j2 < changes@.len() && j1 != j2
                        ==> point_index(#[trigger] changes@[j1].position, wi) != point_index(
                        #[trigger] changes@[j2].position,
                        wi,
                    ),
                forall|t: int|
                    0 <= t < a && #[trigger] next_cell(cells, wi, hi, self.active@[t] as int)
                        != cells[self.active@[t] as int] ==> exists|j: int|
                        0 <= j < changes@.len() && point_index(
                            #[trigger] changes@[j].position,
                            wi,
                        ) == self.active@[t],
            decreases self.active@.len() - a,
        {
            let i = self.active[a];
            assert(i < self.map@.len());
            let old_state = self.map[i];
            let new_state = next_state(&self.map, w, h, i);
            if !(new_state == old_state) {
                proof {
                    lemma_index_split(i as int, wi, hi);
                }
                let position = Point(i % w, i / w);
                let ghost before = changes@;
                changes.push(Change { position, old_state, new_state });
                assert(point_index(position, wi) == i);
                assert forall|j: int| 0 <= j < before.len() implies point_index(
                    before[j].position,
                    wi,
                ) != i by {
                    let t = choose|t: int| 0 <= t < a && self.active@[t] == point_index(before[j].position, wi);
                    assert(self.active@[t] != self.active@[a as int]);
                }
                assert(changes@[before.len() as int] == Change { position, old_state, new_state });
                assert forall|t: int|
                    0 <= t < a + 1 && #[trigger] next_cell(cells, wi, hi, self.active@[t] as int)
                        != cells[self.active@[t] as int] implies exists|j: int|
                        0 <= j < changes@.len() && point_index(
                            #[trigger] changes@[j].position,
                            wi,
                        ) == self.active@[t] by {
                    if t < a {
                        let j = choose|j: int|
                            0 <= j < before.len() && point_index(
                                #[trigger] before[j].position,
                                wi,
                            ) == self.active@[t];
                        assert(changes@[j] == before[j]);
                    } else {
                        assert(point_index(changes@[before.len() as int].position, wi) == self.active@[t]);
                    }
                }
                assert forall|j: int| 0 <= j < changes@.len() implies (exists|t: int|
                    0 <= t < a + 1 && self.active@[t] == point_index(
                        (#[trigger] changes@[j]).position,
                        wi,
                    )) by {
                    if j < before.len() {
                        assert(changes@[j] == before[j]);
                        let t = choose|t: int| 0 <= t < a && self.active@[t] == point_index(before[j].position, wi);
                        assert(0 <= t < a + 1 && self.active@[t] == point_index(changes@[j].position, wi));
                    } else {
                        assert(self.active@[a as int] == point_index(changes@[j].position, wi));
                    }
                }
            } else {
                assert forall|t: int|
                    0 <= t < a + 1 && #[trigger] next_cell(cells, wi, hi, self.active@[t] as int)
                        != cells[self.active@[t] as int] implies exists|j: int|
                        0 <= j < changes@.len() && point_index(
                            #[trigger] changes@[j].position,
                            wi,
                        ) == self.active@[t] by {
                    if t == a {
                        assert(next_cell(cells, wi, hi, i as int) == cells[i as int]);
                    }
                }
            }
            a = a + 1;
        }
        assert forall|i: int|
            0 <= i < cells.len() && next_cell(cells, wi, hi, i) != cells[i] implies #[trigger] changed_at(
                changes@,
                wi,
                i,
            ) by {
            reveal(changed_at);
            assert(needs_update(cells, wi, hi, i));
            assert(self.queued@[i]);
            assert(self.queued@[(i as usize) as int]);
            assert(self.active@.contains(i as usize));
            let t = choose|t: int| 0 <= t < self.active@.len() && self.active@[t] == i as usize;
            assert(next_cell(cells, wi, hi, self.active@[t] as int) != cells[self.active@[t] as int]);
        }
        proof {
            reveal(exact_changes);
        }
        changes
    }

    /// Advances the grid by one tick: every cell on the work list takes its
    /// next state, computed from the grid as it was before the tick, and the
    /// work list becomes the cells that can change on the tick after.
    pub fn tick(&mut self) -> (changes: Vec<Change>)
        requires
            old(self).wf(),
        ensures
            final(self).wf(),
            final(self).size == old(self).size,
            final(self).exercises == old(self).exercises,
            final(self).electron_available == old(self).electron_available,
            final(self).lock == old(self).lock,
            final(self).exercise == old(self).exercise,
            final(self).spawns == old(self).spawns,
            final(self).outputs == old(self).outputs,
            final(self).map@ == apply_active(
                old(self).map@,
                old(self).width(),
                old(self).height(),
                old(self).active@,
            ),
            final(self).map@ == step_all(old(self).map@, old(self).width(), old(self).height()),
            exact_changes(old(self).map@, old(self).width(), old(self).height(), changes@),
            forall|i: int|
                0 <= i < final(self).map@.len() ==> (#[trigger] final(self).queued@[i]
                    <==> needs_update(final(self).map@, final(self).width(), final(self).height(), i)),
    {
        let changes = self.find_cell_to_update();
        let ghost before = self.map@;
        proof {
            self.lemma_wf_active_covers();
            lemma_active_covers_step(before, self.width(), self.height(), self.active@);
        }
        let w = self.size.0;
        let h = self.size.1;
        update_cells(&mut self.map, &mut self.active, &mut self.queued, w, h, &changes);
        changes
    }

    /// Puts `cell_type` into cell `i` between ticks, and puts on the work list
    /// what that makes worth a look.
    pub fn set_cell(&mut self, i: usize, cell_type: CellType)
        requires
            old(self).wf(),
            i < old(self).map@.len(),
        ensures
            final(self).wf(),
            final(self).map@ == old(self).map@.update(i as int, cell_type),
            final(self).size == old(self).size,
            final(self).exercises == old(self).exercises,
            final(self).electron_available == old(self).electron_available,
            final(self).lock == old(self).lock,
            final(self).exercise == old(self).exercise,
            final(self).spawns == old(self).spawns,
            final(self).outputs == old(self).outputs,
    {
        let w = self.size.0;
        let h = self.size.1;
        let ghost wi = w as int;
        let ghost hi = h as int;
        let ghost m0 = self.map@;
        let ghost q0 = self.queued@;
        self.map.set(i, cell_type);
        enqueue_around(&mut self.active, &mut self.queued, &self.map, w, h, i);
        let ghost m1 = self.map@;
        assert forall|x: int|
            0 <= x < m1.len() && #[trigger] needs_update(m1, wi, hi, x) implies self.queued@[x] by {
            if x != i {
                if !is_hot(m1[x]) {
                    lemma_has_electron_neighbor(m1, wi, hi, x);
                    let k = choose|k: int| 0 <= k < 8 && (#[trigger] m1[neighbor(wi, hi, x, k)]) is ELECTRON;
                    lemma_neighbor_in_grid(wi, hi, x, k);
                    lemma_neighbor_symmetric(wi, hi, x, k);
                    if neighbor(wi, hi, x, k) != i {
                        lemma_has_electron_neighbor(m0, wi, hi, x);
                        assert(m0[neighbor(wi, hi, x, k)] is ELECTRON);
                        assert(needs_update(m0, wi, hi, x));
                    } else {
                        assert(neighbor(wi, hi, i as int, 7 - k) == x);
                        assert(around(m1, wi, hi, i as int, x));
                    }
                } else {
                    assert(needs_update(m0, wi, hi, x));
                }
            }
        }
    }

    /// A player's click on `pos`, accepted only while playback is stopped,
    /// inside the grid, on a cell that the level did not fix, and when it
    /// asks for something: the left button turns wire into empty space and
    /// empty space into wire; the right one turns wire into an electron where
    /// the level allows electrons. Returns whether the click was accepted;
    /// a refused click changes nothing.
    pub fn handle_clicks(&mut self, pos: Point, button: MouseButton) -> (accepted: bool)
        requires
            old(self).wf(),
        ensures
            final(self).wf(),
            accepted == (!old(self).lock && old(self).in_grid(pos) && click_result(
                old(self).map@[old(self).index_of(pos)],
                button,
                old(self).electron_available,
            ) is Some),
            accepted ==> final(self).map@ == old(self).map@.update(
                old(self).index_of(pos),
                click_result(
                    old(self).map@[old(self).index_of(pos)],
                    button,
                    old(self).electron_available,
                )->Some_0,
            ),
            !accepted ==> *final(self) == *old(self),
            old(self).in_grid(pos) && fixed_of(old(self).map@[old(self).index_of(pos)]) ==> !accepted
                && *final(self) == *old(self),
            final(self).size == old(self).size,
            final(self).exercises == old(self).exercises,
            final(self).electron_available == old(self).electron_available,
            final(self).lock == old(self).lock,
            final(self).exercise == old(self).exercise,
            final(self).spawns == old(self).spawns,
            final(self).outputs == old(self).outputs,
    {
        if self.lock {
            return false;
        }
        if !(pos.0 < self.size.0 && pos.1 < self.size.1) {
            return false;
        }
        let i = self.index(&pos);
        let requested = match (self.map[i], button) {
            (CellType::WIRE(false), MouseButton::Left) => Some(CellType::EMPTY(false)),
            (CellType::EMPTY(false), MouseButton::Left) => Some(CellType::WIRE(false)),
            (CellType::WIRE(false), MouseButton::Right) => {
                if self.electron_available {
                    Some(CellType::ELECTRON(false))
                } else {
                    None
                }
            },
            _ => None,
        };
        match requested {
            Some(c) => {
                self.set_cell(i, c);
                true
            },
            None => false,
        }
    }
}

/// What a click with `button` asks a cell in state `c` to become, if
/// anything; fixed cells never change.
pub open spec fn click_result(c: CellType, button: MouseButton, electron_available: bool) -> Option<
    CellType,
> {
    match (c, button) {
        (CellType::WIRE(false), MouseButton::Left) => Some(CellType::EMPTY(false)),
        (CellType::EMPTY(false), MouseButton::Left) => Some(CellType::WIRE(false)),
        (CellType::WIRE(false), MouseButton::Right) => if electron_available {
            Some(CellType::ELECTRON(false))
        } else {
            None
        },
        _ => None,
    }
}

} // verus!
