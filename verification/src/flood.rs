//! The specification of the flood fill: which cells a single reveal
//! reaches, phrased as paths through expandable (unflagged, zero-count)
//! cells, together with the lemmas the reveal loop is proved against.

use vstd::prelude::*;
use crate::cell::Cell;
use crate::field::{cell_same_except_revealed, Field};
use crate::grid::{adjacent, lemma_row_major};

verus! {

impl Field {
    /// A processed cell propagates the flood when it is unflagged and has
    /// no neighbouring mines.
    pub open spec fn expands(&self, x: int, y: int) -> bool {
        &&& !self.cell_at(x, y).is_flagged()
        &&& self.cell_at(x, y).spec_neighbours() == 0
    }

    /// Node `t` of the path lies on the field, and every node after the
    /// start is hidden (the flood never crosses an already revealed cell).
    pub open spec fn path_node_ok(&self, p: Seq<(int, int)>, t: int) -> bool {
        &&& self.in_bounds_xy(p[t].0, p[t].1)
        &&& t >= 1 ==> !self.cell_at(p[t].0, p[t].1).is_revealed()
    }

    /// Step `t` of the path moves to a Moore neighbour, out of a cell that
    /// expands the flood.
    pub open spec fn path_step_ok(&self, p: Seq<(int, int)>, t: int) -> bool {
        &&& adjacent(p[t].0, p[t].1, p[t + 1].0, p[t + 1].1)
        &&& self.expands(p[t].0, p[t].1)
    }

    /// `p` is a flood path from `(sx, sy)` to `(x, y)`: every step leaves
    /// an expandable cell for a Moore neighbour, and only the start may
    /// already be revealed.
    pub open spec fn flood_path(&self, p: Seq<(int, int)>, sx: int, sy: int, x: int, y: int) -> bool {
        &&& p.len() >= 2
        &&& p[0] == (sx, sy)
        &&& p[p.len() - 1] == (x, y)
        &&& forall|t: int| 0 <= t < p.len() ==> #[trigger] self.path_node_ok(p, t)
        &&& forall|t: int| 0 <= t < p.len() - 1 ==> #[trigger] self.path_step_ok(p, t)
    }

    /// The flood started at `(sx, sy)` reaches the hidden cell `(x, y)`.
    pub open spec fn flood_reaches(&self, sx: int, sy: int, x: int, y: int) -> bool {
        exists|p: Seq<(int, int)>| #[trigger] self.flood_path(p, sx, sy, x, y)
    }

    /// Every in-bounds Moore neighbour of `(x, y)` is revealed.
    pub open spec fn neighbours_revealed(&self, x: int, y: int) -> bool {
        forall|nx: int, ny: int|
            #![trigger self.cell_at(nx, ny)]
            adjacent(x, y, nx, ny) && self.in_bounds_xy(nx, ny) ==> self.cell_at(nx, ny).is_revealed()
    }
}

/// The two fields have the same dimensions and cell count.
pub open spec fn same_footprint(pre: Field, post: Field) -> bool {
    &&& post.spec_width() == pre.spec_width()
    &&& post.spec_height() == pre.spec_height()
    &&& post.spec_cells().len() == pre.spec_cells().len()
}

/// Cell for cell, only the revealed state may differ between the fields.
pub open spec fn cells_static_eq(pre: Field, post: Field) -> bool {
    forall|i: int|
        #![trigger post.spec_cells()[i]]
        0 <= i < pre.spec_cells().len() ==> cell_same_except_revealed(
            post.spec_cells()[i],
            pre.spec_cells()[i],
        )
}

/// Every cell revealed in `pre` is still revealed in `post`.
pub open spec fn revealed_monotone(pre: Field, post: Field) -> bool {
    forall|i: int|
        #![trigger post.spec_cells()[i]]
        0 <= i < pre.spec_cells().len() && pre.spec_cells()[i].is_revealed()
            ==> post.spec_cells()[i].is_revealed()
}

/// The worklist `st` holds the position `(x, y)`.
pub open spec fn stack_has(st: Seq<(usize, usize)>, x: int, y: int) -> bool {
    exists|k: int| 0 <= k < st.len() && (#[trigger] st[k]).0 == x && st[k].1 == y
}

/// Every cell the flood has finished with has spread to its neighbours:
/// if a cell is the start or was newly revealed, expands the flood, and is
/// no longer pending, then all its in-bounds Moore neighbours are revealed.
pub open spec fn closure_holds(
    f0: Field,
    cur: Field,
    pending: Seq<(usize, usize)>,
    sx: int,
    sy: int,
) -> bool {
    forall|x: int, y: int|
        #![trigger cur.cell_at(x, y)]
        (f0.in_bounds_xy(x, y) && ((x == sx && y == sy) || (cur.cell_at(x, y).is_revealed()
            && !f0.cell_at(x, y).is_revealed())) && f0.expands(x, y) && !stack_has(pending, x, y))
            ==> cur.neighbours_revealed(x, y)
}

/// Some newly revealed, already processed, unflagged cell holds a mine.
pub open spec fn some_detonated(
    f0: Field,
    cur: Field,
    pending: Seq<(usize, usize)>,
) -> bool {
    exists|x: int, y: int|
        #![trigger cur.cell_at(x, y)]
        f0.in_bounds_xy(x, y) && cur.cell_at(x, y).is_revealed() && !f0.cell_at(
            x,
            y,
        ).is_revealed() && !stack_has(pending, x, y) && !f0.cell_at(x, y).is_flagged()
            && f0.cell_at(x, y).is_mine()
}

/// Soundness of the flood loop: every newly revealed cell is the start or
/// a reached cell.
pub open spec fn inv_sound(f0: Field, cur: Field, sx: int, sy: int) -> bool {
    forall|x2: int, y2: int|
        #![trigger cur.cell_at(x2, y2)]
        f0.in_bounds_xy(x2, y2) && cur.cell_at(x2, y2).is_revealed() && !f0.cell_at(
            x2,
            y2,
        ).is_revealed() ==> ((x2 == sx && y2 == sy) || f0.flood_reaches(sx, sy, x2, y2))
}

/// Every pending worklist entry is an in-bounds, already revealed cell
/// that is the start or a reached, originally hidden cell.
pub open spec fn inv_stack_ok(
    f0: Field,
    cur: Field,
    st: Seq<(usize, usize)>,
    sx: int,
    sy: int,
) -> bool {
    forall|k: int|
        #![trigger st[k]]
        0 <= k < st.len() ==> (f0.in_bounds_xy(st[k].0 as int, st[k].1 as int)
            && cur.cell_at(st[k].0 as int, st[k].1 as int).is_revealed() && ((st[k].0 == sx
            && st[k].1 == sy) || (f0.flood_reaches(sx, sy, st[k].0 as int, st[k].1 as int)
            && !f0.cell_at(st[k].0 as int, st[k].1 as int).is_revealed())))
}

/// No position sits in the worklist twice.
pub open spec fn inv_stack_distinct(st: Seq<(usize, usize)>) -> bool {
    forall|k1: int, k2: int|
        #![trigger st[k1], st[k2]]
        0 <= k1 < k2 < st.len() ==> st[k1] != st[k2]
}

/// Membership in a worklist extended by one entry.
pub proof fn lemma_stack_has_push(st: Seq<(usize, usize)>, e: (usize, usize), x: int, y: int)
    ensures
        stack_has(st.push(e), x, y) <==> (stack_has(st, x, y) || (e.0 == x && e.1 == y)),
{
    if stack_has(st.push(e), x, y) {
        let k = choose|k: int|
            0 <= k < st.push(e).len() && (#[trigger] st.push(e)[k]).0 == x && st.push(e)[k].1 == y;
        if k < st.len() {
            assert(st[k] == st.push(e)[k]);
            assert(stack_has(st, x, y));
        } else {
            assert(st.push(e)[k] == e);
        }
    }
    if stack_has(st, x, y) {
        let k = choose|k: int| 0 <= k < st.len() && (#[trigger] st[k]).0 == x && st[k].1 == y;
        assert(st.push(e)[k] == st[k]);
        assert(stack_has(st.push(e), x, y));
    }
    if e.0 == x && e.1 == y {
        assert(st.push(e)[st.len() as int] == e);
        assert(stack_has(st.push(e), x, y));
    }
}

/// Revealing more cells keeps a fully revealed neighbourhood revealed.
pub proof fn lemma_neighbours_revealed_monotone(a: Field, b: Field, x: int, y: int)
    requires
        1 <= a.spec_width(),
        1 <= a.spec_height(),
        a.spec_cells().len() == a.spec_height() * a.spec_width(),
        same_footprint(a, b),
        revealed_monotone(a, b),
        a.neighbours_revealed(x, y),
    ensures
        b.neighbours_revealed(x, y),
{
    assert forall|nx: int, ny: int|
        adjacent(x, y, nx, ny) && b.in_bounds_xy(nx, ny) implies (#[trigger] b.cell_at(
        nx,
        ny,
    )).is_revealed() by {
        lemma_row_major(nx, ny, a.spec_width(), a.spec_height());
        assert(a.cell_at(nx, ny).is_revealed());
    }
}

/// A flood path grows by one step into a hidden in-bounds neighbour of an
/// expandable endpoint.
pub proof fn lemma_flood_path_extend(
    f: Field,
    p: Seq<(int, int)>,
    sx: int,
    sy: int,
    x: int,
    y: int,
    nx: int,
    ny: int,
)
    requires
        f.flood_path(p, sx, sy, x, y),
        f.expands(x, y),
        adjacent(x, y, nx, ny),
        f.in_bounds_xy(nx, ny),
        !f.cell_at(nx, ny).is_revealed(),
    ensures
        f.flood_path(p.push((nx, ny)), sx, sy, nx, ny),
{
    let q = p.push((nx, ny));
    assert(q[q.len() - 1] == (nx, ny));
    assert forall|t: int| 0 <= t < q.len() implies #[trigger] f.path_node_ok(q, t) by {
        if t < p.len() {
            assert(f.path_node_ok(p, t));
            assert(q[t] == p[t]);
        } else {
            assert(q[t] == (nx, ny));
        }
    }
    assert forall|t: int| 0 <= t < q.len() - 1 implies #[trigger] f.path_step_ok(q, t) by {
        if t < p.len() - 1 {
            assert(f.path_step_ok(p, t));
            assert(q[t] == p[t]);
            assert(q[t + 1] == p[t + 1]);
        } else {
            assert(q[t] == p[p.len() - 1]);
            assert(q[t + 1] == (nx, ny));
        }
    }
}

/// The flood spreads one step: from the start or any reached cell that
/// expands the flood, every hidden in-bounds Moore neighbour is reached.
pub proof fn lemma_flood_reaches_extend(
    f: Field,
    sx: int,
    sy: int,
    x: int,
    y: int,
    nx: int,
    ny: int,
)
    requires
        f.in_bounds_xy(sx, sy),
        (x == sx && y == sy) || f.flood_reaches(sx, sy, x, y),
        f.expands(x, y),
        adjacent(x, y, nx, ny),
        f.in_bounds_xy(nx, ny),
        !f.cell_at(nx, ny).is_revealed(),
    ensures
        f.flood_reaches(sx, sy, nx, ny),
{
    if f.flood_reaches(sx, sy, x, y) {
        let p = choose|p: Seq<(int, int)>| f.flood_path(p, sx, sy, x, y);
        lemma_flood_path_extend(f, p, sx, sy, x, y, nx, ny);
        assert(f.flood_path(p.push((nx, ny)), sx, sy, nx, ny));
    } else {
        let q = seq![(sx, sy), (nx, ny)];
        assert(q[0] == (sx, sy));
        assert(q[q.len() - 1] == (nx, ny));
        assert forall|t: int| 0 <= t < q.len() implies #[trigger] f.path_node_ok(q, t) by {
            if t == 0 {
                assert(q[0] == (sx, sy));
            } else {
                assert(q[1] == (nx, ny));
            }
        }
        assert forall|t: int| 0 <= t < q.len() - 1 implies #[trigger] f.path_step_ok(q, t) by {
            assert(q[0] == (sx, sy));
            assert(q[1] == (nx, ny));
        }
        assert(f.flood_path(q, sx, sy, nx, ny));
    }
}

/// Every reached cell was hidden, and borders an expandable cell that is
/// the start or itself reached: the flood reveals exactly the connected
/// zero-count region and its rim.
pub proof fn lemma_flood_reach_rim(f: Field, sx: int, sy: int, x: int, y: int)
    requires
        f.flood_reaches(sx, sy, x, y),
    ensures
        !f.cell_at(x, y).is_revealed(),
        f.in_bounds_xy(x, y),
        exists|px: int, py: int|
            adjacent(px, py, x, y) && f.in_bounds_xy(px, py) && (#[trigger] f.expands(px, py))
                && ((px == sx && py == sy) || f.flood_reaches(sx, sy, px, py)),
{
    let p = choose|p: Seq<(int, int)>| f.flood_path(p, sx, sy, x, y);
    let n = p.len() as int;
    assert(f.path_node_ok(p, n - 1));
    assert(f.path_step_ok(p, n - 2));
    assert(f.path_node_ok(p, n - 2));
    let px = p[n - 2].0;
    let py = p[n - 2].1;
    if n == 2 {
        assert(px == sx && py == sy);
    } else {
        let q = p.drop_last();
        assert(q[0] == p[0]);
        assert(q[q.len() - 1] == p[n - 2]);
        assert forall|t: int| 0 <= t < q.len() implies #[trigger] f.path_node_ok(q, t) by {
            assert(f.path_node_ok(p, t));
            assert(q[t] == p[t]);
        }
        assert forall|t: int| 0 <= t < q.len() - 1 implies #[trigger] f.path_step_ok(q, t) by {
            assert(f.path_step_ok(p, t));
            assert(q[t] == p[t]);
            assert(q[t + 1] == p[t + 1]);
        }
        assert(f.flood_path(q, sx, sy, px, py));
    }
    assert(adjacent(px, py, x, y) && f.in_bounds_xy(px, py) && f.expands(px, py) && ((px == sx
        && py == sy) || f.flood_reaches(sx, sy, px, py)));
}

/// Once the worklist is empty and the closure property holds, every
/// reached cell is revealed: completeness of the flood loop.
pub proof fn lemma_path_end_revealed(
    f0: Field,
    cur: Field,
    p: Seq<(int, int)>,
    sx: int,
    sy: int,
    x: int,
    y: int,
)
    requires
        f0.wf_base(),
        same_footprint(f0, cur),
        cells_static_eq(f0, cur),
        revealed_monotone(f0, cur),
        f0.in_bounds_xy(sx, sy),
        cur.cell_at(sx, sy).is_revealed(),
        closure_holds(f0, cur, Seq::<(usize, usize)>::empty(), sx, sy),
        f0.flood_path(p, sx, sy, x, y),
    ensures
        cur.cell_at(x, y).is_revealed(),
    decreases p.len(),
{
    let n = p.len() as int;
    assert(f0.path_node_ok(p, n - 1));
    assert(f0.path_step_ok(p, n - 2));
    assert(f0.path_node_ok(p, n - 2));
    let px = p[n - 2].0;
    let py = p[n - 2].1;
    lemma_row_major(px, py, f0.spec_width(), f0.spec_height());
    lemma_row_major(x, y, f0.spec_width(), f0.spec_height());
    if n == 2 {
        assert(px == sx && py == sy);
        assert(cur.cell_at(sx, sy).is_revealed());
        assert(!stack_has(Seq::<(usize, usize)>::empty(), sx, sy));
        assert(cur.neighbours_revealed(sx, sy));
        assert(cur.cell_at(x, y).is_revealed());
    } else {
        let q = p.drop_last();
        assert(q[0] == p[0]);
        assert(q[q.len() - 1] == p[n - 2]);
        assert forall|t: int| 0 <= t < q.len() implies #[trigger] f0.path_node_ok(q, t) by {
            assert(f0.path_node_ok(p, t));
            assert(q[t] == p[t]);
        }
        assert forall|t: int| 0 <= t < q.len() - 1 implies #[trigger] f0.path_step_ok(q, t) by {
            assert(f0.path_step_ok(p, t));
            assert(q[t] == p[t]);
            assert(q[t + 1] == p[t + 1]);
        }
        assert(f0.flood_path(q, sx, sy, px, py));
        lemma_path_end_revealed(f0, cur, q, sx, sy, px, py);
        assert(cur.cell_at(px, py).is_revealed());
        assert(!f0.cell_at(px, py).is_revealed());
        assert(!stack_has(Seq::<(usize, usize)>::empty(), px, py));
        assert(cur.neighbours_revealed(px, py));
        assert(cur.cell_at(x, y).is_revealed());
    }
}

/// A flood path in a later state is one in any earlier state: revealing
/// more cells only removes paths, never adds them.
pub proof fn lemma_flood_reaches_transfer(pre: Field, cur: Field, sx: int, sy: int, x: int, y: int)
    requires
        pre.wf_base(),
        same_footprint(pre, cur),
        cells_static_eq(pre, cur),
        revealed_monotone(pre, cur),
        cur.flood_reaches(sx, sy, x, y),
    ensures
        pre.flood_reaches(sx, sy, x, y),
{
    let p = choose|p: Seq<(int, int)>| cur.flood_path(p, sx, sy, x, y);
    assert forall|t: int| 0 <= t < p.len() implies #[trigger] pre.path_node_ok(p, t) by {
        assert(cur.path_node_ok(p, t));
        lemma_row_major(p[t].0, p[t].1, pre.spec_width(), pre.spec_height());
    }
    assert forall|t: int| 0 <= t < p.len() - 1 implies #[trigger] pre.path_step_ok(p, t) by {
        assert(cur.path_step_ok(p, t));
        assert(cur.path_node_ok(p, t));
        lemma_row_major(p[t].0, p[t].1, pre.spec_width(), pre.spec_height());
    }
    assert(pre.flood_path(p, sx, sy, x, y));
}


/// One flood step keeps the closure property: revealing the hidden cell
/// `(nx, ny)` and adding it to the worklist leaves every finished cell's
/// neighbourhood revealed.
pub proof fn lemma_closure_after_push(
    f0: Field,
    pre: Field,
    cur: Field,
    prestack: Seq<(usize, usize)>,
    pos: (usize, usize),
    nx: usize,
    ny: usize,
    sx: int,
    sy: int,
)
    requires
        f0.wf_base(),
        same_footprint(f0, pre),
        same_footprint(f0, cur),
        f0.in_bounds_xy(sx, sy),
        f0.in_bounds_xy(nx as int, ny as int),
        closure_holds(f0, pre, prestack.push(pos), sx, sy),
        revealed_monotone(pre, cur),
        !pre.cell_at(nx as int, ny as int).is_revealed(),
        cur.cell_at(nx as int, ny as int).is_revealed(),
        forall|i: int|
            0 <= i < pre.spec_cells().len() && i != f0.cell_index(nx as int, ny as int)
                ==> #[trigger] cur.spec_cells()[i] == pre.spec_cells()[i],
    ensures
        closure_holds(f0, cur, prestack.push((nx, ny)).push(pos), sx, sy),
{
    let w = f0.spec_width();
    let h = f0.spec_height();
    let newpending = prestack.push((nx, ny)).push(pos);
    assert forall|x2: int, y2: int|
        f0.in_bounds_xy(x2, y2) && ((x2 == sx && y2 == sy) || (cur.cell_at(x2, y2).is_revealed()
            && !f0.cell_at(x2, y2).is_revealed())) && f0.expands(x2, y2) && !stack_has(
            newpending,
            x2,
            y2,
        ) implies cur.neighbours_revealed(x2, y2) by {
        lemma_row_major(x2, y2, w, h);
        lemma_stack_has_push(prestack.push((nx, ny)), pos, x2, y2);
        lemma_stack_has_push(prestack, (nx, ny), x2, y2);
        lemma_stack_has_push(prestack, pos, x2, y2);
        // the newly revealed cell is pending, so the cell in hand was
        // already revealed before the step, or is the start
        assert(!(x2 == nx as int && y2 == ny as int));
        assert(!stack_has(prestack.push(pos), x2, y2));
        if !(x2 == sx && y2 == sy) {
            if f0.cell_index(x2, y2) == f0.cell_index(nx as int, ny as int) {
                crate::grid::lemma_row_major_injective(x2, y2, nx as int, ny as int, w, h);
            }
            assert(pre.cell_at(x2, y2).is_revealed());
        }
        assert(pre.cell_at(x2, y2) == pre.spec_cells()[f0.cell_index(x2, y2)]);
        lemma_closure_at(f0, pre, prestack.push(pos), sx, sy, x2, y2);
        lemma_neighbours_revealed_monotone(pre, cur, x2, y2);
    }
}


/// A cell that no longer expands the flood, or whose whole neighbourhood
/// is revealed, can leave the pending worklist.
/// A cell whose whole neighbourhood is revealed can leave the pending
/// worklist.
pub proof fn lemma_closure_drop_pending(
    f0: Field,
    cur: Field,
    st: Seq<(usize, usize)>,
    pos: (usize, usize),
    sx: int,
    sy: int,
    expanded: bool,
)
    requires
        closure_holds(f0, cur, st.push(pos), sx, sy),
        expanded ==> cur.neighbours_revealed(pos.0 as int, pos.1 as int),
        !expanded ==> !f0.expands(pos.0 as int, pos.1 as int),
    ensures
        closure_holds(f0, cur, st, sx, sy),
{
    assert forall|x2: int, y2: int|
        f0.in_bounds_xy(x2, y2) && ((x2 == sx && y2 == sy) || (cur.cell_at(x2, y2).is_revealed()
            && !f0.cell_at(x2, y2).is_revealed())) && f0.expands(x2, y2) && !stack_has(st, x2, y2)
            implies cur.neighbours_revealed(x2, y2) by {
        lemma_stack_has_push(st, pos, x2, y2);
        if pos.0 == x2 && pos.1 == y2 {
            assert(pos.0 as int == x2 && pos.1 as int == y2);
            assert(f0.expands(pos.0 as int, pos.1 as int));
            assert(cur.neighbours_revealed(pos.0 as int, pos.1 as int));
            assert(cur.neighbours_revealed(x2, y2));
        } else {
            assert(!stack_has(st.push(pos), x2, y2));
            lemma_closure_at(f0, cur, st.push(pos), sx, sy, x2, y2);
        }
    }
}

/// One flood step does not change which processed cells have detonated:
/// the newly revealed cell is itself pending.
pub proof fn lemma_sd_after_push(
    f0: Field,
    pre: Field,
    cur: Field,
    prestack: Seq<(usize, usize)>,
    pos: (usize, usize),
    nx: usize,
    ny: usize,
)
    requires
        f0.wf_base(),
        same_footprint(f0, pre),
        same_footprint(f0, cur),
        f0.in_bounds_xy(nx as int, ny as int),
        revealed_monotone(pre, cur),
        !pre.cell_at(nx as int, ny as int).is_revealed(),
        forall|i: int|
            0 <= i < pre.spec_cells().len() && i != f0.cell_index(nx as int, ny as int)
                ==> #[trigger] cur.spec_cells()[i] == pre.spec_cells()[i],
    ensures
        some_detonated(f0, cur, prestack.push((nx, ny)).push(pos)) == some_detonated(
            f0,
            pre,
            prestack.push(pos),
        ),
{
    let w = f0.spec_width();
    let h = f0.spec_height();
    lemma_row_major(nx as int, ny as int, w, h);
    if some_detonated(f0, cur, prestack.push((nx, ny)).push(pos)) {
        let (wx, wy) = choose|wx: int, wy: int|
            f0.in_bounds_xy(wx, wy) && (#[trigger] cur.cell_at(wx, wy)).is_revealed()
                && !f0.cell_at(wx, wy).is_revealed() && !stack_has(
                prestack.push((nx, ny)).push(pos),
                wx,
                wy,
            ) && !f0.cell_at(wx, wy).is_flagged() && f0.cell_at(wx, wy).is_mine();
        lemma_row_major(wx, wy, w, h);
        lemma_stack_has_push(prestack.push((nx, ny)), pos, wx, wy);
        lemma_stack_has_push(prestack, (nx, ny), wx, wy);
        lemma_stack_has_push(prestack, pos, wx, wy);
        assert(!(wx == nx as int && wy == ny as int));
        if f0.cell_index(wx, wy) == f0.cell_index(nx as int, ny as int) {
            crate::grid::lemma_row_major_injective(wx, wy, nx as int, ny as int, w, h);
        }
        assert(pre.cell_at(wx, wy).is_revealed());
        assert(some_detonated(f0, pre, prestack.push(pos)));
    }
    if some_detonated(f0, pre, prestack.push(pos)) {
        let (wx, wy) = choose|wx: int, wy: int|
            f0.in_bounds_xy(wx, wy) && (#[trigger] pre.cell_at(wx, wy)).is_revealed()
                && !f0.cell_at(wx, wy).is_revealed() && !stack_has(prestack.push(pos), wx, wy)
                && !f0.cell_at(wx, wy).is_flagged() && f0.cell_at(wx, wy).is_mine();
        lemma_row_major(wx, wy, w, h);
        lemma_stack_has_push(prestack.push((nx, ny)), pos, wx, wy);
        lemma_stack_has_push(prestack, (nx, ny), wx, wy);
        lemma_stack_has_push(prestack, pos, wx, wy);
        assert(!(wx == nx as int && wy == ny as int));
        assert(cur.cell_at(wx, wy).is_revealed());
        assert(!stack_has(prestack.push((nx, ny)).push(pos), wx, wy));
        assert(some_detonated(f0, cur, prestack.push((nx, ny)).push(pos)));
    }
}

/// Removing the processed cell from the worklist adds it to the cells the
/// detonation check ranges over.
pub proof fn lemma_sd_drop_pending(
    f0: Field,
    cur: Field,
    st: Seq<(usize, usize)>,
    pos: (usize, usize),
)
    ensures
        some_detonated(f0, cur, st) == (some_detonated(f0, cur, st.push(pos)) || (f0.in_bounds_xy(
            pos.0 as int,
            pos.1 as int,
        ) && cur.cell_at(pos.0 as int, pos.1 as int).is_revealed() && !f0.cell_at(
            pos.0 as int,
            pos.1 as int,
        ).is_revealed() && !stack_has(st, pos.0 as int, pos.1 as int) && !f0.cell_at(
            pos.0 as int,
            pos.1 as int,
        ).is_flagged() && f0.cell_at(pos.0 as int, pos.1 as int).is_mine())),
{
    if some_detonated(f0, cur, st) {
        let (wx, wy) = choose|wx: int, wy: int|
            f0.in_bounds_xy(wx, wy) && (#[trigger] cur.cell_at(wx, wy)).is_revealed()
                && !f0.cell_at(wx, wy).is_revealed() && !stack_has(st, wx, wy) && !f0.cell_at(
                wx,
                wy,
            ).is_flagged() && f0.cell_at(wx, wy).is_mine();
        lemma_stack_has_push(st, pos, wx, wy);
        if !(pos.0 == wx && pos.1 == wy) {
            assert(!stack_has(st.push(pos), wx, wy));
            assert(some_detonated(f0, cur, st.push(pos)));
        }
    }
    if some_detonated(f0, cur, st.push(pos)) {
        let (wx, wy) = choose|wx: int, wy: int|
            f0.in_bounds_xy(wx, wy) && (#[trigger] cur.cell_at(wx, wy)).is_revealed()
                && !f0.cell_at(wx, wy).is_revealed() && !stack_has(st.push(pos), wx, wy)
                && !f0.cell_at(wx, wy).is_flagged() && f0.cell_at(wx, wy).is_mine();
        lemma_stack_has_push(st, pos, wx, wy);
        assert(!stack_has(st, wx, wy));
        assert(some_detonated(f0, cur, st));
    }
    if f0.in_bounds_xy(pos.0 as int, pos.1 as int) && cur.cell_at(pos.0 as int, pos.1 as int)
        .is_revealed() && !f0.cell_at(pos.0 as int, pos.1 as int).is_revealed() && !stack_has(
        st,
        pos.0 as int,
        pos.1 as int,
    ) && !f0.cell_at(pos.0 as int, pos.1 as int).is_flagged() && f0.cell_at(
        pos.0 as int,
        pos.1 as int,
    ).is_mine() {
        assert(some_detonated(f0, cur, st));
    }
}

/// The flood-loop predicates read only the dimensions and the cells, never
/// the game-over flag or the cursor.
pub proof fn lemma_same_cells_preds(
    f0: Field,
    a: Field,
    b: Field,
    st: Seq<(usize, usize)>,
    sx: int,
    sy: int,
)
    requires
        a.spec_cells() == b.spec_cells(),
        a.spec_width() == b.spec_width(),
        a.spec_height() == b.spec_height(),
    ensures
        inv_sound(f0, a, sx, sy) == inv_sound(f0, b, sx, sy),
        inv_stack_ok(f0, a, st, sx, sy) == inv_stack_ok(f0, b, st, sx, sy),
        closure_holds(f0, a, st, sx, sy) == closure_holds(f0, b, st, sx, sy),
        some_detonated(f0, a, st) == some_detonated(f0, b, st),
        cells_static_eq(f0, a) == cells_static_eq(f0, b),
        revealed_monotone(f0, a) == revealed_monotone(f0, b),
        same_footprint(f0, a) == same_footprint(f0, b),
{
    assert forall|x2: int, y2: int| true implies #[trigger] a.cell_at(x2, y2) == b.cell_at(
        x2,
        y2,
    ) && a.in_bounds_xy(x2, y2) == b.in_bounds_xy(x2, y2) by {
        assert(a.cell_index(x2, y2) == b.cell_index(x2, y2));
    }
    assert forall|x2: int, y2: int| a.neighbours_revealed(x2, y2) == b.neighbours_revealed(
        x2,
        y2,
    ) by {
        if a.neighbours_revealed(x2, y2) {
            assert forall|nx: int, ny: int|
                adjacent(x2, y2, nx, ny) && b.in_bounds_xy(nx, ny) implies (#[trigger] b.cell_at(
                nx,
                ny,
            )).is_revealed() by {
                assert(a.cell_at(nx, ny).is_revealed());
            }
        }
        if b.neighbours_revealed(x2, y2) {
            assert forall|nx: int, ny: int|
                adjacent(x2, y2, nx, ny) && a.in_bounds_xy(nx, ny) implies (#[trigger] a.cell_at(
                nx,
                ny,
            )).is_revealed() by {
                assert(b.cell_at(nx, ny).is_revealed());
            }
        }
    }
    if inv_sound(f0, a, sx, sy) {
        assert forall|x2: int, y2: int|
            f0.in_bounds_xy(x2, y2) && (#[trigger] b.cell_at(x2, y2)).is_revealed() && !f0.cell_at(
                x2,
                y2,
            ).is_revealed() implies ((x2 == sx && y2 == sy) || f0.flood_reaches(sx, sy, x2, y2)) by {
            assert(a.cell_at(x2, y2).is_revealed());
        }
    }
    if inv_sound(f0, b, sx, sy) {
        assert forall|x2: int, y2: int|
            f0.in_bounds_xy(x2, y2) && (#[trigger] a.cell_at(x2, y2)).is_revealed() && !f0.cell_at(
                x2,
                y2,
            ).is_revealed() implies ((x2 == sx && y2 == sy) || f0.flood_reaches(sx, sy, x2, y2)) by {
            assert(b.cell_at(x2, y2).is_revealed());
        }
    }
    if inv_stack_ok(f0, a, st, sx, sy) {
        assert forall|k: int| 0 <= k < st.len() implies (f0.in_bounds_xy(
            (#[trigger] st[k]).0 as int,
            st[k].1 as int,
        ) && b.cell_at(st[k].0 as int, st[k].1 as int).is_revealed() && ((st[k].0 == sx && st[k].1
            == sy) || (f0.flood_reaches(sx, sy, st[k].0 as int, st[k].1 as int) && !f0.cell_at(
            st[k].0 as int,
            st[k].1 as int,
        ).is_revealed()))) by {
            assert(a.cell_at(st[k].0 as int, st[k].1 as int).is_revealed());
        }
    }
    if inv_stack_ok(f0, b, st, sx, sy) {
        assert forall|k: int| 0 <= k < st.len() implies (f0.in_bounds_xy(
            (#[trigger] st[k]).0 as int,
            st[k].1 as int,
        ) && a.cell_at(st[k].0 as int, st[k].1 as int).is_revealed() && ((st[k].0 == sx && st[k].1
            == sy) || (f0.flood_reaches(sx, sy, st[k].0 as int, st[k].1 as int) && !f0.cell_at(
            st[k].0 as int,
            st[k].1 as int,
        ).is_revealed()))) by {
            assert(b.cell_at(st[k].0 as int, st[k].1 as int).is_revealed());
        }
    }
    if closure_holds(f0, a, st, sx, sy) {
        assert forall|x2: int, y2: int|
            f0.in_bounds_xy(x2, y2) && ((x2 == sx && y2 == sy) || (b.cell_at(x2, y2).is_revealed()
                && !f0.cell_at(x2, y2).is_revealed())) && f0.expands(x2, y2) && !stack_has(
                st,
                x2,
                y2,
            ) implies b.neighbours_revealed(x2, y2) by {
            assert(a.cell_at(x2, y2) == b.cell_at(x2, y2));
            lemma_closure_at(f0, a, st, sx, sy, x2, y2);
            assert(a.neighbours_revealed(x2, y2) == b.neighbours_revealed(x2, y2));
        }
        assert(closure_holds(f0, b, st, sx, sy));
    }
    if closure_holds(f0, b, st, sx, sy) {
        assert forall|x2: int, y2: int|
            f0.in_bounds_xy(x2, y2) && ((x2 == sx && y2 == sy) || (a.cell_at(x2, y2).is_revealed()
                && !f0.cell_at(x2, y2).is_revealed())) && f0.expands(x2, y2) && !stack_has(
                st,
                x2,
                y2,
            ) implies a.neighbours_revealed(x2, y2) by {
            assert(a.cell_at(x2, y2) == b.cell_at(x2, y2));
            lemma_closure_at(f0, b, st, sx, sy, x2, y2);
            assert(a.neighbours_revealed(x2, y2) == b.neighbours_revealed(x2, y2));
        }
        assert(closure_holds(f0, a, st, sx, sy));
    }
    if some_detonated(f0, a, st) {
        let (wx, wy) = choose|wx: int, wy: int|
            f0.in_bounds_xy(wx, wy) && (#[trigger] a.cell_at(wx, wy)).is_revealed() && !f0.cell_at(
                wx,
                wy,
            ).is_revealed() && !stack_has(st, wx, wy) && !f0.cell_at(wx, wy).is_flagged()
                && f0.cell_at(wx, wy).is_mine();
        assert(b.cell_at(wx, wy).is_revealed());
        assert(some_detonated(f0, b, st));
    }
    if some_detonated(f0, b, st) {
        let (wx, wy) = choose|wx: int, wy: int|
            f0.in_bounds_xy(wx, wy) && (#[trigger] b.cell_at(wx, wy)).is_revealed() && !f0.cell_at(
                wx,
                wy,
            ).is_revealed() && !stack_has(st, wx, wy) && !f0.cell_at(wx, wy).is_flagged()
                && f0.cell_at(wx, wy).is_mine();
        assert(a.cell_at(wx, wy).is_revealed());
        assert(some_detonated(f0, a, st));
    }
}


/// A distinct worklist's last entry does not occur before it.
pub proof fn lemma_pop_not_in_rest(st: Seq<(usize, usize)>)
    requires
        inv_stack_distinct(st),
        st.len() >= 1,
    ensures
        !stack_has(st.drop_last(), st.last().0 as int, st.last().1 as int),
{
    let rest = st.drop_last();
    let e = st.last();
    if stack_has(rest, e.0 as int, e.1 as int) {
        let k = choose|k: int|
            0 <= k < rest.len() && (#[trigger] rest[k]).0 == e.0 as int && rest[k].1 == e.1 as int;
        assert(st[k] == rest[k]);
        assert(st[st.len() - 1] == e);
        assert(st[k].0 == e.0 && st[k].1 == e.1);
        assert(st[k] == st[st.len() - 1]);
    }
}

/// Instantiates the worklist invariant at one entry.
pub proof fn lemma_stack_ok_at(
    f0: Field,
    cur: Field,
    st: Seq<(usize, usize)>,
    sx: int,
    sy: int,
    k: int,
)
    requires
        inv_stack_ok(f0, cur, st, sx, sy),
        0 <= k < st.len(),
    ensures
        f0.in_bounds_xy(st[k].0 as int, st[k].1 as int),
        cur.cell_at(st[k].0 as int, st[k].1 as int).is_revealed(),
        (st[k].0 == sx && st[k].1 == sy) || (f0.flood_reaches(sx, sy, st[k].0 as int, st[k].1 as int)
            && !f0.cell_at(st[k].0 as int, st[k].1 as int).is_revealed()),
{
    // mentioning st[k] lets the worklist invariant's quantifier fire
    assert(st[k] == st[k]);
}

/// Instantiates the closure property at one cell.
pub proof fn lemma_closure_at(
    f0: Field,
    cur: Field,
    pending: Seq<(usize, usize)>,
    sx: int,
    sy: int,
    x2: int,
    y2: int,
)
    requires
        closure_holds(f0, cur, pending, sx, sy),
        f0.in_bounds_xy(x2, y2),
        (x2 == sx && y2 == sy) || (cur.cell_at(x2, y2).is_revealed() && !f0.cell_at(
            x2,
            y2,
        ).is_revealed()),
        f0.expands(x2, y2),
        !stack_has(pending, x2, y2),
    ensures
        cur.neighbours_revealed(x2, y2),
{
}



/// After a reveal at `(sx, sy)`, exactly the start and the reached cells
/// are newly revealed.
pub open spec fn reveal_covers(pre: Field, post: Field, sx: int, sy: int) -> bool {
    forall|x2: int, y2: int|
        #![trigger post.cell_at(x2, y2)]
        pre.in_bounds_xy(x2, y2) ==> (post.cell_at(x2, y2).is_revealed() <==> (pre.cell_at(
            x2,
            y2,
        ).is_revealed() || (x2 == sx && y2 == sy) || pre.flood_reaches(sx, sy, x2, y2)))
}

/// The flood from `(sx, sy)` reaches some unflagged mine.
pub open spec fn detonation_reachable(pre: Field, sx: int, sy: int) -> bool {
    exists|x2: int, y2: int|
        #![trigger pre.flood_reaches(sx, sy, x2, y2)]
        pre.in_bounds_xy(x2, y2) && pre.flood_reaches(sx, sy, x2, y2) && !pre.cell_at(
            x2,
            y2,
        ).is_flagged() && pre.cell_at(x2, y2).is_mine()
}

/// Right after the start cell alone is revealed and pushed, all the flood
/// loop's invariants hold.
pub proof fn lemma_start_invs(f0: Field, cur: Field, st: Seq<(usize, usize)>, sx: int, sy: int)
    requires
        f0.wf_base(),
        same_footprint(f0, cur),
        f0.in_bounds_xy(sx, sy),
        st.len() == 1,
        st[0].0 == sx && st[0].1 == sy,
        cur.cell_at(sx, sy).is_revealed(),
        cell_same_except_revealed(
            cur.spec_cells()[f0.cell_index(sx, sy)],
            f0.spec_cells()[f0.cell_index(sx, sy)],
        ),
        forall|i: int|
            #![trigger cur.spec_cells()[i]]
            0 <= i < f0.spec_cells().len() && i != f0.cell_index(sx, sy) ==> cur.spec_cells()[i]
                == f0.spec_cells()[i],
    ensures
        cells_static_eq(f0, cur),
        revealed_monotone(f0, cur),
        inv_sound(f0, cur, sx, sy),
        inv_stack_ok(f0, cur, st, sx, sy),
        inv_stack_distinct(st),
        closure_holds(f0, cur, st, sx, sy),
        !some_detonated(f0, cur, st),
{
    let w = f0.spec_width();
    let h = f0.spec_height();
    let sidx = f0.cell_index(sx, sy);
    lemma_row_major(sx, sy, w, h);
    assert(stack_has(st, sx, sy)) by {
        assert(st[0].0 == sx && st[0].1 == sy);
    }
    assert forall|i: int|
        0 <= i < f0.spec_cells().len() implies cell_same_except_revealed(
        #[trigger] cur.spec_cells()[i],
        f0.spec_cells()[i],
    ) by {}
    assert forall|x2: int, y2: int|
        f0.in_bounds_xy(x2, y2) && cur.cell_at(x2, y2).is_revealed() && !f0.cell_at(
            x2,
            y2,
        ).is_revealed() implies ((x2 == sx && y2 == sy) || f0.flood_reaches(sx, sy, x2, y2)) by {
        lemma_row_major(x2, y2, w, h);
        if f0.cell_index(x2, y2) != sidx {
            assert(cur.spec_cells()[f0.cell_index(x2, y2)] == f0.spec_cells()[f0.cell_index(
                x2,
                y2,
            )]);
        } else {
            crate::grid::lemma_row_major_injective(x2, y2, sx, sy, w, h);
        }
    }
    assert forall|k: int| 0 <= k < st.len() implies (f0.in_bounds_xy(
        (#[trigger] st[k]).0 as int,
        st[k].1 as int,
    ) && cur.cell_at(st[k].0 as int, st[k].1 as int).is_revealed() && ((st[k].0 == sx && st[k].1
        == sy) || (f0.flood_reaches(sx, sy, st[k].0 as int, st[k].1 as int) && !f0.cell_at(
        st[k].0 as int,
        st[k].1 as int,
    ).is_revealed()))) by {
        assert(st[k] == st[0]);
    }
    assert forall|x2: int, y2: int|
        f0.in_bounds_xy(x2, y2) && ((x2 == sx && y2 == sy) || (cur.cell_at(x2, y2).is_revealed()
            && !f0.cell_at(x2, y2).is_revealed())) && f0.expands(x2, y2) && !stack_has(st, x2, y2)
            implies cur.neighbours_revealed(x2, y2) by {
        lemma_row_major(x2, y2, w, h);
        if x2 == sx && y2 == sy {
            assert(stack_has(st, x2, y2));
        } else {
            if f0.cell_index(x2, y2) != sidx {
                assert(cur.spec_cells()[f0.cell_index(x2, y2)] == f0.spec_cells()[f0.cell_index(
                    x2,
                    y2,
                )]);
            } else {
                crate::grid::lemma_row_major_injective(x2, y2, sx, sy, w, h);
            }
            assert(false);
        }
    }
    if some_detonated(f0, cur, st) {
        let (wx, wy) = choose|wx: int, wy: int|
            #![trigger cur.cell_at(wx, wy)]
            f0.in_bounds_xy(wx, wy) && cur.cell_at(wx, wy).is_revealed() && !f0.cell_at(
                wx,
                wy,
            ).is_revealed() && !stack_has(st, wx, wy) && !f0.cell_at(wx, wy).is_flagged()
                && f0.cell_at(wx, wy).is_mine();
        lemma_row_major(wx, wy, w, h);
        if f0.cell_index(wx, wy) != sidx {
            assert(cur.spec_cells()[f0.cell_index(wx, wy)] == f0.spec_cells()[f0.cell_index(
                wx,
                wy,
            )]);
        } else {
            crate::grid::lemma_row_major_injective(wx, wy, sx, sy, w, h);
            assert(stack_has(st, wx, wy));
        }
    }
}

/// At loop exit every cell obeys the reveal equivalence: it is revealed
/// exactly when it was already revealed, is the start, or is reached.
pub proof fn lemma_reveal_covers_build(f0: Field, cur: Field, sx: int, sy: int)
    requires
        f0.wf_base(),
        same_footprint(f0, cur),
        cells_static_eq(f0, cur),
        revealed_monotone(f0, cur),
        f0.in_bounds_xy(sx, sy),
        cur.cell_at(sx, sy).is_revealed(),
        inv_sound(f0, cur, sx, sy),
        closure_holds(f0, cur, Seq::<(usize, usize)>::empty(), sx, sy),
    ensures
        reveal_covers(f0, cur, sx, sy),
{
    let w = f0.spec_width();
    let h = f0.spec_height();
    assert forall|x2: int, y2: int|
        f0.in_bounds_xy(x2, y2) implies (cur.cell_at(x2, y2).is_revealed() <==> (f0.cell_at(
        x2,
        y2,
    ).is_revealed() || (x2 == sx && y2 == sy) || f0.flood_reaches(sx, sy, x2, y2))) by {
        lemma_row_major(x2, y2, w, h);
        if f0.cell_at(x2, y2).is_revealed() {
            assert(cur.cell_at(x2, y2).is_revealed());
        }
        if f0.flood_reaches(sx, sy, x2, y2) {
            let p = choose|p: Seq<(int, int)>| f0.flood_path(p, sx, sy, x2, y2);
            lemma_path_end_revealed(f0, cur, p, sx, sy, x2, y2);
        }
    }
}

/// With the flood finished, a detonation among the newly revealed cells is
/// exactly a mine at the start or an unflagged mine the flood reaches.
pub proof fn lemma_detonated_vs_reachable(f0: Field, cur: Field, sx: int, sy: int)
    requires
        f0.wf_base(),
        same_footprint(f0, cur),
        cells_static_eq(f0, cur),
        revealed_monotone(f0, cur),
        f0.in_bounds_xy(sx, sy),
        cur.cell_at(sx, sy).is_revealed(),
        inv_sound(f0, cur, sx, sy),
        closure_holds(f0, cur, Seq::<(usize, usize)>::empty(), sx, sy),
    ensures
        some_detonated(f0, cur, Seq::<(usize, usize)>::empty()) ==> (f0.cell_at(sx, sy).is_mine()
            || detonation_reachable(f0, sx, sy)),
        detonation_reachable(f0, sx, sy) ==> some_detonated(
            f0,
            cur,
            Seq::<(usize, usize)>::empty(),
        ),
{
    let w = f0.spec_width();
    let h = f0.spec_height();
    let empty = Seq::<(usize, usize)>::empty();
    if some_detonated(f0, cur, empty) {
        let (wx, wy) = choose|wx: int, wy: int|
            #![trigger cur.cell_at(wx, wy)]
            f0.in_bounds_xy(wx, wy) && cur.cell_at(wx, wy).is_revealed() && !f0.cell_at(
                wx,
                wy,
            ).is_revealed() && !stack_has(empty, wx, wy) && !f0.cell_at(wx, wy).is_flagged()
                && f0.cell_at(wx, wy).is_mine();
        lemma_row_major(wx, wy, w, h);
        assert((wx == sx && wy == sy) || f0.flood_reaches(sx, sy, wx, wy));
        if !(wx == sx && wy == sy) {
            assert(f0.flood_reaches(sx, sy, wx, wy));
            assert(detonation_reachable(f0, sx, sy));
        }
    }
    if detonation_reachable(f0, sx, sy) {
        let (wx, wy) = choose|wx: int, wy: int|
            #![trigger f0.flood_reaches(sx, sy, wx, wy)]
            f0.in_bounds_xy(wx, wy) && f0.flood_reaches(sx, sy, wx, wy) && !f0.cell_at(
                wx,
                wy,
            ).is_flagged() && f0.cell_at(wx, wy).is_mine();
        lemma_row_major(wx, wy, w, h);
        lemma_flood_reach_rim(f0, sx, sy, wx, wy);
        let p = choose|p: Seq<(int, int)>| f0.flood_path(p, sx, sy, wx, wy);
        lemma_path_end_revealed(f0, cur, p, sx, sy, wx, wy);
        assert(!stack_has(empty, wx, wy));
        assert(some_detonated(f0, cur, empty));
    }
}

} // verus!
