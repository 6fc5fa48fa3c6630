//! The play field: a row-major grid of cells, a cursor, and the global
//! game-over state, together with every operation of the game.

use vstd::prelude::*;
use crate::cell::Cell;
use crate::counting::{
    count_flags, count_hidden, count_mines, count_true, lemma_count_flags_step,
    lemma_count_hidden_update, lemma_count_mines_matches_layout, lemma_count_mines_step,
    lemma_count_true_multiset, lemma_count_true_push, lemma_counts_le_len,
};
use crate::flood::{
    cells_static_eq, closure_holds, detonation_reachable, lemma_flood_reaches_transfer, inv_sound, inv_stack_distinct,
    inv_stack_ok, lemma_closure_drop_pending, lemma_detonated_vs_reachable,
    lemma_neighbours_revealed_monotone, lemma_pop_not_in_rest, lemma_reveal_covers_build,
    lemma_flood_reaches_extend, lemma_same_cells_preds, lemma_sd_after_push,
    lemma_sd_drop_pending, lemma_stack_has_push, lemma_stack_ok_at,
    lemma_start_invs, reveal_covers, revealed_monotone, same_footprint, some_detonated, stack_has,
};
use crate::grid::{adjacent, lemma_row_major, lemma_row_major_injective, near};

verus! {

/// The play field: `height * width` cells in row-major order (the cell at
/// `(x, y)` has index `y * width + x`), a cursor that always stays in
/// bounds, and the one-way `game_over` flag.
#[derive(Clone)]
pub struct Field {
    height: usize,
    width: usize,
    game_over: bool,
    cells: Vec<Cell>,
    cursor_x: usize,
    cursor_y: usize,
}

/// One of the four borders of the field, as a cursor-jump target.
pub enum Edge {
    Left,
    Right,
    Up,
    Down,
}

impl Field {
    /// The height of the field, as a mathematical integer.
    pub closed spec fn spec_height(&self) -> int {
        self.height as int
    }

    /// The width of the field, as a mathematical integer.
    pub closed spec fn spec_width(&self) -> int {
        self.width as int
    }

    /// The cells of the field, in row-major order.
    pub closed spec fn spec_cells(&self) -> Seq<Cell> {
        self.cells@
    }

    /// The cursor's column.
    pub closed spec fn spec_cursor_x(&self) -> int {
        self.cursor_x as int
    }

    /// The cursor's row.
    pub closed spec fn spec_cursor_y(&self) -> int {
        self.cursor_y as int
    }

    /// Whether a mine has been detonated.
    pub closed spec fn spec_game_over(&self) -> bool {
        self.game_over
    }

    /// `(x, y)` lies on the field.
    pub open spec fn in_bounds_xy(&self, x: int, y: int) -> bool {
        &&& 0 <= x < self.spec_width()
        &&& 0 <= y < self.spec_height()
    }

    /// The row-major index of `(x, y)`.
    pub open spec fn cell_index(&self, x: int, y: int) -> int {
        y * self.spec_width() + x
    }

    /// The cell at `(x, y)`.
    pub open spec fn cell_at(&self, x: int, y: int) -> Cell {
        self.spec_cells()[self.cell_index(x, y)]
    }

    /// 1 if `(x, y)` is on the field and holds a mine, else 0.
    pub open spec fn mine_indicator(&self, x: int, y: int) -> int {
        if self.in_bounds_xy(x, y) && self.cell_at(x, y).is_mine() {
            1
        } else {
            0
        }
    }

    /// 1 if `(x, y)` is on the field and is flagged, else 0.
    pub open spec fn flag_indicator(&self, x: int, y: int) -> int {
        if self.in_bounds_xy(x, y) && self.cell_at(x, y).is_flagged() {
            1
        } else {
            0
        }
    }

    /// The number of mines among the up-to-8 Moore neighbours of `(x, y)` —
    /// the cell itself does not count.
    pub open spec fn mine_count_around(&self, x: int, y: int) -> int {
        self.mine_indicator(x - 1, y - 1) + self.mine_indicator(x, y - 1) + self.mine_indicator(
            x + 1,
            y - 1,
        ) + self.mine_indicator(x - 1, y) + self.mine_indicator(x + 1, y) + self.mine_indicator(
            x - 1,
            y + 1,
        ) + self.mine_indicator(x, y + 1) + self.mine_indicator(x + 1, y + 1)
    }

    /// Every cell's recorded neighbour count is the true number of mines in
    /// its Moore neighbourhood.
    pub open spec fn nb_counts_ok(&self) -> bool {
        forall|x: int, y: int|
            self.in_bounds_xy(x, y) ==> (#[trigger] self.cell_at(x, y)).spec_neighbours() as int
                == self.mine_count_around(x, y)
    }

    /// The structural invariant: positive dimensions, a full grid of cells,
    /// and an in-bounds cursor.  The size bound reflects that a vector of
    /// cells larger than `isize::MAX` cannot be allocated.
    pub open spec fn wf_base(&self) -> bool {
        &&& 1 <= self.spec_width()
        &&& 1 <= self.spec_height()
        &&& self.spec_cells().len() == self.spec_height() * self.spec_width()
        &&& self.spec_height() * self.spec_width() <= isize::MAX
        &&& 0 <= self.spec_cursor_x() < self.spec_width()
        &&& 0 <= self.spec_cursor_y() < self.spec_height()
    }

    /// The full field invariant: structure plus correct neighbour counts.
    pub open spec fn wf(&self) -> bool {
        &&& self.wf_base()
        &&& self.nb_counts_ok()
    }

    /// Every non-mine cell has been revealed.
    pub open spec fn spec_won(&self) -> bool {
        forall|i: int|
            0 <= i < self.spec_cells().len() ==> ((#[trigger] self.spec_cells()[i]).is_mine()
                || self.spec_cells()[i].is_revealed())
    }
}

/// The two cells agree on everything except possibly the revealed state.
pub open spec fn cell_same_except_revealed(a: Cell, b: Cell) -> bool {
    &&& a.is_mine() == b.is_mine()
    &&& a.spec_neighbours() == b.spec_neighbours()
    &&& a.is_flagged() == b.is_flagged()
}

/// The two cells agree on everything except possibly the flag.
pub open spec fn cell_same_except_flag(a: Cell, b: Cell) -> bool {
    &&& a.is_mine() == b.is_mine()
    &&& a.spec_neighbours() == b.spec_neighbours()
    &&& a.is_revealed() == b.is_revealed()
}

impl Field {
    /// Returns the total number of flags in the field.
    pub fn total_flags(&self) -> (r: usize)
        ensures
            r == count_flags(self.spec_cells()),
    {
        let n = self.cells.len();
        let mut count: usize = 0;
        let mut i: usize = 0;
        while i < n
            invariant
                0 <= i <= n,
                n == self.spec_cells().len(),
                count <= i,
                count == count_flags(self.spec_cells().subrange(0, i as int)),
            decreases n - i,
        {
            proof {
                lemma_count_flags_step(self.spec_cells(), i as int);
            }
            if self.cells[i].is_flagged() {
                count = count + 1;
            }
            i = i + 1;
        }
        proof {
            assert(self.spec_cells().subrange(0, n as int) =~= self.spec_cells());
        }
        count
    }

    /// Returns the total number of mines in the field.
    pub fn total_mines(&self) -> (r: usize)
        ensures
            r == count_mines(self.spec_cells()),
    {
        let n = self.cells.len();
        let mut count: usize = 0;
        let mut i: usize = 0;
        while i < n
            invariant
                0 <= i <= n,
                n == self.spec_cells().len(),
                count <= i,
                count == count_mines(self.spec_cells().subrange(0, i as int)),
            decreases n - i,
        {
            proof {
                lemma_count_mines_step(self.spec_cells(), i as int);
            }
            if self.cells[i].is_mine() {
                count = count + 1;
            }
            i = i + 1;
        }
        proof {
            assert(self.spec_cells().subrange(0, n as int) =~= self.spec_cells());
        }
        count
    }

    /// Returns the number of mines minus the number of flags placed; this
    /// goes negative when the player has over-flagged.
    pub fn mines_left(&self) -> (r: isize)
        requires
            self.wf_base(),
        ensures
            r as int == count_mines(self.spec_cells()) - count_flags(self.spec_cells()),
    {
        proof {
            lemma_counts_le_len(self.spec_cells());
        }
        let mines = self.total_mines();
        let flags = self.total_flags();
        (mines as isize) - (flags as isize)
    }

    /// Returns the cell at a given position.
    pub fn get_cell(&self, x: usize, y: usize) -> (r: Cell)
        requires
            self.wf_base(),
            self.in_bounds_xy(x as int, y as int),
        ensures
            r == self.cell_at(x as int, y as int),
    {
        proof {
            lemma_row_major(x as int, y as int, self.spec_width(), self.spec_height());
        }
        let index = y * self.width + x;
        self.cells[index]
    }

    /// Read-only access to the ordered cells.
    pub fn cells(&self) -> (r: &Vec<Cell>)
        ensures
            r@ == self.spec_cells(),
    {
        &self.cells
    }

    /// The width of the field.
    pub fn width(&self) -> (r: usize)
        ensures
            r as int == self.spec_width(),
    {
        self.width
    }

    /// Returns the x value of the cursor position in the field.
    pub fn cursor_pos_x(&self) -> (r: usize)
        ensures
            r as int == self.spec_cursor_x(),
    {
        self.cursor_x
    }

    /// Returns the y value of the cursor position in the field.
    pub fn cursor_pos_y(&self) -> (r: usize)
        ensures
            r as int == self.spec_cursor_y(),
    {
        self.cursor_y
    }

    /// Returns true if the game is over, i.e. a mine has been detonated.
    pub fn is_game_over(&self) -> (r: bool)
        ensures
            r == self.spec_game_over(),
    {
        self.game_over
    }

    /// Returns `true` if the player has won: every non-mine cell is
    /// revealed, whatever the flags and the mine cells' states.
    pub fn has_won(&self) -> (r: bool)
        ensures
            r == self.spec_won(),
    {
        let n = self.cells.len();
        let mut i: usize = 0;
        while i < n
            invariant
                0 <= i <= n,
                n == self.spec_cells().len(),
                forall|j: int|
                    0 <= j < i ==> ((#[trigger] self.spec_cells()[j]).is_mine()
                        || self.spec_cells()[j].is_revealed()),
            decreases n - i,
        {
            if !self.cells[i].is_mine() && !self.cells[i].is_revealed() {
                return false;
            }
            i = i + 1;
        }
        true
    }
}

/// What `flag` leaves behind: only the flag of the target cell is toggled.
pub open spec fn flag_post(pre: Field, post: Field, x: int, y: int) -> bool {
    let i = pre.cell_index(x, y);
    &&& post.spec_width() == pre.spec_width()
    &&& post.spec_height() == pre.spec_height()
    &&& post.spec_cursor_x() == pre.spec_cursor_x()
    &&& post.spec_cursor_y() == pre.spec_cursor_y()
    &&& post.spec_game_over() == pre.spec_game_over()
    &&& post.spec_cells().len() == pre.spec_cells().len()
    &&& forall|j: int|
        0 <= j < pre.spec_cells().len() && j != i ==> #[trigger] post.spec_cells()[j]
            == pre.spec_cells()[j]
    &&& cell_same_except_flag(post.spec_cells()[i], pre.spec_cells()[i])
    &&& post.spec_cells()[i].is_flagged() == !pre.spec_cells()[i].is_flagged()
}

/// What a cursor translation leaves behind: the cursor moves by the delta
/// when the destination is on the field, otherwise nothing changes.
pub open spec fn translate_post(pre: Field, post: Field, dx: int, dy: int) -> bool {
    let nx = pre.spec_cursor_x() + dx;
    let ny = pre.spec_cursor_y() + dy;
    &&& post.spec_width() == pre.spec_width()
    &&& post.spec_height() == pre.spec_height()
    &&& post.spec_cells() == pre.spec_cells()
    &&& post.spec_game_over() == pre.spec_game_over()
    &&& if 0 <= nx < pre.spec_width() && 0 <= ny < pre.spec_height() {
        post.spec_cursor_x() == nx && post.spec_cursor_y() == ny
    } else {
        post.spec_cursor_x() == pre.spec_cursor_x() && post.spec_cursor_y() == pre.spec_cursor_y()
    }
}

/// What `move_cursor_to_edge` leaves behind: the cursor's x or y snaps to
/// the named border; everything else is untouched.
pub open spec fn edge_post(pre: Field, post: Field, edge: Edge) -> bool {
    &&& post.spec_width() == pre.spec_width()
    &&& post.spec_height() == pre.spec_height()
    &&& post.spec_cells() == pre.spec_cells()
    &&& post.spec_game_over() == pre.spec_game_over()
    &&& match edge {
        Edge::Left => post.spec_cursor_x() == 0 && post.spec_cursor_y() == pre.spec_cursor_y(),
        Edge::Right => post.spec_cursor_x() == pre.spec_width() - 1 && post.spec_cursor_y()
            == pre.spec_cursor_y(),
        Edge::Up => post.spec_cursor_y() == 0 && post.spec_cursor_x() == pre.spec_cursor_x(),
        Edge::Down => post.spec_cursor_y() == pre.spec_height() - 1 && post.spec_cursor_x()
            == pre.spec_cursor_x(),
    }
}

impl Field {
    /// Toggles the flag of the cell at `(x, y)`; nothing else changes.
    pub fn flag(&mut self, x: usize, y: usize)
        requires
            old(self).wf(),
            old(self).in_bounds_xy(x as int, y as int),
        ensures
            final(self).wf(),
            flag_post(*old(self), *final(self), x as int, y as int),
    {
        proof {
            lemma_row_major(x as int, y as int, self.spec_width(), self.spec_height());
        }
        let index = y * self.width + x;
        let mut c = self.cells[index];
        c.toggle_flagged();
        self.cells[index] = c;
        proof {
            lemma_nb_counts_stable(*old(self), *self);
        }
    }

    /// Returns `true` when moving the cursor by `(x, y)` stays on the field.
    fn valid_translation(&self, x: isize, y: isize) -> (r: bool)
        requires
            self.wf_base(),
        ensures
            r == (0 <= self.spec_cursor_x() + x <= self.spec_width() - 1 && 0
                <= self.spec_cursor_y() + y <= self.spec_height() - 1),
    {
        let new_x: i128 = self.cursor_x as i128 + x as i128;
        let new_y: i128 = self.cursor_y as i128 + y as i128;
        0 <= new_x && new_x < self.width as i128 && 0 <= new_y && new_y < self.height as i128
    }

    /// Moves the cursor horizontally by `translation` if the destination is
    /// on the field; otherwise leaves it where it is.
    pub fn translate_x(&mut self, translation: isize)
        requires
            old(self).wf(),
        ensures
            final(self).wf(),
            translate_post(*old(self), *final(self), translation as int, 0),
    {
        if self.valid_translation(translation, 0) {
            let new_x: i128 = self.cursor_x as i128 + translation as i128;
            self.cursor_x = new_x as usize;
        }
        proof {
            lemma_nb_counts_stable(*old(self), *self);
        }
    }

    /// Moves the cursor vertically by `translation` if the destination is
    /// on the field; otherwise leaves it where it is.
    pub fn translate_y(&mut self, translation: isize)
        requires
            old(self).wf(),
        ensures
            final(self).wf(),
            translate_post(*old(self), *final(self), 0, translation as int),
    {
        if self.valid_translation(0, translation) {
            let new_y: i128 = self.cursor_y as i128 + translation as i128;
            self.cursor_y = new_y as usize;
        }
        proof {
            lemma_nb_counts_stable(*old(self), *self);
        }
    }

    /// Snaps the cursor to one of the four borders of the field.
    pub fn move_cursor_to_edge(&mut self, edge: Edge)
        requires
            old(self).wf(),
        ensures
            final(self).wf(),
            edge_post(*old(self), *final(self), edge),
    {
        match edge {
            Edge::Left => self.cursor_x = 0,
            Edge::Right => self.cursor_x = self.width - 1,
            Edge::Up => self.cursor_y = 0,
            Edge::Down => self.cursor_y = self.height - 1,
        }
        proof {
            lemma_nb_counts_stable(*old(self), *self);
        }
    }
}

/// Neighbour counts are a function of the mine layout alone, so any change
/// that keeps every cell's mine status and recorded count keeps the
/// neighbour-count invariant.
pub proof fn lemma_nb_counts_stable(pre: Field, post: Field)
    requires
        pre.nb_counts_ok(),
        pre.spec_cells().len() == pre.spec_height() * pre.spec_width(),
        post.spec_width() == pre.spec_width(),
        post.spec_height() == pre.spec_height(),
        post.spec_cells().len() == pre.spec_cells().len(),
        forall|i: int|
            0 <= i < pre.spec_cells().len() ==> (#[trigger] post.spec_cells()[i]).is_mine()
                == pre.spec_cells()[i].is_mine() && post.spec_cells()[i].spec_neighbours()
                == pre.spec_cells()[i].spec_neighbours(),
    ensures
        post.nb_counts_ok(),
{
    assert forall|x: int, y: int| post.in_bounds_xy(x, y) implies (#[trigger] post.cell_at(
        x,
        y,
    )).spec_neighbours() as int == post.mine_count_around(x, y) by {
        lemma_row_major(x, y, post.spec_width(), post.spec_height());
        assert(pre.cell_at(x, y).spec_neighbours() as int == pre.mine_count_around(x, y));
        lemma_mine_count_around_stable(pre, post, x, y);
    }
}

/// The neighbour-mine sum at `(x, y)` is stable under changes that keep
/// every cell's mine status.
pub proof fn lemma_mine_count_around_stable(pre: Field, post: Field, x: int, y: int)
    requires
        pre.spec_cells().len() == pre.spec_height() * pre.spec_width(),
        post.spec_width() == pre.spec_width(),
        post.spec_height() == pre.spec_height(),
        post.spec_cells().len() == pre.spec_cells().len(),
        forall|i: int|
            0 <= i < pre.spec_cells().len() ==> (#[trigger] post.spec_cells()[i]).is_mine()
                == pre.spec_cells()[i].is_mine(),
    ensures
        post.mine_count_around(x, y) == pre.mine_count_around(x, y),
{
    lemma_mine_indicator_stable(pre, post, x - 1, y - 1);
    lemma_mine_indicator_stable(pre, post, x, y - 1);
    lemma_mine_indicator_stable(pre, post, x + 1, y - 1);
    lemma_mine_indicator_stable(pre, post, x - 1, y);
    lemma_mine_indicator_stable(pre, post, x + 1, y);
    lemma_mine_indicator_stable(pre, post, x - 1, y + 1);
    lemma_mine_indicator_stable(pre, post, x, y + 1);
    lemma_mine_indicator_stable(pre, post, x + 1, y + 1);
}

/// One term of the neighbour sum is stable under changes that keep every
/// cell's mine status.
proof fn lemma_mine_indicator_stable(pre: Field, post: Field, x: int, y: int)
    requires
        pre.spec_cells().len() == pre.spec_height() * pre.spec_width(),
        post.spec_width() == pre.spec_width(),
        post.spec_height() == pre.spec_height(),
        post.spec_cells().len() == pre.spec_cells().len(),
        forall|i: int|
            0 <= i < pre.spec_cells().len() ==> (#[trigger] post.spec_cells()[i]).is_mine()
                == pre.spec_cells()[i].is_mine(),
    ensures
        post.mine_indicator(x, y) == pre.mine_indicator(x, y),
{
    if post.in_bounds_xy(x, y) {
        lemma_row_major(x, y, post.spec_width(), post.spec_height());
        assert(0 <= post.cell_index(x, y) < post.spec_cells().len());
    }
}


impl Field {
    /// Whether the in-bounds cell `(x, y)` holds a mine.
    fn mine_at(&self, x: usize, y: usize) -> (r: bool)
        requires
            self.wf_base(),
            self.in_bounds_xy(x as int, y as int),
        ensures
            r == self.cell_at(x as int, y as int).is_mine(),
    {
        proof {
            lemma_row_major(x as int, y as int, self.spec_width(), self.spec_height());
        }
        let index = y * self.width + x;
        self.cells[index].is_mine()
    }

    /// Returns the number of mines neighbouring the cell at `index`.
    fn count_neighbours(&self, index: usize) -> (r: usize)
        requires
            self.wf_base(),
            index < self.spec_cells().len(),
        ensures
            r as int == self.mine_count_around(
                (index as int) % self.spec_width(),
                (index as int) / self.spec_width(),
            ),
    {
        proof {
            crate::grid::lemma_row_major_decode(
                index as int,
                self.spec_width(),
                self.spec_height(),
            );
        }
        let x = index % self.width;
        let y = index / self.width;
        let mut count: usize = 0;
        if x > 0 && y > 0 && self.mine_at(x - 1, y - 1) {
            count = count + 1;
        }
        if y > 0 && self.mine_at(x, y - 1) {
            count = count + 1;
        }
        if x + 1 < self.width && y > 0 && self.mine_at(x + 1, y - 1) {
            count = count + 1;
        }
        if x > 0 && self.mine_at(x - 1, y) {
            count = count + 1;
        }
        if x + 1 < self.width && self.mine_at(x + 1, y) {
            count = count + 1;
        }
        if x > 0 && y + 1 < self.height && self.mine_at(x - 1, y + 1) {
            count = count + 1;
        }
        if y + 1 < self.height && self.mine_at(x, y + 1) {
            count = count + 1;
        }
        if x + 1 < self.width && y + 1 < self.height && self.mine_at(x + 1, y + 1) {
            count = count + 1;
        }
        count
    }

    /// Writes every cell's true neighbouring-mine count into the cell.
    fn initialize_neighbours(&mut self)
        requires
            old(self).wf_base(),
        ensures
            final(self).wf_base(),
            final(self).nb_counts_ok(),
            final(self).spec_width() == old(self).spec_width(),
            final(self).spec_height() == old(self).spec_height(),
            final(self).spec_cursor_x() == old(self).spec_cursor_x(),
            final(self).spec_cursor_y() == old(self).spec_cursor_y(),
            final(self).spec_game_over() == old(self).spec_game_over(),
            final(self).spec_cells().len() == old(self).spec_cells().len(),
            forall|i: int|
                0 <= i < old(self).spec_cells().len() ==> (#[trigger] final(self).spec_cells()[i]).is_mine()
                    == old(self).spec_cells()[i].is_mine() && final(self).spec_cells()[i].is_revealed()
                    == old(self).spec_cells()[i].is_revealed() && final(self).spec_cells()[i].is_flagged()
                    == old(self).spec_cells()[i].is_flagged(),
    {
        let n = self.cells.len();
        let mut i: usize = 0;
        while i < n
            invariant
                old(self).wf_base(),
                0 <= i <= n,
                n == self.spec_cells().len(),
                self.spec_width() == old(self).spec_width(),
                self.spec_height() == old(self).spec_height(),
                self.spec_cursor_x() == old(self).spec_cursor_x(),
                self.spec_cursor_y() == old(self).spec_cursor_y(),
                self.spec_game_over() == old(self).spec_game_over(),
                self.spec_cells().len() == old(self).spec_cells().len(),
                forall|j: int|
                    0 <= j < n ==> (#[trigger] self.spec_cells()[j]).is_mine()
                        == old(self).spec_cells()[j].is_mine() && self.spec_cells()[j].is_revealed()
                        == old(self).spec_cells()[j].is_revealed()
                        && self.spec_cells()[j].is_flagged()
                        == old(self).spec_cells()[j].is_flagged(),
                forall|j: int|
                    0 <= j < i ==> (#[trigger] self.spec_cells()[j]).spec_neighbours() as int
                        == old(self).mine_count_around(
                        j % old(self).spec_width(),
                        j / old(self).spec_width(),
                    ),
            decreases n - i,
        {
            let nb = self.count_neighbours(i);
            proof {
                lemma_mine_count_around_stable(
                    *old(self),
                    *self,
                    (i as int) % old(self).spec_width(),
                    (i as int) / old(self).spec_width(),
                );
            }
            let mut c = self.cells[i];
            c.set_neighbours(nb);
            self.cells[i] = c;
            i = i + 1;
        }
        proof {
            let w = old(self).spec_width();
            let h = old(self).spec_height();
            assert forall|x: int, y: int| self.in_bounds_xy(x, y) implies (#[trigger] self.cell_at(
                x,
                y,
            )).spec_neighbours() as int == self.mine_count_around(x, y) by {
                lemma_row_major(x, y, w, h);
                assert(self.spec_cells()[y * w + x].spec_neighbours() as int
                    == old(self).mine_count_around(x, y));
                lemma_mine_count_around_stable(*old(self), *self, x, y);
            }
        }
    }

    /// Builds a field with the given dimensions whose mines sit exactly
    /// where `layout` (read in row-major order) holds `true`.
    pub fn with_mine_layout(height: usize, width: usize, layout: Vec<bool>) -> (f: Field)
        requires
            1 <= height,
            1 <= width,
            (height as int) * (width as int) <= isize::MAX,
            layout@.len() == (height as int) * (width as int),
        ensures
            f.wf(),
            f.spec_height() == height,
            f.spec_width() == width,
            f.spec_cursor_x() == 0,
            f.spec_cursor_y() == 0,
            !f.spec_game_over(),
            f.spec_cells().len() == layout@.len(),
            forall|i: int|
                0 <= i < layout@.len() ==> (#[trigger] f.spec_cells()[i]).is_mine() == layout@[i]
                    && !f.spec_cells()[i].is_revealed() && !f.spec_cells()[i].is_flagged(),
            count_mines(f.spec_cells()) == count_true(layout@),
    {
        let n = layout.len();
        let mut cells: Vec<Cell> = Vec::new();
        let mut i: usize = 0;
        while i < n
            invariant
                0 <= i <= n,
                n == layout@.len(),
                cells@.len() == i,
                forall|j: int|
                    0 <= j < i ==> (#[trigger] cells@[j]).is_mine() == layout@[j]
                        && !cells@[j].is_revealed() && !cells@[j].is_flagged(),
            decreases n - i,
        {
            if layout[i] {
                cells.push(Cell::new_mine());
            } else {
                cells.push(Cell::new());
            }
            i = i + 1;
        }
        let mut f = Field { height, width, game_over: false, cells, cursor_x: 0, cursor_y: 0 };
        f.initialize_neighbours();
        proof {
            lemma_count_mines_matches_layout(f.spec_cells(), layout@);
        }
        f
    }

    /// Builds a `height` x `width` field holding `mines` uniformly placed
    /// mines.  A zero dimension is lifted to 1 and the mine count is capped
    /// by the number of cells; where the mines end up is left open.
    pub fn new(height: usize, width: usize, mines: usize) -> (f: Field)
        requires
            (if height == 0 {
                1int
            } else {
                height as int
            }) * (if width == 0 {
                1int
            } else {
                width as int
            }) <= isize::MAX,
        ensures
            f.wf(),
            f.spec_height() == (if height == 0 {
                1int
            } else {
                height as int
            }),
            f.spec_width() == (if width == 0 {
                1int
            } else {
                width as int
            }),
            f.spec_cursor_x() == 0,
            f.spec_cursor_y() == 0,
            !f.spec_game_over(),
            forall|i: int|
                0 <= i < f.spec_cells().len() ==> !(#[trigger] f.spec_cells()[i]).is_revealed()
                    && !f.spec_cells()[i].is_flagged(),
            count_mines(f.spec_cells()) == (if mines as int <= f.spec_height() * f.spec_width() {
                mines as int
            } else {
                f.spec_height() * f.spec_width()
            }),
    {
        let h = if height == 0 {
            1
        } else {
            height
        };
        let w = if width == 0 {
            1
        } else {
            width
        };
        let total = h * w;
        let m = if mines > total {
            total
        } else {
            mines
        };
        let mut layout: Vec<bool> = Vec::new();
        let mut i: usize = 0;
        while i < m
            invariant
                0 <= i <= m,
                layout@.len() == i,
                count_true(layout@) == i,
            decreases m - i,
        {
            proof {
                lemma_count_true_push(layout@, true);
            }
            layout.push(true);
            i = i + 1;
        }
        let mut j: usize = m;
        while j < total
            invariant
                m <= j <= total,
                layout@.len() == j,
                count_true(layout@) == m,
            decreases total - j,
        {
            proof {
                lemma_count_true_push(layout@, false);
            }
            layout.push(false);
            j = j + 1;
        }
        let ghost pre_shuffle = layout@;
        shuffle_bools(&mut layout);
        proof {
            lemma_count_true_multiset(pre_shuffle);
            lemma_count_true_multiset(layout@);
        }
        Field::with_mine_layout(h, w, layout)
    }
}


impl Field {
    /// One step of the flood fill: if the in-bounds neighbour `(nx, ny)` of
    /// the cell being processed (`pos`, which expands the flood) is still
    /// hidden, reveal it and put it on the worklist; otherwise do nothing.
    /// The contract carries the flood loop's invariants across the step.
    fn flood_push(
        &mut self,
        stack: &mut Vec<(usize, usize)>,
        nx: usize,
        ny: usize,
        Ghost(f0): Ghost<Field>,
        Ghost(sx): Ghost<int>,
        Ghost(sy): Ghost<int>,
        Ghost(pos): Ghost<(usize, usize)>,
    )
        requires
            f0.wf_base(),
            f0.in_bounds_xy(sx, sy),
            same_footprint(f0, *old(self)),
            cells_static_eq(f0, *old(self)),
            revealed_monotone(f0, *old(self)),
            f0.in_bounds_xy(nx as int, ny as int),
            f0.in_bounds_xy(pos.0 as int, pos.1 as int),
            adjacent(pos.0 as int, pos.1 as int, nx as int, ny as int),
            f0.expands(pos.0 as int, pos.1 as int),
            (pos.0 == sx && pos.1 == sy) || f0.flood_reaches(sx, sy, pos.0 as int, pos.1 as int),
            inv_sound(f0, *old(self), sx, sy),
            inv_stack_ok(f0, *old(self), old(stack)@, sx, sy),
            inv_stack_distinct(old(stack)@),
            closure_holds(f0, *old(self), old(stack)@.push(pos), sx, sy),
        ensures
            same_footprint(f0, *final(self)),
            cells_static_eq(f0, *final(self)),
            revealed_monotone(f0, *final(self)),
            final(self).spec_cursor_x() == old(self).spec_cursor_x(),
            final(self).spec_cursor_y() == old(self).spec_cursor_y(),
            final(self).spec_game_over() == old(self).spec_game_over(),
            forall|x2: int, y2: int|
                f0.in_bounds_xy(x2, y2) && old(self).cell_at(x2, y2).is_revealed()
                    ==> (#[trigger] final(self).cell_at(x2, y2)).is_revealed(),
            final(self).cell_at(nx as int, ny as int).is_revealed(),
            inv_sound(f0, *final(self), sx, sy),
            inv_stack_ok(f0, *final(self), final(stack)@, sx, sy),
            inv_stack_distinct(final(stack)@),
            closure_holds(f0, *final(self), final(stack)@.push(pos), sx, sy),
            some_detonated(f0, *final(self), final(stack)@.push(pos)) == some_detonated(
                f0,
                *old(self),
                old(stack)@.push(pos),
            ),
            forall|a: int, b: int|
                #![trigger stack_has(final(stack)@, a, b)]
                stack_has(final(stack)@, a, b) ==> (stack_has(old(stack)@, a, b) || !old(
                    self,
                ).cell_at(a, b).is_revealed()),
            old(self).cell_at(nx as int, ny as int).is_revealed() ==> *final(self) == *old(self)
                && final(stack)@ == old(stack)@,
            !old(self).cell_at(nx as int, ny as int).is_revealed() ==> final(stack)@ == old(
                stack,
            )@.push((nx, ny)),
            !old(self).cell_at(nx as int, ny as int).is_revealed() ==> count_hidden(
                final(self).spec_cells(),
            ) + 1 == count_hidden(old(self).spec_cells()),
            !old(self).cell_at(nx as int, ny as int).is_revealed() ==> !f0.cell_at(
                nx as int,
                ny as int,
            ).is_revealed(),
    {
        proof {
            lemma_row_major(nx as int, ny as int, f0.spec_width(), f0.spec_height());
        }
        let index = ny * self.width + nx;
        if !self.cells[index].is_revealed() {
            let ghost pre = *self;
            let ghost prestack = stack@;
            let mut c = self.cells[index];
            c.uncover();
            self.cells[index] = c;
            stack.push((nx, ny));
            proof {
                let w = f0.spec_width();
                let h = f0.spec_height();
                let nidx = f0.cell_index(nx as int, ny as int);
                assert(!f0.cell_at(nx as int, ny as int).is_revealed());
                lemma_flood_reaches_extend(
                    f0,
                    sx,
                    sy,
                    pos.0 as int,
                    pos.1 as int,
                    nx as int,
                    ny as int,
                );
                lemma_count_hidden_update(pre.spec_cells(), nidx, c);
                // the step only reveals; everything static is kept
                assert forall|x2: int, y2: int|
                    f0.in_bounds_xy(x2, y2) && pre.cell_at(x2, y2).is_revealed() implies (
                #[trigger] self.cell_at(x2, y2)).is_revealed() by {
                    lemma_row_major(x2, y2, w, h);
                }
                // soundness: the one newly revealed cell is reached
                assert forall|x2: int, y2: int|
                    f0.in_bounds_xy(x2, y2) && (#[trigger] self.cell_at(x2, y2)).is_revealed()
                        && !f0.cell_at(x2, y2).is_revealed() implies ((x2 == sx && y2 == sy)
                    || f0.flood_reaches(sx, sy, x2, y2)) by {
                    lemma_row_major(x2, y2, w, h);
                    if !pre.cell_at(x2, y2).is_revealed() {
                        lemma_row_major_injective(x2, y2, nx as int, ny as int, w, h);
                    }
                }
                // worklist invariants
                assert forall|k: int| 0 <= k < stack@.len() implies (f0.in_bounds_xy(
                    (#[trigger] stack@[k]).0 as int,
                    stack@[k].1 as int,
                ) && self.cell_at(stack@[k].0 as int, stack@[k].1 as int).is_revealed() && ((
                stack@[k].0 == sx && stack@[k].1 == sy) || (f0.flood_reaches(
                    sx,
                    sy,
                    stack@[k].0 as int,
                    stack@[k].1 as int,
                ) && !f0.cell_at(stack@[k].0 as int, stack@[k].1 as int).is_revealed()))) by {
                    if k < prestack.len() {
                        assert(stack@[k] == prestack[k]);
                        lemma_row_major(prestack[k].0 as int, prestack[k].1 as int, w, h);
                    } else {
                        assert(stack@[k] == (nx, ny));
                    }
                }
                assert forall|k1: int, k2: int|
                    #![trigger stack@[k1], stack@[k2]]
                    0 <= k1 < k2 < stack@.len() implies stack@[k1] != stack@[k2] by {
                    if k2 == prestack.len() {
                        assert(stack@[k1] == prestack[k1]);
                        assert(pre.cell_at(prestack[k1].0 as int, prestack[k1].1 as int)
                            .is_revealed());
                        assert(!pre.cell_at(nx as int, ny as int).is_revealed());
                        lemma_row_major(prestack[k1].0 as int, prestack[k1].1 as int, w, h);
                    } else {
                        assert(stack@[k1] == prestack[k1]);
                        assert(stack@[k2] == prestack[k2]);
                    }
                }
                crate::flood::lemma_closure_after_push(
                    f0,
                    pre,
                    *self,
                    prestack,
                    pos,
                    nx,
                    ny,
                    sx,
                    sy,
                );
                assert(stack@.push(pos) == prestack.push((nx, ny)).push(pos));
                assert(closure_holds(f0, *self, stack@.push(pos), sx, sy));
                crate::flood::lemma_sd_after_push(f0, pre, *self, prestack, pos, nx, ny);
                assert forall|a: int, b: int|
                    stack_has(stack@, a, b) implies (stack_has(prestack, a, b) || !pre.cell_at(
                    a,
                    b,
                ).is_revealed()) by {
                    lemma_stack_has_push(prestack, (nx, ny), a, b);
                    if !stack_has(prestack, a, b) {
                        assert(nx == a && ny == b);
                    }
                }
            }
        } else {
            proof {
                assert(stack@ == old(stack)@);
                assert(closure_holds(f0, *self, stack@.push(pos), sx, sy));
                assert forall|a: int, b: int|
                    stack_has(stack@, a, b) implies (stack_has(old(stack)@, a, b) || !old(
                    self,
                ).cell_at(a, b).is_revealed()) by {}
            }
        }
    }
}

impl Field {
    /// Processes one expandable cell of the flood: reveals and enqueues
    /// every hidden in-bounds Moore neighbour of `(cx, cy)`, then retires
    /// the cell from the pending closure obligation.
    #[verifier::rlimit(100)]
    #[verifier::spinoff_prover]
    fn flood_expand(
        &mut self,
        stack: &mut Vec<(usize, usize)>,
        cx: usize,
        cy: usize,
        Ghost(f0): Ghost<Field>,
        Ghost(sx): Ghost<int>,
        Ghost(sy): Ghost<int>,
        Ghost(pos): Ghost<(usize, usize)>,
    )
        requires
            pos.0 == cx && pos.1 == cy,
            f0.wf_base(),
            f0.in_bounds_xy(sx, sy),
            same_footprint(f0, *old(self)),
            cells_static_eq(f0, *old(self)),
            revealed_monotone(f0, *old(self)),
            old(self).cell_at(sx, sy).is_revealed(),
            f0.in_bounds_xy(cx as int, cy as int),
            f0.expands(cx as int, cy as int),
            (cx as int == sx && cy as int == sy) || f0.flood_reaches(sx, sy, cx as int, cy as int),
            old(self).cell_at(cx as int, cy as int).is_revealed(),
            inv_sound(f0, *old(self), sx, sy),
            inv_stack_ok(f0, *old(self), old(stack)@, sx, sy),
            inv_stack_distinct(old(stack)@),
            closure_holds(f0, *old(self), old(stack)@.push(pos), sx, sy),
        ensures
            same_footprint(f0, *final(self)),
            cells_static_eq(f0, *final(self)),
            revealed_monotone(f0, *final(self)),
            final(self).spec_cursor_x() == old(self).spec_cursor_x(),
            final(self).spec_cursor_y() == old(self).spec_cursor_y(),
            final(self).spec_game_over() == old(self).spec_game_over(),
            forall|x2: int, y2: int|
                f0.in_bounds_xy(x2, y2) && old(self).cell_at(x2, y2).is_revealed()
                    ==> (#[trigger] final(self).cell_at(x2, y2)).is_revealed(),
            final(self).cell_at(sx, sy).is_revealed(),
            final(self).cell_at(cx as int, cy as int).is_revealed(),
            inv_sound(f0, *final(self), sx, sy),
            inv_stack_ok(f0, *final(self), final(stack)@, sx, sy),
            inv_stack_distinct(final(stack)@),
            closure_holds(f0, *final(self), final(stack)@, sx, sy),
            some_detonated(f0, *final(self), final(stack)@.push(pos)) == some_detonated(
                f0,
                *old(self),
                old(stack)@.push(pos),
            ),
            forall|a: int, b: int|
                #![trigger stack_has(final(stack)@, a, b)]
                stack_has(final(stack)@, a, b) ==> (stack_has(old(stack)@, a, b) || !old(
                    self,
                ).cell_at(a, b).is_revealed()),
            final(stack)@.len() + 2 * count_hidden(final(self).spec_cells()) <= old(stack)@.len()
                + 2 * count_hidden(old(self).spec_cells()),
    {
        let w = self.width;
        let h = self.height;
        if cx > 0 && cy > 0 {
            self.flood_push(&mut *stack, cx - 1, cy - 1, Ghost(f0), Ghost(sx), Ghost(sy), Ghost(pos));
        }
        if cy > 0 {
            self.flood_push(&mut *stack, cx, cy - 1, Ghost(f0), Ghost(sx), Ghost(sy), Ghost(pos));
        }
        if cx + 1 < w && cy > 0 {
            self.flood_push(&mut *stack, cx + 1, cy - 1, Ghost(f0), Ghost(sx), Ghost(sy), Ghost(pos));
        }
        if cx > 0 {
            self.flood_push(&mut *stack, cx - 1, cy, Ghost(f0), Ghost(sx), Ghost(sy), Ghost(pos));
        }
        if cx + 1 < w {
            self.flood_push(&mut *stack, cx + 1, cy, Ghost(f0), Ghost(sx), Ghost(sy), Ghost(pos));
        }
        if cx > 0 && cy + 1 < h {
            self.flood_push(&mut *stack, cx - 1, cy + 1, Ghost(f0), Ghost(sx), Ghost(sy), Ghost(pos));
        }
        if cy + 1 < h {
            self.flood_push(&mut *stack, cx, cy + 1, Ghost(f0), Ghost(sx), Ghost(sy), Ghost(pos));
        }
        if cx + 1 < w && cy + 1 < h {
            self.flood_push(&mut *stack, cx + 1, cy + 1, Ghost(f0), Ghost(sx), Ghost(sy), Ghost(pos));
        }
        proof {
            assert forall|nx2: int, ny2: int|
                adjacent(cx as int, cy as int, nx2, ny2) && self.in_bounds_xy(nx2, ny2)
                    implies self.cell_at(nx2, ny2).is_revealed() by {
                lemma_row_major(nx2, ny2, f0.spec_width(), f0.spec_height());
                assert(nx2 == cx as int - 1 || nx2 == cx as int || nx2 == cx as int + 1);
                assert(ny2 == cy as int - 1 || ny2 == cy as int || ny2 == cy as int + 1);
            }
            assert(self.neighbours_revealed(cx as int, cy as int));
            lemma_closure_drop_pending(f0, *self, stack@, pos, sx, sy, true);
        }
    }
}

/// What `reveal_at` leaves behind.  Revealing a flagged cell does nothing.
/// Otherwise the target cell is revealed and, through the flood fill,
/// exactly the cells it reaches become revealed as well; the game is over
/// afterwards exactly when it was before, the target holds a mine, or the
/// flood reaches an unflagged mine.
pub open spec fn reveal_post(pre: Field, post: Field, x: int, y: int) -> bool {
    if pre.cell_at(x, y).is_flagged() {
        post == pre
    } else {
        &&& same_footprint(pre, post)
        &&& post.spec_cursor_x() == pre.spec_cursor_x()
        &&& post.spec_cursor_y() == pre.spec_cursor_y()
        &&& cells_static_eq(pre, post)
        &&& revealed_monotone(pre, post)
        &&& post.cell_at(x, y).is_revealed()
        &&& reveal_covers(pre, post, x, y)
        &&& post.spec_game_over() == (pre.spec_game_over() || pre.cell_at(x, y).is_mine()
            || detonation_reachable(pre, x, y))
    }
}

impl Field {
    /// Reveals the cell at `(x, y)`.  A flagged cell is left alone.  A
    /// revealed cell with no neighbouring mines floods outward: every
    /// in-bounds Moore neighbour that is still hidden is revealed in turn,
    /// and so on, so one action opens the whole connected zero-count region
    /// together with its rim.  Revealing a mine ends the game.
    #[verifier::rlimit(100)]
    #[verifier::spinoff_prover]
    pub fn reveal_at(&mut self, x: usize, y: usize)
        requires
            old(self).wf(),
            old(self).in_bounds_xy(x as int, y as int),
        ensures
            final(self).wf(),
            reveal_post(*old(self), *final(self), x as int, y as int),
    {
        let ghost f0 = *old(self);
        let ghost sx = x as int;
        let ghost sy = y as int;
        proof {
            lemma_row_major(sx, sy, f0.spec_width(), f0.spec_height());
        }
        let index = y * self.width + x;
        if self.cells[index].is_flagged() {
            return;
        }
        let mut c = self.cells[index];
        c.uncover();
        self.cells[index] = c;
        if self.cells[index].is_mine() {
            self.game_over = true;
        }
        let mut stack: Vec<(usize, usize)> = Vec::new();
        stack.push((x, y));
        proof {
            assert(stack@.len() == 1 && stack@[0] == (x, y));
            lemma_start_invs(f0, *self, stack@, sx, sy);
            assert(self.spec_game_over() == (f0.spec_game_over() || f0.cell_at(sx, sy).is_mine()
                || some_detonated(f0, *self, stack@)));
        }
        while stack.len() != 0
            invariant
                f0.wf(),
                f0.in_bounds_xy(sx, sy),
                !f0.cell_at(sx, sy).is_flagged(),
                same_footprint(f0, *self),
                cells_static_eq(f0, *self),
                revealed_monotone(f0, *self),
                self.spec_cursor_x() == f0.spec_cursor_x(),
                self.spec_cursor_y() == f0.spec_cursor_y(),
                self.cell_at(sx, sy).is_revealed(),
                inv_sound(f0, *self, sx, sy),
                inv_stack_ok(f0, *self, stack@, sx, sy),
                inv_stack_distinct(stack@),
                closure_holds(f0, *self, stack@, sx, sy),
                self.spec_game_over() == (f0.spec_game_over() || f0.cell_at(sx, sy).is_mine()
                    || some_detonated(f0, *self, stack@)),
            decreases stack@.len() + 2 * count_hidden(self.spec_cells()),
        {
            let ghost s0 = *self;
            let ghost stack0 = stack@;
            let pos = stack.pop().unwrap();
            let cx = pos.0;
            let cy = pos.1;
            proof {
                assert(stack0 =~= stack@.push(pos));
                lemma_stack_ok_at(f0, s0, stack0, sx, sy, stack0.len() - 1);
                assert(stack0[stack0.len() - 1] == pos);
                lemma_row_major(cx as int, cy as int, f0.spec_width(), f0.spec_height());
                lemma_pop_not_in_rest(stack0);
                assert(closure_holds(f0, s0, stack@.push(pos), sx, sy));
                assert(some_detonated(f0, s0, stack@.push(pos)) == some_detonated(f0, s0, stack0));
                assert forall|k: int| 0 <= k < stack@.len() implies (f0.in_bounds_xy(
                    (#[trigger] stack@[k]).0 as int,
                    stack@[k].1 as int,
                ) && s0.cell_at(stack@[k].0 as int, stack@[k].1 as int).is_revealed() && ((
                stack@[k].0 == sx && stack@[k].1 == sy) || (f0.flood_reaches(
                    sx,
                    sy,
                    stack@[k].0 as int,
                    stack@[k].1 as int,
                ) && !f0.cell_at(stack@[k].0 as int, stack@[k].1 as int).is_revealed()))) by {
                    assert(stack@[k] == stack0[k]);
                    lemma_stack_ok_at(f0, s0, stack0, sx, sy, k);
                }
                assert(inv_stack_ok(f0, s0, stack@, sx, sy));
                assert forall|k1: int, k2: int|
                    #![trigger stack@[k1], stack@[k2]]
                    0 <= k1 < k2 < stack@.len() implies stack@[k1] != stack@[k2] by {
                    assert(stack@[k1] == stack0[k1]);
                    assert(stack@[k2] == stack0[k2]);
                }
                assert(inv_stack_distinct(stack@));
            }
            let cidx = cy * self.width + cx;
            if !self.cells[cidx].is_flagged() {
                let was_mine = self.cells[cidx].is_mine();
                if was_mine {
                    self.game_over = true;
                }
                let ghost s1 = *self;
                proof {
                    lemma_same_cells_preds(f0, s0, s1, stack@, sx, sy);
                    lemma_same_cells_preds(f0, s0, s1, stack@.push(pos), sx, sy);
                    assert(cell_same_except_revealed(
                        s1.spec_cells()[cidx as int],
                        f0.spec_cells()[cidx as int],
                    ));
                    assert(s1.spec_game_over() == (s0.spec_game_over() || (!f0.cell_at(
                        cx as int,
                        cy as int,
                    ).is_flagged() && f0.cell_at(cx as int, cy as int).is_mine())));
                }
                if self.cells[cidx].neighbours() == 0 {
                    proof {
                        assert(f0.expands(cx as int, cy as int));
                    }
                    self.flood_expand(&mut stack, cx, cy, Ghost(f0), Ghost(sx), Ghost(sy), Ghost(pos));
                } else {
                    proof {
                        assert(!f0.expands(cx as int, cy as int));
                        lemma_closure_drop_pending(f0, *self, stack@, pos, sx, sy, false);
                    }
                }
                proof {
                    // restore the game-over bookkeeping
                    let dflag = !f0.cell_at(cx as int, cy as int).is_flagged() && f0.cell_at(
                        cx as int,
                        cy as int,
                    ).is_mine();
                    assert(self.spec_game_over() == (s0.spec_game_over() || dflag));
                    assert(some_detonated(f0, *self, stack@.push(pos)) == some_detonated(
                        f0,
                        s0,
                        stack0,
                    ));
                    lemma_sd_drop_pending(f0, *self, stack@, pos);
                    assert(self.cell_at(cx as int, cy as int).is_revealed());
                    assert(!stack_has(stack@, cx as int, cy as int));
                    if dflag && !(cx as int == sx && cy as int == sy) {
                        assert(!f0.cell_at(cx as int, cy as int).is_revealed());
                        assert(some_detonated(f0, *self, stack@));
                    }
                    assert(self.spec_game_over() == (f0.spec_game_over() || f0.cell_at(
                        sx,
                        sy,
                    ).is_mine() || some_detonated(f0, *self, stack@)));
                    assert(self.cell_at(sx, sy).is_revealed());
                }
            } else {
                proof {
                    assert(!f0.expands(cx as int, cy as int));
                    lemma_closure_drop_pending(f0, *self, stack@, pos, sx, sy, false);
                    lemma_sd_drop_pending(f0, *self, stack@, pos);
                    assert(self.spec_game_over() == (f0.spec_game_over() || f0.cell_at(
                        sx,
                        sy,
                    ).is_mine() || some_detonated(f0, *self, stack@)));
                }
            }
        }
        proof {
            assert(stack@ =~= Seq::<(usize, usize)>::empty());
            assert(closure_holds(f0, *self, Seq::<(usize, usize)>::empty(), sx, sy));
            lemma_reveal_covers_build(f0, *self, sx, sy);
            lemma_detonated_vs_reachable(f0, *self, sx, sy);
            assert(some_detonated(f0, *self, stack@) == some_detonated(
                f0,
                *self,
                Seq::<(usize, usize)>::empty(),
            ));
            assert(self.spec_game_over() == (f0.spec_game_over() || f0.cell_at(sx, sy).is_mine()
                || detonation_reachable(f0, sx, sy)));
            lemma_nb_counts_stable(f0, *self);
        }
    }
}

impl Field {
    /// Reveals every cell of the field, for the terminal win or loss
    /// screen.  Flags, mines and the game-over state are untouched.
    pub fn reveal_all(&mut self)
        requires
            old(self).wf(),
        ensures
            final(self).wf(),
            same_footprint(*old(self), *final(self)),
            cells_static_eq(*old(self), *final(self)),
            final(self).spec_cursor_x() == old(self).spec_cursor_x(),
            final(self).spec_cursor_y() == old(self).spec_cursor_y(),
            final(self).spec_game_over() == old(self).spec_game_over(),
            forall|i: int|
                #![trigger final(self).spec_cells()[i]]
                0 <= i < old(self).spec_cells().len()
                    ==> final(self).spec_cells()[i].is_revealed(),
    {
        let n = self.cells.len();
        let mut i: usize = 0;
        while i < n
            invariant
                0 <= i <= n,
                n == self.spec_cells().len(),
                self.spec_cells().len() == old(self).spec_cells().len(),
                self.spec_width() == old(self).spec_width(),
                self.spec_height() == old(self).spec_height(),
                self.spec_cursor_x() == old(self).spec_cursor_x(),
                self.spec_cursor_y() == old(self).spec_cursor_y(),
                self.spec_game_over() == old(self).spec_game_over(),
                forall|j: int|
                    0 <= j < n ==> cell_same_except_revealed(
                        #[trigger] self.spec_cells()[j],
                        old(self).spec_cells()[j],
                    ),
                forall|j: int| 0 <= j < i ==> (#[trigger] self.spec_cells()[j]).is_revealed(),
            decreases n - i,
        {
            let mut c = self.cells[i];
            c.uncover();
            self.cells[i] = c;
            i = i + 1;
        }
        proof {
            assert forall|j: int|
                0 <= j < old(self).spec_cells().len() implies cell_same_except_revealed(
                #[trigger] self.spec_cells()[j],
                old(self).spec_cells()[j],
            ) by {}
            assert(cells_static_eq(*old(self), *self));
            lemma_nb_counts_stable(*old(self), *self);
        }
    }
}

/// An abstract player action, dispatched onto the field by `apply_action`.
pub enum Action {
    CursorUp,
    CursorDown,
    CursorLeft,
    CursorRight,
    CursorToEdgeUp,
    CursorToEdgeDown,
    CursorToEdgeLeft,
    CursorToEdgeRight,
    Flag,
    Reveal,
    RevealAround,
}

/// What a rendering adapter needs to know of one cell, in priority order:
/// a flag hides everything beneath it, then a revealed cell shows its mine
/// or its neighbour count, and anything else is hidden.
pub enum CellState {
    Flagged,
    RevealedMine,
    Neighbours(usize),
    Hidden,
}

impl Cell {
    /// Classifies the cell for display.
    pub fn cell_state(&self) -> (r: CellState)
        ensures
            r == (if self.spec_is_flagged() {
                CellState::Flagged
            } else if self.spec_is_revealed() {
                if self.spec_is_mine() {
                    CellState::RevealedMine
                } else {
                    CellState::Neighbours(self.spec_neighbours())
                }
            } else {
                CellState::Hidden
            }),
    {
        if self.is_flagged() {
            CellState::Flagged
        } else if self.is_revealed() {
            if self.is_mine() {
                CellState::RevealedMine
            } else {
                CellState::Neighbours(self.neighbours())
            }
        } else {
            CellState::Hidden
        }
    }
}

/// The state of the whole game: a detonated mine beats a win.
pub enum GameState {
    Running,
    GameOver,
    Won,
}

impl Field {
    /// Derives the game state: game over once a mine has been detonated,
    /// else won once every non-mine cell is revealed, else still running.
    pub fn game_state(&self) -> (r: GameState)
        ensures
            r == (if self.spec_game_over() {
                GameState::GameOver
            } else if self.spec_won() {
                GameState::Won
            } else {
                GameState::Running
            }),
    {
        if self.is_game_over() {
            GameState::GameOver
        } else if self.has_won() {
            GameState::Won
        } else {
            GameState::Running
        }
    }
}

impl Field {
    /// The number of mines in the 9-cell neighbourhood of `(x, y)`, the
    /// centre included.
    pub open spec fn chord_mines(&self, x: int, y: int) -> int {
        self.mine_indicator(x - 1, y - 1) + self.mine_indicator(x, y - 1) + self.mine_indicator(
            x + 1,
            y - 1,
        ) + self.mine_indicator(x - 1, y) + self.mine_indicator(x, y) + self.mine_indicator(
            x + 1,
            y,
        ) + self.mine_indicator(x - 1, y + 1) + self.mine_indicator(x, y + 1) + self.mine_indicator(
            x + 1,
            y + 1,
        )
    }

    /// The number of flags in the 9-cell neighbourhood of `(x, y)`, the
    /// centre included.
    pub open spec fn chord_flags(&self, x: int, y: int) -> int {
        self.flag_indicator(x - 1, y - 1) + self.flag_indicator(x, y - 1) + self.flag_indicator(
            x + 1,
            y - 1,
        ) + self.flag_indicator(x - 1, y) + self.flag_indicator(x, y) + self.flag_indicator(
            x + 1,
            y,
        ) + self.flag_indicator(x - 1, y + 1) + self.flag_indicator(x, y + 1) + self.flag_indicator(
            x + 1,
            y + 1,
        )
    }
}

/// The flood out of some unflagged cell near `(cx, cy)` reaches `(x2, y2)`.
pub open spec fn chord_reached(pre: Field, cx: int, cy: int, x2: int, y2: int) -> bool {
    exists|ax: int, ay: int|
        #![trigger pre.flood_reaches(ax, ay, x2, y2)]
        near(cx, cy, ax, ay) && pre.in_bounds_xy(ax, ay) && !pre.cell_at(ax, ay).is_flagged()
            && pre.flood_reaches(ax, ay, x2, y2)
}

/// Every revealed cell was already revealed, sits unflagged in the chorded
/// neighbourhood, or was reached by a flood out of that neighbourhood.
pub open spec fn chord_covers(pre: Field, cur: Field, cx: int, cy: int) -> bool {
    forall|x2: int, y2: int|
        #![trigger cur.cell_at(x2, y2)]
        pre.in_bounds_xy(x2, y2) && cur.cell_at(x2, y2).is_revealed() ==> (pre.cell_at(
            x2,
            y2,
        ).is_revealed() || (near(cx, cy, x2, y2) && !pre.cell_at(x2, y2).is_flagged())
            || chord_reached(pre, cx, cy, x2, y2))
}

/// Some unflagged mine sits in the 9-cell neighbourhood of `(cx, cy)`.
pub open spec fn chord_detonation(pre: Field, cx: int, cy: int) -> bool {
    exists|ax: int, ay: int|
        #![trigger pre.cell_at(ax, ay)]
        near(cx, cy, ax, ay) && pre.in_bounds_xy(ax, ay) && !pre.cell_at(ax, ay).is_flagged()
            && pre.cell_at(ax, ay).is_mine()
}

/// A flood out of some unflagged neighbourhood cell reaches an unflagged
/// mine.
pub open spec fn chord_detonation_reached(pre: Field, cx: int, cy: int) -> bool {
    exists|ax: int, ay: int|
        #![trigger pre.cell_at(ax, ay)]
        near(cx, cy, ax, ay) && pre.in_bounds_xy(ax, ay) && !pre.cell_at(ax, ay).is_flagged()
            && detonation_reachable(pre, ax, ay)
}

/// The game-over flag only rises, and only for a detonation in or reached
/// from the chorded neighbourhood.
pub open spec fn chord_go_bound(pre: Field, cur: Field, cx: int, cy: int) -> bool {
    &&& pre.spec_game_over() ==> cur.spec_game_over()
    &&& cur.spec_game_over() ==> (pre.spec_game_over() || chord_detonation(pre, cx, cy)
        || chord_detonation_reached(pre, cx, cy))
}

/// What `reveal_from_cell` leaves behind.  When the mine and flag counts
/// of the 9-cell neighbourhood differ, nothing happens.  When they agree,
/// every unflagged neighbourhood cell is revealed (mines included), each
/// zero-count one flooding outward, and nothing outside the neighbourhood
/// and its floods changes.
pub open spec fn chord_post(pre: Field, post: Field, x: int, y: int) -> bool {
    if pre.chord_mines(x, y) != pre.chord_flags(x, y) {
        post == pre
    } else {
        &&& same_footprint(pre, post)
        &&& post.spec_cursor_x() == pre.spec_cursor_x()
        &&& post.spec_cursor_y() == pre.spec_cursor_y()
        &&& cells_static_eq(pre, post)
        &&& revealed_monotone(pre, post)
        &&& forall|nx: int, ny: int|
            #![trigger post.cell_at(nx, ny)]
            near(x, y, nx, ny) && pre.in_bounds_xy(nx, ny) && !pre.cell_at(nx, ny).is_flagged()
                ==> post.cell_at(nx, ny).is_revealed()
        &&& chord_covers(pre, post, x, y)
        &&& chord_go_bound(pre, post, x, y)
        &&& chord_detonation(pre, x, y) ==> post.spec_game_over()
    }
}

impl Field {
    /// Whether the in-bounds cell `(x, y)` is flagged.
    fn flag_at(&self, x: usize, y: usize) -> (r: bool)
        requires
            self.wf_base(),
            self.in_bounds_xy(x as int, y as int),
        ensures
            r == self.cell_at(x as int, y as int).is_flagged(),
    {
        proof {
            lemma_row_major(x as int, y as int, self.spec_width(), self.spec_height());
        }
        let index = y * self.width + x;
        self.cells[index].is_flagged()
    }

    /// Counts the mines in the 9-cell neighbourhood of `(x, y)`.
    fn chord_mines_at(&self, x: usize, y: usize) -> (r: usize)
        requires
            self.wf_base(),
            self.in_bounds_xy(x as int, y as int),
        ensures
            r as int == self.chord_mines(x as int, y as int),
    {
        let mut count: usize = 0;
        if x > 0 && y > 0 && self.mine_at(x - 1, y - 1) {
            count = count + 1;
        }
        if y > 0 && self.mine_at(x, y - 1) {
            count = count + 1;
        }
        if x + 1 < self.width && y > 0 && self.mine_at(x + 1, y - 1) {
            count = count + 1;
        }
        if x > 0 && self.mine_at(x - 1, y) {
            count = count + 1;
        }
        if self.mine_at(x, y) {
            count = count + 1;
        }
        if x + 1 < self.width && self.mine_at(x + 1, y) {
            count = count + 1;
        }
        if x > 0 && y + 1 < self.height && self.mine_at(x - 1, y + 1) {
            count = count + 1;
        }
        if y + 1 < self.height && self.mine_at(x, y + 1) {
            count = count + 1;
        }
        if x + 1 < self.width && y + 1 < self.height && self.mine_at(x + 1, y + 1) {
            count = count + 1;
        }
        count
    }

    /// Counts the flags in the 9-cell neighbourhood of `(x, y)`.
    fn chord_flags_at(&self, x: usize, y: usize) -> (r: usize)
        requires
            self.wf_base(),
            self.in_bounds_xy(x as int, y as int),
        ensures
            r as int == self.chord_flags(x as int, y as int),
    {
        let mut count: usize = 0;
        if x > 0 && y > 0 && self.flag_at(x - 1, y - 1) {
            count = count + 1;
        }
        if y > 0 && self.flag_at(x, y - 1) {
            count = count + 1;
        }
        if x + 1 < self.width && y > 0 && self.flag_at(x + 1, y - 1) {
            count = count + 1;
        }
        if x > 0 && self.flag_at(x - 1, y) {
            count = count + 1;
        }
        if self.flag_at(x, y) {
            count = count + 1;
        }
        if x + 1 < self.width && self.flag_at(x + 1, y) {
            count = count + 1;
        }
        if x > 0 && y + 1 < self.height && self.flag_at(x - 1, y + 1) {
            count = count + 1;
        }
        if y + 1 < self.height && self.flag_at(x, y + 1) {
            count = count + 1;
        }
        if x + 1 < self.width && y + 1 < self.height && self.flag_at(x + 1, y + 1) {
            count = count + 1;
        }
        count
    }

    /// One step of the chorded reveal: reveals the neighbourhood cell
    /// `(nx, ny)` (a no-op where it is flagged), keeping the running
    /// bounds on what the whole chord may reveal and detonate.
    #[verifier::rlimit(100)]
    #[verifier::spinoff_prover]
    fn chord_visit(
        &mut self,
        nx: usize,
        ny: usize,
        Ghost(pre): Ghost<Field>,
        Ghost(cx): Ghost<int>,
        Ghost(cy): Ghost<int>,
    )
        requires
            pre.wf(),
            old(self).wf(),
            same_footprint(pre, *old(self)),
            cells_static_eq(pre, *old(self)),
            revealed_monotone(pre, *old(self)),
            old(self).spec_cursor_x() == pre.spec_cursor_x(),
            old(self).spec_cursor_y() == pre.spec_cursor_y(),
            pre.in_bounds_xy(nx as int, ny as int),
            near(cx, cy, nx as int, ny as int),
            chord_covers(pre, *old(self), cx, cy),
            chord_go_bound(pre, *old(self), cx, cy),
        ensures
            final(self).wf(),
            same_footprint(pre, *final(self)),
            cells_static_eq(pre, *final(self)),
            revealed_monotone(pre, *final(self)),
            final(self).spec_cursor_x() == pre.spec_cursor_x(),
            final(self).spec_cursor_y() == pre.spec_cursor_y(),
            chord_covers(pre, *final(self), cx, cy),
            chord_go_bound(pre, *final(self), cx, cy),
            !pre.cell_at(nx as int, ny as int).is_flagged() ==> final(self).cell_at(
                nx as int,
                ny as int,
            ).is_revealed(),
            forall|x2: int, y2: int|
                pre.in_bounds_xy(x2, y2) && old(self).cell_at(x2, y2).is_revealed()
                    ==> (#[trigger] final(self).cell_at(x2, y2)).is_revealed(),
            old(self).spec_game_over() ==> final(self).spec_game_over(),
            (!pre.cell_at(nx as int, ny as int).is_flagged() && pre.cell_at(
                nx as int,
                ny as int,
            ).is_mine()) ==> final(self).spec_game_over(),
    {
        let ghost mid = *old(self);
        let ghost nxi = nx as int;
        let ghost nyi = ny as int;
        proof {
            lemma_row_major(nxi, nyi, pre.spec_width(), pre.spec_height());
        }
        self.reveal_at(nx, ny);
        proof {
            let w = pre.spec_width();
            let h = pre.spec_height();
            if mid.cell_at(nxi, nyi).is_flagged() {
                assert(*self == mid);
            } else {
                // footprint, statics and monotonicity against the chord's
                // starting state
                assert forall|i: int|
                    0 <= i < pre.spec_cells().len() implies cell_same_except_revealed(
                    #[trigger] self.spec_cells()[i],
                    pre.spec_cells()[i],
                ) by {
                    assert(cell_same_except_revealed(self.spec_cells()[i], mid.spec_cells()[i]));
                    assert(cell_same_except_revealed(mid.spec_cells()[i], pre.spec_cells()[i]));
                }
                assert(cells_static_eq(pre, *self));
                assert forall|i: int|
                    0 <= i < pre.spec_cells().len() && pre.spec_cells()[i].is_revealed() implies (
                #[trigger] self.spec_cells()[i]).is_revealed() by {
                    assert(mid.spec_cells()[i].is_revealed());
                }
                assert(revealed_monotone(pre, *self));
                // every newly revealed cell traces to the neighbourhood
                assert forall|x2: int, y2: int|
                    pre.in_bounds_xy(x2, y2) && (#[trigger] self.cell_at(x2, y2)).is_revealed()
                        implies (pre.cell_at(x2, y2).is_revealed() || (near(cx, cy, x2, y2)
                        && !pre.cell_at(x2, y2).is_flagged()) || chord_reached(
                        pre,
                        cx,
                        cy,
                        x2,
                        y2,
                    )) by {
                    lemma_row_major(x2, y2, w, h);
                    if !mid.cell_at(x2, y2).is_revealed() {
                        if x2 == nxi && y2 == nyi {
                            assert(near(cx, cy, x2, y2));
                            assert(!pre.cell_at(x2, y2).is_flagged());
                        } else {
                            assert(mid.flood_reaches(nxi, nyi, x2, y2));
                            lemma_flood_reaches_transfer(pre, mid, nxi, nyi, x2, y2);
                            assert(pre.flood_reaches(nxi, nyi, x2, y2));
                            assert(chord_reached(pre, cx, cy, x2, y2));
                        }
                    }
                }
                assert(chord_covers(pre, *self, cx, cy));
                // game-over bookkeeping
                if self.spec_game_over() && !mid.spec_game_over() {
                    if mid.cell_at(nxi, nyi).is_mine() {
                        assert(pre.cell_at(nxi, nyi).is_mine());
                        assert(chord_detonation(pre, cx, cy));
                    } else {
                        assert(detonation_reachable(mid, nxi, nyi));
                        let (wx, wy) = choose|wx: int, wy: int|
                            #![trigger mid.flood_reaches(nxi, nyi, wx, wy)]
                            mid.in_bounds_xy(wx, wy) && mid.flood_reaches(nxi, nyi, wx, wy)
                                && !mid.cell_at(wx, wy).is_flagged() && mid.cell_at(
                                wx,
                                wy,
                            ).is_mine();
                        lemma_row_major(wx, wy, w, h);
                        lemma_flood_reaches_transfer(pre, mid, nxi, nyi, wx, wy);
                        assert(pre.flood_reaches(nxi, nyi, wx, wy));
                        assert(detonation_reachable(pre, nxi, nyi));
                        assert(chord_detonation_reached(pre, cx, cy));
                    }
                }
                assert(chord_go_bound(pre, *self, cx, cy));
            }
        }
    }

    /// Reveals around `(x, y)`: when the player has placed exactly as many
    /// flags in the 9-cell neighbourhood as it holds mines, every unflagged
    /// cell of that neighbourhood is revealed via `reveal_at`; otherwise
    /// nothing happens.  A matching count does not mean the flags sit on
    /// the mines, so this can detonate an unflagged mine.
    #[verifier::rlimit(100)]
    #[verifier::spinoff_prover]
    pub fn reveal_from_cell(&mut self, x: usize, y: usize)
        requires
            old(self).wf(),
            old(self).in_bounds_xy(x as int, y as int),
        ensures
            final(self).wf(),
            chord_post(*old(self), *final(self), x as int, y as int),
    {
        let ghost pre = *old(self);
        let ghost cx = x as int;
        let ghost cy = y as int;
        let mines = self.chord_mines_at(x, y);
        let flags = self.chord_flags_at(x, y);
        if mines != flags {
            return;
        }
        proof {
            assert forall|x2: int, y2: int|
                pre.in_bounds_xy(x2, y2) && (#[trigger] self.cell_at(x2, y2)).is_revealed()
                    implies (pre.cell_at(x2, y2).is_revealed() || (near(cx, cy, x2, y2)
                    && !pre.cell_at(x2, y2).is_flagged()) || chord_reached(pre, cx, cy, x2, y2)) by {}
            assert(chord_covers(pre, *self, cx, cy));
            assert(chord_go_bound(pre, *self, cx, cy));
        }
        let w = self.width;
        let h = self.height;
        if x > 0 && y > 0 {
            self.chord_visit(x - 1, y - 1, Ghost(pre), Ghost(cx), Ghost(cy));
        }
        if y > 0 {
            self.chord_visit(x, y - 1, Ghost(pre), Ghost(cx), Ghost(cy));
        }
        if x + 1 < w && y > 0 {
            self.chord_visit(x + 1, y - 1, Ghost(pre), Ghost(cx), Ghost(cy));
        }
        if x > 0 {
            self.chord_visit(x - 1, y, Ghost(pre), Ghost(cx), Ghost(cy));
        }
        self.chord_visit(x, y, Ghost(pre), Ghost(cx), Ghost(cy));
        if x + 1 < w {
            self.chord_visit(x + 1, y, Ghost(pre), Ghost(cx), Ghost(cy));
        }
        if x > 0 && y + 1 < h {
            self.chord_visit(x - 1, y + 1, Ghost(pre), Ghost(cx), Ghost(cy));
        }
        if y + 1 < h {
            self.chord_visit(x, y + 1, Ghost(pre), Ghost(cx), Ghost(cy));
        }
        if x + 1 < w && y + 1 < h {
            self.chord_visit(x + 1, y + 1, Ghost(pre), Ghost(cx), Ghost(cy));
        }
        proof {
            // every unflagged neighbourhood cell has been revealed
            assert forall|nx2: int, ny2: int|
                near(cx, cy, nx2, ny2) && pre.in_bounds_xy(nx2, ny2) && !pre.cell_at(
                    nx2,
                    ny2,
                ).is_flagged() implies (#[trigger] self.cell_at(nx2, ny2)).is_revealed() by {
                lemma_row_major(nx2, ny2, pre.spec_width(), pre.spec_height());
                assert(nx2 == cx - 1 || nx2 == cx || nx2 == cx + 1);
                assert(ny2 == cy - 1 || ny2 == cy || ny2 == cy + 1);
            }
            // a correctly counted neighbourhood with an unflagged mine
            // detonates
            if chord_detonation(pre, cx, cy) {
                let (ax, ay) = choose|ax: int, ay: int|
                    #![trigger pre.cell_at(ax, ay)]
                    near(cx, cy, ax, ay) && pre.in_bounds_xy(ax, ay) && !pre.cell_at(
                        ax,
                        ay,
                    ).is_flagged() && pre.cell_at(ax, ay).is_mine();
                lemma_row_major(ax, ay, pre.spec_width(), pre.spec_height());
                assert(ax == cx - 1 || ax == cx || ax == cx + 1);
                assert(ay == cy - 1 || ay == cy || ay == cy + 1);
                assert(self.spec_game_over());
            }
        }
    }
}

impl Field {
    /// Dispatches one abstract player action onto the field: the only
    /// seam between input handling and the game rules.
    pub fn apply_action(&mut self, action: Action)
        requires
            old(self).wf(),
        ensures
            final(self).wf(),
            match action {
                Action::CursorUp => translate_post(*old(self), *final(self), 0, -1),
                Action::CursorDown => translate_post(*old(self), *final(self), 0, 1),
                Action::CursorLeft => translate_post(*old(self), *final(self), -1, 0),
                Action::CursorRight => translate_post(*old(self), *final(self), 1, 0),
                Action::CursorToEdgeUp => edge_post(*old(self), *final(self), Edge::Up),
                Action::CursorToEdgeDown => edge_post(*old(self), *final(self), Edge::Down),
                Action::CursorToEdgeLeft => edge_post(*old(self), *final(self), Edge::Left),
                Action::CursorToEdgeRight => edge_post(*old(self), *final(self), Edge::Right),
                Action::Flag => flag_post(
                    *old(self),
                    *final(self),
                    old(self).spec_cursor_x(),
                    old(self).spec_cursor_y(),
                ),
                Action::Reveal => reveal_post(
                    *old(self),
                    *final(self),
                    old(self).spec_cursor_x(),
                    old(self).spec_cursor_y(),
                ),
                Action::RevealAround => chord_post(
                    *old(self),
                    *final(self),
                    old(self).spec_cursor_x(),
                    old(self).spec_cursor_y(),
                ),
            },
    {
        match action {
            Action::CursorUp => self.translate_y(-1),
            Action::CursorDown => self.translate_y(1),
            Action::CursorLeft => self.translate_x(-1),
            Action::CursorRight => self.translate_x(1),
            Action::CursorToEdgeUp => self.move_cursor_to_edge(Edge::Up),
            Action::CursorToEdgeDown => self.move_cursor_to_edge(Edge::Down),
            Action::CursorToEdgeLeft => self.move_cursor_to_edge(Edge::Left),
            Action::CursorToEdgeRight => self.move_cursor_to_edge(Edge::Right),
            Action::Flag => {
                let cx = self.cursor_pos_x();
                let cy = self.cursor_pos_y();
                self.flag(cx, cy);
            },
            Action::Reveal => {
                let cx = self.cursor_pos_x();
                let cy = self.cursor_pos_y();
                self.reveal_at(cx, cy);
            },
            Action::RevealAround => {
                let cx = self.cursor_pos_x();
                let cy = self.cursor_pos_y();
                self.reveal_from_cell(cx, cy);
            },
        }
    }
}

/// The neighbour-mine sum never exceeds the eight neighbours.
pub proof fn lemma_mine_count_le_8(f: Field, x: int, y: int)
    ensures
        0 <= f.mine_count_around(x, y) <= 8,
{
}

/// Relies on rand's `thread_rng` and `SliceRandom::shuffle`: the shuffle is
/// an in-place Fisher-Yates pass over the slice, so it permutes the entries
/// and changes neither the length nor the multiset of values.
#[verifier::external_body]
fn shuffle_bools(v: &mut Vec<bool>)
    ensures
        final(v)@.len() == old(v)@.len(),
        final(v)@.to_multiset() == old(v)@.to_multiset(),
{
    let mut rng = rand::thread_rng();
    rand::seq::SliceRandom::shuffle(v.as_mut_slice(), &mut rng);
}

} // verus!
