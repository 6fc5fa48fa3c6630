//! Painting a field into an RGBA framebuffer: one pixel per cell, with a
//! distinct colour for the cursor.

use vstd::prelude::*;
use crate::cell::Cell;
use crate::field::{lemma_mine_count_le_8, Field};
use crate::grid::{lemma_row_major, lemma_row_major_decode};

verus! {

/// The RGBA colour a cell is painted with, from its displayed
/// classification: a flag first, then a revealed mine or the revealed
/// neighbour count, and a uniform dark tone for hidden cells.
pub open spec fn cell_colour(c: Cell) -> (u8, u8, u8, u8) {
    if c.is_flagged() {
        (214u8, 22u8, 63u8, 0u8)
    } else if c.is_revealed() {
        if c.is_mine() {
            (90u8, 0u8, 20u8, 0u8)
        } else {
            neighbour_colour(c.spec_neighbours() as int)
        }
    } else {
        (20u8, 20u8, 20u8, 0u8)
    }
}

/// The colour ramp for revealed neighbour counts.
pub open spec fn neighbour_colour(n: int) -> (u8, u8, u8, u8) {
    if n == 0 {
        (186u8, 186u8, 186u8, 0u8)
    } else if n == 1 {
        (0u8, 0u8, 255u8, 0u8)
    } else if n == 2 {
        (15u8, 112u8, 1u8, 0u8)
    } else if n == 3 {
        (251u8, 0u8, 6u8, 0u8)
    } else if n == 4 {
        (0u8, 0u8, 109u8, 0u8)
    } else if n == 5 {
        (107u8, 0u8, 2u8, 0u8)
    } else if n == 6 {
        (14u8, 110u8, 108u8, 0u8)
    } else if n == 7 {
        (30u8, 30u8, 30u8, 0u8)
    } else {
        (109u8, 109u8, 109u8, 0u8)
    }
}

/// The colour of the pixel for cell `i`: the cursor's cell is highlighted,
/// every other cell shows its classification colour.
pub open spec fn pixel_colour(field: Field, i: int) -> (u8, u8, u8, u8) {
    if i == field.cell_index(field.spec_cursor_x(), field.spec_cursor_y()) {
        (231u8, 185u8, 3u8, 0u8)
    } else {
        cell_colour(field.spec_cells()[i])
    }
}

/// Paints the field into `screen`, one RGBA pixel per cell in row-major
/// order, with the cursor's cell highlighted.
pub fn draw(field: &Field, screen: &mut Vec<u8>)
    requires
        field.wf(),
        old(screen)@.len() == 4 * field.spec_cells().len(),
    ensures
        final(screen)@.len() == old(screen)@.len(),
        forall|i: int|
            #![trigger field.spec_cells()[i]]
            0 <= i < field.spec_cells().len() ==> final(screen)@[4 * i] == pixel_colour(
                *field,
                i,
            ).0 && final(screen)@[4 * i + 1] == pixel_colour(*field, i).1 && final(screen)@[4 * i
                + 2] == pixel_colour(*field, i).2 && final(screen)@[4 * i + 3] == pixel_colour(
                *field,
                i,
            ).3,
{
    let n = field.cells().len();
    let m = screen.len();
    proof {
        assert(m == 4 * n);
    }
    let mut i: usize = 0;
    while i < n
        invariant
            field.wf(),
            0 <= i <= n,
            n == field.spec_cells().len(),
            screen@.len() == 4 * n,
            4 * n <= usize::MAX,
            forall|j: int|
                #![trigger field.spec_cells()[j]]
                0 <= j < i ==> screen@[4 * j] == cell_colour(field.spec_cells()[j]).0
                    && screen@[4 * j + 1] == cell_colour(field.spec_cells()[j]).1 && screen@[4 * j
                    + 2] == cell_colour(field.spec_cells()[j]).2 && screen@[4 * j + 3]
                    == cell_colour(field.spec_cells()[j]).3,
        decreases n - i,
    {
        let c = field.cells()[i];
        let colour: (u8, u8, u8, u8) = if c.is_flagged() {
            (214, 22, 63, 0)
        } else if c.is_revealed() {
            if c.is_mine() {
                (90, 0, 20, 0)
            } else {
                proof {
                    lemma_row_major_decode(i as int, field.spec_width(), field.spec_height());
                    lemma_mine_count_le_8(
                        *field,
                        (i as int) % field.spec_width(),
                        (i as int) / field.spec_width(),
                    );
                    assert(field.cell_at(
                        (i as int) % field.spec_width(),
                        (i as int) / field.spec_width(),
                    ) == field.spec_cells()[i as int]);
                }
                let nb = c.neighbours();
                if nb == 0 {
                    (186, 186, 186, 0)
                } else if nb == 1 {
                    (0, 0, 255, 0)
                } else if nb == 2 {
                    (15, 112, 1, 0)
                } else if nb == 3 {
                    (251, 0, 6, 0)
                } else if nb == 4 {
                    (0, 0, 109, 0)
                } else if nb == 5 {
                    (107, 0, 2, 0)
                } else if nb == 6 {
                    (14, 110, 108, 0)
                } else if nb == 7 {
                    (30, 30, 30, 0)
                } else {
                    (109, 109, 109, 0)
                }
            }
        } else {
            (20, 20, 20, 0)
        };
        proof {
            assert(4 * (i as int) + 3 < screen@.len());
        }
        screen[4 * i] = colour.0;
        screen[4 * i + 1] = colour.1;
        screen[4 * i + 2] = colour.2;
        screen[4 * i + 3] = colour.3;
        i = i + 1;
    }
    proof {
        lemma_row_major(
            field.spec_cursor_x(),
            field.spec_cursor_y(),
            field.spec_width(),
            field.spec_height(),
        );
    }
    let cursor_index = field.cursor_pos_y() * field.width() + field.cursor_pos_x();
    proof {
        assert(4 * (cursor_index as int) + 3 < screen@.len());
        assert(screen@.len() <= usize::MAX);
    }
    screen[4 * cursor_index] = 231;
    screen[4 * cursor_index + 1] = 185;
    screen[4 * cursor_index + 2] = 3;
    screen[4 * cursor_index + 3] = 0;
}

} // verus!
