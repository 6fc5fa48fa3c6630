//! The game's global laws, stated and proved over the contracts of the
//! field operations.

use vstd::prelude::*;
use crate::field::{flag_post, reveal_post, Field};
use crate::flood::{revealed_monotone, same_footprint};
use crate::grid::lemma_row_major;

verus! {

/// Reveals are monotone over whole games: across any chain of field
/// states in which every step keeps the dimensions and the revealed cells
/// — as the contract of every field operation guarantees — each cell
/// revealed in the first state is still revealed in the last.
pub proof fn lemma_revealed_persists(states: Seq<Field>)
    requires
        states.len() >= 1,
        forall|k: int|
            0 <= k < states.len() - 1 ==> same_footprint(#[trigger] states[k], states[k + 1])
                && revealed_monotone(states[k], states[k + 1]),
    ensures
        same_footprint(states.first(), states.last()),
        revealed_monotone(states.first(), states.last()),
    decreases states.len(),
{
    if states.len() > 1 {
        let shorter = states.drop_last();
        assert forall|k: int|
            0 <= k < shorter.len() - 1 implies same_footprint(
            #[trigger] shorter[k],
            shorter[k + 1],
        ) && revealed_monotone(shorter[k], shorter[k + 1]) by {
            assert(shorter[k] == states[k]);
            assert(shorter[k + 1] == states[k + 1]);
        }
        lemma_revealed_persists(shorter);
        assert(shorter.first() == states.first());
        assert(shorter.last() == states[states.len() - 2]);
        let mid = states[states.len() - 2];
        let last = states.last();
        assert(same_footprint(mid, last) && revealed_monotone(mid, last));
        assert forall|i: int|
            0 <= i < states.first().spec_cells().len() && states.first().spec_cells()[i].is_revealed()
                implies (#[trigger] last.spec_cells()[i]).is_revealed() by {
            assert(mid.spec_cells()[i].is_revealed());
        }
    }
}

/// A detonated mine ends the game for good: across any chain of field
/// states in which every step keeps a raised game-over flag raised — as
/// the contract of every field operation guarantees — a game lost in the
/// first state is still lost in the last.
pub proof fn lemma_game_over_persists(states: Seq<Field>)
    requires
        states.len() >= 1,
        forall|k: int|
            0 <= k < states.len() - 1 ==> ((#[trigger] states[k]).spec_game_over() ==> states[k
                + 1].spec_game_over()),
    ensures
        states.first().spec_game_over() ==> states.last().spec_game_over(),
    decreases states.len(),
{
    if states.len() > 1 {
        let shorter = states.drop_last();
        assert forall|k: int|
            0 <= k < shorter.len() - 1 implies ((#[trigger] shorter[k]).spec_game_over()
                ==> shorter[k + 1].spec_game_over()) by {
            assert(shorter[k] == states[k]);
            assert(shorter[k + 1] == states[k + 1]);
        }
        lemma_game_over_persists(shorter);
        assert(shorter.last() == states[states.len() - 2]);
    }
}

/// Winning depends only on which cells hold mines and which are revealed:
/// two fields that agree on those agree on `spec_won`, whatever their
/// flags, cursor or game-over state.
pub proof fn lemma_won_ignores_flags(a: Field, b: Field)
    requires
        a.spec_cells().len() == b.spec_cells().len(),
        forall|i: int|
            0 <= i < a.spec_cells().len() ==> (#[trigger] a.spec_cells()[i]).is_mine()
                == b.spec_cells()[i].is_mine() && a.spec_cells()[i].is_revealed()
                == b.spec_cells()[i].is_revealed(),
    ensures
        a.spec_won() == b.spec_won(),
{
    if a.spec_won() {
        assert forall|i: int|
            0 <= i < b.spec_cells().len() implies ((#[trigger] b.spec_cells()[i]).is_mine()
                || b.spec_cells()[i].is_revealed()) by {
            assert(a.spec_cells()[i].is_mine() || a.spec_cells()[i].is_revealed());
        }
    }
    if b.spec_won() {
        assert forall|i: int|
            0 <= i < a.spec_cells().len() implies ((#[trigger] a.spec_cells()[i]).is_mine()
                || a.spec_cells()[i].is_revealed()) by {
            assert(b.spec_cells()[i].is_mine() || b.spec_cells()[i].is_revealed());
        }
    }
}

/// A flag protects a hidden cell: planting a flag on it and then calling
/// reveal leaves the cell hidden.
pub proof fn lemma_flag_blocks_reveal(f0: Field, f1: Field, f2: Field, x: int, y: int)
    requires
        f0.wf(),
        f0.in_bounds_xy(x, y),
        !f0.cell_at(x, y).is_flagged(),
        !f0.cell_at(x, y).is_revealed(),
        flag_post(f0, f1, x, y),
        reveal_post(f1, f2, x, y),
    ensures
        !f2.cell_at(x, y).is_revealed(),
{
    lemma_row_major(x, y, f0.spec_width(), f0.spec_height());
    assert(f1.cell_at(x, y).is_flagged());
    assert(f2 == f1);
    assert(!f1.cell_at(x, y).is_revealed());
}

/// Lifting the flag lifts the protection: unflagging the cell and then
/// calling reveal does reveal it.
pub proof fn lemma_unflag_then_reveal(f0: Field, f1: Field, f2: Field, x: int, y: int)
    requires
        f0.wf(),
        f0.in_bounds_xy(x, y),
        f0.cell_at(x, y).is_flagged(),
        flag_post(f0, f1, x, y),
        reveal_post(f1, f2, x, y),
    ensures
        f2.cell_at(x, y).is_revealed(),
{
    lemma_row_major(x, y, f0.spec_width(), f0.spec_height());
    assert(!f1.cell_at(x, y).is_flagged());
}

} // verus!
