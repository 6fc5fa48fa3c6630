//! Behavioural tests for the minesweeper engine, driven through its
//! public interface.

use mine::field::{Action, CellState, Edge, Field, GameState};

/// A 3x3 field with a single mine in the top-left corner.
fn corner_mine_field() -> Field {
    let mut layout = vec![false; 9];
    layout[0] = true;
    Field::with_mine_layout(3, 3, layout)
}

/// A 3x3 field with a single mine in the centre.
fn centre_mine_field() -> Field {
    let mut layout = vec![false; 9];
    layout[4] = true;
    Field::with_mine_layout(3, 3, layout)
}

#[test]
fn mine_count_matches_request() {
    let f = Field::new(9, 9, 10);
    assert_eq!(f.total_mines(), 10);
    let f = Field::new(4, 4, 0);
    assert_eq!(f.total_mines(), 0);
    let f = Field::new(1, 1, 1);
    assert_eq!(f.total_mines(), 1);
}

#[test]
fn mine_count_capped_by_cell_count() {
    let f = Field::new(2, 2, 100);
    assert_eq!(f.total_mines(), 4);
}

#[test]
fn zero_dimensions_are_lifted_to_one() {
    let f = Field::new(0, 5, 3);
    assert_eq!(f.width(), 5);
    assert_eq!(f.cells().len(), 5);
    assert_eq!(f.total_mines(), 3);
    let f = Field::new(0, 0, 0);
    assert_eq!(f.width(), 1);
    assert_eq!(f.cells().len(), 1);
}

#[test]
fn neighbour_counts_centre_mine() {
    let f = centre_mine_field();
    for y in 0..3 {
        for x in 0..3 {
            let expected = if x == 1 && y == 1 { 0 } else { 1 };
            assert_eq!(f.get_cell(x, y).neighbours(), expected, "cell ({}, {})", x, y);
        }
    }
}

#[test]
fn neighbour_counts_corner_mine() {
    let f = corner_mine_field();
    // only the three cells adjacent to (0, 0) see the mine; the mine cell
    // itself does not count itself
    for y in 0..3 {
        for x in 0..3 {
            let adjacent = (x == 1 && y == 0) || (x == 0 && y == 1) || (x == 1 && y == 1);
            let expected = if adjacent { 1 } else { 0 };
            assert_eq!(f.get_cell(x, y).neighbours(), expected, "cell ({}, {})", x, y);
        }
    }
}

#[test]
fn reveal_is_monotonic_across_operations() {
    let mut f = centre_mine_field();
    f.reveal_at(0, 0);
    assert!(f.get_cell(0, 0).is_revealed());
    f.flag(2, 2);
    f.translate_x(1);
    f.translate_y(1);
    f.reveal_at(2, 0);
    f.move_cursor_to_edge(Edge::Down);
    f.apply_action(Action::Flag);
    assert!(f.get_cell(0, 0).is_revealed());
    assert!(f.get_cell(2, 0).is_revealed());
}

#[test]
fn flag_blocks_reveal_until_unflagged() {
    let mut f = centre_mine_field();
    f.flag(0, 0);
    f.reveal_at(0, 0);
    assert!(!f.get_cell(0, 0).is_revealed());
    f.flag(0, 0);
    f.reveal_at(0, 0);
    assert!(f.get_cell(0, 0).is_revealed());
}

#[test]
fn flag_toggles_freely_and_counts() {
    let mut f = centre_mine_field();
    assert_eq!(f.total_flags(), 0);
    f.flag(0, 0);
    f.flag(1, 0);
    assert_eq!(f.total_flags(), 2);
    f.flag(0, 0);
    assert_eq!(f.total_flags(), 1);
}

#[test]
fn mines_left_goes_negative_when_over_flagged() {
    let mut f = centre_mine_field();
    assert_eq!(f.mines_left(), 1);
    f.flag(0, 0);
    f.flag(1, 0);
    f.flag(2, 0);
    assert_eq!(f.mines_left(), -2);
}

#[test]
fn flood_fill_opens_region_and_rim() {
    // mine at (0, 0): the connected zero-count region is the five cells
    // of the right column and bottom row, its rim the three count-1
    // cells around the mine; one reveal opens all eight
    let mut f = corner_mine_field();
    f.reveal_at(2, 2);
    for y in 0..3 {
        for x in 0..3 {
            let expected = !(x == 0 && y == 0);
            assert_eq!(f.get_cell(x, y).is_revealed(), expected, "cell ({}, {})", x, y);
        }
    }
    assert!(!f.is_game_over());
    assert!(f.has_won());
}

#[test]
fn flood_fill_reveals_flagged_rim_but_does_not_expand_it() {
    // the chain reveal checks only whether a neighbour is already
    // revealed, so it opens a flagged cell on its way; the flag keeps
    // blocking only the entry point and the cell's own expansion
    let mut f = corner_mine_field();
    f.flag(1, 0);
    f.reveal_at(2, 2);
    assert!(f.get_cell(1, 0).is_revealed());
    assert!(!f.get_cell(0, 0).is_revealed());
    assert!(!f.is_game_over());
}

#[test]
fn flood_fill_does_not_expand_through_a_flagged_cell() {
    // 1x4 row with a mine at the right end: cells 0 and 1 have no
    // neighbouring mines, cell 2 is the rim
    let mut f = Field::with_mine_layout(1, 4, vec![false, false, false, true]);
    f.flag(1, 0);
    f.reveal_at(0, 0);
    // the flood opens the flagged neighbour, but the flag stops that cell
    // from expanding any further
    assert!(f.get_cell(0, 0).is_revealed());
    assert!(f.get_cell(1, 0).is_revealed());
    assert!(!f.get_cell(2, 0).is_revealed());
    assert!(!f.get_cell(3, 0).is_revealed());
    assert!(!f.is_game_over());
}

#[test]
fn flood_fill_stops_at_revealed_cells() {
    // a lone reveal of a rim cell opens just that cell
    let mut f = corner_mine_field();
    f.reveal_at(1, 1);
    assert!(f.get_cell(1, 1).is_revealed());
    assert!(!f.get_cell(2, 2).is_revealed());
    assert!(!f.get_cell(1, 0).is_revealed());
}

#[test]
fn revealing_a_mine_ends_the_game_for_good() {
    let mut f = centre_mine_field();
    assert!(!f.is_game_over());
    f.reveal_at(1, 1);
    assert!(f.is_game_over());
    f.reveal_at(0, 0);
    f.flag(2, 2);
    assert!(f.is_game_over());
}

#[test]
fn win_iff_every_non_mine_cell_revealed() {
    let mut f = centre_mine_field();
    assert!(!f.has_won());
    for y in 0..3 {
        for x in 0..3 {
            if !(x == 1 && y == 1) {
                f.reveal_at(x, y);
            }
        }
    }
    assert!(f.has_won());
}

#[test]
fn win_ignores_flags_and_mine_reveals() {
    let mut f = centre_mine_field();
    f.flag(0, 0);
    f.flag(1, 1);
    for y in 0..3 {
        for x in 0..3 {
            if !(x == 1 && y == 1) {
                // unflag on the way so the reveal goes through
                if x == 0 && y == 0 {
                    f.flag(0, 0);
                }
                f.reveal_at(x, y);
            }
        }
    }
    assert!(f.has_won());
    // revealing the mine as well keeps the win predicate true
    let mut g = centre_mine_field();
    g.reveal_all();
    assert!(g.has_won());
    assert!(!g.is_game_over());
}

#[test]
fn chord_reveals_neighbourhood_when_counts_match() {
    // correct flag on the corner mine, chord from the centre
    let mut f = corner_mine_field();
    f.flag(0, 0);
    f.reveal_from_cell(1, 1);
    for y in 0..3 {
        for x in 0..3 {
            let expected = !(x == 0 && y == 0);
            assert_eq!(f.get_cell(x, y).is_revealed(), expected, "cell ({}, {})", x, y);
        }
    }
    assert!(!f.is_game_over());
    assert!(f.has_won());
}

#[test]
fn chord_with_misplaced_flag_detonates() {
    // one mine, one flag, but the flag sits on the wrong cell: the counts
    // match, so the chord goes ahead and hits the unflagged mine
    let mut f = corner_mine_field();
    f.flag(1, 0);
    f.reveal_from_cell(1, 1);
    assert!(f.is_game_over());
    assert!(f.get_cell(0, 0).is_revealed());
    // the flagged cell is skipped by its own reveal, but the flood out of
    // the zero-count cells still opens it on the way; the flag stays
    assert!(f.get_cell(1, 0).is_revealed());
    assert!(f.get_cell(1, 0).is_flagged());
}

#[test]
fn chord_does_nothing_when_counts_differ() {
    let mut f = corner_mine_field();
    f.reveal_from_cell(1, 1);
    for y in 0..3 {
        for x in 0..3 {
            assert!(!f.get_cell(x, y).is_revealed(), "cell ({}, {})", x, y);
        }
    }
    assert!(!f.is_game_over());
}

#[test]
fn cursor_translation_clamps_at_edges() {
    let mut f = Field::new(3, 3, 0);
    assert_eq!(f.cursor_pos_x(), 0);
    assert_eq!(f.cursor_pos_y(), 0);
    f.translate_x(-1);
    f.translate_y(-1);
    assert_eq!(f.cursor_pos_x(), 0);
    assert_eq!(f.cursor_pos_y(), 0);
    f.translate_x(1);
    assert_eq!(f.cursor_pos_x(), 1);
    f.translate_x(5);
    assert_eq!(f.cursor_pos_x(), 1);
    f.translate_y(2);
    assert_eq!(f.cursor_pos_y(), 2);
    f.translate_y(1);
    assert_eq!(f.cursor_pos_y(), 2);
}

#[test]
fn cursor_jumps_land_exactly_on_the_edges() {
    let mut f = Field::new(4, 6, 0);
    f.move_cursor_to_edge(Edge::Right);
    assert_eq!(f.cursor_pos_x(), 5);
    f.move_cursor_to_edge(Edge::Down);
    assert_eq!(f.cursor_pos_y(), 3);
    f.move_cursor_to_edge(Edge::Left);
    assert_eq!(f.cursor_pos_x(), 0);
    f.move_cursor_to_edge(Edge::Up);
    assert_eq!(f.cursor_pos_y(), 0);
}

#[test]
fn actions_drive_the_cursor_and_the_cells() {
    let mut f = corner_mine_field();
    f.apply_action(Action::CursorRight);
    f.apply_action(Action::CursorDown);
    assert_eq!(f.cursor_pos_x(), 1);
    assert_eq!(f.cursor_pos_y(), 1);
    f.apply_action(Action::Flag);
    assert!(f.get_cell(1, 1).is_flagged());
    f.apply_action(Action::Flag);
    assert!(!f.get_cell(1, 1).is_flagged());
    f.apply_action(Action::CursorToEdgeRight);
    f.apply_action(Action::CursorToEdgeDown);
    assert_eq!(f.cursor_pos_x(), 2);
    assert_eq!(f.cursor_pos_y(), 2);
    f.apply_action(Action::Reveal);
    assert!(f.get_cell(2, 2).is_revealed());
    f.apply_action(Action::CursorToEdgeUp);
    f.apply_action(Action::CursorToEdgeLeft);
    f.apply_action(Action::Reveal);
    assert!(f.is_game_over());
}

#[test]
fn chord_through_action_uses_the_cursor() {
    let mut f = corner_mine_field();
    f.flag(0, 0);
    f.apply_action(Action::CursorRight);
    f.apply_action(Action::CursorDown);
    f.apply_action(Action::RevealAround);
    assert!(f.has_won());
}

#[test]
fn cell_state_priority_order() {
    let mut f = centre_mine_field();
    assert!(matches!(f.get_cell(0, 0).cell_state(), CellState::Hidden));
    f.flag(0, 0);
    assert!(matches!(f.get_cell(0, 0).cell_state(), CellState::Flagged));
    f.flag(0, 0);
    f.reveal_at(0, 0);
    assert!(matches!(f.get_cell(0, 0).cell_state(), CellState::Neighbours(1)));
    f.reveal_at(1, 1);
    assert!(matches!(f.get_cell(1, 1).cell_state(), CellState::RevealedMine));
    // a flag on a revealed cell still wins the classification
    f.flag(0, 0);
    assert!(matches!(f.get_cell(0, 0).cell_state(), CellState::Flagged));
}

#[test]
fn game_state_priority_order() {
    let mut f = centre_mine_field();
    assert!(matches!(f.game_state(), GameState::Running));
    let mut won = centre_mine_field();
    won.reveal_all();
    assert!(matches!(won.game_state(), GameState::Won));
    f.reveal_at(1, 1);
    f.reveal_all();
    // a detonated mine beats the all-revealed board
    assert!(matches!(f.game_state(), GameState::GameOver));
}

#[test]
fn reveal_all_opens_everything_without_detonating() {
    let mut f = centre_mine_field();
    f.reveal_all();
    for y in 0..3 {
        for x in 0..3 {
            assert!(f.get_cell(x, y).is_revealed());
        }
    }
    assert!(!f.is_game_over());
}

#[test]
fn getters_reflect_the_grid() {
    let f = corner_mine_field();
    assert_eq!(f.width(), 3);
    assert_eq!(f.cells().len(), 9);
    assert!(f.get_cell(0, 0).is_mine());
    assert!(!f.get_cell(1, 0).is_mine());
    assert!(!f.is_game_over());
}
