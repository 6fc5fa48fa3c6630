//! Tests for the framebuffer renderer.

use mine::field::Field;
use mine::render::draw;

#[test]
fn draw_paints_cursor_hidden_and_revealed_cells() {
    // 1x3 field, no mines: cursor on (0, 0), reveal (2, 0)
    let mut f = Field::with_mine_layout(1, 3, vec![false, false, false]);
    f.reveal_at(2, 0);
    let mut screen = vec![0u8; 12];
    draw(&f, &mut screen);
    // cursor pixel
    assert_eq!(&screen[0..4], &[231, 185, 3, 0]);
    // the flood opened the whole mine-free row, count 0
    assert_eq!(&screen[4..8], &[186, 186, 186, 0]);
    assert_eq!(&screen[8..12], &[186, 186, 186, 0]);
}

#[test]
fn draw_paints_flags_counts_and_mines() {
    // 1x4 field with a mine at the right end
    let mut f = Field::with_mine_layout(1, 4, vec![false, false, false, true]);
    f.flag(1, 0);
    f.reveal_at(2, 0);
    f.reveal_at(3, 0);
    let mut screen = vec![0u8; 16];
    draw(&f, &mut screen);
    assert_eq!(&screen[0..4], &[231, 185, 3, 0]); // cursor
    assert_eq!(&screen[4..8], &[214, 22, 63, 0]); // flag
    assert_eq!(&screen[8..12], &[0, 0, 255, 0]); // revealed, one neighbour
    assert_eq!(&screen[12..16], &[90, 0, 20, 0]); // revealed mine
}

#[test]
fn draw_paints_hidden_cells_dark() {
    let f = Field::with_mine_layout(2, 2, vec![true, false, false, false]);
    let mut screen = vec![0u8; 16];
    draw(&f, &mut screen);
    assert_eq!(&screen[0..4], &[231, 185, 3, 0]); // cursor over hidden cell
    assert_eq!(&screen[4..8], &[20, 20, 20, 0]);
    assert_eq!(&screen[8..12], &[20, 20, 20, 0]);
    assert_eq!(&screen[12..16], &[20, 20, 20, 0]);
}
