use sgash::console::{
    cursor_after_backspace, cursor_after_char, drawstr_colors, fits_on_row, next_color, Cursor,
    Geometry, PALETTE_SEED,
};

fn geo() -> Geometry {
    Geometry { cursor_width: 8, cursor_height: 16, screen_width: 640 }
}

#[test]
fn newline_moves_to_next_row() {
    let c = cursor_after_char(Cursor { x: 40, y: 32 }, &geo(), '\n' as u32);
    assert_eq!(c, Cursor { x: 0, y: 48 });
}

#[test]
fn character_moves_one_cell_right() {
    let c = cursor_after_char(Cursor { x: 40, y: 32 }, &geo(), 'a' as u32);
    assert_eq!(c, Cursor { x: 48, y: 32 });
}

#[test]
fn cursor_arithmetic_wraps() {
    let c = cursor_after_char(Cursor { x: u32::MAX - 3, y: 0 }, &geo(), 'a' as u32);
    assert_eq!(c.x, 4);
}

#[test]
fn backspace_steps_back_and_undoes_a_character() {
    let start = Cursor { x: 40, y: 32 };
    let moved = cursor_after_char(start, &geo(), 'q' as u32);
    assert_eq!(cursor_after_backspace(moved, &geo()), Some(start));
    assert_eq!(cursor_after_backspace(Cursor { x: 7, y: 0 }, &geo()), None);
    assert_eq!(cursor_after_backspace(Cursor { x: 8, y: 0 }, &geo()), Some(Cursor { x: 0, y: 0 }));
}

#[test]
fn typing_stops_before_the_last_cell() {
    assert!(fits_on_row(0, &geo()));
    assert!(fits_on_row(631, &geo()));
    assert!(!fits_on_row(632, &geo()));
    // a cell wider than the screen wraps the limit around
    let odd = Geometry { cursor_width: 700, cursor_height: 16, screen_width: 640 };
    assert!(fits_on_row(1_000_000, &odd));
}

#[test]
fn palette_rotates_by_a_byte() {
    assert_eq!(next_color(0x8238ADEC), 0x38ADEC82);
    assert_eq!(drawstr_colors(5), vec![0x38ADEC82, 0xADEC8238, 0xEC8238AD, PALETTE_SEED, 0x38ADEC82]);
    assert_eq!(drawstr_colors(0), Vec::<u32>::new());
}

#[test]
fn palette_repeats_every_four() {
    let c = drawstr_colors(12);
    for i in 0..8 {
        assert_eq!(c[i], c[i + 4]);
    }
}

#[test]
fn only_a_newline_code_starts_a_row() {
    // a four-byte cell holding a newline followed by another byte is not a newline
    let c = cursor_after_char(Cursor { x: 40, y: 32 }, &geo(), 0x0A0A);
    assert_eq!(c, Cursor { x: 48, y: 32 });
}
