use vstd::prelude::*;

verus! {

/// Where the next character cell goes on the screen, in pixels.
#[derive(Clone, Copy, PartialEq, Eq, Structural, Debug)]
pub struct Cursor {
    pub x: u32,
    pub y: u32,
}

/// The sizes that cursor moves depend on, in pixels.
#[derive(Clone, Copy, PartialEq, Eq, Structural, Debug)]
pub struct Geometry {
    pub cursor_width: u32,
    pub cursor_height: u32,
    pub screen_width: u32,
}

/// The code of the newline character.
pub const NEWLINE: u32 = 10;

/// The 32-bit sum with the carry out dropped.
pub open spec fn add32(a: u32, b: u32) -> u32 {
    vstd::wrapping::u32_specs::wrapping_add(a, b)
}

/// The cursor after one character is drawn: a newline goes to the start of
/// the next text row, any other character moves one cell to the right.
pub open spec fn after_char(cur: Cursor, geo: Geometry, ch: u32) -> Cursor {
    if ch == NEWLINE {
        Cursor { x: 0, y: add32(cur.y, geo.cursor_height) }
    } else {
        Cursor { x: add32(cur.x, geo.cursor_width), y: cur.y }
    }
}

/// Moves the cursor past one drawn character, given by its code. A
/// character other than a newline is drawn at the cell the cursor was on.
pub fn cursor_after_char(cur: Cursor, geo: &Geometry, ch: u32) -> (next: Cursor)
    ensures
        next == after_char(cur, *geo, ch),
{
    if ch == NEWLINE {
        Cursor { x: 0, y: cur.y.wrapping_add(geo.cursor_height) }
    } else {
        Cursor { x: cur.x.wrapping_add(geo.cursor_width), y: cur.y }
    }
}

/// Moves the cursor one cell back, where a blank is then drawn; at the
/// left edge there is nothing to do.
pub fn cursor_after_backspace(cur: Cursor, geo: &Geometry) -> (next: Option<Cursor>)
    ensures
        next is Some <==> cur.x >= geo.cursor_width,
        next matches Some(c) ==> c == (Cursor { x: (cur.x - geo.cursor_width) as u32, y: cur.y }),
{
    if cur.x >= geo.cursor_width {
        Some(Cursor { x: cur.x - geo.cursor_width, y: cur.y })
    } else {
        None
    }
}

/// Whether a typed character still fits on the current row.
pub fn fits_on_row(cursor_x: u32, geo: &Geometry) -> (fits: bool)
    ensures
        fits == (cursor_x < vstd::wrapping::u32_specs::wrapping_sub(
            geo.screen_width,
            geo.cursor_width,
        )),
{
    cursor_x < geo.screen_width.wrapping_sub(geo.cursor_width)
}

/// The colour the palette starts from.
pub const PALETTE_SEED: u32 = 0x8238ADEC;

/// The colour rotated left by one byte.
pub open spec fn rotate_byte(x: u32) -> u32 {
    ((x << 8u32) | (x >> 24u32)) as u32
}

/// The palette colour after `i` rotations of the seed.
pub open spec fn palette(i: nat) -> u32
    decreases i,
{
    if i == 0 {
        PALETTE_SEED
    } else {
        rotate_byte(palette((i - 1) as nat))
    }
}

/// The next colour of the palette.
pub fn next_color(x: u32) -> (y: u32)
    ensures
        y == rotate_byte(x),
{
    assert((x << 8u32) + (x >> 24u32) == ((x << 8u32) | (x >> 24u32)) as u32
        && (x << 8u32) + (x >> 24u32) <= u32::MAX) by (bit_vector);
    (x << 8) + (x >> 24)
}

/// The foreground colour of each of `n` characters drawn in palette
/// colours: character `i` gets the palette colour after `i + 1` rotations.
pub fn drawstr_colors(n: usize) -> (colors: Vec<u32>)
    ensures
        colors@.len() == n,
        forall|i: int| 0 <= i < n ==> colors@[i] == palette((i + 1) as nat),
{
    let mut colors: Vec<u32> = Vec::new();
    let mut x: u32 = PALETTE_SEED;
    let mut i: usize = 0;
    while i < n
        invariant
            i <= n,
            colors@.len() == i,
            x == palette(i as nat),
            forall|j: int| 0 <= j < i ==> colors@[j] == palette((j + 1) as nat),
        decreases n - i,
    {
        x = next_color(x);
        colors.push(x);
        i += 1;
    }
    colors
}

proof fn lemma_rotate_twice(x: u32)
    ensures
        rotate_byte(rotate_byte(x)) == ((x << 16u32) | (x >> 16u32)) as u32,
{
    let y = rotate_byte(x);
    assert(y == ((x << 8u32) | (x >> 24u32)) as u32 ==> ((y << 8u32) | (y >> 24u32)) as u32 == ((x
        << 16u32) | (x >> 16u32)) as u32) by (bit_vector);
}

/// Four rotations by a byte give the colour back.
pub proof fn law_rotate_four_times(x: u32)
    ensures
        rotate_byte(rotate_byte(rotate_byte(rotate_byte(x)))) == x,
{
    let z = rotate_byte(rotate_byte(x));
    lemma_rotate_twice(x);
    lemma_rotate_twice(z);
    assert(z == ((x << 16u32) | (x >> 16u32)) as u32 ==> ((z << 16u32) | (z >> 16u32)) as u32 == x)
        by (bit_vector);
}

/// The palette repeats every four characters.
pub proof fn law_palette_period(i: nat)
    ensures
        palette(i + 4) == palette(i),
{
    law_rotate_four_times(palette(i));
    assert(palette(i + 1) == rotate_byte(palette(i)));
    assert(palette(i + 2) == rotate_byte(palette(i + 1)));
    assert(palette(i + 3) == rotate_byte(palette(i + 2)));
    assert(palette(i + 4) == rotate_byte(palette(i + 3)));
}

/// Drawing a character other than a newline and then stepping back returns
/// the cursor to where it was, unless the step right wrapped around.
pub proof fn law_backspace_undoes_char(cur: Cursor, geo: Geometry, ch: u32)
    requires
        ch != NEWLINE,
        cur.x + geo.cursor_width <= u32::MAX,
    ensures
        after_char(cur, geo, ch).x >= geo.cursor_width,
        (Cursor { x: (after_char(cur, geo, ch).x - geo.cursor_width) as u32, y: cur.y }) == cur,
{
}

} // verus!
