//! Drawing the visible bar into a pixel buffer: a background, the
//! workspace label on the left, the clock and levels on the right, and the
//! song centred in the gap between them, in a 5x7 font drawn twice as large.

use vstd::prelude::*;
use vstd::arithmetic::div_mod::{lemma_fundamental_div_mod, lemma_fundamental_div_mod_converse};

use crate::text::{ascii_upper, chars_of, to_ascii_upper};

verus! {

const GLYPH_SCALE: i32 = 2;

/// How far apart the characters of a text stand.
pub open spec fn advance() -> int {
    12
}

/// The width a text takes.
pub open spec fn width_of(s: Seq<char>) -> int {
    advance() * s.len()
}

// ---------------------------------------------------------------------------
// The font
// ---------------------------------------------------------------------------

/// The seven rows of the glyph for `ch`; in each row the five low bits are
/// the pixels from left to right. Lower-case letters share the upper-case
/// glyphs; characters without a glyph show a question mark.
pub open spec fn glyph_bitmap(ch: char) -> Seq<u8> {
    let c = ascii_upper(ch);
        match c {
            'A' => seq![0b01110u8, 0b10001u8, 0b11111u8, 0b10001u8, 0b10001u8, 0u8, 0u8],
            'B' => seq![0b11110u8, 0b10001u8, 0b11110u8, 0b10001u8, 0b11110u8, 0u8, 0u8],
            'C' => seq![0b01111u8, 0b10000u8, 0b10000u8, 0b10000u8, 0b01111u8, 0u8, 0u8],
            'D' => seq![0b11110u8, 0b10001u8, 0b10001u8, 0b10001u8, 0b11110u8, 0u8, 0u8],
            'E' => seq![0b11111u8, 0b10000u8, 0b11110u8, 0b10000u8, 0b11111u8, 0u8, 0u8],
            'F' => seq![0b11111u8, 0b10000u8, 0b11110u8, 0b10000u8, 0b10000u8, 0u8, 0u8],
            'G' => seq![0b01111u8, 0b10000u8, 0b10111u8, 0b10001u8, 0b01110u8, 0u8, 0u8],
            'H' => seq![0b10001u8, 0b10001u8, 0b11111u8, 0b10001u8, 0b10001u8, 0u8, 0u8],
            'I' => seq![0b11111u8, 0b00100u8, 0b00100u8, 0b00100u8, 0b11111u8, 0u8, 0u8],
            'J' => seq![0b00001u8, 0b00001u8, 0b00001u8, 0b10001u8, 0b01110u8, 0u8, 0u8],
            'K' => seq![0b10001u8, 0b10010u8, 0b11100u8, 0b10010u8, 0b10001u8, 0u8, 0u8],
            'L' => seq![0b10000u8, 0b10000u8, 0b10000u8, 0b10000u8, 0b11111u8, 0u8, 0u8],
            'M' => seq![0b10001u8, 0b11011u8, 0b10101u8, 0b10001u8, 0b10001u8, 0u8, 0u8],
            'N' => seq![0b10001u8, 0b11001u8, 0b10101u8, 0b10011u8, 0b10001u8, 0u8, 0u8],
            'O' => seq![0b01110u8, 0b10001u8, 0b10001u8, 0b10001u8, 0b01110u8, 0u8, 0u8],
            'P' => seq![0b11110u8, 0b10001u8, 0b11110u8, 0b10000u8, 0b10000u8, 0u8, 0u8],
            'Q' => seq![0b01110u8, 0b10001u8, 0b10001u8, 0b10011u8, 0b01111u8, 0u8, 0u8],
            'R' => seq![0b11110u8, 0b10001u8, 0b11110u8, 0b10010u8, 0b10001u8, 0u8, 0u8],
            'S' => seq![0b01111u8, 0b10000u8, 0b01110u8, 0b00001u8, 0b11110u8, 0u8, 0u8],
            'T' => seq![0b11111u8, 0b00100u8, 0b00100u8, 0b00100u8, 0b00100u8, 0u8, 0u8],
            'U' => seq![0b10001u8, 0b10001u8, 0b10001u8, 0b10001u8, 0b01110u8, 0u8, 0u8],
            'V' => seq![0b10001u8, 0b10001u8, 0b10001u8, 0b01010u8, 0b00100u8, 0u8, 0u8],
            'W' => seq![0b10001u8, 0b10001u8, 0b10101u8, 0b11011u8, 0b10001u8, 0u8, 0u8],
            'X' => seq![0b10001u8, 0b01010u8, 0b00100u8, 0b01010u8, 0b10001u8, 0u8, 0u8],
            'Y' => seq![0b10001u8, 0b01010u8, 0b00100u8, 0b00100u8, 0b00100u8, 0u8, 0u8],
            'Z' => seq![0b11111u8, 0b00010u8, 0b00100u8, 0b01000u8, 0b11111u8, 0u8, 0u8],
            '0' => seq![0b01110u8, 0b10011u8, 0b10101u8, 0b11001u8, 0b01110u8, 0u8, 0u8],
            '1' => seq![0b00100u8, 0b01100u8, 0b00100u8, 0b00100u8, 0b01110u8, 0u8, 0u8],
            '2' => seq![0b01110u8, 0b10001u8, 0b00010u8, 0b00100u8, 0b11111u8, 0u8, 0u8],
            '3' => seq![0b11110u8, 0b00001u8, 0b01110u8, 0b00001u8, 0b11110u8, 0u8, 0u8],
            '4' => seq![0b00010u8, 0b00110u8, 0b01010u8, 0b11111u8, 0b00010u8, 0u8, 0u8],
            '5' => seq![0b11111u8, 0b10000u8, 0b11110u8, 0b00001u8, 0b11110u8, 0u8, 0u8],
            '6' => seq![0b01110u8, 0b10000u8, 0b11110u8, 0b10001u8, 0b01110u8, 0u8, 0u8],
            '7' => seq![0b11111u8, 0b00010u8, 0b00100u8, 0b01000u8, 0b01000u8, 0u8, 0u8],
            '8' => seq![0b01110u8, 0b10001u8, 0b01110u8, 0b10001u8, 0b01110u8, 0u8, 0u8],
            '9' => seq![0b01110u8, 0b10001u8, 0b01111u8, 0b00001u8, 0b01110u8, 0u8, 0u8],
            '[' => seq![0b01110u8, 0b01000u8, 0b01000u8, 0b01000u8, 0b01110u8, 0u8, 0u8],
            ']' => seq![0b01110u8, 0b00010u8, 0b00010u8, 0b00010u8, 0b01110u8, 0u8, 0u8],
            ':' => seq![0u8, 0b00100u8, 0u8, 0u8, 0b00100u8, 0u8, 0u8],
            '%' => seq![0b11001u8, 0b11010u8, 0b00100u8, 0b01011u8, 0b10011u8, 0u8, 0u8],
            '-' => seq![0u8, 0u8, 0b11111u8, 0u8, 0u8, 0u8, 0u8],
            '.' => seq![0u8, 0u8, 0u8, 0u8, 0b00100u8, 0u8, 0u8],
            '/' => seq![0b00001u8, 0b00010u8, 0b00100u8, 0b01000u8, 0b10000u8, 0u8, 0u8],
            '\u{1f50a}' => seq![0b00010u8, 0b00111u8, 0b11110u8, 0b11110u8, 0b11110u8, 0b00111u8, 0b00010u8],
            '\u{1f507}' => seq![0b10010u8, 0b01011u8, 0b11110u8, 0b11110u8, 0b11110u8, 0b00111u8, 0b00001u8],
            '\u{1f50b}' => seq![0b01110u8, 0b11011u8, 0b10001u8, 0b10001u8, 0b10001u8, 0b11011u8, 0b01110u8],
            '\u{26a1}' => seq![0b00110u8, 0b00100u8, 0b01111u8, 0b00110u8, 0b11100u8, 0b00100u8, 0b01100u8],
            ' ' => seq![0u8, 0u8, 0u8, 0u8, 0u8, 0u8, 0u8],
            _ => seq![0b11111u8, 0b00001u8, 0b00110u8, 0b00000u8, 0b00100u8, 0u8, 0u8],
        }
}

fn glyph_rows(ch: char) -> (rows: [u8; 7])
    ensures
        rows@ == glyph_bitmap(ch),
{
    let c = to_ascii_upper(ch);
    let rows: [u8; 7] = match c {
            'A' => [0b01110, 0b10001, 0b11111, 0b10001, 0b10001, 0, 0],
            'B' => [0b11110, 0b10001, 0b11110, 0b10001, 0b11110, 0, 0],
            'C' => [0b01111, 0b10000, 0b10000, 0b10000, 0b01111, 0, 0],
            'D' => [0b11110, 0b10001, 0b10001, 0b10001, 0b11110, 0, 0],
            'E' => [0b11111, 0b10000, 0b11110, 0b10000, 0b11111, 0, 0],
            'F' => [0b11111, 0b10000, 0b11110, 0b10000, 0b10000, 0, 0],
            'G' => [0b01111, 0b10000, 0b10111, 0b10001, 0b01110, 0, 0],
            'H' => [0b10001, 0b10001, 0b11111, 0b10001, 0b10001, 0, 0],
            'I' => [0b11111, 0b00100, 0b00100, 0b00100, 0b11111, 0, 0],
            'J' => [0b00001, 0b00001, 0b00001, 0b10001, 0b01110, 0, 0],
            'K' => [0b10001, 0b10010, 0b11100, 0b10010, 0b10001, 0, 0],
            'L' => [0b10000, 0b10000, 0b10000, 0b10000, 0b11111, 0, 0],
            'M' => [0b10001, 0b11011, 0b10101, 0b10001, 0b10001, 0, 0],
            'N' => [0b10001, 0b11001, 0b10101, 0b10011, 0b10001, 0, 0],
            'O' => [0b01110, 0b10001, 0b10001, 0b10001, 0b01110, 0, 0],
            'P' => [0b11110, 0b10001, 0b11110, 0b10000, 0b10000, 0, 0],
            'Q' => [0b01110, 0b10001, 0b10001, 0b10011, 0b01111, 0, 0],
            'R' => [0b11110, 0b10001, 0b11110, 0b10010, 0b10001, 0, 0],
            'S' => [0b01111, 0b10000, 0b01110, 0b00001, 0b11110, 0, 0],
            'T' => [0b11111, 0b00100, 0b00100, 0b00100, 0b00100, 0, 0],
            'U' => [0b10001, 0b10001, 0b10001, 0b10001, 0b01110, 0, 0],
            'V' => [0b10001, 0b10001, 0b10001, 0b01010, 0b00100, 0, 0],
            'W' => [0b10001, 0b10001, 0b10101, 0b11011, 0b10001, 0, 0],
            'X' => [0b10001, 0b01010, 0b00100, 0b01010, 0b10001, 0, 0],
            'Y' => [0b10001, 0b01010, 0b00100, 0b00100, 0b00100, 0, 0],
            'Z' => [0b11111, 0b00010, 0b00100, 0b01000, 0b11111, 0, 0],
            '0' => [0b01110, 0b10011, 0b10101, 0b11001, 0b01110, 0, 0],
            '1' => [0b00100, 0b01100, 0b00100, 0b00100, 0b01110, 0, 0],
            '2' => [0b01110, 0b10001, 0b00010, 0b00100, 0b11111, 0, 0],
            '3' => [0b11110, 0b00001, 0b01110, 0b00001, 0b11110, 0, 0],
            '4' => [0b00010, 0b00110, 0b01010, 0b11111, 0b00010, 0, 0],
            '5' => [0b11111, 0b10000, 0b11110, 0b00001, 0b11110, 0, 0],
            '6' => [0b01110, 0b10000, 0b11110, 0b10001, 0b01110, 0, 0],
            '7' => [0b11111, 0b00010, 0b00100, 0b01000, 0b01000, 0, 0],
            '8' => [0b01110, 0b10001, 0b01110, 0b10001, 0b01110, 0, 0],
            '9' => [0b01110, 0b10001, 0b01111, 0b00001, 0b01110, 0, 0],
            '[' => [0b01110, 0b01000, 0b01000, 0b01000, 0b01110, 0, 0],
            ']' => [0b01110, 0b00010, 0b00010, 0b00010, 0b01110, 0, 0],
            ':' => [0, 0b00100, 0, 0, 0b00100, 0, 0],
            '%' => [0b11001, 0b11010, 0b00100, 0b01011, 0b10011, 0, 0],
            '-' => [0, 0, 0b11111, 0, 0, 0, 0],
            '.' => [0, 0, 0, 0, 0b00100, 0, 0],
            '/' => [0b00001, 0b00010, 0b00100, 0b01000, 0b10000, 0, 0],
            '\u{1f50a}' => [0b00010, 0b00111, 0b11110, 0b11110, 0b11110, 0b00111, 0b00010],
            '\u{1f507}' => [0b10010, 0b01011, 0b11110, 0b11110, 0b11110, 0b00111, 0b00001],
            '\u{1f50b}' => [0b01110, 0b11011, 0b10001, 0b10001, 0b10001, 0b11011, 0b01110],
            '\u{26a1}' => [0b00110, 0b00100, 0b01111, 0b00110, 0b11100, 0b00100, 0b01100],
            ' ' => [0, 0, 0, 0, 0, 0, 0],
            _ => [0b11111, 0b00001, 0b00110, 0b00000, 0b00100, 0, 0],
        };
    assert(rows@ =~= glyph_bitmap(ch));
    rows
}

/// Whether column `col` (0 to 4, from the left) of a glyph row is drawn.
pub open spec fn bit_set(row: u8, col: int) -> bool {
    row & (1u8 << ((4 - col) as u8)) != 0
}

/// Whether the glyph for `ch`, drawn with its top left corner at `(gx,
/// gy)`, covers the pixel `(px, py)`.
pub open spec fn glyph_covers(ch: char, gx: int, gy: int, px: int, py: int) -> bool {
    let dx = px - gx;
    let dy = py - gy;
    0 <= dx < 10 && 0 <= dy < 14 && bit_set(glyph_bitmap(ch)[dy / 2], dx / 2)
}

/// Whether `text`, drawn from `(x, y)`, covers the pixel `(px, py)`.
pub open spec fn text_covers(text: Seq<char>, x: int, y: int, px: int, py: int) -> bool
    decreases text.len(),
{
    text.len() > 0 && (text_covers(text.drop_last(), x, y, px, py) || glyph_covers(
        text.last(),
        x + advance() * (text.len() - 1),
        y,
        px,
        py,
    ))
}

// ---------------------------------------------------------------------------
// Pixels
// ---------------------------------------------------------------------------

/// Byte `k` of a pixel in the buffer's blue-green-red-alpha order.
pub open spec fn pixel_byte(rgba: [u8; 4], k: int) -> u8 {
    if k == 0 {
        rgba[2]
    } else if k == 1 {
        rgba[1]
    } else if k == 2 {
        rgba[0]
    } else {
        rgba[3]
    }
}

/// The column of the pixel that byte `j` belongs to.
pub open spec fn pixel_x(j: int, width: int) -> int {
    (j / 4) % width
}

/// The row of the pixel that byte `j` belongs to.
pub open spec fn pixel_y(j: int, width: int) -> int {
    (j / 4) / width
}

/// A buffer of `width` by `height` pixels fits the arithmetic of the
/// `u32` offsets.
pub open spec fn buffer_fits(width: u32, height: u32) -> bool {
    width as int * 4 * height as int <= u32::MAX && width * 4 <= u32::MAX && height <= i32::MAX
}

proof fn lemma_pixel_of(j: int, width: int, x: int, y: int)
    requires
        width > 0,
        j >= 0,
        0 <= x < width,
        y >= 0,
    ensures
        (j / 4 == y * width + x) <==> (pixel_x(j, width) == x && pixel_y(j, width) == y),
{
    let p = j / 4;
    if p == y * width + x {
        lemma_fundamental_div_mod_converse(p, width, y, x);
    }
    if pixel_x(j, width) == x && pixel_y(j, width) == y {
        lemma_fundamental_div_mod(p, width);
        assert(p == width * (p / width) + p % width);
        assert(width * y == y * width) by (nonlinear_arith);
    }
}

proof fn lemma_pixel_in_buffer(j: int, width: int, height: int)
    requires
        width > 0,
        height >= 0,
        0 <= j < width * 4 * height,
    ensures
        0 <= pixel_x(j, width) < width,
        0 <= pixel_y(j, width) < height,
{
    let p = j / 4;
    assert(p < width * height) by (nonlinear_arith)
        requires
            0 <= j < width * 4 * height,
            p == j / 4,
            width > 0,
    ;
    lemma_fundamental_div_mod(p, width);
    assert(p / width < height) by (nonlinear_arith)
        requires
            0 <= p < width * height,
            width > 0,
    ;
}

/// A rectangle of pixels; its sides may reach out of the buffer.
struct Rect {
    x: i32,
    y: i32,
    w: i32,
    h: i32,
}

spec fn in_rect(rect: Rect, px: int, py: int) -> bool {
    rect.x <= px < rect.x + rect.w && rect.y <= py < rect.y + rect.h
}

fn set_pixel(pixels: &mut Vec<u8>, width: u32, Ghost(height): Ghost<u32>, x: i32, y: i32, rgba: [u8; 4])
    requires
        old(pixels)@.len() == width as int * 4 * height as int,
        buffer_fits(width, height),
        0 <= x < width,
        0 <= y < height,
    ensures
        final(pixels)@.len() == old(pixels)@.len(),
        forall|j: int|
            0 <= j < old(pixels)@.len() ==> #[trigger] final(pixels)@[j] == if j / 4 == y * width
                + x {
                pixel_byte(rgba, j % 4)
            } else {
                old(pixels)@[j]
            },
{
    assert((y as int) * (width as int) + (x as int) < (width as int) * (height as int)) by (nonlinear_arith)
        requires
            0 <= x < width,
            0 <= y < height,
    ;
    assert(((y as int) * (width as int) + (x as int)) * 4 + 3 < (width as int) * 4 * (height as int))
        by (nonlinear_arith)
        requires
            (y as int) * (width as int) + (x as int) < (width as int) * (height as int),
    ;
    let idx = ((y as u32 * width + x as u32) * 4) as usize;
    if idx + 3 >= pixels.len() {
        return;
    }
    pixels.set(idx, rgba[2]);
    pixels.set(idx + 1, rgba[1]);
    pixels.set(idx + 2, rgba[0]);
    pixels.set(idx + 3, rgba[3]);
}

fn clamp_to(v: i32, hi: i32) -> (r: i32)
    requires
        hi >= 0,
    ensures
        r == if v < 0 {
            0
        } else if v > hi {
            hi
        } else {
            v
        },
{
    if v < 0 {
        0
    } else if v > hi {
        hi
    } else {
        v
    }
}

/// The pixels of `rect` inside the buffer are all painted `rgba`; the
/// others keep their colour.
fn fill_rect(pixels: &mut Vec<u8>, width: u32, height: u32, rect: Rect, rgba: [u8; 4])
    requires
        old(pixels)@.len() == width as int * 4 * height as int,
        buffer_fits(width, height),
        i32::MIN <= rect.x + rect.w <= i32::MAX,
        i32::MIN <= rect.y + rect.h <= i32::MAX,
    ensures
        final(pixels)@.len() == old(pixels)@.len(),
        forall|j: int|
            0 <= j < old(pixels)@.len() ==> #[trigger] final(pixels)@[j] == if in_rect(
                rect,
                pixel_x(j, width as int),
                pixel_y(j, width as int),
            ) {
                pixel_byte(rgba, j % 4)
            } else {
                old(pixels)@[j]
            },
{
    let ghost w = width as int;
    let ghost len = old(pixels)@.len();
    let ghost start = pixels@;
    let x0 = clamp_to(rect.x, width as i32);
    let y0 = clamp_to(rect.y, height as i32);
    let x1 = clamp_to(rect.x + rect.w, width as i32);
    let y1 = clamp_to(rect.y + rect.h, height as i32);
    if x0 >= x1 || y0 >= y1 {
        proof {
            assert forall|j: int| 0 <= j < len implies !in_rect(
                rect,
                pixel_x(j, w),
                pixel_y(j, w),
            ) by {
                if w > 0 {
                    lemma_pixel_in_buffer(j, w, height as int);
                } else {
                    assert(len == 0) by (nonlinear_arith)
                        requires
                            w == 0,
                            len == w * 4 * height as int,
                    ;
                }
            }
        }
        return;
    }
    let mut py = y0;
    while py < y1
        invariant
            pixels@.len() == len,
            start.len() == len,
            len == width as int * 4 * height as int,
            buffer_fits(width, height),
            w == width as int,
            w > 0,
            0 <= x0 < x1 <= width,
            0 <= y0 <= py <= y1 <= height,
            forall|j: int|
                0 <= j < len ==> #[trigger] pixels@[j] == if y0 <= pixel_y(j, w) < py && x0
                    <= pixel_x(j, w) < x1 {
                    pixel_byte(rgba, j % 4)
                } else {
                    start[j]
                },
        decreases y1 - py,
    {
        let mut px = x0;
        while px < x1
            invariant
                pixels@.len() == len,
                start.len() == len,
                len == width as int * 4 * height as int,
                buffer_fits(width, height),
                w == width as int,
                w > 0,
                0 <= x0 <= px <= x1 <= width,
                0 <= y0 <= py < y1 <= height,
                forall|j: int|
                    0 <= j < len ==> #[trigger] pixels@[j] == if (y0 <= pixel_y(j, w) < py && x0
                        <= pixel_x(j, w) < x1) || (pixel_y(j, w) == py && x0 <= pixel_x(j, w)
                        < px) {
                        pixel_byte(rgba, j % 4)
                    } else {
                        start[j]
                    },
            decreases x1 - px,
        {
            let ghost before = pixels@;
            set_pixel(pixels, width, Ghost(height), px, py, rgba);
            proof {
                assert forall|j: int| 0 <= j < len implies #[trigger] pixels@[j] == if (y0
                    <= pixel_y(j, w) < py && x0 <= pixel_x(j, w) < x1) || (pixel_y(j, w) == py
                    && x0 <= pixel_x(j, w) < px + 1) {
                    pixel_byte(rgba, j % 4)
                } else {
                    start[j]
                } by {
                    lemma_pixel_of(j, w, px as int, py as int);
                    assert(pixels@[j] == if j / 4 == py * width + px {
                        pixel_byte(rgba, j % 4)
                    } else {
                        before[j]
                    });
                }
            }
            px += 1;
        }
        py += 1;
    }
    proof {
        assert forall|j: int| 0 <= j < len implies #[trigger] pixels@[j] == if in_rect(
            rect,
            pixel_x(j, w),
            pixel_y(j, w),
        ) {
            pixel_byte(rgba, j % 4)
        } else {
            start[j]
        } by {
            lemma_pixel_in_buffer(j, w, height as int);
        }
    }
}

/// The glyph cells from the rows above `row` and, in row `row`, the
/// columns left of `col` that are set and cover `(px, py)`.
spec fn cell_drawn(rows: Seq<u8>, x: int, y: int, px: int, py: int, row: int, col: int) -> bool {
    let dx = px - x;
    let dy = py - y;
    &&& 0 <= dx < 10
    &&& 0 <= dy < 14
    &&& (dy / 2 < row || (dy / 2 == row && dx / 2 < col))
    &&& bit_set(rows[dy / 2], dx / 2)
}

/// Draws the glyph for `ch` with its top left corner at `(x, y)`.
fn draw_glyph(pixels: &mut Vec<u8>, width: u32, height: u32, x: i32, y: i32, ch: char, rgba: [u8; 4])
    requires
        old(pixels)@.len() == width as int * 4 * height as int,
        buffer_fits(width, height),
        0 <= x <= i32::MAX - 10,
        0 <= y <= i32::MAX - 14,
    ensures
        final(pixels)@.len() == old(pixels)@.len(),
        forall|j: int|
            0 <= j < old(pixels)@.len() ==> #[trigger] final(pixels)@[j] == if glyph_covers(
                ch,
                x as int,
                y as int,
                pixel_x(j, width as int),
                pixel_y(j, width as int),
            ) {
                pixel_byte(rgba, j % 4)
            } else {
                old(pixels)@[j]
            },
{
    let ghost w = width as int;
    let ghost len = old(pixels)@.len();
    let ghost start = pixels@;
    let rows = glyph_rows(ch);
    let mut ry: usize = 0;
    while ry < 7
        invariant
            pixels@.len() == len,
            start.len() == len,
            len == width as int * 4 * height as int,
            buffer_fits(width, height),
            w == width as int,
            0 <= x <= i32::MAX - 10,
            0 <= y <= i32::MAX - 14,
            ry <= 7,
            rows@ == glyph_bitmap(ch),
            forall|j: int|
                0 <= j < len ==> #[trigger] pixels@[j] == if cell_drawn(
                    rows@,
                    x as int,
                    y as int,
                    pixel_x(j, w),
                    pixel_y(j, w),
                    ry as int,
                    0,
                ) {
                    pixel_byte(rgba, j % 4)
                } else {
                    start[j]
                },
        decreases 7 - ry,
    {
        let row = rows[ry];
        let mut rx: i32 = 0;
        while rx < 5
            invariant
                pixels@.len() == len,
                start.len() == len,
                len == width as int * 4 * height as int,
                buffer_fits(width, height),
                w == width as int,
                0 <= x <= i32::MAX - 10,
                0 <= y <= i32::MAX - 14,
                ry < 7,
                0 <= rx <= 5,
                rows@ == glyph_bitmap(ch),
                row == rows@[ry as int],
                forall|j: int|
                    0 <= j < len ==> #[trigger] pixels@[j] == if cell_drawn(
                        rows@,
                        x as int,
                        y as int,
                        pixel_x(j, w),
                        pixel_y(j, w),
                        ry as int,
                        rx as int,
                    ) {
                        pixel_byte(rgba, j % 4)
                    } else {
                        start[j]
                    },
            decreases 5 - rx,
        {
            let bit: u8 = 1u8 << ((4 - rx) as u8);
            if row & bit != 0 {
                let ghost before = pixels@;
                let cell = Rect {
                    x: x + rx * GLYPH_SCALE,
                    y: y + (ry as i32) * GLYPH_SCALE,
                    w: GLYPH_SCALE,
                    h: GLYPH_SCALE,
                };
                let ghost cell_view = cell;
                fill_rect(pixels, width, height, cell, rgba);
                proof {
                    assert forall|j: int| 0 <= j < len implies #[trigger] pixels@[j] == if cell_drawn(
                        rows@,
                        x as int,
                        y as int,
                        pixel_x(j, w),
                        pixel_y(j, w),
                        ry as int,
                        rx + 1,
                    ) {
                        pixel_byte(rgba, j % 4)
                    } else {
                        start[j]
                    } by {
                        assert(pixels@[j] == if in_rect(cell_view, pixel_x(j, w), pixel_y(j, w)) {
                            pixel_byte(rgba, j % 4)
                        } else {
                            before[j]
                        });
                    }
                }
            } else {
                proof {
                    assert forall|j: int| 0 <= j < len implies #[trigger] pixels@[j] == if cell_drawn(
                        rows@,
                        x as int,
                        y as int,
                        pixel_x(j, w),
                        pixel_y(j, w),
                        ry as int,
                        rx + 1,
                    ) {
                        pixel_byte(rgba, j % 4)
                    } else {
                        start[j]
                    } by {
                        let dx = pixel_x(j, w) - x;
                        let dy = pixel_y(j, w) - y;
                        if 0 <= dx < 10 && 0 <= dy < 14 && dy / 2 == ry && dx / 2 == rx {
                            assert(!bit_set(rows@[dy / 2], dx / 2));
                        }
                    }
                }
            }
            rx += 1;
        }
        ry += 1;
    }
}

fn glyph_height() -> (r: i32)
    ensures
        r == 14,
{
    7 * GLYPH_SCALE
}

fn glyph_advance() -> (r: i32)
    ensures
        r == advance(),
{
    6 * GLYPH_SCALE
}

/// The width `text` takes on the bar.
pub fn text_width(text: &str) -> (r: i32)
    requires
        width_of(text@) <= i32::MAX,
    ensures
        r == width_of(text@),
{
    let chars = chars_of(text);
    chars.len() as i32 * glyph_advance()
}

/// Draws `text` with the top left corner of its first glyph at `(x, y)`.
fn draw_text(pixels: &mut Vec<u8>, width: u32, height: u32, x: i32, y: i32, text: &str, rgba: [u8; 4])
    requires
        old(pixels)@.len() == width as int * 4 * height as int,
        buffer_fits(width, height),
        0 <= x,
        x + width_of(text@) <= i32::MAX,
        0 <= y <= i32::MAX - 14,
    ensures
        final(pixels)@.len() == old(pixels)@.len(),
        forall|j: int|
            0 <= j < old(pixels)@.len() ==> #[trigger] final(pixels)@[j] == if text_covers(
                text@,
                x as int,
                y as int,
                pixel_x(j, width as int),
                pixel_y(j, width as int),
            ) {
                pixel_byte(rgba, j % 4)
            } else {
                old(pixels)@[j]
            },
{
    let ghost w = width as int;
    let ghost len = old(pixels)@.len();
    let ghost start = pixels@;
    let chars = chars_of(text);
    let mut gx = x;
    let mut i: usize = 0;
    while i < chars.len()
        invariant
            pixels@.len() == len,
            start.len() == len,
            len == width as int * 4 * height as int,
            buffer_fits(width, height),
            w == width as int,
            chars@ == text@,
            i <= chars@.len(),
            0 <= x,
            x + width_of(text@) <= i32::MAX,
            0 <= y <= i32::MAX - 14,
            gx == x + advance() * i,
            forall|j: int|
                0 <= j < len ==> #[trigger] pixels@[j] == if text_covers(
                    text@.take(i as int),
                    x as int,
                    y as int,
                    pixel_x(j, w),
                    pixel_y(j, w),
                ) {
                    pixel_byte(rgba, j % 4)
                } else {
                    start[j]
                },
        decreases chars@.len() - i,
    {
        let ghost before = pixels@;
        draw_glyph(pixels, width, height, gx, y, chars[i], rgba);
        proof {
            assert(text@.take(i + 1).drop_last() =~= text@.take(i as int));
            assert(text@.take(i + 1).last() == text@[i as int]);
        }
        gx += glyph_advance();
        i += 1;
    }
    assert(text@.take(chars@.len() as int) =~= text@);
}

/// `text` cut to fit `max_width`: whole when it fits, else as many leading
/// characters as leave room for `...`, followed by `...`; nothing when not
/// even one character and the dots fit.
pub open spec fn truncated(text: Seq<char>, max_width: int) -> Seq<char> {
    if max_width <= 0 {
        seq![]
    } else if width_of(text) <= max_width {
        text
    } else if 3 * advance() > max_width {
        seq![]
    } else {
        let room = (max_width - 3 * advance()) / advance();
        let keep = if text.len() < room {
            text.len() as int
        } else {
            room
        };
        if keep == 0 {
            seq![]
        } else {
            text.take(keep) + seq!['.', '.', '.']
        }
    }
}

/// Cuts `text` to fit `max_width`, marking a cut with `...`.
pub fn truncate_text_to_width(text: &str, max_width: i32) -> (r: String)
    requires
        max_width > 0 ==> width_of(text@) <= i32::MAX,
    ensures
        r@ == truncated(text@, max_width as int),
        width_of(r@) <= if max_width < 0 {
            0
        } else {
            max_width as int
        },
{
    if max_width <= 0 {
        return String::new();
    }
    if text_width(text) <= max_width {
        return text.to_owned();
    }
    let ellipsis_w = 3 * glyph_advance();
    if ellipsis_w > max_width {
        return String::new();
    }
    let chars = chars_of(text);
    let mut kept: usize = 0;
    let room = (max_width - ellipsis_w) / glyph_advance();
    assert(room * 12 <= max_width - 36 < room * 12 + 12);
    while kept < chars.len()
        invariant
            kept <= chars@.len(),
            chars@ == text@,
            max_width < width_of(text@) <= i32::MAX,
            ellipsis_w == 36,
            0 <= room,
            room * 12 <= max_width - 36 < room * 12 + 12,
            kept <= room,
        ensures
            kept as int == if text@.len() < room {
                text@.len() as int
            } else {
                room as int
            },
        decreases chars@.len() - kept,
    {
        let next_w = (kept as i32) * glyph_advance() + glyph_advance();
        assert(12 * kept + 12 + 36 <= i32::MAX);
        if next_w + ellipsis_w > max_width {
            break;
        }
        kept += 1;
    }
    if kept == 0 {
        return String::new();
    }
    let head = crate::text::copy_range(chars.as_slice(), 0, kept);
    let mut fitted = crate::text::string_from_chars(head.as_slice());
    fitted.push('.');
    fitted.push('.');
    fitted.push('.');
    assert(fitted@ =~= text@.take(kept as int) + seq!['.', '.', '.']);
    fitted
}

/// `a / 2`, rounded towards zero as `i32` division is.
pub open spec fn half_toward_zero(a: int) -> int {
    if a >= 0 {
        a / 2
    } else {
        -((-a) / 2)
    }
}

/// `v` moved into `[lo, hi]`.
pub open spec fn clamp(v: int, lo: int, hi: int) -> int {
    if v < lo {
        lo
    } else if v > hi {
        hi
    } else {
        v
    }
}

/// The text to show between `min_x` and `max_x`, cut to fit, and where it
/// starts: centred on a bar `width` wide where the gap allows, else pushed
/// to the nearer end of the gap. There is none when the gap is narrower
/// than three characters or nothing of the text fits.
pub open spec fn fit_centered(text: Seq<char>, width: int, min_x: int, max_x: int) -> Option<
    (Seq<char>, int),
> {
    if min_x >= max_x {
        None
    } else if max_x - min_x < 3 * advance() {
        None
    } else {
        let fitted = truncated(text, max_x - min_x);
        if fitted.len() == 0 {
            None
        } else {
            let ideal = half_toward_zero(width - width_of(fitted));
            Some((fitted, clamp(ideal, min_x, max_x - width_of(fitted))))
        }
    }
}

/// Fits `text` into the gap from `min_x` to `max_x` on a bar `width` wide.
pub fn fit_centered_text(text: &str, width: i32, min_x: i32, max_x: i32) -> (r: Option<(String, i32)>)
    requires
        min_x < max_x ==> max_x as int - min_x as int <= i32::MAX,
        min_x < max_x && max_x as int - min_x as int >= 3 * advance() ==> {
            &&& width_of(text@) <= i32::MAX
            &&& width as int - width_of(truncated(text@, max_x as int - min_x as int)) >= i32::MIN
        },
    ensures
        r matches Some((t, x)) ==> fit_centered(text@, width as int, min_x as int, max_x as int)
            == Some((t@, x as int)),
        r is None ==> fit_centered(text@, width as int, min_x as int, max_x as int) is None,
        r matches Some((t, x)) ==> min_x <= x && x + width_of(t@) <= max_x,
{
    if min_x >= max_x {
        return None;
    }
    let available_w = max_x - min_x;
    if available_w < glyph_advance() * 3 {
        return None;
    }
    let fitted = truncate_text_to_width(text, available_w);
    if fitted.as_str().is_empty() {
        return None;
    }
    proof {
        assert(width_of(fitted@) <= width_of(text@)) by {
            if width_of(text@) > available_w {
                assert(fitted@.len() <= text@.len() + 3);
            }
        }
    }
    let text_w = text_width(fitted.as_str());
    let ideal = (width - text_w) / 2;
    let hi = max_x - text_w;
    let x = if ideal < min_x {
        min_x
    } else if ideal > hi {
        hi
    } else {
        ideal
    };
    Some((fitted, x))
}

/// The row the texts start on: centred vertically, but not above the top.
pub open spec fn text_row(height: int) -> int {
    if height >= 14 {
        (height - 14) / 2
    } else {
        0
    }
}

/// Where the right text starts: flush with the right padding, but not left
/// of the left padding.
pub open spec fn right_text_x(width: int, right: Seq<char>) -> int {
    let x = width - 14 - width_of(right);
    if x < 14 {
        14
    } else {
        x
    }
}

/// The centre text as drawn and where it starts, when it is drawn: in the
/// gap that keeps 24 pixels from the left and right texts.
pub open spec fn center_placement(
    width: int,
    left: Seq<char>,
    center: Seq<char>,
    right: Seq<char>,
) -> Option<(Seq<char>, int)> {
    fit_centered(center, width, 14 + width_of(left) + 24, right_text_x(width, right) - 24)
}

proof fn lemma_truncated_fits(text: Seq<char>, max_width: int)
    ensures
        width_of(truncated(text, max_width)) <= if max_width < 0 {
            0
        } else {
            max_width
        },
{
    if max_width > 0 && width_of(text) > max_width && 36 <= max_width {
        let room = (max_width - 36) / 12;
        let keep = if text.len() < room {
            text.len() as int
        } else {
            room
        };
        if keep > 0 {
            assert((text.take(keep) + seq!['.', '.', '.']).len() == keep + 3);
        }
    }
}

/// The centre text keeps a gap of 24 pixels to the left and the right
/// text: it starts after the left text and its gap, and ends before the
/// gap of the right text.
pub proof fn law_center_text_stays_in_gap(
    width: int,
    left: Seq<char>,
    center: Seq<char>,
    right: Seq<char>,
)
    ensures
        center_placement(width, left, center, right) matches Some((t, cx)) ==> {
            &&& 14 + width_of(left) + 24 <= cx
            &&& cx + width_of(t) <= right_text_x(width, right) - 24
        },
{
    let min_x = 14 + width_of(left) + 24;
    let max_x = right_text_x(width, right) - 24;
    lemma_truncated_fits(center, max_x - min_x);
}

/// The fitted text is centred on the bar: it starts at half of the room the
/// bar leaves beside it (rounded towards zero, as `i32` division is) when
/// that keeps it inside the gap, and at the nearer end of the gap otherwise.
pub proof fn law_fitted_text_is_centred(text: Seq<char>, width: int, min_x: int, max_x: int)
    ensures
        fit_centered(text, width, min_x, max_x) matches Some((t, x)) ==> {
            let room = width - width_of(t);
            let ideal = if room >= 0 {
                room / 2
            } else {
                -((-room) / 2)
            };
            &&& min_x <= x <= max_x - width_of(t)
            &&& min_x <= ideal <= max_x - width_of(t) ==> x == ideal
            &&& ideal < min_x ==> x == min_x
            &&& ideal > max_x - width_of(t) ==> x == max_x - width_of(t)
        },
{
    if min_x < max_x && max_x - min_x >= 3 * advance() {
        lemma_truncated_fits(text, max_x - min_x);
    }
}

/// The width of the gap that the centre text may take.
pub open spec fn center_gap(width: int, left: Seq<char>, right: Seq<char>) -> int {
    (right_text_x(width, right) - 24) - (14 + width_of(left) + 24)
}

/// Whether the pixel `(px, py)` of the visible bar shows text.
pub open spec fn bar_pixel_lit(
    width: int,
    height: int,
    left: Seq<char>,
    center: Seq<char>,
    right: Seq<char>,
    px: int,
    py: int,
) -> bool {
    let y = text_row(height);
    ||| text_covers(left, 14, y, px, py)
    ||| text_covers(right, right_text_x(width, right), y, px, py)
    ||| match center_placement(width, left, center, right) {
        Some((t, cx)) => text_covers(t, cx, y, px, py),
        None => false,
    }
}

/// Whether the visible bar can be drawn: the buffer's size and its row
/// length fit a `u32`; a bar without columns is not one of the heights
/// whose `i32` reading lies within 14 of `i32::MIN` (the text row
/// `(height - 14) / 2` is taken on that reading); and every text that is
/// drawn ends within the `i32` range of x positions. The centre text is
/// measured only where the gap beside the other two could hold it.
pub open spec fn render_inputs_fit(
    width: u32,
    height: u32,
    left: Seq<char>,
    center: Seq<char>,
    right: Seq<char>,
) -> bool {
    &&& width as int * 4 * height as int <= u32::MAX
    &&& width * 4 <= u32::MAX
    &&& width == 0 ==> !(0x8000_0000 <= height < 0x8000_000e)
    &&& 14 + width_of(left) + 24 <= i32::MAX
    &&& 14 + width_of(right) <= i32::MAX
    &&& center_gap(width as int, left, right) >= 3 * advance() ==> width_of(center) <= i32::MAX
}

/// The pixels of the visible bar, `width` by `height`, four bytes each in
/// blue-green-red-alpha order, row after row: text colour where `left`,
/// `center` or `right` covers a pixel, background elsewhere.
pub fn render_visible_pixels(
    width: u32,
    height: u32,
    background: [u8; 4],
    text_color: [u8; 4],
    left: &str,
    center: &str,
    right: &str,
) -> (pixels: Vec<u8>)
    requires
        render_inputs_fit(width, height, left@, center@, right@),
    ensures
        pixels@.len() == width as int * 4 * height as int,
        forall|j: int|
            0 <= j < pixels@.len() ==> #[trigger] pixels@[j] == pixel_byte(
                if bar_pixel_lit(
                    width as int,
                    height as int,
                    left@,
                    center@,
                    right@,
                    pixel_x(j, width as int),
                    pixel_y(j, width as int),
                ) {
                    text_color
                } else {
                    background
                },
                j % 4,
            ),
{
    if width == 0 {
        // A bar without columns has no pixels, whatever its height.
        assert(width as int * 4 * height as int == 0) by (nonlinear_arith)
            requires
                width == 0,
        ;
        return Vec::new();
    }
    assert(height <= i32::MAX) by (nonlinear_arith)
        requires
            width >= 1,
            width as int * 4 * height as int <= u32::MAX,
    ;
    let ghost w = width as int;
    let side_padding: i32 = 14;
    let section_gap: i32 = 24;
    let stride = (width * 4) as usize;
    let size = stride * height as usize;
    assert(size == width as int * 4 * height as int) by (nonlinear_arith)
        requires
            stride == width as int * 4,
            size == stride * height as int,
    ;
    let mut pixels = vec![0u8; size];
    let ghost len = pixels@.len();
    fill_rect(
        &mut pixels,
        width,
        height,
        Rect { x: 0, y: 0, w: width as i32, h: height as i32 },
        background,
    );
    let ghost filled = pixels@;
    proof {
        assert forall|j: int| 0 <= j < len implies #[trigger] filled[j] == pixel_byte(
            background,
            j % 4,
        ) by {
            if w > 0 {
                lemma_pixel_in_buffer(j, w, height as int);
            } else {
                assert(len == 0) by (nonlinear_arith)
                    requires
                        w == 0,
                        len == w * 4 * height as int,
                ;
            }
        }
    }
    let centred = (height as i32 - glyph_height()) / 2;
    let y = if centred > 0 {
        centred
    } else {
        0
    };
    draw_text(&mut pixels, width, height, side_padding, y, left, text_color);
    let ghost with_left = pixels@;
    let right_w = text_width(right);
    let right_x = if width as i32 - side_padding - right_w < side_padding {
        side_padding
    } else {
        width as i32 - side_padding - right_w
    };
    draw_text(&mut pixels, width, height, right_x, y, right, text_color);
    let ghost with_right = pixels@;
    let left_end = side_padding + text_width(left);
    let center_min_x = left_end + section_gap;
    let center_max_x = right_x - section_gap;
    proof {
        lemma_truncated_fits(center@, center_max_x - center_min_x);
    }
    let placed = fit_centered_text(center, width as i32, center_min_x, center_max_x);
    match placed {
        Some((center_text, center_x)) => {
            draw_text(&mut pixels, width, height, center_x, y, center_text.as_str(), text_color);
        },
        None => {},
    }
    proof {
        assert(y == text_row(height as int));
        assert(right_x == right_text_x(width as int, right@));
        assert forall|j: int| 0 <= j < len implies #[trigger] pixels@[j] == pixel_byte(
            if bar_pixel_lit(
                width as int,
                height as int,
                left@,
                center@,
                right@,
                pixel_x(j, w),
                pixel_y(j, w),
            ) {
                text_color
            } else {
                background
            },
            j % 4,
        ) by {
            assert(filled[j] == pixel_byte(background, j % 4));
            assert(with_left[j] == if text_covers(left@, 14, y as int, pixel_x(j, w), pixel_y(j, w)) {
                pixel_byte(text_color, j % 4)
            } else {
                filled[j]
            });
            assert(with_right[j] == if text_covers(
                right@,
                right_x as int,
                y as int,
                pixel_x(j, w),
                pixel_y(j, w),
            ) {
                pixel_byte(text_color, j % 4)
            } else {
                with_left[j]
            });
        }
    }
    pixels
}

/// Whether `text` is at most `limit` wide.
fn width_at_most(text: &str, limit: u64) -> (r: bool)
    ensures
        r == (width_of(text@) <= limit),
{
    let n = chars_of(text).len() as u64;
    assert((12 * n <= limit) == (n <= limit / 12)) by (nonlinear_arith);
    n <= limit / 12
}

/// Tells whether `render_visible_pixels` can draw these texts on a `width`
/// by `height` bar.
pub fn render_fits(width: u32, height: u32, left: &str, center: &str, right: &str) -> (r: bool)
    ensures
        r == render_inputs_fit(width, height, left@, center@, right@),
{
    let wide = width as u64 * 4;
    if wide > u32::MAX as u64 {
        return false;
    }
    assert(wide * height <= 0xffff_ffff_ffff_ffff) by (nonlinear_arith)
        requires
            wide <= u32::MAX,
            height <= u32::MAX,
    ;
    if wide * height as u64 > u32::MAX as u64 {
        return false;
    }
    if width == 0 && 0x8000_0000 <= height && height < 0x8000_000e {
        return false;
    }
    if !width_at_most(left, (i32::MAX - 38) as u64) || !width_at_most(right, (i32::MAX - 14) as u64) {
        return false;
    }
    let left_w = text_width(left) as i64;
    let right_w = text_width(right) as i64;
    let x = width as i64 - 14 - right_w;
    let right_x = if x < 14 {
        14
    } else {
        x
    };
    let gap = (right_x - 24) - (14 + left_w + 24);
    gap < 36 || width_at_most(center, i32::MAX as u64)
}

/// The row length and the size in bytes of a `width` by `height` buffer:
/// none for an empty one, or one whose size does not fit in a `u32`.
pub open spec fn layout(width: u32, height: u32) -> Option<(u32, u32)> {
    if width == 0 || height == 0 || width as int * 4 > u32::MAX || width as int * 4
        * height as int > u32::MAX {
        None
    } else {
        Some(((width * 4) as u32, (width * 4 * height) as u32))
    }
}

pub fn buffer_layout(width: u32, height: u32) -> (r: Option<(u32, u32)>)
    ensures
        r == layout(width, height),
{
    if width == 0 || height == 0 {
        return None;
    }
    let stride = width.checked_mul(4)?;
    let size = stride.checked_mul(height)?;
    Some((stride, size))
}

/// The pixels of a buffer of one colour, when it has a layout.
pub fn solid_bar_pixels(width: u32, height: u32, rgba: [u8; 4]) -> (r: Option<Vec<u8>>)
    ensures
        r is Some <==> layout(width, height) is Some,
        r matches Some(pixels) ==> {
            &&& pixels@.len() == width as int * 4 * height as int
            &&& forall|j: int| 0 <= j < pixels@.len() ==> #[trigger] pixels@[j] == pixel_byte(rgba, j % 4)
        },
{
    let (_stride, size) = buffer_layout(width, height)?;
    let size = size as usize;
    assert(size % 4 == 0) by {
        assert(width as int * 4 * height as int == (width as int * height as int) * 4)
            by (nonlinear_arith);
        vstd::arithmetic::div_mod::lemma_mod_multiples_basic(width as int * height as int, 4);
    }
    let mut pixels: Vec<u8> = Vec::new();
    let mut i: usize = 0;
    while i < size
        invariant
            size == width as int * 4 * height as int,
            size % 4 == 0,
            i <= size,
            i % 4 == 0,
            pixels@.len() == i,
            forall|j: int| 0 <= j < i ==> #[trigger] pixels@[j] == pixel_byte(rgba, j % 4),
        decreases size - i,
    {
        pixels.push(rgba[2]);
        pixels.push(rgba[1]);
        pixels.push(rgba[0]);
        pixels.push(rgba[3]);
        i += 4;
    }
    Some(pixels)
}

} // verus!
