//! Layout of an RGBA pixel buffer: rows of `width` pixels, four bytes per
//! pixel (red, green, blue, alpha), rows stored one after the other.

use vstd::prelude::*;
use vstd::arithmetic::div_mod::{lemma_fundamental_div_mod, lemma_fundamental_div_mod_converse};

verus! {

/// Number of bytes that make up one RGBA pixel.
pub const BYTES_PER_PIXEL: usize = 4;

/// Blur radius used when no valid radius is given.
pub const DEFAULT_BLUR_RADIUS: u8 = 3;

/// Smallest blur radius that is ever applied.
pub const MIN_BLUR_RADIUS: u8 = 1;

/// Largest blur radius that is ever applied.
pub const MAX_BLUR_RADIUS: u8 = 10;

/// Index of the first byte of pixel `(x, y)` in an image `width` pixels wide.
pub open spec fn pixel_start(width: int, x: int, y: int) -> int {
    (y * width + x) * 4
}

/// Column of the pixel that byte `i` belongs to.
pub open spec fn byte_column(width: int, i: int) -> int {
    (i / 4) % width
}

/// Row of the pixel that byte `i` belongs to.
pub open spec fn byte_row(width: int, i: int) -> int {
    (i / 4) / width
}

/// Channel (0 red, 1 green, 2 blue, 3 alpha) that byte `i` holds.
pub open spec fn byte_channel(i: int) -> int {
    i % 4
}

/// Every byte index splits into a pixel position and a channel.
pub proof fn lemma_byte_position(width: int, i: int)
    requires
        width > 0,
        i >= 0,
    ensures
        0 <= byte_column(width, i) < width,
        0 <= byte_row(width, i),
        0 <= byte_channel(i) < 4,
        i == pixel_start(width, byte_column(width, i), byte_row(width, i)) + byte_channel(i),
{
    let p = i / 4;
    lemma_fundamental_div_mod(i, 4);
    lemma_fundamental_div_mod(p, width);
    let col = p % width;
    let row = p / width;
    let ch = i % 4;
    assert(0 <= p) by (nonlinear_arith)
        requires i >= 0, p == i / 4;
    assert(0 <= col < width) by (nonlinear_arith)
        requires width > 0, p >= 0, col == p % width;
    assert(0 <= row) by (nonlinear_arith)
        requires width > 0, p >= 0, row == p / width;
    assert(0 <= ch < 4) by (nonlinear_arith)
        requires i >= 0, ch == i % 4;
    assert(i == (row * width + col) * 4 + ch) by (nonlinear_arith)
        requires i == 4 * p + ch, p == width * row + col;
}

/// A pixel position and a channel give back exactly that position and channel.
pub proof fn lemma_pixel_position(width: int, x: int, y: int, c: int)
    requires
        0 <= x < width,
        0 <= y,
        0 <= c < 4,
    ensures
        byte_column(width, pixel_start(width, x, y) + c) == x,
        byte_row(width, pixel_start(width, x, y) + c) == y,
        byte_channel(pixel_start(width, x, y) + c) == c,
{
    let i = pixel_start(width, x, y) + c;
    let p = y * width + x;
    assert(i == p * 4 + c);
    lemma_fundamental_div_mod_converse(i, 4, p, c);
    lemma_fundamental_div_mod_converse(p, width, y, x);
}

/// Pixel `(x, y)` of a `width` by `height` image lies inside its buffer.
pub proof fn lemma_pixel_in_bounds(width: int, height: int, x: int, y: int)
    requires
        0 <= x < width,
        0 <= y < height,
    ensures
        0 <= pixel_start(width, x, y),
        pixel_start(width, x, y) + 4 <= width * height * 4,
{
    assert(0 <= (y * width + x) * 4) by (nonlinear_arith)
        requires 0 <= x, 0 <= y, 0 < width;
    assert((y * width + x) * 4 + 4 <= width * height * 4) by (nonlinear_arith)
        requires 0 <= x < width, 0 <= y < height;
}

/// A byte inside the buffer of a `width` by `height` image belongs to a row below `height`.
pub proof fn lemma_row_in_bounds(width: int, height: int, i: int)
    requires
        width > 0,
        0 <= i < width * height * 4,
    ensures
        byte_row(width, i) < height,
{
    lemma_byte_position(width, i);
    let col = byte_column(width, i);
    let row = byte_row(width, i);
    let ch = byte_channel(i);
    assert(row < height) by (nonlinear_arith)
        requires
            width > 0,
            0 <= col,
            0 <= ch,
            i == (row * width + col) * 4 + ch,
            i < width * height * 4,
    ;
}

} // verus!
