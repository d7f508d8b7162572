//! Horizontal mirroring of an RGBA image, in place.

use vstd::prelude::*;

use crate::pixels::{
    byte_channel, byte_column, byte_row, lemma_byte_position, lemma_pixel_in_bounds,
    lemma_pixel_position, lemma_row_in_bounds, pixel_start, BYTES_PER_PIXEL,
};
use crate::plugin_loader::{PLUGIN_ERROR_NULL_POINTER, PLUGIN_SUCCESS};

verus! {

/// Byte of the original image that byte `i` of the mirrored image copies:
/// same row and channel, column `width - 1 - column`.
pub open spec fn mirror_source(width: int, i: int) -> int {
    pixel_start(width, width - 1 - byte_column(width, i), byte_row(width, i)) + byte_channel(i)
}

/// The image `data` (rows of `width` pixels) mirrored left to right.
pub open spec fn mirrored(width: int, data: Seq<u8>) -> Seq<u8> {
    Seq::new(data.len(), |i: int| data[mirror_source(width, i)])
}

/// Pixel `(x, y)` of the mirrored image is pixel `(width - 1 - x, y)` of the
/// original, channel by channel.
pub proof fn lemma_mirrored_pixel(width: int, height: int, data: Seq<u8>, x: int, y: int, c: int)
    requires
        data.len() == width * height * 4,
        0 <= x < width,
        0 <= y < height,
        0 <= c < 4,
    ensures
        mirrored(width, data)[pixel_start(width, x, y) + c] == data[pixel_start(width, width - 1 - x, y) + c],
{
    lemma_pixel_in_bounds(width, height, x, y);
    lemma_pixel_position(width, x, y, c);
}

/// Mirroring an image twice gives back the original image.
pub proof fn lemma_mirror_twice(width: int, height: int, data: Seq<u8>)
    requires
        width > 0,
        data.len() == width * height * 4,
    ensures
        mirrored(width, mirrored(width, data)) == data,
{
    let once = mirrored(width, data);
    assert forall|i: int| 0 <= i < data.len() implies #[trigger] mirrored(width, once)[i] == data[i] by {
        lemma_byte_position(width, i);
        lemma_row_in_bounds(width, height, i);
        let col = byte_column(width, i);
        let row = byte_row(width, i);
        let ch = byte_channel(i);
        lemma_pixel_in_bounds(width, height, width - 1 - col, row);
        lemma_pixel_position(width, width - 1 - col, row, ch);
    }
    assert(mirrored(width, once) =~= data);
}

/// In an image of odd width, every byte of the middle column keeps its value
/// when the image is mirrored.
pub proof fn lemma_mirror_keeps_middle_column(width: int, height: int, data: Seq<u8>, i: int)
    requires
        width > 0,
        width % 2 == 1,
        data.len() == width * height * 4,
        0 <= i < data.len(),
        byte_column(width, i) == width / 2,
    ensures
        mirrored(width, data)[i] == data[i],
{
    lemma_byte_position(width, i);
}

/// Where byte `i` stands while row `row` is being mirrored and the pixel
/// columns outside `lo..=hi` of that row are already swapped.
spec fn mirror_progress(width: int, row: int, lo: int, hi: int, old_data: Seq<u8>, i: int) -> u8 {
    if byte_row(width, i) < row || (byte_row(width, i) == row && (byte_column(width, i) < lo
        || byte_column(width, i) > hi)) {
        old_data[mirror_source(width, i)]
    } else {
        old_data[i]
    }
}

/// Mirrors every row of a `width` by `height` image in place.
fn mirror_in_place(data: &mut [u8], width: usize, height: usize)
    requires
        width > 0,
        height > 0,
        old(data)@.len() == width * height * 4,
    ensures
        final(data)@ == mirrored(width as int, old(data)@),
{
    let ghost w = width as int;
    let ghost h = height as int;
    let ghost orig = data@;
    let ghost len = orig.len() as int;
    let total = data.len();
    let mut row: usize = 0;
    while row < height
        invariant
            w == width as int,
            h == height as int,
            width > 0,
            row <= height,
            len == w * h * 4,
            len == total,
            data@.len() == len,
            forall|i: int|
                0 <= i < len ==> #[trigger] data@[i] == mirror_progress(w, row as int, 0, w - 1, orig, i),
        decreases height - row,
    {
        proof {
            lemma_pixel_in_bounds(w, h, 0, row as int);
            assert(row * width * 4 == pixel_start(w, 0, row as int)) by (nonlinear_arith)
                requires w == width as int;
            assert(row * width <= row * width * 4) by (nonlinear_arith);
            lemma_pixel_in_bounds(w, h, w - 1, 0);
            assert(pixel_start(w, w - 1, 0) == (w - 1) * 4);
        }
        let row_start = row * width * BYTES_PER_PIXEL;
        let mut left: usize = 0;
        let mut right: usize = (width - 1) * BYTES_PER_PIXEL;
        let ghost mut lo: int = 0;
        let ghost mut hi: int = w - 1;
        while left < right
            invariant
                w == width as int,
                h == height as int,
                width > 0,
                row < height,
                len == w * h * 4,
                len == total,
                data@.len() == len,
                row_start == pixel_start(w, 0, row as int),
                left == lo * 4,
                right == hi * 4,
                lo + hi == w - 1,
                0 <= lo <= hi + 1,
                forall|i: int|
                    0 <= i < len ==> #[trigger] data@[i] == mirror_progress(w, row as int, lo, hi, orig, i),
            decreases right + 4 - left,
        {
            proof {
                lemma_pixel_in_bounds(w, h, lo, row as int);
                lemma_pixel_in_bounds(w, h, hi, row as int);
            }
            let mut component: usize = 0;
            while component < BYTES_PER_PIXEL
                invariant
                    w == width as int,
                    h == height as int,
                    width > 0,
                    row < height,
                    len == w * h * 4,
                    len == total,
                    data@.len() == len,
                    row_start == pixel_start(w, 0, row as int),
                    left == lo * 4,
                    right == hi * 4,
                    lo + hi == w - 1,
                    0 <= lo < hi,
                    pixel_start(w, hi, row as int) + 4 <= len,
                    component <= 4,
                    forall|i: int|
                        0 <= i < len ==> #[trigger] data@[i] == if byte_row(w, i) == row
                            && (byte_column(w, i) == lo || byte_column(w, i) == hi)
                            && byte_channel(i) < component {
                            orig[mirror_source(w, i)]
                        } else {
                            mirror_progress(w, row as int, lo, hi, orig, i)
                        },
                decreases 4 - component,
            {
                let a = row_start + left + component;
                let b = row_start + right + component;
                proof {
                    lemma_pixel_position(w, lo, row as int, component as int);
                    lemma_pixel_position(w, hi, row as int, component as int);
                }
                assert(a == pixel_start(w, lo, row as int) + component);
                assert(b == pixel_start(w, hi, row as int) + component);
                let ghost prev = data@;
                let va = data[a];
                let vb = data[b];
                data[a] = vb;
                data[b] = va;
                assert forall|i: int| 0 <= i < len implies #[trigger] data@[i] == if byte_row(w, i) == row
                    && (byte_column(w, i) == lo || byte_column(w, i) == hi)
                    && byte_channel(i) < component + 1 {
                    orig[mirror_source(w, i)]
                } else {
                    mirror_progress(w, row as int, lo, hi, orig, i)
                } by {
                    lemma_byte_position(w, i);
                    if i == a {
                        assert(prev[b as int] == orig[b as int]);
                    } else if i == b {
                        assert(prev[a as int] == orig[a as int]);
                    } else {
                        assert(data@[i] == prev[i]);
                        if byte_row(w, i) == row && (byte_column(w, i) == lo || byte_column(w, i) == hi)
                            && byte_channel(i) == component {
                            assert(false);
                        }
                    }
                }
                component = component + 1;
            }
            left = left + BYTES_PER_PIXEL;
            right = right - BYTES_PER_PIXEL;
            proof {
                lo = lo + 1;
                hi = hi - 1;
            }
        }
        assert forall|i: int| 0 <= i < len implies #[trigger] data@[i] == mirror_progress(
            w,
            row + 1,
            0,
            w - 1,
            orig,
            i,
        ) by {
            lemma_byte_position(w, i);
            if byte_row(w, i) == row && lo <= byte_column(w, i) <= hi {
                assert(byte_column(w, i) == lo && lo == hi);
                assert(mirror_source(w, i) == i);
            }
        }
        row = row + 1;
    }
    assert(data@ =~= mirrored(w, orig)) by {
        assert forall|i: int| 0 <= i < len implies #[trigger] data@[i] == mirrored(w, orig)[i] by {
            lemma_row_in_bounds(w, h, i);
            lemma_byte_position(w, i);
        }
    }
}

/// Mirrors an RGBA image horizontally, in place.
///
/// `rgba_data` is `None` when no pixel buffer was handed over; `params` is
/// accepted for interface compatibility and has no effect. Returns
/// `PLUGIN_SUCCESS` after mirroring, and `PLUGIN_ERROR_NULL_POINTER` without
/// touching anything when the buffer is missing or a dimension is zero.
pub fn process_image(width: u32, height: u32, rgba_data: Option<&mut [u8]>, params: Option<&str>) -> (result: i32)
    requires
        rgba_data matches Some(d) ==> (width > 0 && height > 0 ==> d@.len() == width * height * 4),
    ensures
        rgba_data is None ==> result == PLUGIN_ERROR_NULL_POINTER,
        rgba_data matches Some(d) ==> {
            if width == 0 || height == 0 {
                &&& result == PLUGIN_ERROR_NULL_POINTER
                &&& final(d)@ == d@
            } else {
                &&& result == PLUGIN_SUCCESS
                &&& final(d)@ == mirrored(width as int, d@)
            }
        },
{
    match rgba_data {
        None => PLUGIN_ERROR_NULL_POINTER,
        Some(data) => {
            if width == 0 || height == 0 {
                return PLUGIN_ERROR_NULL_POINTER;
            }
            mirror_in_place(data, width as usize, height as usize);
            PLUGIN_SUCCESS
        },
    }
}

} // verus!
