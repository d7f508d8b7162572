//! Box blur of an RGBA image, in place.
//!
//! Every byte becomes the average (rounded down) of the same channel over a
//! `radius` by `radius` window of the original image. The window of pixel
//! `(x, y)` covers the offsets `-(radius / 2) ..= radius - 1 - radius / 2` in
//! both directions; positions outside the image are left out of the average.

use vstd::prelude::*;
use vstd::slice::slice_to_vec;
use vstd::arithmetic::div_mod::lemma_div_by_multiple;

use crate::pixels::{
    byte_channel, byte_column, byte_row, lemma_byte_position, lemma_pixel_in_bounds,
    lemma_pixel_position, lemma_row_in_bounds, pixel_start, BYTES_PER_PIXEL, DEFAULT_BLUR_RADIUS,
    MAX_BLUR_RADIUS, MIN_BLUR_RADIUS,
};
use crate::plugin_loader::{PLUGIN_ERROR_NULL_POINTER, PLUGIN_SUCCESS};
use crate::text::{
    decimal, lemma_parse_signed_decimal, parse_int_chars, parse_trimmed_int_saturating, signed_decimal,
    trimmed,
};

verus! {

/// Whether offset `(dx, dy)` of the window of pixel `(x, y)` falls inside the image.
pub open spec fn in_window(width: int, height: int, x: int, y: int, radius: int, dx: int, dy: int) -> bool {
    let half = radius / 2;
    &&& x + dx >= half
    &&& y + dy >= half
    &&& x + dx - half < width
    &&& y + dy - half < height
}

/// Contribution of offset `(dx, dy)` to the channel `c` sum of pixel `(x, y)`.
pub open spec fn window_term(
    src: Seq<u8>,
    width: int,
    height: int,
    x: int,
    y: int,
    radius: int,
    c: int,
    dx: int,
    dy: int,
) -> int {
    if in_window(width, height, x, y, radius, dx, dy) {
        src[pixel_start(width, x + dx - radius / 2, y + dy - radius / 2) + c] as int
    } else {
        0
    }
}

/// Sum of channel `c` over the offsets `(0..n, dy)` of the window of pixel `(x, y)`.
pub open spec fn row_sum(
    src: Seq<u8>,
    width: int,
    height: int,
    x: int,
    y: int,
    radius: int,
    c: int,
    dy: int,
    n: int,
) -> int
    decreases n,
{
    if n <= 0 {
        0
    } else {
        row_sum(src, width, height, x, y, radius, c, dy, n - 1) + window_term(
            src,
            width,
            height,
            x,
            y,
            radius,
            c,
            n - 1,
            dy,
        )
    }
}

/// Sum of channel `c` over the first `m` rows of the window of pixel `(x, y)`.
pub open spec fn rows_sum(
    src: Seq<u8>,
    width: int,
    height: int,
    x: int,
    y: int,
    radius: int,
    c: int,
    m: int,
) -> int
    decreases m,
{
    if m <= 0 {
        0
    } else {
        rows_sum(src, width, height, x, y, radius, c, m - 1) + row_sum(
            src,
            width,
            height,
            x,
            y,
            radius,
            c,
            m - 1,
            radius,
        )
    }
}

/// Number of the offsets `(0..n, dy)` of the window of pixel `(x, y)` inside the image.
pub open spec fn row_count(width: int, height: int, x: int, y: int, radius: int, dy: int, n: int) -> int
    decreases n,
{
    if n <= 0 {
        0
    } else {
        row_count(width, height, x, y, radius, dy, n - 1) + if in_window(
            width,
            height,
            x,
            y,
            radius,
            n - 1,
            dy,
        ) {
            1int
        } else {
            0int
        }
    }
}

/// Number of positions of the first `m` rows of the window of pixel `(x, y)` inside the image.
pub open spec fn rows_count(width: int, height: int, x: int, y: int, radius: int, m: int) -> int
    decreases m,
{
    if m <= 0 {
        0
    } else {
        rows_count(width, height, x, y, radius, m - 1) + row_count(
            width,
            height,
            x,
            y,
            radius,
            m - 1,
            radius,
        )
    }
}

/// Sum of channel `c` over the whole window of pixel `(x, y)`.
pub open spec fn window_sum(src: Seq<u8>, width: int, height: int, x: int, y: int, radius: int, c: int) -> int {
    rows_sum(src, width, height, x, y, radius, c, radius)
}

/// Number of positions of the window of pixel `(x, y)` inside the image.
pub open spec fn window_count(width: int, height: int, x: int, y: int, radius: int) -> int {
    rows_count(width, height, x, y, radius, radius)
}

/// New value of byte `i` of the image `src`: the channel average over the window.
pub open spec fn blurred_byte(src: Seq<u8>, width: int, height: int, radius: int, i: int) -> u8 {
    let x = byte_column(width, i);
    let y = byte_row(width, i);
    (window_sum(src, width, height, x, y, radius, byte_channel(i)) / window_count(
        width,
        height,
        x,
        y,
        radius,
    )) as u8
}

/// The image `src` (rows of `width` pixels, `height` rows) after a box blur of `radius`.
pub open spec fn blurred(src: Seq<u8>, width: int, height: int, radius: int) -> Seq<u8> {
    Seq::new(src.len(), |i: int| blurred_byte(src, width, height, radius, i))
}

/// The value clamped into `MIN_BLUR_RADIUS..=MAX_BLUR_RADIUS`.
pub open spec fn clamp_radius(v: int) -> int {
    if v < MIN_BLUR_RADIUS {
        MIN_BLUR_RADIUS as int
    } else if v > MAX_BLUR_RADIUS {
        MAX_BLUR_RADIUS as int
    } else {
        v
    }
}

/// Radius given by the parameter text `params`: the integer it holds once
/// surrounding whitespace is removed, clamped into
/// `MIN_BLUR_RADIUS..=MAX_BLUR_RADIUS`, or `DEFAULT_BLUR_RADIUS` when it holds
/// no integer.
pub open spec fn radius_from_params(params: Seq<char>) -> int {
    match parse_int_chars(trimmed(params)) {
        Some(n) => clamp_radius(n),
        None => DEFAULT_BLUR_RADIUS as int,
    }
}

/// The radius read from the decimal text of any integer `n` is `n` itself when
/// `n` is a valid radius, `MIN_BLUR_RADIUS` below that range and
/// `MAX_BLUR_RADIUS` above it.
pub proof fn lemma_radius_of_integer_text(n: int)
    ensures
        n < MIN_BLUR_RADIUS ==> radius_from_params(signed_decimal(n)) == MIN_BLUR_RADIUS,
        MIN_BLUR_RADIUS <= n <= MAX_BLUR_RADIUS ==> radius_from_params(signed_decimal(n)) == n,
        n > MAX_BLUR_RADIUS ==> radius_from_params(signed_decimal(n)) == MAX_BLUR_RADIUS,
{
    lemma_parse_signed_decimal(n);
}

/// Every valid radius written in decimal is read back unchanged.
pub proof fn lemma_valid_radius_text_is_kept(n: nat)
    requires
        MIN_BLUR_RADIUS <= n <= MAX_BLUR_RADIUS,
    ensures
        radius_from_params(decimal(n)) == n,
{
    lemma_radius_of_integer_text(n as int);
}

/// The centre offset of a window lies inside the image, so every window counts at least one position.
pub proof fn lemma_window_count_positive(width: int, height: int, x: int, y: int, radius: int)
    requires
        0 <= x < width,
        0 <= y < height,
        radius >= 1,
    ensures
        window_count(width, height, x, y, radius) >= 1,
{
    let half = radius / 2;
    assert(in_window(width, height, x, y, radius, half, half));
    lemma_row_count_nonneg(width, height, x, y, radius, half, radius);
    lemma_row_count_covers(width, height, x, y, radius, half, half, radius);
    lemma_rows_count_covers(width, height, x, y, radius, half, radius);
}

proof fn lemma_row_count_nonneg(width: int, height: int, x: int, y: int, radius: int, dy: int, n: int)
    ensures
        row_count(width, height, x, y, radius, dy, n) >= 0,
    decreases n,
{
    if n > 0 {
        lemma_row_count_nonneg(width, height, x, y, radius, dy, n - 1);
    }
}

proof fn lemma_rows_count_nonneg(width: int, height: int, x: int, y: int, radius: int, m: int)
    ensures
        rows_count(width, height, x, y, radius, m) >= 0,
    decreases m,
{
    if m > 0 {
        lemma_rows_count_nonneg(width, height, x, y, radius, m - 1);
        lemma_row_count_nonneg(width, height, x, y, radius, m - 1, radius);
    }
}

proof fn lemma_row_count_covers(width: int, height: int, x: int, y: int, radius: int, dx: int, dy: int, n: int)
    requires
        0 <= dx < n,
        in_window(width, height, x, y, radius, dx, dy),
    ensures
        row_count(width, height, x, y, radius, dy, n) >= 1,
    decreases n,
{
    if dx < n - 1 {
        lemma_row_count_covers(width, height, x, y, radius, dx, dy, n - 1);
    } else {
        lemma_row_count_nonneg(width, height, x, y, radius, dy, n - 1);
    }
}

proof fn lemma_rows_count_covers(width: int, height: int, x: int, y: int, radius: int, dy: int, m: int)
    requires
        0 <= dy < m,
        row_count(width, height, x, y, radius, dy, radius) >= 1,
    ensures
        rows_count(width, height, x, y, radius, m) >= 1,
    decreases m,
{
    if dy < m - 1 {
        lemma_rows_count_covers(width, height, x, y, radius, dy, m - 1);
        lemma_row_count_nonneg(width, height, x, y, radius, m - 1, radius);
    } else {
        lemma_rows_count_nonneg(width, height, x, y, radius, m - 1);
    }
}

/// Channel `c` of pixel `(x, y)` of the blurred image is the average, rounded
/// down, of channel `c` over the part of the window of `(x, y)` inside the
/// image, and that part is never empty.
pub proof fn lemma_blurred_pixel(width: int, height: int, radius: int, data: Seq<u8>, x: int, y: int, c: int)
    requires
        data.len() == width * height * 4,
        radius >= 1,
        0 <= x < width,
        0 <= y < height,
        0 <= c < 4,
    ensures
        window_count(width, height, x, y, radius) >= 1,
        blurred(data, width, height, radius)[pixel_start(width, x, y) + c] == (window_sum(
            data,
            width,
            height,
            x,
            y,
            radius,
            c,
        ) / window_count(width, height, x, y, radius)) as u8,
{
    lemma_pixel_in_bounds(width, height, x, y);
    lemma_pixel_position(width, x, y, c);
    lemma_window_count_positive(width, height, x, y, radius);
}

/// First column (or row) of the image inside the window of column (or row)
/// `x`: the window starts `radius / 2` positions before `x`.
pub open spec fn window_start(x: int, radius: int) -> int {
    if x - radius / 2 < 0 {
        0
    } else {
        x - radius / 2
    }
}

/// One past the last column (or row) of the image inside the window of column
/// (or row) `x`, in an image `size` columns (or rows) across: the window ends
/// `radius - 1 - radius / 2` positions after `x`.
pub open spec fn window_end(x: int, radius: int, size: int) -> int {
    if x + radius - radius / 2 > size {
        size
    } else {
        x + radius - radius / 2
    }
}

/// Sum of channel `c` over the pixels `(px, py)` with `x0 <= px < x1` of row `py`.
pub open spec fn span_sum(src: Seq<u8>, width: int, c: int, py: int, x0: int, x1: int) -> int
    decreases x1 - x0,
{
    if x1 <= x0 {
        0
    } else {
        span_sum(src, width, c, py, x0, x1 - 1) + src[pixel_start(width, x1 - 1, py) + c] as int
    }
}

/// Sum of channel `c` over the pixels `(px, py)` with `x0 <= px < x1` and
/// `y0 <= py < y1`.
pub open spec fn rect_sum(src: Seq<u8>, width: int, c: int, x0: int, x1: int, y0: int, y1: int) -> int
    decreases y1 - y0,
{
    if y1 <= y0 {
        0
    } else {
        rect_sum(src, width, c, x0, x1, y0, y1 - 1) + span_sum(src, width, c, y1 - 1, x0, x1)
    }
}

/// `v` moved into `0..=size`.
spec fn clamp_to(v: int, size: int) -> int {
    if v < 0 {
        0
    } else if v > size {
        size
    } else {
        v
    }
}

proof fn lemma_row_sum_span(
    src: Seq<u8>,
    width: int,
    height: int,
    x: int,
    y: int,
    radius: int,
    c: int,
    dy: int,
    n: int,
)
    requires
        0 <= x < width,
        radius >= 1,
        n >= 0,
    ensures
        row_sum(src, width, height, x, y, radius, c, dy, n) == if 0 <= y + dy - radius / 2 < height {
            span_sum(
                src,
                width,
                c,
                y + dy - radius / 2,
                clamp_to(x - radius / 2, width),
                clamp_to(x - radius / 2 + n, width),
            )
        } else {
            0
        },
        row_count(width, height, x, y, radius, dy, n) == if 0 <= y + dy - radius / 2 < height {
            clamp_to(x - radius / 2 + n, width) - clamp_to(x - radius / 2, width)
        } else {
            0
        },
    decreases n,
{
    let half = radius / 2;
    let lo = x - half;
    if n > 0 {
        lemma_row_sum_span(src, width, height, x, y, radius, c, dy, n - 1);
        let px = lo + n - 1;
        if 0 <= y + dy - half < height && 0 <= px < width {
            assert(clamp_to(lo + n, width) == px + 1);
            assert(clamp_to(lo + n - 1, width) == px);
            assert(clamp_to(lo, width) <= px);
            assert(span_sum(src, width, c, y + dy - half, clamp_to(lo, width), px + 1) == span_sum(
                src,
                width,
                c,
                y + dy - half,
                clamp_to(lo, width),
                px,
            ) + src[pixel_start(width, px, y + dy - half) + c] as int);
        }
    }
}

#[verifier::spinoff_prover]
proof fn lemma_rows_sum_rect(
    src: Seq<u8>,
    width: int,
    height: int,
    x: int,
    y: int,
    radius: int,
    c: int,
    m: int,
)
    requires
        0 <= x < width,
        0 <= y < height,
        radius >= 1,
        m >= 0,
    ensures
        rows_sum(src, width, height, x, y, radius, c, m) == rect_sum(
            src,
            width,
            c,
            clamp_to(x - radius / 2, width),
            clamp_to(x - radius / 2 + radius, width),
            clamp_to(y - radius / 2, height),
            clamp_to(y - radius / 2 + m, height),
        ),
        rows_count(width, height, x, y, radius, m) == (clamp_to(x - radius / 2 + radius, width)
            - clamp_to(x - radius / 2, width)) * (clamp_to(y - radius / 2 + m, height) - clamp_to(
            y - radius / 2,
            height,
        )),
    decreases m,
{
    let half = radius / 2;
    let x0 = clamp_to(x - half, width);
    let x1 = clamp_to(x - half + radius, width);
    let y0 = clamp_to(y - half, height);
    if m > 0 {
        lemma_rows_sum_rect(src, width, height, x, y, radius, c, m - 1);
        lemma_row_sum_span(src, width, height, x, y, radius, c, m - 1, radius);
        let py = y - half + m - 1;
        let a = x1 - x0;
        let k = clamp_to(y - half + m - 1, height) - y0;
        if 0 <= py < height {
            assert(clamp_to(y - half + m, height) == py + 1);
            assert(clamp_to(y - half + m - 1, height) == py);
            assert(y0 <= py);
            assert(row_count(width, height, x, y, radius, m - 1, radius) == a);
            assert(a * k + a == a * (k + 1)) by (nonlinear_arith);
        } else {
            assert(clamp_to(y - half + m, height) == clamp_to(y - half + m - 1, height));
            assert(row_count(width, height, x, y, radius, m - 1, radius) == 0);
        }
    } else {
        let a = x1 - x0;
        assert(clamp_to(y - half + m, height) == y0);
        assert(a * (y0 - y0) == 0) by (nonlinear_arith);
    }
}

/// The blur is a box average: channel `c` of pixel `(x, y)` of the blurred
/// image is the sum of channel `c` over every pixel `(px, py)` of the image
/// with `x - radius / 2 <= px <= x + radius - 1 - radius / 2` and
/// `y - radius / 2 <= py <= y + radius - 1 - radius / 2`, divided, rounded
/// down, by the number of those pixels; the window is the same in both
/// directions and cut only by the image's edges.
pub proof fn lemma_blur_is_box_average(width: int, height: int, radius: int, src: Seq<u8>, x: int, y: int, c: int)
    requires
        src.len() == width * height * 4,
        radius >= 1,
        0 <= x < width,
        0 <= y < height,
        0 <= c < 4,
    ensures
        window_start(x, radius) < window_end(x, radius, width),
        window_start(y, radius) < window_end(y, radius, height),
        window_count(width, height, x, y, radius) == (window_end(x, radius, width) - window_start(
            x,
            radius,
        )) * (window_end(y, radius, height) - window_start(y, radius)),
        blurred(src, width, height, radius)[pixel_start(width, x, y) + c] == (rect_sum(
            src,
            width,
            c,
            window_start(x, radius),
            window_end(x, radius, width),
            window_start(y, radius),
            window_end(y, radius, height),
        ) / ((window_end(x, radius, width) - window_start(x, radius)) * (window_end(
            y,
            radius,
            height,
        ) - window_start(y, radius)))) as u8,
{
    lemma_blurred_pixel(width, height, radius, src, x, y, c);
    lemma_rows_sum_rect(src, width, height, x, y, radius, c, radius);
    let half = radius / 2;
    assert(clamp_to(x - half, width) == window_start(x, radius));
    assert(clamp_to(x - half + radius, width) == window_end(x, radius, width));
    assert(clamp_to(y - half, height) == window_start(y, radius));
    assert(clamp_to(y - half + radius, height) == window_end(y, radius, height));
}

/// A box blur of radius 1 leaves every image unchanged.
pub proof fn lemma_blur_radius_one_keeps_image(width: int, height: int, data: Seq<u8>)
    requires
        width > 0,
        data.len() == width * height * 4,
    ensures
        blurred(data, width, height, 1) == data,
{
    assert forall|i: int| 0 <= i < data.len() implies #[trigger] blurred(data, width, height, 1)[i] == data[i] by {
        lemma_byte_position(width, i);
        lemma_row_in_bounds(width, height, i);
        let x = byte_column(width, i);
        let y = byte_row(width, i);
        let c = byte_channel(i);
        assert(in_window(width, height, x, y, 1, 0, 0));
        assert(row_count(width, height, x, y, 1, 0, 0) == 0);
        assert(row_count(width, height, x, y, 1, 0, 1) == 1);
        assert(rows_count(width, height, x, y, 1, 0) == 0);
        assert(window_count(width, height, x, y, 1) == 1);
        assert(row_sum(data, width, height, x, y, 1, c, 0, 0) == 0);
        assert(window_term(data, width, height, x, y, 1, c, 0, 0) == data[i] as int);
        assert(row_sum(data, width, height, x, y, 1, c, 0, 1) == data[i] as int);
        assert(rows_sum(data, width, height, x, y, 1, c, 0) == 0);
        assert(window_sum(data, width, height, x, y, 1, c) == data[i] as int);
    }
    assert(blurred(data, width, height, 1) =~= data);
}

/// Whether every pixel of `data` has the colour of the first pixel.
pub open spec fn is_uniform(data: Seq<u8>) -> bool {
    forall|i: int| 0 <= i < data.len() ==> #[trigger] data[i] == data[byte_channel(i)]
}

/// Whether channel `c` has the same value in every pixel of `data`.
pub open spec fn is_uniform_channel(data: Seq<u8>, c: int) -> bool {
    forall|i: int| 0 <= i < data.len() && byte_channel(i) == c ==> #[trigger] data[i] == data[c]
}

proof fn lemma_row_sum_uniform(
    src: Seq<u8>,
    width: int,
    height: int,
    x: int,
    y: int,
    radius: int,
    c: int,
    dy: int,
    n: int,
)
    requires
        width > 0,
        src.len() == width * height * 4,
        0 <= c < 4,
        is_uniform_channel(src, c),
        radius >= 1,
    ensures
        row_sum(src, width, height, x, y, radius, c, dy, n) == src[c] * row_count(
            width,
            height,
            x,
            y,
            radius,
            dy,
            n,
        ),
    decreases n,
{
    if n > 0 {
        lemma_row_sum_uniform(src, width, height, x, y, radius, c, dy, n - 1);
        let v = src[c] as int;
        let a = row_count(width, height, x, y, radius, dy, n - 1);
        if in_window(width, height, x, y, radius, n - 1, dy) {
            let px = x + (n - 1) - radius / 2;
            let py = y + dy - radius / 2;
            lemma_pixel_in_bounds(width, height, px, py);
            lemma_pixel_position(width, px, py, c);
            let k = pixel_start(width, px, py) + c;
            assert(src[k] == src[c]);
            assert(v * (a + 1) == v * a + v) by (nonlinear_arith);
        }
    }
}

proof fn lemma_rows_sum_uniform(
    src: Seq<u8>,
    width: int,
    height: int,
    x: int,
    y: int,
    radius: int,
    c: int,
    m: int,
)
    requires
        width > 0,
        src.len() == width * height * 4,
        0 <= c < 4,
        is_uniform_channel(src, c),
        radius >= 1,
    ensures
        rows_sum(src, width, height, x, y, radius, c, m) == src[c] * rows_count(
            width,
            height,
            x,
            y,
            radius,
            m,
        ),
    decreases m,
{
    if m > 0 {
        lemma_rows_sum_uniform(src, width, height, x, y, radius, c, m - 1);
        lemma_row_sum_uniform(src, width, height, x, y, radius, c, m - 1, radius);
        let v = src[c] as int;
        let a = rows_count(width, height, x, y, radius, m - 1);
        let b = row_count(width, height, x, y, radius, m - 1, radius);
        assert(v * (a + b) == v * a + v * b) by (nonlinear_arith);
    }
}

/// A box blur leaves a channel that has the same value in every pixel (such
/// as the alpha of an opaque image) unchanged.
pub proof fn lemma_blur_keeps_uniform_channel(width: int, height: int, radius: int, data: Seq<u8>, c: int)
    requires
        width > 0,
        radius >= 1,
        data.len() == width * height * 4,
        0 <= c < 4,
        is_uniform_channel(data, c),
    ensures
        forall|i: int|
            0 <= i < data.len() && byte_channel(i) == c ==> #[trigger] blurred(data, width, height, radius)[i]
                == data[i],
{
    assert forall|i: int| 0 <= i < data.len() && byte_channel(i) == c implies #[trigger] blurred(
        data,
        width,
        height,
        radius,
    )[i] == data[i] by {
        lemma_byte_position(width, i);
        lemma_row_in_bounds(width, height, i);
        let x = byte_column(width, i);
        let y = byte_row(width, i);
        lemma_rows_sum_uniform(data, width, height, x, y, radius, c, radius);
        lemma_window_count_positive(width, height, x, y, radius);
        let v = data[c] as int;
        let n = window_count(width, height, x, y, radius);
        lemma_div_by_multiple(v, n);
    }
}

/// A box blur leaves an image whose pixels all have the same colour unchanged.
pub proof fn lemma_blur_keeps_uniform_image(width: int, height: int, radius: int, data: Seq<u8>)
    requires
        width > 0,
        radius >= 1,
        data.len() == width * height * 4,
        is_uniform(data),
    ensures
        blurred(data, width, height, radius) == data,
{
    lemma_blur_keeps_uniform_channel(width, height, radius, data, 0);
    lemma_blur_keeps_uniform_channel(width, height, radius, data, 1);
    lemma_blur_keeps_uniform_channel(width, height, radius, data, 2);
    lemma_blur_keeps_uniform_channel(width, height, radius, data, 3);
    assert forall|i: int| 0 <= i < data.len() implies #[trigger] blurred(data, width, height, radius)[i]
        == data[i] by {
        lemma_byte_position(width, i);
    }
    assert(blurred(data, width, height, radius) =~= data);
}

/// Blurs every channel of a `width` by `height` image in place with a
/// `radius` by `radius` box.
fn blur_in_place(data: &mut [u8], width: usize, height: usize, radius: usize)
    requires
        width > 0,
        height > 0,
        old(data)@.len() == width * height * 4,
        MIN_BLUR_RADIUS <= radius <= MAX_BLUR_RADIUS,
    ensures
        final(data)@ == blurred(old(data)@, width as int, height as int, radius as int),
{
    let ghost w = width as int;
    let ghost h = height as int;
    let ghost r = radius as int;
    let ghost src = data@;
    let ghost len = src.len() as int;
    let ghost target = blurred(src, w, h, r);
    let total = data.len();
    proof {
        assert(w * 4 <= w * h * 4 && h * 4 <= w * h * 4) by (nonlinear_arith)
            requires w > 0, h > 0;
    }
    let original = slice_to_vec(data);
    let half = radius / 2;
    let mut y: usize = 0;
    while y < height
        invariant
            w == width as int,
            h == height as int,
            r == radius as int,
            width > 0,
            height > 0,
            MIN_BLUR_RADIUS <= radius <= MAX_BLUR_RADIUS,
            half == radius / 2,
            len == w * h * 4,
            len == total,
            w * 4 <= len,
            h * 4 <= len,
            data@.len() == len,
            original@ == src,
            src.len() == len,
            target == blurred(src, w, h, r),
            y <= height,
            forall|i: int| 0 <= i < pixel_start(w, 0, y as int) ==> #[trigger] data@[i] == target[i],
        decreases height - y,
    {
        let mut x: usize = 0;
        while x < width
            invariant
                w == width as int,
                h == height as int,
                r == radius as int,
                width > 0,
                height > 0,
                MIN_BLUR_RADIUS <= radius <= MAX_BLUR_RADIUS,
                half == radius / 2,
                len == w * h * 4,
                len == total,
                w * 4 <= len,
                h * 4 <= len,
                data@.len() == len,
                original@ == src,
                src.len() == len,
                target == blurred(src, w, h, r),
                y < height,
                x <= width,
                forall|i: int| 0 <= i < pixel_start(w, x as int, y as int) ==> #[trigger] data@[i] == target[i],
            decreases width - x,
        {
            let ghost xi = x as int;
            let ghost yi = y as int;
            let mut r_sum: u32 = 0;
            let mut g_sum: u32 = 0;
            let mut b_sum: u32 = 0;
            let mut a_sum: u32 = 0;
            let mut count: u32 = 0;
            let mut dy: usize = 0;
            while dy < radius
                invariant
                    w == width as int,
                    h == height as int,
                    r == radius as int,
                    MIN_BLUR_RADIUS <= radius <= MAX_BLUR_RADIUS,
                    half == radius / 2,
                    len == w * h * 4,
                    len == total,
                    w * 4 <= len,
                    h * 4 <= len,
                    original@ == src,
                    src.len() == len,
                    x < width,
                    y < height,
                    xi == x,
                    yi == y,
                    dy <= radius,
                    r_sum == rows_sum(src, w, h, xi, yi, r, 0, dy as int),
                    g_sum == rows_sum(src, w, h, xi, yi, r, 1, dy as int),
                    b_sum == rows_sum(src, w, h, xi, yi, r, 2, dy as int),
                    a_sum == rows_sum(src, w, h, xi, yi, r, 3, dy as int),
                    count == rows_count(w, h, xi, yi, r, dy as int),
                    count <= dy * MAX_BLUR_RADIUS,
                    r_sum <= 255 * count,
                    g_sum <= 255 * count,
                    b_sum <= 255 * count,
                    a_sum <= 255 * count,
                decreases radius - dy,
            {
                let mut dx: usize = 0;
                while dx < radius
                    invariant
                        w == width as int,
                        h == height as int,
                        r == radius as int,
                        MIN_BLUR_RADIUS <= radius <= MAX_BLUR_RADIUS,
                        half == radius / 2,
                        len == w * h * 4,
                        len == total,
                        w * 4 <= len,
                        h * 4 <= len,
                        original@ == src,
                        src.len() == len,
                        x < width,
                        y < height,
                        xi == x,
                        yi == y,
                        dy < radius,
                        dx <= radius,
                        r_sum == rows_sum(src, w, h, xi, yi, r, 0, dy as int) + row_sum(src, w, h, xi, yi, r, 0, dy as int, dx as int),
                        g_sum == rows_sum(src, w, h, xi, yi, r, 1, dy as int) + row_sum(src, w, h, xi, yi, r, 1, dy as int, dx as int),
                        b_sum == rows_sum(src, w, h, xi, yi, r, 2, dy as int) + row_sum(src, w, h, xi, yi, r, 2, dy as int, dx as int),
                        a_sum == rows_sum(src, w, h, xi, yi, r, 3, dy as int) + row_sum(src, w, h, xi, yi, r, 3, dy as int, dx as int),
                        count == rows_count(w, h, xi, yi, r, dy as int) + row_count(w, h, xi, yi, r, dy as int, dx as int),
                        count <= dy * MAX_BLUR_RADIUS + dx,
                        r_sum <= 255 * count,
                        g_sum <= 255 * count,
                        b_sum <= 255 * count,
                        a_sum <= 255 * count,
                    decreases radius - dx,
                {
                    let nx = x + dx;
                    let ny = y + dy;
                    if nx >= half && ny >= half {
                        let px = nx - half;
                        let py = ny - half;
                        if px < width && py < height {
                            proof {
                                lemma_pixel_in_bounds(w, h, px as int, py as int);
                                assert(py * width <= (py * width + px) * 4) by (nonlinear_arith);
                            }
                            let idx = (py * width + px) * BYTES_PER_PIXEL;
                            assert(idx == pixel_start(w, px as int, py as int));
                            r_sum = r_sum + original[idx] as u32;
                            g_sum = g_sum + original[idx + 1] as u32;
                            b_sum = b_sum + original[idx + 2] as u32;
                            a_sum = a_sum + original[idx + 3] as u32;
                            count = count + 1;
                        }
                    }
                    dx = dx + 1;
                }
                dy = dy + 1;
            }
            proof {
                lemma_window_count_positive(w, h, xi, yi, r);
                lemma_pixel_in_bounds(w, h, xi, yi);
                assert(y * width <= (y * width + x) * 4) by (nonlinear_arith);
            }
            let base = (y * width + x) * BYTES_PER_PIXEL;
            assert(base == pixel_start(w, xi, yi));
            let ghost before = data@;
            data[base] = (r_sum / count) as u8;
            data[base + 1] = (g_sum / count) as u8;
            data[base + 2] = (b_sum / count) as u8;
            data[base + 3] = (a_sum / count) as u8;
            assert forall|i: int| 0 <= i < pixel_start(w, xi + 1, yi) implies #[trigger] data@[i] == target[i] by {
                if i >= base {
                    let c = i - base;
                    lemma_pixel_position(w, xi, yi, c);
                    assert(i == pixel_start(w, xi, yi) + c);
                } else {
                    assert(data@[i] == before[i]);
                }
            }
            x = x + 1;
        }
        proof {
            assert(pixel_start(w, w, y as int) == pixel_start(w, 0, y + 1)) by (nonlinear_arith);
        }
        y = y + 1;
    }
    proof {
        assert(pixel_start(w, 0, h) == len) by (nonlinear_arith)
            requires len == w * h * 4;
    }
    assert(data@ =~= target);
}

/// Reads the blur radius from the parameter text: the integer it holds once
/// surrounding whitespace is removed, clamped into
/// `MIN_BLUR_RADIUS..=MAX_BLUR_RADIUS`, or `DEFAULT_BLUR_RADIUS` when it holds
/// no integer.
pub fn parse_blur_radius(params: &str) -> (radius: usize)
    ensures
        radius == radius_from_params(params@),
        MIN_BLUR_RADIUS <= radius <= MAX_BLUR_RADIUS,
{
    match parse_trimmed_int_saturating(params) {
        Some(v) => {
            if v < MIN_BLUR_RADIUS as i32 {
                MIN_BLUR_RADIUS as usize
            } else if v > MAX_BLUR_RADIUS as i32 {
                MAX_BLUR_RADIUS as usize
            } else {
                v as usize
            }
        },
        None => DEFAULT_BLUR_RADIUS as usize,
    }
}

/// The parameter text a plugin works with: empty when none was given.
pub open spec fn params_text(params: Option<&str>) -> Seq<char> {
    match params {
        Some(p) => p@,
        None => Seq::empty(),
    }
}

/// Applies a box blur to an RGBA image, in place.
///
/// `rgba_data` is `None` when no pixel buffer was handed over. The radius is
/// read from `params` by `parse_blur_radius` (no text counts as empty text).
/// Returns `PLUGIN_SUCCESS` after blurring, and `PLUGIN_ERROR_NULL_POINTER`
/// without touching anything when the buffer is missing or a dimension is zero.
pub fn process_image(width: u32, height: u32, rgba_data: Option<&mut [u8]>, params: Option<&str>) -> (result: i32)
    requires
        rgba_data matches Some(d) ==> (width > 0 && height > 0 ==> d@.len() == width * height * 4),
    ensures
        rgba_data is None ==> result == PLUGIN_ERROR_NULL_POINTER,
        rgba_data matches Some(d) ==> {
            if width == 0 || height == 0 {
                &&& result == PLUGIN_ERROR_NULL_POINTER
                &&& final(d)@ == d@
            } else {
                &&& result == PLUGIN_SUCCESS
                &&& final(d)@ == blurred(
                    d@,
                    width as int,
                    height as int,
                    radius_from_params(params_text(params)),
                )
            }
        },
{
    match rgba_data {
        None => PLUGIN_ERROR_NULL_POINTER,
        Some(data) => {
            if width == 0 || height == 0 {
                return PLUGIN_ERROR_NULL_POINTER;
            }
            let radius = match params {
                Some(p) => parse_blur_radius(p),
                None => parse_blur_radius(""),
            };
            proof {
                reveal_strlit("");
            }
            blur_in_place(data, width as usize, height as usize, radius);
            PLUGIN_SUCCESS
        },
    }
}

} // verus!
