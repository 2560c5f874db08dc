//! Redaction filters applied in place to a rectangle of a frame: a box blur
//! and a mosaic (pixelation).

use vstd::prelude::*;
use crate::arith::{lemma_avg_byte, lemma_mul_le, lemma_row_in_block};
use crate::coordinates::ImagePxRect;
use crate::frame::{byte_in_rect, lemma_byte_in_rect_iff, lemma_byte_index_distinct, lemma_offset_in_rect, Frame};

verus! {

pub open spec fn clamp_int(v: int, lo: int, hi: int) -> int {
    if v < lo { lo } else if v > hi { hi } else { v }
}

/// Sum of channel `c` over the first `n` samples of a window that starts at
/// `pos - r` and moves in steps of `step` bytes from `base`; sample positions
/// are clamped into `lo ..= hi`.
pub open spec fn window_sum(
    px: Seq<u8>,
    base: int,
    step: int,
    c: int,
    pos: int,
    lo: int,
    hi: int,
    r: int,
    n: nat,
) -> int
    decreases n,
{
    if n == 0 {
        0
    } else {
        window_sum(px, base, step, c, pos, lo, hi, r, (n - 1) as nat) + px[base + clamp_int(
            pos - r + (n - 1),
            lo,
            hi,
        ) * step + c] as int
    }
}

/// Channel `c` of pixel `(x, y)` after the horizontal pass of a box blur of
/// radius `r` restricted to `rect`.
pub open spec fn blur_h(f: &Frame, rect: ImagePxRect, r: int, x: int, y: int, c: int) -> int {
    window_sum(
        f.pixels@,
        y * f.stride,
        4,
        c,
        x,
        rect.x as int,
        rect.x + rect.width - 1,
        r,
        (2 * r + 1) as nat,
    ) / (2 * r + 1)
}

/// Sum of the horizontal-pass values over the first `n` rows of the vertical
/// window of pixel `(x, y)`.
pub open spec fn blur_v_sum(f: &Frame, rect: ImagePxRect, r: int, x: int, y: int, c: int, n: nat) -> int
    decreases n,
{
    if n == 0 {
        0
    } else {
        blur_v_sum(f, rect, r, x, y, c, (n - 1) as nat) + blur_h(
            f,
            rect,
            r,
            x,
            clamp_int(y - r + (n - 1), rect.y as int, rect.y + rect.height - 1),
            c,
        )
    }
}

/// Channel `c` of pixel `(x, y)` after a box blur of radius `r` restricted to
/// `rect`: the average over a `(2r+1)`-row window of the averages over
/// `(2r+1)`-column windows, with samples clamped to the rectangle's edges.
pub open spec fn blur_value(f: &Frame, rect: ImagePxRect, r: int, x: int, y: int, c: int) -> int {
    blur_v_sum(f, rect, r, x, y, c, (2 * r + 1) as nat) / (2 * r + 1)
}

proof fn lemma_window_sum_bound(px: Seq<u8>, base: int, step: int, c: int, pos: int, lo: int, hi: int, r: int, n: nat)
    requires
        0 <= lo <= hi,
        0 <= step,
        base + hi * step + c < px.len(),
        0 <= base,
        0 <= c,
    ensures
        0 <= window_sum(px, base, step, c, pos, lo, hi, r, n) <= 255 * n,
    decreases n,
{
    if n > 0 {
        lemma_window_sum_bound(px, base, step, c, pos, lo, hi, r, (n - 1) as nat);
    }
}

/// Sums channel `c` over the window of `2r+1` samples around `pos`.
fn window_sum_exec(
    px: &Vec<u8>,
    base: usize,
    step: usize,
    c: usize,
    pos: i64,
    lo: i64,
    hi: i64,
    r: i64,
) -> (s: u64)
    requires
        0 <= lo <= hi <= u32::MAX,
        0 <= r < 0x8000_0000,
        0 <= pos <= u32::MAX,
        c < 4,
        base + hi * step + c < px@.len(),
    ensures
        s == window_sum(px@, base as int, step as int, c as int, pos as int, lo as int, hi as int, r as int, (2 * r + 1) as nat),
{
    let n: i64 = 2 * r + 1;
    let plen = px.len();
    let mut i: i64 = 0;
    let mut sum: u64 = 0;
    while i < n
        invariant
            0 <= i <= n,
            n == 2 * r + 1,
            0 <= r < 0x8000_0000,
            0 <= lo <= hi <= u32::MAX,
            0 <= pos <= u32::MAX,
            c < 4,
            plen == px@.len(),
            base + hi * step + c < px@.len(),
            sum == window_sum(px@, base as int, step as int, c as int, pos as int, lo as int, hi as int, r as int, i as nat),
            sum <= 255 * i,
        decreases n - i,
    {
        let v: i64 = pos - r + i;
        let sample: i64 = if v < lo { lo } else if v > hi { hi } else { v };
        proof {
            lemma_mul_le(sample as int, hi as int, step as int);
        }
        let idx: usize = base + sample as usize * step + c;
        sum = sum + px[idx] as u64;
        i = i + 1;
    }
    sum
}

/// Everything but the pixel bytes stays as it was, and the buffer keeps its
/// length.
pub open spec fn same_layout(a: Frame, b: Frame) -> bool {
    &&& b.width == a.width
    &&& b.height == a.height
    &&& b.stride == a.stride
    &&& b.format == a.format
    &&& b.monitor_id == a.monitor_id
    &&& b.timestamp_ms == a.timestamp_ms
    &&& b.pixels@.len() == a.pixels@.len()
}

/// `b` is `a` with the part of `rect` inside it box-blurred with the given
/// radius (see `blur_value`); a blur of radius 0 or beyond `i32::MAX`, or of
/// a region one pixel thin, changes nothing. Bytes outside the region stay.
pub open spec fn is_blur_of(a: Frame, b: Frame, rect: ImagePxRect, radius: u32) -> bool {
    let cr = rect.spec_clamp_to(a.width, a.height);
    &&& same_layout(a, b)
    &&& (cr.width <= 1 || cr.height <= 1 || radius == 0 || radius > i32::MAX) ==> b.pixels@ == a.pixels@
    &&& !(cr.width <= 1 || cr.height <= 1 || radius == 0 || radius > i32::MAX) ==> {
        &&& forall|x: int, y: int, c: int|
            cr.x <= x < cr.x + cr.width && cr.y <= y < cr.y + cr.height && 0 <= c < 4
                ==> #[trigger] b.pixels@[a.byte_index(x, y, c)] == blur_value(&a, cr, radius as int, x, y, c)
        &&& forall|k: int|
            0 <= k < a.pixels@.len() && !byte_in_rect(a.stride as int, cr, k)
                ==> #[trigger] b.pixels@[k] == a.pixels@[k]
    }
}

/// Sum of channel `c` of column `x` over the first `n` rows of the
/// `(2r+1)`-row window around row `y`, rows clamped into the rectangle.
pub open spec fn column_window_sum(a: &Frame, cr: ImagePxRect, r: int, x: int, y: int, c: int, n: nat) -> int
    decreases n,
{
    if n == 0 {
        0
    } else {
        column_window_sum(a, cr, r, x, y, c, (n - 1) as nat)
            + a.pixels@[a.byte_index(x, clamp_int(y - r + (n - 1), cr.y as int, cr.y + cr.height - 1), c)] as int
    }
}

/// Channel `c` is the same all along row `yy` of the rectangle.
pub open spec fn row_uniform(a: &Frame, cr: ImagePxRect, yy: int, c: int) -> bool {
    forall|x1: int| cr.x <= x1 < cr.x + cr.width
        ==> #[trigger] a.pixels@[a.byte_index(x1, yy, c)] == a.pixels@[a.byte_index(cr.x as int, yy, c)]
}

proof fn lemma_uniform_row_window(a: &Frame, cr: ImagePxRect, r: int, x: int, yy: int, c: int, m: nat)
    requires
        cr.width >= 1,
        row_uniform(a, cr, yy, c),
    ensures
        window_sum(a.pixels@, yy * a.stride, 4, c, x, cr.x as int, cr.x + cr.width - 1, r, m)
            == m * a.pixels@[a.byte_index(cr.x as int, yy, c)],
    decreases m,
{
    if m > 0 {
        lemma_uniform_row_window(a, cr, r, x, yy, c, (m - 1) as nat);
        let xs = clamp_int(x - r + (m - 1), cr.x as int, cr.x + cr.width - 1);
        assert(a.pixels@[a.byte_index(xs, yy, c)] == a.pixels@[a.byte_index(cr.x as int, yy, c)]);
        assert(yy * a.stride + xs * 4 + c == a.byte_index(xs, yy, c));
        crate::arith::lemma_mul_pred(m as int, a.pixels@[a.byte_index(cr.x as int, yy, c)] as int);
    } else {
        assert(m * a.pixels@[a.byte_index(cr.x as int, yy, c)] == 0) by (nonlinear_arith) requires m == 0;
    }
}

proof fn lemma_uniform_vertical_sum(a: &Frame, cr: ImagePxRect, r: int, x: int, y: int, c: int, n: nat)
    requires
        cr.width >= 1,
        cr.height >= 1,
        r >= 0,
        cr.x <= x < cr.x + cr.width,
        forall|yy: int| cr.y <= yy < cr.y + cr.height ==> #[trigger] row_uniform(a, cr, yy, c),
    ensures
        blur_v_sum(a, cr, r, x, y, c, n) == column_window_sum(a, cr, r, x, y, c, n),
    decreases n,
{
    if n > 0 {
        lemma_uniform_vertical_sum(a, cr, r, x, y, c, (n - 1) as nat);
        let yy = clamp_int(y - r + (n - 1), cr.y as int, cr.y + cr.height - 1);
        assert(row_uniform(a, cr, yy, c));
        lemma_uniform_row_window(a, cr, r, x, yy, c, (2 * r + 1) as nat);
        let v = a.pixels@[a.byte_index(cr.x as int, yy, c)] as int;
        assert(((2 * r + 1) * v) / (2 * r + 1) == v) by (nonlinear_arith) requires r >= 0;
        assert(a.pixels@[a.byte_index(x, yy, c)] == a.pixels@[a.byte_index(cr.x as int, yy, c)]);
        assert(blur_h(a, cr, r, x, yy, c) == v);
    }
}

/// A box blur averages over rows as well as over columns: where channel `c`
/// of the blurred region is the same along each row, the blurred value of a
/// pixel is the average of that channel over the `(2r+1)` rows around it,
/// rows past the region's top or bottom counted as its edge row. So a region
/// that varies only from row to row is smoothed from row to row.
pub proof fn lemma_blur_averages_rows(a: Frame, b: Frame, rect: ImagePxRect, radius: u32, x: int, y: int, c: int)
    requires
        is_blur_of(a, b, rect, radius),
        ({
            let cr = rect.spec_clamp_to(a.width, a.height);
            &&& cr.width > 1
            &&& cr.height > 1
            &&& 0 < radius <= i32::MAX
            &&& cr.x <= x < cr.x + cr.width
            &&& cr.y <= y < cr.y + cr.height
            &&& 0 <= c < 4
            &&& forall|yy: int| cr.y <= yy < cr.y + cr.height ==> #[trigger] row_uniform(&a, cr, yy, c)
        }),
    ensures
        ({
            let cr = rect.spec_clamp_to(a.width, a.height);
            let r = radius as int;
            b.pixels@[a.byte_index(x, y, c)] == column_window_sum(&a, cr, r, x, y, c, (2 * r + 1) as nat) / (2 * r + 1)
        }),
{
    let cr = rect.spec_clamp_to(a.width, a.height);
    lemma_uniform_vertical_sum(&a, cr, radius as int, x, y, c, (2 * radius + 1) as nat);
}

/// Sum of channel `c` of row `y` over the first `n` columns of the
/// `(2r+1)`-column window around column `x`, columns clamped into the
/// rectangle.
pub open spec fn row_window_sum(a: &Frame, cr: ImagePxRect, r: int, x: int, y: int, c: int, n: nat) -> int
    decreases n,
{
    if n == 0 {
        0
    } else {
        row_window_sum(a, cr, r, x, y, c, (n - 1) as nat)
            + a.pixels@[a.byte_index(clamp_int(x - r + (n - 1), cr.x as int, cr.x + cr.width - 1), y, c)] as int
    }
}

/// Channel `c` is the same all down column `xx` of the rectangle.
pub open spec fn column_uniform(a: &Frame, cr: ImagePxRect, xx: int, c: int) -> bool {
    forall|y1: int| cr.y <= y1 < cr.y + cr.height
        ==> #[trigger] a.pixels@[a.byte_index(xx, y1, c)] == a.pixels@[a.byte_index(xx, cr.y as int, c)]
}

proof fn lemma_row_window_matches(a: &Frame, cr: ImagePxRect, r: int, x: int, y: int, yy: int, c: int, m: nat)
    requires
        cr.width >= 1,
        cr.y <= y < cr.y + cr.height,
        cr.y <= yy < cr.y + cr.height,
        forall|xx: int| cr.x <= xx < cr.x + cr.width ==> #[trigger] column_uniform(a, cr, xx, c),
    ensures
        window_sum(a.pixels@, yy * a.stride, 4, c, x, cr.x as int, cr.x + cr.width - 1, r, m)
            == row_window_sum(a, cr, r, x, y, c, m),
    decreases m,
{
    if m > 0 {
        lemma_row_window_matches(a, cr, r, x, y, yy, c, (m - 1) as nat);
        let xs = clamp_int(x - r + (m - 1), cr.x as int, cr.x + cr.width - 1);
        assert(column_uniform(a, cr, xs, c));
        assert(a.pixels@[a.byte_index(xs, yy, c)] == a.pixels@[a.byte_index(xs, y, c)]);
        assert(yy * a.stride + xs * 4 + c == a.byte_index(xs, yy, c));
    }
}

proof fn lemma_uniform_columns_vertical_sum(a: &Frame, cr: ImagePxRect, r: int, x: int, y: int, c: int, n: nat)
    requires
        cr.width >= 1,
        cr.height >= 1,
        r >= 0,
        cr.y <= y < cr.y + cr.height,
        forall|xx: int| cr.x <= xx < cr.x + cr.width ==> #[trigger] column_uniform(a, cr, xx, c),
    ensures
        blur_v_sum(a, cr, r, x, y, c, n) == n * (row_window_sum(a, cr, r, x, y, c, (2 * r + 1) as nat) / (2 * r + 1)),
    decreases n,
{
    let h = row_window_sum(a, cr, r, x, y, c, (2 * r + 1) as nat) / (2 * r + 1);
    if n > 0 {
        lemma_uniform_columns_vertical_sum(a, cr, r, x, y, c, (n - 1) as nat);
        let yy = clamp_int(y - r + (n - 1), cr.y as int, cr.y + cr.height - 1);
        lemma_row_window_matches(a, cr, r, x, y, yy, c, (2 * r + 1) as nat);
        assert(blur_h(a, cr, r, x, yy, c) == h);
        crate::arith::lemma_mul_pred(n as int, h);
    } else {
        assert(n * h == 0) by (nonlinear_arith) requires n == 0;
    }
}

/// A box blur averages over columns as well as over rows: where channel `c`
/// of the blurred region is the same down each column, the blurred value of
/// a pixel is the average of that channel over the `(2r+1)` columns around
/// it, columns past the region's sides counted as its edge column. So a
/// region that varies only from column to column is smoothed along its rows.
pub proof fn lemma_blur_averages_columns(a: Frame, b: Frame, rect: ImagePxRect, radius: u32, x: int, y: int, c: int)
    requires
        is_blur_of(a, b, rect, radius),
        ({
            let cr = rect.spec_clamp_to(a.width, a.height);
            &&& cr.width > 1
            &&& cr.height > 1
            &&& 0 < radius <= i32::MAX
            &&& cr.x <= x < cr.x + cr.width
            &&& cr.y <= y < cr.y + cr.height
            &&& 0 <= c < 4
            &&& forall|xx: int| cr.x <= xx < cr.x + cr.width ==> #[trigger] column_uniform(&a, cr, xx, c)
        }),
    ensures
        ({
            let cr = rect.spec_clamp_to(a.width, a.height);
            let r = radius as int;
            b.pixels@[a.byte_index(x, y, c)] == row_window_sum(&a, cr, r, x, y, c, (2 * r + 1) as nat) / (2 * r + 1)
        }),
{
    let cr = rect.spec_clamp_to(a.width, a.height);
    let r = radius as int;
    lemma_uniform_columns_vertical_sum(&a, cr, r, x, y, c, (2 * r + 1) as nat);
    let h = row_window_sum(&a, cr, r, x, y, c, (2 * r + 1) as nat) / (2 * r + 1);
    assert(((2 * r + 1) * h) / (2 * r + 1) == h) by (nonlinear_arith) requires r >= 0;
}

/// `b` is `a` with the part of `rect` inside it pixelated in blocks of the
/// given size (see `mosaic_value`); block size 0 or an empty region changes
/// nothing. Bytes outside the region stay.
pub open spec fn is_mosaic_of(a: Frame, b: Frame, rect: ImagePxRect, block_size: u32) -> bool {
    let cr = rect.spec_clamp_to(a.width, a.height);
    &&& same_layout(a, b)
    &&& (cr.width == 0 || cr.height == 0 || block_size == 0) ==> b.pixels@ == a.pixels@
    &&& !(cr.width == 0 || cr.height == 0 || block_size == 0) ==> {
        &&& forall|x: int, y: int, c: int|
            cr.x <= x < cr.x + cr.width && cr.y <= y < cr.y + cr.height && 0 <= c < 4
                ==> #[trigger] b.pixels@[a.byte_index(x, y, c)] == mosaic_value(&a, cr, block_size as int, x, y, c)
        &&& forall|k: int|
            0 <= k < a.pixels@.len() && !byte_in_rect(a.stride as int, cr, k)
                ==> #[trigger] b.pixels@[k] == a.pixels@[k]
    }
}

/// Blurs the part of the frame inside `rect` (cut down to the frame) with a
/// box filter of the given radius: a horizontal pass, then a vertical pass
/// over its result, samples clamped to the rectangle's edges. Nothing changes
/// when the rectangle is at most one pixel wide or high, when the radius is 0,
/// or when the radius does not fit in an `i32`.
pub fn apply_box_blur(frame: &mut Frame, rect: ImagePxRect, radius: u32)
    requires
        old(frame).wf(),
    ensures
        is_blur_of(*old(frame), *final(frame), rect, radius),
{
    let clamped = rect.clamp_to(frame.width, frame.height);
    if clamped.width <= 1 || clamped.height <= 1 || radius == 0 || radius > 0x7fff_ffff {
        return;
    }
    let ghost f0 = *frame;
    let r: i64 = radius as i64;
    let n: u64 = 2 * radius as u64 + 1;
    let stride = frame.stride as usize;
    let plen = frame.pixels.len();
    let x0 = clamped.x;
    let y0 = clamped.y;
    let x1 = clamped.x + clamped.width;
    let y1 = clamped.y + clamped.height;
    let mut temp = frame.pixels.clone();
    assert(temp@ == f0.pixels@);

    // Horizontal pass: frame -> temp.
    let mut y = y0;
    while y < y1
        invariant
            f0.wf(),
            *frame == f0,
            clamped == rect.spec_clamp_to(f0.width, f0.height),
            x0 == clamped.x, y0 == clamped.y,
            x1 == clamped.x + clamped.width, y1 == clamped.y + clamped.height,
            x1 <= f0.width, y1 <= f0.height,
            clamped.width > 1, clamped.height > 1,
            0 < r < 0x8000_0000, r == radius, n == 2 * r + 1,
            stride == f0.stride, plen == f0.pixels@.len(),
            y0 <= y <= y1,
            temp@.len() == plen,
            forall|xx: int, yy: int, c: int|
                x0 <= xx < x1 && y0 <= yy < y && 0 <= c < 4
                    ==> #[trigger] temp@[f0.byte_index(xx, yy, c)] == blur_h(&f0, clamped, r as int, xx, yy, c),
            forall|k: int|
                0 <= k < plen && !byte_in_rect(stride as int, clamped, k)
                    ==> #[trigger] temp@[k] == f0.pixels@[k],
        decreases y1 - y,
    {
        proof {
            lemma_row_in_block(y as int, f0.height as int, f0.stride as int);
        }
        let row: usize = y as usize * stride;
        let mut x = x0;
        while x < x1
            invariant
                f0.wf(),
                *frame == f0,
                clamped == rect.spec_clamp_to(f0.width, f0.height),
                x0 == clamped.x, y0 == clamped.y,
                x1 == clamped.x + clamped.width, y1 == clamped.y + clamped.height,
                x1 <= f0.width, y1 <= f0.height,
                clamped.width > 1, clamped.height > 1,
                0 < r < 0x8000_0000, r == radius, n == 2 * r + 1,
                stride == f0.stride, plen == f0.pixels@.len(),
                y0 <= y < y1,
                row == y * f0.stride,
                row + f0.stride <= plen,
                x0 <= x <= x1,
                temp@.len() == plen,
                forall|xx: int, yy: int, c: int|
                    x0 <= xx < x1 && y0 <= yy < y && 0 <= c < 4
                        ==> #[trigger] temp@[f0.byte_index(xx, yy, c)] == blur_h(&f0, clamped, r as int, xx, yy, c),
                forall|xx: int, c: int|
                    x0 <= xx < x && 0 <= c < 4
                        ==> #[trigger] temp@[f0.byte_index(xx, y as int, c)] == blur_h(&f0, clamped, r as int, xx, y as int, c),
                forall|k: int|
                    0 <= k < plen && !byte_in_rect(stride as int, clamped, k)
                        ==> #[trigger] temp@[k] == f0.pixels@[k],
            decreases x1 - x,
        {
            let o: usize = row + x as usize * 4;
            let mut c: usize = 0;
            while c < 4
                invariant
                    f0.wf(),
                    *frame == f0,
                    clamped == rect.spec_clamp_to(f0.width, f0.height),
                    x0 == clamped.x, y0 == clamped.y,
                    x1 == clamped.x + clamped.width, y1 == clamped.y + clamped.height,
                    x1 <= f0.width, y1 <= f0.height,
                    clamped.width > 1, clamped.height > 1,
                    0 < r < 0x8000_0000, r == radius, n == 2 * r + 1,
                    stride == f0.stride, plen == f0.pixels@.len(),
                    y0 <= y < y1,
                    row == y * f0.stride,
                    row + f0.stride <= plen,
                    x0 <= x < x1,
                    o == f0.offset(x as int, y as int),
                    c <= 4,
                    temp@.len() == plen,
                    forall|xx: int, yy: int, cc: int|
                        x0 <= xx < x1 && y0 <= yy < y && 0 <= cc < 4
                            ==> #[trigger] temp@[f0.byte_index(xx, yy, cc)] == blur_h(&f0, clamped, r as int, xx, yy, cc),
                    forall|xx: int, cc: int|
                        x0 <= xx < x && 0 <= cc < 4
                            ==> #[trigger] temp@[f0.byte_index(xx, y as int, cc)] == blur_h(&f0, clamped, r as int, xx, y as int, cc),
                    forall|cc: int|
                        0 <= cc < c ==> #[trigger] temp@[f0.byte_index(x as int, y as int, cc)] == blur_h(&f0, clamped, r as int, x as int, y as int, cc),
                    forall|k: int|
                        0 <= k < plen && !byte_in_rect(stride as int, clamped, k)
                            ==> #[trigger] temp@[k] == f0.pixels@[k],
                decreases 4 - c,
            {
                let s = window_sum_exec(&frame.pixels, row, 4, c, x as i64, x0 as i64, (x1 - 1) as i64, r);
                proof {
                    lemma_window_sum_bound(f0.pixels@, row as int, 4, c as int, x as int, x0 as int, x1 - 1, r as int, (2 * r + 1) as nat);
                    lemma_offset_in_rect(stride as int, clamped, x as int, y as int, c as int);
                    lemma_avg_byte(s as int, n as int);
                    lemma_byte_index_distinct(&f0, x as int, y as int, c as int);
                }
                let v: u8 = (s / n) as u8;
                let ghost prev = temp@;
                temp.set(o + c, v);
                proof {
                    assert forall|xx: int, yy: int, cc: int|
                        x0 <= xx < x1 && y0 <= yy < y && 0 <= cc < 4
                            implies #[trigger] temp@[f0.byte_index(xx, yy, cc)] == blur_h(&f0, clamped, r as int, xx, yy, cc) by {
                        lemma_row_in_block(yy, f0.height as int, f0.stride as int);
                        assert(f0.byte_index(xx, yy, cc) != f0.byte_index(x as int, y as int, c as int));
                        assert(prev[f0.byte_index(xx, yy, cc)] == blur_h(&f0, clamped, r as int, xx, yy, cc));
                    }
                }
                c = c + 1;
            }
            x = x + 1;
        }
        y = y + 1;
    }

    // Vertical pass: temp -> frame.
    let mut x = x0;
    while x < x1
        invariant
            f0.wf(),
            frame.width == f0.width, frame.height == f0.height, frame.stride == f0.stride,
            frame.format == f0.format, frame.monitor_id == f0.monitor_id,
            frame.timestamp_ms == f0.timestamp_ms,
            frame.pixels@.len() == plen,
            clamped == rect.spec_clamp_to(f0.width, f0.height),
            x0 == clamped.x, y0 == clamped.y,
            x1 == clamped.x + clamped.width, y1 == clamped.y + clamped.height,
            x1 <= f0.width, y1 <= f0.height,
            clamped.width > 1, clamped.height > 1,
            0 < r < 0x8000_0000, r == radius, n == 2 * r + 1,
            stride == f0.stride, plen == f0.pixels@.len(),
            x0 <= x <= x1,
            temp@.len() == plen,
            forall|xx: int, yy: int, c: int|
                x0 <= xx < x1 && y0 <= yy < y1 && 0 <= c < 4
                    ==> #[trigger] temp@[f0.byte_index(xx, yy, c)] == blur_h(&f0, clamped, r as int, xx, yy, c),
            forall|xx: int, yy: int, c: int|
                x0 <= xx < x && y0 <= yy < y1 && 0 <= c < 4
                    ==> #[trigger] frame.pixels@[f0.byte_index(xx, yy, c)] == blur_value(&f0, clamped, r as int, xx, yy, c),
            forall|k: int|
                0 <= k < plen && !byte_in_rect(stride as int, clamped, k)
                    ==> #[trigger] frame.pixels@[k] == f0.pixels@[k],
        decreases x1 - x,
    {
        let mut y = y0;
        while y < y1
            invariant
                f0.wf(),
                frame.width == f0.width, frame.height == f0.height, frame.stride == f0.stride,
                frame.format == f0.format, frame.monitor_id == f0.monitor_id,
                frame.timestamp_ms == f0.timestamp_ms,
                frame.pixels@.len() == plen,
                clamped == rect.spec_clamp_to(f0.width, f0.height),
                x0 == clamped.x, y0 == clamped.y,
                x1 == clamped.x + clamped.width, y1 == clamped.y + clamped.height,
                x1 <= f0.width, y1 <= f0.height,
                clamped.width > 1, clamped.height > 1,
                0 < r < 0x8000_0000, r == radius, n == 2 * r + 1,
                stride == f0.stride, plen == f0.pixels@.len(),
                x0 <= x < x1,
                y0 <= y <= y1,
                temp@.len() == plen,
                forall|xx: int, yy: int, c: int|
                    x0 <= xx < x1 && y0 <= yy < y1 && 0 <= c < 4
                        ==> #[trigger] temp@[f0.byte_index(xx, yy, c)] == blur_h(&f0, clamped, r as int, xx, yy, c),
                forall|xx: int, yy: int, c: int|
                    x0 <= xx < x && y0 <= yy < y1 && 0 <= c < 4
                        ==> #[trigger] frame.pixels@[f0.byte_index(xx, yy, c)] == blur_value(&f0, clamped, r as int, xx, yy, c),
                forall|yy: int, c: int|
                    y0 <= yy < y && 0 <= c < 4
                        ==> #[trigger] frame.pixels@[f0.byte_index(x as int, yy, c)] == blur_value(&f0, clamped, r as int, x as int, yy, c),
                forall|k: int|
                    0 <= k < plen && !byte_in_rect(stride as int, clamped, k)
                        ==> #[trigger] frame.pixels@[k] == f0.pixels@[k],
            decreases y1 - y,
        {
            proof {
                lemma_row_in_block(y as int, f0.height as int, f0.stride as int);
                lemma_row_in_block((y1 - 1) as int, f0.height as int, f0.stride as int);
            }
            let o: usize = y as usize * stride + x as usize * 4;
            let mut c: usize = 0;
            while c < 4
                invariant
                    f0.wf(),
                    frame.width == f0.width, frame.height == f0.height, frame.stride == f0.stride,
                    frame.format == f0.format, frame.monitor_id == f0.monitor_id,
                    frame.timestamp_ms == f0.timestamp_ms,
                    frame.pixels@.len() == plen,
                    clamped == rect.spec_clamp_to(f0.width, f0.height),
                    x0 == clamped.x, y0 == clamped.y,
                    x1 == clamped.x + clamped.width, y1 == clamped.y + clamped.height,
                    x1 <= f0.width, y1 <= f0.height,
                    clamped.width > 1, clamped.height > 1,
                    0 < r < 0x8000_0000, r == radius, n == 2 * r + 1,
                    stride == f0.stride, plen == f0.pixels@.len(),
                    x0 <= x < x1,
                    y0 <= y < y1,
                    o == f0.offset(x as int, y as int),
                    (y1 - 1) * f0.stride + f0.stride <= plen,
                    y * f0.stride + f0.stride <= plen,
                    c <= 4,
                    temp@.len() == plen,
                    forall|xx: int, yy: int, cc: int|
                        x0 <= xx < x1 && y0 <= yy < y1 && 0 <= cc < 4
                            ==> #[trigger] temp@[f0.byte_index(xx, yy, cc)] == blur_h(&f0, clamped, r as int, xx, yy, cc),
                    forall|xx: int, yy: int, cc: int|
                        x0 <= xx < x && y0 <= yy < y1 && 0 <= cc < 4
                            ==> #[trigger] frame.pixels@[f0.byte_index(xx, yy, cc)] == blur_value(&f0, clamped, r as int, xx, yy, cc),
                    forall|yy: int, cc: int|
                        y0 <= yy < y && 0 <= cc < 4
                            ==> #[trigger] frame.pixels@[f0.byte_index(x as int, yy, cc)] == blur_value(&f0, clamped, r as int, x as int, yy, cc),
                    forall|cc: int|
                        0 <= cc < c ==> #[trigger] frame.pixels@[f0.byte_index(x as int, y as int, cc)] == blur_value(&f0, clamped, r as int, x as int, y as int, cc),
                    forall|k: int|
                        0 <= k < plen && !byte_in_rect(stride as int, clamped, k)
                            ==> #[trigger] frame.pixels@[k] == f0.pixels@[k],
                decreases 4 - c,
            {
                let s = window_sum_exec(&temp, x as usize * 4, stride, c, y as i64, y0 as i64, (y1 - 1) as i64, r);
                proof {
                    lemma_window_sum_bound(temp@, x as int * 4, stride as int, c as int, y as int, y0 as int, y1 - 1, r as int, (2 * r + 1) as nat);
                    lemma_vertical_window(&f0, temp@, clamped, r as int, x as int, y as int, c as int, (2 * r + 1) as nat);
                    lemma_offset_in_rect(stride as int, clamped, x as int, y as int, c as int);
                    lemma_avg_byte(s as int, n as int);
                    lemma_byte_index_distinct(&f0, x as int, y as int, c as int);
                }
                let v: u8 = (s / n) as u8;
                let ghost prev = frame.pixels@;
                frame.pixels.set(o + c, v);
                proof {
                    assert forall|xx: int, yy: int, cc: int|
                        x0 <= xx < x && y0 <= yy < y1 && 0 <= cc < 4
                            implies #[trigger] frame.pixels@[f0.byte_index(xx, yy, cc)] == blur_value(&f0, clamped, r as int, xx, yy, cc) by {
                        lemma_row_in_block(yy, f0.height as int, f0.stride as int);
                        assert(f0.byte_index(xx, yy, cc) != f0.byte_index(x as int, y as int, c as int));
                        assert(prev[f0.byte_index(xx, yy, cc)] == blur_value(&f0, clamped, r as int, xx, yy, cc));
                    }
                    assert forall|yy: int, cc: int|
                        y0 <= yy < y && 0 <= cc < 4
                            implies #[trigger] frame.pixels@[f0.byte_index(x as int, yy, cc)] == blur_value(&f0, clamped, r as int, x as int, yy, cc) by {
                        lemma_row_in_block(yy, f0.height as int, f0.stride as int);
                        assert(f0.byte_index(x as int, yy, cc) != f0.byte_index(x as int, y as int, c as int));
                        assert(prev[f0.byte_index(x as int, yy, cc)] == blur_value(&f0, clamped, r as int, x as int, yy, cc));
                    }
                }
                c = c + 1;
            }
            y = y + 1;
        }
        x = x + 1;
    }
}

/// The vertical window over the intermediate buffer sums the horizontal-pass
/// values.
proof fn lemma_vertical_window(f: &Frame, temp: Seq<u8>, rect: ImagePxRect, r: int, x: int, y: int, c: int, n: nat)
    requires
        rect.x <= x < rect.x + rect.width,
        rect.height >= 1,
        0 <= c < 4,
        forall|xx: int, yy: int, cc: int|
            rect.x <= xx < rect.x + rect.width && rect.y <= yy < rect.y + rect.height && 0 <= cc < 4
                ==> #[trigger] temp[f.byte_index(xx, yy, cc)] == blur_h(f, rect, r, xx, yy, cc),
    ensures
        window_sum(temp, x * 4, f.stride as int, c, y, rect.y as int, rect.y + rect.height - 1, r, n)
            == blur_v_sum(f, rect, r, x, y, c, n),
    decreases n,
{
    if n > 0 {
        lemma_vertical_window(f, temp, rect, r, x, y, c, (n - 1) as nat);
        let yy = clamp_int(y - r + (n - 1), rect.y as int, rect.y + rect.height - 1);
        assert(x * 4 + yy * f.stride + c == f.byte_index(x, yy, c));
        assert(temp[f.byte_index(x, yy, c)] == blur_h(f, rect, r, x, yy, c));
    }
}

/// Sum of channel `c` over `n` pixels of row `y` starting at column `x0`.
pub open spec fn row_sum(px: Seq<u8>, stride: int, c: int, x0: int, y: int, n: nat) -> int
    decreases n,
{
    if n == 0 {
        0
    } else {
        row_sum(px, stride, c, x0, y, (n - 1) as nat) + px[y * stride + (x0 + n - 1) * 4 + c] as int
    }
}

/// Sum of channel `c` over the `w` by `h` block whose top-left pixel is
/// `(x0, y0)`.
pub open spec fn block_sum(px: Seq<u8>, stride: int, c: int, x0: int, y0: int, w: nat, h: nat) -> int
    decreases h,
{
    if h == 0 {
        0
    } else {
        block_sum(px, stride, c, x0, y0, w, (h - 1) as nat) + row_sum(px, stride, c, x0, y0 + h - 1, w)
    }
}

/// First coordinate of the mosaic cell that holds `v`, for cells of size `b`
/// laid out from `lo`.
pub open spec fn cell_start(lo: int, b: int, v: int) -> int {
    lo + ((v - lo) / b) * b
}

/// Extent of the mosaic cell that holds `v`: `b`, or less where the cell is
/// cut off at `hi`.
pub open spec fn cell_len(lo: int, b: int, v: int, hi: int) -> int {
    let s = cell_start(lo, b, v);
    if b <= hi - s { b } else { hi - s }
}

/// Channel `c` of pixel `(x, y)` after pixelating `rect` with cells of size
/// `b`: the average of the channel over the pixel's cell, rounded down.
pub open spec fn mosaic_value(f: &Frame, rect: ImagePxRect, b: int, x: int, y: int, c: int) -> int {
    let bx = cell_start(rect.x as int, b, x);
    let by = cell_start(rect.y as int, b, y);
    let bw = cell_len(rect.x as int, b, x, rect.x + rect.width);
    let bh = cell_len(rect.y as int, b, y, rect.y + rect.height);
    block_sum(f.pixels@, f.stride as int, c, bx, by, bw as nat, bh as nat) / (bw * bh)
}

proof fn lemma_row_sum_bound(px: Seq<u8>, stride: int, c: int, x0: int, y: int, n: nat)
    ensures
        0 <= row_sum(px, stride, c, x0, y, n) <= 255 * n,
    decreases n,
{
    if n > 0 {
        lemma_row_sum_bound(px, stride, c, x0, y, (n - 1) as nat);
    }
}

proof fn lemma_block_sum_bound(px: Seq<u8>, stride: int, c: int, x0: int, y0: int, w: nat, h: nat)
    ensures
        0 <= block_sum(px, stride, c, x0, y0, w, h) <= 255 * (w * h),
    decreases h,
{
    if h > 0 {
        lemma_block_sum_bound(px, stride, c, x0, y0, w, (h - 1) as nat);
        lemma_row_sum_bound(px, stride, c, x0, y0 + h - 1, w);
        crate::arith::lemma_mul_pred(h as int, w as int);
        assert(w * h == w * (h - 1) + w) by (nonlinear_arith);
    } else {
        assert(w * h == 0) by (nonlinear_arith) requires h == 0;
    }
}

proof fn lemma_row_sum_eq(a: Seq<u8>, b: Seq<u8>, stride: int, c: int, x0: int, y: int, n: nat)
    requires
        forall|i: int| 0 <= i < n ==> #[trigger] a[y * stride + (x0 + i) * 4 + c] == b[y * stride + (x0 + i) * 4 + c],
    ensures
        row_sum(a, stride, c, x0, y, n) == row_sum(b, stride, c, x0, y, n),
    decreases n,
{
    if n > 0 {
        lemma_row_sum_eq(a, b, stride, c, x0, y, (n - 1) as nat);
        assert(a[y * stride + (x0 + (n - 1)) * 4 + c] == b[y * stride + (x0 + (n - 1)) * 4 + c]);
    }
}

proof fn lemma_block_sum_eq(a: Seq<u8>, b: Seq<u8>, stride: int, c: int, x0: int, y0: int, w: nat, h: nat)
    requires
        forall|i: int, j: int| 0 <= i < w && 0 <= j < h ==> #[trigger] a[(y0 + j) * stride + (x0 + i) * 4 + c] == b[(y0 + j) * stride + (x0 + i) * 4 + c],
    ensures
        block_sum(a, stride, c, x0, y0, w, h) == block_sum(b, stride, c, x0, y0, w, h),
    decreases h,
{
    if h > 0 {
        lemma_block_sum_eq(a, b, stride, c, x0, y0, w, (h - 1) as nat);
        let y = y0 + h - 1;
        assert forall|i: int| 0 <= i < w implies #[trigger] a[y * stride + (x0 + i) * 4 + c] == b[y * stride + (x0 + i) * 4 + c] by {
            assert(a[(y0 + (h - 1)) * stride + (x0 + i) * 4 + c] == b[(y0 + (h - 1)) * stride + (x0 + i) * 4 + c]);
        }
        lemma_row_sum_eq(a, b, stride, c, x0, y, w);
    }
}

/// Sums channel `c` over a block of a well-formed frame.
fn block_sum_exec(f: &Frame, c: usize, x0: u32, y0: u32, w: u32, h: u32) -> (s: u128)
    requires
        f.wf(),
        c < 4,
        x0 + w <= f.width,
        y0 + h <= f.height,
    ensures
        s == block_sum(f.pixels@, f.stride as int, c as int, x0 as int, y0 as int, w as nat, h as nat),
        s <= 255 * (w * h),
{
    let stride = f.stride as usize;
    let plen = f.pixels.len();
    let mut s: u128 = 0;
    let mut j: u32 = 0;
    while j < h
        invariant
            f.wf(),
            c < 4,
            x0 + w <= f.width,
            y0 + h <= f.height,
            stride == f.stride,
            plen == f.pixels@.len(),
            j <= h,
            s == block_sum(f.pixels@, f.stride as int, c as int, x0 as int, y0 as int, w as nat, j as nat),
        decreases h - j,
    {
        proof {
            lemma_block_sum_bound(f.pixels@, f.stride as int, c as int, x0 as int, y0 as int, w as nat, j as nat);
            crate::arith::lemma_mul_le(j as int, h as int, w as int);
            crate::arith::lemma_mul_u32_bound(w as int, h as int);
            assert(w * j <= w * h) by (nonlinear_arith) requires j <= h, w >= 0;
            lemma_row_in_block((y0 + j) as int, f.height as int, f.stride as int);
        }
        let y = y0 + j;
        let row: usize = y as usize * stride;
        let mut rs: u128 = 0;
        let mut i: u32 = 0;
        while i < w
            invariant
                f.wf(),
                c < 4,
                x0 + w <= f.width,
                stride == f.stride,
                plen == f.pixels@.len(),
                row == y * f.stride,
                row + f.stride <= plen,
                i <= w,
                rs == row_sum(f.pixels@, f.stride as int, c as int, x0 as int, y as int, i as nat),
                rs <= 255 * i,
            decreases w - i,
        {
            rs = rs + f.pixels[row + (x0 + i) as usize * 4 + c] as u128;
            i = i + 1;
        }
        s = s + rs;
        j = j + 1;
    }
    proof {
        lemma_block_sum_bound(f.pixels@, f.stride as int, c as int, x0 as int, y0 as int, w as nat, h as nat);
    }
    s
}

/// Sets every pixel of `blk` to `vals`, leaving every other byte alone.
fn fill_block(frame: &mut Frame, blk: ImagePxRect, vals: [u8; 4])
    requires
        old(frame).wf(),
        blk.x + blk.width <= old(frame).width,
        blk.y + blk.height <= old(frame).height,
    ensures
        final(frame).width == old(frame).width,
        final(frame).height == old(frame).height,
        final(frame).stride == old(frame).stride,
        final(frame).format == old(frame).format,
        final(frame).monitor_id == old(frame).monitor_id,
        final(frame).timestamp_ms == old(frame).timestamp_ms,
        final(frame).pixels@.len() == old(frame).pixels@.len(),
        forall|x: int, y: int, c: int|
            blk.x <= x < blk.x + blk.width && blk.y <= y < blk.y + blk.height && 0 <= c < 4
                ==> #[trigger] final(frame).pixels@[old(frame).byte_index(x, y, c)] == vals[c],
        forall|k: int|
            0 <= k < old(frame).pixels@.len() && !byte_in_rect(old(frame).stride as int, blk, k)
                ==> #[trigger] final(frame).pixels@[k] == old(frame).pixels@[k],
{
    let ghost f0 = *frame;
    let stride = frame.stride as usize;
    let plen = frame.pixels.len();
    let mut y = blk.y;
    while y < blk.y + blk.height
        invariant
            f0.wf(),
            blk.x + blk.width <= f0.width,
            blk.y + blk.height <= f0.height,
            frame.width == f0.width, frame.height == f0.height, frame.stride == f0.stride,
            frame.format == f0.format, frame.monitor_id == f0.monitor_id,
            frame.timestamp_ms == f0.timestamp_ms,
            frame.pixels@.len() == plen,
            stride == f0.stride, plen == f0.pixels@.len(),
            blk.y <= y <= blk.y + blk.height,
            forall|xx: int, yy: int, cc: int|
                blk.x <= xx < blk.x + blk.width && blk.y <= yy < y && 0 <= cc < 4
                    ==> #[trigger] frame.pixels@[f0.byte_index(xx, yy, cc)] == vals[cc],
            forall|k: int|
                0 <= k < plen && !byte_in_rect(stride as int, blk, k)
                    ==> #[trigger] frame.pixels@[k] == f0.pixels@[k],
        decreases blk.y + blk.height - y,
    {
        proof {
            lemma_row_in_block(y as int, f0.height as int, f0.stride as int);
        }
        let mut x = blk.x;
        while x < blk.x + blk.width
            invariant
                f0.wf(),
                blk.x + blk.width <= f0.width,
                blk.y + blk.height <= f0.height,
                frame.width == f0.width, frame.height == f0.height, frame.stride == f0.stride,
                frame.format == f0.format, frame.monitor_id == f0.monitor_id,
                frame.timestamp_ms == f0.timestamp_ms,
                frame.pixels@.len() == plen,
                stride == f0.stride, plen == f0.pixels@.len(),
                blk.y <= y < blk.y + blk.height,
                y * f0.stride + f0.stride <= plen,
                blk.x <= x <= blk.x + blk.width,
                forall|xx: int, yy: int, cc: int|
                    blk.x <= xx < blk.x + blk.width && blk.y <= yy < y && 0 <= cc < 4
                        ==> #[trigger] frame.pixels@[f0.byte_index(xx, yy, cc)] == vals[cc],
                forall|xx: int, cc: int|
                    blk.x <= xx < x && 0 <= cc < 4
                        ==> #[trigger] frame.pixels@[f0.byte_index(xx, y as int, cc)] == vals[cc],
                forall|k: int|
                    0 <= k < plen && !byte_in_rect(stride as int, blk, k)
                        ==> #[trigger] frame.pixels@[k] == f0.pixels@[k],
            decreases blk.x + blk.width - x,
        {
            let o: usize = y as usize * stride + x as usize * 4;
            let mut c: usize = 0;
            while c < 4
                invariant
                    f0.wf(),
                    blk.x + blk.width <= f0.width,
                    blk.y + blk.height <= f0.height,
                    frame.width == f0.width, frame.height == f0.height, frame.stride == f0.stride,
                    frame.format == f0.format, frame.monitor_id == f0.monitor_id,
                    frame.timestamp_ms == f0.timestamp_ms,
                    frame.pixels@.len() == plen,
                    stride == f0.stride, plen == f0.pixels@.len(),
                    blk.y <= y < blk.y + blk.height,
                    y * f0.stride + f0.stride <= plen,
                    blk.x <= x < blk.x + blk.width,
                    o == f0.offset(x as int, y as int),
                    c <= 4,
                    forall|xx: int, yy: int, cc: int|
                        blk.x <= xx < blk.x + blk.width && blk.y <= yy < y && 0 <= cc < 4
                            ==> #[trigger] frame.pixels@[f0.byte_index(xx, yy, cc)] == vals[cc],
                    forall|xx: int, cc: int|
                        blk.x <= xx < x && 0 <= cc < 4
                            ==> #[trigger] frame.pixels@[f0.byte_index(xx, y as int, cc)] == vals[cc],
                    forall|cc: int|
                        0 <= cc < c ==> #[trigger] frame.pixels@[f0.byte_index(x as int, y as int, cc)] == vals[cc],
                    forall|k: int|
                        0 <= k < plen && !byte_in_rect(stride as int, blk, k)
                            ==> #[trigger] frame.pixels@[k] == f0.pixels@[k],
                decreases 4 - c,
            {
                let ghost prev = frame.pixels@;
                proof {
                    lemma_offset_in_rect(stride as int, blk, x as int, y as int, c as int);
                    lemma_byte_index_distinct(&f0, x as int, y as int, c as int);
                }
                frame.pixels.set(o + c, vals[c]);
                proof {
                    assert forall|xx: int, yy: int, cc: int|
                        blk.x <= xx < blk.x + blk.width && blk.y <= yy < y && 0 <= cc < 4
                            implies #[trigger] frame.pixels@[f0.byte_index(xx, yy, cc)] == vals[cc] by {
                        lemma_row_in_block(yy, f0.height as int, f0.stride as int);
                        assert(f0.byte_index(xx, yy, cc) != f0.byte_index(x as int, y as int, c as int));
                        assert(prev[f0.byte_index(xx, yy, cc)] == vals[cc]);
                    }
                }
                c = c + 1;
            }
            x = x + 1;
        }
        y = y + 1;
    }
}

/// Locates the mosaic cell of `v` when it is known to lie in the `k`-th cell.
proof fn lemma_cell(lo: int, b: int, k: int, v: int, hi: int)
    requires
        b > 0,
        k >= 0,
        lo + k * b <= v < lo + k * b + b,
    ensures
        cell_start(lo, b, v) == lo + k * b,
        cell_len(lo, b, v, hi) == (if b <= hi - (lo + k * b) { b } else { hi - (lo + k * b) }),
{
    vstd::arithmetic::div_mod::lemma_fundamental_div_mod_converse(v - lo, b, k, v - lo - k * b);
}

/// Pixelates the part of the frame inside `rect` (cut down to the frame):
/// the rectangle is divided into square cells of `block_size` pixels laid out
/// from its top-left corner (cells at the right and bottom edges are cut
/// short), and every pixel of a cell takes the cell's average colour,
/// channel by channel, rounded down. Nothing changes when the rectangle is
/// empty or the block size is 0.
pub fn apply_mosaic(frame: &mut Frame, rect: ImagePxRect, block_size: u32)
    requires
        old(frame).wf(),
    ensures
        is_mosaic_of(*old(frame), *final(frame), rect, block_size),
{
    let clamped = rect.clamp_to(frame.width, frame.height);
    if clamped.width == 0 || clamped.height == 0 || block_size == 0 {
        return;
    }
    let ghost f0 = *frame;
    let b: u64 = block_size as u64;
    let x0: u64 = clamped.x as u64;
    let y0: u64 = clamped.y as u64;
    let x1: u64 = (clamped.x + clamped.width) as u64;
    let y1: u64 = (clamped.y + clamped.height) as u64;
    let plen = frame.pixels.len();
    let mut by: u64 = y0;
    let ghost mut ky: int = 0;
    while by < y1
        invariant
            f0.wf(),
            frame.width == f0.width, frame.height == f0.height, frame.stride == f0.stride,
            frame.format == f0.format, frame.monitor_id == f0.monitor_id,
            frame.timestamp_ms == f0.timestamp_ms,
            frame.pixels@.len() == plen, plen == f0.pixels@.len(),
            clamped == rect.spec_clamp_to(f0.width, f0.height),
            x0 == clamped.x, y0 == clamped.y,
            x1 == clamped.x + clamped.width, y1 == clamped.y + clamped.height,
            x1 <= f0.width, y1 <= f0.height, x0 < x1, y0 < y1,
            b == block_size, b > 0,
            y0 <= by, by == y0 + ky * b, ky >= 0, by < y1 + b,
            forall|x: int, y: int, c: int|
                x0 <= x < x1 && y0 <= y < by && y < y1 && 0 <= c < 4
                    ==> #[trigger] frame.pixels@[f0.byte_index(x, y, c)] == mosaic_value(&f0, clamped, b as int, x, y, c),
            forall|x: int, y: int, c: int|
                x0 <= x < x1 && by <= y < y1 && 0 <= c < 4
                    ==> #[trigger] frame.pixels@[f0.byte_index(x, y, c)] == f0.pixels@[f0.byte_index(x, y, c)],
            forall|k: int|
                0 <= k < plen && !byte_in_rect(f0.stride as int, clamped, k)
                    ==> #[trigger] frame.pixels@[k] == f0.pixels@[k],
        decreases y1 + b - by,
    {
        let bh: u64 = if b <= y1 - by { b } else { y1 - by };
        let mut bx: u64 = x0;
        let ghost mut kx: int = 0;
        while bx < x1
            invariant
                f0.wf(),
                frame.width == f0.width, frame.height == f0.height, frame.stride == f0.stride,
                frame.format == f0.format, frame.monitor_id == f0.monitor_id,
                frame.timestamp_ms == f0.timestamp_ms,
                frame.pixels@.len() == plen, plen == f0.pixels@.len(),
                clamped == rect.spec_clamp_to(f0.width, f0.height),
                x0 == clamped.x, y0 == clamped.y,
                x1 == clamped.x + clamped.width, y1 == clamped.y + clamped.height,
                x1 <= f0.width, y1 <= f0.height, x0 < x1, y0 < y1,
                b == block_size, b > 0,
                y0 <= by < y1, by == y0 + ky * b, ky >= 0,
                bh == (if b <= y1 - by { b as int } else { y1 - by }),
                x0 <= bx, bx == x0 + kx * b, kx >= 0, bx < x1 + b,
                forall|x: int, y: int, c: int|
                    x0 <= x < x1 && y0 <= y < by && 0 <= c < 4
                        ==> #[trigger] frame.pixels@[f0.byte_index(x, y, c)] == mosaic_value(&f0, clamped, b as int, x, y, c),
                forall|x: int, y: int, c: int|
                    x0 <= x < bx && x < x1 && by <= y < by + bh && 0 <= c < 4
                        ==> #[trigger] frame.pixels@[f0.byte_index(x, y, c)] == mosaic_value(&f0, clamped, b as int, x, y, c),
                forall|x: int, y: int, c: int|
                    x0 <= x < x1 && by <= y < y1 && 0 <= c < 4 && (y >= by + bh || x >= bx)
                        ==> #[trigger] frame.pixels@[f0.byte_index(x, y, c)] == f0.pixels@[f0.byte_index(x, y, c)],
                forall|k: int|
                    0 <= k < plen && !byte_in_rect(f0.stride as int, clamped, k)
                        ==> #[trigger] frame.pixels@[k] == f0.pixels@[k],
            decreases x1 + b - bx,
        {
            let bw: u64 = if b <= x1 - bx { b } else { x1 - bx };
            let blk = ImagePxRect::new(bx as u32, by as u32, bw as u32, bh as u32);
            proof {
                // The cell's pixels still hold the values they had before.
                assert forall|c: int| 0 <= c < 4 implies
                    block_sum(frame.pixels@, f0.stride as int, c, bx as int, by as int, bw as nat, bh as nat)
                    == block_sum(f0.pixels@, f0.stride as int, c, bx as int, by as int, bw as nat, bh as nat) by {
                    assert forall|i: int, j: int| 0 <= i < bw && 0 <= j < bh implies
                        #[trigger] frame.pixels@[(by + j) * f0.stride + (bx + i) * 4 + c]
                        == f0.pixels@[(by + j) * f0.stride + (bx + i) * 4 + c] by {
                        assert(frame.pixels@[f0.byte_index(bx + i, by + j, c)] == f0.pixels@[f0.byte_index(bx + i, by + j, c)]);
                    }
                    lemma_block_sum_eq(frame.pixels@, f0.pixels@, f0.stride as int, c, bx as int, by as int, bw as nat, bh as nat);
                }
                crate::arith::lemma_mul_u32_bound(bw as int, bh as int);
            }
            let s0 = block_sum_exec(frame, 0, bx as u32, by as u32, bw as u32, bh as u32);
            let s1 = block_sum_exec(frame, 1, bx as u32, by as u32, bw as u32, bh as u32);
            let s2 = block_sum_exec(frame, 2, bx as u32, by as u32, bw as u32, bh as u32);
            let s3 = block_sum_exec(frame, 3, bx as u32, by as u32, bw as u32, bh as u32);
            let count: u128 = bw as u128 * bh as u128;
            proof {
                assert(bw * bh > 0) by (nonlinear_arith) requires bw > 0, bh > 0;
                lemma_avg_byte(s0 as int, count as int);
                lemma_avg_byte(s1 as int, count as int);
                lemma_avg_byte(s2 as int, count as int);
                lemma_avg_byte(s3 as int, count as int);
            }
            let vals: [u8; 4] = [(s0 / count) as u8, (s1 / count) as u8, (s2 / count) as u8, (s3 / count) as u8];
            let ghost prev = frame.pixels@;
            let ghost fb = *frame;
            fill_block(frame, blk, vals);
            proof {
                assert forall|x: int, y: int, c: int|
                    x0 <= x < bx + bw && x < x1 && by <= y < by + bh && 0 <= c < 4
                        implies #[trigger] frame.pixels@[f0.byte_index(x, y, c)] == mosaic_value(&f0, clamped, b as int, x, y, c) by {
                    lemma_byte_in_rect_iff(&f0, blk, x, y, c);
                    lemma_row_in_block(y, f0.height as int, f0.stride as int);
                    assert(fb.byte_index(x, y, c) == f0.byte_index(x, y, c));
                    if x >= bx {
                        lemma_cell(x0 as int, b as int, kx, x, x1 as int);
                        lemma_cell(y0 as int, b as int, ky, y, y1 as int);
                        let bs = block_sum(f0.pixels@, f0.stride as int, c, bx as int, by as int, bw as nat, bh as nat);
                        if c == 0 {
                            assert(vals[0] == s0 / count);
                        } else if c == 1 {
                            assert(vals[1] == s1 / count);
                        } else if c == 2 {
                            assert(vals[2] == s2 / count);
                        } else {
                            assert(vals[3] == s3 / count);
                        }
                        assert(vals[c] == bs / (bw * bh));
                        assert(blk.x <= x < blk.x + blk.width && blk.y <= y < blk.y + blk.height);
                        assert(frame.pixels@[fb.byte_index(x, y, c)] == vals[c]);
                        assert(mosaic_value(&f0, clamped, b as int, x, y, c) == bs / (bw * bh));
                    } else {
                        assert(prev[f0.byte_index(x, y, c)] == mosaic_value(&f0, clamped, b as int, x, y, c));
                    }
                }
                assert forall|x: int, y: int, c: int|
                    x0 <= x < x1 && y0 <= y < by && 0 <= c < 4
                        implies #[trigger] frame.pixels@[f0.byte_index(x, y, c)] == mosaic_value(&f0, clamped, b as int, x, y, c) by {
                    lemma_byte_in_rect_iff(&f0, blk, x, y, c);
                    lemma_row_in_block(y, f0.height as int, f0.stride as int);
                    assert(fb.byte_index(x, y, c) == f0.byte_index(x, y, c));
                    assert(prev[f0.byte_index(x, y, c)] == mosaic_value(&f0, clamped, b as int, x, y, c));
                }
                assert forall|x: int, y: int, c: int|
                    x0 <= x < x1 && by <= y < y1 && 0 <= c < 4 && (y >= by + bh || x >= bx + bw)
                        implies #[trigger] frame.pixels@[f0.byte_index(x, y, c)] == f0.pixels@[f0.byte_index(x, y, c)] by {
                    lemma_byte_in_rect_iff(&f0, blk, x, y, c);
                    lemma_row_in_block(y, f0.height as int, f0.stride as int);
                    assert(fb.byte_index(x, y, c) == f0.byte_index(x, y, c));
                    assert(prev[f0.byte_index(x, y, c)] == f0.pixels@[f0.byte_index(x, y, c)]);
                }
                assert forall|k: int|
                    0 <= k < plen && !byte_in_rect(f0.stride as int, clamped, k)
                        implies #[trigger] frame.pixels@[k] == f0.pixels@[k] by {
                    assert(!byte_in_rect(f0.stride as int, blk, k));
                    assert(prev[k] == f0.pixels@[k]);
                }
                kx = kx + 1;
                assert(bx + b == x0 + kx * b) by (nonlinear_arith)
                    requires bx == x0 + (kx - 1) * b;
            }
            bx = bx + b;
        }
        proof {
            ky = ky + 1;
            assert(by + b == y0 + ky * b) by (nonlinear_arith)
                requires by == y0 + (ky - 1) * b;
        }
        by = by + b;
    }
}

} // verus!
