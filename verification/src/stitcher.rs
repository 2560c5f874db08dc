//! Long-screenshot stitching: estimating how far the content scrolled
//! between two captures, and joining a series of captures into one image.

use vstd::prelude::*;
use crate::arith::{ceil_div, lemma_mul_le, lemma_step_count};
use crate::frame::Frame;
use crate::text::{dec, push_dec, push_str};

verus! {

/// Why a series of captures could not be stitched.
#[derive(Debug)]
pub enum LongshotError {
    NoFrames,
    DimensionMismatch { expected_w: u32, expected_h: u32, actual_w: u32, actual_h: u32 },
    MaxHeightExceeded(u32),
    PixelFormatMismatch,
    AlignmentFailed(usize),
    InvalidFrameLayout,
    AllocationError(String),
}

/// The text that describes a stitching error.
pub open spec fn error_message(e: LongshotError) -> Seq<char> {
    match e {
        LongshotError::NoFrames => "No frames collected to stitch"@,
        LongshotError::DimensionMismatch { expected_w, expected_h, actual_w, actual_h } =>
            "Frames dimension mismatch: expected "@ + dec(expected_w as nat) + "x"@ + dec(expected_h as nat)
                + ", got "@ + dec(actual_w as nat) + "x"@ + dec(actual_h as nat),
        LongshotError::MaxHeightExceeded(m) =>
            "Stitching exceeded maximum height limit of "@ + dec(m as nat) + " pixels"@,
        LongshotError::PixelFormatMismatch => "Frame pixel format mismatch"@,
        LongshotError::AlignmentFailed(i) =>
            "Could not reliably align frame "@ + dec(i as nat) + " with the previous frame"@,
        LongshotError::InvalidFrameLayout => "Invalid frame buffer layout"@,
        LongshotError::AllocationError(m) => "Frame buffer allocation failed: "@ + m@,
    }
}

impl LongshotError {
    /// The text that describes the error.
    pub fn message(&self) -> (s: String)
        ensures
            s@ == error_message(*self),
    {
        let mut s = String::new();
        match self {
            LongshotError::NoFrames => push_str(&mut s, "No frames collected to stitch"),
            LongshotError::DimensionMismatch { expected_w, expected_h, actual_w, actual_h } => {
                push_str(&mut s, "Frames dimension mismatch: expected ");
                push_dec(&mut s, *expected_w as u64);
                push_str(&mut s, "x");
                push_dec(&mut s, *expected_h as u64);
                push_str(&mut s, ", got ");
                push_dec(&mut s, *actual_w as u64);
                push_str(&mut s, "x");
                push_dec(&mut s, *actual_h as u64);
            },
            LongshotError::MaxHeightExceeded(m) => {
                push_str(&mut s, "Stitching exceeded maximum height limit of ");
                push_dec(&mut s, *m as u64);
                push_str(&mut s, " pixels");
            },
            LongshotError::PixelFormatMismatch => push_str(&mut s, "Frame pixel format mismatch"),
            LongshotError::AlignmentFailed(i) => {
                push_str(&mut s, "Could not reliably align frame ");
                push_dec(&mut s, *i as u64);
                push_str(&mut s, " with the previous frame");
            },
            LongshotError::InvalidFrameLayout => push_str(&mut s, "Invalid frame buffer layout"),
            LongshotError::AllocationError(m) => {
                push_str(&mut s, "Frame buffer allocation failed: ");
                push_str(&mut s, m.as_str());
            },
        }
        s
    }
}

/// Tuning of the stitcher. The overlap bounds are fractions of the frame
/// height in basis points (1/10000).
#[derive(Debug, Clone, Copy)]
pub struct StitchOptions {
    pub max_height: u32,
    pub min_overlap_bp: u32,
    pub max_overlap_bp: u32,
    pub search_step: usize,
}

impl Default for StitchOptions {
    /// At most 30000 rows; overlaps of 15% to 95% of a frame; every second
    /// shift tried.
    fn default() -> (o: Self)
        ensures
            o.max_height == 30000,
            o.min_overlap_bp == 1500,
            o.max_overlap_bp == 9500,
            o.search_step == 2,
    {
        StitchOptions { max_height: 30000, min_overlap_bp: 1500, max_overlap_bp: 9500, search_step: 2 }
    }
}

/// A fraction (in basis points) of a height, rounded down and capped at
/// `u32::MAX`.
pub open spec fn overlap_px(height: u32, bp: u32) -> int {
    let v = height as int * bp as int / 10000;
    if v > u32::MAX { u32::MAX as int } else { v }
}

/// First sampled column: one eighth into the frame.
pub open spec fn col_lo(w: int) -> int { w / 8 }

/// End (exclusive) of the sampled columns: seven eighths into the frame.
pub open spec fn col_hi(w: int) -> int { w * 7 / 8 }

/// Distance between sampled columns: a tenth of the width, at least 1.
pub open spec fn col_step(w: int) -> int { if w / 10 >= 1 { w / 10 } else { 1 } }

/// Number of sampled columns.
pub open spec fn ncols(w: int) -> int {
    let c = ceil_div(col_hi(w) - col_lo(w), col_step(w));
    if c > 0 { c } else { 0 }
}

/// The `i`-th sampled column.
pub open spec fn sample_col(w: int, i: int) -> int { col_lo(w) + i * col_step(w) }

/// Number of sampled rows of the overlap for a shift: every fourth row.
pub open spec fn nrows(shift: int, h: int) -> int {
    let c = ceil_div(h - shift, 4);
    if c > 0 { c } else { 0 }
}

/// Colour distance (sum of absolute RGB differences) between pixel `(x, yp)`
/// of `prev` and pixel `(x, yn)` of `next`, when both exist.
pub open spec fn pixel_diff(prev: &Frame, next: &Frame, x: int, yp: int, yn: int) -> Option<int> {
    match (prev.spec_pixel_at(x, yp), next.spec_pixel_at(x, yn)) {
        (Some(a), Some(b)) => Some(
            abs_diff(a.r as int, b.r as int) + abs_diff(a.g as int, b.g as int) + abs_diff(a.b as int, b.b as int),
        ),
        _ => None,
    }
}

pub open spec fn abs_diff(a: int, b: int) -> int {
    if a >= b { a - b } else { b - a }
}

/// Total distance and number of compared pixels over the first `n` sampled
/// columns of one pair of rows.
pub open spec fn row_diff(prev: &Frame, next: &Frame, yp: int, yn: int, n: nat) -> (int, int)
    decreases n,
{
    if n == 0 {
        (0, 0)
    } else {
        let (s, c) = row_diff(prev, next, yp, yn, (n - 1) as nat);
        match pixel_diff(prev, next, sample_col(prev.width as int, n - 1), yp, yn) {
            Some(d) => (s + d, c + 1),
            None => (s, c),
        }
    }
}

/// Total distance and number of compared pixels over the first `m` sampled
/// rows when `next` is assumed to be `prev` scrolled up by `shift` rows.
pub open spec fn shift_diff(prev: &Frame, next: &Frame, shift: int, m: nat) -> (int, int)
    decreases m,
{
    if m == 0 {
        (0, 0)
    } else {
        let (s, c) = shift_diff(prev, next, shift, (m - 1) as nat);
        let (rs, rc) = row_diff(prev, next, shift + 4 * (m - 1), 4 * (m - 1), ncols(prev.width as int) as nat);
        (s + rs, c + rc)
    }
}

/// Distance totals of a shift over all its sampled rows.
pub open spec fn shift_stats(prev: &Frame, next: &Frame, shift: int) -> (int, int) {
    shift_diff(prev, next, shift, nrows(shift, prev.height as int) as nat)
}

/// Average colour distance of a shift (only meaningful when pixels were
/// compared).
pub open spec fn shift_avg(prev: &Frame, next: &Frame, shift: int) -> int {
    shift_stats(prev, next, shift).0 / shift_stats(prev, next, shift).1
}

/// Largest shift tried: the height less the minimum overlap.
pub open spec fn max_shift(prev: &Frame, o: StitchOptions) -> int {
    let m = prev.height as int - overlap_px(prev.height, o.min_overlap_bp);
    if m > 0 { m } else { 0 }
}

/// A shift the search tries and can judge: on the search grid
/// `1, 1 + step, ...`, leaving an overlap within the configured bounds, and
/// with at least one compared pixel.
pub open spec fn eligible(prev: &Frame, next: &Frame, o: StitchOptions, t: int) -> bool {
    &&& 1 <= t <= max_shift(prev, o)
    &&& (t - 1) % (o.search_step as int) == 0
    &&& overlap_px(prev.height, o.min_overlap_bp) <= prev.height - t <= overlap_px(prev.height, o.max_overlap_bp)
    &&& shift_stats(prev, next, t).1 > 0
}

/// `t` is the smallest shift of least average distance, and that distance is
/// below 40.
pub open spec fn is_best_shift(prev: &Frame, next: &Frame, o: StitchOptions, t: int) -> bool {
    &&& eligible(prev, next, o, t)
    &&& shift_avg(prev, next, t) < 40
    &&& forall|u: int| #[trigger] eligible(prev, next, o, u) ==> {
        &&& shift_avg(prev, next, t) <= shift_avg(prev, next, u)
        &&& (u < t ==> shift_avg(prev, next, u) > shift_avg(prev, next, t))
    }
}

/// The scroll distance the search finds between two frames of equal size.
pub open spec fn spec_estimate(prev: &Frame, next: &Frame, o: StitchOptions) -> Option<u32> {
    if prev.width != next.width || prev.height != next.height {
        None
    } else if exists|t: int| is_best_shift(prev, next, o, t) {
        Some((choose|t: int| is_best_shift(prev, next, o, t)) as u32)
    } else {
        None
    }
}

proof fn lemma_best_unique(prev: &Frame, next: &Frame, o: StitchOptions, a: int, b: int)
    requires
        is_best_shift(prev, next, o, a),
        is_best_shift(prev, next, o, b),
    ensures
        a == b,
{
    assert(eligible(prev, next, o, a));
    assert(eligible(prev, next, o, b));
}

proof fn lemma_abs_bound(a: int, b: int)
    requires
        0 <= a <= 255,
        0 <= b <= 255,
    ensures
        0 <= abs_diff(a, b) <= 255,
{
}

fn pixel_diff_exec(prev: &Frame, next: &Frame, x: u32, yp: u32, yn: u32) -> (d: Option<u64>)
    ensures
        match pixel_diff(prev, next, x as int, yp as int, yn as int) {
            Some(v) => d == Some(v as u64) && v <= 765,
            None => d.is_none(),
        },
{
    match (prev.pixel_at(x, yp), next.pixel_at(x, yn)) {
        (Some(a), Some(b)) => {
            let dr: u64 = if a.r >= b.r { (a.r - b.r) as u64 } else { (b.r - a.r) as u64 };
            let dg: u64 = if a.g >= b.g { (a.g - b.g) as u64 } else { (b.g - a.g) as u64 };
            let db: u64 = if a.b >= b.b { (a.b - b.b) as u64 } else { (b.b - a.b) as u64 };
            Some(dr + dg + db)
        },
        _ => None,
    }
}

fn row_stats_exec(prev: &Frame, next: &Frame, yp: u32, yn: u32) -> (res: (u128, u128))
    requires
        prev.width as int * 7 <= u32::MAX,
    ensures
        res.0 == row_diff(prev, next, yp as int, yn as int, ncols(prev.width as int) as nat).0,
        res.1 == row_diff(prev, next, yp as int, yn as int, ncols(prev.width as int) as nat).1,
        res.1 <= u32::MAX,
        res.0 <= 765 * res.1,
{
    let w = prev.width;
    let lo: u32 = w / 8;
    let hi: u32 = w * 7 / 8;
    let st: u32 = if w / 10 >= 1 { w / 10 } else { 1 };
    let mut col: u64 = lo as u64;
    let mut i: u64 = 0;
    let mut sum: u128 = 0;
    let mut cnt: u128 = 0;
    while col < hi as u64
        invariant
            w == prev.width,
            lo == col_lo(w as int), hi == col_hi(w as int), st == col_step(w as int),
            st >= 1,
            col == lo + i * st,
            i <= col - lo,
            col <= hi as int + st,
            forall|j: int| 0 <= j < i ==> #[trigger] sample_col(w as int, j) < hi,
            sum == row_diff(prev, next, yp as int, yn as int, i as nat).0,
            cnt == row_diff(prev, next, yp as int, yn as int, i as nat).1,
            cnt <= i,
            sum <= 765 * cnt,
        decreases hi + st - col,
    {
        match pixel_diff_exec(prev, next, col as u32, yp, yn) {
            Some(d) => {
                sum = sum + d as u128;
                cnt = cnt + 1;
            },
            None => {},
        }
        proof {
            assert(col + st == lo + (i + 1) * st) by (nonlinear_arith)
                requires col == lo + i * st;
        }
        i = i + 1;
        col = col + st as u64;
    }
    proof {
        lemma_step_count(hi - lo, st as int, i as int);
        if i > 0 {
            lemma_step_count(hi - lo, st as int, (i - 1) as int);
            assert(sample_col(w as int, i - 1) < hi);
        }
        assert(i == ncols(w as int));
    }
    (sum, cnt)
}

fn shift_stats_exec(prev: &Frame, next: &Frame, shift: u32) -> (res: (u128, u128))
    requires
        prev.width as int * 7 <= u32::MAX,
        shift <= prev.height,
    ensures
        res.0 == shift_stats(prev, next, shift as int).0,
        res.1 == shift_stats(prev, next, shift as int).1,
        res.1 <= 0x1_0000_0000 * 0x1_0000_0000,
        res.0 <= 765 * res.1,
{
    let h = prev.height;
    let mut yp: u64 = shift as u64;
    let mut j: u64 = 0;
    let mut sum: u128 = 0;
    let mut cnt: u128 = 0;
    while yp < h as u64
        invariant
            h == prev.height,
            prev.width as int * 7 <= u32::MAX,
            shift <= h,
            yp == shift + 4 * j,
            yp <= h + 4,
            j <= yp,
            j > 0 ==> shift + 4 * (j - 1) < h,
            sum == shift_diff(prev, next, shift as int, j as nat).0,
            cnt == shift_diff(prev, next, shift as int, j as nat).1,
            cnt <= j * 0x1_0000_0000,
            sum <= 765 * cnt,
        decreases h + 4 - yp,
    {
        let (rs, rc) = row_stats_exec(prev, next, yp as u32, (4 * j) as u32);
        proof {
            assert(j * 0x1_0000_0000 + 0x1_0000_0000 == (j + 1) * 0x1_0000_0000);
        }
        sum = sum + rs;
        cnt = cnt + rc;
        j = j + 1;
        yp = yp + 4;
    }
    proof {
        lemma_step_count(h - shift, 4, j as int);
        if j > 0 {
            lemma_step_count(h - shift, 4, (j - 1) as int);
        }
        assert(j == nrows(shift as int, h as int));
        assert(j * 0x1_0000_0000 <= 0x1_0000_0000 * 0x1_0000_0000);
    }
    (sum, cnt)
}

/// Values strictly between two consecutive grid points are off the grid.
proof fn lemma_grid_gap(t: int, k: int, step: int)
    requires
        step > 0,
        k >= 0,
        1 + k * step < t < 1 + (k + 1) * step,
    ensures
        (t - 1) % step != 0,
{
    if (t - 1) % step == 0 {
        vstd::arithmetic::div_mod::lemma_fundamental_div_mod(t - 1, step);
        let q = (t - 1) / step;
        assert(step * q == t - 1);
        assert(k < q < k + 1) by (nonlinear_arith)
            requires step > 0, k * step < step * q, step * q < (k + 1) * step;
    }
}

proof fn lemma_on_grid(k: int, step: int)
    requires
        step > 0,
        k >= 0,
    ensures
        (k * step) % step == 0,
{
    vstd::arithmetic::div_mod::lemma_fundamental_div_mod_converse(k * step, step, k, 0);
}

fn overlap_exec(height: u32, bp: u32) -> (v: u32)
    ensures
        v == overlap_px(height, bp),
{
    proof { crate::arith::lemma_mul_u32_bound(height as int, bp as int); }
    let v: u64 = height as u64 * bp as u64 / 10000;
    if v > u32::MAX as u64 { u32::MAX } else { v as u32 }
}

/// Estimates how many rows the content scrolled up between `prev` and `next`
/// (the number of new rows at the bottom of `next`). Candidate shifts are
/// `1, 1 + step, ...` that leave an overlap between the configured fractions
/// of the height; for each, pixels of every fourth overlapping row at about
/// eight columns between one and seven eighths of the width are compared, and
/// the shift of least average colour distance (the first on a tie) is the
/// answer when that distance is below 40. Frames of different sizes have no
/// answer.
pub fn estimate_vertical_scroll(prev: &Frame, next: &Frame, options: &StitchOptions) -> (res: Option<u32>)
    requires
        prev.width == next.width && prev.height == next.height ==> options.search_step > 0
            && prev.width as int * 7 <= u32::MAX,
    ensures
        res == spec_estimate(prev, next, *options),
        res matches Some(s) ==> is_best_shift(prev, next, *options, s as int),
        (res is None && prev.width == next.width && prev.height == next.height) ==>
            forall|t: int| #[trigger] eligible(prev, next, *options, t) ==> shift_avg(prev, next, t) >= 40,
{
    if prev.width != next.width || prev.height != next.height {
        return None;
    }
    let height = prev.height;
    let min_overlap = overlap_exec(height, options.min_overlap_bp);
    let max_overlap = overlap_exec(height, options.max_overlap_bp);
    let max_sh: u32 = height.saturating_sub(min_overlap);
    let step: u128 = options.search_step as u128;
    let ghost o = *options;
    let mut best_shift: u32 = 0;
    let mut min_diff: u128 = u64::MAX as u128;
    let mut shift: u128 = 1;
    let ghost mut k: int = 0;
    while shift <= max_sh as u128
        invariant
            o == *options,
            prev.width == next.width, prev.height == next.height,
            prev.width as int * 7 <= u32::MAX,
            height == prev.height,
            min_overlap == overlap_px(height, o.min_overlap_bp),
            max_overlap == overlap_px(height, o.max_overlap_bp),
            max_sh == max_shift(prev, o),
            step == o.search_step, step > 0,
            k >= 0,
            shift == 1 + k * step,
            shift <= max_sh + step,
            min_diff == u64::MAX || min_diff <= 765,
            min_diff == u64::MAX ==> best_shift == 0,
            min_diff == u64::MAX ==> forall|t: int| #[trigger] eligible(prev, next, o, t) ==> t >= shift,
            min_diff != u64::MAX ==> {
                &&& eligible(prev, next, o, best_shift as int)
                &&& 1 <= best_shift < shift
                &&& min_diff == shift_avg(prev, next, best_shift as int)
                &&& forall|t: int| #[trigger] eligible(prev, next, o, t) && t < shift ==> {
                    &&& shift_avg(prev, next, t) >= min_diff
                    &&& (t < best_shift ==> shift_avg(prev, next, t) > min_diff)
                }
            },
        decreases max_sh + step - shift,
    {
        let sh: u32 = shift as u32;
        let overlap_len: u32 = height - sh;
        proof {
            lemma_on_grid(k, step as int);
            assert((sh - 1) % (o.search_step as int) == 0);
        }
        if !(overlap_len > max_overlap || overlap_len < min_overlap) {
            let (sum, cnt) = shift_stats_exec(prev, next, sh);
            if cnt > 0 {
                let avg: u128 = sum / cnt;
                proof {
                    assert(eligible(prev, next, o, sh as int));
                    assert(avg <= 765) by (nonlinear_arith)
                        requires sum <= 765 * cnt, cnt > 0, avg == sum / cnt;
                }
                if avg < min_diff {
                    min_diff = avg;
                    best_shift = sh;
                }
            } else {
                proof { assert(!eligible(prev, next, o, sh as int)); }
            }
        } else {
            proof { assert(!eligible(prev, next, o, sh as int)); }
        }
        proof {
            assert forall|t: int| 1 + k * step < t < 1 + (k + 1) * step implies !#[trigger] eligible(prev, next, o, t) by {
                lemma_grid_gap(t, k, step as int);
            }
            assert(shift + step == 1 + (k + 1) * step) by (nonlinear_arith)
                requires shift == 1 + k * step;
            k = k + 1;
        }
        shift = shift + step;
    }
    if min_diff < 40 && best_shift > 0 {
        proof {
            assert(is_best_shift(prev, next, o, best_shift as int));
            assert forall|t: int| is_best_shift(prev, next, o, t) implies t == best_shift by {
                lemma_best_unique(prev, next, o, t, best_shift as int);
            }
        }
        Some(best_shift)
    } else {
        proof {
            assert forall|t: int| !is_best_shift(prev, next, o, t) by {
                if is_best_shift(prev, next, o, t) {
                    assert(eligible(prev, next, o, t));
                }
            }
        }
        None
    }
}

/// `n` rows of `frame` starting at row `start`, each cut to its first `w`
/// bytes, one after another.
pub open spec fn rows_bytes(f: &Frame, start: int, n: nat, w: int) -> Seq<u8>
    decreases n,
{
    if n == 0 {
        Seq::empty()
    } else {
        let row = start + n - 1;
        rows_bytes(f, start, (n - 1) as nat, w) + f.pixels@.subrange(row * f.stride, row * f.stride + w)
    }
}

/// The check a capture must pass before it is stitched: the size and pixel
/// format of the first capture, and a buffer that holds every row.
pub open spec fn validate_spec(f: &Frame, width: u32, height: u32, format: crate::frame::PixelFormat) -> Option<LongshotError> {
    if f.width != width || f.height != height {
        Some(LongshotError::DimensionMismatch { expected_w: width, expected_h: height, actual_w: f.width, actual_h: f.height })
    } else if f.format != format {
        Some(LongshotError::PixelFormatMismatch)
    } else if f.width as int * 4 > u32::MAX {
        Some(LongshotError::InvalidFrameLayout)
    } else if f.stride as int * f.height as int > usize::MAX {
        Some(LongshotError::InvalidFrameLayout)
    } else if f.stride < f.width * 4 || f.pixels@.len() < f.stride as int * f.height as int {
        Some(LongshotError::InvalidFrameLayout)
    } else {
        None
    }
}

/// The outcome of stitching the first `i` captures (`i >= 1`): the height and
/// bytes of the image so far, or the first error. The first capture is taken
/// whole; each further capture must pass the check, its scroll distance from
/// the capture before it must be found, and the image must stay within the
/// height limit; its bottom rows that scrolled into view are appended.
pub open spec fn stitch_state(frames: Seq<Frame>, o: StitchOptions, i: nat) -> Result<(int, Seq<u8>), LongshotError>
    decreases i,
{
    let first = frames[0];
    let w = first.width;
    let h = first.height;
    if i <= 1 {
        if w as int * 4 > u32::MAX {
            Err(LongshotError::InvalidFrameLayout)
        } else {
            match validate_spec(&first, w, h, first.format) {
                Some(e) => Err(e),
                None => Ok((h as int, rows_bytes(&first, 0, h as nat, w * 4))),
            }
        }
    } else {
        match stitch_state(frames, o, (i - 1) as nat) {
            Err(e) => Err(e),
            Ok((total, px)) => {
                let prev = frames[i - 2];
                let curr = frames[i - 1];
                match validate_spec(&curr, w, h, first.format) {
                    Some(e) => Err(e),
                    None => match spec_estimate(&prev, &curr, o) {
                        None => Err(LongshotError::AlignmentFailed((i - 1) as usize)),
                        Some(s) => if total + s > u32::MAX || total + s > o.max_height {
                            Err(LongshotError::MaxHeightExceeded(o.max_height))
                        } else {
                            Ok((total + s, px + rows_bytes(&curr, h - s, s as nat, w * 4)))
                        },
                    },
                }
            },
        }
    }
}

proof fn lemma_state_err_sticks(frames: Seq<Frame>, o: StitchOptions, i: nat, j: nat)
    requires
        1 <= i <= j,
        stitch_state(frames, o, i) is Err,
    ensures
        stitch_state(frames, o, j) == stitch_state(frames, o, i),
    decreases j,
{
    if j > i {
        lemma_state_err_sticks(frames, o, i, (j - 1) as nat);
    }
}

proof fn lemma_state_ok_prefix(frames: Seq<Frame>, o: StitchOptions, j: nat)
    requires
        1 <= j,
        stitch_state(frames, o, j) is Ok,
    ensures
        forall|i: nat| 1 <= i <= j ==> #[trigger] stitch_state(frames, o, i) is Ok,
{
    assert forall|i: nat| 1 <= i <= j implies #[trigger] stitch_state(frames, o, i) is Ok by {
        if stitch_state(frames, o, i) is Err {
            lemma_state_err_sticks(frames, o, i, j);
        }
    }
}

proof fn lemma_rows_len(f: &Frame, start: int, n: nat, w: int)
    requires
        0 <= start,
        start + n <= f.height,
        0 <= w <= f.stride,
        f.pixels@.len() >= f.stride as int * f.height as int,
    ensures
        rows_bytes(f, start, n, w).len() == n * w,
    decreases n,
{
    if n > 0 {
        lemma_rows_len(f, start, (n - 1) as nat, w);
        crate::arith::lemma_row_in_block(start + n - 1, f.height as int, f.stride as int);
        assert(f.height as int * f.stride as int == f.stride as int * f.height as int) by (nonlinear_arith);
        crate::arith::lemma_mul_pred(n as int, w);
    } else {
        assert(n * w == 0) by (nonlinear_arith) requires n == 0;
    }
}

fn validate_frame(f: &Frame, width: u32, height: u32, format: crate::frame::PixelFormat) -> (res: Result<(), LongshotError>)
    ensures
        match validate_spec(f, width, height, format) {
            Some(e) => res == Err::<(), LongshotError>(e),
            None => res is Ok,
        },
{
    if f.width != width || f.height != height {
        return Err(LongshotError::DimensionMismatch { expected_w: width, expected_h: height, actual_w: f.width, actual_h: f.height });
    }
    if f.format != format {
        return Err(LongshotError::PixelFormatMismatch);
    }
    let minimum_stride = match f.width.checked_mul(4) {
        Some(m) => m,
        None => return Err(LongshotError::InvalidFrameLayout),
    };
    let required_len = match (f.stride as usize).checked_mul(f.height as usize) {
        Some(r) => r,
        None => return Err(LongshotError::InvalidFrameLayout),
    };
    if f.stride < minimum_stride || f.pixels.len() < required_len {
        return Err(LongshotError::InvalidFrameLayout);
    }
    Ok(())
}

/// Appends `row_count` rows of `frame` from `start_row` on, each cut to its
/// first `output_stride` bytes. The frame's buffer must hold every row.
fn append_rows(destination: &mut Vec<u8>, frame: &Frame, start_row: u32, row_count: u32, output_stride: u32) -> (res: Result<(), LongshotError>)
    requires
        frame.pixels@.len() >= frame.stride as int * frame.height as int,
    ensures
        (start_row + row_count > u32::MAX || start_row + row_count > frame.height || output_stride > frame.stride)
            ==> res == Err::<(), LongshotError>(LongshotError::InvalidFrameLayout) && final(destination)@ == old(destination)@,
        !(start_row + row_count > u32::MAX || start_row + row_count > frame.height || output_stride > frame.stride) ==> {
            ||| (res matches Err(LongshotError::AllocationError(_)) && final(destination)@ == old(destination)@)
            ||| (res is Ok && final(destination)@ == old(destination)@ + rows_bytes(frame, start_row as int, row_count as nat, output_stride as int))
        },
{
    let end_row = match start_row.checked_add(row_count) {
        Some(e) => e,
        None => return Err(LongshotError::InvalidFrameLayout),
    };
    if end_row > frame.height || output_stride > frame.stride {
        return Err(LongshotError::InvalidFrameLayout);
    }
    let plen = frame.pixels.len();
    proof {
        crate::arith::lemma_mul_le(row_count as int, frame.height as int, output_stride as int);
        crate::arith::lemma_mul_le(output_stride as int, frame.stride as int, frame.height as int);
        assert(row_count as int * output_stride as int == output_stride as int * row_count as int) by (nonlinear_arith);
        assert(output_stride as int * row_count as int <= output_stride as int * frame.height as int) by (nonlinear_arith)
            requires row_count <= frame.height, output_stride >= 0;
    }
    let additional: usize = output_stride as usize * row_count as usize;
    match destination.try_reserve(additional) {
        Ok(()) => {},
        Err(err) => return Err(LongshotError::AllocationError(err.to_string())),
    }
    let ghost before = destination@;
    let stride = frame.stride as usize;
    let mut row = start_row;
    while row < end_row
        invariant
            frame.pixels@.len() >= frame.stride as int * frame.height as int,
            plen == frame.pixels@.len(),
            stride == frame.stride,
            end_row == start_row + row_count,
            end_row <= frame.height,
            output_stride <= frame.stride,
            start_row <= row <= end_row,
            destination@ == before + rows_bytes(frame, start_row as int, (row - start_row) as nat, output_stride as int),
        decreases end_row - row,
    {
        proof {
            crate::arith::lemma_row_in_block(row as int, frame.height as int, frame.stride as int);
            assert(frame.height as int * frame.stride as int == frame.stride as int * frame.height as int) by (nonlinear_arith);
        }
        let row_start: usize = row as usize * stride;
        let ghost mid = destination@;
        let mut i: usize = 0;
        while i < output_stride as usize
            invariant
                plen == frame.pixels@.len(),
                row_start + output_stride <= plen,
                i <= output_stride,
                destination@ == mid + frame.pixels@.subrange(row_start as int, row_start + i),
            decreases output_stride - i,
        {
            destination.push(frame.pixels[row_start + i]);
            i = i + 1;
            assert(frame.pixels@.subrange(row_start as int, row_start + i) == frame.pixels@.subrange(row_start as int, row_start + i - 1).push(frame.pixels@[row_start + i - 1]));
        }
        row = row + 1;
        proof {
            assert(rows_bytes(frame, start_row as int, (row - start_row) as nat, output_stride as int)
                == rows_bytes(frame, start_row as int, (row - 1 - start_row) as nat, output_stride as int)
                    + frame.pixels@.subrange(row_start as int, row_start + output_stride));
        }
    }
    Ok(())
}

/// Whether stitching gets as far as comparing the second capture with the
/// first: there are two captures, the row length fits in a `u32`, and both
/// pass the check.
pub open spec fn reaches_estimate(frames: Seq<Frame>) -> bool {
    &&& frames.len() >= 2
    &&& frames[0].width as int * 4 <= u32::MAX
    &&& validate_spec(&frames[0], frames[0].width, frames[0].height, frames[0].format) is None
    &&& validate_spec(&frames[1], frames[0].width, frames[0].height, frames[0].format) is None
}

/// Stitches a series of consecutive scrolled captures into one tall image.
/// The first capture is kept whole; every further one must match its size
/// and pixel format and hold all its rows, its scroll distance `s` from the
/// capture before it must be found by `estimate_vertical_scroll`, and its
/// last `s` rows are appended, as long as the image stays within
/// `options.max_height`. Rows are packed tightly in the original pixel format.
/// Besides the errors this describes, the only other outcome is a failure to
/// allocate the image buffer, which can come only while appending a capture
/// that passed every check, so never before the first capture is accepted.
pub fn stitch_frames(frames: &[Frame], options: &StitchOptions) -> (res: Result<Frame, LongshotError>)
    requires
        reaches_estimate(frames@) ==> options.search_step > 0 && frames@[0].width as int * 7 <= u32::MAX,
    ensures
        frames@.len() == 0 ==> res == Err::<Frame, LongshotError>(LongshotError::NoFrames),
        frames@.len() > 0 && stitch_state(frames@, *options, 1) is Err
            ==> res == Err::<Frame, LongshotError>(stitch_state(frames@, *options, 1)->Err_0),
        frames@.len() > 0 && (res matches Err(LongshotError::AllocationError(_))) ==> exists|j: nat|
            1 <= j <= frames@.len() && #[trigger] stitch_state(frames@, *options, j) is Ok
                && forall|i: nat| 1 <= i <= j ==> #[trigger] stitch_state(frames@, *options, i) is Ok,
        frames@.len() > 0 && !(res matches Err(LongshotError::AllocationError(_))) ==> {
            match stitch_state(frames@, *options, frames@.len() as nat) {
                Err(e) => res == Err::<Frame, LongshotError>(e),
                Ok((total, px)) => res matches Ok(f) && {
                    &&& f.width == frames@[0].width
                    &&& f.height == total
                    &&& f.stride == frames@[0].width * 4
                    &&& f.format == frames@[0].format
                    &&& f.pixels@ == px
                    &&& f.monitor_id == frames@[0].monitor_id
                    &&& f.timestamp_ms == 0
                },
            }
        },
{
    if frames.len() == 0 {
        return Err(LongshotError::NoFrames);
    }
    let ghost fs = frames@;
    let ghost o = *options;
    let n = frames.len();
    let first = &frames[0];
    let width = first.width;
    let frame_height = first.height;
    let format = first.format;
    let stride = match width.checked_mul(4) {
        Some(s) => s,
        None => {
            proof { lemma_state_err_sticks(fs, o, 1, n as nat); }
            return Err(LongshotError::InvalidFrameLayout);
        },
    };
    match validate_frame(first, width, frame_height, format) {
        Ok(()) => {},
        Err(e) => {
            proof { lemma_state_err_sticks(fs, o, 1, n as nat); }
            return Err(e);
        },
    }
    let mut stitched_pixels: Vec<u8> = Vec::new();
    match append_rows(&mut stitched_pixels, first, 0, frame_height, stride) {
        Ok(()) => {},
        Err(e) => {
            proof { lemma_state_ok_prefix(fs, o, 1); }
            return Err(e);
        },
    }
    let mut total_height: u32 = frame_height;
    let mut i: usize = 1;
    while i < n
        invariant
            fs == frames@,
            o == *options,
            n == fs.len(),
            1 <= i <= n,
            reaches_estimate(fs) ==> o.search_step > 0 && fs[0].width as int * 7 <= u32::MAX,
            validate_spec(&fs[0], width, frame_height, format) is None,
            width as int * 4 <= u32::MAX,
            i >= 2 ==> reaches_estimate(fs),
            width == fs[0].width,
            frame_height == fs[0].height,
            format == fs[0].format,
            stride == width * 4,
            stitch_state(fs, o, i as nat) == Ok::<(int, Seq<u8>), LongshotError>((total_height as int, stitched_pixels@)),
            stitch_state(fs, o, 1) is Ok,
        decreases n - i,
    {
        let prev = &frames[i - 1];
        let curr = &frames[i];
        match validate_frame(curr, width, frame_height, format) {
            Ok(()) => {},
            Err(e) => {
                proof { lemma_state_err_sticks(fs, o, (i + 1) as nat, n as nat); }
                return Err(e);
            },
        }
        proof {
            if i == 1 {
                assert(reaches_estimate(fs));
            }
        }
        let shift = match estimate_vertical_scroll(prev, curr, options) {
            Some(s) => s,
            None => {
                proof { lemma_state_err_sticks(fs, o, (i + 1) as nat, n as nat); }
                return Err(LongshotError::AlignmentFailed(i));
            },
        };
        proof {
            assert(is_best_shift(prev, curr, o, shift as int));
            assert(shift <= frame_height);
        }
        let next_height = match total_height.checked_add(shift) {
            Some(h) => h,
            None => {
                proof { lemma_state_err_sticks(fs, o, (i + 1) as nat, n as nat); }
                return Err(LongshotError::MaxHeightExceeded(options.max_height));
            },
        };
        if next_height > options.max_height {
            proof { lemma_state_err_sticks(fs, o, (i + 1) as nat, n as nat); }
            return Err(LongshotError::MaxHeightExceeded(options.max_height));
        }
        let start_row = curr.height - shift;
        match append_rows(&mut stitched_pixels, curr, start_row, shift, stride) {
            Ok(()) => {},
            Err(e) => {
                proof {
                    assert(stitch_state(fs, o, (i + 1) as nat) is Ok);
                    lemma_state_ok_prefix(fs, o, (i + 1) as nat);
                }
                return Err(e);
            },
        }
        total_height = next_height;
        i = i + 1;
    }
    Ok(Frame {
        width,
        height: total_height,
        stride,
        format,
        pixels: stitched_pixels,
        monitor_id: frames[0].monitor_id.clone(),
        timestamp_ms: 0,
    })
}

/// A scroll distance that the search finds lies between one row and the
/// frame height, and comes only from frames of equal size.
pub proof fn lemma_estimate_range(prev: &Frame, next: &Frame, o: StitchOptions)
    ensures
        spec_estimate(prev, next, o) matches Some(s) ==> {
            &&& 1 <= s <= prev.height
            &&& prev.width == next.width
            &&& prev.height == next.height
            &&& is_best_shift(prev, next, o, s as int)
        },
{
    if spec_estimate(prev, next, o) is Some && prev.width == next.width && prev.height == next.height {
        let t = choose|t: int| is_best_shift(prev, next, o, t);
        assert(is_best_shift(prev, next, o, t));
        assert(eligible(prev, next, o, t));
    }
}

/// The image stitched so far is tightly packed: `width * 4` bytes for each
/// of its rows. It is at least one capture tall and, once a second capture
/// has been added, no taller than the limit.
pub proof fn lemma_stitch_shape(frames: Seq<Frame>, o: StitchOptions, i: nat)
    requires
        1 <= i <= frames.len(),
    ensures
        stitch_state(frames, o, i) matches Ok((total, px)) ==> {
            &&& px.len() == total * (frames[0].width * 4)
            &&& frames[0].height <= total <= u32::MAX
            &&& (i >= 2 ==> total <= o.max_height)
        },
    decreases i,
{
    let first = frames[0];
    let w4 = first.width * 4;
    if i <= 1 {
        if stitch_state(frames, o, i) is Ok {
            assert(first.height as int * first.stride as int == first.stride as int * first.height as int) by (nonlinear_arith);
            lemma_rows_len(&first, 0, first.height as nat, w4);
        }
    } else {
        lemma_stitch_shape(frames, o, (i - 1) as nat);
        if stitch_state(frames, o, i) is Ok {
            let prev = frames[i - 2];
            let curr = frames[i - 1];
            lemma_estimate_range(&prev, &curr, o);
            let (total, px) = stitch_state(frames, o, (i - 1) as nat).unwrap();
            let sh = spec_estimate(&prev, &curr, o).unwrap();
            assert(curr.height as int * curr.stride as int == curr.stride as int * curr.height as int) by (nonlinear_arith);
            lemma_rows_len(&curr, curr.height - sh, sh as nat, w4);
            assert((total + sh) * w4 == total * w4 + sh * w4) by (nonlinear_arith);
        }
    }
}

/// Adding captures never changes what was stitched before: the image after
/// `i` captures starts with the image after `j <= i` captures, and the
/// first capture's rows come first.
pub proof fn lemma_stitch_prefix(frames: Seq<Frame>, o: StitchOptions, j: nat, i: nat)
    requires
        1 <= j <= i,
        stitch_state(frames, o, i) is Ok,
    ensures
        stitch_state(frames, o, j) is Ok,
        ({
            let (_, pj) = stitch_state(frames, o, j).unwrap();
            let (_, pi) = stitch_state(frames, o, i).unwrap();
            &&& pj.len() <= pi.len()
            &&& pi.subrange(0, pj.len() as int) == pj
            &&& pj.subrange(0, rows_bytes(&frames[0], 0, frames[0].height as nat, frames[0].width * 4).len() as int)
                == rows_bytes(&frames[0], 0, frames[0].height as nat, frames[0].width * 4)
        }),
    decreases i - j,
{
    if j < i {
        if stitch_state(frames, o, (i - 1) as nat) is Err {
            lemma_state_err_sticks(frames, o, (i - 1) as nat, i);
        }
        lemma_stitch_prefix(frames, o, j, (i - 1) as nat);
        let (_, pm) = stitch_state(frames, o, (i - 1) as nat).unwrap();
        let (_, pi) = stitch_state(frames, o, i).unwrap();
        let (_, pj) = stitch_state(frames, o, j).unwrap();
        assert(pi.subrange(0, pm.len() as int) =~= pm);
        assert(pi.subrange(0, pj.len() as int) =~= pm.subrange(0, pj.len() as int));
    } else {
        lemma_stitch_starts_with_first(frames, o, i);
        let (_, pi) = stitch_state(frames, o, i).unwrap();
        assert(pi.subrange(0, pi.len() as int) =~= pi);
    }
}

/// The stitched image starts with the rows of the first capture.
proof fn lemma_stitch_starts_with_first(frames: Seq<Frame>, o: StitchOptions, i: nat)
    requires
        1 <= i,
        stitch_state(frames, o, i) is Ok,
    ensures
        ({
            let first_rows = rows_bytes(&frames[0], 0, frames[0].height as nat, frames[0].width * 4);
            let (_, pi) = stitch_state(frames, o, i).unwrap();
            &&& first_rows.len() <= pi.len()
            &&& pi.subrange(0, first_rows.len() as int) == first_rows
        }),
    decreases i,
{
    let first_rows = rows_bytes(&frames[0], 0, frames[0].height as nat, frames[0].width * 4);
    if i <= 1 {
        let (_, pi) = stitch_state(frames, o, i).unwrap();
        assert(pi.subrange(0, first_rows.len() as int) =~= first_rows);
    } else {
        if stitch_state(frames, o, (i - 1) as nat) is Err {
            lemma_state_err_sticks(frames, o, (i - 1) as nat, i);
        }
        lemma_stitch_starts_with_first(frames, o, (i - 1) as nat);
        let (_, pm) = stitch_state(frames, o, (i - 1) as nat).unwrap();
        let (_, pi) = stitch_state(frames, o, i).unwrap();
        assert(pi.subrange(0, first_rows.len() as int) =~= pm.subrange(0, first_rows.len() as int));
    }
}

/// The scroll distance found between capture `k - 1` and capture `k`
/// (zero where none is found).
pub open spec fn scroll_at(frames: Seq<Frame>, o: StitchOptions, k: int) -> int {
    match spec_estimate(&frames[k - 1], &frames[k], o) {
        Some(s) => s as int,
        None => 0,
    }
}

/// The scroll distances of captures `1 .. n`, added up.
pub open spec fn scroll_total(frames: Seq<Frame>, o: StitchOptions, n: nat) -> int
    decreases n,
{
    if n <= 1 {
        0
    } else {
        scroll_total(frames, o, (n - 1) as nat) + scroll_at(frames, o, n - 1)
    }
}

/// Every row of the first capture, then the last `s` rows of each further
/// capture of the first `n`, `s` being its scroll distance; each row cut to
/// `width * 4` bytes.
pub open spec fn scrolled_rows(frames: Seq<Frame>, o: StitchOptions, n: nat) -> Seq<u8>
    decreases n,
{
    let w4 = frames[0].width * 4;
    if n <= 1 {
        rows_bytes(&frames[0], 0, frames[0].height as nat, w4)
    } else {
        let s = scroll_at(frames, o, n - 1);
        scrolled_rows(frames, o, (n - 1) as nat) + rows_bytes(&frames[n - 1], frames[0].height - s, s as nat, w4)
    }
}

/// When the first `n` captures stitch, every one of them passed the check,
/// a scroll distance was found between each two neighbours, and the image
/// is the first capture's height plus the sum of those distances tall
/// (within the limit once there are two captures); its bytes are the first
/// capture's rows followed, in order, by the rows that each further capture
/// scrolled into view.
pub proof fn lemma_stitch_closed_form(frames: Seq<Frame>, o: StitchOptions, n: nat)
    requires
        1 <= n <= frames.len(),
        stitch_state(frames, o, n) is Ok,
    ensures
        forall|k: int| 0 <= k < n ==> validate_spec(&#[trigger] frames[k], frames[0].width, frames[0].height,
            frames[0].format) is None,
        forall|k: int| 1 <= k < n ==> #[trigger] spec_estimate(&frames[k - 1], &frames[k], o) is Some,
        stitch_state(frames, o, n) == Ok::<(int, Seq<u8>), LongshotError>(
            (frames[0].height + scroll_total(frames, o, n), scrolled_rows(frames, o, n))),
        n >= 2 ==> frames[0].height + scroll_total(frames, o, n) <= o.max_height,
    decreases n,
{
    if n > 1 {
        assert(stitch_state(frames, o, (n - 1) as nat) is Ok);
        lemma_stitch_closed_form(frames, o, (n - 1) as nat);
        assert(scroll_at(frames, o, n - 1) == spec_estimate(&frames[n - 2], &frames[n - 1], o)->Some_0);
    }
}

} // verus!
