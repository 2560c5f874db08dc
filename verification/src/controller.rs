//! Decisions of the capture workflow: the selection dragged on the screen,
//! the part of it each monitor shows, the image it selects, the editor's
//! colour input, and the pacing and result of a long-screenshot recording.

use vstd::prelude::*;
use vstd::utf8::{encode_utf8, is_char_boundary};
use crate::color::ColorRgba;
use crate::coordinates::{
    desktop_rect_to_image_rect, max_int, min_int, spec_local_clamped, DesktopPxPoint, DesktopPxRect,
};
use crate::encode::{trim_leading, trim_leading_str};
use crate::frame::Frame;
use crate::stitcher::LongshotError;

verus! {

/// The selection spanned by the point where the drag started and the point
/// where the pointer is now: at least one pixel in each direction.
pub open spec fn spec_selection(start: DesktopPxPoint, end: DesktopPxPoint) -> DesktopPxRect {
    let w = max_int(start.x as int, end.x as int) - min_int(start.x as int, end.x as int);
    let h = max_int(start.y as int, end.y as int) - min_int(start.y as int, end.y as int);
    DesktopPxRect {
        x: min_int(start.x as int, end.x as int) as i32,
        y: min_int(start.y as int, end.y as int) as i32,
        width: (if w >= 1 { w } else { 1 }) as u32,
        height: (if h >= 1 { h } else { 1 }) as u32,
    }
}

/// The selection between two points. The span in each direction must fit
/// in an `i32`.
pub fn selection_from_points(start: DesktopPxPoint, end: DesktopPxPoint) -> (r: DesktopPxRect)
    requires
        max_int(start.x as int, end.x as int) - min_int(start.x as int, end.x as int) <= i32::MAX,
        max_int(start.y as int, end.y as int) - min_int(start.y as int, end.y as int) <= i32::MAX,
    ensures
        r == spec_selection(start, end),
{
    let mut selection = DesktopPxRect::normalize(start, end);
    if selection.width < 1 {
        selection.width = 1;
    }
    if selection.height < 1 {
        selection.height = 1;
    }
    selection
}

/// The part of a selection that a monitor shows, as its left, top, right and
/// bottom edges on the desktop, or `None` where they do not overlap.
pub open spec fn spec_monitor_selection(selection: DesktopPxRect, monitor: DesktopPxRect) -> Option<(i32, i32, i32, i32)> {
    let x = max_int(selection.x as int, monitor.x as int);
    let y = max_int(selection.y as int, monitor.y as int);
    let right = min_int(selection.spec_right(), monitor.spec_right());
    let bottom = min_int(selection.spec_bottom(), monitor.spec_bottom());
    if right <= x || bottom <= y {
        None
    } else {
        Some((x as i32, y as i32, right as i32, bottom as i32))
    }
}

/// Whether the point `(px, py)` lies in the half-open rectangle `r`.
pub open spec fn covers(r: DesktopPxRect, px: int, py: int) -> bool {
    r.x <= px < r.spec_right() && r.y <= py < r.spec_bottom()
}

/// The part of a selection a monitor shows is exactly where the two overlap:
/// a point lies in the part if and only if it lies in the selection and on
/// the monitor, so the part's edges lie inside both rectangles; where the
/// two do not overlap there is no part.
pub proof fn lemma_monitor_selection_is_overlap(selection: DesktopPxRect, monitor: DesktopPxRect, px: int, py: int)
    ensures
        match spec_monitor_selection(selection, monitor) {
            Some((x, y, right, bottom)) => {
                &&& (x <= px < right && y <= py < bottom) <==> (covers(selection, px, py) && covers(monitor, px, py))
                &&& selection.x <= x && monitor.x <= x
                &&& selection.y <= y && monitor.y <= y
                &&& right <= selection.spec_right() && right <= monitor.spec_right()
                &&& bottom <= selection.spec_bottom() && bottom <= monitor.spec_bottom()
                &&& x < right && y < bottom
            },
            None => !(covers(selection, px, py) && covers(monitor, px, py)),
        },
{
    let left_edge = max_int(selection.x as int, monitor.x as int);
    let top_edge = max_int(selection.y as int, monitor.y as int);
    let right_edge = min_int(selection.spec_right(), monitor.spec_right());
    let bottom_edge = min_int(selection.spec_bottom(), monitor.spec_bottom());
    assert(i32::MIN <= right_edge <= i32::MAX);
    assert(i32::MIN <= bottom_edge <= i32::MAX);
    assert((left_edge as i32) as int == left_edge);
    assert((top_edge as i32) as int == top_edge);
    assert((right_edge as i32) as int == right_edge);
    assert((bottom_edge as i32) as int == bottom_edge);
}

/// The part of a selection that a monitor shows.
pub fn monitor_selection(selection: DesktopPxRect, monitor: DesktopPxRect) -> (r: Option<(i32, i32, i32, i32)>)
    ensures
        r == spec_monitor_selection(selection, monitor),
{
    let x = if selection.x >= monitor.x { selection.x } else { monitor.x };
    let y = if selection.y >= monitor.y { selection.y } else { monitor.y };
    let sr = selection.right();
    let mr = monitor.right();
    let sb = selection.bottom();
    let mb = monitor.bottom();
    let right = if sr <= mr { sr } else { mr };
    let bottom = if sb <= mb { sb } else { mb };
    if right <= x || bottom <= y {
        None
    } else {
        Some((x, y, right, bottom))
    }
}

/// The image that a selection picks out of the frame captured at `origin`:
/// nothing without a selection or a frame, for an empty selection, or where
/// the selection does not map to a usable part of the frame; otherwise the
/// frame cropped to the selection (see `Frame::crop`).
pub fn selected_subframe(frame: Option<&Frame>, origin: DesktopPxPoint, selection: Option<DesktopPxRect>) -> (r: Option<Frame>)
    requires
        match (frame, selection) {
            (Some(f), Some(s)) => (s.width != 0 && s.height != 0) ==> {
                let c = spec_local_clamped(s, origin, f.width, f.height);
                &&& i32::MIN <= s.x - origin.x <= i32::MAX
                &&& i32::MIN <= s.y - origin.y <= i32::MAX
                &&& (s.x >= origin.x && s.y >= origin.y && c.width != 0 && c.height != 0) ==> f.crop_readable(c)
            },
            _ => true,
        },
    ensures
        match (frame, selection) {
            (Some(f), Some(s)) => {
                let c = spec_local_clamped(s, origin, f.width, f.height);
                if s.width == 0 || s.height == 0 || s.x < origin.x || s.y < origin.y || c.width == 0 || c.height == 0 {
                    r is None
                } else {
                    r matches Some(g) && f.is_crop_of(c, g)
                }
            },
            _ => r is None,
        },
{
    let s = match selection {
        Some(s) => s,
        None => return None,
    };
    if s.width == 0 || s.height == 0 {
        return None;
    }
    let f = match frame {
        Some(f) => f,
        None => return None,
    };
    let image_rect = match desktop_rect_to_image_rect(s, origin, f.width, f.height) {
        Ok(r) => r,
        Err(_) => return None,
    };
    proof { image_rect.lemma_clamp_idempotent(f.width, f.height); }
    match f.crop(image_rect) {
        Ok(g) => Some(g),
        Err(_) => None,
    }
}

/// The value of an ASCII hexadecimal digit.
pub open spec fn hex_digit_value(b: u8) -> Option<int> {
    if 0x30 <= b <= 0x39 {
        Some(b - 0x30)
    } else if 0x41 <= b <= 0x46 {
        Some(b - 0x41 + 10)
    } else if 0x61 <= b <= 0x66 {
        Some(b - 0x61 + 10)
    } else {
        None
    }
}

/// What `u8::from_str_radix(text, 16).unwrap_or(0)` gives for a two-byte
/// text: an optional `+` and then hexadecimal digits, else 0.
pub open spec fn hex_pair(b0: u8, b1: u8) -> u8 {
    if b0 == 0x2b {
        match hex_digit_value(b1) {
            Some(v) => v as u8,
            None => 0,
        }
    } else {
        match (hex_digit_value(b0), hex_digit_value(b1)) {
            (Some(a), Some(b)) => (a * 16 + b) as u8,
            _ => 0,
        }
    }
}

/// The colour the editor takes from a colour text: after any leading `#`,
/// six bytes read as three two-byte hexadecimal fields; any other length
/// gives the default red.
pub open spec fn spec_color_from_hex(value: Seq<char>) -> ColorRgba {
    let t = encode_utf8(trim_leading(value, '#'));
    if t.len() == 6 {
        ColorRgba { r: hex_pair(t[0], t[1]), g: hex_pair(t[2], t[3]), b: hex_pair(t[4], t[5]), a: 255 }
    } else {
        ColorRgba { r: 255, g: 59, b: 48, a: 255 }
    }
}

fn hex_digit(b: u8) -> (r: Option<u8>)
    ensures
        match hex_digit_value(b) {
            Some(v) => r == Some(v as u8),
            None => r is None,
        },
{
    if 0x30 <= b && b <= 0x39 {
        Some(b - 0x30)
    } else if 0x41 <= b && b <= 0x46 {
        Some(b - 0x41 + 10)
    } else if 0x61 <= b && b <= 0x66 {
        Some(b - 0x61 + 10)
    } else {
        None
    }
}

fn parse_hex_pair(b0: u8, b1: u8) -> (r: u8)
    ensures
        r == hex_pair(b0, b1),
{
    if b0 == 0x2b {
        match hex_digit(b1) {
            Some(v) => v,
            None => 0,
        }
    } else {
        match (hex_digit(b0), hex_digit(b1)) {
            (Some(a), Some(b)) => a * 16 + b,
            _ => 0,
        }
    }
}

/// The colour named by a colour text such as `#FF3B30` (see
/// `spec_color_from_hex`). A six-byte text must split into its three
/// two-byte fields at character boundaries.
pub fn color_from_hex(value: &str) -> (c: ColorRgba)
    requires
        encode_utf8(trim_leading(value@, '#')).len() == 6 ==> {
            &&& is_char_boundary(encode_utf8(trim_leading(value@, '#')), 2)
            &&& is_char_boundary(encode_utf8(trim_leading(value@, '#')), 4)
        },
    ensures
        c == spec_color_from_hex(value@),
{
    let t = trim_leading_str(value, '#');
    let bytes = t.as_str().as_bytes();
    if bytes.len() == 6 {
        let r = parse_hex_pair(bytes[0], bytes[1]);
        let g = parse_hex_pair(bytes[2], bytes[3]);
        let b = parse_hex_pair(bytes[4], bytes[5]);
        return ColorRgba::rgb(r, g, b);
    }
    ColorRgba::rgb(255, 59, 48)
}

/// Most captures a long-screenshot recording takes.
pub const LONGSHOT_MAX_FRAMES: usize = 300;
/// Tallest stitched long screenshot, in pixels.
pub const LONGSHOT_MAX_HEIGHT: u32 = 30000;
/// Longest recording, in seconds.
pub const LONGSHOT_MAX_DURATION_SECS: u64 = 300;

/// What to do when the user asks for another capture of a recording.
#[derive(Debug, Clone, Copy, PartialEq, Eq, Structural)]
pub enum CaptureStep {
    /// The recording holds as many captures as allowed.
    FrameLimitReached,
    /// The recording has run as long as allowed.
    TimeLimitReached,
    /// Capture this region.
    Capture(DesktopPxRect),
}

/// The next step of a recording with `frame_count` captures that has run
/// for `elapsed_secs` whole seconds: the frame limit is checked first, then
/// the time limit.
pub fn next_capture_step(frame_count: usize, elapsed_secs: u64, target: DesktopPxRect) -> (s: CaptureStep)
    ensures
        frame_count >= LONGSHOT_MAX_FRAMES ==> s == CaptureStep::FrameLimitReached,
        frame_count < LONGSHOT_MAX_FRAMES && elapsed_secs >= LONGSHOT_MAX_DURATION_SECS ==> s
            == CaptureStep::TimeLimitReached,
        frame_count < LONGSHOT_MAX_FRAMES && elapsed_secs < LONGSHOT_MAX_DURATION_SECS ==> s
            == CaptureStep::Capture(target),
{
    if frame_count >= LONGSHOT_MAX_FRAMES {
        CaptureStep::FrameLimitReached
    } else if elapsed_secs >= LONGSHOT_MAX_DURATION_SECS {
        CaptureStep::TimeLimitReached
    } else {
        CaptureStep::Capture(target)
    }
}

/// What the recording window shows after a capture was kept.
#[derive(Debug, Clone, Copy, PartialEq, Eq, Structural)]
pub struct LongshotProgress {
    pub frame_count: usize,
    /// Captures times the region height (the count taken modulo 2^32),
    /// saturated to `u32`.
    pub captured_height: u32,
    /// Stitching needs at least two captures.
    pub can_finish: bool,
}

/// The progress shown for `frame_count` captures of a region
/// `target_height` pixels tall.
pub fn longshot_progress(frame_count: usize, target_height: u32) -> (p: LongshotProgress)
    ensures
        p.frame_count == frame_count,
        p.captured_height == ({
            let v = (frame_count as int % 0x1_0000_0000) * target_height as int;
            if v > u32::MAX { u32::MAX as int } else { v }
        }),
        p.can_finish == (frame_count >= 2),
{
    let n: u32 = (frame_count as u64 % 0x1_0000_0000) as u32;
    proof { crate::arith::lemma_mul_u32_bound(n as int, target_height as int); }
    let product: u64 = n as u64 * target_height as u64;
    let captured_height: u32 = if product > u32::MAX as u64 { u32::MAX } else { product as u32 };
    LongshotProgress {
        frame_count,
        captured_height,
        can_finish: frame_count >= 2,
    }
}

/// `a` holds the same image as `b`: the same size, layout, format, bytes,
/// monitor and time.
pub open spec fn same_frame(a: Frame, b: Frame) -> bool {
    &&& a.width == b.width
    &&& a.height == b.height
    &&& a.stride == b.stride
    &&& a.format == b.format
    &&& a.pixels@ == b.pixels@
    &&& a.monitor_id == b.monitor_id
    &&& a.timestamp_ms == b.timestamp_ms
}

fn copy_frame(f: &Frame) -> (g: Frame)
    ensures
        same_frame(g, *f),
{
    let pixels = f.pixels.clone();
    proof {
        assert(pixels@ =~= f.pixels@);
    }
    let monitor_id = match &f.monitor_id {
        Some(m) => Some(m.clone()),
        None => None,
    };
    Frame {
        width: f.width,
        height: f.height,
        stride: f.stride,
        format: f.format,
        pixels,
        monitor_id,
        timestamp_ms: f.timestamp_ms,
    }
}

/// The image a finished recording leaves for copying or saving: the stitched
/// image where stitching succeeded; otherwise a copy of the last capture, or
/// nothing where there was no capture.
pub fn kept_longshot_result(outcome: Result<Frame, LongshotError>, frames: &[Frame]) -> (r: Option<Frame>)
    ensures
        outcome is Ok ==> r == Some(outcome->Ok_0),
        outcome is Err && frames@.len() == 0 ==> r is None,
        outcome is Err && frames@.len() > 0 ==> (r matches Some(g) && same_frame(g, frames@.last())),
{
    match outcome {
        Ok(f) => Some(f),
        Err(_) => {
            if frames.len() == 0 {
                None
            } else {
                Some(copy_frame(&frames[frames.len() - 1]))
            }
        },
    }
}

} // verus!
