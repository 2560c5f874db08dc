//! Screen-capture data: windows, capture targets, errors, and the portable
//! capture backend used where no platform capture API is available.

use vstd::prelude::*;
use crate::coordinates::DesktopPxRect;
use crate::frame::{Frame, PixelFormat};
use crate::text::{chars_eq_str, chars_of, dec, push_dec, push_str};

verus! {

/// Why a capture failed.
#[derive(Debug)]
pub enum CaptureError {
    DisplayNotFound(String),
    WindowNotFound(isize),
    PlatformError(String),
    AccessDenied(String),
    DeviceLost,
}

/// A top-level window that can be captured.
#[derive(Debug, Clone)]
pub struct WindowInfo {
    /// The native window handle as an integer.
    pub id: isize,
    pub title: String,
    pub class_name: String,
    pub bounds: DesktopPxRect,
    pub is_minimized: bool,
}

/// What to capture.
#[derive(Debug, Clone)]
pub enum CaptureTarget {
    VirtualDesktop,
    Display(String),
    Window(isize),
    Region(DesktopPxRect),
}

/// The capture service of this platform.
#[derive(Debug, Clone, Copy)]
pub struct WindowsCaptureService;

impl WindowsCaptureService {
    pub fn new() -> (s: Self)
        ensures
            s == WindowsCaptureService,
    {
        WindowsCaptureService
    }
}

impl Default for WindowsCaptureService {
    /// The same as `new`.
    fn default() -> (s: Self)
        ensures
            s == WindowsCaptureService,
    {
        WindowsCaptureService::new()
    }
}

pub open spec fn max_u32(a: u32, b: u32) -> u32 {
    if a >= b { a } else { b }
}

/// The portable capture backend: a uniform grey BGRA frame of the
/// rectangle's size, at least 100 by 100 pixels. The frame must fit in a
/// `u32`-sized buffer.
pub fn capture_desktop_rect(rect: DesktopPxRect) -> (res: Result<Frame, CaptureError>)
    requires
        max_u32(rect.width, 100) as int * max_u32(rect.height, 100) as int * 4 <= u32::MAX,
    ensures
        res matches Ok(f) && {
            &&& f.width == max_u32(rect.width, 100)
            &&& f.height == max_u32(rect.height, 100)
            &&& f.stride == f.width * 4
            &&& f.format == PixelFormat::Bgra8
            &&& f.pixels@ == Seq::new((f.width * f.height * 4) as nat, |i: int| 200u8)
            &&& f.monitor_id.is_none()
            &&& f.timestamp_ms == 0
        },
{
    let width = if rect.width >= 100 { rect.width } else { 100 };
    let height = if rect.height >= 100 { rect.height } else { 100 };
    proof {
        assert(width as int * height as int <= u32::MAX) by (nonlinear_arith)
            requires width as int * height as int * 4 <= u32::MAX;
        assert(width as int * 4 <= u32::MAX) by (nonlinear_arith)
            requires width as int * height as int * 4 <= u32::MAX, height >= 100;
    }
    let n: usize = (width * height * 4) as usize;
    let pixels = vec![200u8; n];
    proof {
        assert(pixels@ =~= Seq::new((width * height * 4) as nat, |i: int| 200u8));
    }
    Ok(Frame { width, height, stride: width * 4, format: PixelFormat::Bgra8, pixels, monitor_id: None, timestamp_ms: 0 })
}

/// The bytes of a screen copy with every pixel made opaque: the fourth byte
/// of each pixel set to 255, the others kept.
pub open spec fn opaque_bytes(bits: Seq<u8>) -> Seq<u8> {
    Seq::new(bits.len(), |i: int| if i % 4 == 3 { 255u8 } else { bits[i] })
}

/// The frame of a screen copy of `rect`, whose bytes `bits` hold the
/// rectangle's rows top-down in BGRA order: every pixel is made opaque,
/// since the desktop has no transparency. An empty rectangle is refused
/// before anything is copied, with the text "Invalid capture dimensions:
/// WxH".
pub fn frame_from_screen_copy(rect: DesktopPxRect, bits: Vec<u8>) -> (res: Result<Frame, CaptureError>)
    requires
        rect.width != 0 && rect.height != 0 ==> rect.width as int * rect.height as int * 4 <= u32::MAX
            && bits@.len() == rect.width as int * rect.height as int * 4,
    ensures
        (rect.width == 0 || rect.height == 0) ==> (res matches Err(CaptureError::PlatformError(m))
            && m@ == "Invalid capture dimensions: "@ + dec(rect.width as nat) + "x"@ + dec(rect.height as nat)),
        (rect.width != 0 && rect.height != 0) ==> (res matches Ok(f) && {
            &&& f.width == rect.width
            &&& f.height == rect.height
            &&& f.stride == rect.width * 4
            &&& f.format == PixelFormat::Bgra8
            &&& f.pixels@ == opaque_bytes(bits@)
            &&& f.monitor_id.is_none()
            &&& f.timestamp_ms == 0
        }),
{
    if rect.width == 0 || rect.height == 0 {
        let mut m = String::new();
        push_str(&mut m, "Invalid capture dimensions: ");
        push_dec(&mut m, rect.width as u64);
        push_str(&mut m, "x");
        push_dec(&mut m, rect.height as u64);
        return Err(CaptureError::PlatformError(m));
    }
    proof {
        assert(rect.width as int * 4 <= u32::MAX) by (nonlinear_arith)
            requires rect.width as int * rect.height as int * 4 <= u32::MAX, rect.height >= 1;
    }
    let mut pixels = bits;
    let ghost original = pixels@;
    let n = pixels.len();
    let mut i: usize = 0;
    while i < n
        invariant
            n == original.len(),
            pixels@.len() == n,
            i <= n,
            forall|k: int| 0 <= k < i ==> #[trigger] pixels@[k] == opaque_bytes(original)[k],
            forall|k: int| i <= k < n ==> #[trigger] pixels@[k] == original[k],
        decreases n - i,
    {
        if i % 4 == 3 {
            pixels.set(i, 255);
        }
        i = i + 1;
    }
    proof {
        assert(pixels@ =~= opaque_bytes(original));
    }
    Ok(Frame {
        width: rect.width,
        height: rect.height,
        stride: rect.width * 4,
        format: PixelFormat::Bgra8,
        pixels,
        monitor_id: None,
        timestamp_ms: 0,
    })
}

/// Window enumeration of the portable backend: there are no windows to offer.
pub fn enumerate_windows() -> (res: Result<Vec<WindowInfo>, CaptureError>)
    ensures
        res matches Ok(v) && v@.len() == 0,
{
    Ok(Vec::new())
}

pub open spec fn min_seq_x(bs: Seq<DesktopPxRect>, n: nat) -> int
    decreases n,
{
    if n <= 1 { bs[0].x as int } else {
        let m = min_seq_x(bs, (n - 1) as nat);
        if bs[n - 1].x < m { bs[n - 1].x as int } else { m }
    }
}

pub open spec fn min_seq_y(bs: Seq<DesktopPxRect>, n: nat) -> int
    decreases n,
{
    if n <= 1 { bs[0].y as int } else {
        let m = min_seq_y(bs, (n - 1) as nat);
        if bs[n - 1].y < m { bs[n - 1].y as int } else { m }
    }
}

pub open spec fn max_seq_right(bs: Seq<DesktopPxRect>, n: nat) -> int
    decreases n,
{
    if n <= 1 { bs[0].spec_right() } else {
        let m = max_seq_right(bs, (n - 1) as nat);
        if bs[n - 1].spec_right() > m { bs[n - 1].spec_right() } else { m }
    }
}

pub open spec fn max_seq_bottom(bs: Seq<DesktopPxRect>, n: nat) -> int
    decreases n,
{
    if n <= 1 { bs[0].spec_bottom() } else {
        let m = max_seq_bottom(bs, (n - 1) as nat);
        if bs[n - 1].spec_bottom() > m { bs[n - 1].spec_bottom() } else { m }
    }
}

/// The rectangle spanned by all displays: from the least left and top edges
/// to the greatest right and bottom edges, at least one pixel in each
/// direction; a 1920 by 1080 desktop when there are no displays. The spans
/// must fit in an `i32`.
pub fn get_virtual_desktop_bounds(bounds: &[DesktopPxRect]) -> (r: DesktopPxRect)
    requires
        bounds@.len() > 0 ==> max_seq_right(bounds@, bounds@.len() as nat) - min_seq_x(bounds@, bounds@.len() as nat) <= i32::MAX,
        bounds@.len() > 0 ==> max_seq_bottom(bounds@, bounds@.len() as nat) - min_seq_y(bounds@, bounds@.len() as nat) <= i32::MAX,
    ensures
        bounds@.len() == 0 ==> r == (DesktopPxRect { x: 0, y: 0, width: 1920, height: 1080 }),
        bounds@.len() > 0 ==> {
            let n = bounds@.len() as nat;
            let w = max_seq_right(bounds@, n) - min_seq_x(bounds@, n);
            let h = max_seq_bottom(bounds@, n) - min_seq_y(bounds@, n);
            &&& r.x == min_seq_x(bounds@, n)
            &&& r.y == min_seq_y(bounds@, n)
            &&& r.width == (if w >= 1 { w } else { 1 })
            &&& r.height == (if h >= 1 { h } else { 1 })
        },
{
    if bounds.len() == 0 {
        return DesktopPxRect::new(0, 0, 1920, 1080);
    }
    let mut min_x = bounds[0].x;
    let mut min_y = bounds[0].y;
    let mut max_x = bounds[0].right();
    let mut max_y = bounds[0].bottom();
    let mut i: usize = 1;
    while i < bounds.len()
        invariant
            1 <= i <= bounds@.len(),
            min_x == min_seq_x(bounds@, i as nat),
            min_y == min_seq_y(bounds@, i as nat),
            max_x == max_seq_right(bounds@, i as nat),
            max_y == max_seq_bottom(bounds@, i as nat),
        decreases bounds@.len() - i,
    {
        let b = bounds[i];
        if b.x < min_x { min_x = b.x; }
        if b.y < min_y { min_y = b.y; }
        let r = b.right();
        if r > max_x { max_x = r; }
        let bt = b.bottom();
        if bt > max_y { max_y = bt; }
        i = i + 1;
    }
    let w: i32 = max_x - min_x;
    let h: i32 = max_y - min_y;
    let w1: i32 = if w >= 1 { w } else { 1 };
    let h1: i32 = if h >= 1 { h } else { 1 };
    DesktopPxRect::new(min_x, min_y, w1 as u32, h1 as u32)
}

/// The rectangle spanned by all displays (see `get_virtual_desktop_bounds`),
/// or `None` where its width or height would not fit in an `i32`.
pub fn try_virtual_desktop_bounds(bounds: &[DesktopPxRect]) -> (r: Option<DesktopPxRect>)
    ensures
        bounds@.len() == 0 ==> r == Some(DesktopPxRect { x: 0, y: 0, width: 1920, height: 1080 }),
        bounds@.len() > 0 ==> {
            let n = bounds@.len() as nat;
            let w = max_seq_right(bounds@, n) - min_seq_x(bounds@, n);
            let h = max_seq_bottom(bounds@, n) - min_seq_y(bounds@, n);
            &&& (w > i32::MAX || h > i32::MAX) ==> r is None
            &&& !(w > i32::MAX || h > i32::MAX) ==> (r matches Some(b) && {
                &&& b.x == min_seq_x(bounds@, n)
                &&& b.y == min_seq_y(bounds@, n)
                &&& b.width == (if w >= 1 { w } else { 1 })
                &&& b.height == (if h >= 1 { h } else { 1 })
            })
        },
{
    if bounds.len() == 0 {
        return Some(get_virtual_desktop_bounds(bounds));
    }
    let mut min_x = bounds[0].x;
    let mut min_y = bounds[0].y;
    let mut max_x = bounds[0].right();
    let mut max_y = bounds[0].bottom();
    let mut i: usize = 1;
    while i < bounds.len()
        invariant
            1 <= i <= bounds@.len(),
            min_x == min_seq_x(bounds@, i as nat),
            min_y == min_seq_y(bounds@, i as nat),
            max_x == max_seq_right(bounds@, i as nat),
            max_y == max_seq_bottom(bounds@, i as nat),
        decreases bounds@.len() - i,
    {
        let b = bounds[i];
        if b.x < min_x { min_x = b.x; }
        if b.y < min_y { min_y = b.y; }
        let r = b.right();
        if r > max_x { max_x = r; }
        let bt = b.bottom();
        if bt > max_y { max_y = bt; }
        i = i + 1;
    }
    if max_x as i64 - min_x as i64 > i32::MAX as i64 || max_y as i64 - min_y as i64 > i32::MAX as i64 {
        return None;
    }
    Some(get_virtual_desktop_bounds(bounds))
}

/// A display's identifier and the desktop area it shows.
#[derive(Debug, Clone)]
pub struct DisplayArea {
    pub id: String,
    pub bounds: DesktopPxRect,
}

/// The area of the first display with the given identifier; a missing
/// display is reported with the identifier.
pub fn find_display_bounds(displays: &[DisplayArea], id: &str) -> (r: Result<DesktopPxRect, CaptureError>)
    ensures
        (exists|i: int| 0 <= i < displays@.len() && (#[trigger] displays@[i]).id@ == id@) ==> (r matches Ok(b)
            && exists|i: int| {
                &&& 0 <= i < displays@.len()
                &&& (#[trigger] displays@[i]).id@ == id@
                &&& b == displays@[i].bounds
                &&& forall|j: int| 0 <= j < i ==> displays@[j].id@ != id@
            }),
        !(exists|i: int| 0 <= i < displays@.len() && (#[trigger] displays@[i]).id@ == id@) ==> (r matches Err(
            CaptureError::DisplayNotFound(s),
        ) && s@ == id@),
{
    let mut i: usize = 0;
    while i < displays.len()
        invariant
            i <= displays@.len(),
            forall|j: int| 0 <= j < i ==> (#[trigger] displays@[j]).id@ != id@,
        decreases displays@.len() - i,
    {
        let v = chars_of(displays[i].id.as_str());
        if chars_eq_str(&v, id) {
            return Ok(displays[i].bounds);
        }
        i = i + 1;
    }
    let mut s = String::new();
    push_str(&mut s, id);
    Err(CaptureError::DisplayNotFound(s))
}

/// The area of the first window with the given handle; a missing window is
/// reported with the handle.
pub fn find_window_bounds(windows: &[WindowInfo], id: isize) -> (r: Result<DesktopPxRect, CaptureError>)
    ensures
        (exists|i: int| 0 <= i < windows@.len() && (#[trigger] windows@[i]).id == id) ==> (r matches Ok(b)
            && exists|i: int| {
                &&& 0 <= i < windows@.len()
                &&& (#[trigger] windows@[i]).id == id
                &&& b == windows@[i].bounds
                &&& forall|j: int| 0 <= j < i ==> windows@[j].id != id
            }),
        !(exists|i: int| 0 <= i < windows@.len() && (#[trigger] windows@[i]).id == id) ==> (r matches Err(
            CaptureError::WindowNotFound(h),
        ) && h == id),
{
    let mut i: usize = 0;
    while i < windows.len()
        invariant
            i <= windows@.len(),
            forall|j: int| 0 <= j < i ==> (#[trigger] windows@[j]).id != id,
        decreases windows@.len() - i,
    {
        if windows[i].id == id {
            return Ok(windows[i].bounds);
        }
        i = i + 1;
    }
    Err(CaptureError::WindowNotFound(id))
}

} // verus!
