//! Strongly typed points and rectangles of the three pixel coordinate spaces:
//! the virtual desktop, one monitor, and a captured image.

use vstd::prelude::*;
use crate::error::DomainError;
use crate::text::{dec_int, push_dec_i64, push_str};

verus! {

/// The value of a `u32` reinterpreted as an `i32` (two's complement).
pub open spec fn u32_as_i32(w: u32) -> int {
    if w <= 0x7fff_ffff { w as int } else { w as int - 0x1_0000_0000 }
}

/// `v` clamped into the range of `i32`.
pub open spec fn sat_i32(v: int) -> int {
    if v > i32::MAX { i32::MAX as int } else if v < i32::MIN { i32::MIN as int } else { v }
}

/// `v` clamped into the range of `u32`.
pub open spec fn sat_u32(v: int) -> int {
    if v > u32::MAX { u32::MAX as int } else if v < 0 { 0 } else { v }
}

pub open spec fn min_int(a: int, b: int) -> int {
    if a <= b { a } else { b }
}

pub open spec fn max_int(a: int, b: int) -> int {
    if a >= b { a } else { b }
}

fn reinterpret_u32(w: u32) -> (r: i32)
    ensures
        r as int == u32_as_i32(w),
{
    if w <= 0x7fff_ffff {
        w as i32
    } else {
        let low: i32 = (w - 0x8000_0000u32) as i32;
        low + i32::MIN
    }
}

fn saturating_add_i32(a: i32, b: i32) -> (r: i32)
    ensures
        r as int == sat_i32(a + b),
{
    let s: i64 = a as i64 + b as i64;
    if s > i32::MAX as i64 {
        i32::MAX
    } else if s < i32::MIN as i64 {
        i32::MIN
    } else {
        s as i32
    }
}

/// Windows virtual desktop coordinate in physical pixels (can be negative on
/// multi-monitor setups).
#[derive(Debug, Clone, Copy, PartialEq, Eq, Structural, Hash, Default)]
pub struct DesktopPxPoint {
    pub x: i32,
    pub y: i32,
}

impl DesktopPxPoint {
    pub fn new(x: i32, y: i32) -> (p: Self)
        ensures
            p.x == x,
            p.y == y,
    {
        Self { x, y }
    }
}

/// Rectangle on the Windows virtual desktop in physical pixels.
#[derive(Debug, Clone, Copy, PartialEq, Eq, Structural, Default)]
pub struct DesktopPxRect {
    pub x: i32,
    pub y: i32,
    pub width: u32,
    pub height: u32,
}

impl DesktopPxRect {
    /// Right edge (exclusive): `x + width`, with the width read as `i32` and
    /// the sum saturated to the `i32` range.
    pub open spec fn spec_right(self) -> int {
        sat_i32(self.x + u32_as_i32(self.width))
    }

    /// Bottom edge (exclusive), computed like `spec_right`.
    pub open spec fn spec_bottom(self) -> int {
        sat_i32(self.y + u32_as_i32(self.height))
    }

    /// Whether a point lies in the half-open rectangle.
    pub open spec fn spec_contains(self, pt: DesktopPxPoint) -> bool {
        self.x <= pt.x < self.spec_right() && self.y <= pt.y < self.spec_bottom()
    }

    /// Whether two half-open rectangles overlap.
    pub open spec fn spec_intersects(self, other: Self) -> bool {
        &&& self.x < other.spec_right()
        &&& self.spec_right() > other.x
        &&& self.y < other.spec_bottom()
        &&& self.spec_bottom() > other.y
    }

    pub fn new(x: i32, y: i32, width: u32, height: u32) -> (r: Self)
        ensures
            r.x == x,
            r.y == y,
            r.width == width,
            r.height == height,
    {
        Self { x, y, width, height }
    }

    pub fn right(&self) -> (r: i32)
        ensures
            r as int == self.spec_right(),
    {
        saturating_add_i32(self.x, reinterpret_u32(self.width))
    }

    pub fn bottom(&self) -> (r: i32)
        ensures
            r as int == self.spec_bottom(),
    {
        saturating_add_i32(self.y, reinterpret_u32(self.height))
    }

    pub fn contains(&self, pt: DesktopPxPoint) -> (b: bool)
        ensures
            b == self.spec_contains(pt),
    {
        pt.x >= self.x && pt.x < self.right() && pt.y >= self.y && pt.y < self.bottom()
    }

    pub fn intersects(&self, other: &Self) -> (b: bool)
        ensures
            b == self.spec_intersects(*other),
    {
        self.x < other.right() && self.right() > other.x && self.y < other.bottom()
            && self.bottom() > other.y
    }

    /// The smallest rectangle spanned by two corner points, in either order.
    /// The span in each direction must fit in an `i32`.
    pub fn normalize(p1: DesktopPxPoint, p2: DesktopPxPoint) -> (r: Self)
        requires
            max_int(p1.x as int, p2.x as int) - min_int(p1.x as int, p2.x as int) <= i32::MAX,
            max_int(p1.y as int, p2.y as int) - min_int(p1.y as int, p2.y as int) <= i32::MAX,
        ensures
            r.x == min_int(p1.x as int, p2.x as int),
            r.y == min_int(p1.y as int, p2.y as int),
            r.width == max_int(p1.x as int, p2.x as int) - min_int(p1.x as int, p2.x as int),
            r.height == max_int(p1.y as int, p2.y as int) - min_int(p1.y as int, p2.y as int),
    {
        let min_x = if p1.x <= p2.x { p1.x } else { p2.x };
        let min_y = if p1.y <= p2.y { p1.y } else { p2.y };
        let max_x = if p1.x >= p2.x { p1.x } else { p2.x };
        let max_y = if p1.y >= p2.y { p1.y } else { p2.y };
        Self {
            x: min_x,
            y: min_y,
            width: (max_x - min_x) as u32,
            height: (max_y - min_y) as u32,
        }
    }
}

/// The rectangle spanned by two corners does not depend on their order, and
/// reaches from the smaller to the larger coordinate in each direction: it
/// contains its top-left corner unless it is empty.
pub proof fn lemma_normalize_corners(p1: DesktopPxPoint, p2: DesktopPxPoint, r: DesktopPxRect)
    requires
        max_int(p1.x as int, p2.x as int) - min_int(p1.x as int, p2.x as int) <= i32::MAX,
        max_int(p1.y as int, p2.y as int) - min_int(p1.y as int, p2.y as int) <= i32::MAX,
        r.x == min_int(p1.x as int, p2.x as int),
        r.y == min_int(p1.y as int, p2.y as int),
        r.width == max_int(p1.x as int, p2.x as int) - min_int(p1.x as int, p2.x as int),
        r.height == max_int(p1.y as int, p2.y as int) - min_int(p1.y as int, p2.y as int),
    ensures
        r.x == min_int(p2.x as int, p1.x as int),
        r.y == min_int(p2.y as int, p1.y as int),
        r.width == max_int(p2.x as int, p1.x as int) - min_int(p2.x as int, p1.x as int),
        r.height == max_int(p2.y as int, p1.y as int) - min_int(p2.y as int, p1.y as int),
        r.spec_right() == max_int(p1.x as int, p2.x as int),
        r.spec_bottom() == max_int(p1.y as int, p2.y as int),
        (r.width > 0 && r.height > 0) ==> r.spec_contains(DesktopPxPoint { x: r.x, y: r.y }),
{
}

/// Coordinate relative to a specific monitor's origin in physical pixels.
#[derive(Debug, Clone, Copy, PartialEq, Eq, Structural, Hash, Default)]
pub struct MonitorPxPoint {
    pub x: i32,
    pub y: i32,
}

impl MonitorPxPoint {
    pub fn new(x: i32, y: i32) -> (p: Self)
        ensures
            p.x == x,
            p.y == y,
    {
        Self { x, y }
    }
}

/// Rectangle relative to a specific monitor in physical pixels.
#[derive(Debug, Clone, Copy, PartialEq, Eq, Structural, Default)]
pub struct MonitorPxRect {
    pub x: i32,
    pub y: i32,
    pub width: u32,
    pub height: u32,
}

impl MonitorPxRect {
    pub fn new(x: i32, y: i32, width: u32, height: u32) -> (r: Self)
        ensures
            r.x == x,
            r.y == y,
            r.width == width,
            r.height == height,
    {
        Self { x, y, width, height }
    }
}

/// Coordinate relative to a captured image's top-left (0, 0) in pixels.
#[derive(Debug, Clone, Copy, PartialEq, Eq, Structural, Hash, Default)]
pub struct ImagePxPoint {
    pub x: u32,
    pub y: u32,
}

impl ImagePxPoint {
    pub fn new(x: u32, y: u32) -> (p: Self)
        ensures
            p.x == x,
            p.y == y,
    {
        Self { x, y }
    }
}

/// Rectangle inside a captured image.
#[derive(Debug, Clone, Copy, PartialEq, Eq, Structural, Default)]
pub struct ImagePxRect {
    pub x: u32,
    pub y: u32,
    pub width: u32,
    pub height: u32,
}

impl ImagePxRect {
    /// Right edge (exclusive), saturated to the `u32` range.
    pub open spec fn spec_right(self) -> int {
        sat_u32(self.x + self.width)
    }

    /// Bottom edge (exclusive), saturated to the `u32` range.
    pub open spec fn spec_bottom(self) -> int {
        sat_u32(self.y + self.height)
    }

    /// The rectangle cut down to an image of the given size: the origin is
    /// moved inside the image and the extent shortened to end at its border.
    pub open spec fn spec_clamp_to(self, max_width: u32, max_height: u32) -> ImagePxRect {
        let x = min_int(self.x as int, max_width as int);
        let y = min_int(self.y as int, max_height as int);
        ImagePxRect {
            x: x as u32,
            y: y as u32,
            width: min_int(self.width as int, max_width - x) as u32,
            height: min_int(self.height as int, max_height - y) as u32,
        }
    }

    pub fn new(x: u32, y: u32, width: u32, height: u32) -> (r: Self)
        ensures
            r.x == x,
            r.y == y,
            r.width == width,
            r.height == height,
    {
        Self { x, y, width, height }
    }

    /// The clamped rectangle lies inside the image, and inside the original
    /// rectangle's extent.
    pub proof fn lemma_clamp_within(self, max_width: u32, max_height: u32)
        ensures
            ({
                let c = self.spec_clamp_to(max_width, max_height);
                &&& c.x + c.width <= max_width
                &&& c.y + c.height <= max_height
                &&& c.width <= self.width
                &&& c.height <= self.height
            }),
    {
    }

    /// Clamping twice is clamping once, and a rectangle that already lies
    /// inside the image is left as it is.
    pub proof fn lemma_clamp_idempotent(self, max_width: u32, max_height: u32)
        ensures
            self.spec_clamp_to(max_width, max_height).spec_clamp_to(max_width, max_height)
                == self.spec_clamp_to(max_width, max_height),
            (self.x + self.width <= max_width && self.y + self.height <= max_height)
                ==> self.spec_clamp_to(max_width, max_height) == self,
    {
    }

    pub fn right(&self) -> (r: u32)
        ensures
            r as int == self.spec_right(),
    {
        self.x.saturating_add(self.width)
    }

    pub fn bottom(&self) -> (r: u32)
        ensures
            r as int == self.spec_bottom(),
    {
        self.y.saturating_add(self.height)
    }

    pub fn clamp_to(&self, max_width: u32, max_height: u32) -> (r: Self)
        ensures
            r == self.spec_clamp_to(max_width, max_height),
            r.x + r.width <= max_width,
            r.y + r.height <= max_height,
    {
        let x = if self.x <= max_width { self.x } else { max_width };
        let y = if self.y <= max_height { self.y } else { max_height };
        let rest_w = max_width - x;
        let rest_h = max_height - y;
        let width = if self.width <= rest_w { self.width } else { rest_w };
        let height = if self.height <= rest_h { self.height } else { rest_h };
        Self { x, y, width, height }
    }
}

/// The text of the error for a selection that starts left of or above the
/// frame origin.
pub open spec fn outside_origin_message(rect: DesktopPxRect, origin: DesktopPxPoint) -> Seq<char> {
    "Desktop rect ("@ + dec_int(rect.x as int) + ", "@ + dec_int(rect.y as int)
        + ") is outside frame origin ("@ + dec_int(origin.x as int) + ", "@
        + dec_int(origin.y as int) + ")"@
}

/// The part of a desktop rectangle inside a frame captured at `frame_origin`,
/// in image coordinates, provided the rectangle does not start left of or
/// above the origin.
pub open spec fn spec_local_clamped(
    desktop_rect: DesktopPxRect,
    frame_origin: DesktopPxPoint,
    frame_width: u32,
    frame_height: u32,
) -> ImagePxRect {
    ImagePxRect {
        x: (desktop_rect.x - frame_origin.x) as u32,
        y: (desktop_rect.y - frame_origin.y) as u32,
        width: desktop_rect.width,
        height: desktop_rect.height,
    }.spec_clamp_to(frame_width, frame_height)
}

/// The image rectangle a desktop rectangle is converted to lies inside the
/// frame and is no larger than the desktop rectangle.
pub proof fn lemma_image_rect_inside(
    desktop_rect: DesktopPxRect,
    frame_origin: DesktopPxPoint,
    frame_width: u32,
    frame_height: u32,
)
    ensures
        ({
            let c = spec_local_clamped(desktop_rect, frame_origin, frame_width, frame_height);
            &&& c.x + c.width <= frame_width
            &&& c.y + c.height <= frame_height
            &&& c.width <= desktop_rect.width
            &&& c.height <= desktop_rect.height
        }),
{
    let r = ImagePxRect {
        x: (desktop_rect.x - frame_origin.x) as u32,
        y: (desktop_rect.y - frame_origin.y) as u32,
        width: desktop_rect.width,
        height: desktop_rect.height,
    };
    r.lemma_clamp_within(frame_width, frame_height);
}

/// Converts a desktop rectangle into the image rectangle it covers in a frame
/// whose top-left pixel lies at `frame_origin` on the desktop. The offsets
/// between rectangle and origin must fit in an `i32`.
pub fn desktop_rect_to_image_rect(
    desktop_rect: DesktopPxRect,
    frame_origin: DesktopPxPoint,
    frame_width: u32,
    frame_height: u32,
) -> (res: Result<ImagePxRect, DomainError>)
    requires
        i32::MIN <= desktop_rect.x - frame_origin.x <= i32::MAX,
        i32::MIN <= desktop_rect.y - frame_origin.y <= i32::MAX,
    ensures
        ({
            let local_x = desktop_rect.x - frame_origin.x;
            let local_y = desktop_rect.y - frame_origin.y;
            let clamped = spec_local_clamped(desktop_rect, frame_origin, frame_width, frame_height);
            &&& (local_x < 0 || local_y < 0) ==> (res matches Err(DomainError::OutOfBounds(m))
                && m@ == outside_origin_message(desktop_rect, frame_origin))
            &&& (local_x >= 0 && local_y >= 0 && (clamped.width == 0 || clamped.height == 0))
                ==> res == Err::<ImagePxRect, DomainError>(DomainError::InvalidDimensions(clamped.width, clamped.height))
            &&& (local_x >= 0 && local_y >= 0 && clamped.width != 0 && clamped.height != 0)
                ==> res == Ok::<ImagePxRect, DomainError>(clamped)
        }),
{
    let local_x = desktop_rect.x - frame_origin.x;
    let local_y = desktop_rect.y - frame_origin.y;

    if local_x < 0 || local_y < 0 {
        let mut msg = String::new();
        push_str(&mut msg, "Desktop rect (");
        push_dec_i64(&mut msg, desktop_rect.x as i64);
        push_str(&mut msg, ", ");
        push_dec_i64(&mut msg, desktop_rect.y as i64);
        push_str(&mut msg, ") is outside frame origin (");
        push_dec_i64(&mut msg, frame_origin.x as i64);
        push_str(&mut msg, ", ");
        push_dec_i64(&mut msg, frame_origin.y as i64);
        push_str(&mut msg, ")");
        return Err(DomainError::OutOfBounds(msg));
    }

    let img_x = local_x as u32;
    let img_y = local_y as u32;

    let clamped = ImagePxRect::new(img_x, img_y, desktop_rect.width, desktop_rect.height)
        .clamp_to(frame_width, frame_height);

    if clamped.width == 0 || clamped.height == 0 {
        return Err(DomainError::InvalidDimensions(clamped.width, clamped.height));
    }

    Ok(clamped)
}

} // verus!
