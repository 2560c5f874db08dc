//! Captured pixel frames: four bytes per pixel, rows `stride` bytes apart.

use vstd::prelude::*;
use crate::arith::{lemma_mul_le, lemma_mul_succ, lemma_mul_pred, lemma_mul_u32_bound, lemma_row_in_block};
use crate::color::ColorRgba;
use crate::coordinates::ImagePxRect;
use crate::error::DomainError;

verus! {

/// Byte order of the four channels of a pixel.
#[derive(Debug, Clone, Copy, PartialEq, Eq, Structural)]
pub enum PixelFormat {
    Bgra8,
    Rgba8,
}

/// A captured image: `height` rows of `width` pixels, each row starting
/// `stride` bytes after the previous one.
#[derive(Debug, Clone)]
pub struct Frame {
    pub width: u32,
    pub height: u32,
    pub stride: u32,
    pub format: PixelFormat,
    pub pixels: Vec<u8>,
    pub monitor_id: Option<String>,
    pub timestamp_ms: u64,
}

/// The colour stored in the four bytes starting at `o`.
pub open spec fn color_at(format: PixelFormat, bytes: Seq<u8>, o: int) -> ColorRgba {
    match format {
        PixelFormat::Bgra8 => ColorRgba { r: bytes[o + 2], g: bytes[o + 1], b: bytes[o], a: bytes[o + 3] },
        PixelFormat::Rgba8 => ColorRgba { r: bytes[o], g: bytes[o + 1], b: bytes[o + 2], a: bytes[o + 3] },
    }
}

/// The four bytes of a colour in RGBA order.
pub open spec fn rgba_bytes(c: ColorRgba) -> Seq<u8> {
    seq![c.r, c.g, c.b, c.a]
}

impl Frame {
    /// Every row fits in the stride and every row is present in the buffer.
    pub open spec fn wf(&self) -> bool {
        &&& self.stride as int >= self.width as int * 4
        &&& self.pixels@.len() >= self.height as int * self.stride as int
    }

    /// Byte offset of pixel `(x, y)`.
    pub open spec fn offset(&self, x: int, y: int) -> int {
        y * self.stride + x * 4
    }

    /// Index of channel byte `c` of pixel `(x, y)`.
    pub open spec fn byte_index(&self, x: int, y: int, c: int) -> int {
        self.offset(x, y) + c
    }

    /// The pixel at `(x, y)`, if it lies inside the frame and its four bytes
    /// are in the buffer.
    pub open spec fn spec_pixel_at(&self, x: int, y: int) -> Option<ColorRgba> {
        if x >= self.width || y >= self.height || x < 0 || y < 0 {
            None
        } else if self.offset(x, y) + 3 >= self.pixels@.len() {
            None
        } else {
            Some(color_at(self.format, self.pixels@, self.offset(x, y)))
        }
    }

    /// Row `y` of a well-formed frame, `len` bytes starting at column `x0`.
    pub open spec fn row_bytes(&self, y: int, x0: int, len: int) -> Seq<u8> {
        self.pixels@.subrange(self.offset(x0, y), self.offset(x0, y) + len)
    }

    /// Rows `y0 .. y0 + n` of the columns `x0 .. x0 + w`, one after another.
    pub open spec fn block_bytes(&self, x0: int, y0: int, w: int, n: nat) -> Seq<u8>
        decreases n,
    {
        if n == 0 {
            Seq::empty()
        } else {
            self.block_bytes(x0, y0, w, (n - 1) as nat) + self.row_bytes(y0 + n - 1, x0, w * 4)
        }
    }

    /// The first `n` pixels of row `y`, converted to RGBA order.
    pub open spec fn rgba_row(&self, y: int, n: nat) -> Seq<u8>
        decreases n,
    {
        if n == 0 {
            Seq::empty()
        } else {
            self.rgba_row(y, (n - 1) as nat)
                + rgba_bytes(color_at(self.format, self.pixels@, self.offset(n - 1, y)))
        }
    }

    /// The first `n` rows, converted to RGBA order and packed tightly.
    pub open spec fn rgba_rows(&self, n: nat) -> Seq<u8>
        decreases n,
    {
        if n == 0 {
            Seq::empty()
        } else {
            self.rgba_rows((n - 1) as nat) + self.rgba_row(n - 1, self.width as nat)
        }
    }

    /// `f` is this frame cut to the rectangle `c` (which lies inside it):
    /// its rows packed tightly, in the same pixel format.
    pub open spec fn is_crop_of(&self, c: ImagePxRect, f: Frame) -> bool {
        &&& f.width == c.width
        &&& f.height == c.height
        &&& f.stride == c.width * 4
        &&& f.format == self.format
        &&& f.pixels@ == self.block_bytes(c.x as int, c.y as int, c.width as int, c.height as nat)
        &&& f.monitor_id == self.monitor_id
        &&& f.timestamp_ms == self.timestamp_ms
        &&& f.wf()
    }

    /// Builds a frame after checking that its dimensions are usable and that
    /// the buffer holds every row.
    pub fn new(width: u32, height: u32, stride: u32, format: PixelFormat, pixels: Vec<u8>) -> (res:
        Result<Self, DomainError>)
        ensures
            (width as int * 4 > u32::MAX || width == 0 || height == 0 || stride < width * 4
                || height as int * stride as int > usize::MAX) ==> res == Err::<Frame, DomainError>(
                DomainError::InvalidDimensions(width, height)),
            !(width as int * 4 > u32::MAX || width == 0 || height == 0 || stride < width * 4
                || height as int * stride as int > usize::MAX) && pixels@.len() < stride as int
                * height as int ==> res == Err::<Frame, DomainError>(
                DomainError::BufferMismatch {
                    expected: (height * stride) as usize,
                    actual: pixels@.len() as usize,
                }),
            res matches Ok(f) ==> {
                &&& f.width == width
                &&& f.height == height
                &&& f.stride == stride
                &&& f.format == format
                &&& f.pixels@ == pixels@
                &&& f.monitor_id.is_none()
                &&& f.timestamp_ms == 0
                &&& f.wf()
            },
            res is Ok <==> !(width as int * 4 > u32::MAX || width == 0 || height == 0 || stride
                < width * 4 || height as int * stride as int > usize::MAX || pixels@.len()
                < height as int * stride as int),
    {
        proof {
            assert(stride as int * height as int == height as int * stride as int) by (nonlinear_arith);
        }
        let minimum_stride = match width.checked_mul(4) {
            Some(m) => m,
            None => return Err(DomainError::InvalidDimensions(width, height)),
        };
        if width == 0 || height == 0 || stride < minimum_stride {
            return Err(DomainError::InvalidDimensions(width, height));
        }
        let expected_len = match (stride as usize).checked_mul(height as usize) {
            Some(e) => e,
            None => return Err(DomainError::InvalidDimensions(width, height)),
        };
        if pixels.len() < expected_len {
            return Err(DomainError::BufferMismatch { expected: expected_len, actual: pixels.len() });
        }
        Ok(Self { width, height, stride, format, pixels, monitor_id: None, timestamp_ms: 0 })
    }

    /// Whether every row fits in the stride and is present in the buffer.
    pub fn is_well_formed(&self) -> (b: bool)
        ensures
            b == self.wf(),
    {
        proof { lemma_mul_u32_bound(self.height as int, self.stride as int); }
        self.stride as u64 >= self.width as u64 * 4
            && self.pixels.len() as u128 >= self.height as u128 * self.stride as u128
    }

    /// The colour of pixel `(x, y)`, read in the frame's byte order.
    pub fn pixel_at(&self, x: u32, y: u32) -> (res: Option<ColorRgba>)
        ensures
            res == self.spec_pixel_at(x as int, y as int),
    {
        if x >= self.width || y >= self.height {
            return None;
        }
        proof { lemma_mul_u32_bound(y as int, self.stride as int); }
        let off: u128 = y as u128 * self.stride as u128 + x as u128 * 4;
        if off + 3 >= self.pixels.len() as u128 {
            return None;
        }
        let o = off as usize;
        match self.format {
            PixelFormat::Bgra8 => Some(ColorRgba::new(self.pixels[o + 2], self.pixels[o + 1], self.pixels[o], self.pixels[o + 3])),
            PixelFormat::Rgba8 => Some(ColorRgba::new(self.pixels[o], self.pixels[o + 1], self.pixels[o + 2], self.pixels[o + 3])),
        }
    }

    /// Cropping to the (non-empty) rectangle `c` can read the frame: the
    /// packed size and the byte offsets, as `u32` values, do not overflow,
    /// and the last row's part is in the buffer.
    pub open spec fn crop_readable(&self, c: ImagePxRect) -> bool {
        let last = (c.y + c.height - 1) * self.stride as int;
        &&& c.width as int * 4 * c.height as int <= u32::MAX
        &&& c.x as int * 4 <= u32::MAX
        &&& last + c.x * 4 <= u32::MAX
        &&& last + c.x * 4 + c.width * 4 <= self.pixels@.len()
    }

    /// Whether cropping to `rect` can read the frame (always so where the
    /// crop is empty).
    pub fn can_crop(&self, rect: ImagePxRect) -> (b: bool)
        ensures
            ({
                let c = rect.spec_clamp_to(self.width, self.height);
                b == ((c.width != 0 && c.height != 0) ==> self.crop_readable(c))
            }),
    {
        let c = rect.clamp_to(self.width, self.height);
        if c.width == 0 || c.height == 0 {
            return true;
        }
        proof {
            lemma_mul_u32_bound((c.y + c.height - 1) as int, self.stride as int);
            assert(c.width as int * 4 * c.height as int <= 0x4_0000_0000u128 * u32::MAX as int) by (nonlinear_arith)
                requires 0 <= c.width <= u32::MAX, 0 <= c.height <= u32::MAX;
        }
        let last: u128 = (c.y as u128 + c.height as u128 - 1) * self.stride as u128;
        let w4: u128 = c.width as u128 * 4;
        w4 * c.height as u128 <= u32::MAX as u128 && c.x as u128 * 4 <= u32::MAX as u128
            && last + c.x as u128 * 4 <= u32::MAX as u128
            && last + c.x as u128 * 4 + w4 <= self.pixels.len() as u128
    }

    /// Copies the part of the frame inside `rect` (cut down to the frame) into
    /// a new, tightly packed frame of the same pixel format.
    pub fn crop(&self, rect: ImagePxRect) -> (res: Result<Frame, DomainError>)
        requires
            ({
                let c = rect.spec_clamp_to(self.width, self.height);
                (c.width != 0 && c.height != 0) ==> self.crop_readable(c)
            }),
        ensures
            ({
                let c = rect.spec_clamp_to(self.width, self.height);
                &&& (c.width == 0 || c.height == 0) ==> res == Err::<Frame, DomainError>(
                    DomainError::InvalidDimensions(c.width, c.height))
                &&& (c.width != 0 && c.height != 0) ==> (res matches Ok(f) && self.is_crop_of(c, f))
            }),
    {
        let clamped = rect.clamp_to(self.width, self.height);
        if clamped.width == 0 || clamped.height == 0 {
            return Err(DomainError::InvalidDimensions(clamped.width, clamped.height));
        }
        proof {
            assert(clamped.width as int * 4 <= clamped.width as int * 4 * clamped.height as int) by (nonlinear_arith)
                requires clamped.height >= 1, clamped.width >= 0;
        }
        let row_len: usize = clamped.width as usize * 4;
        let stride = self.stride as usize;
        let plen = self.pixels.len();
        let mut new_pixels: Vec<u8> = Vec::new();
        let mut row: u32 = 0;
        while row < clamped.height
            invariant
                clamped.width != 0 && clamped.height != 0,
                self.crop_readable(clamped),
                clamped == rect.spec_clamp_to(self.width, self.height),
                clamped.x + clamped.width <= self.width,
                clamped.y + clamped.height <= self.height,
                row <= clamped.height,
                row_len == clamped.width * 4,
                stride == self.stride,
                plen == self.pixels@.len(),
                new_pixels@ == self.block_bytes(clamped.x as int, clamped.y as int, clamped.width as int, row as nat),
            decreases clamped.height - row,
        {
            let src_y = clamped.y + row;
            proof {
                lemma_mul_le(src_y as int, clamped.y + clamped.height - 1, self.stride as int);
            }
            let src_start: usize = src_y as usize * stride + clamped.x as usize * 4;
            let ghost before = new_pixels@;
            let mut i: usize = 0;
            while i < row_len
                invariant
                    i <= row_len,
                    row_len == clamped.width * 4,
                    src_start == self.offset(clamped.x as int, src_y as int),
                    src_start + row_len <= self.pixels@.len(),
                    plen == self.pixels@.len(),
                    new_pixels@ == before + self.pixels@.subrange(src_start as int, src_start + i),
                decreases row_len - i,
            {
                new_pixels.push(self.pixels[src_start + i]);
                i = i + 1;
                assert(self.pixels@.subrange(src_start as int, src_start + i) == self.pixels@.subrange(src_start as int, src_start + i - 1).push(self.pixels@[src_start + i - 1]));
            }
            row = row + 1;
        }
        let new_stride = clamped.width * 4;
        let out = Frame {
            width: clamped.width,
            height: clamped.height,
            stride: new_stride,
            format: self.format,
            pixels: new_pixels,
            monitor_id: self.monitor_id.clone(),
            timestamp_ms: self.timestamp_ms,
        };
        proof {
            lemma_block_len(self, clamped.x as int, clamped.y as int, clamped.width as int, clamped.height as nat);
            assert(clamped.height as int * (clamped.width as int * 4) == clamped.width as int * 4 * clamped.height as int)
                by (nonlinear_arith);
        }
        Ok(out)
    }

    /// The conversion to packed RGBA can read the frame: the packed size
    /// fits in a `u32`, and the last pixel of the last row, at a `u32` row
    /// offset, is in the buffer.
    pub open spec fn rgba8_readable(&self) -> bool {
        &&& self.width as int * 4 * self.height as int <= u32::MAX
        &&& self.width as int * 4 <= u32::MAX
        &&& self.height > 0 ==> (self.height - 1) * self.stride as int <= u32::MAX
        &&& (self.width > 0 && self.height > 0) ==> (self.height - 1) * self.stride as int + self.width
            * 4 <= self.pixels@.len()
    }

    /// Whether the conversion to packed RGBA can read the frame.
    pub fn is_rgba8_readable(&self) -> (b: bool)
        ensures
            b == self.rgba8_readable(),
    {
        let w4: u128 = self.width as u128 * 4;
        proof {
            lemma_mul_u32_bound(self.height as int, self.stride as int);
            assert(w4 * self.height as int <= 0x4_0000_0000u128 * u32::MAX as int) by (nonlinear_arith)
                requires w4 <= 0x4_0000_0000u128, 0 <= self.height <= u32::MAX;
        }
        if w4 * self.height as u128 > u32::MAX as u128 || w4 > u32::MAX as u128 {
            return false;
        }
        if self.height == 0 {
            return true;
        }
        proof { lemma_mul_le(self.height - 1, self.height as int, self.stride as int); }
        let last: u128 = (self.height as u128 - 1) * self.stride as u128;
        if last > u32::MAX as u128 {
            return false;
        }
        self.width == 0 || last + w4 <= self.pixels.len() as u128
    }

    /// A tightly packed RGBA copy of the frame: row padding removed and
    /// channels reordered where the frame is BGRA.
    pub fn to_rgba8(&self) -> (res: Frame)
        requires
            self.rgba8_readable(),
        ensures
            res.width == self.width,
            res.height == self.height,
            res.stride == self.width * 4,
            res.format == PixelFormat::Rgba8,
            res.pixels@ == self.rgba_rows(self.height as nat),
            res.monitor_id == self.monitor_id,
            res.timestamp_ms == self.timestamp_ms,
            res.wf(),
    {
        let stride = self.stride as usize;
        let plen = self.pixels.len();
        let mut rgba: Vec<u8> = Vec::new();
        let mut y: u32 = 0;
        while y < self.height
            invariant
                self.rgba8_readable(),
                y <= self.height,
                stride == self.stride,
                plen == self.pixels@.len(),
                rgba@ == self.rgba_rows(y as nat),
            decreases self.height - y,
        {
            proof {
                lemma_mul_le(y as int, self.height - 1, self.stride as int);
            }
            let row_start: usize = y as usize * stride;
            let ghost before = rgba@;
            let mut x: u32 = 0;
            while x < self.width
                invariant
                    self.rgba8_readable(),
                    y < self.height,
                    x <= self.width,
                    row_start == y * self.stride,
                    self.width > 0 ==> row_start + self.width * 4 <= self.pixels@.len(),
                    plen == self.pixels@.len(),
                    rgba@ == before + self.rgba_row(y as int, x as nat),
                decreases self.width - x,
            {
                let offset: usize = row_start + x as usize * 4;
                let ghost c = color_at(self.format, self.pixels@, self.offset(x as int, y as int));
                match self.format {
                    PixelFormat::Bgra8 => {
                        rgba.push(self.pixels[offset + 2]);
                        rgba.push(self.pixels[offset + 1]);
                        rgba.push(self.pixels[offset]);
                        rgba.push(self.pixels[offset + 3]);
                    },
                    PixelFormat::Rgba8 => {
                        rgba.push(self.pixels[offset]);
                        rgba.push(self.pixels[offset + 1]);
                        rgba.push(self.pixels[offset + 2]);
                        rgba.push(self.pixels[offset + 3]);
                    },
                }
                x = x + 1;
                assert(rgba@ == before + self.rgba_row(y as int, x as nat));
            }
            y = y + 1;
        }
        proof {
            lemma_rgba_rows_len(self, self.height as nat);
        }
        Frame {
            width: self.width,
            height: self.height,
            stride: self.width * 4,
            format: PixelFormat::Rgba8,
            pixels: rgba,
            monitor_id: self.monitor_id.clone(),
            timestamp_ms: self.timestamp_ms,
        }
    }
}

/// Whether byte `k` of a buffer laid out with the given stride belongs to a
/// pixel of the rectangle `r`.
pub open spec fn byte_in_rect(stride: int, r: ImagePxRect, k: int) -> bool {
    let row = k / stride;
    let rem = k % stride;
    &&& r.y <= row < r.y + r.height
    &&& r.x * 4 <= rem < (r.x + r.width) * 4
}

/// The bytes of a pixel of `r` belong to `r`.
pub proof fn lemma_offset_in_rect(stride: int, r: ImagePxRect, x: int, y: int, c: int)
    requires
        (r.x + r.width) * 4 <= stride,
        r.x <= x < r.x + r.width,
        r.y <= y < r.y + r.height,
        0 <= c < 4,
    ensures
        byte_in_rect(stride, r, y * stride + x * 4 + c),
{
    vstd::arithmetic::div_mod::lemma_fundamental_div_mod_converse(
        y * stride + x * 4 + c,
        stride,
        y,
        x * 4 + c,
    );
}

/// Distinct channel bytes of distinct pixels of a frame whose rows fit in the
/// stride lie at distinct indices.
pub proof fn lemma_byte_index_distinct(f: &Frame, x: int, y: int, c: int)
    requires
        f.stride >= f.width * 4,
        0 <= x < f.width,
        0 <= y,
        0 <= c < 4,
    ensures
        forall|xx: int, yy: int, cc: int|
            0 <= xx < f.width && 0 <= yy && 0 <= cc < 4 && (xx != x || yy != y || cc != c)
                ==> #[trigger] f.byte_index(xx, yy, cc) != f.byte_index(x, y, c),
{
    assert forall|xx: int, yy: int, cc: int|
        0 <= xx < f.width && 0 <= yy && 0 <= cc < 4 && (xx != x || yy != y || cc != c)
            implies #[trigger] f.byte_index(xx, yy, cc) != f.byte_index(x, y, c) by {
        if f.byte_index(xx, yy, cc) == f.byte_index(x, y, c) {
            let k = f.byte_index(x, y, c);
            vstd::arithmetic::div_mod::lemma_fundamental_div_mod_converse(k, f.stride as int, y, x * 4 + c);
            vstd::arithmetic::div_mod::lemma_fundamental_div_mod_converse(k, f.stride as int, yy, xx * 4 + cc);
            vstd::arithmetic::div_mod::lemma_fundamental_div_mod_converse(x * 4 + c, 4, x, c);
            vstd::arithmetic::div_mod::lemma_fundamental_div_mod_converse(xx * 4 + cc, 4, xx, cc);
        }
    }
}

/// A channel byte of a pixel belongs to a rectangle exactly when the pixel
/// does.
pub proof fn lemma_byte_in_rect_iff(f: &Frame, r: ImagePxRect, x: int, y: int, c: int)
    requires
        f.stride >= f.width * 4,
        0 <= x < f.width,
        0 <= y,
        0 <= c < 4,
    ensures
        byte_in_rect(f.stride as int, r, f.byte_index(x, y, c)) <==> (r.x <= x < r.x + r.width
            && r.y <= y < r.y + r.height),
{
    let k = f.byte_index(x, y, c);
    vstd::arithmetic::div_mod::lemma_fundamental_div_mod_converse(k, f.stride as int, y, x * 4 + c);
}

/// The length of a block is its row length times its number of rows.
pub proof fn lemma_block_len(f: &Frame, x0: int, y0: int, w: int, n: nat)
    requires
        0 <= x0,
        0 <= w,
        0 <= y0,
        n > 0 ==> f.offset(x0, y0 + n - 1) + w * 4 <= f.pixels@.len(),
    ensures
        f.block_bytes(x0, y0, w, n).len() == n * (w * 4),
    decreases n,
{
    if n > 0 {
        if n > 1 {
            lemma_mul_le(y0 + n - 2, y0 + n - 1, f.stride as int);
        }
        lemma_block_len(f, x0, y0, w, (n - 1) as nat);
        let start = f.offset(x0, y0 + n - 1);
        lemma_mul_le(0, y0 + n - 1, f.stride as int);
        assert(start + w * 4 <= f.pixels@.len());
        assert(f.row_bytes(y0 + n - 1, x0, w * 4).len() == w * 4);
        lemma_mul_pred(n as int, w * 4);
    } else {
        assert(n * (w * 4) == 0) by (nonlinear_arith) requires n == 0;
    }
}

/// Each converted row holds four bytes per pixel.
pub proof fn lemma_rgba_row_len(f: &Frame, y: int, n: nat)
    ensures
        f.rgba_row(y, n).len() == n * 4,
    decreases n,
{
    if n > 0 {
        lemma_rgba_row_len(f, y, (n - 1) as nat);
    }
}

/// The converted rows hold four bytes per pixel.
pub proof fn lemma_rgba_rows_len(f: &Frame, n: nat)
    ensures
        f.rgba_rows(n).len() == n * (f.width * 4),
    decreases n,
{
    if n > 0 {
        lemma_rgba_rows_len(f, (n - 1) as nat);
        lemma_rgba_row_len(f, n - 1, f.width as nat);
        lemma_mul_pred(n as int, f.width * 4);
    } else {
        assert(n * (f.width * 4) == 0) by (nonlinear_arith) requires n == 0;
    }
}

/// Byte `k` of row `row` of a block is byte `k` of that row of the frame.
proof fn lemma_block_index(f: &Frame, x0: int, y0: int, w: int, n: nat, row: int, k: int)
    requires
        f.wf(),
        0 <= x0,
        0 <= w,
        x0 + w <= f.width,
        0 <= y0,
        y0 + n <= f.height,
        0 <= row < n,
        0 <= k < w * 4,
    ensures
        row * (w * 4) + k < f.block_bytes(x0, y0, w, n).len(),
        f.block_bytes(x0, y0, w, n)[row * (w * 4) + k] == f.pixels@[f.offset(x0, y0 + row) + k],
    decreases n,
{
    lemma_row_in_block(y0 + n - 1, f.height as int, f.stride as int);
    if n > 1 {
        lemma_row_in_block(y0 + n - 2, f.height as int, f.stride as int);
    }
    lemma_block_len(f, x0, y0, w, n);
    lemma_block_len(f, x0, y0, w, (n - 1) as nat);
    lemma_mul_le(row + 1, n as int, w * 4);
    lemma_mul_succ(row, w * 4);
    if row < n - 1 {
        lemma_block_index(f, x0, y0, w, (n - 1) as nat, row, k);
        lemma_mul_le(row + 1, n - 1, w * 4);
    } else {
        lemma_mul_pred(n as int, w * 4);
    }
}

/// A pixel of a cropped frame is the pixel of the original at the same
/// place relative to the (clamped) rectangle; outside the crop there is no
/// pixel.
pub proof fn lemma_crop_pixel(f: &Frame, rect: ImagePxRect, g: &Frame, x: int, y: int)
    requires
        f.wf(),
        ({
            let c = rect.spec_clamp_to(f.width, f.height);
            &&& c.width != 0 && c.height != 0
            &&& g.width == c.width
            &&& g.height == c.height
            &&& g.stride == c.width * 4
            &&& g.format == f.format
            &&& g.pixels@ == f.block_bytes(c.x as int, c.y as int, c.width as int, c.height as nat)
        }),
    ensures
        ({
            let c = rect.spec_clamp_to(f.width, f.height);
            &&& (0 <= x < c.width && 0 <= y < c.height) ==> g.spec_pixel_at(x, y)
                == f.spec_pixel_at(c.x + x, c.y + y)
            &&& !(0 <= x < c.width && 0 <= y < c.height) ==> g.spec_pixel_at(x, y) is None
        }),
{
    let c = rect.spec_clamp_to(f.width, f.height);
    rect.lemma_clamp_within(f.width, f.height);
    if 0 <= x < c.width && 0 <= y < c.height {
        let w4 = c.width * 4;
        lemma_block_index(f, c.x as int, c.y as int, c.width as int, c.height as nat, y, x * 4);
        lemma_block_index(f, c.x as int, c.y as int, c.width as int, c.height as nat, y, x * 4 + 1);
        lemma_block_index(f, c.x as int, c.y as int, c.width as int, c.height as nat, y, x * 4 + 2);
        lemma_block_index(f, c.x as int, c.y as int, c.width as int, c.height as nat, y, x * 4 + 3);
        assert(g.offset(x, y) == y * w4 + x * 4);
        assert(f.offset(c.x as int, c.y + y) + x * 4 == f.offset(c.x + x, c.y + y));
        lemma_row_in_block(c.y + y, f.height as int, f.stride as int);
        assert(f.offset(c.x + x, c.y + y) + 3 < f.pixels@.len());
    }
}

/// Byte `j` of pixel `x` of a converted row is channel `j` (in RGBA order)
/// of that pixel.
proof fn lemma_rgba_row_index(f: &Frame, y: int, n: nat, x: int, j: int)
    requires
        0 <= x < n,
        0 <= j < 4,
    ensures
        x * 4 + j < f.rgba_row(y, n).len(),
        f.rgba_row(y, n)[x * 4 + j] == rgba_bytes(color_at(f.format, f.pixels@, f.offset(x, y)))[j],
    decreases n,
{
    lemma_rgba_row_len(f, y, n);
    lemma_rgba_row_len(f, y, (n - 1) as nat);
    if x < n - 1 {
        lemma_rgba_row_index(f, y, (n - 1) as nat, x, j);
    }
}

/// Byte `k` of converted row `y` sits at `y * width * 4 + k` of the
/// converted rows.
proof fn lemma_rgba_rows_index(f: &Frame, n: nat, y: int, k: int)
    requires
        0 <= y < n,
        0 <= k < f.width * 4,
    ensures
        y * (f.width * 4) + k < f.rgba_rows(n).len(),
        f.rgba_rows(n)[y * (f.width * 4) + k] == f.rgba_row(y, f.width as nat)[k],
    decreases n,
{
    lemma_rgba_rows_len(f, n);
    lemma_rgba_rows_len(f, (n - 1) as nat);
    lemma_rgba_row_len(f, n - 1, f.width as nat);
    lemma_mul_le(y + 1, n as int, f.width * 4);
    lemma_mul_succ(y, f.width * 4);
    if y < n - 1 {
        lemma_rgba_rows_index(f, (n - 1) as nat, y, k);
        lemma_mul_le(y + 1, n - 1, f.width * 4);
    } else {
        lemma_mul_pred(n as int, f.width * 4);
    }
}

/// Converting to packed RGBA keeps the colour of every pixel.
pub proof fn lemma_to_rgba8_pixel(f: &Frame, g: &Frame, x: int, y: int)
    requires
        f.wf(),
        g.width == f.width,
        g.height == f.height,
        g.stride == f.width * 4,
        g.format == PixelFormat::Rgba8,
        g.pixels@ == f.rgba_rows(f.height as nat),
    ensures
        g.spec_pixel_at(x, y) == f.spec_pixel_at(x, y),
{
    if 0 <= x < f.width && 0 <= y < f.height {
        let w4 = f.width * 4;
        lemma_rgba_rows_index(f, f.height as nat, y, x * 4);
        lemma_rgba_rows_index(f, f.height as nat, y, x * 4 + 1);
        lemma_rgba_rows_index(f, f.height as nat, y, x * 4 + 2);
        lemma_rgba_rows_index(f, f.height as nat, y, x * 4 + 3);
        lemma_rgba_row_index(f, y, f.width as nat, x, 0);
        lemma_rgba_row_index(f, y, f.width as nat, x, 1);
        lemma_rgba_row_index(f, y, f.width as nat, x, 2);
        lemma_rgba_row_index(f, y, f.width as nat, x, 3);
        assert(g.offset(x, y) == y * w4 + x * 4);
        lemma_row_in_block(y, f.height as int, f.stride as int);
        assert(f.offset(x, y) + 3 < f.pixels@.len());
    }
}

/// In a tightly packed RGBA frame, the first `n` pixels of row `y`, converted,
/// are the row's bytes as they stand.
proof fn lemma_packed_rgba_row(g: &Frame, y: int, n: nat)
    requires
        g.format == PixelFormat::Rgba8,
        0 <= y,
        0 <= y * g.stride,
        y * g.stride + n * 4 <= g.pixels@.len(),
    ensures
        g.rgba_row(y, n) == g.pixels@.subrange(y * g.stride, y * g.stride + n * 4),
    decreases n,
{
    let a = y * g.stride;
    if n > 0 {
        lemma_packed_rgba_row(g, y, (n - 1) as nat);
        let o = g.offset(n - 1, y);
        assert(o == a + (n - 1) * 4);
        assert(g.pixels@.subrange(a, a + n * 4) =~= g.pixels@.subrange(a, a + (n - 1) * 4)
            + rgba_bytes(color_at(g.format, g.pixels@, o)));
    } else {
        assert(g.pixels@.subrange(a, a) =~= Seq::<u8>::empty());
    }
}

/// In a tightly packed RGBA frame, the first `n` rows, converted, are the
/// buffer's first `n` rows as they stand.
proof fn lemma_packed_rgba_rows(g: &Frame, n: nat)
    requires
        g.format == PixelFormat::Rgba8,
        g.stride == g.width * 4,
        n * g.stride <= g.pixels@.len(),
    ensures
        g.rgba_rows(n) == g.pixels@.subrange(0, n * g.stride),
    decreases n,
{
    if n > 0 {
        lemma_mul_pred(n as int, g.stride as int);
        lemma_mul_le(n - 1, n as int, g.stride as int);
        lemma_packed_rgba_rows(g, (n - 1) as nat);
        lemma_packed_rgba_row(g, n - 1, g.width as nat);
        assert(g.pixels@.subrange(0, n * g.stride) =~= g.pixels@.subrange(0, (n - 1) * g.stride)
            + g.pixels@.subrange((n - 1) * g.stride, (n - 1) * g.stride + g.width * 4));
    } else {
        assert(n * g.stride == 0) by (nonlinear_arith) requires n == 0;
        assert(g.pixels@.subrange(0, 0) =~= Seq::<u8>::empty());
    }
}

/// Converting to packed RGBA a second time changes nothing: the result of a
/// conversion can be converted again, and that gives back its own bytes.
pub proof fn lemma_to_rgba8_idempotent(f: &Frame, g: &Frame)
    requires
        f.rgba8_readable(),
        g.width == f.width,
        g.height == f.height,
        g.stride == f.width * 4,
        g.format == PixelFormat::Rgba8,
        g.pixels@ == f.rgba_rows(f.height as nat),
    ensures
        g.rgba8_readable(),
        g.rgba_rows(g.height as nat) == g.pixels@,
{
    lemma_rgba_rows_len(f, f.height as nat);
    assert(g.height as int * g.stride as int == g.stride as int * g.height as int) by (nonlinear_arith);
    assert(g.width as int * 4 * g.height as int == g.stride as int * g.height as int);
    if g.height > 0 {
        lemma_mul_le(g.height - 1, g.height as int, g.stride as int);
        lemma_mul_pred(g.height as int, g.stride as int);
    }
    lemma_packed_rgba_rows(g, g.height as nat);
    assert(g.pixels@.subrange(0, g.height * g.stride) =~= g.pixels@);
}

} // verus!
