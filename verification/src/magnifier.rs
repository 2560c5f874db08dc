//! The zoomed pixel grid shown by the colour picker.

use vstd::prelude::*;
use crate::color::ColorRgba;
use crate::frame::{Frame, PixelFormat};

verus! {

/// The zoomed preview around a point of a frame.
#[derive(Debug, Clone)]
pub struct MagnifierData {
    pub center_color: ColorRgba,
    pub grid_size: u32,
    pub pixel_size: u32,
    pub preview_frame: Frame,
}

/// The colour shown in grid cell `(gx, gy)` of a `grid`-cell-wide preview
/// centred on `(cx, cy)`: the frame's pixel there, or opaque black outside the
/// frame.
pub open spec fn sample_color(f: &Frame, cx: int, cy: int, grid: int, gx: int, gy: int) -> ColorRgba {
    let sx = cx - grid / 2 + gx;
    let sy = cy - grid / 2 + gy;
    if 0 <= sx < f.width && 0 <= sy < f.height {
        match f.spec_pixel_at(sx, sy) {
            Some(c) => c,
            None => ColorRgba { r: 0, g: 0, b: 0, a: 0 },
        }
    } else {
        ColorRgba { r: 0, g: 0, b: 0, a: 255 }
    }
}

/// Channel byte `c` of pixel `(px, py)` of grid cell `(gx, gy)`: cell borders
/// are dark grey, the border of the centre cell is `(0, 0, 255)`, the inside
/// of a cell shows its sample colour; every pixel is opaque.
pub open spec fn cell_byte(f: &Frame, cx: int, cy: int, grid: int, cell: int, gx: int, gy: int, px: int, py: int, c: int) -> u8 {
    let is_border = px == 0 || py == 0 || px == cell - 1 || py == cell - 1;
    let is_center = gx == grid / 2 && gy == grid / 2;
    let col = sample_color(f, cx, cy, grid, gx, gy);
    if c == 3 {
        255
    } else if is_center && is_border {
        if c == 2 { 255 } else { 0 }
    } else if is_border {
        60
    } else if c == 0 {
        col.r
    } else if c == 1 {
        col.g
    } else {
        col.b
    }
}

/// Byte `k` of the preview buffer: pixel `k / 4` in row-major order of a
/// `grid * cell` square image, channel `k % 4`.
pub open spec fn magnifier_byte(f: &Frame, cx: int, cy: int, grid: int, cell: int, k: int) -> u8 {
    let dim = grid * cell;
    let p = k / 4;
    let ox = p % dim;
    let oy = p / dim;
    cell_byte(f, cx, cy, grid, cell, ox / cell, oy / cell, ox % cell, oy % cell, k % 4)
}

/// The colour under the cursor: the frame's pixel at `(cx, cy)`, or
/// transparent black when there is none.
pub open spec fn spec_center_color(f: &Frame, cx: int, cy: int) -> ColorRgba {
    if cx >= 0 && cy >= 0 {
        match f.spec_pixel_at(cx, cy) {
            Some(c) => c,
            None => ColorRgba { r: 0, g: 0, b: 0, a: 0 },
        }
    } else {
        ColorRgba { r: 0, g: 0, b: 0, a: 0 }
    }
}

fn sample_color_exec(f: &Frame, cx: i32, cy: i32, grid: u32, gx: u32, gy: u32) -> (col: ColorRgba)
    requires
        i32::MIN <= cx - grid / 2,
        cx - grid / 2 + gx <= i32::MAX,
        i32::MIN <= cy - grid / 2,
        cy - grid / 2 + gy <= i32::MAX,
    ensures
        col == sample_color(f, cx as int, cy as int, grid as int, gx as int, gy as int),
{
    let half: i64 = (grid / 2) as i64;
    let sx: i64 = cx as i64 - half + gx as i64;
    let sy: i64 = cy as i64 - half + gy as i64;
    if sx >= 0 && sy >= 0 && sx < f.width as i64 && sy < f.height as i64 {
        match f.pixel_at(sx as u32, sy as u32) {
            Some(c) => c,
            None => ColorRgba::default(),
        }
    } else {
        ColorRgba::new(0, 0, 0, 255)
    }
}

fn cell_byte_exec(col: ColorRgba, grid: u32, cell: u32, gx: u32, gy: u32, px: u32, py: u32, c: u32) -> (b: u8)
    requires
        cell >= 1,
    ensures
        forall|f: &Frame, cx: int, cy: int|
            col == sample_color(f, cx, cy, grid as int, gx as int, gy as int)
                ==> b == cell_byte(f, cx, cy, grid as int, cell as int, gx as int, gy as int, px as int, py as int, c as int),
{
    let is_border = px == 0 || py == 0 || px == cell - 1 || py == cell - 1;
    let is_center = gx == grid / 2 && gy == grid / 2;
    if c == 3 {
        255
    } else if is_center && is_border {
        if c == 2 { 255 } else { 0 }
    } else if is_border {
        60
    } else if c == 0 {
        col.r
    } else if c == 1 {
        col.g
    } else {
        col.b
    }
}

proof fn lemma_decode(k: int, dim: int, cell: int, ox: int, oy: int, gx: int, px: int, gy: int, py: int, c: int)
    requires
        cell > 0,
        dim > 0,
        0 <= px < cell,
        0 <= py < cell,
        0 <= c < 4,
        0 <= ox < dim,
        0 <= oy,
        ox == gx * cell + px,
        oy == gy * cell + py,
        k == (oy * dim + ox) * 4 + c,
    ensures
        k / 4 == oy * dim + ox,
        k % 4 == c,
        (k / 4) % dim == ox,
        (k / 4) / dim == oy,
        ox / cell == gx,
        ox % cell == px,
        oy / cell == gy,
        oy % cell == py,
{
    vstd::arithmetic::div_mod::lemma_fundamental_div_mod_converse(k, 4, oy * dim + ox, c);
    vstd::arithmetic::div_mod::lemma_fundamental_div_mod_converse(oy * dim + ox, dim, oy, ox);
    vstd::arithmetic::div_mod::lemma_fundamental_div_mod_converse(ox, cell, gx, px);
    vstd::arithmetic::div_mod::lemma_fundamental_div_mod_converse(oy, cell, gy, py);
}

/// In a preview built around `(cx, cy)` (its bytes given by
/// `magnifier_byte`), the inside of grid cell `(gx, gy)` shows, opaque, the
/// frame's pixel at `(cx - grid / 2 + gx, cy - grid / 2 + gy)` wherever the
/// frame has one: the horizontal cell index moves along the frame's x axis
/// and the vertical one along its y axis, and the centre cell shows the pixel
/// under the cursor.
pub proof fn lemma_magnifier_cell_shows_frame_pixel(
    f: &Frame,
    cx: int,
    cy: int,
    grid: int,
    cell: int,
    g: &Frame,
    gx: int,
    gy: int,
    px: int,
    py: int,
)
    requires
        grid > 0,
        cell > 0,
        g.width == grid * cell,
        g.height == grid * cell,
        g.stride == grid * cell * 4,
        g.format == PixelFormat::Rgba8,
        g.pixels@.len() == grid * cell * grid * cell * 4,
        forall|k: int| 0 <= k < g.pixels@.len() ==> #[trigger] g.pixels@[k] == magnifier_byte(f, cx, cy, grid, cell, k),
        0 <= gx < grid,
        0 <= gy < grid,
        1 <= px < cell - 1,
        1 <= py < cell - 1,
        f.spec_pixel_at(cx - grid / 2 + gx, cy - grid / 2 + gy) is Some,
    ensures
        ({
            let c = f.spec_pixel_at(cx - grid / 2 + gx, cy - grid / 2 + gy)->Some_0;
            g.spec_pixel_at(gx * cell + px, gy * cell + py) == Some(ColorRgba { r: c.r, g: c.g, b: c.b, a: 255 })
        }),
{
    let dim = grid * cell;
    let ox = gx * cell + px;
    let oy = gy * cell + py;
    assert(ox < dim && oy < dim) by (nonlinear_arith)
        requires ox == gx * cell + px, oy == gy * cell + py, 0 <= gx < grid, 0 <= gy < grid, 0 <= px < cell, 0 <= py < cell, dim == grid * cell;
    assert(0 <= ox && 0 <= oy) by (nonlinear_arith)
        requires ox == gx * cell + px, oy == gy * cell + py, 0 <= gx, 0 <= gy, 0 <= px, 0 <= py, cell > 0;
    let o = g.offset(ox, oy);
    assert(o == (oy * dim + ox) * 4) by (nonlinear_arith)
        requires o == oy * (dim * 4) + ox * 4;
    assert(o + 4 <= dim * dim * 4) by (nonlinear_arith)
        requires o == (oy * dim + ox) * 4, 0 <= ox < dim, 0 <= oy < dim;
    assert(g.pixels@.len() == dim * dim * 4) by (nonlinear_arith)
        requires g.pixels@.len() == grid * cell * grid * cell * 4, dim == grid * cell;
    lemma_decode(o, dim, cell, ox, oy, gx, px, gy, py, 0);
    lemma_decode(o + 1, dim, cell, ox, oy, gx, px, gy, py, 1);
    lemma_decode(o + 2, dim, cell, ox, oy, gx, px, gy, py, 2);
    lemma_decode(o + 3, dim, cell, ox, oy, gx, px, gy, py, 3);
    assert(g.pixels@[o] == magnifier_byte(f, cx, cy, grid, cell, o));
    assert(g.pixels@[o + 1] == magnifier_byte(f, cx, cy, grid, cell, o + 1));
    assert(g.pixels@[o + 2] == magnifier_byte(f, cx, cy, grid, cell, o + 2));
    assert(g.pixels@[o + 3] == magnifier_byte(f, cx, cy, grid, cell, o + 3));
}

/// Builds the colour-picker preview around `(cx, cy)`: a square of
/// `grid_count` by `grid_count` cells, each `cell_pixels` pixels wide, showing
/// the frame's pixels around the cursor. The preview must fit in a `u32`-sized
/// buffer and the sampled coordinates in an `i32`.
pub fn generate_magnifier(frame: &Frame, cx: i32, cy: i32, grid_count: u32, cell_pixels: u32) -> (m: MagnifierData)
    requires
        grid_count as int * cell_pixels as int * grid_count as int * cell_pixels as int * 4 <= u32::MAX,
        grid_count > 0 ==> i32::MIN <= cx - grid_count / 2 && cx - grid_count / 2 + grid_count - 1 <= i32::MAX,
        grid_count > 0 ==> i32::MIN <= cy - grid_count / 2 && cy - grid_count / 2 + grid_count - 1 <= i32::MAX,
    ensures
        m.center_color == spec_center_color(frame, cx as int, cy as int),
        m.grid_size == grid_count,
        m.pixel_size == cell_pixels,
        m.preview_frame.width == grid_count * cell_pixels,
        m.preview_frame.height == grid_count * cell_pixels,
        m.preview_frame.stride == grid_count * cell_pixels * 4,
        m.preview_frame.format == PixelFormat::Rgba8,
        m.preview_frame.monitor_id.is_none(),
        m.preview_frame.timestamp_ms == 0,
        m.preview_frame.pixels@.len() == grid_count * cell_pixels * grid_count * cell_pixels * 4,
        forall|k: int| 0 <= k < m.preview_frame.pixels@.len() ==>
            #[trigger] m.preview_frame.pixels@[k] == magnifier_byte(frame, cx as int, cy as int, grid_count as int, cell_pixels as int, k),
{
    let center_color = if cx >= 0 && cy >= 0 {
        match frame.pixel_at(cx as u32, cy as u32) {
            Some(c) => c,
            None => ColorRgba::default(),
        }
    } else {
        ColorRgba::default()
    };
    proof {
        assert(grid_count as int * cell_pixels as int <= u32::MAX) by (nonlinear_arith)
            requires grid_count as int * cell_pixels as int * grid_count as int * cell_pixels as int * 4 <= u32::MAX;
    }
    let dim: u32 = grid_count * cell_pixels;
    proof {
        assert(dim as int * dim as int * 4 <= u32::MAX) by (nonlinear_arith)
            requires dim == grid_count as int * cell_pixels as int,
                grid_count as int * cell_pixels as int * grid_count as int * cell_pixels as int * 4 <= u32::MAX;
        assert(dim as int * 4 <= u32::MAX) by (nonlinear_arith)
            requires dim as int * dim as int * 4 <= u32::MAX, dim >= 0;
    }
    let stride: u32 = dim * 4;
    let ghost total: int = dim as int * dim as int * 4;
    let mut pixels: Vec<u8> = Vec::new();
    let mut gy: u32 = 0;
    assert((gy * cell_pixels) * dim * 4 == 0) by (nonlinear_arith) requires gy == 0;
    while gy < grid_count
        invariant
            dim == grid_count * cell_pixels,
            total == dim as int * dim as int * 4,
            total <= u32::MAX,
            i32::MIN <= cx - grid_count / 2,
            cx - grid_count / 2 + grid_count - 1 <= i32::MAX,
            i32::MIN <= cy - grid_count / 2,
            cy - grid_count / 2 + grid_count - 1 <= i32::MAX,
            gy <= grid_count,
            pixels@.len() == (gy * cell_pixels) * dim * 4,
            forall|k: int| 0 <= k < pixels@.len() ==>
                #[trigger] pixels@[k] == magnifier_byte(frame, cx as int, cy as int, grid_count as int, cell_pixels as int, k),
        decreases grid_count - gy,
    {
        let mut colors: Vec<ColorRgba> = Vec::new();
        let mut gx: u32 = 0;
        while gx < grid_count
            invariant
                gy < grid_count,
                gx <= grid_count,
                i32::MIN <= cx - grid_count / 2,
                cx - grid_count / 2 + grid_count - 1 <= i32::MAX,
                i32::MIN <= cy - grid_count / 2,
                cy - grid_count / 2 + grid_count - 1 <= i32::MAX,
                colors@.len() == gx,
                forall|i: int| 0 <= i < gx ==> #[trigger] colors@[i] == sample_color(frame, cx as int, cy as int, grid_count as int, i, gy as int),
            decreases grid_count - gx,
        {
            colors.push(sample_color_exec(frame, cx, cy, grid_count, gx, gy));
            gx = gx + 1;
        }
        let mut py: u32 = 0;
        while py < cell_pixels
            invariant
                dim == grid_count * cell_pixels,
                total == dim as int * dim as int * 4,
                total <= u32::MAX,
                gy < grid_count,
                py <= cell_pixels,
                colors@.len() == grid_count,
                forall|i: int| 0 <= i < grid_count ==> #[trigger] colors@[i] == sample_color(frame, cx as int, cy as int, grid_count as int, i, gy as int),
                pixels@.len() == (gy * cell_pixels + py) * dim * 4,
                forall|k: int| 0 <= k < pixels@.len() ==>
                    #[trigger] pixels@[k] == magnifier_byte(frame, cx as int, cy as int, grid_count as int, cell_pixels as int, k),
            decreases cell_pixels - py,
        {
            let ghost oy: int = gy * cell_pixels + py;
            proof {
                assert(oy < dim) by (nonlinear_arith)
                    requires oy == gy * cell_pixels + py, gy < grid_count, py < cell_pixels, dim == grid_count * cell_pixels;
            }
            let mut gx: u32 = 0;
            while gx < grid_count
                invariant
                    dim == grid_count * cell_pixels,
                    total == dim as int * dim as int * 4,
                    total <= u32::MAX,
                    gy < grid_count,
                    py < cell_pixels,
                    cell_pixels >= 1,
                    oy == gy * cell_pixels + py,
                    oy < dim,
                    gx <= grid_count,
                    colors@.len() == grid_count,
                    forall|i: int| 0 <= i < grid_count ==> #[trigger] colors@[i] == sample_color(frame, cx as int, cy as int, grid_count as int, i, gy as int),
                    pixels@.len() == (oy * dim + gx * cell_pixels) * 4,
                    forall|k: int| 0 <= k < pixels@.len() ==>
                        #[trigger] pixels@[k] == magnifier_byte(frame, cx as int, cy as int, grid_count as int, cell_pixels as int, k),
                decreases grid_count - gx,
            {
                let col = colors[gx as usize];
                let mut px: u32 = 0;
                while px < cell_pixels
                    invariant
                        dim == grid_count * cell_pixels,
                        total == dim as int * dim as int * 4,
                        total <= u32::MAX,
                        gy < grid_count,
                        py < cell_pixels,
                        cell_pixels >= 1,
                        oy == gy * cell_pixels + py,
                        oy < dim,
                        gx < grid_count,
                        px <= cell_pixels,
                        col == sample_color(frame, cx as int, cy as int, grid_count as int, gx as int, gy as int),
                        pixels@.len() == (oy * dim + gx * cell_pixels + px) * 4,
                        forall|k: int| 0 <= k < pixels@.len() ==>
                            #[trigger] pixels@[k] == magnifier_byte(frame, cx as int, cy as int, grid_count as int, cell_pixels as int, k),
                    decreases cell_pixels - px,
                {
                    let ghost ox: int = gx * cell_pixels + px;
                    proof {
                        assert(ox < dim) by (nonlinear_arith)
                            requires ox == gx * cell_pixels + px, gx < grid_count, px < cell_pixels, dim == grid_count * cell_pixels;
                        assert((oy * dim + ox) * 4 + 4 <= total) by (nonlinear_arith)
                            requires 0 <= ox < dim, 0 <= oy < dim, total == dim * dim * 4;
                    }
                    let mut c: u32 = 0;
                    while c < 4
                        invariant
                            dim == grid_count * cell_pixels,
                            total == dim as int * dim as int * 4,
                            total <= u32::MAX,
                            gy < grid_count,
                            py < cell_pixels,
                            cell_pixels >= 1,
                            oy == gy * cell_pixels + py,
                            oy < dim,
                            gx < grid_count,
                            px < cell_pixels,
                            ox == gx * cell_pixels + px,
                            ox < dim,
                            (oy * dim + ox) * 4 + 4 <= total,
                            c <= 4,
                            col == sample_color(frame, cx as int, cy as int, grid_count as int, gx as int, gy as int),
                            pixels@.len() == (oy * dim + ox) * 4 + c,
                            forall|k: int| 0 <= k < pixels@.len() ==>
                                #[trigger] pixels@[k] == magnifier_byte(frame, cx as int, cy as int, grid_count as int, cell_pixels as int, k),
                        decreases 4 - c,
                    {
                        let v = cell_byte_exec(col, grid_count, cell_pixels, gx, gy, px, py, c);
                        proof {
                            lemma_decode(pixels@.len() as int, dim as int, cell_pixels as int, ox, oy,
                                gx as int, px as int, gy as int, py as int, c as int);
                        }
                        pixels.push(v);
                        c = c + 1;
                    }
                    px = px + 1;
                }
                gx = gx + 1;
                proof {
                    assert(oy * dim + (gx - 1) * cell_pixels + cell_pixels == oy * dim + gx * cell_pixels) by (nonlinear_arith);
                }
            }
            py = py + 1;
            proof {
                assert(oy * dim + grid_count * cell_pixels == (gy * cell_pixels + py) * dim) by (nonlinear_arith)
                    requires oy == gy * cell_pixels + py - 1, dim == grid_count * cell_pixels;
            }
        }
        gy = gy + 1;
        proof {
            assert((gy - 1) * cell_pixels + cell_pixels == gy * cell_pixels) by (nonlinear_arith);
        }
    }
    proof {
        assert(grid_count * cell_pixels * dim * 4 == grid_count * cell_pixels * grid_count * cell_pixels * 4) by (nonlinear_arith)
            requires dim == grid_count * cell_pixels;
    }
    MagnifierData {
        center_color,
        grid_size: grid_count,
        pixel_size: cell_pixels,
        preview_frame: Frame {
            width: dim,
            height: dim,
            stride,
            format: PixelFormat::Rgba8,
            pixels,
            monitor_id: None,
            timestamp_ms: 0,
        },
    }
}

} // verus!
