//! The board renderer: maps each pixel to a board coordinate and composites
//! a fixed, ordered set of geometric region and line predicates.
//!
//! Board coordinates are exact rationals: for a square size of `m`
//! milli-pixels, the pixel column `x` has board x-coordinate
//! `(1000000 * x - 6376 * m) / (1000 * m)`. Every predicate below compares
//! such rationals, multiplied out so that only integers appear.

use vstd::math::abs;
use vstd::prelude::*;

use crate::buffer::{PixelBuffer, Rgb};
use crate::RenderError;

verus! {

/// Board width in milli-squares: the board spans 12.752 squares horizontally.
pub const BOARD_SPAN_X_MILLI: u64 = 12752;

/// Board height in milli-squares: the board spans 19.284 squares vertically.
pub const BOARD_SPAN_Y_MILLI: u64 = 19284;

/// Largest accepted square size, in milli-pixels (one square = 1000 pixels).
pub const MAX_SQUARE_MILLI: u32 = 1000000;

/// Color of the plain board surface.
pub open spec fn base_color() -> Rgb {
    Rgb { r: 193, g: 193, b: 193 }
}

/// Accent A: the central 3x3 block and the four corner accent squares.
pub open spec fn accent_a() -> Rgb {
    Rgb { r: 204, g: 136, b: 82 }
}

/// Accent B: the single square at the center of the cross band.
pub open spec fn accent_b() -> Rgb {
    Rgb { r: 32, g: 72, b: 38 }
}

/// Accent C: the arm cells of the cross band.
pub open spec fn accent_c() -> Rgb {
    Rgb { r: 98, g: 133, b: 177 }
}

/// Color of every painted line.
pub open spec fn line_color() -> Rgb {
    Rgb { r: 10, g: 10, b: 10 }
}

/// Image width in pixels for a square size of `m` milli-pixels:
/// `m / 1000 * 12.752`, rounded to the nearest integer (half rounds up).
pub open spec fn board_width_px(m: int) -> int {
    (m * 12752 + 500000) / 1000000
}

/// Image height in pixels for a square size of `m` milli-pixels:
/// `m / 1000 * 19.284`, rounded to the nearest integer (half rounds up).
pub open spec fn board_height_px(m: int) -> int {
    (m * 19284 + 500000) / 1000000
}

/// Numerator of the board x-coordinate of pixel column `x`; the denominator
/// is `1000 * m`.
pub open spec fn coord_x_num(m: int, x: int) -> int {
    1000000 * x - 6376 * m
}

/// Numerator of the board y-coordinate of pixel row `y`; the denominator
/// is `1000 * m`.
pub open spec fn coord_y_num(m: int, y: int) -> int {
    1000000 * y - 9642 * m
}

/// `|cx| <= 1.5 && |cy| <= 1.5`: the central 3x3-square block.
pub open spec fn in_central_block(nx: int, ny: int, m: int) -> bool {
    abs(nx) <= 1500 * m && abs(ny) <= 1500 * m
}

/// `1.5 <= |cx| <= 2.5 && 1.5 <= |cy| <= 2.5`: the four corner accent squares.
pub open spec fn in_corner_square(nx: int, ny: int, m: int) -> bool {
    1500 * m <= abs(nx) && abs(nx) <= 2500 * m && 1500 * m <= abs(ny) && abs(ny) <= 2500 * m
}

/// The cross-shaped band: a horizontal strip union a vertical strip.
pub open spec fn in_cross_band(nx: int, ny: int, m: int) -> bool {
    (abs(nx) <= 2500 * m && abs(ny) <= 500 * m) || (abs(ny) <= 2500 * m && abs(nx) <= 500 * m)
}

/// The central 1x1 square of the cross band.
pub open spec fn in_cross_center(nx: int, ny: int, m: int) -> bool {
    abs(nx) <= 500 * m && abs(ny) <= 500 * m
}

/// Position of gridline `j` (of ten) in milli-squares: -4.5, -3.5, ..., 4.5.
pub open spec fn gridline_pos_milli(j: int) -> int {
    -4500 + 1000 * j
}

/// Pixel lies on gridline `j`, horizontal or vertical: within half-width
/// 0.02 of the line, clipped to 4.5 + 0.02 on the perpendicular axis.
pub open spec fn on_gridline_at(nx: int, ny: int, m: int, j: int) -> bool {
    (abs(gridline_pos_milli(j) * m - nx) <= 20 * m && abs(ny) <= 4520 * m)
    || (abs(gridline_pos_milli(j) * m - ny) <= 20 * m && abs(nx) <= 4520 * m)
}

/// Pixel lies on one of the ten horizontal or ten vertical gridlines.
pub open spec fn on_gridline(nx: int, ny: int, m: int) -> bool {
    exists|j: int| 0 <= j < 10 && #[trigger] on_gridline_at(nx, ny, m, j)
}

/// The four short perpendicular tick segments at the corner-square and
/// cross-band boundaries (at 2.5 - 0.08 and 0.5 - 0.08 board units).
pub open spec fn on_corner_tick(nx: int, ny: int, m: int) -> bool {
    (abs(abs(nx) - 2420 * m) <= 20 * m && abs(ny) <= 440 * m && 250 * m <= abs(ny))
    || (abs(abs(ny) - 2420 * m) <= 20 * m && abs(nx) <= 440 * m && 250 * m <= abs(nx))
    || (abs(abs(ny) - 420 * m) <= 20 * m && abs(nx) <= 2440 * m && 2250 * m <= abs(nx))
    || (abs(abs(nx) - 420 * m) <= 20 * m && abs(ny) <= 2440 * m && 2250 * m <= abs(ny))
}

/// The two diagonal lines through the origin with slopes -1 and +1:
/// `|cx + cy| <= 0.04 / sqrt(2)` (squared to stay rational) and `|cx| <= 2.5`.
pub open spec fn on_diagonal(nx: int, ny: int, m: int) -> bool {
    ((nx + ny) * (nx + ny) <= 800 * m * m && abs(nx) <= 2500 * m)
    || ((nx - ny) * (nx - ny) <= 800 * m * m && abs(nx) <= 2500 * m)
}

/// Color of the point with board coordinate numerators `(nx, ny)`:
/// last-write-wins compositing, so the latest matching predicate decides.
pub open spec fn region_color(nx: int, ny: int, m: int) -> Rgb {
    if on_diagonal(nx, ny, m) || on_corner_tick(nx, ny, m) || on_gridline(nx, ny, m) {
        line_color()
    } else if in_cross_band(nx, ny, m) {
        if in_cross_center(nx, ny, m) {
            accent_b()
        } else {
            accent_c()
        }
    } else if in_corner_square(nx, ny, m) || in_central_block(nx, ny, m) {
        accent_a()
    } else {
        base_color()
    }
}

/// Color of the pixel at column `x`, row `y` for square size `m` milli-pixels.
pub open spec fn board_color(m: int, x: int, y: int) -> Rgb {
    region_color(coord_x_num(m, x), coord_y_num(m, y), m)
}

/// Absolute value of an `i64` that is not `i64::MIN`.
fn iabs(v: i64) -> (r: i64)
    requires
        v > i64::MIN,
    ensures
        r == abs(v as int),
{
    if v < 0 {
        -v
    } else {
        v
    }
}

/// Computes the pixel dimensions of the board image for a square size given
/// in milli-pixels.
pub fn board_dimensions(square_milli: u32) -> (dims: (u32, u32))
    requires
        1 <= square_milli <= MAX_SQUARE_MILLI,
    ensures
        dims.0 == board_width_px(square_milli as int),
        dims.1 == board_height_px(square_milli as int),
{
    let w: u64 = (square_milli as u64 * BOARD_SPAN_X_MILLI + 500000) / 1000000;
    let h: u64 = (square_milli as u64 * BOARD_SPAN_Y_MILLI + 500000) / 1000000;
    (w as u32, h as u32)
}

/// Computes the color of one board pixel, exactly as `board_color` states.
pub fn board_pixel(m: u32, x: u32, y: u32) -> (c: Rgb)
    requires
        1 <= m <= MAX_SQUARE_MILLI,
        x <= 20000,
        y <= 20000,
    ensures
        c == board_color(m as int, x as int, y as int),
{
    let mi: i64 = m as i64;
    let nx: i64 = 1000000 * (x as i64) - 6376 * mi;
    let ny: i64 = 1000000 * (y as i64) - 9642 * mi;
    let ghost nxs: int = coord_x_num(m as int, x as int);
    let ghost nys: int = coord_y_num(m as int, y as int);

    let anx = iabs(nx);
    let any = iabs(ny);

    // diagonals, squared in 128-bit arithmetic
    let sum: i128 = (nx as i128) + (ny as i128);
    let dif: i128 = (nx as i128) - (ny as i128);
    proof {
        assert(sum * sum <= 0x10000000000000000000000i128 && 0 <= sum * sum)
            by (nonlinear_arith)
            requires
                -100000000000i128 <= sum <= 100000000000i128;
        assert(dif * dif <= 0x10000000000000000000000i128 && 0 <= dif * dif)
            by (nonlinear_arith)
            requires
                -100000000000i128 <= dif <= 100000000000i128;
        assert(0 <= (mi as i128) * (mi as i128) <= 0x1000000000000i128) by (nonlinear_arith)
            requires
                0 <= (mi as i128) <= 1000000i128;
    }
    let mm: i128 = (mi as i128) * (mi as i128);
    let band: i128 = 800 * mm;
    let diag: bool = (sum * sum <= band || dif * dif <= band) && anx <= 2500 * mi;
    proof {
        assert(800 * ((m as int) * (m as int)) == 800 * (m as int) * (m as int))
            by (nonlinear_arith);
    }
    assert(diag == on_diagonal(nxs, nys, m as int));

    // corner ticks
    let tick: bool = (iabs(anx - 2420 * mi) <= 20 * mi && any <= 440 * mi && 250 * mi <= any)
        || (iabs(any - 2420 * mi) <= 20 * mi && anx <= 440 * mi && 250 * mi <= anx)
        || (iabs(any - 420 * mi) <= 20 * mi && anx <= 2440 * mi && 2250 * mi <= anx)
        || (iabs(anx - 420 * mi) <= 20 * mi && any <= 2440 * mi && 2250 * mi <= any);
    assert(tick == on_corner_tick(nxs, nys, m as int));

    // gridlines
    let mut grid: bool = false;
    let mut j: u32 = 0;
    while j < 10
        invariant
            1 <= m <= MAX_SQUARE_MILLI,
            x <= 20000,
            y <= 20000,
            mi == m as i64,
            nxs == coord_x_num(m as int, x as int),
            nys == coord_y_num(m as int, y as int),
            nx == nxs,
            ny == nys,
            anx == abs(nxs),
            any == abs(nys),
            j <= 10,
            grid == exists|jj: int| 0 <= jj < j && #[trigger] on_gridline_at(nxs, nys, m as int, jj),
        decreases 10 - j,
    {
        let loc: i64 = -4500 + 1000 * (j as i64);
        proof {
            assert(-4500000000000i64 <= loc * mi <= 4500000000000i64) by (nonlinear_arith)
                requires
                    -4500i64 <= loc <= 4500i64,
                    0 <= mi <= 1000000i64;
        }
        let here: bool = (iabs(loc * mi - nx) <= 20 * mi && any <= 4520 * mi)
            || (iabs(loc * mi - ny) <= 20 * mi && anx <= 4520 * mi);
        assert(here == on_gridline_at(nxs, nys, m as int, j as int));
        if here {
            grid = true;
        }
        j = j + 1;
    }
    assert(grid == on_gridline(nxs, nys, m as int));

    if diag || tick || grid {
        Rgb { r: 10, g: 10, b: 10 }
    } else if (anx <= 2500 * mi && any <= 500 * mi) || (any <= 2500 * mi && anx <= 500 * mi) {
        if anx <= 500 * mi && any <= 500 * mi {
            Rgb { r: 32, g: 72, b: 38 }
        } else {
            Rgb { r: 98, g: 133, b: 177 }
        }
    } else if (1500 * mi <= anx && anx <= 2500 * mi && 1500 * mi <= any && any <= 2500 * mi)
        || (anx <= 1500 * mi && any <= 1500 * mi) {
        Rgb { r: 204, g: 136, b: 82 }
    } else {
        Rgb { r: 193, g: 193, b: 193 }
    }
}

/// Renders the board for a square size of `square_milli` milli-pixels.
///
/// The image is `board_width_px` x `board_height_px`; every pixel carries
/// exactly the color that `board_color` assigns to it. A scale of zero, or
/// one so small that the image would have no pixels, is rejected.
pub fn rawboard(square_milli: u32) -> (res: Result<PixelBuffer, RenderError>)
    requires
        square_milli <= MAX_SQUARE_MILLI,
    ensures
        (square_milli == 0 || board_width_px(square_milli as int) < 1
            || board_height_px(square_milli as int) < 1) <==> res is Err,
        res is Err ==> res->Err_0 == RenderError::InvalidDimension,
        res is Ok ==> res->Ok_0.wf()
            && res->Ok_0.width == board_width_px(square_milli as int)
            && res->Ok_0.height == board_height_px(square_milli as int)
            && forall|x: int, y: int|
                0 <= x < res->Ok_0.width && 0 <= y < res->Ok_0.height
                    ==> res->Ok_0.pixel(x, y) == #[trigger] board_color(
                        square_milli as int, x, y),
{
    if square_milli == 0 {
        return Err(RenderError::InvalidDimension);
    }
    let (w, h) = board_dimensions(square_milli);
    if w == 0 || h == 0 {
        return Err(RenderError::InvalidDimension);
    }
    let m = square_milli;
    assert(w <= 12753 && h <= 19285);
    let mut data: Vec<Rgb> = Vec::new();
    let mut y: u32 = 0;
    while y < h
        invariant
            1 <= m <= MAX_SQUARE_MILLI,
            w == board_width_px(m as int),
            h == board_height_px(m as int),
            1 <= w <= 12753,
            1 <= h <= 19285,
            y <= h,
            data.len() == y * w,
            forall|xx: int, yy: int|
                0 <= xx < w && 0 <= yy < y
                    ==> data[yy * (w as int) + xx] == #[trigger] board_color(m as int, xx, yy),
        decreases h - y,
    {
        let mut x: u32 = 0;
        while x < w
            invariant
                1 <= m <= MAX_SQUARE_MILLI,
                w == board_width_px(m as int),
                h == board_height_px(m as int),
                1 <= w <= 12753,
                1 <= h <= 19285,
                y < h,
                x <= w,
                data.len() == y * w + x,
                forall|xx: int, yy: int|
                    0 <= xx < w && 0 <= yy < y
                        ==> data[yy * (w as int) + xx] == #[trigger] board_color(
                            m as int, xx, yy),
                forall|xx: int|
                    0 <= xx < x
                        ==> data[(y as int) * (w as int) + xx] == #[trigger] board_color(
                            m as int, xx, y as int),
            decreases w - x,
        {
            let c = board_pixel(m, x, y);
            data.push(c);
            proof {
                assert forall|xx: int, yy: int| 0 <= xx < w && 0 <= yy < y
                    implies data[yy * (w as int) + xx] == #[trigger] board_color(
                    m as int, xx, yy) by {
                    assert(yy * (w as int) + xx < (y as int) * (w as int)) by (nonlinear_arith)
                        requires
                            0 <= xx < w as int,
                            0 <= yy < y as int,
                    ;
                };
            }
            x = x + 1;
        }
        proof {
            assert((y as int + 1) * (w as int) == (y as int) * (w as int) + (
            w as int)) by (nonlinear_arith);
        }
        y = y + 1;
    }
    let buf = PixelBuffer { width: w, height: h, data };
    proof {
        assert((h as int) * (w as int) == (w as int) * (h as int)) by (nonlinear_arith);
        assert(buf.wf());
        assert(forall|x: int, y: int|
            0 <= x < w && 0 <= y < h
                ==> buf.pixel(x, y) == #[trigger] board_color(m as int, x, y));
    }
    Ok(buf)
}

/// Every region and line predicate is invariant under negating both
/// coordinate numerators: the board design is symmetric under a 180-degree
/// rotation about the board origin.
pub proof fn lemma_region_color_symmetric(nx: int, ny: int, m: int)
    ensures
        region_color(-nx, -ny, m) == region_color(nx, ny, m),
{
    assert(((-nx) + (-ny)) * ((-nx) + (-ny)) == (nx + ny) * (nx + ny)) by (nonlinear_arith);
    assert(((-nx) - (-ny)) * ((-nx) - (-ny)) == (nx - ny) * (nx - ny)) by (nonlinear_arith);
    assert(on_gridline(-nx, -ny, m) == on_gridline(nx, ny, m)) by {
        if on_gridline(nx, ny, m) {
            let j = choose|j: int| 0 <= j < 10 && #[trigger] on_gridline_at(nx, ny, m, j);
            assert(gridline_pos_milli(9 - j) * m == -(gridline_pos_milli(j) * m))
                by (nonlinear_arith)
                requires
                    gridline_pos_milli(9 - j) == -gridline_pos_milli(j),
            ;
            assert(on_gridline_at(-nx, -ny, m, 9 - j));
        }
        if on_gridline(-nx, -ny, m) {
            let j = choose|j: int| 0 <= j < 10 && #[trigger] on_gridline_at(-nx, -ny, m, j);
            assert(gridline_pos_milli(9 - j) * m == -(gridline_pos_milli(j) * m))
                by (nonlinear_arith)
                requires
                    gridline_pos_milli(9 - j) == -gridline_pos_milli(j),
            ;
            assert(on_gridline_at(nx, ny, m, 9 - j));
        }
    };
}

/// A 180-degree rotation about the board center maps every pixel to a pixel
/// of the same color: two pixel columns `x` and `xr` whose board
/// x-coordinates are exact negatives of each other (`x + xr` spans the full
/// board width of `12.752` squares), and rows `y` and `yr` likewise, carry
/// the same color.
///
/// The board center and the image center coincide up to the sub-pixel
/// remainder of rounding the image dimensions; for scales where
/// `12752 * m` and `19284 * m` are whole multiples of 10^6, whole pixel
/// pairs line up and the hypotheses below are met with `xr == span - x`.
pub proof fn lemma_board_point_symmetric(m: int, x: int, y: int, xr: int, yr: int)
    requires
        1000000 * (x + xr) == 12752 * m,
        1000000 * (y + yr) == 19284 * m,
    ensures
        board_color(m, xr, yr) == board_color(m, x, y),
{
    assert(coord_x_num(m, xr) == -coord_x_num(m, x));
    assert(coord_y_num(m, yr) == -coord_y_num(m, y));
    lemma_region_color_symmetric(coord_x_num(m, x), coord_y_num(m, y), m);
}

} // verus!
