//! The ring / wood compositor: distance from a randomly perturbed center,
//! plus a turbulence perturbation, drives a radial sine wave whose magnitude
//! (raised to the power 2/5) sets the pixel brightness.
//!
//! All stages are exact integer arithmetic over fixed-point scales:
//! distances count in 1/2000 pixel, angles count the fraction of a
//! half-turn scaled by 2^20, and sine and brightness values are scaled by
//! 2^20. The wave number is 0.0811 rings per pixel (811 / 10^4), the
//! turbulence strength 14.6 (146 / 10), and the turbulence starts at octave
//! size 32.

use vstd::arithmetic::div_mod::{lemma_div_is_ordered, lemma_div_pos_is_pos, lemma_mod_bound};
use vstd::prelude::*;

use crate::buffer::{PixelBuffer, Rgb};
use crate::lattice::Lattice;
use crate::mathfx::{
    fifth_root, fifth_root_spec, isqrt, lemma_fifth_root_spec_bounds, lemma_pow5_lt,
    lemma_sin_q_bounds, pow5, sin_pi_frac, sin_q, sqrt_spec,
};
use crate::rnd::{fresh_rng, rand_below};
use crate::RenderError;

verus! {

/// Largest accepted per-call center offset, in milli-pixels.
pub const MAX_OFFSET_MILLI: i64 = 8000000;

/// Largest accepted offset spread, in milli-pixels.
pub const MAX_STDDEV_MILLI: u32 = 1000000;

/// Octave-size exponent of the wood turbulence: the initial size is 32.
pub const WOOD_OCTAVE_LOG2: u32 = 5;

/// Squared distance of pixel `(x, y)` from the image center perturbed by
/// the offsets, counted in 1/2000 pixel: the distance itself is
/// `sqrt(radial_num) / 2000` pixels.
pub open spec fn radial_num(w: int, h: int, oxm: int, oym: int, x: int, y: int) -> int {
    let ax = 2000 * x - 1000 * w + 2 * oxm;
    let ay = 2000 * y - 1000 * h + 2 * oym;
    ax * ax + ay * ay
}

/// The ring-wave angle over pi, scaled by 2^20: the wave number 0.0811
/// times the perturbed distance, plus the phase fraction `pf`.
///
/// `g` is the rounded-down root of `radial_num` (distance in 1/2000 px) and
/// `tn` the turbulence numerator (turbulence value scaled by 2^19); the
/// distance in pixels is `g / 2000 + 14.6 * (tn / 2^19) / 256`, which over
/// the common denominator `2000 * 2^23` is `(2^23 * g + 1825 * tn)` parts.
/// Multiplying by the wave number `811 * 2^20 / 10^4` and dividing by that
/// denominator gives the angle fraction; `850395136 == 811 * 2^20` and
/// `167772160000000 == 10^4 * 2000 * 2^23`.
pub open spec fn theta_num(g: int, tn: int, pf: int) -> int {
    (850395136 * (0x800000 * g + 1825 * tn)) / 167772160000000 + pf
}

/// Brightness of one wood pixel, in `[0, 88]`: the amplitude 88 times the
/// absolute sine of the ring angle, raised to the power 2/5 (the fifth root
/// of the square), all in 2^20 fixed point.
pub open spec fn wood_brightness(lat: Lattice, oxm: int, oym: int, pf: int, x: int, y: int) -> int {
    let g = sqrt_spec(radial_num(lat.width as int, lat.height as int, oxm, oym, x, y) as nat);
    let tn = lat.turb_num(x, y, 5);
    let mf = theta_num(g as int, tn, pf) % 0x100000;
    let sf = sin_q(mf);
    let y5 = fifth_root_spec((sf * sf * 0x1000000000000000) as nat);
    (88 * (y5 as int)) / 0x100000
}

/// One channel: base value plus brightness, saturated at 255.
pub open spec fn channel_sat(base: int, b: int) -> u8 {
    if base + b <= 255 {
        (base + b) as u8
    } else {
        255u8
    }
}

/// Color of one wood pixel: channels `(120 + b, 70 + b, 70)`, each
/// saturated to the byte range.
pub open spec fn wood_pixel(lat: Lattice, oxm: int, oym: int, pf: int, x: int, y: int) -> Rgb {
    let b = wood_brightness(lat, oxm, oym, pf, x, y);
    Rgb { r: channel_sat(120, b), g: channel_sat(70, b), b: 70u8 }
}

/// Builds the channels for a brightness value, saturating each at 255.
pub fn compose_channels(brightness: u64) -> (c: Rgb)
    ensures
        c.r == channel_sat(120, brightness as int),
        c.g == channel_sat(70, brightness as int),
        c.b == 70,
{
    let r: u8 = if brightness <= 135 {
        (120 + brightness) as u8
    } else {
        255
    };
    let g: u8 = if brightness <= 185 {
        (70 + brightness) as u8
    } else {
        255
    };
    Rgb { r, g, b: 70 }
}

/// The brightness of every wood pixel lies in `[0, 88]`.
pub proof fn lemma_wood_brightness_bounds(
    lat: Lattice,
    oxm: int,
    oym: int,
    pf: int,
    x: int,
    y: int,
)
    requires
        lat.wf(),
    ensures
        0 <= wood_brightness(lat, oxm, oym, pf, x, y) <= 88,
{
    let g = sqrt_spec(radial_num(lat.width as int, lat.height as int, oxm, oym, x, y) as nat);
    let tn = lat.turb_num(x, y, 5);
    let mf = theta_num(g as int, tn, pf) % 0x100000;
    lemma_mod_bound(theta_num(g as int, tn, pf), 0x100000);
    lemma_sin_q_bounds(mf);
    let sf = sin_q(mf);
    let v5 = (sf * sf * 0x1000000000000000) as nat;
    assert(0 <= sf * sf * 0x1000000000000000 <= 0x10000000000000000000000000)
        by (nonlinear_arith)
        requires
            0 <= sf <= 0x100000,
    ;
    let y5 = fifth_root_spec(v5);
    lemma_fifth_root_spec_bounds(v5);
    assert(pow5(0x100000) == 0x10000000000000000000000000);
    if y5 > 0x100000 {
        lemma_pow5_lt(0x100000, y5 as int);
        assert(false);
    }
    lemma_div_is_ordered(88 * (y5 as int), (88 * 0x100000) as int, 0x100000);
    lemma_div_pos_is_pos(88 * (y5 as int), 0x100000);
}

/// Every wood pixel has blue exactly 70, red `120 + b` and green `70 + b`
/// for the same brightness `b` in `[0, 88]`: red exceeds green by exactly
/// 50, and no channel ever wraps.
pub proof fn lemma_wood_pixel_channels(
    lat: Lattice,
    oxm: int,
    oym: int,
    pf: int,
    x: int,
    y: int,
)
    requires
        lat.wf(),
    ensures
        wood_pixel(lat, oxm, oym, pf, x, y).b == 70,
        wood_pixel(lat, oxm, oym, pf, x, y).r == 120 + wood_brightness(lat, oxm, oym, pf, x, y),
        wood_pixel(lat, oxm, oym, pf, x, y).g == 70 + wood_brightness(lat, oxm, oym, pf, x, y),
        120 <= wood_pixel(lat, oxm, oym, pf, x, y).r <= 208,
{
    lemma_wood_brightness_bounds(lat, oxm, oym, pf, x, y);
}

/// The wood render is a pure function of the lattice and the per-call
/// perturbation: any two buffers that meet the render contract for the same
/// lattice, offsets and phase agree pixel for pixel. A caller that replays
/// the same lattice and perturbation therefore reproduces the image
/// byte for byte.
pub proof fn lemma_wood_render_deterministic(
    lat: Lattice,
    oxm: int,
    oym: int,
    pf: int,
    a: PixelBuffer,
    b: PixelBuffer,
)
    requires
        a.width == lat.width,
        a.height == lat.height,
        b.width == lat.width,
        b.height == lat.height,
        forall|x: int, y: int|
            0 <= x < a.width && 0 <= y < a.height ==> a.pixel(x, y) == #[trigger] wood_pixel(
                lat,
                oxm,
                oym,
                pf,
                x,
                y,
            ),
        forall|x: int, y: int|
            0 <= x < b.width && 0 <= y < b.height ==> b.pixel(x, y) == #[trigger] wood_pixel(
                lat,
                oxm,
                oym,
                pf,
                x,
                y,
            ),
    ensures
        forall|x: int, y: int|
            0 <= x < lat.width && 0 <= y < lat.height ==> a.pixel(x, y) == #[trigger] b.pixel(
                x,
                y,
            ),
{
    assert forall|x: int, y: int|
        0 <= x < lat.width && 0 <= y < lat.height implies a.pixel(x, y) == #[trigger] b.pixel(
        x,
        y,
    ) by {
        assert(a.pixel(x, y) == wood_pixel(lat, oxm, oym, pf, x, y));
        assert(b.pixel(x, y) == wood_pixel(lat, oxm, oym, pf, x, y));
    };
}

/// Computes the color of one wood pixel, exactly as `wood_pixel` states.
pub fn wood_pixel_at(lat: &Lattice, oxm: i64, oym: i64, pf: u32, x: u32, y: u32) -> (c: Rgb)
    requires
        lat.wf(),
        -MAX_OFFSET_MILLI <= oxm <= MAX_OFFSET_MILLI,
        -MAX_OFFSET_MILLI <= oym <= MAX_OFFSET_MILLI,
        pf < 0x100000,
        x < lat.width,
        y < lat.height,
    ensures
        c == wood_pixel(*lat, oxm as int, oym as int, pf as int, x as int, y as int),
{
    let w = lat.width;
    let h = lat.height;
    let ax: i64 = 2000 * (x as i64) - 1000 * (w as i64) + 2 * oxm;
    let ay: i64 = 2000 * (y as i64) - 1000 * (h as i64) + 2 * oym;
    let axa: u64 = if ax < 0 {
        (-ax) as u64
    } else {
        ax as u64
    };
    let aya: u64 = if ay < 0 {
        (-ay) as u64
    } else {
        ay as u64
    };
    proof {
        assert((axa as int) * (axa as int) == (ax as int) * (ax as int) && (axa as int) * (
        axa as int) <= 4356000000000000) by (nonlinear_arith)
            requires
                -66000000 <= (ax as int) <= 66000000,
                axa == if (ax as int) < 0 {
                    -(ax as int)
                } else {
                    (ax as int)
                },
        ;
        assert((aya as int) * (aya as int) == (ay as int) * (ay as int) && (aya as int) * (
        aya as int) <= 4356000000000000) by (nonlinear_arith)
            requires
                -66000000 <= (ay as int) <= 66000000,
                aya == if (ay as int) < 0 {
                    -(ay as int)
                } else {
                    (ay as int)
                },
        ;
    }
    let sq: u64 = axa * axa + aya * aya;
    let g: u64 = isqrt(sq);
    proof {
        assert(g <= 93400000) by (nonlinear_arith)
            requires
                (g as int) * (g as int) <= 8712000000000000,
                0 <= g,
        ;
    }
    let tn: u64 = lat.turbulence_num(x, y, WOOD_OCTAVE_LOG2);
    let inner: u64 = 0x800000 * g + 1825 * tn;
    proof {
        assert((850395136 as int) * (inner as int) <= 690000000000000000000000 && 0 <= (
        850395136 as int) * (inner as int)) by (nonlinear_arith)
            requires
                0 <= (inner as int) <= 800000000000000,
        ;
        lemma_div_is_ordered(
            850395136 * (inner as int),
            690000000000000000000000,
            167772160000000,
        );
        lemma_div_pos_is_pos(850395136 * (inner as int), 167772160000000);
    }
    let tnum: u128 = 850395136u128 * (inner as u128);
    let tgeo: u64 = (tnum / 167772160000000) as u64;
    let theta: u64 = tgeo + (pf as u64);
    let mf: u32 = (theta % 0x100000) as u32;
    let sf: u64 = sin_pi_frac(mf);
    proof {
        assert((sf as int) * (sf as int) <= 0x10000000000 && 0 <= (sf as int) * (sf as int))
            by (nonlinear_arith)
            requires
                0 <= (sf as int) <= 0x100000,
        ;
        assert(((sf as int) * (sf as int)) * 0x1000000000000000
            <= 0x10000000000000000000000000) by (nonlinear_arith)
            requires
                0 <= (sf as int) * (sf as int) <= 0x10000000000,
        ;
    }
    let s2: u128 = (sf as u128) * (sf as u128);
    let v5: u128 = s2 * 0x1000000000000000;
    let y5: u64 = fifth_root(v5);
    proof {
        lemma_div_is_ordered(88 * (y5 as int), (88 * 0x100000) as int, 0x100000);
        lemma_div_pos_is_pos(88 * (y5 as int), 0x100000);
    }
    let b: u64 = (88 * y5) / 0x100000;
    compose_channels(b)
}

/// Renders the wood texture from an already-built lattice and a fixed
/// per-call perturbation: deterministic, pixel for pixel, as `wood_pixel`
/// states.
pub fn rawwood_from(
    lat: &Lattice,
    offset_x_milli: i64,
    offset_y_milli: i64,
    phase_frac: u32,
) -> (buf: PixelBuffer)
    requires
        lat.wf(),
        -MAX_OFFSET_MILLI <= offset_x_milli <= MAX_OFFSET_MILLI,
        -MAX_OFFSET_MILLI <= offset_y_milli <= MAX_OFFSET_MILLI,
        phase_frac < 0x100000,
    ensures
        buf.wf(),
        buf.width == lat.width,
        buf.height == lat.height,
        forall|x: int, y: int|
            0 <= x < buf.width && 0 <= y < buf.height ==> buf.pixel(x, y) == #[trigger] wood_pixel(
                *lat,
                offset_x_milli as int,
                offset_y_milli as int,
                phase_frac as int,
                x,
                y,
            ),
{
    let w = lat.width;
    let h = lat.height;
    let mut data: Vec<Rgb> = Vec::new();
    let mut y: u32 = 0;
    while y < h
        invariant
            lat.wf(),
            w == lat.width,
            h == lat.height,
            -MAX_OFFSET_MILLI <= offset_x_milli <= MAX_OFFSET_MILLI,
            -MAX_OFFSET_MILLI <= offset_y_milli <= MAX_OFFSET_MILLI,
            phase_frac < 0x100000,
            y <= h,
            data.len() == y * w,
            forall|xx: int, yy: int|
                0 <= xx < w && 0 <= yy < y ==> data[yy * (w as int) + xx] == #[trigger] wood_pixel(
                    *lat,
                    offset_x_milli as int,
                    offset_y_milli as int,
                    phase_frac as int,
                    xx,
                    yy,
                ),
        decreases h - y,
    {
        let mut x: u32 = 0;
        while x < w
            invariant
                lat.wf(),
                w == lat.width,
                h == lat.height,
                -MAX_OFFSET_MILLI <= offset_x_milli <= MAX_OFFSET_MILLI,
                -MAX_OFFSET_MILLI <= offset_y_milli <= MAX_OFFSET_MILLI,
                phase_frac < 0x100000,
                y < h,
                x <= w,
                data.len() == y * w + x,
                forall|xx: int, yy: int|
                    0 <= xx < w && 0 <= yy < y ==> data[yy * (w as int) + xx]
                        == #[trigger] wood_pixel(
                        *lat,
                        offset_x_milli as int,
                        offset_y_milli as int,
                        phase_frac as int,
                        xx,
                        yy,
                    ),
                forall|xx: int|
                    0 <= xx < x ==> data[(y as int) * (w as int) + xx] == #[trigger] wood_pixel(
                        *lat,
                        offset_x_milli as int,
                        offset_y_milli as int,
                        phase_frac as int,
                        xx,
                        y as int,
                    ),
            decreases w - x,
        {
            let c = wood_pixel_at(lat, offset_x_milli, offset_y_milli, phase_frac, x, y);
            data.push(c);
            proof {
                assert forall|xx: int, yy: int| 0 <= xx < w && 0 <= yy < y
                    implies data[yy * (w as int) + xx] == #[trigger] wood_pixel(
                    *lat,
                    offset_x_milli as int,
                    offset_y_milli as int,
                    phase_frac as int,
                    xx,
                    yy,
                ) by {
                    assert(yy * (w as int) + xx < (y as int) * (w as int)) by (nonlinear_arith)
                        requires
                            0 <= xx < w as int,
                            0 <= yy < y as int,
                    ;
                };
            }
            x = x + 1;
        }
        proof {
            assert((y as int + 1) * (w as int) == (y as int) * (w as int) + (
            w as int)) by (nonlinear_arith);
        }
        y = y + 1;
    }
    let buf = PixelBuffer { width: w, height: h, data };
    proof {
        assert((h as int) * (w as int) == (w as int) * (h as int)) by (nonlinear_arith);
    }
    buf
}

/// Draws a random center offset in milli-pixels whose spread is
/// proportional to `stddev_milli`: twelve uniform draws are summed and
/// centered (an approximately normal shape), then scaled. A zero spread
/// always yields exactly zero.
pub fn sample_offset_milli(stddev_milli: u32, rng: &mut rand::rngs::StdRng) -> (r: i64)
    requires
        stddev_milli <= MAX_STDDEV_MILLI,
    ensures
        -6 * (stddev_milli as int) <= r <= 6 * (stddev_milli as int),
        stddev_milli == 0 ==> r == 0,
{
    let mut sum: u32 = 0;
    let mut i: u32 = 0;
    while i < 12
        invariant
            i <= 12,
            sum <= i * 4095,
        decreases 12 - i,
    {
        let d = rand_below(rng, 4096);
        sum = sum + d;
        i = i + 1;
    }
    let z: i64 = (sum as i64) - 24570;
    let s: i64 = stddev_milli as i64;
    if z >= 0 {
        proof {
            assert(0 <= (s as int) * (z as int) <= (s as int) * 24570) by (nonlinear_arith)
                requires
                    0 <= (z as int) <= 24570,
                    0 <= (s as int) <= 1000000,
            ;
            lemma_div_is_ordered((s as int) * (z as int), (s as int) * 24576, 4096);
            assert((s as int) * 24570 <= (s as int) * 24576) by (nonlinear_arith)
                requires
                    0 <= s as int,
            ;
            lemma_div_is_ordered((s as int) * (z as int), (s as int) * 24576, 4096);
            assert(((s as int) * 24576) / 4096 == 6 * (s as int)) by (nonlinear_arith);
            lemma_div_pos_is_pos((s as int) * (z as int), 4096);
        }
        (s * z) / 4096
    } else {
        let zn: i64 = -z;
        proof {
            assert(0 <= (s as int) * (zn as int) <= (s as int) * 24570) by (nonlinear_arith)
                requires
                    0 <= (zn as int) <= 24570,
                    0 <= (s as int) <= 1000000,
            ;
            lemma_div_is_ordered((s as int) * (zn as int), (s as int) * 24576, 4096);
            assert(((s as int) * 24576) / 4096 == 6 * (s as int)) by (nonlinear_arith);
            lemma_div_pos_is_pos((s as int) * (zn as int), 4096);
        }
        -((s * zn) / 4096)
    }
}

/// Renders a wood texture of the given dimensions, drawing the lattice,
/// the center offset and the wave phase from `rng`. Zero dimensions are
/// rejected; every returned pixel has blue exactly 70 and red exceeding
/// green by exactly 50, with red in `[120, 208]`.
pub fn rawwood_with_rng(
    width: u32,
    height: u32,
    offset_stddev_milli: u32,
    rng: &mut rand::rngs::StdRng,
) -> (res: Result<PixelBuffer, RenderError>)
    requires
        width <= crate::lattice::MAX_DIM,
        height <= crate::lattice::MAX_DIM,
        offset_stddev_milli <= MAX_STDDEV_MILLI,
    ensures
        (width == 0 || height == 0) <==> res is Err,
        res is Err ==> res->Err_0 == RenderError::InvalidDimension,
        res is Ok ==> res->Ok_0.wf() && res->Ok_0.width == width && res->Ok_0.height == height
            && forall|x: int, y: int|
            0 <= x < width && 0 <= y < height ==> {
                let px = #[trigger] res->Ok_0.pixel(x, y);
                px.b == 70 && 120 <= px.r <= 208 && px.g == px.r - 50
            },
{
    if width == 0 || height == 0 {
        return Err(RenderError::InvalidDimension);
    }
    let lat = Lattice::generate(width, height, rng);
    let ox = sample_offset_milli(offset_stddev_milli, rng);
    let oy = sample_offset_milli(offset_stddev_milli, rng);
    let pf = rand_below(rng, 0x100000);
    let buf = rawwood_from(&lat, ox, oy, pf);
    proof {
        assert forall|x: int, y: int| 0 <= x < width && 0 <= y < height implies {
            let px = #[trigger] buf.pixel(x, y);
            px.b == 70 && 120 <= px.r <= 208 && px.g == px.r - 50
        } by {
            lemma_wood_pixel_channels(lat, ox as int, oy as int, pf as int, x, y);
        };
    }
    Ok(buf)
}

/// Renders a wood texture with a fresh random source, as `rawwood_with_rng`
/// does.
pub fn rawwood(width: u32, height: u32, offset_stddev_milli: u32) -> (res: Result<
    PixelBuffer,
    RenderError,
>)
    requires
        width <= crate::lattice::MAX_DIM,
        height <= crate::lattice::MAX_DIM,
        offset_stddev_milli <= MAX_STDDEV_MILLI,
    ensures
        (width == 0 || height == 0) <==> res is Err,
        res is Err ==> res->Err_0 == RenderError::InvalidDimension,
        res is Ok ==> res->Ok_0.wf() && res->Ok_0.width == width && res->Ok_0.height == height
            && forall|x: int, y: int|
            0 <= x < width && 0 <= y < height ==> {
                let px = #[trigger] res->Ok_0.pixel(x, y);
                px.b == 70 && 120 <= px.r <= 208 && px.g == px.r - 50
            },
{
    let mut rng = fresh_rng();
    rawwood_with_rng(width, height, offset_stddev_milli, &mut rng)
}

} // verus!
