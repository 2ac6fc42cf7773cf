//! The noise lattice: a grid of independent uniform samples, read only
//! through toroidal (wraparound) bilinear interpolation, and the turbulence
//! sampler that sums octaves of it.
//!
//! Lattice values are fixed-point numbers in `[0, NOISE_ONE)`, standing for
//! reals in `[0, 1)`. One octave's interpolated sample is kept as an exact
//! integer numerator over the denominator `z * z * NOISE_ONE`, where
//! `z = 2^k` is the octave size; the turbulence sum over octaves
//! `k = 0 ..= K` is kept over the denominator `2^K * 2^K * NOISE_ONE / 2^k`
//! folded together, so that no rounding happens before the final consumer.

use vstd::arithmetic::div_mod::{
    lemma_div_multiples_vanish_fancy, lemma_fundamental_div_mod, lemma_mod_bound,
    lemma_mod_multiples_vanish,
};
use vstd::prelude::*;

use crate::rnd::rand_below;

verus! {

/// Fixed-point one for lattice values: samples lie in `[0, NOISE_ONE)`.
pub const NOISE_ONE: u32 = 0x10000;

/// Largest accepted lattice (and hence wood image) dimension, in pixels.
pub const MAX_DIM: u32 = 16384;

/// Largest octave-size exponent the turbulence sampler accepts (size 32).
pub const MAX_OCTAVE_LOG2: u32 = 5;

/// `2^k`.
pub open spec fn pow2k(k: nat) -> int
    decreases k,
{
    if k == 0 {
        1
    } else {
        2 * pow2k((k - 1) as nat)
    }
}

/// `2^k` is positive.
pub proof fn lemma_pow2k_pos(k: nat)
    ensures
        pow2k(k) >= 1,
    decreases k,
{
    if k > 0 {
        lemma_pow2k_pos((k - 1) as nat);
    }
}

/// `2^k` is monotone in `k`.
pub proof fn lemma_pow2k_mono(a: nat, b: nat)
    requires
        a <= b,
    ensures
        pow2k(a) <= pow2k(b),
    decreases b,
{
    if a < b {
        lemma_pow2k_mono(a, (b - 1) as nat);
        lemma_pow2k_pos((b - 1) as nat);
    }
}

/// A `width` x `height` grid of independent uniform samples, filled once at
/// construction and read-only afterwards.
pub struct Lattice {
    pub width: u32,
    pub height: u32,
    pub data: Vec<u32>,
}

impl Lattice {
    /// The grid holds one sample per cell, each below `NOISE_ONE`.
    pub open spec fn wf(self) -> bool {
        &&& 1 <= self.width <= MAX_DIM
        &&& 1 <= self.height <= MAX_DIM
        &&& self.data.len() == self.width * self.height
        &&& forall|i: int| 0 <= i < self.data.len() ==> #[trigger] self.data[i] < NOISE_ONE
    }

    /// The sample at cell `(xi, yi)`, for already-reduced indices.
    pub open spec fn val(self, xi: int, yi: int) -> int {
        self.data[yi * self.width + xi] as int
    }

    /// Builds a lattice of `width * height` independent uniform samples
    /// drawn from `rng`.
    pub fn generate(width: u32, height: u32, rng: &mut rand::rngs::StdRng) -> (lat: Lattice)
        requires
            1 <= width <= MAX_DIM,
            1 <= height <= MAX_DIM,
        ensures
            lat.wf(),
            lat.width == width,
            lat.height == height,
    {
        proof {
            assert(0 <= (width as int) * (height as int) <= 0x10000000) by (nonlinear_arith)
                requires
                    1 <= width as int <= 16384,
                    1 <= height as int <= 16384,
            ;
        }
        let total: u64 = (width as u64) * (height as u64);
        let mut data: Vec<u32> = Vec::new();
        let mut i: u64 = 0;
        while i < total
            invariant
                total == (width as int) * (height as int),
                0 <= total <= 0x10000000,
                i <= total,
                data.len() == i,
                forall|j: int| 0 <= j < data.len() ==> #[trigger] data[j] < NOISE_ONE,
            decreases total - i,
        {
            let v = rand_below(rng, NOISE_ONE);
            data.push(v);
            i = i + 1;
        }
        Lattice { width, height, data }
    }

    /// Reads the sample at cell `(xi, yi)`; indices must already be reduced.
    fn cell(&self, xi: u32, yi: u32) -> (v: u32)
        requires
            self.wf(),
            xi < self.width,
            yi < self.height,
        ensures
            v == self.val(xi as int, yi as int),
            v < NOISE_ONE,
    {
        proof {
            assert((yi as int) * (self.width as int) + (xi as int)
                < (self.width as int) * (self.height as int)) by (nonlinear_arith)
                requires
                    0 <= (xi as int) < (self.width as int),
                    0 <= (yi as int) < (self.height as int),
            ;
        }
        self.data[(yi as usize) * (self.width as usize) + (xi as usize)]
    }

    /// Numerator of one octave's bilinearly interpolated, toroidally wrapped
    /// sample at lattice coordinate `(x / 2^k, y / 2^k)`; the denominator is
    /// `2^k * 2^k * NOISE_ONE`.
    ///
    /// The four corners are the wrapped floor cell and its left, upper, and
    /// upper-left neighbors, weighted by the coordinate fractions.
    pub open spec fn smooth_num(self, x: int, y: int, k: nat) -> int {
        let z = pow2k(k);
        let a = x % z;
        let b = y % z;
        let x1 = (x / z) % (self.width as int);
        let y1 = (y / z) % (self.height as int);
        let x2 = (x1 + self.width - 1) % (self.width as int);
        let y2 = (y1 + self.height - 1) % (self.height as int);
        a * b * self.val(x1, y1) + (z - a) * b * self.val(x2, y1) + a * (z - b) * self.val(
            x1,
            y2,
        ) + (z - a) * (z - b) * self.val(x2, y2)
    }

    /// Computes `smooth_num` exactly; the result is below `2^26`.
    pub fn smooth_sample_num(&self, x: u32, y: u32, k: u32) -> (s: u64)
        requires
            self.wf(),
            k <= MAX_OCTAVE_LOG2,
        ensures
            s == self.smooth_num(x as int, y as int, k as nat),
            s < 0x4000000,
    {
        let mut z: u32 = 1;
        let mut i: u32 = 0;
        while i < k
            invariant
                i <= k <= 5,
                z == pow2k(i as nat),
                1 <= z <= 32,
            decreases k - i,
        {
            proof {
                lemma_pow2k_mono((i + 1) as nat, 5);
                assert(pow2k(5) == 32) by {
                    reveal_with_fuel(pow2k, 6);
                };
            }
            z = z * 2;
            i = i + 1;
        }
        let a: u32 = x % z;
        let b: u32 = y % z;
        let x1: u32 = (x / z) % self.width;
        let y1: u32 = (y / z) % self.height;
        let x2: u32 = (x1 + self.width - 1) % self.width;
        let y2: u32 = (y1 + self.height - 1) % self.height;
        let v11 = self.cell(x1, y1);
        let v21 = self.cell(x2, y1);
        let v12 = self.cell(x1, y2);
        let v22 = self.cell(x2, y2);
        proof {
            lemma_mod_bound(x as int, z as int);
            lemma_mod_bound(y as int, z as int);
        }
        let au: u64 = a as u64;
        let bu: u64 = b as u64;
        let za: u64 = (z - a) as u64;
        let zb: u64 = (z - b) as u64;
        let w11: u64 = v11 as u64;
        let w21: u64 = v21 as u64;
        let w12: u64 = v12 as u64;
        let w22: u64 = v22 as u64;
        proof {
            assert(0 <= (au as int) * (bu as int) <= 0x400 && 0 <= (za as int) * (bu as int)
                <= 0x400 && 0 <= (au as int) * (zb as int) <= 0x400 && 0 <= (za as int) * (
            zb as int) <= 0x400 && 0 <= (au as int) * (bu as int) * (w11 as int) <= 0x3FFFC00
                && 0 <= (za as int) * (bu as int) * (w21 as int) <= 0x3FFFC00 && 0 <= (
            au as int) * (zb as int) * (w12 as int) <= 0x3FFFC00 && 0 <= (za as int) * (
            zb as int) * (w22 as int) <= 0x3FFFC00) by (nonlinear_arith)
                requires
                    0 <= au as int <= 32,
                    0 <= bu as int <= 32,
                    0 <= za as int <= 32,
                    0 <= zb as int <= 32,
                    (w11 as int) < 0x10000,
                    (w21 as int) < 0x10000,
                    (w12 as int) < 0x10000,
                    (w22 as int) < 0x10000,
            ;
        }
        let t11: u64 = au * bu * w11;
        let t21: u64 = za * bu * w21;
        let t12: u64 = au * zb * w12;
        let t22: u64 = za * zb * w22;
        proof {
            self.lemma_smooth_num_bound(x as int, y as int, k as nat);
        }
        t11 + t21 + t12 + t22
    }

    /// Numerator of the turbulence sum over octaves `0 ..= k`: octave `j`
    /// contributes its sample weighted by its size `2^j`, so over the common
    /// denominator the recursion doubles the tail once per octave.
    pub open spec fn turb_num(self, x: int, y: int, k: nat) -> int
        decreases k,
    {
        if k == 0 {
            self.smooth_num(x, y, 0)
        } else {
            self.smooth_num(x, y, k) + 2 * self.turb_num(x, y, (k - 1) as nat)
        }
    }

    /// The turbulence numerator lies in `[0, (2^(k+1) - 1) * 2^26)`.
    pub proof fn lemma_turb_num_bound(self, x: int, y: int, k: nat)
        requires
            self.wf(),
            k <= 5,
        ensures
            0 <= self.turb_num(x, y, k),
            self.turb_num(x, y, k) < (pow2k(k + 1) - 1) * 0x4000000,
        decreases k,
    {
        self.lemma_smooth_num_bound(x, y, k);
        if k == 0 {
        } else {
            self.lemma_turb_num_bound(x, y, (k - 1) as nat);
            let s = self.smooth_num(x, y, k);
            let t = self.turb_num(x, y, (k - 1) as nat);
            assert(s + 2 * t < (pow2k(k + 1) - 1) * 0x4000000) by (nonlinear_arith)
                requires
                    0 <= s < 0x4000000,
                    0 <= t < (pow2k(k) - 1) * 0x4000000,
                    pow2k(k + 1) == 2 * pow2k(k),
            ;
        }
    }

    /// One octave's sample numerator lies in `[0, 2^26)`.
    pub proof fn lemma_smooth_num_bound(self, x: int, y: int, k: nat)
        requires
            self.wf(),
            k <= 5,
        ensures
            0 <= self.smooth_num(x, y, k) < 0x4000000,
    {
        let z = pow2k(k);
        lemma_pow2k_pos(k);
        lemma_pow2k_mono(k, 5);
        assert(pow2k(5) == 32) by {
            reveal_with_fuel(pow2k, 6);
        };
        let a = x % z;
        let b = y % z;
        lemma_mod_bound(x, z);
        lemma_mod_bound(y, z);
        let x1 = (x / z) % (self.width as int);
        let y1 = (y / z) % (self.height as int);
        lemma_mod_bound(x / z, self.width as int);
        lemma_mod_bound(y / z, self.height as int);
        let x2 = (x1 + self.width - 1) % (self.width as int);
        let y2 = (y1 + self.height - 1) % (self.height as int);
        lemma_mod_bound(x1 + self.width - 1, self.width as int);
        lemma_mod_bound(y1 + self.height - 1, self.height as int);
        self.lemma_val_bound(x1, y1);
        self.lemma_val_bound(x2, y1);
        self.lemma_val_bound(x1, y2);
        self.lemma_val_bound(x2, y2);
        let v11 = self.val(x1, y1);
        let v21 = self.val(x2, y1);
        let v12 = self.val(x1, y2);
        let v22 = self.val(x2, y2);
        assert(a * b + (z - a) * b + a * (z - b) + (z - a) * (z - b) == z * z)
            by (nonlinear_arith);
        assert(a * b * v11 <= a * b * 0xFFFF && 0 <= a * b * v11) by (nonlinear_arith)
            requires
                0 <= a,
                0 <= b,
                0 <= v11 <= 0xFFFF,
        ;
        assert((z - a) * b * v21 <= (z - a) * b * 0xFFFF && 0 <= (z - a) * b * v21)
            by (nonlinear_arith)
            requires
                a <= z,
                0 <= b,
                0 <= v21 <= 0xFFFF,
        ;
        assert(a * (z - b) * v12 <= a * (z - b) * 0xFFFF && 0 <= a * (z - b) * v12)
            by (nonlinear_arith)
            requires
                0 <= a,
                b <= z,
                0 <= v12 <= 0xFFFF,
        ;
        assert((z - a) * (z - b) * v22 <= (z - a) * (z - b) * 0xFFFF && 0 <= (z - a) * (z - b)
            * v22) by (nonlinear_arith)
            requires
                a <= z,
                b <= z,
                0 <= v22 <= 0xFFFF,
        ;
        assert(a * b * 0xFFFF + (z - a) * b * 0xFFFF + a * (z - b) * 0xFFFF + (z - a) * (z - b)
            * 0xFFFF == (z * z) * 0xFFFF) by (nonlinear_arith)
            requires
                a * b + (z - a) * b + a * (z - b) + (z - a) * (z - b) == z * z,
        ;
        assert((z * z) * 0xFFFF < 0x4000000) by (nonlinear_arith)
            requires
                1 <= z <= 32,
        ;
    }

    /// Reduced cell indices read a sample in `[0, NOISE_ONE)`.
    pub proof fn lemma_val_bound(self, xi: int, yi: int)
        requires
            self.wf(),
            0 <= xi < self.width,
            0 <= yi < self.height,
        ensures
            0 <= self.val(xi, yi) < NOISE_ONE,
    {
        assert(0 <= yi * self.width + xi < (self.width as int) * (self.height as int))
            by (nonlinear_arith)
            requires
                0 <= xi < self.width as int,
                0 <= yi < self.height as int,
        ;
    }

    /// Computes `turb_num` exactly; the result is below `2^32`.
    pub fn turbulence_num(&self, x: u32, y: u32, size_log2: u32) -> (t: u64)
        requires
            self.wf(),
            size_log2 <= MAX_OCTAVE_LOG2,
        ensures
            t == self.turb_num(x as int, y as int, size_log2 as nat),
            t < 0x100000000,
    {
        let mut acc: u64 = self.smooth_sample_num(x, y, 0);
        let mut k: u32 = 1;
        while k <= size_log2
            invariant
                self.wf(),
                size_log2 <= 5,
                1 <= k <= size_log2 + 1,
                acc == self.turb_num(x as int, y as int, (k - 1) as nat),
            decreases size_log2 + 1 - k,
        {
            proof {
                self.lemma_turb_num_bound(x as int, y as int, (k - 1) as nat);
                lemma_pow2k_mono(k as nat, 6);
                assert(pow2k(6) == 64) by {
                    reveal_with_fuel(pow2k, 7);
                };
            }
            let s = self.smooth_sample_num(x, y, k);
            acc = s + 2 * acc;
            k = k + 1;
        }
        proof {
            self.lemma_turb_num_bound(x as int, y as int, (size_log2) as nat);
            lemma_pow2k_mono((size_log2 + 1) as nat, 6);
            assert(pow2k(6) == 64) by {
                reveal_with_fuel(pow2k, 7);
            };
            assert((pow2k(size_log2 as nat + 1) - 1) * 0x4000000 <= 63 * 0x4000000)
                by (nonlinear_arith)
                requires
                    pow2k(size_log2 as nat + 1) <= 64,
            ;
        }
        acc
    }

    /// Toroidal continuity of one octave: shifting the pixel coordinate by
    /// any whole number of lattice periods (`width * 2^k` pixels) lands on
    /// the same wrapped cells and fractions, so sampling at the left edge
    /// and one period to its right interpolates identically.
    pub proof fn lemma_smooth_wraparound(self, x: int, y: int, k: nat, t: int)
        requires
            self.wf(),
            0 <= x,
            0 <= t,
        ensures
            self.smooth_num(x + t * (self.width as int) * pow2k(k), y, k) == self.smooth_num(
                x,
                y,
                k,
            ),
    {
        let z = pow2k(k);
        let w = self.width as int;
        lemma_pow2k_pos(k);
        let xs = x + t * w * z;
        assert(xs == z * (t * w) + x) by (nonlinear_arith)
            requires
                xs == x + t * w * z,
        ;
        lemma_mod_bound(x, z);
        lemma_mod_multiples_vanish(t * w, x, z);
        assert(xs % z == x % z);
        lemma_fundamental_div_mod(x, z);
        assert(xs == z * (t * w + x / z) + x % z) by (nonlinear_arith)
            requires
                xs == z * (t * w) + x,
                x == z * (x / z) + x % z,
        ;
        lemma_div_multiples_vanish_fancy(t * w + x / z, x % z, z);
        assert(xs / z == t * w + x / z);
        lemma_mod_multiples_vanish(t, x / z, w);
        assert(w * t + x / z == t * w + x / z) by (nonlinear_arith);
        assert((xs / z) % w == (x / z) % w);
    }

    /// The same toroidal continuity holds in the vertical direction: one
    /// octave's sample is unchanged by a shift of any whole number of
    /// lattice periods (`height * 2^k` pixels) in `y`.
    pub proof fn lemma_smooth_wraparound_y(self, x: int, y: int, k: nat, t: int)
        requires
            self.wf(),
            0 <= y,
            0 <= t,
        ensures
            self.smooth_num(x, y + t * (self.height as int) * pow2k(k), k) == self.smooth_num(
                x,
                y,
                k,
            ),
    {
        let z = pow2k(k);
        let h = self.height as int;
        lemma_pow2k_pos(k);
        let ys = y + t * h * z;
        assert(ys == z * (t * h) + y) by (nonlinear_arith)
            requires
                ys == y + t * h * z,
        ;
        lemma_mod_bound(y, z);
        lemma_mod_multiples_vanish(t * h, y, z);
        assert(ys % z == y % z);
        lemma_fundamental_div_mod(y, z);
        assert(ys == z * (t * h + y / z) + y % z) by (nonlinear_arith)
            requires
                ys == z * (t * h) + y,
                y == z * (y / z) + y % z,
        ;
        lemma_div_multiples_vanish_fancy(t * h + y / z, y % z, z);
        assert(ys / z == t * h + y / z);
        lemma_mod_multiples_vanish(t, y / z, h);
        assert(h * t + y / z == t * h + y / z) by (nonlinear_arith);
        assert((ys / z) % h == (y / z) % h);
    }

    /// Toroidal continuity of the whole turbulence sum: shifting the pixel
    /// coordinate by `width * 2^k` pixels (one period of the coarsest
    /// octave) leaves every octave's sample, and so the sum, unchanged.
    pub proof fn lemma_turbulence_wraparound(self, x: int, y: int, k: nat, t: int)
        requires
            self.wf(),
            0 <= x,
            0 <= t,
        ensures
            self.turb_num(x + t * (self.width as int) * pow2k(k), y, k) == self.turb_num(
                x,
                y,
                k,
            ),
        decreases k,
    {
        let w = self.width as int;
        self.lemma_smooth_wraparound(x, y, k, t);
        if k == 0 {
        } else {
            self.lemma_turbulence_wraparound(x, y, (k - 1) as nat, 2 * t);
            assert(x + (2 * t) * w * pow2k((k - 1) as nat) == x + t * w * pow2k(k))
                by (nonlinear_arith)
                requires
                    pow2k(k) == 2 * pow2k((k - 1) as nat),
            ;
        }
    }

    /// The whole turbulence sum is also unchanged by a shift of one
    /// coarsest-octave period (`height * 2^k` pixels) in `y`.
    pub proof fn lemma_turbulence_wraparound_y(self, x: int, y: int, k: nat, t: int)
        requires
            self.wf(),
            0 <= y,
            0 <= t,
        ensures
            self.turb_num(x, y + t * (self.height as int) * pow2k(k), k) == self.turb_num(
                x,
                y,
                k,
            ),
        decreases k,
    {
        let h = self.height as int;
        self.lemma_smooth_wraparound_y(x, y, k, t);
        if k == 0 {
        } else {
            self.lemma_turbulence_wraparound_y(x, y, (k - 1) as nat, 2 * t);
            assert(y + (2 * t) * h * pow2k((k - 1) as nat) == y + t * h * pow2k(k))
                by (nonlinear_arith)
                requires
                    pow2k(k) == 2 * pow2k((k - 1) as nat),
            ;
        }
    }
}

} // verus!
