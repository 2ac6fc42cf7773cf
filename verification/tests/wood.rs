//! Tests for the wood synthesizer and its fixed-point helpers: channel
//! structure, determinism under a fixed seed, toroidal wraparound, error
//! cases, and exact values of the integer root and sine helpers.

use boardtex::lattice::Lattice;
use boardtex::mathfx::{fifth_root, isqrt, sin_pi_frac, SIN_ONE};
use boardtex::wood::{compose_channels, rawwood_with_rng, sample_offset_milli};
use boardtex::RenderError;
use rand::rngs::StdRng;
use rand::SeedableRng;

#[test]
fn wood_center_pixel_channels() {
    // 80 x 80 with no offset jitter: the center pixel, like every pixel,
    // carries (120 + b, 70 + b, 70) for one brightness b.
    let mut rng = StdRng::seed_from_u64(7);
    let buf = rawwood_with_rng(80, 80, 0, &mut rng).unwrap();
    assert_eq!(buf.width_px(), 80);
    assert_eq!(buf.height_px(), 80);
    let c = buf.get(40, 40);
    assert_eq!(c.b, 70);
    assert_eq!(c.r as i32 - c.g as i32, 50);
    assert_eq!(c.r as i32 - 120, c.g as i32 - 70);
}

#[test]
fn wood_all_channels_in_range() {
    let mut rng = StdRng::seed_from_u64(99);
    let buf = rawwood_with_rng(64, 48, 500, &mut rng).unwrap();
    for y in 0..48 {
        for x in 0..64 {
            let c = buf.get(x, y);
            assert_eq!(c.b, 70);
            assert!(c.r >= 120 && c.r <= 208);
            assert_eq!(c.g, c.r - 50);
        }
    }
}

#[test]
fn wood_identical_for_identical_seed() {
    let mut rng1 = StdRng::seed_from_u64(42);
    let mut rng2 = StdRng::seed_from_u64(42);
    let a = rawwood_with_rng(80, 80, 0, &mut rng1).unwrap();
    let b = rawwood_with_rng(80, 80, 0, &mut rng2).unwrap();
    for y in 0..80 {
        for x in 0..80 {
            assert_eq!(a.get(x, y), b.get(x, y));
        }
    }
}

#[test]
fn wood_differs_across_seeds() {
    let mut rng1 = StdRng::seed_from_u64(1);
    let mut rng2 = StdRng::seed_from_u64(2);
    let a = rawwood_with_rng(80, 80, 0, &mut rng1).unwrap();
    let b = rawwood_with_rng(80, 80, 0, &mut rng2).unwrap();
    let mut differs = false;
    for y in 0..80 {
        for x in 0..80 {
            if a.get(x, y) != b.get(x, y) {
                differs = true;
            }
        }
    }
    assert!(differs);
}

#[test]
fn wood_with_fresh_randomness_keeps_channel_structure() {
    // rawwood seeds its own generator; whatever it drew, the channel
    // structure of every pixel is fixed.
    let buf = boardtex::wood::rawwood(16, 16, 250).unwrap();
    assert_eq!(buf.width_px(), 16);
    assert_eq!(buf.height_px(), 16);
    for y in 0..16 {
        for x in 0..16 {
            let c = buf.get(x, y);
            assert_eq!(c.b, 70);
            assert!(c.r >= 120 && c.r <= 208);
            assert_eq!(c.g, c.r - 50);
        }
    }
}

#[test]
fn wood_rejects_zero_dimensions() {
    let mut rng = StdRng::seed_from_u64(3);
    match rawwood_with_rng(0, 80, 0, &mut rng) {
        Err(e) => assert_eq!(e, RenderError::InvalidDimension),
        Ok(_) => panic!("zero width must be rejected"),
    }
    match rawwood_with_rng(80, 0, 0, &mut rng) {
        Err(e) => assert_eq!(e, RenderError::InvalidDimension),
        Ok(_) => panic!("zero height must be rejected"),
    }
}

#[test]
fn offset_zero_spread_is_exactly_zero() {
    let mut rng = StdRng::seed_from_u64(5);
    for _ in 0..20 {
        assert_eq!(sample_offset_milli(0, &mut rng), 0);
    }
}

#[test]
fn offset_spread_is_bounded() {
    let mut rng = StdRng::seed_from_u64(6);
    for _ in 0..200 {
        let r = sample_offset_milli(1000, &mut rng);
        assert!(-6000 <= r && r <= 6000);
    }
}

#[test]
fn lattice_values_lie_below_one() {
    // Every lattice sample must be strictly below the fixed-point one; a
    // sampler that handed its bound back unchanged would fail here.
    let mut rng = StdRng::seed_from_u64(8);
    let lat = Lattice::generate(16, 16, &mut rng);
    for v in &lat.data {
        assert!(*v < 65536);
    }
}

#[test]
fn sampling_wraps_around_the_lattice() {
    // Sampling one full lattice period to the right interpolates the same
    // cells with the same fractions: the texture tiles seamlessly.
    let mut rng = StdRng::seed_from_u64(9);
    let lat = Lattice::generate(7, 5, &mut rng);
    for y in 0..5 {
        assert_eq!(
            lat.smooth_sample_num(0, y, 0),
            lat.smooth_sample_num(7, y, 0)
        );
        assert_eq!(
            lat.turbulence_num(3, y, 5),
            lat.turbulence_num(3 + 7 * 32, y, 5)
        );
        assert_eq!(
            lat.turbulence_num(y, 2, 5),
            lat.turbulence_num(y, 2 + 5 * 32, 5)
        );
    }
}

#[test]
fn integer_square_root_exact_values() {
    assert_eq!(isqrt(0), 0);
    assert_eq!(isqrt(15), 3);
    assert_eq!(isqrt(16), 4);
    assert_eq!(isqrt(u64::MAX), 4294967295);
}

#[test]
fn integer_fifth_root_exact_values() {
    assert_eq!(fifth_root(0), 0);
    assert_eq!(fifth_root(3124), 4);
    assert_eq!(fifth_root(3125), 5);
    assert_eq!(fifth_root(1u128 << 100), 1 << 20);
}

#[test]
fn sine_approximation_exact_values() {
    // sin(0) = 0, sin(pi/2) = 1 (exactly, in 2^20 fixed point), sin(pi) = 0.
    assert_eq!(sin_pi_frac(0), 0);
    assert_eq!(sin_pi_frac(0x80000), SIN_ONE);
    assert_eq!(sin_pi_frac(0x100000), 0);
    // sin(pi/4): 3 * 2^22 / 17 rounded down.
    assert_eq!(sin_pi_frac(0x40000), 740171);
}

#[test]
fn channels_saturate_instead_of_wrapping() {
    let c = compose_channels(1000);
    assert_eq!((c.r, c.g, c.b), (255, 255, 70));
    let c = compose_channels(0);
    assert_eq!((c.r, c.g, c.b), (120, 70, 70));
    let c = compose_channels(88);
    assert_eq!((c.r, c.g, c.b), (208, 158, 70));
}
